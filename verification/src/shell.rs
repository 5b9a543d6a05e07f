//! The decisions of the read loop: what one input line does to the command,
//! what is to be done for it, and whether it goes into the history.

use crate::command::{Command, CommandView, Invocation, InvocationView};
use crate::escape::{split_command, tokenize};
use itertools::Itertools;
use vstd::prelude::*;
use vstd::slice::slice_subrange;
use vstd::std_specs::iter::IteratorSpec;
use vstd::string::*;

verus! {

/// Why a line was not carried out.
#[derive(Debug)]
pub enum Error {
    /// A control line was used in another way than the one given here.
    Usage(&'static str),
}

/// What an [`Error`] stands for.
pub enum ErrorView {
    Usage(Seq<char>),
}

impl View for Error {
    type V = ErrorView;

    open spec fn view(&self) -> ErrorView {
        match self {
            Error::Usage(err) => ErrorView::Usage(err@),
        }
    }
}

impl ErrorView {
    /// The message that tells the operator of the error.
    pub open spec fn message(self) -> Seq<char> {
        match self {
            ErrorView::Usage(err) => "Usage: "@ + err,
        }
    }
}

impl Error {
    /// The message that tells the operator of the error.
    pub fn to_string(&self) -> (text: String)
        ensures
            text@ == self@.message(),
    {
        match self {
            Error::Usage(err) => String::from_str("Usage: ").concat(err),
        }
    }
}

/// What is to be done for a line once the command has taken it in.
#[derive(Debug)]
pub enum Action {
    /// Nothing: the line held no token.
    Nothing,
    /// The command was changed: show this prompt from now on.
    Prompt(String),
    /// Run the command once, as given here.
    Run(Invocation),
}

/// What an [`Action`] stands for.
pub enum ActionView {
    Nothing,
    Prompt(Seq<char>),
    Run(InvocationView),
}

impl View for Action {
    type V = ActionView;

    open spec fn view(&self) -> ActionView {
        match self {
            Action::Nothing => ActionView::Nothing,
            Action::Prompt(prompt) => ActionView::Prompt(prompt@),
            Action::Run(run) => ActionView::Run(run@),
        }
    }
}

/// The command after each of `names` was removed from it, in order.
pub open spec fn without_options(command: CommandView, names: Seq<Seq<char>>) -> CommandView
    decreases names.len(),
{
    if names.len() == 0 {
        command
    } else {
        without_options(command, names.drop_last()).without_option(names.last())
    }
}

/// The command after each of `names` was added to it, in order.
pub open spec fn with_options(command: CommandView, names: Seq<Seq<char>>) -> CommandView
    decreases names.len(),
{
    if names.len() == 0 {
        command
    } else {
        with_options(command, names.drop_last()).with_option(names.last())
    }
}

/// The prompt that shows `command`.
pub open spec fn prompt_for(command: CommandView) -> Seq<char> {
    "> "@ + command.rendered() + " "@
}

/// What a line of the tokens `tokens` makes of `command`: after `-` each
/// further token is removed as an option, after `+` each is added as one,
/// after `++` the one option is added with the one value; any other line
/// leaves the command as it is.
pub open spec fn command_after(command: CommandView, tokens: Seq<Seq<char>>) -> CommandView {
    if tokens.len() == 0 {
        command
    } else if tokens[0] == "-"@ {
        without_options(command, tokens.subrange(1, tokens.len() as int))
    } else if tokens[0] == "+"@ {
        with_options(command, tokens.subrange(1, tokens.len() as int))
    } else if tokens[0] == "++"@ && tokens.len() == 3 {
        command.with_option_value(tokens[1], tokens[2])
    } else {
        command
    }
}

/// What is to be done for a line of the tokens `tokens`: nothing for none,
/// a new prompt after a control line, an error after `++` with anything but
/// two further tokens, and else one run with all tokens as extra arguments.
pub open spec fn response(command: CommandView, tokens: Seq<Seq<char>>) -> Result<
    ActionView,
    ErrorView,
> {
    if tokens.len() == 0 {
        Ok(ActionView::Nothing)
    } else if tokens[0] == "++"@ && tokens.len() != 3 {
        Err(ErrorView::Usage("++ <option> <arg>"@))
    } else if tokens[0] == "-"@ || tokens[0] == "+"@ || tokens[0] == "++"@ {
        Ok(ActionView::Prompt(prompt_for(command_after(command, tokens))))
    } else {
        Ok(ActionView::Run(command.invocation(tokens)))
    }
}

/// The view of what [`Shell::execute`] returns.
pub open spec fn result_view(result: Result<Action, Error>) -> Result<ActionView, ErrorView> {
    match result {
        Ok(action) => Ok(action@),
        Err(error) => Err(error@),
    }
}

/// Whether two texts are the same.
pub fn same_text(a: &str, b: &str) -> (same: bool)
    ensures
        same == (a@ == b@),
{
    let mut x = a.chars();
    let mut y = b.chars();
    let ghost mut i: int = 0;
    loop
        invariant
            0 <= i <= a@.len(),
            i <= b@.len(),
            x.remaining() == a@.subrange(i, a@.len() as int),
            y.remaining() == b@.subrange(i, b@.len() as int),
            a@.subrange(0, i) == b@.subrange(0, i),
        decreases a@.len() - i,
    {
        let c = x.next();
        let d = y.next();
        match (c, d) {
            (None, None) => {
                assert(a@.subrange(0, i) == a@);
                assert(b@.subrange(0, i) == b@);
                return true;
            },
            (Some(c), Some(d)) => {
                if c != d {
                    return false;
                }
            },
            _ => {
                return false;
            },
        }
        proof {
            i = i + 1;
        }
    }
}

/// `Itertools::collect_vec` on the items of `args`: a `Vec` that holds them
/// in order.
#[verifier::external_body]
fn collect_vec<'a>(args: &[&'a str]) -> (items: Vec<&'a str>)
    ensures
        items@ == args@,
{
    args.iter().copied().collect_vec()
}

/// What the read loop keeps from one line to the next.
pub struct Shell {
    cmd: Command,
    last_cmd: Option<String>,
    save_history: bool,
}

/// What a [`Shell`] stands for.
pub struct ShellView {
    pub cmd: CommandView,
    pub last_cmd: Option<Seq<char>>,
    pub save_history: bool,
}

impl View for Shell {
    type V = ShellView;

    closed spec fn view(&self) -> ShellView {
        ShellView {
            cmd: self.cmd@,
            last_cmd: match self.last_cmd {
                Some(line) => Some(line@),
                None => None,
            },
            save_history: self.save_history,
        }
    }
}

impl ShellView {
    /// The shell with `cmd` as its command and the rest as it is.
    pub open spec fn with_cmd(self, cmd: CommandView) -> ShellView {
        ShellView { cmd, last_cmd: self.last_cmd, save_history: self.save_history }
    }

    /// The shell with `line` as the last line that it took note of.
    pub open spec fn with_last(self, line: Seq<char>) -> ShellView {
        ShellView { cmd: self.cmd, last_cmd: Some(line), save_history: self.save_history }
    }

    /// Whether `line` goes into the history: it holds a token, and it is not
    /// the line before it once more.
    pub open spec fn records(self, line: Seq<char>) -> bool {
        tokenize(line).len() > 0 && self.last_cmd != Some(line)
    }

    /// The shell after `line`: the command is what the line makes of it, and
    /// a line that holds a token is the last one taken note of.
    pub open spec fn after_line(self, line: Seq<char>) -> ShellView {
        ShellView {
            cmd: command_after(self.cmd, tokenize(line)),
            last_cmd: if tokenize(line).len() > 0 {
                Some(line)
            } else {
                self.last_cmd
            },
            save_history: self.save_history,
        }
    }
}

/// What became of one line.
#[derive(Debug)]
pub struct Outcome {
    /// What is to be done for the line, or why it was not carried out.
    pub result: Result<Action, Error>,
    /// The line, if it is to be added to the history.
    pub history: Option<String>,
}

impl Shell {
    /// A shell for `cmd` that has seen no line yet and does not save its
    /// history.
    pub fn new(cmd: Command) -> (shell: Shell)
        ensures
            shell@ == (ShellView { cmd: cmd@, last_cmd: None, save_history: false }),
    {
        Shell { cmd, last_cmd: None, save_history: false }
    }

    /// From now on the history is to be saved when the session ends.
    pub fn enable_save_history(&mut self)
        ensures
            final(self)@ == (ShellView {
                cmd: old(self)@.cmd,
                last_cmd: old(self)@.last_cmd,
                save_history: true,
            }),
    {
        self.save_history = true;
    }

    /// Whether the history is to be saved when the session ends.
    pub fn saves_history(&self) -> (save: bool)
        ensures
            save == self@.save_history,
    {
        self.save_history
    }

    /// The command as it stands.
    pub fn get_cmd(&self) -> (cmd: &Command)
        ensures
            cmd@ == self@.cmd,
    {
        &self.cmd
    }

    /// The prompt that shows the command as it stands.
    pub fn prompt(&self) -> (prompt: String)
        ensures
            prompt@ == prompt_for(self@.cmd),
    {
        let line = self.cmd.to_string();
        let mut prompt = String::from_str("> ");
        prompt.append(line.as_str());
        prompt.append(" ");
        prompt
    }

    /// Removes each of `args` from the command as an option.
    pub fn remove_opts(&mut self, args: &[&str]) -> (result: Result<Action, Error>)
        ensures
            final(self)@ == old(self)@.with_cmd(without_options(old(self)@.cmd, args.deep_view())),
            result_view(result) == Ok::<ActionView, ErrorView>(
                ActionView::Prompt(prompt_for(final(self)@.cmd)),
            ),
    {
        let ghost names = args.deep_view();
        let n = args.len();
        let mut i: usize = 0;
        while i < n
            invariant
                n == args.len(),
                i <= n,
                names == args.deep_view(),
                self@ == old(self)@.with_cmd(
                    without_options(old(self)@.cmd, names.subrange(0, i as int)),
                ),
            decreases n - i,
        {
            self.cmd.remove_opt(args[i]);
            proof {
                assert(names.subrange(0, i + 1).drop_last() == names.subrange(0, i as int));
            }
            i = i + 1;
        }
        assert(names.subrange(0, n as int) == names);
        Ok(Action::Prompt(self.prompt()))
    }

    /// Adds each of `args` to the command as an option.
    pub fn add_opts(&mut self, args: &[&str]) -> (result: Result<Action, Error>)
        ensures
            final(self)@ == old(self)@.with_cmd(with_options(old(self)@.cmd, args.deep_view())),
            result_view(result) == Ok::<ActionView, ErrorView>(
                ActionView::Prompt(prompt_for(final(self)@.cmd)),
            ),
    {
        let ghost names = args.deep_view();
        let n = args.len();
        let mut i: usize = 0;
        while i < n
            invariant
                n == args.len(),
                i <= n,
                names == args.deep_view(),
                self@ == old(self)@.with_cmd(
                    with_options(old(self)@.cmd, names.subrange(0, i as int)),
                ),
            decreases n - i,
        {
            self.cmd.add_opt(args[i]);
            proof {
                assert(names.subrange(0, i + 1).drop_last() == names.subrange(0, i as int));
            }
            i = i + 1;
        }
        assert(names.subrange(0, n as int) == names);
        Ok(Action::Prompt(self.prompt()))
    }

    /// Adds the option and the value that `args` hold, if it holds just
    /// these two; else the command stays as it is.
    pub fn add_opt_arg(&mut self, args: &[&str]) -> (result: Result<Action, Error>)
        ensures
            args@.len() == 2 ==> final(self)@ == old(self)@.with_cmd(
                old(self)@.cmd.with_option_value(args[0]@, args[1]@),
            ) && result_view(result) == Ok::<ActionView, ErrorView>(
                ActionView::Prompt(prompt_for(final(self)@.cmd)),
            ),
            args@.len() != 2 ==> final(self)@ == old(self)@ && result_view(result) == Err::<
                ActionView,
                ErrorView,
            >(ErrorView::Usage("++ <option> <arg>"@)),
    {
        let args = collect_vec(args);
        if args.len() == 2 {
            self.cmd.add_opt_arg(args[0], args[1]);
            Ok(Action::Prompt(self.prompt()))
        } else {
            Err(Error::Usage("++ <option> <arg>"))
        }
    }

    /// Carries out the line whose tokens are `args`: a control line changes
    /// the command; any other line with a token asks for one run of it.
    pub fn execute(&mut self, args: Vec<&str>) -> (result: Result<Action, Error>)
        ensures
            final(self)@ == old(self)@.with_cmd(command_after(old(self)@.cmd, args.deep_view())),
            result_view(result) == response(old(self)@.cmd, args.deep_view()),
    {
        let n = args.len();
        if n == 0 {
            return Ok(Action::Nothing);
        }
        let ghost tokens = args.deep_view();
        let all = args.as_slice();
        let first = all[0];
        let rest = slice_subrange(all, 1, n);
        proof {
            reveal_strlit("-");
            reveal_strlit("+");
            reveal_strlit("++");
            assert(first@ == tokens[0]);
            assert(rest.deep_view() == tokens.subrange(1, n as int));
        }
        if same_text(first, "-") {
            self.remove_opts(rest)
        } else if same_text(first, "+") {
            self.add_opts(rest)
        } else if same_text(first, "++") {
            self.add_opt_arg(rest)
        } else {
            Ok(Action::Run(self.cmd.build_command(all)))
        }
    }

    /// Takes note of `line` and hands it back for the history, unless it is
    /// the line before it once more.
    pub fn add_history(&mut self, line: String) -> (entry: Option<String>)
        ensures
            old(self)@.last_cmd == Some(line@) ==> entry is None && final(self)@ == old(self)@,
            old(self)@.last_cmd != Some(line@) ==> entry is Some && entry->0@ == line@,
            old(self)@.last_cmd != Some(line@) ==> final(self)@ == old(self)@.with_last(line@),
    {
        let repeated = match &self.last_cmd {
            Some(last) => *last == line,
            None => false,
        };
        if repeated {
            None
        } else {
            self.last_cmd = Some(line.clone());
            Some(line)
        }
    }

    /// Takes in one line of input: carries it out, and takes note of it for
    /// the history if it holds a token, whether or not it could be carried
    /// out.
    pub fn handle_line(&mut self, line: String) -> (outcome: Outcome)
        ensures
            final(self)@ == old(self)@.after_line(line@),
            result_view(outcome.result) == response(old(self)@.cmd, tokenize(line@)),
            outcome.history is Some <==> old(self)@.records(line@),
            outcome.history is Some ==> outcome.history->0@ == line@,
    {
        let args = split_command(line.as_str()).collect();
        let empty = args.len() == 0;
        let result = self.execute(args);
        let history = if empty {
            None
        } else {
            self.add_history(line)
        };
        Outcome { result, history }
    }

    /// Carries out `line`.
    pub fn execute_line(&mut self, line: &str) -> (result: Result<Action, Error>)
        ensures
            final(self)@ == old(self)@.with_cmd(command_after(old(self)@.cmd, tokenize(line@))),
            result_view(result) == response(old(self)@.cmd, tokenize(line@)),
    {
        self.execute(split_command(line).collect())
    }
}

} // verus!
