//! The base command line: an executable and the arguments that stay with it
//! from one run to the next.

use crate::escape::{escape, escaped};
use itertools::Itertools;
use vstd::prelude::*;
use vstd::std_specs::iter::IteratorSpec;
use vstd::string::*;

verus! {

/// Whether `s` starts with a dash.
pub open spec fn has_dash(s: Seq<char>) -> bool {
    s.len() > 0 && s[0] == '-'
}

/// How many dashes `name` starts with.
pub open spec fn leading_dashes(name: Seq<char>) -> nat
    decreases name.len(),
{
    if has_dash(name) {
        1 + leading_dashes(name.drop_first())
    } else {
        0
    }
}

/// `name` without the dashes it starts with.
pub open spec fn stripped(name: Seq<char>) -> Seq<char> {
    name.subrange(leading_dashes(name) as int, name.len() as int)
}

/// The spelling of option `name` with one dash.
pub open spec fn short_spelling(name: Seq<char>) -> Seq<char> {
    seq!['-'] + stripped(name)
}

/// The spelling of option `name` with two dashes.
pub open spec fn long_spelling(name: Seq<char>) -> Seq<char> {
    seq!['-', '-'] + stripped(name)
}

/// Whether `token` is option `name` in one of its two spellings.
pub open spec fn names_option(name: Seq<char>, token: Seq<char>) -> bool {
    token == short_spelling(name) || token == long_spelling(name)
}

/// Whether `name` takes one byte, which makes it a short option: it is a
/// single ASCII character.
pub open spec fn is_short_name(name: Seq<char>) -> bool {
    name.len() == 1 && name[0] <= '\u{7f}'
}

/// The spelling under which option `name` is added: as given where it
/// starts with a dash, else with one dash before a short name and two before
/// any other.
pub open spec fn canonical(name: Seq<char>) -> Seq<char> {
    if has_dash(name) {
        name
    } else if is_short_name(name) {
        seq!['-'] + name
    } else {
        seq!['-', '-'] + name
    }
}

/// Whether removing option `name` from `args` drops the token at `i`: it is
/// a spelling of the option, or it follows one and does not start with a
/// dash, which makes it that option's value.
pub open spec fn drops(args: Seq<Seq<char>>, name: Seq<char>, i: int) -> bool {
    names_option(name, args[i]) || (i > 0 && names_option(name, args[i - 1]) && !has_dash(args[i]))
}

/// What removing option `name` leaves of the first `n` tokens of `args`.
pub open spec fn without_option_upto(args: Seq<Seq<char>>, name: Seq<char>, n: nat) -> Seq<
    Seq<char>,
>
    decreases n,
{
    if n == 0 {
        Seq::empty()
    } else {
        let before = without_option_upto(args, name, (n - 1) as nat);
        if drops(args, name, n - 1) {
            before
        } else {
            before.push(args[n - 1])
        }
    }
}

/// `args` without option `name` and the values paired with it.
pub open spec fn without_option(args: Seq<Seq<char>>, name: Seq<char>) -> Seq<Seq<char>> {
    without_option_upto(args, name, args.len())
}

/// `args` with option `name` as the last of them, and nowhere else.
pub open spec fn with_option(args: Seq<Seq<char>>, name: Seq<char>) -> Seq<Seq<char>> {
    without_option(args, name).push(canonical(name))
}

/// `parts` in one line, with `sep` between each two of them.
pub open spec fn joined(parts: Seq<Seq<char>>, sep: Seq<char>) -> Seq<char>
    decreases parts.len(),
{
    if parts.len() == 0 {
        Seq::empty()
    } else if parts.len() == 1 {
        parts[0]
    } else {
        joined(parts.drop_last(), sep) + sep + parts.last()
    }
}

/// What a [`Command`] stands for.
pub struct CommandView {
    pub executable: Seq<char>,
    pub args: Seq<Seq<char>>,
}

impl CommandView {
    /// The command after option `name` was removed.
    pub open spec fn without_option(self, name: Seq<char>) -> CommandView {
        CommandView { executable: self.executable, args: without_option(self.args, name) }
    }

    /// The command after option `name` was added.
    pub open spec fn with_option(self, name: Seq<char>) -> CommandView {
        CommandView { executable: self.executable, args: with_option(self.args, name) }
    }

    /// The command after option `name` was added with `value`.
    pub open spec fn with_option_value(self, name: Seq<char>, value: Seq<char>) -> CommandView {
        CommandView {
            executable: self.executable,
            args: with_option(self.args, name).push(value),
        }
    }

    /// The arguments of one run with the extra arguments `rest`.
    pub open spec fn cmdline(self, rest: Seq<Seq<char>>) -> Seq<Seq<char>> {
        self.args + rest
    }

    /// One run with the extra arguments `rest`.
    pub open spec fn invocation(self, rest: Seq<Seq<char>>) -> InvocationView {
        InvocationView { program: self.executable, args: self.cmdline(rest) }
    }

    /// The command line as it is shown.
    pub open spec fn rendered(self) -> Seq<char> {
        if self.args.len() == 0 {
            self.executable
        } else {
            self.executable + seq![' '] + joined(
                self.args.map_values(|arg: Seq<char>| escaped(arg)),
                seq![' '],
            )
        }
    }
}

/// What an [`Invocation`] stands for.
pub struct InvocationView {
    pub program: Seq<char>,
    pub args: Seq<Seq<char>>,
}

/// One run of a command: the program to start and all its arguments.
#[derive(Debug)]
pub struct Invocation {
    pub program: String,
    pub args: Vec<String>,
}

impl View for Invocation {
    type V = InvocationView;

    open spec fn view(&self) -> InvocationView {
        InvocationView { program: self.program@, args: self.args.deep_view() }
    }
}

/// An executable and its persistent arguments.
pub struct Command {
    cmd: String,
    args: Vec<String>,
}

impl View for Command {
    type V = CommandView;

    closed spec fn view(&self) -> CommandView {
        CommandView { executable: self.cmd@, args: self.args.deep_view() }
    }
}

/// Whether `s` starts with a dash.
pub fn starts_with_dash(s: &str) -> (dash: bool)
    ensures
        dash == has_dash(s@),
{
    let mut it = s.chars();
    match it.next() {
        Some(c) => c == '-',
        None => false,
    }
}

/// The dashes that `s` starts with are `k` if it holds a dash at every index
/// before `k` and ends there or goes on with another character.
proof fn lemma_leading_dashes(s: Seq<char>, k: int)
    requires
        0 <= k <= s.len(),
        forall|j: int| 0 <= j < k ==> s[j] == '-',
        k == s.len() || s[k] != '-',
    ensures
        leading_dashes(s) == k,
    decreases k,
{
    if k > 0 {
        lemma_leading_dashes(s.drop_first(), k - 1);
    }
}

/// `name` without the dashes it starts with.
pub fn strip_dashes<'a>(name: &'a str) -> (stem: &'a str)
    ensures
        stem@ == stripped(name@),
{
    let n = name.unicode_len();
    let mut it = name.chars();
    let mut k: usize = 0;
    loop
        invariant_except_break
            it.remaining() == name@.subrange(k as int, n as int),
        invariant
            n == name@.len(),
            k <= n,
            forall|j: int| 0 <= j < k ==> name@[j] == '-',
        ensures
            n == name@.len(),
            k <= n,
            forall|j: int| 0 <= j < k ==> name@[j] == '-',
            k == n || name@[k as int] != '-',
        decreases n - k,
    {
        match it.next() {
            None => {
                break ;
            },
            Some(c) => {
                if c != '-' {
                    break ;
                }
                k = k + 1;
            },
        }
    }
    proof {
        lemma_leading_dashes(name@, k as int);
    }
    name.substring_char(k, n)
}

/// A text takes at least as many bytes as it has characters.
proof fn lemma_encoding_len(s: Seq<char>)
    ensures
        vstd::utf8::encode_utf8(s).len() >= s.len(),
    decreases s.len(),
{
    if s.len() > 0 {
        lemma_encoding_len(s.drop_first());
    }
}

/// A character takes one byte if and only if it is an ASCII character.
proof fn lemma_one_byte_char(c: char)
    ensures
        vstd::utf8::encode_scalar(c as u32).len() == 1 <==> c <= '\u{7f}',
{
}

/// A text takes one byte if and only if it is a single ASCII character.
proof fn lemma_one_byte(s: Seq<char>)
    ensures
        vstd::utf8::encode_utf8(s).len() == 1 <==> is_short_name(s),
{
    if s.len() > 0 {
        lemma_encoding_len(s.drop_first());
        lemma_one_byte_char(s[0]);
    }
}

/// `Itertools::join` on the items of `parts`: one `String` that holds them
/// in order, with `sep` between each two of them, and that is empty where
/// there are none. The separator is at most one character, so four bytes,
/// long: the capacity that the call reserves at its start, the separator's
/// bytes times the number of items after the first, then stays below what a
/// `String` may ask for, as the items take more room than that themselves.
#[verifier::external_body]
fn join(parts: &Vec<String>, sep: &str) -> (line: String)
    requires
        sep@.len() <= 1,
    ensures
        line@ == joined(parts.deep_view(), sep@),
{
    parts.iter().join(sep)
}

impl Command {
    /// A command from its words: the executable, then its persistent
    /// arguments.
    pub fn new(args: Vec<&str>) -> (command: Command)
        requires
            args.len() > 0,
        ensures
            command@.executable == args[0]@,
            command@.args == args.deep_view().subrange(1, args.len() as int),
    {
        let cmd = String::from_str(args[0]);
        let mut rest: Vec<String> = Vec::new();
        let n = args.len();
        let mut i: usize = 1;
        while i < n
            invariant
                n == args.len(),
                1 <= i <= n,
                rest.deep_view() == args.deep_view().subrange(1, i as int),
            decreases n - i,
        {
            let ghost before = rest.deep_view();
            rest.push(String::from_str(args[i]));
            assert(rest.deep_view() == before.push(args[i as int]@));
            i = i + 1;
        }
        Command { cmd, args: rest }
    }

    /// The executable.
    pub fn get_command(&self) -> (cmd: &str)
        ensures
            cmd@ == self@.executable,
    {
        self.cmd.as_str()
    }

    /// The arguments of one run: the persistent ones, then `rest`. The
    /// command itself stays as it is.
    pub fn cmdline(&self, rest: &[&str]) -> (line: Vec<String>)
        ensures
            line.deep_view() == self@.cmdline(rest.deep_view()),
    {
        let mut line = self.args.clone();
        let n = rest.len();
        let mut i: usize = 0;
        while i < n
            invariant
                n == rest.len(),
                i <= n,
                line.deep_view() == self.args.deep_view() + rest.deep_view().subrange(0, i as int),
            decreases n - i,
        {
            let ghost before = line.deep_view();
            line.push(String::from_str(rest[i]));
            assert(line.deep_view() == before.push(rest[i as int]@));
            i = i + 1;
        }
        line
    }

    /// One run of the command with the extra arguments `rest`, which are
    /// not kept.
    pub fn build_command(&self, rest: &[&str]) -> (run: Invocation)
        ensures
            run@ == self@.invocation(rest.deep_view()),
    {
        Invocation { program: self.cmd.clone(), args: self.cmdline(rest) }
    }

    /// Removes option `opt`, in both its spellings and wherever it stands,
    /// each time together with the value that follows it.
    pub fn remove_opt(&mut self, opt: &str)
        ensures
            final(self)@ == old(self)@.without_option(opt@),
    {
        let stem = strip_dashes(opt);
        let single_opt = String::from_str("-").concat(stem);
        let double_opt = String::from_str("--").concat(stem);
        proof {
            reveal_strlit("-");
            reveal_strlit("--");
        }
        let ghost all = self.args.deep_view();
        let mut found_arg = false;
        let mut kept: Vec<String> = Vec::new();
        let n = self.args.len();
        let mut i: usize = 0;
        while i < n
            invariant
                n == self.args.len(),
                i <= n,
                all == self.args.deep_view(),
                single_opt@ == short_spelling(opt@),
                double_opt@ == long_spelling(opt@),
                found_arg == (i > 0 && names_option(opt@, all[i - 1])),
                kept.deep_view() == without_option_upto(all, opt@, i as nat),
            decreases n - i,
        {
            let arg = &self.args[i];
            let is_value = found_arg && !starts_with_dash(arg.as_str());
            let is_option = *arg == single_opt || *arg == double_opt;
            if !is_value && !is_option {
                kept.push(arg.clone());
            }
            found_arg = is_option;
            i = i + 1;
        }
        self.args = kept;
    }

    /// Adds option `opt` as the last argument, in place of any other
    /// occurrence of it.
    pub fn add_opt(&mut self, opt: &str)
        ensures
            final(self)@ == old(self)@.with_option(opt@),
    {
        self.remove_opt(opt);
        let full_opt = if starts_with_dash(opt) {
            String::from_str(opt)
        } else if opt.as_bytes().len() == 1 {
            String::from_str("-").concat(opt)
        } else {
            String::from_str("--").concat(opt)
        };
        proof {
            reveal_strlit("-");
            reveal_strlit("--");
            lemma_one_byte(opt@);
            assert(full_opt@ == canonical(opt@));
        }
        let ghost before = self.args.deep_view();
        self.args.push(full_opt);
        assert(self.args.deep_view() == before.push(canonical(opt@)));
    }

    /// Adds option `opt` as [`Command::add_opt`] does, and `arg` after it as
    /// its value.
    pub fn add_opt_arg(&mut self, opt: &str, arg: &str)
        ensures
            final(self)@ == old(self)@.with_option_value(opt@, arg@),
    {
        self.add_opt(opt);
        let ghost before = self.args.deep_view();
        self.args.push(String::from_str(arg));
        assert(self.args.deep_view() == before.push(arg@));
    }

    /// The command line as it is shown: the executable, then each persistent
    /// argument in its display form, with one space between them.
    pub fn to_string(&self) -> (line: String)
        ensures
            line@ == self@.rendered(),
    {
        if self.args.len() == 0 {
            return self.cmd.clone();
        }
        let ghost all = self.args.deep_view();
        let mut shown: Vec<String> = Vec::new();
        let n = self.args.len();
        let mut i: usize = 0;
        while i < n
            invariant
                n == self.args.len(),
                i <= n,
                all == self.args.deep_view(),
                shown.deep_view() == all.subrange(0, i as int).map_values(
                    |arg: Seq<char>| escaped(arg),
                ),
            decreases n - i,
        {
            let ghost before = shown.deep_view();
            let mut arg = self.args[i].clone();
            escape(&mut arg);
            shown.push(arg);
            assert(shown.deep_view() == before.push(escaped(all[i as int])));
            i = i + 1;
        }
        proof {
            reveal_strlit(" ");
            assert(all.subrange(0, n as int) == all);
            assert(" "@ == seq![' ']);
        }
        let tail = join(&shown, " ");
        let mut line = self.cmd.clone();
        line.append(" ");
        line.append(tail.as_str());
        line
    }
}

/// No token that removing option `name` leaves names that option.
proof fn lemma_removed_all(args: Seq<Seq<char>>, name: Seq<char>, n: nat)
    requires
        n <= args.len(),
    ensures
        forall|i: int|
            0 <= i < without_option_upto(args, name, n).len() ==> !names_option(
                name,
                #[trigger] without_option_upto(args, name, n)[i],
            ),
    decreases n,
{
    if n > 0 {
        lemma_removed_all(args, name, (n - 1) as nat);
        let before = without_option_upto(args, name, (n - 1) as nat);
        let upto = without_option_upto(args, name, n);
        assert forall|i: int| 0 <= i < upto.len() implies !names_option(
            name,
            #[trigger] upto[i],
        ) by {
            if i < before.len() {
                assert(upto[i] == before[i]);
            }
        }
    }
}

/// Removing option `name` leaves a run of tokens as it is if none of them
/// names that option.
proof fn lemma_nothing_to_remove(args: Seq<Seq<char>>, name: Seq<char>, n: nat)
    requires
        n <= args.len(),
        forall|i: int| 0 <= i < n ==> !names_option(name, #[trigger] args[i]),
    ensures
        without_option_upto(args, name, n) == args.subrange(0, n as int),
    decreases n,
{
    if n > 0 {
        lemma_nothing_to_remove(args, name, (n - 1) as nat);
    }
}

/// A name that starts with at most two dashes is added under one of its own
/// two spellings.
pub proof fn lemma_canonical_names_option(name: Seq<char>)
    requires
        leading_dashes(name) <= 2,
    ensures
        names_option(name, canonical(name)),
{
    if has_dash(name) {
        let t = name.drop_first();
        if has_dash(t) {
            let u = t.drop_first();
            assert(leading_dashes(t) == 1 + leading_dashes(u));
            assert(name == long_spelling(name));
        } else {
            assert(leading_dashes(t) == 0);
            assert(name == short_spelling(name));
        }
    } else {
        assert(stripped(name) == name);
    }
}

/// Once an option was removed, no argument names it.
pub proof fn lemma_removed_opt_is_gone(command: CommandView, name: Seq<char>)
    ensures
        forall|i: int|
            0 <= i < command.without_option(name).args.len() ==> !names_option(
                name,
                #[trigger] command.without_option(name).args[i],
            ),
{
    lemma_removed_all(command.args, name, command.args.len());
}

/// Removing an option a second time changes nothing.
pub proof fn lemma_remove_opt_twice(command: CommandView, name: Seq<char>)
    ensures
        command.without_option(name).without_option(name) == command.without_option(name),
{
    let once = without_option(command.args, name);
    lemma_removed_all(command.args, name, command.args.len());
    lemma_nothing_to_remove(once, name, once.len());
    assert(once.subrange(0, once.len() as int) == once);
}

/// Adding an option a second time changes nothing: the command holds it
/// once, as its last argument. This is so for a name that starts with at
/// most two dashes. One with more is added as it stands, which is neither of
/// the two spellings that removing it looks for, so each further call adds
/// it once more.
pub proof fn lemma_add_opt_twice(command: CommandView, name: Seq<char>)
    requires
        leading_dashes(name) <= 2,
    ensures
        command.with_option(name).with_option(name) == command.with_option(name),
        command.with_option(name).args.last() == canonical(name),
        names_option(name, canonical(name)),
        forall|i: int|
            0 <= i < command.with_option(name).args.len() - 1 ==> !names_option(
                name,
                #[trigger] command.with_option(name).args[i],
            ),
{
    let kept = without_option(command.args, name);
    let once = kept.push(canonical(name));
    let n = kept.len();
    lemma_canonical_names_option(name);
    lemma_removed_all(command.args, name, command.args.len());
    assert forall|i: int| 0 <= i < n implies !names_option(name, #[trigger] once[i]) by {
        assert(once[i] == kept[i]);
    }
    // removing the option again leaves what came before it as it is
    lemma_nothing_to_remove(once, name, n);
    assert(once.subrange(0, n as int) == kept);
    // and drops the option itself
    assert(drops(once, name, n as int));
}

} // verus!
