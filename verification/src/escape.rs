//! Splitting an input line into argv-style tokens, and rendering one token
//! back into a shell-safe literal.

use vstd::prelude::*;
use vstd::std_specs::iter::IteratorSpec;
use vstd::string::*;

verus! {

/// What stands for one single quote inside a single-quoted literal: the quote
/// is closed, an escaped quote follows, and the quote is opened again.
pub open spec fn quote_escape() -> Seq<char> {
    seq!['\'', '\\', '\'', '\'']
}

/// The characters that one character of a token turns into inside a quoted
/// literal.
pub open spec fn escaped_char(c: char) -> Seq<char> {
    if c == '\'' {
        quote_escape()
    } else {
        seq![c]
    }
}

/// A token with every single quote replaced by [`quote_escape`].
pub open spec fn escaped_body(s: Seq<char>) -> Seq<char>
    decreases s.len(),
{
    if s.len() == 0 {
        Seq::empty()
    } else {
        escaped_body(s.drop_last()) + escaped_char(s.last())
    }
}

/// Whether a token has to be quoted to be read back as one word.
pub open spec fn needs_quoting(s: Seq<char>) -> bool {
    s.contains(' ') || s.contains('\'')
}

/// The display form of a token.
pub open spec fn escaped(s: Seq<char>) -> Seq<char> {
    if needs_quoting(s) {
        seq!['\''] + escaped_body(s) + seq!['\'']
    } else {
        s
    }
}

/// Whether `c` occurs in `s`.
pub fn contains_char(s: &str, c: char) -> (found: bool)
    ensures
        found == s@.contains(c),
{
    let mut it = s.chars();
    let ghost mut seen: int = 0;
    loop
        invariant
            0 <= seen <= s@.len(),
            it.remaining() == s@.subrange(seen, s@.len() as int),
            forall|j: int| 0 <= j < seen ==> s@[j] != c,
        decreases s@.len() - seen,
    {
        match it.next() {
            None => {
                return false;
            },
            Some(d) => {
                if d == c {
                    return true;
                }
                proof {
                    seen = seen + 1;
                }
            },
        }
    }
}

/// Replaces every single quote of `s` by the four characters that stand for
/// it inside a quoted literal.
fn quote_body(s: &str) -> (out: String)
    ensures
        out@ == escaped_body(s@),
{
    let n = s.unicode_len();
    let mut out = String::new();
    let mut start: usize = 0;
    let mut i: usize = 0;
    let mut it = s.chars();
    proof {
        reveal_strlit("'\\''");
    }
    loop
        invariant
            start <= i <= n,
            n == s@.len(),
            it.remaining() == s@.subrange(i as int, n as int),
            out@ + s@.subrange(start as int, i as int) == escaped_body(s@.subrange(0, i as int)),
            "'\\''"@ == quote_escape(),
        ensures
            i == n,
        decreases n - i,
    {
        match it.next() {
            None => {
                break ;
            },
            Some(c) => {
                proof {
                    let next = s@.subrange(0, i + 1);
                    assert(next.drop_last() == s@.subrange(0, i as int));
                    assert(s@.subrange(start as int, i + 1) == s@.subrange(start as int, i as int)
                        + seq![c]);
                }
                if c == '\'' {
                    out.append(s.substring_char(start, i));
                    out.append("'\\''");
                    start = i + 1;
                }
                i = i + 1;
            },
        }
    }
    out.append(s.substring_char(start, n));
    proof {
        assert(s@.subrange(0, n as int) == s@);
    }
    out
}

/// Rewrites `arg` into its display form: a token with a space or a single
/// quote is wrapped in single quotes, each quote inside it replaced by
/// `'\''`; any other token stays as it is.
pub fn escape(arg: &mut String)
    ensures
        final(arg)@ == escaped(old(arg)@),
{
    if contains_char(arg.as_str(), ' ') || contains_char(arg.as_str(), '\'') {
        let body = quote_body(arg.as_str());
        let mut out = String::from_str("'");
        out.append(body.as_str());
        out.append("'");
        proof {
            reveal_strlit("'");
        }
        *arg = out;
    }
}

/// Where the tokenizer stands: outside quotes, or inside a span opened by a
/// single or a double quote.
#[derive(Clone, Copy, Debug)]
pub enum ParseState {
    Normal,
    SingleQuote,
    DoubleQuote,
}

/// Whether the character `c`, read in `state`, ends the segment that is being
/// collected: outside quotes a space or either quote does, inside a quoted
/// span only the quote that opened it.
pub open spec fn ends_segment(state: ParseState, c: char) -> bool {
    match state {
        ParseState::Normal => c == ' ' || c == '\'' || c == '"',
        ParseState::SingleQuote => c == '\'',
        ParseState::DoubleQuote => c == '"',
    }
}

/// The state in which scanning goes on once `c` has ended a segment read in
/// `state`.
pub open spec fn state_after(state: ParseState, c: char) -> ParseState {
    match state {
        ParseState::Normal => if c == '\'' {
            ParseState::SingleQuote
        } else if c == '"' {
            ParseState::DoubleQuote
        } else {
            ParseState::Normal
        },
        _ => ParseState::Normal,
    }
}

/// The length of the segment at the start of `s`: the index of the first
/// character that ends it, or the length of `s` where none does.
pub open spec fn segment_len(s: Seq<char>, state: ParseState) -> nat
    decreases s.len(),
{
    if s.len() == 0 || ends_segment(state, s[0]) {
        0
    } else {
        1 + segment_len(s.drop_first(), state)
    }
}

/// Whether a segment of `len` characters collected in `state` is a token: a
/// quoted span always is, text outside quotes only if it is not empty.
pub open spec fn emits(state: ParseState, len: nat) -> bool {
    !(state is Normal) || len > 0
}

/// The tokens of `s` when scanning starts in `state`.
pub open spec fn scan(s: Seq<char>, state: ParseState) -> Seq<Seq<char>>
    decreases s.len(),
{
    let n = segment_len(s, state) as int;
    let head = if emits(state, n as nat) {
        seq![s.subrange(0, n)]
    } else {
        Seq::empty()
    };
    if 0 <= n < s.len() {
        head + scan(s.subrange(n + 1, s.len() as int), state_after(state, s[n]))
    } else {
        head
    }
}

/// The tokens of one input line.
pub open spec fn tokenize(line: Seq<char>) -> Seq<Seq<char>> {
    scan(line, ParseState::Normal)
}

/// The segment at the start of `s` ends at `i` if no character before `i`
/// ends it and `i` is the end of `s` or a character that does.
pub proof fn lemma_segment_len(s: Seq<char>, state: ParseState, i: int)
    requires
        0 <= i <= s.len(),
        forall|j: int| 0 <= j < i ==> !ends_segment(state, s[j]),
        i == s.len() || ends_segment(state, s[i]),
    ensures
        segment_len(s, state) == i,
    decreases i,
{
    if i > 0 {
        lemma_segment_len(s.drop_first(), state, i - 1);
    }
}

/// Whether pulling from a stream that held `before` gave `token` and left
/// `after`: the first token if there was one, else nothing.
pub open spec fn pulled(
    before: Seq<Seq<char>>,
    token: Option<&str>,
    after: Seq<Seq<char>>,
) -> bool {
    match token {
        Some(t) => before.len() > 0 && t@ == before[0] && after == before.drop_first(),
        None => before.len() == 0 && after.len() == 0,
    }
}

/// The tokens of one input line, handed out one at a time from left to right.
pub struct Split<'a> {
    rest: &'a str,
    state: ParseState,
    finished: bool,
}

impl<'a> View for Split<'a> {
    type V = Seq<Seq<char>>;

    /// The tokens that are still to come.
    closed spec fn view(&self) -> Seq<Seq<char>> {
        if self.finished {
            Seq::empty()
        } else {
            scan(self.rest@, self.state)
        }
    }
}

/// Starts tokenizing `line`.
pub fn split_command(line: &str) -> (split: Split<'_>)
    ensures
        split@ == tokenize(line@),
{
    Split { rest: line, state: ParseState::Normal, finished: false }
}

impl<'a> Split<'a> {
    /// How many characters of the line have not been read yet.
    pub closed spec fn unread(&self) -> nat {
        self.rest@.len()
    }

    /// Takes the segment before the character at `i` off the input, together
    /// with that character, and returns the segment if it is a token.
    fn capture(&mut self, i: usize, allow_empty: bool) -> (token: Option<&'a str>)
        requires
            i < old(self).rest@.len(),
        ensures
            final(self).rest@ == old(self).rest@.subrange(i + 1, old(self).rest@.len() as int),
            final(self).state == old(self).state,
            final(self).finished == old(self).finished,
            token is Some <==> allow_empty || i > 0,
            token is Some ==> token->0@ == old(self).rest@.subrange(0, i as int),
    {
        let n = self.rest.unicode_len();
        let res = if allow_empty || i > 0 {
            Some(self.rest.substring_char(0, i))
        } else {
            None
        };
        self.rest = self.rest.substring_char(i + 1, n);
        res
    }

    /// As [`Split::capture`], but goes on to the next token where the segment
    /// is none.
    fn capture_continue(&mut self, i: usize, allow_empty: bool) -> (token: Option<&'a str>)
        requires
            !old(self).finished,
            i < old(self).rest@.len(),
        ensures
            pulled(
                if allow_empty || i > 0 {
                    seq![old(self).rest@.subrange(0, i as int)] + scan(
                        old(self).rest@.subrange(i + 1, old(self).rest@.len() as int),
                        old(self).state,
                    )
                } else {
                    scan(
                        old(self).rest@.subrange(i + 1, old(self).rest@.len() as int),
                        old(self).state,
                    )
                },
                token,
                final(self)@,
            ),
        decreases old(self).rest@.len(), 0int,
    {
        match self.capture(i, allow_empty) {
            Some(t) => {
                proof {
                    let tail = scan(self.rest@, self.state);
                    assert((seq![t@] + tail).drop_first() == tail);
                }
                Some(t)
            },
            None => self.next(),
        }
    }

    /// Returns what is left of the input, if it is a token, and ends the
    /// stream.
    fn capture_rest(&mut self, allow_empty: bool) -> (token: Option<&'a str>)
        ensures
            final(self).finished,
            token is Some <==> allow_empty || old(self).rest@.len() > 0,
            token is Some ==> token->0@ == old(self).rest@,
    {
        let res = if allow_empty || !self.rest.is_empty() {
            Some(self.rest)
        } else {
            None
        };
        self.finished = true;
        res
    }

    /// Reads a quoted span up to the quote `end` that closes it, or up to the
    /// end of the input.
    fn capture_until(&mut self, end: char) -> (token: Option<&'a str>)
        requires
            !old(self).finished,
            !(old(self).state is Normal),
            forall|c: char| ends_segment(old(self).state, c) <==> c == end,
        ensures
            pulled(old(self)@, token, final(self)@),
        decreases old(self).rest@.len(), 1int,
    {
        let n = self.rest.unicode_len();
        let mut it = self.rest.chars();
        let mut i: usize = 0;
        loop
            invariant
                *self == *old(self),
                !self.finished,
                !(self.state is Normal),
                forall|c: char| ends_segment(self.state, c) <==> c == end,
                n == self.rest@.len(),
                i <= n,
                it.remaining() == self.rest@.subrange(i as int, n as int),
                forall|j: int| 0 <= j < i ==> self.rest@[j] != end,
            ensures
                i == n,
            decreases n - i,
        {
            match it.next() {
                None => {
                    break ;
                },
                Some(c) => {
                    if c == end {
                        proof {
                            lemma_segment_len(self.rest@, self.state, i as int);
                        }
                        self.state = ParseState::Normal;
                        return self.capture_continue(i, true);
                    }
                    i = i + 1;
                },
            }
        }
        proof {
            lemma_segment_len(self.rest@, self.state, n as int);
            assert(seq![self.rest@].drop_first() == Seq::<Seq<char>>::empty());
        }
        self.capture_rest(true)
    }

    /// Pulls the next token: `None` once the line is used up.
    pub fn next(&mut self) -> (token: Option<&'a str>)
        ensures
            pulled(old(self)@, token, final(self)@),
        decreases old(self).unread(), 2int,
    {
        if self.finished {
            return None;
        }
        match self.state {
            ParseState::SingleQuote => {
                return self.capture_until('\'');
            },
            ParseState::DoubleQuote => {
                return self.capture_until('"');
            },
            ParseState::Normal => {},
        }
        let n = self.rest.unicode_len();
        let mut it = self.rest.chars();
        let mut i: usize = 0;
        loop
            invariant
                *self == *old(self),
                self.state is Normal,
                !self.finished,
                n == self.rest@.len(),
                i <= n,
                it.remaining() == self.rest@.subrange(i as int, n as int),
                forall|j: int| 0 <= j < i ==> !ends_segment(ParseState::Normal, self.rest@[j]),
            ensures
                i == n,
            decreases n - i,
        {
            match it.next() {
                None => {
                    break ;
                },
                Some(c) => {
                    if c == ' ' || c == '\'' || c == '"' {
                        proof {
                            lemma_segment_len(self.rest@, ParseState::Normal, i as int);
                        }
                        if c == '\'' {
                            self.state = ParseState::SingleQuote;
                        } else if c == '"' {
                            self.state = ParseState::DoubleQuote;
                        }
                        return self.capture_continue(i, false);
                    }
                    i = i + 1;
                },
            }
        }
        proof {
            lemma_segment_len(self.rest@, ParseState::Normal, n as int);
            assert(seq![self.rest@].drop_first() == Seq::<Seq<char>>::empty());
        }
        self.capture_rest(false)
    }

    /// Pulls all the tokens that are left, in order.
    pub fn collect(self) -> (tokens: Vec<&'a str>)
        ensures
            tokens.deep_view() == self@,
    {
        let mut split = self;
        let mut tokens: Vec<&'a str> = Vec::new();
        loop
            invariant
                tokens.deep_view() + split@ == self@,
            ensures
                tokens.deep_view() == self@,
            decreases split@.len(),
        {
            let ghost before = tokens.deep_view();
            let ghost coming = split@;
            match split.next() {
                None => {
                    assert(before + coming == before);
                    break ;
                },
                Some(t) => {
                    tokens.push(t);
                    assert(tokens.deep_view() == before.push(coming[0]));
                    assert(before.push(coming[0]) + coming.drop_first() == before + coming);
                },
            }
        }
        tokens
    }
}

/// The length of the word at the start of `s`: the index of its first space,
/// or the length of `s` where it has none.
pub open spec fn word_len(s: Seq<char>) -> nat
    decreases s.len(),
{
    if s.len() == 0 || s[0] == ' ' {
        0
    } else {
        1 + word_len(s.drop_first())
    }
}

/// The pieces of `s` that its spaces separate, empty ones included: one more
/// than `s` has spaces.
pub open spec fn split_on_spaces(s: Seq<char>) -> Seq<Seq<char>>
    decreases s.len(),
{
    let n = word_len(s) as int;
    if 0 <= n < s.len() {
        seq![s.subrange(0, n)] + split_on_spaces(s.subrange(n + 1, s.len() as int))
    } else {
        seq![s]
    }
}

/// The pieces of `s` between runs of spaces.
pub open spec fn words(s: Seq<char>) -> Seq<Seq<char>> {
    split_on_spaces(s).filter(|piece: Seq<char>| piece.len() > 0)
}

/// Outside quotes, a segment of a text without quotes is a word.
proof fn lemma_segment_is_word(s: Seq<char>)
    requires
        !s.contains('\''),
        !s.contains('"'),
    ensures
        segment_len(s, ParseState::Normal) == word_len(s),
        word_len(s) <= s.len(),
    decreases s.len(),
{
    if s.len() > 0 {
        let t = s.drop_first();
        assert forall|c: char| t.contains(c) implies s.contains(c) by {
            let j = choose|j: int| 0 <= j < t.len() && t[j] == c;
            assert(s[j + 1] == c);
        }
        lemma_segment_is_word(t);
    }
}

/// A line without quote characters is split on runs of spaces, and no token
/// is empty.
pub proof fn lemma_tokenize_without_quotes(line: Seq<char>)
    requires
        !line.contains('\''),
        !line.contains('"'),
    ensures
        tokenize(line) == words(line),
    decreases line.len(),
{
    let keep = |piece: Seq<char>| piece.len() > 0;
    lemma_segment_is_word(line);
    let n = word_len(line) as int;
    let piece = line.subrange(0, n);
    assert(seq![piece].filter(keep) == if n > 0 {
        seq![piece]
    } else {
        Seq::empty()
    }) by {
        reveal_with_fuel(Seq::filter, 2);
    }
    if n < line.len() {
        let rest = line.subrange(n + 1, line.len() as int);
        assert(line[n] == ' ') by {
            lemma_word_ends_at_space(line);
        }
        assert forall|c: char| rest.contains(c) implies line.contains(c) by {
            let j = choose|j: int| 0 <= j < rest.len() && rest[j] == c;
            assert(line[n + 1 + j] == c);
        }
        lemma_tokenize_without_quotes(rest);
        Seq::filter_distributes_over_add(seq![piece], split_on_spaces(rest), keep);
    } else {
        assert(piece == line);
    }
}

/// Where the word at the start of `s` ends before `s` does, a space follows
/// it.
proof fn lemma_word_ends_at_space(s: Seq<char>)
    ensures
        word_len(s) <= s.len(),
        word_len(s) < s.len() ==> s[word_len(s) as int] == ' ',
    decreases s.len(),
{
    if s.len() > 0 && s[0] != ' ' {
        lemma_word_ends_at_space(s.drop_first());
    }
}

/// A line of nothing but spaces, the empty line among them, holds no token.
pub proof fn lemma_tokenize_spaces(line: Seq<char>)
    requires
        forall|i: int| 0 <= i < line.len() ==> line[i] == ' ',
    ensures
        tokenize(line) == Seq::<Seq<char>>::empty(),
    decreases line.len(),
{
    if line.len() > 0 {
        lemma_tokenize_spaces(line.subrange(1, line.len() as int));
    }
}

/// A token without single quotes stays as it is inside a quoted literal.
proof fn lemma_escaped_body_without_quotes(s: Seq<char>)
    requires
        !s.contains('\''),
    ensures
        escaped_body(s) == s,
    decreases s.len(),
{
    if s.len() > 0 {
        let t = s.drop_last();
        assert forall|c: char| t.contains(c) implies s.contains(c) by {
            let j = choose|j: int| 0 <= j < t.len() && t[j] == c;
            assert(s[j] == c);
        }
        lemma_escaped_body_without_quotes(t);
    }
}

/// The display form of a token that holds a space and no single quote is
/// read back as that one token. What else the token holds, a backslash or a
/// double quote, does not matter: inside the quoted span nothing is special
/// but the quote that closes it.
pub proof fn lemma_tokenize_escaped(token: Seq<char>)
    requires
        token.contains(' '),
        !token.contains('\''),
    ensures
        tokenize(escaped(token)) == seq![token],
{
    lemma_escaped_body_without_quotes(token);
    let line = escaped(token);
    let n = token.len() as int;
    assert(line == seq!['\''] + token + seq!['\'']);
    // the opening quote ends an empty segment, which is no token
    lemma_segment_len(line, ParseState::Normal, 0);
    let inner = line.subrange(1, line.len() as int);
    assert(inner == token + seq!['\'']);
    // the quoted span runs up to the closing quote
    lemma_segment_len(inner, ParseState::SingleQuote, n);
    assert(inner.subrange(0, n) == token);
    // nothing follows it
    let tail = inner.subrange(n + 1, inner.len() as int);
    assert(tail.len() == 0);
    assert(scan(inner, ParseState::SingleQuote) == seq![token] + scan(tail, ParseState::Normal));
    assert(scan(line, ParseState::Normal) == Seq::<Seq<char>>::empty() + scan(
        inner,
        ParseState::SingleQuote,
    ));
}

} // verus!
