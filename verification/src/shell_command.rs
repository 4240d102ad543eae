//! Shell-style tokenization of one configuration line.
//!
//! A line is split into words by whitespace; a single- or double-quoted
//! substring contributes its contents to the current word with the quotes
//! stripped, inner whitespace preserved.  Outside quotes a backslash
//! escapes the character after it, whitespace and quotes included; inside
//! double quotes it escapes only `$`, a backtick, `"`, `\` and a newline,
//! and stands for itself before anything else; inside single quotes it is
//! an ordinary character.  A quote left open at the end of the line is a
//! parse error.  The first word names the program and must be non-empty;
//! the remaining words are its arguments in order.

use vstd::prelude::*;
use vstd::string::*;

use crate::is_space;
use crate::spec_is_space;

verus! {

/// Where the scanner stands while walking a line: between words, inside an
/// unquoted word, inside a quoted stretch of a word, or just after a
/// backslash.
pub enum ScanState {
    Between,
    Word,
    WordBackslash,
    SingleQuoted,
    DoubleQuoted,
    DoubleQuotedBackslash,
}

/// The characters a backslash escapes inside double quotes.
pub open spec fn spec_dq_escapable(c: char) -> bool {
    c == '$' || c == '`' || c == '"' || c == '\\' || c == '\n'
}

/// One left-to-right pass of the word scanner: `cur` is the word built so
/// far, `acc` the words already finished.  `None` means the line ended
/// inside a quoted stretch.  A backslash that ends the line outside quotes
/// stands for itself.
pub open spec fn spec_scan(
    s: Seq<char>,
    state: ScanState,
    cur: Seq<char>,
    acc: Seq<Seq<char>>,
) -> Option<Seq<Seq<char>>>
    decreases s.len(),
{
    if s.len() == 0 {
        match state {
            ScanState::Between => Some(acc),
            ScanState::Word => Some(acc.push(cur)),
            ScanState::WordBackslash => Some(acc.push(cur.push('\\'))),
            ScanState::SingleQuoted => None,
            ScanState::DoubleQuoted => None,
            ScanState::DoubleQuotedBackslash => None,
        }
    } else {
        let c = s[0];
        let rest = s.drop_first();
        match state {
            ScanState::Between => {
                if spec_is_space(c) {
                    spec_scan(rest, ScanState::Between, cur, acc)
                } else if c == '\'' {
                    spec_scan(rest, ScanState::SingleQuoted, Seq::empty(), acc)
                } else if c == '"' {
                    spec_scan(rest, ScanState::DoubleQuoted, Seq::empty(), acc)
                } else if c == '\\' {
                    spec_scan(rest, ScanState::WordBackslash, Seq::empty(), acc)
                } else {
                    spec_scan(rest, ScanState::Word, seq![c], acc)
                }
            },
            ScanState::Word => {
                if spec_is_space(c) {
                    spec_scan(rest, ScanState::Between, Seq::empty(), acc.push(cur))
                } else if c == '\'' {
                    spec_scan(rest, ScanState::SingleQuoted, cur, acc)
                } else if c == '"' {
                    spec_scan(rest, ScanState::DoubleQuoted, cur, acc)
                } else if c == '\\' {
                    spec_scan(rest, ScanState::WordBackslash, cur, acc)
                } else {
                    spec_scan(rest, ScanState::Word, cur.push(c), acc)
                }
            },
            ScanState::WordBackslash => spec_scan(rest, ScanState::Word, cur.push(c), acc),
            ScanState::SingleQuoted => {
                if c == '\'' {
                    spec_scan(rest, ScanState::Word, cur, acc)
                } else {
                    spec_scan(rest, ScanState::SingleQuoted, cur.push(c), acc)
                }
            },
            ScanState::DoubleQuoted => {
                if c == '"' {
                    spec_scan(rest, ScanState::Word, cur, acc)
                } else if c == '\\' {
                    spec_scan(rest, ScanState::DoubleQuotedBackslash, cur, acc)
                } else {
                    spec_scan(rest, ScanState::DoubleQuoted, cur.push(c), acc)
                }
            },
            ScanState::DoubleQuotedBackslash => {
                if spec_dq_escapable(c) {
                    spec_scan(rest, ScanState::DoubleQuoted, cur.push(c), acc)
                } else {
                    spec_scan(rest, ScanState::DoubleQuoted, cur.push('\\').push(c), acc)
                }
            },
        }
    }
}

/// The words of a line, or `None` when a quote is left unterminated.
pub open spec fn spec_split_words(s: Seq<char>) -> Option<Seq<Seq<char>>> {
    spec_scan(s, ScanState::Between, Seq::empty(), Seq::empty())
}

/// The quoting state alone of the scanner after it has walked `s`,
/// starting from `state`: the same transitions as `spec_scan`, with the
/// words themselves left out.
pub open spec fn spec_quote_state(s: Seq<char>, state: ScanState) -> ScanState
    decreases s.len(),
{
    if s.len() == 0 {
        state
    } else {
        let c = s[0];
        let rest = s.drop_first();
        match state {
            ScanState::Between => {
                if spec_is_space(c) {
                    spec_quote_state(rest, ScanState::Between)
                } else if c == '\'' {
                    spec_quote_state(rest, ScanState::SingleQuoted)
                } else if c == '"' {
                    spec_quote_state(rest, ScanState::DoubleQuoted)
                } else if c == '\\' {
                    spec_quote_state(rest, ScanState::WordBackslash)
                } else {
                    spec_quote_state(rest, ScanState::Word)
                }
            },
            ScanState::Word => {
                if spec_is_space(c) {
                    spec_quote_state(rest, ScanState::Between)
                } else if c == '\'' {
                    spec_quote_state(rest, ScanState::SingleQuoted)
                } else if c == '"' {
                    spec_quote_state(rest, ScanState::DoubleQuoted)
                } else if c == '\\' {
                    spec_quote_state(rest, ScanState::WordBackslash)
                } else {
                    spec_quote_state(rest, ScanState::Word)
                }
            },
            ScanState::WordBackslash => spec_quote_state(rest, ScanState::Word),
            ScanState::SingleQuoted => {
                if c == '\'' {
                    spec_quote_state(rest, ScanState::Word)
                } else {
                    spec_quote_state(rest, ScanState::SingleQuoted)
                }
            },
            ScanState::DoubleQuoted => {
                if c == '"' {
                    spec_quote_state(rest, ScanState::Word)
                } else if c == '\\' {
                    spec_quote_state(rest, ScanState::DoubleQuotedBackslash)
                } else {
                    spec_quote_state(rest, ScanState::DoubleQuoted)
                }
            },
            ScanState::DoubleQuotedBackslash => spec_quote_state(rest, ScanState::DoubleQuoted),
        }
    }
}

/// A quote is open in this state.
pub open spec fn spec_in_quote(state: ScanState) -> bool {
    state is SingleQuoted || state is DoubleQuoted || state is DoubleQuotedBackslash
}

proof fn lemma_scan_fails_iff_in_quote(
    s: Seq<char>,
    state: ScanState,
    cur: Seq<char>,
    acc: Seq<Seq<char>>,
)
    ensures
        spec_scan(s, state, cur, acc) is None <==> spec_in_quote(spec_quote_state(s, state)),
    decreases s.len(),
{
    if s.len() > 0 {
        let c = s[0];
        let rest = s.drop_first();
        match state {
            ScanState::Between => {
                if spec_is_space(c) {
                    lemma_scan_fails_iff_in_quote(rest, ScanState::Between, cur, acc);
                } else if c == '\'' {
                    lemma_scan_fails_iff_in_quote(rest, ScanState::SingleQuoted, Seq::empty(), acc);
                } else if c == '"' {
                    lemma_scan_fails_iff_in_quote(rest, ScanState::DoubleQuoted, Seq::empty(), acc);
                } else if c == '\\' {
                    lemma_scan_fails_iff_in_quote(rest, ScanState::WordBackslash, Seq::empty(), acc);
                } else {
                    lemma_scan_fails_iff_in_quote(rest, ScanState::Word, seq![c], acc);
                }
            },
            ScanState::Word => {
                if spec_is_space(c) {
                    lemma_scan_fails_iff_in_quote(rest, ScanState::Between, Seq::empty(), acc.push(cur));
                } else if c == '\'' {
                    lemma_scan_fails_iff_in_quote(rest, ScanState::SingleQuoted, cur, acc);
                } else if c == '"' {
                    lemma_scan_fails_iff_in_quote(rest, ScanState::DoubleQuoted, cur, acc);
                } else if c == '\\' {
                    lemma_scan_fails_iff_in_quote(rest, ScanState::WordBackslash, cur, acc);
                } else {
                    lemma_scan_fails_iff_in_quote(rest, ScanState::Word, cur.push(c), acc);
                }
            },
            ScanState::WordBackslash => {
                lemma_scan_fails_iff_in_quote(rest, ScanState::Word, cur.push(c), acc);
            },
            ScanState::SingleQuoted => {
                if c == '\'' {
                    lemma_scan_fails_iff_in_quote(rest, ScanState::Word, cur, acc);
                } else {
                    lemma_scan_fails_iff_in_quote(rest, ScanState::SingleQuoted, cur.push(c), acc);
                }
            },
            ScanState::DoubleQuoted => {
                if c == '"' {
                    lemma_scan_fails_iff_in_quote(rest, ScanState::Word, cur, acc);
                } else if c == '\\' {
                    lemma_scan_fails_iff_in_quote(rest, ScanState::DoubleQuotedBackslash, cur, acc);
                } else {
                    lemma_scan_fails_iff_in_quote(rest, ScanState::DoubleQuoted, cur.push(c), acc);
                }
            },
            ScanState::DoubleQuotedBackslash => {
                if spec_dq_escapable(c) {
                    lemma_scan_fails_iff_in_quote(rest, ScanState::DoubleQuoted, cur.push(c), acc);
                } else {
                    lemma_scan_fails_iff_in_quote(
                        rest,
                        ScanState::DoubleQuoted,
                        cur.push('\\').push(c),
                        acc,
                    );
                }
            },
        }
    }
}

/// Splitting a line yields no words at all exactly when the scan ends with
/// a quote still open; tokenizing such a line is always the
/// `MalformedQuoting` error and never a partial command.
pub proof fn lemma_unterminated_quote_fails(s: Seq<char>)
    ensures
        spec_split_words(s) is None <==> spec_in_quote(
            spec_quote_state(s, ScanState::Between),
        ),
        spec_in_quote(spec_quote_state(s, ScanState::Between)) ==> spec_tokenize(s) == Err::<
            ShellCommandView,
            ParseError,
        >(ParseError::MalformedQuoting),
{
    lemma_scan_fails_iff_in_quote(s, ScanState::Between, Seq::empty(), Seq::empty());
}

proof fn lemma_scan_through_double_quote(
    t: Seq<char>,
    rest: Seq<char>,
    cur: Seq<char>,
    acc: Seq<Seq<char>>,
)
    requires
        forall|i: int| 0 <= i < t.len() ==> t[i] != '"' && t[i] != '\\',
    ensures
        spec_scan(t + rest, ScanState::DoubleQuoted, cur, acc) == spec_scan(
            rest,
            ScanState::DoubleQuoted,
            cur + t,
            acc,
        ),
    decreases t.len(),
{
    if t.len() == 0 {
        assert(t + rest =~= rest);
        assert(cur + t =~= cur);
    } else {
        assert((t + rest)[0] == t[0]);
        assert((t + rest).drop_first() =~= t.drop_first() + rest);
        lemma_scan_through_double_quote(t.drop_first(), rest, cur.push(t[0]), acc);
        assert(cur.push(t[0]) + t.drop_first() =~= cur + t);
    }
}

proof fn lemma_scan_through_single_quote(
    t: Seq<char>,
    rest: Seq<char>,
    cur: Seq<char>,
    acc: Seq<Seq<char>>,
)
    requires
        forall|i: int| 0 <= i < t.len() ==> t[i] != '\'',
    ensures
        spec_scan(t + rest, ScanState::SingleQuoted, cur, acc) == spec_scan(
            rest,
            ScanState::SingleQuoted,
            cur + t,
            acc,
        ),
    decreases t.len(),
{
    if t.len() == 0 {
        assert(t + rest =~= rest);
        assert(cur + t =~= cur);
    } else {
        assert((t + rest)[0] == t[0]);
        assert((t + rest).drop_first() =~= t.drop_first() + rest);
        lemma_scan_through_single_quote(t.drop_first(), rest, cur.push(t[0]), acc);
        assert(cur.push(t[0]) + t.drop_first() =~= cur + t);
    }
}

/// A quoted substring is one word with the quotes stripped and its inner
/// text, whitespace included, preserved verbatim: a line that is exactly
/// `"t"` (for `t` free of `"` and `\`) or `'t'` (for `t` free of `'`)
/// splits into the single word `t`.
pub proof fn lemma_quoted_token(t: Seq<char>)
    ensures
        (forall|i: int| 0 <= i < t.len() ==> t[i] != '"' && t[i] != '\\') ==> spec_split_words(
            seq!['"'] + t + seq!['"'],
        ) == Some(seq![t]),
        (forall|i: int| 0 <= i < t.len() ==> t[i] != '\'') ==> spec_split_words(
            seq!['\''] + t + seq!['\''],
        ) == Some(seq![t]),
{
    reveal_with_fuel(spec_scan, 4);
    if forall|i: int| 0 <= i < t.len() ==> t[i] != '"' && t[i] != '\\' {
        let line = seq!['"'] + t + seq!['"'];
        assert(line[0] == '"');
        assert(line.drop_first() =~= t + seq!['"']);
        lemma_scan_through_double_quote(t, seq!['"'], Seq::empty(), Seq::empty());
        let close = seq!['"'];
        assert(close[0] == '"');
        assert(close.drop_first() =~= Seq::<char>::empty());
        assert(Seq::<char>::empty() + t =~= t);
        assert(Seq::<Seq<char>>::empty().push(t) =~= seq![t]);
    }
    if forall|i: int| 0 <= i < t.len() ==> t[i] != '\'' {
        let line = seq!['\''] + t + seq!['\''];
        assert(line[0] == '\'');
        assert(line.drop_first() =~= t + seq!['\'']);
        lemma_scan_through_single_quote(t, seq!['\''], Seq::empty(), Seq::empty());
        let close = seq!['\''];
        assert(close[0] == '\'');
        assert(close.drop_first() =~= Seq::<char>::empty());
        assert(Seq::<char>::empty() + t =~= t);
        assert(Seq::<Seq<char>>::empty().push(t) =~= seq![t]);
    }
}

/// Why a line could not become a command.
#[derive(Debug, Clone, Copy, PartialEq, Eq, Structural)]
pub enum ParseError {
    /// A single or double quote was opened and never closed.
    MalformedQuoting,
    /// The line contains no words, or its first word is empty.
    EmptyCommand,
}

/// A program name with its arguments, ready to be spawned.  The name is
/// never empty: a line whose first word would be is rejected.
#[derive(Debug)]
pub struct ShellCommand {
    pub name: String,
    pub args: Vec<String>,
}

/// The mathematical content of a `ShellCommand`.
pub ghost struct ShellCommandView {
    pub name: Seq<char>,
    pub args: Seq<Seq<char>>,
}

impl View for ShellCommand {
    type V = ShellCommandView;

    open spec fn view(&self) -> ShellCommandView {
        ShellCommandView { name: self.name@, args: self.args.deep_view() }
    }
}

impl DeepView for ShellCommand {
    type V = ShellCommandView;

    open spec fn deep_view(&self) -> ShellCommandView {
        self.view()
    }
}

/// What tokenizing a line yields: the first word names the program, the
/// remaining words are its arguments.  An unterminated quote is an error,
/// and so is a line with no words or with an empty first word (an empty
/// quoted string where the name should stand).
pub open spec fn spec_tokenize(s: Seq<char>) -> Result<ShellCommandView, ParseError> {
    match spec_split_words(s) {
        None => Err(ParseError::MalformedQuoting),
        Some(words) => {
            if words.len() == 0 || words[0].len() == 0 {
                Err(ParseError::EmptyCommand)
            } else {
                Ok(ShellCommandView { name: words[0], args: words.drop_first() })
            }
        },
    }
}

/// Split a line into words, walking it with the same state machine as
/// `spec_scan`.
fn split_words(s: &str) -> (r: Option<Vec<String>>)
    ensures
        match r {
            Some(words) => spec_split_words(s@) == Some(words.deep_view()),
            None => spec_split_words(s@) is None,
        },
{
    let n = s.unicode_len();
    let mut i: usize = 0;
    let mut state = ScanState::Between;
    let mut cur = String::new();
    let mut acc: Vec<String> = Vec::new();
    proof {
        assert(s@.subrange(0, n as int) =~= s@);
        assert(acc.deep_view() =~= Seq::<Seq<char>>::empty());
    }
    while i < n
        invariant
            i <= n,
            n == s@.len(),
            spec_scan(s@.subrange(i as int, n as int), state, cur@, acc.deep_view())
                == spec_split_words(s@),
        decreases n - i,
    {
        let ghost pre = s@.subrange(i as int, n as int);
        proof {
            assert(pre[0] == s@[i as int]);
            assert(pre.drop_first() =~= s@.subrange(i as int + 1, n as int));
        }
        let c = s.get_char(i);
        match state {
            ScanState::Between => {
                if is_space(c) {
                    // stay between words
                } else if c == '\'' {
                    state = ScanState::SingleQuoted;
                    cur = String::new();
                } else if c == '"' {
                    state = ScanState::DoubleQuoted;
                    cur = String::new();
                } else if c == '\\' {
                    state = ScanState::WordBackslash;
                    cur = String::new();
                } else {
                    state = ScanState::Word;
                    cur = String::new();
                    cur.append(s.substring_char(i, i + 1));
                    proof {
                        assert(cur@ =~= seq![s@[i as int]]);
                    }
                }
            },
            ScanState::Word => {
                if is_space(c) {
                    let ghost old_acc = acc.deep_view();
                    let ghost old_cur = cur@;
                    acc.push(cur);
                    cur = String::new();
                    state = ScanState::Between;
                    proof {
                        assert(acc.deep_view() =~= old_acc.push(old_cur));
                    }
                } else if c == '\'' {
                    state = ScanState::SingleQuoted;
                } else if c == '"' {
                    state = ScanState::DoubleQuoted;
                } else if c == '\\' {
                    state = ScanState::WordBackslash;
                } else {
                    let ghost old_cur = cur@;
                    cur.append(s.substring_char(i, i + 1));
                    proof {
                        assert(cur@ =~= old_cur.push(s@[i as int]));
                    }
                }
            },
            ScanState::WordBackslash => {
                let ghost old_cur = cur@;
                cur.append(s.substring_char(i, i + 1));
                state = ScanState::Word;
                proof {
                    assert(cur@ =~= old_cur.push(s@[i as int]));
                }
            },
            ScanState::SingleQuoted => {
                if c == '\'' {
                    state = ScanState::Word;
                } else {
                    let ghost old_cur = cur@;
                    cur.append(s.substring_char(i, i + 1));
                    proof {
                        assert(cur@ =~= old_cur.push(s@[i as int]));
                    }
                }
            },
            ScanState::DoubleQuoted => {
                if c == '"' {
                    state = ScanState::Word;
                } else if c == '\\' {
                    state = ScanState::DoubleQuotedBackslash;
                } else {
                    let ghost old_cur = cur@;
                    cur.append(s.substring_char(i, i + 1));
                    proof {
                        assert(cur@ =~= old_cur.push(s@[i as int]));
                    }
                }
            },
            ScanState::DoubleQuotedBackslash => {
                let ghost old_cur = cur@;
                if c == '$' || c == '`' || c == '"' || c == '\\' || c == '\n' {
                    cur.append(s.substring_char(i, i + 1));
                    proof {
                        assert(cur@ =~= old_cur.push(s@[i as int]));
                    }
                } else {
                    cur.append("\\");
                    cur.append(s.substring_char(i, i + 1));
                    proof {
                        reveal_strlit("\\");
                        assert(("\\")@ =~= seq!['\\']);
                        assert(cur@ =~= old_cur.push('\\').push(s@[i as int]));
                    }
                }
                state = ScanState::DoubleQuoted;
            },
        }
        i = i + 1;
    }
    proof {
        assert(s@.subrange(i as int, n as int) =~= Seq::<char>::empty());
    }
    match state {
        ScanState::Between => Some(acc),
        ScanState::Word => {
            let ghost old_acc = acc.deep_view();
            let ghost old_cur = cur@;
            acc.push(cur);
            proof {
                assert(acc.deep_view() =~= old_acc.push(old_cur));
            }
            Some(acc)
        },
        ScanState::WordBackslash => {
            let ghost old_acc = acc.deep_view();
            let ghost old_cur = cur@;
            cur.append("\\");
            proof {
                reveal_strlit("\\");
                assert(("\\")@ =~= seq!['\\']);
                assert(cur@ =~= old_cur.push('\\'));
            }
            acc.push(cur);
            proof {
                assert(acc.deep_view() =~= old_acc.push(old_cur.push('\\')));
            }
            Some(acc)
        },
        ScanState::SingleQuoted => None,
        ScanState::DoubleQuoted => None,
        ScanState::DoubleQuotedBackslash => None,
    }
}

impl PartialEq for ShellCommand {
    fn eq(&self, other: &ShellCommand) -> (r: bool) {
        if !(self.name == other.name) {
            return false;
        }
        if self.args.len() != other.args.len() {
            proof {
                assert(self.args.deep_view().len() == self.args@.len());
                assert(other.args.deep_view().len() == other.args@.len());
            }
            return false;
        }
        let n = self.args.len();
        let mut i: usize = 0;
        while i < n
            invariant
                i <= n,
                n == self.args@.len(),
                n == other.args@.len(),
                forall|j: int| 0 <= j < i ==> self.args@[j]@ == other.args@[j]@,
            decreases n - i,
        {
            if !(self.args[i] == other.args[i]) {
                proof {
                    assert(self.args.deep_view()[i as int] == self.args@[i as int]@);
                    assert(other.args.deep_view()[i as int] == other.args@[i as int]@);
                }
                return false;
            }
            i = i + 1;
        }
        proof {
            assert(self.args.deep_view() =~= other.args.deep_view());
        }
        true
    }
}

impl vstd::std_specs::cmp::PartialEqSpecImpl for ShellCommand {
    open spec fn obeys_eq_spec() -> bool {
        true
    }

    open spec fn eq_spec(&self, other: &ShellCommand) -> bool {
        self@ == other@
    }
}

impl ShellCommand {
    /// Tokenize one line: the first word becomes the program name, the rest
    /// its arguments; an unterminated quote, a wordless line, or an empty
    /// first word is rejected, so the name of a command is never empty.
    pub fn try_from(value: &str) -> (r: Result<ShellCommand, ParseError>)
        ensures
            match r {
                Ok(cmd) => spec_tokenize(value@) == Ok::<ShellCommandView, ParseError>(cmd@),
                Err(e) => spec_tokenize(value@) == Err::<ShellCommandView, ParseError>(e),
            },
            r matches Ok(cmd) ==> cmd@.name.len() > 0,
    {
        match split_words(value) {
            None => Err(ParseError::MalformedQuoting),
            Some(mut words) => {
                if words.len() == 0 {
                    Err(ParseError::EmptyCommand)
                } else if words[0].as_str().is_empty() {
                    proof {
                        assert(words.deep_view()[0] == words@[0]@);
                    }
                    Err(ParseError::EmptyCommand)
                } else {
                    let ghost all = words.deep_view();
                    proof {
                        assert(all[0] == words@[0]@);
                    }
                    let name = words.remove(0);
                    proof {
                        assert(words.deep_view() =~= all.drop_first());
                    }
                    Ok(ShellCommand { name, args: words })
                }
            },
        }
    }
}

} // verus!
