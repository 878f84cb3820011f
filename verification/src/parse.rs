//! The command parser: splits an input line on whitespace and classifies
//! the first token into one of the shell's operations.

use vstd::prelude::*;

verus! {

/// The closed set of operations a command can select.
#[derive(Debug, Copy, Clone, PartialEq, Eq, Structural)]
pub enum ShellFunction {
    MoveToDir,
    WhereAmI,
    History,
    ByeBye,
    Start,
    Background,
    Exterminate,
    ExterminateAll,
    Repeat,
    UnknownFunction,
    NoFunction,
}

/// Which characters count as whitespace when splitting a line into
/// tokens: the Unicode `White_Space` set, as `char::is_whitespace` has it.
pub open spec fn is_space_char(c: char) -> bool {
    c == ' ' || c == '\t' || c == '\n' || c == '\r' || c == '\u{b}' || c == '\u{c}'
        || c == '\u{85}' || c == '\u{a0}' || c == '\u{1680}'
        || ('\u{2000}' as u32 <= c as u32 && c as u32 <= '\u{200a}' as u32)
        || c == '\u{2028}' || c == '\u{2029}' || c == '\u{202f}' || c == '\u{205f}'
        || c == '\u{3000}'
}

/// Exec test for `is_space_char`.
pub fn is_space(c: char) -> (r: bool)
    ensures
        r == is_space_char(c),
{
    let u = c as u32;
    u == 0x20 || u == 0x9 || u == 0xa || u == 0xd || u == 0xb || u == 0xc || u == 0x85
        || u == 0xa0 || u == 0x1680 || (0x2000 <= u && u <= 0x200a) || u == 0x2028
        || u == 0x2029 || u == 0x202f || u == 0x205f || u == 0x3000
}

/// Splitting on whitespace, one character at a time: `cur` is the token
/// being read, `acc` the tokens already finished.
pub open spec fn split_ws(s: Seq<char>, cur: Seq<char>, acc: Seq<Seq<char>>) -> Seq<Seq<char>>
    decreases s.len(),
{
    if s.len() == 0 {
        if cur.len() == 0 {
            acc
        } else {
            acc.push(cur)
        }
    } else if is_space_char(s[0]) {
        if cur.len() == 0 {
            split_ws(s.drop_first(), cur, acc)
        } else {
            split_ws(s.drop_first(), Seq::empty(), acc.push(cur))
        }
    } else {
        split_ws(s.drop_first(), cur.push(s[0]), acc)
    }
}

/// The whitespace-separated tokens of a line, in order, each non-empty.
pub open spec fn tokens_of(s: Seq<char>) -> Seq<Seq<char>> {
    split_ws(s, Seq::empty(), Seq::empty())
}

/// Reading a run of non-space characters extends the current token and
/// changes nothing else about the split.
proof fn lemma_split_ws_nonspace(s: Seq<char>, cur: Seq<char>, acc: Seq<Seq<char>>, k: int)
    requires
        0 <= k <= s.len(),
        forall|j: int| 0 <= j < k ==> !is_space_char(s[j]),
    ensures
        split_ws(s, cur, acc) == split_ws(s.skip(k), cur + s.take(k), acc),
    decreases k,
{
    if k == 0 {
        assert(s.skip(0) =~= s);
        assert(cur + s.take(0) =~= cur);
    } else {
        lemma_split_ws_nonspace(s.drop_first(), cur.push(s[0]), acc, k - 1);
        assert(s.drop_first().skip(k - 1) =~= s.skip(k));
        assert(cur.push(s[0]) + s.drop_first().take(k - 1) =~= cur + s.take(k));
    }
}

/// The split yields as many tokens as `acc` already holds exactly when
/// nothing is pending: no token under way and only spaces ahead.
proof fn lemma_split_ws_len(s: Seq<char>, cur: Seq<char>, acc: Seq<Seq<char>>)
    ensures
        split_ws(s, cur, acc).len() >= acc.len(),
        (split_ws(s, cur, acc).len() == acc.len()) <==> (cur.len() == 0 && forall|j: int|
            0 <= j < s.len() ==> is_space_char(s[j])),
    decreases s.len(),
{
    if s.len() == 0 {
    } else if is_space_char(s[0]) {
        if cur.len() == 0 {
            lemma_split_ws_len(s.drop_first(), cur, acc);
            if forall|k: int|
                0 <= k < s.drop_first().len() ==> is_space_char(#[trigger] s.drop_first()[k]) {
                assert forall|j: int| 0 <= j < s.len() implies is_space_char(s[j]) by {
                    if j > 0 {
                        assert(s[j] == s.drop_first()[j - 1]);
                    }
                }
            } else {
                let k = choose|k: int|
                    0 <= k < s.drop_first().len() && !is_space_char(#[trigger] s.drop_first()[k]);
                assert(s[k + 1] == s.drop_first()[k]);
            }
        } else {
            lemma_split_ws_len(s.drop_first(), Seq::empty(), acc.push(cur));
        }
    } else {
        lemma_split_ws_len(s.drop_first(), cur.push(s[0]), acc);
        assert(!is_space_char(s[0]));
    }
}

/// Holds when no token in the list is empty.
pub open spec fn all_nonempty(ts: Seq<Seq<char>>) -> bool {
    forall|j: int| 0 <= j < ts.len() ==> #[trigger] ts[j].len() > 0
}

/// Every token of the split is non-empty, as long as the tokens already
/// collected are.
proof fn lemma_split_ws_nonempty(s: Seq<char>, cur: Seq<char>, acc: Seq<Seq<char>>)
    requires
        all_nonempty(acc),
    ensures
        all_nonempty(split_ws(s, cur, acc)),
    decreases s.len(),
{
    if s.len() == 0 {
        if cur.len() > 0 {
            lemma_nonempty_push(cur, acc);
        }
    } else if is_space_char(s[0]) {
        if cur.len() == 0 {
            lemma_split_ws_nonempty(s.drop_first(), cur, acc);
        } else {
            lemma_nonempty_push(cur, acc);
            lemma_split_ws_nonempty(s.drop_first(), Seq::empty(), acc.push(cur));
        }
    } else {
        lemma_split_ws_nonempty(s.drop_first(), cur.push(s[0]), acc);
    }
}

/// Pushing a non-empty token keeps every token non-empty.
proof fn lemma_nonempty_push(cur: Seq<char>, acc: Seq<Seq<char>>)
    requires
        cur.len() > 0,
        all_nonempty(acc),
    ensures
        all_nonempty(acc.push(cur)),
{
    assert forall|j: int| 0 <= j < acc.push(cur).len() implies #[trigger] acc.push(cur)[j].len()
        > 0 by {
        if j < acc.len() {
            assert(acc.push(cur)[j] == acc[j]);
        } else {
            assert(acc.push(cur)[j] == cur);
        }
    }
}

/// A line splits into no tokens exactly when it is all whitespace.
pub proof fn lemma_tokens_empty(s: Seq<char>)
    ensures
        (tokens_of(s).len() == 0) <==> (forall|j: int| 0 <= j < s.len() ==> is_space_char(s[j])),
{
    lemma_split_ws_len(s, Seq::empty(), Seq::empty());
}

/// No token of a line is empty.
pub proof fn lemma_tokens_nonempty(s: Seq<char>)
    ensures
        all_nonempty(tokens_of(s)),
{
    lemma_split_ws_nonempty(s, Seq::empty(), Seq::empty());
}

/// Splits a line into its whitespace-separated tokens.
pub fn tokenize(input: &str) -> (tokens: Vec<String>)
    ensures
        tokens.deep_view() == tokens_of(input@),
{
    let n = input.unicode_len();
    let mut acc: Vec<String> = Vec::new();
    let mut i: usize = 0;
    proof {
        assert(input@.skip(0) =~= input@);
        assert(acc.deep_view() =~= Seq::<Seq<char>>::empty());
    }
    while i < n
        invariant
            n == input@.len(),
            i <= n,
            split_ws(input@.skip(i as int), Seq::empty(), acc.deep_view()) == tokens_of(input@),
        decreases n - i,
    {
        let ghost s = input@;
        if is_space(input.get_char(i)) {
            proof {
                assert(s.skip(i as int).drop_first() =~= s.skip(i + 1));
            }
            i += 1;
        } else {
            let start = i;
            i += 1;
            while i < n && !is_space(input.get_char(i))
                invariant
                    n == s.len(),
                    s == input@,
                    start < i <= n,
                    forall|j: int| start <= j < i ==> !is_space_char(s[j]),
                decreases n - i,
            {
                i += 1;
            }
            let tok = String::from_str(input.substring_char(start, i));
            let ghost old_dv = acc.deep_view();
            proof {
                lemma_split_ws_nonspace(s.skip(start as int), Seq::empty(), old_dv, i - start);
                assert(s.skip(start as int).skip(i - start) =~= s.skip(i as int));
                assert(Seq::empty() + s.skip(start as int).take(i - start) =~= tok@);
            }
            acc.push(tok);
            proof {
                assert(acc.deep_view() =~= old_dv.push(tok@));
                if i < n {
                    // the pending token closes the same way whether the
                    // space ahead is read with it pending or afterwards
                    assert(split_ws(s.skip(i as int), tok@, old_dv) == split_ws(
                        s.skip(i as int).drop_first(),
                        Seq::empty(),
                        old_dv.push(tok@),
                    ));
                    assert(split_ws(s.skip(i as int), Seq::empty(), old_dv.push(tok@))
                        == split_ws(
                        s.skip(i as int).drop_first(),
                        Seq::empty(),
                        old_dv.push(tok@),
                    ));
                } else {
                    assert(s.skip(i as int).len() == 0);
                }
            }
        }
    }
    proof {
        assert(input@.skip(n as int).len() == 0);
    }
    acc
}

/// Character-by-character string equality.
pub fn str_eq(a: &str, b: &str) -> (r: bool)
    ensures
        r == (a@ == b@),
{
    let na = a.unicode_len();
    let nb = b.unicode_len();
    if na != nb {
        return false;
    }
    let mut i: usize = 0;
    while i < na
        invariant
            na == a@.len(),
            na == b@.len(),
            i <= na,
            forall|j: int| 0 <= j < i ==> a@[j] == b@[j],
        decreases na - i,
    {
        if a.get_char(i) != b.get_char(i) {
            return false;
        }
        i += 1;
    }
    proof {
        assert(a@ =~= b@);
    }
    true
}

/// The fixed lookup table from a command name to its operation.
pub open spec fn fn_of_name(s: Seq<char>) -> ShellFunction {
    if s.len() == 0 {
        ShellFunction::NoFunction
    } else if s == "movetodir"@ {
        ShellFunction::MoveToDir
    } else if s == "whereami"@ {
        ShellFunction::WhereAmI
    } else if s == "history"@ {
        ShellFunction::History
    } else if s == "byebye"@ {
        ShellFunction::ByeBye
    } else if s == "start"@ {
        ShellFunction::Start
    } else if s == "background"@ {
        ShellFunction::Background
    } else if s == "exterminate"@ {
        ShellFunction::Exterminate
    } else if s == "exterminateall"@ {
        ShellFunction::ExterminateAll
    } else if s == "repeat"@ {
        ShellFunction::Repeat
    } else {
        ShellFunction::UnknownFunction
    }
}

/// A parsed command: the operation selected by the first token, that
/// token itself, and the remaining tokens in order.
#[derive(Debug)]
pub struct ShellCommand {
    pub function: ShellFunction,
    pub name: String,
    pub args: Vec<String>,
}

/// The mathematical image of a `ShellCommand`.
#[verifier::ext_equal]
pub ghost struct CommandModel {
    pub function: ShellFunction,
    pub name: Seq<char>,
    pub args: Seq<Seq<char>>,
}

impl View for ShellCommand {
    type V = CommandModel;

    open spec fn view(&self) -> CommandModel {
        CommandModel { function: self.function, name: self.name@, args: self.args.deep_view() }
    }
}

/// What parsing a line yields: the first token names the operation, the
/// rest are its arguments; a line with no tokens selects `NoFunction`.
pub open spec fn cmd_of_line(s: Seq<char>) -> CommandModel {
    let toks = tokens_of(s);
    if toks.len() == 0 {
        CommandModel {
            function: ShellFunction::NoFunction,
            name: Seq::empty(),
            args: Seq::empty(),
        }
    } else {
        CommandModel { function: fn_of_name(toks[0]), name: toks[0], args: toks.drop_first() }
    }
}

impl ShellCommand {
    /// Looks a command name up in the fixed operation table. Matching
    /// is case-sensitive: `MOVETODIR` is an unknown command.
    pub fn str_to_function(command: &str) -> (f: ShellFunction)
        ensures
            f == fn_of_name(command@),
    {
        if command.unicode_len() == 0 {
            ShellFunction::NoFunction
        } else if str_eq(command, "movetodir") {
            ShellFunction::MoveToDir
        } else if str_eq(command, "whereami") {
            ShellFunction::WhereAmI
        } else if str_eq(command, "history") {
            ShellFunction::History
        } else if str_eq(command, "byebye") {
            ShellFunction::ByeBye
        } else if str_eq(command, "start") {
            ShellFunction::Start
        } else if str_eq(command, "background") {
            ShellFunction::Background
        } else if str_eq(command, "exterminate") {
            ShellFunction::Exterminate
        } else if str_eq(command, "exterminateall") {
            ShellFunction::ExterminateAll
        } else if str_eq(command, "repeat") {
            ShellFunction::Repeat
        } else {
            ShellFunction::UnknownFunction
        }
    }

    /// Parses a raw line: tokenize, take the first token as the name,
    /// classify it, and keep the remaining tokens as arguments. Total:
    /// every input, including an empty or all-whitespace one, yields a
    /// command.
    pub fn interpret_command(input: &str) -> (c: ShellCommand)
        ensures
            c@ == cmd_of_line(input@),
    {
        let mut toks = tokenize(input);
        if toks.len() == 0 {
            let c = ShellCommand {
                function: ShellFunction::NoFunction,
                name: String::new(),
                args: Vec::new(),
            };
            proof {
                assert(c.args.deep_view() =~= Seq::<Seq<char>>::empty());
                assert(c@ =~= cmd_of_line(input@));
            }
            c
        } else {
            let ghost old_dv = toks.deep_view();
            let name = toks.remove(0);
            let function = Self::str_to_function(name.as_str());
            let c = ShellCommand { function, name, args: toks };
            proof {
                assert(c.args.deep_view() =~= old_dv.drop_first());
                assert(c@ =~= cmd_of_line(input@));
            }
            c
        }
    }

    /// Parses a raw line into a command.
    pub fn new(command: &str) -> (c: ShellCommand)
        ensures
            c@ == cmd_of_line(command@),
    {
        ShellCommand::interpret_command(command)
    }
}

/// Parsing is total — every line yields a command — and it yields the
/// empty command exactly when the line holds nothing but whitespace.
pub proof fn lemma_parse_empty(s: Seq<char>)
    ensures
        (cmd_of_line(s).function == ShellFunction::NoFunction) <==> (forall|j: int|
            0 <= j < s.len() ==> is_space_char(s[j])),
{
    lemma_tokens_empty(s);
    lemma_tokens_nonempty(s);
    if tokens_of(s).len() > 0 {
        assert(tokens_of(s)[0].len() > 0);
    }
}

} // verus!
