//! Dot-commands of the sqlite3 shell (`.mode csv`, `.separator ", "`) and
//! their arguments, quoted as the shell quotes them.
use vstd::prelude::*;

use crate::text::{append_chars, chars_slice, str_chars, string_from_chars};

verus! {

/// One argument of a dot-command.
#[derive(Clone, Debug, Eq, PartialEq)]
pub struct DotCommandArgument {
    /// The argument as written.
    pub arg_text: String,
    /// The argument's value; `None` if it is an unclosed quoted string.
    pub arg_value: Option<String>,
    pub space_after_arg: String,
}

/// A dot-command: one line of a script that starts with `.`.
#[derive(Clone, Debug, Eq, PartialEq)]
pub struct DotCommand {
    /// Zero-indexed line number.
    pub line: usize,
    pub text: String,
    pub name: String,
    pub space_after_name: String,
    pub args: Vec<DotCommandArgument>,
}

pub struct DotCommandArgumentView {
    pub arg_text: Seq<char>,
    pub arg_value: Option<Seq<char>>,
    pub space_after_arg: Seq<char>,
}

pub struct DotCommandView {
    pub line: usize,
    pub text: Seq<char>,
    pub name: Seq<char>,
    pub space_after_name: Seq<char>,
    pub args: Seq<DotCommandArgumentView>,
}

pub open spec fn opt_view(o: Option<String>) -> Option<Seq<char>> {
    match o {
        Some(s) => Some(s@),
        None => None,
    }
}

impl View for DotCommandArgument {
    type V = DotCommandArgumentView;

    open spec fn view(&self) -> DotCommandArgumentView {
        DotCommandArgumentView {
            arg_text: self.arg_text@,
            arg_value: opt_view(self.arg_value),
            space_after_arg: self.space_after_arg@,
        }
    }
}

impl View for DotCommand {
    type V = DotCommandView;

    open spec fn view(&self) -> DotCommandView {
        DotCommandView {
            line: self.line,
            text: self.text@,
            name: self.name@,
            space_after_name: self.space_after_name@,
            args: self.args@.map_values(|a: DotCommandArgument| a@),
        }
    }
}

// ---------------------------------------------------------------------------
// Specification
// ---------------------------------------------------------------------------

/// The number of leading characters of `s` that differ from `c`.
pub open spec fn count_until(s: Seq<char>, c: char) -> nat
    decreases s.len(),
{
    if s.len() == 0 || s[0] == c {
        0
    } else {
        1 + count_until(s.drop_first(), c)
    }
}

/// The number of leading characters of `s` equal to `c`.
pub open spec fn count_while(s: Seq<char>, c: char) -> nat
    decreases s.len(),
{
    if s.len() == 0 || s[0] != c {
        0
    } else {
        1 + count_while(s.drop_first(), c)
    }
}

pub proof fn lemma_count_until(s: Seq<char>, c: char)
    ensures
        count_until(s, c) <= s.len(),
        forall|k: int| 0 <= k < count_until(s, c) ==> s[k] != c,
        count_until(s, c) < s.len() ==> s[count_until(s, c) as int] == c,
    decreases s.len(),
{
    if s.len() > 0 && s[0] != c {
        lemma_count_until(s.drop_first(), c);
        assert forall|k: int| 0 <= k < count_until(s, c) implies s[k] != c by {
            if k > 0 {
                assert(s[k] == s.drop_first()[k - 1]);
            }
        }
    }
}

pub proof fn lemma_count_while(s: Seq<char>, c: char)
    ensures
        count_while(s, c) <= s.len(),
        forall|k: int| 0 <= k < count_while(s, c) ==> s[k] == c,
        count_while(s, c) < s.len() ==> s[count_while(s, c) as int] != c,
    decreases s.len(),
{
    if s.len() > 0 && s[0] == c {
        lemma_count_while(s.drop_first(), c);
        assert forall|k: int| 0 <= k < count_while(s, c) implies s[k] == c by {
            if k > 0 {
                assert(s[k] == s.drop_first()[k - 1]);
            }
        }
    }
}

pub proof fn lemma_count_until_exact(s: Seq<char>, c: char, j: int)
    requires
        0 <= j <= s.len(),
        forall|k: int| 0 <= k < j ==> s[k] != c,
        j == s.len() || s[j] == c,
    ensures
        count_until(s, c) == j,
    decreases s.len(),
{
    if s.len() > 0 && s[0] != c {
        lemma_count_until_exact(s.drop_first(), c, j - 1);
    }
}

pub proof fn lemma_count_while_exact(s: Seq<char>, c: char, j: int)
    requires
        0 <= j <= s.len(),
        forall|k: int| 0 <= k < j ==> s[k] == c,
        j == s.len() || s[j] != c,
    ensures
        count_while(s, c) == j,
    decreases s.len(),
{
    if s.len() > 0 && s[0] == c {
        lemma_count_while_exact(s.drop_first(), c, j - 1);
    }
}

/// A single-quoted literal at the start of `text` and its value: the
/// characters up to the next `'`, kept as they are. Unclosed: the whole
/// text, and no value.
pub open spec fn single_quote_literal(text: Seq<char>) -> (Seq<char>, Option<Seq<char>>) {
    let body = text.drop_first();
    let k = count_until(body, '\'');
    if k < body.len() {
        let lit = body.take(k as int);
        (seq!['\''] + lit + seq!['\''], Some(lit))
    } else {
        (text, None)
    }
}

/// The scanner's state inside a double-quoted literal.
pub struct DqState {
    /// 0: plain, 1: after `\`, 2: in `\x..`, 3: in `\0..`.
    pub mode: u8,
    pub digits: Seq<char>,
    pub value: Seq<char>,
}

pub open spec fn is_hex_digit(c: char) -> bool {
    ('0' <= c && c <= '9') || ('a' <= c && c <= 'f') || ('A' <= c && c <= 'F')
}

pub open spec fn is_octal_digit(c: char) -> bool {
    '0' <= c && c <= '7'
}

pub open spec fn digit_value(c: char) -> nat {
    if '0' <= c && c <= '9' {
        (c as nat - '0' as nat) as nat
    } else if 'a' <= c && c <= 'f' {
        (c as nat - 'a' as nat + 10) as nat
    } else {
        (c as nat - 'A' as nat + 10) as nat
    }
}

/// The number written with `digits` in base `radix`.
pub open spec fn digits_value(digits: Seq<char>, radix: nat) -> nat
    decreases digits.len(),
{
    if digits.len() == 0 {
        0
    } else {
        digits_value(digits.drop_last(), radix) * radix + digit_value(digits.last())
    }
}

/// The character for an escape value; NUL when it is no character.
pub open spec fn char_of(v: nat) -> char {
    if v < 0xD800 {
        v as char
    } else {
        '\0'
    }
}

/// The character that `\c` stands for in the sqlite3 shell.
pub open spec fn escaped_char(c: char) -> char {
    if c == 'a' {
        '\x07'
    } else if c == 'b' {
        '\x08'
    } else if c == 't' {
        '\t'
    } else if c == 'n' {
        '\n'
    } else if c == 'v' {
        '\x0B'
    } else if c == 'f' {
        '\x0C'
    } else if c == 'r' {
        '\r'
    } else {
        c
    }
}

/// After a pending `\x..` or `\0..` escape, character `c` either adds a digit
/// or ends the escape (the escape's character is then emitted).
pub open spec fn dq_flush(st: DqState, c: char) -> (bool, DqState) {
    let hex = st.mode == 2;
    let is_digit = if hex {
        is_hex_digit(c)
    } else {
        is_octal_digit(c)
    };
    let digits = if is_digit {
        st.digits.push(c)
    } else {
        st.digits
    };
    let limit: nat = if hex {
        2
    } else {
        3
    };
    if !is_digit || digits.len() >= limit {
        let radix: nat = if hex {
            16
        } else {
            8
        };
        (
            is_digit,
            DqState {
                mode: 0,
                digits: seq![],
                value: st.value.push(char_of(digits_value(digits, radix))),
            },
        )
    } else {
        (is_digit, DqState { mode: st.mode, digits, value: st.value })
    }
}

/// One character of a double-quoted literal: whether the scan goes on, and
/// the new state.
pub open spec fn dq_step(st: DqState, c: char) -> (bool, DqState) {
    let (consumed, st1) = if st.mode == 2 || st.mode == 3 {
        dq_flush(st, c)
    } else {
        (false, st)
    };
    if consumed {
        (true, st1)
    } else if st1.mode == 1 {
        if c == 'x' {
            (true, DqState { mode: 2, digits: st1.digits, value: st1.value })
        } else if is_octal_digit(c) {
            (true, DqState { mode: 3, digits: st1.digits.push(c), value: st1.value })
        } else {
            (true, DqState { mode: 0, digits: st1.digits, value: st1.value.push(escaped_char(c)) })
        }
    } else if c == '\\' {
        (true, DqState { mode: 1, digits: st1.digits, value: st1.value })
    } else if c == '"' {
        (false, st1)
    } else {
        (true, DqState { mode: 0, digits: st1.digits, value: st1.value.push(c) })
    }
}

/// Scans `body[i..]` from state `st`; gives the index of the closing quote
/// (or `body.len()`) and the state there.
pub open spec fn dq_run(body: Seq<char>, i: int, st: DqState) -> (int, DqState)
    decreases body.len() - i,
{
    if i < 0 || i >= body.len() {
        (body.len() as int, st)
    } else {
        let (go, st2) = dq_step(st, body[i]);
        if !go {
            (i, st2)
        } else {
            dq_run(body, i + 1, st2)
        }
    }
}

pub open spec fn dq_init() -> DqState {
    DqState { mode: 0, digits: seq![], value: seq![] }
}

/// A double-quoted literal at the start of `text` and its value, with the
/// backslash escapes of the sqlite3 shell. Unclosed: the whole text, and no
/// value.
pub open spec fn double_quote_literal(text: Seq<char>) -> (Seq<char>, Option<Seq<char>>) {
    let body = text.drop_first();
    let (n, st) = dq_run(body, 0, dq_init());
    if n < body.len() {
        (seq!['"'] + body.take(n) + seq!['"'], Some(st.value))
    } else {
        (text, None)
    }
}

/// The text and value of the argument at the start of `rest`.
pub open spec fn argument_at(rest: Seq<char>) -> (Seq<char>, Option<Seq<char>>) {
    if rest.len() > 0 && rest[0] == '\'' {
        single_quote_literal(rest)
    } else if rest.len() > 0 && rest[0] == '"' {
        double_quote_literal(rest)
    } else {
        let t = rest.take(count_until(rest, ' ') as int);
        (t, Some(t))
    }
}

/// The arguments in `rest`, each with the spaces after it.
pub open spec fn dot_arguments(rest: Seq<char>) -> Seq<DotCommandArgumentView>
    decreases rest.len(),
{
    if rest.len() == 0 {
        seq![]
    } else {
        let (arg_text, arg_value) = argument_at(rest);
        let r2 = rest.skip(arg_text.len() as int);
        let sp = count_while(r2, ' ');
        let r3 = r2.skip(sp as int);
        if arg_text.len() + sp == 0 || arg_text.len() > rest.len() {
            seq![]
        } else {
            proof {
                lemma_count_while(r2, ' ');
            }
            seq![
                DotCommandArgumentView {
                    arg_text,
                    arg_value,
                    space_after_arg: r2.take(sp as int),
                },
            ] + dot_arguments(r3)
        }
    }
}

/// The dot-command written `text` on line `line`.
pub open spec fn dot_command(line: usize, text: Seq<char>) -> DotCommandView {
    let t1 = text.drop_first();
    let name = t1.take(count_until(t1, ' ') as int);
    let t2 = t1.skip(name.len() as int);
    let sp = t2.take(count_while(t2, ' ') as int);
    let t3 = t2.skip(sp.len() as int);
    DotCommandView { line, text, name, space_after_name: sp, args: dot_arguments(t3) }
}

/// The arguments written back one after the other, each with the spaces
/// after it.
pub open spec fn arguments_text(args: Seq<DotCommandArgumentView>) -> Seq<char>
    decreases args.len(),
{
    if args.len() == 0 {
        seq![]
    } else {
        args[0].arg_text + args[0].space_after_arg + arguments_text(args.drop_first())
    }
}

proof fn lemma_dq_run_stops_at_quote(body: Seq<char>, i: int, st: DqState)
    requires
        0 <= i,
    ensures
        dq_run(body, i, st).0 < body.len() ==> body[dq_run(body, i, st).0] == '"',
    decreases body.len() - i,
{
    if i < body.len() {
        let (go, st2) = dq_step(st, body[i]);
        if go {
            lemma_dq_run_stops_at_quote(body, i + 1, st2);
        }
    }
}

proof fn lemma_argument_at(rest: Seq<char>)
    requires
        rest.len() > 0,
        rest[0] != ' ',
    ensures
        ({
            let (a, v) = argument_at(rest);
            &&& 1 <= a.len() <= rest.len()
            &&& a == rest.take(a.len() as int)
            &&& a[0] == '\'' || a[0] == '"' || v == Some(a)
        }),
{
    let body = rest.drop_first();
    if rest[0] == '\'' {
        let k = count_until(body, '\'');
        lemma_count_until(body, '\'');
        if k < body.len() {
            let a = seq!['\''] + body.take(k as int) + seq!['\''];
            assert(a =~= rest.take(a.len() as int));
        } else {
            assert(rest =~= rest.take(rest.len() as int));
        }
    } else if rest[0] == '"' {
        let (n, st) = dq_run(body, 0, dq_init());
        lemma_dq_run_bound(body, 0, dq_init());
        lemma_dq_run_stops_at_quote(body, 0, dq_init());
        if n < body.len() {
            let a = seq!['"'] + body.take(n) + seq!['"'];
            assert(a =~= rest.take(a.len() as int));
        } else {
            assert(rest =~= rest.take(rest.len() as int));
        }
    } else {
        lemma_count_until(rest, ' ');
    }
}

proof fn lemma_dot_arguments(rest: Seq<char>)
    requires
        rest.len() == 0 || rest[0] != ' ',
    ensures
        arguments_text(dot_arguments(rest)) == rest,
        forall|k: int|
            0 <= k < dot_arguments(rest).len() ==> {
                let a = #[trigger] dot_arguments(rest)[k];
                &&& a.arg_text.len() > 0
                &&& (a.arg_text[0] == '\'' || a.arg_text[0] == '"' || a.arg_value == Some(a.arg_text))
            },
    decreases rest.len(),
{
    if rest.len() > 0 {
        lemma_argument_at(rest);
        let (arg_text, arg_value) = argument_at(rest);
        let r2 = rest.skip(arg_text.len() as int);
        let sp = count_while(r2, ' ');
        lemma_count_while(r2, ' ');
        let r3 = r2.skip(sp as int);
        lemma_dot_arguments(r3);
        let head = DotCommandArgumentView { arg_text, arg_value, space_after_arg: r2.take(sp as int) };
        let args = dot_arguments(rest);
        assert(args == seq![head] + dot_arguments(r3));
        assert(args.drop_first() =~= dot_arguments(r3));
        assert(arguments_text(args) == arg_text + r2.take(sp as int) + r3);
        assert(rest =~= arg_text + r2.take(sp as int) + r3);
        assert forall|k: int|
            0 <= k < args.len() implies {
                let a = #[trigger] args[k];
                &&& a.arg_text.len() > 0
                &&& (a.arg_text[0] == '\'' || a.arg_text[0] == '"' || a.arg_value == Some(a.arg_text))
            } by {
            if k > 0 {
                assert(args[k] == dot_arguments(r3)[k - 1]);
            }
        }
    }
}

proof fn lemma_dq_run_plain(body: Seq<char>, i: int)
    requires
        0 <= i <= count_until(body, '"'),
        forall|k: int| 0 <= k < body.len() ==> body[k] != '\\',
    ensures
        dq_run(body, i, DqState { mode: 0, digits: seq![], value: body.take(i) }) == (
            count_until(body, '"') as int,
            DqState { mode: 0, digits: seq![], value: body.take(count_until(body, '"') as int) },
        ),
    decreases body.len() - i,
{
    lemma_count_until(body, '"');
    let q = count_until(body, '"') as int;
    let st = DqState { mode: 0, digits: seq![], value: body.take(i) };
    if i < q {
        assert(body[i] != '"');
        assert(body[i] != '\\');
        assert(dq_step(st, body[i]) == (true, DqState { mode: 0, digits: seq![], value: body.take(i).push(body[i]) }));
        assert(body.take(i).push(body[i]) =~= body.take(i + 1));
        lemma_dq_run_plain(body, i + 1);
    } else if i < body.len() {
        assert(body[i] == '"');
    }
}

/// A double-quoted literal is read from the start of the text: what is
/// written is a prefix of the text, the whole text when the literal is not
/// closed, and otherwise at least two characters that end with the
/// closing `"`. Without backslashes, its value is the text between the
/// opening `"` and the next one.
pub proof fn law_double_quote_literal(text: Seq<char>)
    requires
        text.len() > 0,
        text[0] == '"',
    ensures
        ({
            let (lit, val) = double_quote_literal(text);
            let body = text.drop_first();
            &&& lit.len() <= text.len()
            &&& text.take(lit.len() as int) == lit
            &&& val is None ==> lit == text
            &&& val is Some ==> lit.len() >= 2 && lit.last() == '"'
            &&& (forall|k: int| 0 <= k < text.len() ==> text[k] != '\\') ==> val == (if count_until(body, '"') < body.len() {
                Some(body.take(count_until(body, '"') as int))
            } else {
                None
            })
        }),
{
    lemma_argument_at(text);
    let body = text.drop_first();
    let (n, st) = dq_run(body, 0, dq_init());
    lemma_dq_run_bound(body, 0, dq_init());
    assert(text =~= text.take(text.len() as int));
    if forall|k: int| 0 <= k < text.len() ==> text[k] != '\\' {
        assert forall|k: int| 0 <= k < body.len() implies body[k] != '\\' by {
            assert(body[k] == text[k + 1]);
        }
        assert(body.take(0) =~= Seq::<char>::empty());
        assert(dq_init() == DqState { mode: 0, digits: seq![], value: body.take(0) });
        lemma_dq_run_plain(body, 0);
    }
}

/// A dot-command reads back as it was written: `.`, its name (which holds
/// no space), the spaces after the name, then each argument with the
/// spaces after it give the text again; every argument is written with at
/// least one character, and one that does not start with a quote is its
/// own value.
pub proof fn law_dot_command_round_trip(line: usize, text: Seq<char>)
    requires
        text.len() > 0,
        text[0] == '.',
    ensures
        ({
            let d = dot_command(line, text);
            &&& d.line == line
            &&& d.text == text
            &&& seq!['.'] + d.name + d.space_after_name + arguments_text(d.args) == text
            &&& !d.name.contains(' ')
            &&& forall|k: int|
                0 <= k < d.args.len() ==> {
                    let a = #[trigger] d.args[k];
                    &&& a.arg_text.len() > 0
                    &&& (a.arg_text[0] == '\'' || a.arg_text[0] == '"' || a.arg_value == Some(a.arg_text))
                }
        }),
{
    let t1 = text.drop_first();
    lemma_count_until(t1, ' ');
    let name = t1.take(count_until(t1, ' ') as int);
    let t2 = t1.skip(name.len() as int);
    lemma_count_while(t2, ' ');
    let sp = t2.take(count_while(t2, ' ') as int);
    let t3 = t2.skip(sp.len() as int);
    lemma_dot_arguments(t3);
    assert(text =~= seq!['.'] + name + sp + t3);
    assert forall|k: int| 0 <= k < name.len() implies name[k] != ' ' by {}
}

// ---------------------------------------------------------------------------
// Implementation
// ---------------------------------------------------------------------------

/// The character for `v` when there is one.
///
/// Trusted: calls std's `char::from_u32`, which the documentation says
/// returns the character with code `v` when `v` is a Unicode scalar value
/// (below 0xD800, or from 0xE000 to 0x10FFFF), and `None` otherwise.
#[verifier::external_body]
pub(crate) fn char_from_u32(v: u32) -> (r: Option<char>)
    ensures
        v < 0xD800 ==> r == Some(v as char),
        0xD800 <= v < 0xE000 ==> r is None,
{
    char::from_u32(v)
}

fn count_until_at(s: &Vec<char>, from: usize, c: char) -> (r: usize)
    requires
        from <= s@.len(),
    ensures
        from <= r <= s@.len(),
        r - from == count_until(s@.skip(from as int), c),
{
    let mut i = from;
    while i < s.len() && s[i] != c
        invariant
            from <= i <= s@.len(),
            forall|k: int| from <= k < i ==> s@[k] != c,
        decreases s@.len() - i,
    {
        i = i + 1;
    }
    proof {
        lemma_count_until_exact(s@.skip(from as int), c, i - from);
    }
    i
}

fn count_while_at(s: &Vec<char>, from: usize, c: char) -> (r: usize)
    requires
        from <= s@.len(),
    ensures
        from <= r <= s@.len(),
        r - from == count_while(s@.skip(from as int), c),
{
    let mut i = from;
    while i < s.len() && s[i] == c
        invariant
            from <= i <= s@.len(),
            forall|k: int| from <= k < i ==> s@[k] == c,
        decreases s@.len() - i,
    {
        i = i + 1;
    }
    proof {
        lemma_count_while_exact(s@.skip(from as int), c, i - from);
    }
    i
}

/// The single-quoted literal starting at `s[from]`, with its length in
/// characters.
fn scan_single_at(s: &Vec<char>, from: usize) -> (r: (Vec<char>, Option<Vec<char>>))
    requires
        from < s@.len(),
        s@[from as int] == '\'',
    ensures
        r.0@ == single_quote_literal(s@.skip(from as int)).0,
        match r.1 {
            Some(v) => single_quote_literal(s@.skip(from as int)).1 == Some(v@),
            None => single_quote_literal(s@.skip(from as int)).1 is None,
        },
{
    let ghost text = s@.skip(from as int);
    let n = s.len();
    let end = count_until_at(s, from + 1, '\'');
    proof {
        assert(text.drop_first() =~= s@.skip(from + 1));
        lemma_count_until(s@.skip(from + 1), '\'');
    }
    if end < s.len() {
        let lit = chars_slice(s, from + 1, end);
        let mut t: Vec<char> = Vec::new();
        t.push('\'');
        append_chars(&mut t, &lit);
        t.push('\'');
        proof {
            assert(lit@ =~= text.drop_first().take((end - from - 1) as int));
            assert(t@ =~= seq!['\''] + lit@ + seq!['\'']);
        }
        (t, Some(lit))
    } else {
        let all = chars_slice(s, from, s.len());
        proof {
            assert(all@ =~= text);
        }
        (all, None)
    }
}

fn hex_or_octal_value(digits: &Vec<char>, hex: bool) -> (r: u32)
    requires
        digits@.len() <= 3,
        forall|k: int| 0 <= k < digits@.len() ==> if hex {
            is_hex_digit(digits@[k])
        } else {
            is_octal_digit(digits@[k])
        },
    ensures
        r == digits_value(digits@, if hex { 16 } else { 8 }),
        r < 4096,
{
    let radix: u32 = if hex {
        16
    } else {
        8
    };
    let mut v: u32 = 0;
    let mut i: usize = 0;
    while i < digits.len()
        invariant
            i <= digits@.len(),
            digits@.len() <= 3,
            radix == (if hex { 16u32 } else { 8u32 }),
            forall|k: int| 0 <= k < digits@.len() ==> if hex {
                is_hex_digit(digits@[k])
            } else {
                is_octal_digit(digits@[k])
            },
            v == digits_value(digits@.subrange(0, i as int), radix as nat),
            v < (if i == 0 { 1u32 } else if i == 1 { 16u32 } else if i == 2 { 256u32 } else { 4096u32 }),
        decreases digits@.len() - i,
    {
        let c = digits[i];
        let d: u32 = if '0' <= c && c <= '9' {
            (c as u32) - ('0' as u32)
        } else if 'a' <= c && c <= 'f' {
            (c as u32) - ('a' as u32) + 10
        } else {
            (c as u32) - ('A' as u32) + 10
        };
        proof {
            assert(d == digit_value(c));
            assert(d < 16);
            assert(digits@.subrange(0, i + 1).drop_last() =~= digits@.subrange(0, i as int));
        }
        v = v * radix + d;
        i = i + 1;
    }
    proof {
        assert(digits@.subrange(0, i as int) =~= digits@);
    }
    v
}

fn push_escape_char(value: &mut Vec<char>, digits: &Vec<char>, hex: bool)
    requires
        digits@.len() <= 3,
        forall|k: int| 0 <= k < digits@.len() ==> if hex {
            is_hex_digit(digits@[k])
        } else {
            is_octal_digit(digits@[k])
        },
    ensures
        final(value)@ == old(value)@.push(char_of(digits_value(digits@, if hex { 16 } else { 8 }))),
{
    let v = hex_or_octal_value(digits, hex);
    let c = match char_from_u32(v) {
        Some(c) => c,
        None => '\0',
    };
    value.push(c);
}

fn escaped_char_exec(c: char) -> (r: char)
    ensures
        r == escaped_char(c),
{
    if c == 'a' {
        '\x07'
    } else if c == 'b' {
        '\x08'
    } else if c == 't' {
        '\t'
    } else if c == 'n' {
        '\n'
    } else if c == 'v' {
        '\x0B'
    } else if c == 'f' {
        '\x0C'
    } else if c == 'r' {
        '\r'
    } else {
        c
    }
}

/// The double-quoted literal starting at `s[from]`.
fn scan_double_at(s: &Vec<char>, from: usize) -> (r: (Vec<char>, Option<Vec<char>>))
    requires
        from < s@.len(),
        s@[from as int] == '"',
    ensures
        r.0@ == double_quote_literal(s@.skip(from as int)).0,
        match r.1 {
            Some(v) => double_quote_literal(s@.skip(from as int)).1 == Some(v@),
            None => double_quote_literal(s@.skip(from as int)).1 is None,
        },
{
    let ghost text = s@.skip(from as int);
    let ghost body = text.drop_first();
    proof {
        assert(body =~= s@.skip(from + 1));
    }
    let n = s.len();
    let mut mode: u8 = 0;
    let mut digits: Vec<char> = Vec::new();
    let mut value: Vec<char> = Vec::new();
    let mut i = from + 1;
    let mut closed = false;
    while i < s.len() && !closed
        invariant
            from + 1 <= i <= s@.len(),
            body == s@.skip(from + 1),
            mode <= 3,
            mode == 2 ==> digits@.len() < 2,
            mode == 3 ==> digits@.len() < 3,
            mode < 2 ==> digits@.len() == 0,
            forall|k: int| 0 <= k < digits@.len() ==> if mode == 2 {
                is_hex_digit(digits@[k])
            } else {
                is_octal_digit(digits@[k])
            },
            !closed ==> dq_run(body, 0, dq_init()) == dq_run(
                body,
                i - from - 1,
                DqState { mode, digits: digits@, value: value@ },
            ),
            closed ==> i >= from + 2 && dq_run(body, 0, dq_init()) == (
                (i - from - 2) as int,
                DqState { mode, digits: digits@, value: value@ },
            ),
        decreases s@.len() - i,
    {
        let c = s[i];
        let ghost st = DqState { mode, digits: digits@, value: value@ };
        proof {
            assert(body[i - from - 1] == c);
        }
        let mut consumed = false;
        if mode == 2 || mode == 3 {
            let hex = mode == 2;
            let is_digit = if hex {
                ('0' <= c && c <= '9') || ('a' <= c && c <= 'f') || ('A' <= c && c <= 'F')
            } else {
                '0' <= c && c <= '7'
            };
            if is_digit {
                digits.push(c);
            }
            let limit: usize = if hex {
                2
            } else {
                3
            };
            if !is_digit || digits.len() >= limit {
                push_escape_char(&mut value, &digits, hex);
                digits = Vec::new();
                mode = 0;
            }
            consumed = is_digit;
        }
        if consumed {
        } else if mode == 1 {
            if c == 'x' {
                mode = 2;
            } else if '0' <= c && c <= '7' {
                mode = 3;
                digits.push(c);
            } else {
                value.push(escaped_char_exec(c));
                mode = 0;
            }
        } else if c == '\\' {
            mode = 1;
        } else if c == '"' {
            closed = true;
        } else {
            value.push(c);
        }
        proof {
            let (go, st2) = dq_step(st, c);
            assert(st2 == DqState { mode, digits: digits@, value: value@ });
            assert(go == !closed);
        }
        i = i + 1;
    }
    if closed {
        let n = i - from - 2;
        let lit = chars_slice(s, from + 1, i - 1);
        let mut t: Vec<char> = Vec::new();
        t.push('"');
        append_chars(&mut t, &lit);
        t.push('"');
        proof {
            assert(lit@ =~= body.take(n as int));
            assert(t@ =~= seq!['"'] + lit@ + seq!['"']);
        }
        (t, Some(value))
    } else {
        proof {
            assert(i - from - 1 == body.len());
        }
        let all = chars_slice(s, from, s.len());
        proof {
            assert(all@ =~= text);
        }
        (all, None)
    }
}

impl DotCommand {
    /// Scans the single-quoted string literal at the start of `text`; gives
    /// the literal as written and its value.
    pub fn scan_single_quote_string_literal(text: &str) -> (r: (String, Option<String>))
        requires
            text@.len() > 0,
            text@[0] == '\'',
        ensures
            r.0@ == single_quote_literal(text@).0,
            opt_view(r.1) == single_quote_literal(text@).1,
    {
        let s = str_chars(text);
        proof {
            assert(s@.skip(0) =~= s@);
        }
        let (lit, value) = scan_single_at(&s, 0);
        let v = match value {
            Some(v) => Some(string_from_chars(&v)),
            None => None,
        };
        (string_from_chars(&lit), v)
    }

    /// Scans the double-quoted string literal at the start of `text`, with
    /// the backslash escapes of the sqlite3 shell; gives the literal as
    /// written and its value.
    pub fn scan_double_quote_string_literal(text: &str) -> (r: (String, Option<String>))
        requires
            text@.len() > 0,
            text@[0] == '"',
        ensures
            r.0@ == double_quote_literal(text@).0,
            opt_view(r.1) == double_quote_literal(text@).1,
    {
        let s = str_chars(text);
        proof {
            assert(s@.skip(0) =~= s@);
        }
        let (lit, value) = scan_double_at(&s, 0);
        let v = match value {
            Some(v) => Some(string_from_chars(&v)),
            None => None,
        };
        (string_from_chars(&lit), v)
    }

    /// Parses the dot-command written `text` on line `line`.
    pub fn new(line: usize, text: &str) -> (r: Self)
        requires
            text@.len() > 0,
            text@[0] == '.',
        ensures
            r@ == dot_command(line, text@),
    {
        let s = str_chars(text);
        let n = s.len();
        let name_end = count_until_at(&s, 1, ' ');
        let name = chars_slice(&s, 1, name_end);
        let sp_end = count_while_at(&s, name_end, ' ');
        let space_after_name = chars_slice(&s, name_end, sp_end);
        let ghost t1 = s@.drop_first();
        proof {
            assert(s@.skip(1) =~= t1);
            assert(name@ =~= t1.take(count_until(t1, ' ') as int));
            assert(t1.skip(name@.len() as int) =~= s@.skip(name_end as int));
            assert(space_after_name@ =~= s@.skip(name_end as int).take(
                count_while(s@.skip(name_end as int), ' ') as int,
            ));
            assert(s@.skip(name_end as int).skip(space_after_name@.len() as int) =~= s@.skip(
                sp_end as int,
            ));
        }
        let mut args: Vec<DotCommandArgument> = Vec::new();
        let mut pos = sp_end;
        while pos < n
            invariant
                pos <= n,
                n == s@.len(),
                args@.map_values(|a: DotCommandArgument| a@) + dot_arguments(s@.skip(pos as int))
                    == dot_arguments(s@.skip(sp_end as int)),
            decreases n - pos,
        {
            let ghost rest = s@.skip(pos as int);
            let c = s[pos];
            proof {
                assert(rest[0] == c);
            }
            let (arg_text, arg_value) = if c == '\'' {
                scan_single_at(&s, pos)
            } else if c == '"' {
                scan_double_at(&s, pos)
            } else {
                let e = count_until_at(&s, pos, ' ');
                let t = chars_slice(&s, pos, e);
                let t2 = chars_slice(&s, pos, e);
                proof {
                    assert(t@ =~= rest.take(count_until(rest, ' ') as int));
                }
                (t, Some(t2))
            };
            proof {
                let (at, av) = argument_at(rest);
                assert(arg_text@ == at);
                assert(arg_text@.len() <= rest.len()) by {
                    if c != '\'' && c != '"' {
                        lemma_count_until(rest, ' ');
                    } else if c == '\'' {
                        lemma_count_until(rest.drop_first(), '\'');
                    } else {
                        lemma_dq_run_bound(rest.drop_first(), 0, dq_init());
                    }
                }
            }
            let after_arg = pos + arg_text.len();
            let sp_end2 = count_while_at(&s, after_arg, ' ');
            let space = chars_slice(&s, after_arg, sp_end2);
            proof {
                assert(rest.skip(arg_text@.len() as int) =~= s@.skip(after_arg as int));
                assert(space@ =~= s@.skip(after_arg as int).take(
                    count_while(s@.skip(after_arg as int), ' ') as int,
                ));
                assert(s@.skip(after_arg as int).skip(space@.len() as int) =~= s@.skip(
                    sp_end2 as int,
                ));
                if arg_text@.len() + space@.len() == 0 {
                    // the argument starts with a space only when it is not
                    // at the start of the remaining text, which the loop
                    // rules out: the first character is not a space, or
                    // the spaces after it are counted
                    assert(c != '\'' && c != '"');
                    lemma_count_while(s@.skip(after_arg as int), ' ');
                    assert(s@.skip(after_arg as int)[0] == c);
                    lemma_count_until(rest, ' ');
                    assert(false);
                }
            }
            let value = match arg_value {
                Some(v) => Some(string_from_chars(&v)),
                None => None,
            };
            let arg = DotCommandArgument {
                arg_text: string_from_chars(&arg_text),
                arg_value: value,
                space_after_arg: string_from_chars(&space),
            };
            let ghost old_args = args@.map_values(|a: DotCommandArgument| a@);
            args.push(arg);
            proof {
                assert(args@.map_values(|a: DotCommandArgument| a@) =~= old_args.push(arg@));
                assert(dot_arguments(rest) == seq![arg@] + dot_arguments(s@.skip(sp_end2 as int)));
                assert(old_args.push(arg@) + dot_arguments(s@.skip(sp_end2 as int)) =~= old_args
                    + dot_arguments(rest));
            }
            pos = sp_end2;
        }
        proof {
            assert(s@.skip(pos as int) =~= Seq::<char>::empty());
            assert(args@.map_values(|a: DotCommandArgument| a@) + Seq::<DotCommandArgumentView>::empty()
                =~= args@.map_values(|a: DotCommandArgument| a@));
        }
        DotCommand {
            line,
            text: string_from_chars(&s),
            name: string_from_chars(&name),
            space_after_name: string_from_chars(&space_after_name),
            args,
        }
    }
}

pub proof fn lemma_dq_run_bound(body: Seq<char>, i: int, st: DqState)
    requires
        0 <= i,
    ensures
        dq_run(body, i, st).0 <= body.len(),
        dq_run(body, i, st).0 < body.len() ==> dq_run(body, i, st).0 >= i,
    decreases body.len() - i,
{
    if i < body.len() {
        let (go, st2) = dq_step(st, body[i]);
        if go {
            lemma_dq_run_bound(body, i + 1, st2);
        }
    }
}

} // verus!
