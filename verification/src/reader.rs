//! From text to tokens, from tokens to forms.

use vstd::prelude::*;
use crate::keys::{law_read_str_keeps_keys, ret_well_keyed};
pub use crate::stream::{ByteToCharAdapter, CharReader, MalStream, TokenStream};
use crate::text::{chars_of, int_literal, is_digit, parse_int, push_text, text_eq, text_of};
use crate::types::{
    assoc_spec, error, hash_map, list, list2, list3, list_val, ret_val, sym, vals, vector,
    vector_val, MalRet, MalVal, Val,
};

verus! {

/// Blank characters, which separate tokens.
pub open spec fn is_space(c: char) -> bool {
    c == ' ' || c == '\t' || c == '\n' || c == '\r'
}

/// The characters that are a token by themselves.
pub open spec fn is_special(c: char) -> bool {
    c == '(' || c == ')' || c == '[' || c == ']' || c == '{' || c == '}' || c == '\'' || c == '`'
        || c == '~' || c == '^' || c == '@'
}

/// The characters at which a bare token ends.
pub open spec fn ends_bare(c: char) -> bool {
    is_space(c) || c == '(' || c == ')' || c == '[' || c == ']' || c == '{' || c == '}' || c
        == '\'' || c == '`' || c == '"' || c == ';'
}

/// Where the string that is open at `i` ends: just behind its closing
/// quote, or at the end of `s` where it is not closed. A backslash takes
/// the character behind it along.
pub open spec fn string_stop(s: Seq<char>, i: int) -> int
    decreases s.len() - i,
{
    if i < 0 || i >= s.len() {
        s.len() as int
    } else if s[i] == '"' {
        i + 1
    } else if s[i] == '\\' && i + 1 < s.len() {
        string_stop(s, i + 2)
    } else {
        string_stop(s, i + 1)
    }
}

/// Whether the string that is open at `i` is closed before `s` ends.
pub open spec fn string_closed(s: Seq<char>, i: int) -> bool
    decreases s.len() - i,
{
    if i < 0 || i >= s.len() {
        false
    } else if s[i] == '"' {
        true
    } else if s[i] == '\\' && i + 1 < s.len() {
        string_closed(s, i + 2)
    } else {
        string_closed(s, i + 1)
    }
}

/// Where the bare token that runs through `i` ends.
pub open spec fn bare_stop(s: Seq<char>, i: int) -> int
    decreases s.len() - i,
{
    if i < 0 || i >= s.len() {
        s.len() as int
    } else if ends_bare(s[i]) {
        i
    } else {
        bare_stop(s, i + 1)
    }
}

/// Where the comment that runs through `i` ends: at the end of its line.
pub open spec fn comment_stop(s: Seq<char>, i: int) -> int
    decreases s.len() - i,
{
    if i < 0 || i >= s.len() {
        s.len() as int
    } else if s[i] == '\n' {
        i
    } else {
        comment_stop(s, i + 1)
    }
}

/// `e` where it lies behind `i` and within `s`, else the position behind `i`.
pub open spec fn onward(s: Seq<char>, i: int, e: int) -> int {
    if i < e <= s.len() {
        e
    } else {
        i + 1
    }
}

/// The tokens of `s` from position `i` on. Blanks and comments (from `;`
/// to the end of the line) are left out. A token is `~@`, one special
/// character, a string from its opening quote to its closing quote (or to
/// the end of the text where it is not closed), or a run of other
/// characters.
pub open spec fn tokens_from(s: Seq<char>, i: int) -> Seq<Seq<char>>
    decreases s.len() - i,
{
    if i < 0 || i >= s.len() {
        Seq::empty()
    } else if is_space(s[i]) {
        tokens_from(s, i + 1)
    } else if s[i] == ';' {
        tokens_from(s, onward(s, i, comment_stop(s, i + 1)))
    } else if s[i] == '~' && i + 1 < s.len() && s[i + 1] == '@' {
        seq![s.subrange(i, i + 2)] + tokens_from(s, i + 2)
    } else if is_special(s[i]) {
        seq![s.subrange(i, i + 1)] + tokens_from(s, i + 1)
    } else if s[i] == '"' {
        let e = onward(s, i, string_stop(s, i + 1));
        seq![s.subrange(i, e)] + tokens_from(s, e)
    } else {
        let e = onward(s, i, bare_stop(s, i + 1));
        seq![s.subrange(i, e)] + tokens_from(s, e)
    }
}

/// The tokens of a text.
pub open spec fn tokens_of(s: Seq<char>) -> Seq<Seq<char>> {
    tokens_from(s, 0)
}

/// The texts of a sequence of tokens.
pub open spec fn texts(tokens: Seq<String>) -> Seq<Seq<char>> {
    Seq::new(tokens.len(), |i: int| tokens[i]@)
}

pub(crate) fn space_char(c: char) -> (r: bool)
    ensures
        r == is_space(c),
{
    c == ' ' || c == '\t' || c == '\n' || c == '\r'
}

pub(crate) fn special_char(c: char) -> (r: bool)
    ensures
        r == is_special(c),
{
    c == '(' || c == ')' || c == '[' || c == ']' || c == '{' || c == '}' || c == '\'' || c == '`'
        || c == '~' || c == '^' || c == '@'
}

fn ends_bare_char(c: char) -> (r: bool)
    ensures
        r == ends_bare(c),
{
    space_char(c) || c == '(' || c == ')' || c == '[' || c == ']' || c == '{' || c == '}' || c
        == '\'' || c == '`' || c == '"' || c == ';'
}

/// Where the string that is open at `from` ends, and whether it is closed.
pub(crate) fn scan_string(s: &Vec<char>, from: usize) -> (r: (usize, bool))
    requires
        from <= s.len(),
    ensures
        r.0 == string_stop(s@, from as int),
        r.1 == string_closed(s@, from as int),
        from <= r.0 <= s.len(),
{
    let mut i: usize = from;
    while i < s.len()
        invariant
            from <= i <= s.len(),
            string_stop(s@, from as int) == string_stop(s@, i as int),
            string_closed(s@, from as int) == string_closed(s@, i as int),
        decreases s.len() - i,
    {
        if s[i] == '"' {
            return (i + 1, true);
        } else if s[i] == '\\' && i + 1 < s.len() {
            i += 2;
        } else {
            i += 1;
        }
    }
    (i, false)
}

pub(crate) fn scan_bare(s: &Vec<char>, from: usize) -> (r: usize)
    requires
        from <= s.len(),
    ensures
        r == bare_stop(s@, from as int),
        from <= r <= s.len(),
{
    let mut i: usize = from;
    while i < s.len()
        invariant
            from <= i <= s.len(),
            bare_stop(s@, from as int) == bare_stop(s@, i as int),
        decreases s.len() - i,
    {
        if ends_bare_char(s[i]) {
            return i;
        }
        i += 1;
    }
    i
}

pub(crate) fn scan_comment(s: &Vec<char>, from: usize) -> (r: usize)
    requires
        from <= s.len(),
    ensures
        r == comment_stop(s@, from as int),
        from <= r <= s.len(),
{
    let mut i: usize = from;
    while i < s.len()
        invariant
            from <= i <= s.len(),
            comment_stop(s@, from as int) == comment_stop(s@, i as int),
        decreases s.len() - i,
    {
        if s[i] == '\n' {
            return i;
        }
        i += 1;
    }
    i
}

/// Splits a text into its tokens.
pub fn tokenize(str: &str) -> (tokens: Vec<String>)
    ensures
        texts(tokens@) == tokens_of(str@),
{
    let s = chars_of(str);
    let mut tokens: Vec<String> = Vec::new();
    let mut i: usize = 0;
    assert(texts(tokens@) + tokens_from(s@, 0) =~= tokens_from(s@, 0));
    while i < s.len()
        invariant
            i <= s.len(),
            s@ == str@,
            tokens_of(s@) == texts(tokens@) + tokens_from(s@, i as int),
        decreases s.len() - i,
    {
        let ghost before = texts(tokens@);
        let c = s[i];
        if space_char(c) {
            i += 1;
        } else if c == ';' {
            i = scan_comment(&s, i + 1);
        } else {
            let e: usize = if c == '~' && i + 1 < s.len() && s[i + 1] == '@' {
                i + 2
            } else if special_char(c) {
                i + 1
            } else if c == '"' {
                scan_string(&s, i + 1).0
            } else {
                scan_bare(&s, i + 1)
            };
            tokens.push(text_of(&s, i, e));
            proof {
                let t = s@.subrange(i as int, e as int);
                assert(texts(tokens@) =~= before.push(t));
                assert(before + (seq![t] + tokens_from(s@, e as int)) =~= before.push(t)
                    + tokens_from(s@, e as int));
            }
            i = e;
        }
    }
    proof {
        assert(texts(tokens@) + Seq::<Seq<char>>::empty() =~= texts(tokens@));
    }
    tokens
}

/// What a backslash and the character `c` behind it stand for.
pub open spec fn unescaped(c: char) -> Seq<char> {
    if c == 'n' {
        seq!['\n']
    } else if c == 't' {
        seq!['\t']
    } else if c == 'r' {
        seq!['\r']
    } else if c == '\\' {
        seq!['\\']
    } else if c == '"' {
        seq!['"']
    } else {
        seq!['\\', c]
    }
}

/// The characters that `s[i..]`, the inside of a string literal, stands for.
pub open spec fn unescape_from(s: Seq<char>, i: int) -> Seq<char>
    decreases s.len() - i,
{
    if i < 0 || i >= s.len() {
        Seq::empty()
    } else if s[i] == '\\' {
        if i + 1 < s.len() {
            unescaped(s[i + 1]) + unescape_from(s, i + 2)
        } else {
            seq!['\\']
        }
    } else {
        seq![s[i]] + unescape_from(s, i + 1)
    }
}

/// The characters that the inside of a string literal stands for.
pub open spec fn unescape_spec(s: Seq<char>) -> Seq<char> {
    unescape_from(s, 0)
}

/// Whether `s[i..]` is made of decimal digits and at most one point, where
/// `dot` says that a point and `digit` that a digit came before, with at
/// least one digit in all.
pub open spec fn decimal_tail(s: Seq<char>, i: int, dot: bool, digit: bool) -> bool
    decreases s.len() - i,
{
    if i < 0 || i >= s.len() {
        digit
    } else if is_digit(s[i]) {
        decimal_tail(s, i + 1, dot, true)
    } else if s[i] == '.' && !dot {
        decimal_tail(s, i + 1, true, digit)
    } else {
        false
    }
}

/// Whether `s` writes a decimal number: an optional minus sign, then
/// digits with at most one point among them, before them or behind them.
pub open spec fn is_float_literal(s: Seq<char>) -> bool {
    s.len() > 0 && decimal_tail(
        s,
        if s[0] == '-' {
            1
        } else {
            0
        },
        false,
        false,
    )
}

/// The message that says that input ended where `end` was expected.
pub open spec fn incomplete(end: Seq<char>) -> Seq<char> {
    "INCOMPLETE:expected '"@ + end + "', got EOF"@
}

/// The value that the token `t` writes, where it is no bracket and no reader macro.
pub open spec fn read_atom_spec(t: Seq<char>) -> Result<Val, Val> {
    if t == "nil"@ {
        Ok(Val::Nil)
    } else if t == "false"@ {
        Ok(Val::Bool(false))
    } else if t == "true"@ {
        Ok(Val::Bool(true))
    } else if int_literal(t) is Some {
        Ok(Val::Int(int_literal(t)->0))
    } else if is_float_literal(t) {
        Ok(Val::Float(t))
    } else if t.len() > 0 && t[0] == '"' {
        if string_closed(t, 1) && string_stop(t, 1) == t.len() {
            Ok(Val::Str(unescape_spec(t.subrange(1, t.len() - 1))))
        } else {
            Err(Val::Str(incomplete("\""@)))
        }
    } else if t.len() > 0 && t[0] == ':' {
        Ok(Val::Kwd(t.skip(1)))
    } else {
        Ok(Val::Sym(t))
    }
}

/// `p` where it lies behind `pos` and within `n` tokens, else the position behind `pos`.
pub open spec fn ahead(n: int, pos: int, p: int) -> int {
    if pos < p <= n {
        p
    } else {
        pos + 1
    }
}

/// The list of the symbol `name` and the form read at `pos`.
pub open spec fn quoted(name: Seq<char>, r: (Result<Val, Val>, int)) -> (Result<Val, Val>, int) {
    match r.0 {
        Ok(v) => (Ok(list_val(seq![Val::Sym(name), v])), r.1),
        Err(e) => (Err(e), r.1),
    }
}

/// The message that says that input ended where a form was expected.
pub open spec fn missing_form() -> Seq<char> {
    "INCOMPLETE:expected form, got EOF"@
}

/// The form that starts at token `pos`, and the position behind it.
/// Where the tokens end before the form does, the input is incomplete:
/// inside an open bracket, behind a reader macro, between the metadata
/// and the value of `^`, and where no token is left at all.
pub open spec fn read_form_spec(tokens: Seq<Seq<char>>, pos: int) -> (Result<Val, Val>, int)
    decreases tokens.len() - pos, 1nat,
{
    if pos < 0 || pos >= tokens.len() {
        (Err(Val::Str(missing_form())), pos)
    } else {
        let t = tokens[pos];
        if t == "'"@ {
            quoted("quote"@, read_form_spec(tokens, pos + 1))
        } else if t == "`"@ {
            quoted("quasiquote"@, read_form_spec(tokens, pos + 1))
        } else if t == "~"@ {
            quoted("unquote"@, read_form_spec(tokens, pos + 1))
        } else if t == "~@"@ {
            quoted("splice-unquote"@, read_form_spec(tokens, pos + 1))
        } else if t == "^"@ {
            let m = read_form_spec(tokens, pos + 1);
            match m.0 {
                Ok(meta) => {
                    let v = read_form_spec(tokens, ahead(tokens.len() as int, pos, m.1));
                    match v.0 {
                        Ok(val) => (Ok(list_val(seq![Val::Sym("with-meta"@), val, meta])), v.1),
                        Err(e) => (Err(e), v.1),
                    }
                },
                Err(e) => (Err(e), m.1),
            }
        } else if t == "@"@ {
            quoted("deref"@, read_form_spec(tokens, pos + 1))
        } else if t == ")"@ {
            (Err(Val::Str("unexpected ')'"@)), pos)
        } else if t == "("@ {
            let s = read_seq_spec(tokens, pos + 1, ")"@, Seq::empty());
            match s.0 {
                Ok(items) => (Ok(list_val(items)), s.1),
                Err(e) => (Err(e), s.1),
            }
        } else if t == "]"@ {
            (Err(Val::Str("unexpected ']'"@)), pos)
        } else if t == "["@ {
            let s = read_seq_spec(tokens, pos + 1, "]"@, Seq::empty());
            match s.0 {
                Ok(items) => (Ok(vector_val(items)), s.1),
                Err(e) => (Err(e), s.1),
            }
        } else if t == "}"@ {
            (Err(Val::Str("unexpected '}'"@)), pos)
        } else if t == "{"@ {
            let s = read_seq_spec(tokens, pos + 1, "}"@, Seq::empty());
            match s.0 {
                Ok(items) => (assoc_spec(Seq::empty(), items), s.1),
                Err(e) => (Err(e), s.1),
            }
        } else {
            (read_atom_spec(t), pos + 1)
        }
    }
}

/// The forms from token `pos` up to the token `end`, behind those of
/// `acc`, and the position behind `end`. Input that ends before `end`
/// is incomplete.
pub open spec fn read_seq_spec(tokens: Seq<Seq<char>>, pos: int, end: Seq<char>, acc: Seq<Val>) -> (
    Result<Seq<Val>, Val>,
    int,
)
    decreases tokens.len() - pos, 2nat,
{
    if pos < 0 || pos >= tokens.len() {
        (Err(Val::Str(incomplete(end))), pos)
    } else if tokens[pos] == end {
        (Ok(acc), pos + 1)
    } else {
        let r = read_form_spec(tokens, pos);
        match r.0 {
            Ok(v) => read_seq_spec(tokens, ahead(tokens.len() as int, pos, r.1), end, acc.push(v)),
            Err(e) => (Err(e), r.1),
        }
    }
}

/// The first form of the text `s`. A text without tokens is no input.
pub open spec fn read_str_spec(s: Seq<char>) -> Result<Val, Val> {
    let tokens = tokens_of(s);
    if tokens.len() == 0 {
        Err(Val::Str("no input"@))
    } else {
        read_form_spec(tokens, 0).0
    }
}

/// The characters that the inside of a string literal stands for:
/// `\n`, `\t`, `\r`, `\\` and `\"` are one character each, any other
/// backslash stays as it is.
pub fn unescape_str(s: &str) -> (r: String)
    ensures
        r@ == unescape_spec(s@),
{
    let cs = chars_of(s);
    let mut result = String::new();
    let mut i: usize = 0;
    assert(result@ + unescape_from(cs@, 0) =~= unescape_from(cs@, 0));
    while i < cs.len()
        invariant
            i <= cs.len(),
            cs@ == s@,
            unescape_spec(cs@) == result@ + unescape_from(cs@, i as int),
        decreases cs.len() - i,
    {
        let ghost before = result@;
        let ch = cs[i];
        if ch == '\\' {
            if i + 1 < cs.len() {
                let escaped = cs[i + 1];
                if escaped == 'n' {
                    result.push('\n');
                } else if escaped == 't' {
                    result.push('\t');
                } else if escaped == 'r' {
                    result.push('\r');
                } else if escaped == '\\' {
                    result.push('\\');
                } else if escaped == '"' {
                    result.push('"');
                } else {
                    result.push('\\');
                    result.push(escaped);
                }
                proof {
                    assert(result@ =~= before + unescaped(escaped));
                    assert(before + (unescaped(escaped) + unescape_from(cs@, i + 2)) =~= result@
                        + unescape_from(cs@, i + 2));
                }
                i += 2;
            } else {
                result.push('\\');
                proof {
                    assert(before + seq!['\\'] =~= result@ + unescape_from(cs@, i + 1));
                }
                i += 1;
            }
        } else {
            result.push(ch);
            proof {
                assert(before + (seq![ch] + unescape_from(cs@, i + 1)) =~= result@
                    + unescape_from(cs@, i + 1));
            }
            i += 1;
        }
    }
    assert(result@ + Seq::<char>::empty() =~= result@);
    result
}

/// Whether `cs` writes a decimal number.
pub fn float_literal(cs: &Vec<char>) -> (r: bool)
    ensures
        r == is_float_literal(cs@),
{
    if cs.len() == 0 {
        return false;
    }
    let start: usize = if cs[0] == '-' {
        1
    } else {
        0
    };
    let mut i: usize = start;
    let mut dot = false;
    let mut digit = false;
    while i < cs.len()
        invariant
            start <= i <= cs.len(),
            is_float_literal(cs@) == decimal_tail(cs@, i as int, dot, digit),
        decreases cs.len() - i,
    {
        let c = cs[i];
        if '0' <= c && c <= '9' {
            digit = true;
        } else if c == '.' && !dot {
            dot = true;
        } else {
            return false;
        }
        i += 1;
    }
    digit
}

/// The tokens of a text and a position among them.
pub struct Reader {
    pub tokens: Vec<String>,
    pub pos: usize,
}

impl Reader {
    /// The token at the position, which then moves on by one; fails behind the last token.
    pub fn next(&mut self) -> (r: Result<String, MalVal>)
        ensures
            final(self).tokens == old(self).tokens,
            match r {
                Ok(t) => old(self).pos < old(self).tokens@.len() && t == old(self).tokens@[old(self).pos as int] && final(self).pos == old(self).pos + 1,
                Err(e) => old(self).pos >= old(self).tokens@.len() && e@ == Val::Str(
                    "underflow"@,
                ) && final(self).pos == old(self).pos,
            },
    {
        if self.pos < self.tokens.len() {
            let t = self.tokens[self.pos].clone();
            self.pos += 1;
            Ok(t)
        } else {
            error("underflow")
        }
    }

    /// The token at the position; fails behind the last token.
    pub fn peek(&self) -> (r: Result<String, MalVal>)
        ensures
            match r {
                Ok(t) => self.pos < self.tokens@.len() && t == self.tokens@[self.pos as int],
                Err(e) => self.pos >= self.tokens@.len() && e@ == Val::Str("underflow"@),
            },
    {
        if self.pos < self.tokens.len() {
            Ok(self.tokens[self.pos].clone())
        } else {
            error("underflow")
        }
    }
}

/// Fails with the message that input ended where `end` was expected.
fn incomplete_error<T>(end: &str) -> (r: Result<T, MalVal>)
    ensures
        r is Err,
        r->Err_0@ == Val::Str(incomplete(end@)),
{
    let mut msg = String::new();
    push_text(&mut msg, "INCOMPLETE:expected '");
    push_text(&mut msg, end);
    push_text(&mut msg, "', got EOF");
    assert(msg@ =~= incomplete(end@));
    Err(MalVal::Str(msg))
}

/// Reads the token at the position as an atom.
pub fn read_atom(rdr: &mut Reader) -> (r: MalRet)
    ensures
        final(rdr).tokens == old(rdr).tokens,
        old(rdr).pos < old(rdr).tokens@.len() ==> ret_val(r) == read_atom_spec(
            old(rdr).tokens@[old(rdr).pos as int]@,
        ) && final(rdr).pos == old(rdr).pos + 1,
        old(rdr).pos >= old(rdr).tokens@.len() ==> ret_val(r) == Err::<Val, _>(
            Val::Str("underflow"@),
        ),
{
    let token = match rdr.next() {
        Ok(t) => t,
        Err(e) => {
            return Err(e);
        },
    };
    if text_eq(token.as_str(), "nil") {
        return Ok(MalVal::Nil);
    }
    if text_eq(token.as_str(), "false") {
        return Ok(MalVal::Bool(false));
    }
    if text_eq(token.as_str(), "true") {
        return Ok(MalVal::Bool(true));
    }
    let cs = chars_of(token.as_str());
    match parse_int(&cs) {
        Some(i) => {
            return Ok(MalVal::Int(i));
        },
        None => {},
    }
    if float_literal(&cs) {
        return Ok(MalVal::Float(token));
    }
    if cs.len() > 0 && cs[0] == '"' {
        let stop = scan_string(&cs, 1);
        if stop.1 && stop.0 == cs.len() {
            let inner = text_of(&cs, 1, cs.len() - 1);
            return Ok(MalVal::Str(unescape_str(inner.as_str())));
        } else {
            return incomplete_error("\"");
        }
    }
    if cs.len() > 0 && cs[0] == ':' {
        let name = text_of(&cs, 1, cs.len());
        assert(cs@.subrange(1, cs@.len() as int) =~= cs@.skip(1));
        return Ok(MalVal::Kwd(name));
    }
    Ok(MalVal::Sym(token))
}

/// Reads the form behind a reader macro and wraps it in a call of `name`.
fn read_quoted(rdr: &mut Reader, name: &str) -> (r: MalRet)
    ensures
        final(rdr).tokens == old(rdr).tokens,
        ret_val(r) == quoted(
            name@,
            read_form_spec(texts(old(rdr).tokens@), old(rdr).pos as int),
        ).0,
        r is Ok ==> final(rdr).pos == read_form_spec(
            texts(old(rdr).tokens@),
            old(rdr).pos as int,
        ).1 && old(rdr).pos < final(rdr).pos <= old(rdr).tokens@.len(),
    decreases old(rdr).tokens@.len() - old(rdr).pos, 2nat,
{
    match read_form(rdr) {
        Ok(v) => Ok(list2(sym(name), v)),
        Err(e) => Err(e),
    }
}

/// Reads the forms behind an opening bracket, up to the closing bracket `end`.
fn read_seq(rdr: &mut Reader, end: &str) -> (r: Result<Vec<MalVal>, MalVal>)
    requires
        old(rdr).pos < old(rdr).tokens@.len(),
    ensures
        final(rdr).tokens == old(rdr).tokens,
        match r {
            Ok(items) => {
                let s = read_seq_spec(
                    texts(old(rdr).tokens@),
                    old(rdr).pos + 1,
                    end@,
                    Seq::empty(),
                );
                &&& s.0 == Ok::<_, Val>(vals(items@))
                &&& final(rdr).pos == s.1
                &&& old(rdr).pos < final(rdr).pos <= old(rdr).tokens@.len()
            },
            Err(e) => read_seq_spec(
                texts(old(rdr).tokens@),
                old(rdr).pos + 1,
                end@,
                Seq::empty(),
            ).0 == Err::<Seq<Val>, _>(e@),
        },
    decreases old(rdr).tokens@.len() - old(rdr).pos, 0nat,
{
    let ghost tokens = texts(rdr.tokens@);
    let ghost first = rdr.pos as int;
    let mut seq: Vec<MalVal> = Vec::new();
    let _ = rdr.next();
    assert(vals(seq@) =~= Seq::empty());
    loop
        invariant
            rdr.tokens == old(rdr).tokens,
            tokens == texts(rdr.tokens@),
            first == old(rdr).pos,
            first < rdr.pos <= rdr.tokens@.len(),
            read_seq_spec(tokens, first + 1, end@, Seq::empty()) == read_seq_spec(
                tokens,
                rdr.pos as int,
                end@,
                vals(seq@),
            ),
        ensures
            rdr.pos < rdr.tokens@.len(),
            tokens[rdr.pos as int] == end@,
        decreases rdr.tokens@.len() - rdr.pos,
    {
        let token = match rdr.peek() {
            Ok(t) => t,
            Err(_) => {
                return incomplete_error(end);
            },
        };
        if text_eq(token.as_str(), end) {
            break ;
        }
        let ghost before = vals(seq@);
        match read_form(rdr) {
            Ok(v) => {
                seq.push(v);
                assert(vals(seq@) =~= before.push(v@));
            },
            Err(e) => {
                return Err(e);
            },
        }
    }
    let _ = rdr.next();
    Ok(seq)
}

/// Reads the form at the position.
pub fn read_form(rdr: &mut Reader) -> (r: MalRet)
    ensures
        final(rdr).tokens == old(rdr).tokens,
        ret_val(r) == read_form_spec(texts(old(rdr).tokens@), old(rdr).pos as int).0,
        r is Ok ==> final(rdr).pos == read_form_spec(
            texts(old(rdr).tokens@),
            old(rdr).pos as int,
        ).1 && old(rdr).pos < final(rdr).pos <= old(rdr).tokens@.len(),
    decreases old(rdr).tokens@.len() - old(rdr).pos, 1nat,
{
    let ghost tokens = texts(rdr.tokens@);
    let ghost pos = rdr.pos as int;
    let token = match rdr.peek() {
        Ok(t) => t,
        Err(_) => {
            return error("INCOMPLETE:expected form, got EOF");
        },
    };
    let t = token.as_str();
    if text_eq(t, "'") {
        let _ = rdr.next();
        read_quoted(rdr, "quote")
    } else if text_eq(t, "`") {
        let _ = rdr.next();
        read_quoted(rdr, "quasiquote")
    } else if text_eq(t, "~") {
        let _ = rdr.next();
        read_quoted(rdr, "unquote")
    } else if text_eq(t, "~@") {
        let _ = rdr.next();
        read_quoted(rdr, "splice-unquote")
    } else if text_eq(t, "^") {
        let _ = rdr.next();
        let meta = match read_form(rdr) {
            Ok(m) => m,
            Err(e) => {
                return Err(e);
            },
        };
        let val = match read_form(rdr) {
            Ok(v) => v,
            Err(e) => {
                return Err(e);
            },
        };
        Ok(list3(sym("with-meta"), val, meta))
    } else if text_eq(t, "@") {
        let _ = rdr.next();
        read_quoted(rdr, "deref")
    } else if text_eq(t, ")") {
        error("unexpected ')'")
    } else if text_eq(t, "(") {
        match read_seq(rdr, ")") {
            Ok(items) => Ok(list(items)),
            Err(e) => Err(e),
        }
    } else if text_eq(t, "]") {
        error("unexpected ']'")
    } else if text_eq(t, "[") {
        match read_seq(rdr, "]") {
            Ok(items) => Ok(vector(items)),
            Err(e) => Err(e),
        }
    } else if text_eq(t, "}") {
        error("unexpected '}'")
    } else if text_eq(t, "{") {
        match read_seq(rdr, "}") {
            Ok(items) => hash_map(items),
            Err(e) => Err(e),
        }
    } else {
        read_atom(rdr)
    }
}

/// Reads the first form of a text. No map that is read holds a key twice.
pub fn read_str(str: &str) -> (r: MalRet)
    ensures
        ret_val(r) == read_str_spec(str@),
        ret_well_keyed(ret_val(r)),
{
    proof {
        law_read_str_keeps_keys(str@);
    }
    let tokens = tokenize(str);
    if tokens.len() == 0 {
        return error("no input");
    }
    let mut rdr = Reader { pos: 0, tokens };
    read_form(&mut rdr)
}

} // verus!
