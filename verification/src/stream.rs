//! Tokens and forms from a source that hands out one character at a time.

use vstd::prelude::*;
use vstd::std_specs::iter::IteratorSpec;
use vstd::utf8::{decode_utf8, valid_utf8};
use crate::reader::{
    bare_stop, comment_stop, ends_bare, is_space, is_special, onward, read_form, read_form_spec,
    scan_bare, scan_comment, scan_string, space_char, special_char, string_closed, string_stop,
    texts, tokens_from, tokens_of, Reader,
};
use crate::text::{chars_of, text_of};
use crate::types::{ret_val, MalRet, MalVal, Val};

verus! {

/// A source of characters.
pub trait CharReader {
    /// The next character; nothing at the end of the input or on an error.
    fn read_char(&mut self) -> (r: Option<char>);
}

impl<I> CharReader for I where I: Iterator<Item = char> {
    /// The next item of the iterator, as `Iterator::next` hands it out.
    /// Of an iterator that keeps the laws of iterators, it is the first of
    /// the items that it still had, and the others stay; where it had
    /// none, nothing is handed out and the iterator has come to its end.
    fn read_char(&mut self) -> (r: Option<char>)
        ensures
            IteratorSpec::obeys_prophetic_iter_laws(final(self))
                == IteratorSpec::obeys_prophetic_iter_laws(old(self)),
            IteratorSpec::obeys_prophetic_iter_laws(old(self)) ==> (if IteratorSpec::remaining(
                old(self),
            ).len() > 0 {
                &&& r == Some(IteratorSpec::remaining(old(self))[0])
                &&& IteratorSpec::remaining(final(self)) == IteratorSpec::remaining(
                    old(self),
                ).drop_first()
            } else {
                &&& r is None
                &&& IteratorSpec::remaining(final(self)) == IteratorSpec::remaining(old(self))
                &&& IteratorSpec::will_return_none(final(self))
            }),
    {
        self.next()
    }
}

/// How many bytes the character takes whose first byte is `first`,
/// where `first` can begin a character of more than one byte.
pub open spec fn width_spec(first: u8) -> Option<usize> {
    if 0xc0 <= first <= 0xdf {
        Some(2usize)
    } else if 0xe0 <= first <= 0xef {
        Some(3usize)
    } else if 0xf0 <= first <= 0xf7 {
        Some(4usize)
    } else {
        None
    }
}

/// How many bytes the character takes whose first byte is `first`.
pub fn utf8_width(first: u8) -> (r: Option<usize>)
    ensures
        r == width_spec(first),
{
    if 0xc0 <= first && first <= 0xdf {
        Some(2)
    } else if 0xe0 <= first && first <= 0xef {
        Some(3)
    } else if 0xf0 <= first && first <= 0xf7 {
        Some(4)
    } else {
        None
    }
}

/// `core::str::from_utf8`: the text that `bytes` encode, where they are valid UTF-8.
#[verifier::external_body]
fn text_from_utf8(bytes: &Vec<u8>) -> (r: Option<String>)
    ensures
        match r {
            Some(s) => valid_utf8(bytes@) && s@ == decode_utf8(bytes@),
            None => !valid_utf8(bytes@),
        },
{
    match core::str::from_utf8(bytes.as_slice()) {
        Ok(s) => Some(s.to_string()),
        Err(_) => None,
    }
}

/// The first character that `bytes` encode, where they are valid UTF-8 and not empty.
pub open spec fn first_char_spec(bytes: Seq<u8>) -> Option<char> {
    if valid_utf8(bytes) && decode_utf8(bytes).len() > 0 {
        Some(decode_utf8(bytes)[0])
    } else {
        None
    }
}

/// The first character that `bytes` encode.
pub fn first_char(bytes: &Vec<u8>) -> (r: Option<char>)
    ensures
        r == first_char_spec(bytes@),
{
    match text_from_utf8(bytes) {
        Some(s) => {
            let cs = chars_of(s.as_str());
            if cs.len() > 0 {
                Some(cs[0])
            } else {
                None
            }
        },
        None => None,
    }
}

/// `FnMut::call_mut` on a source of bytes: whatever the source hands out next.
#[verifier::external_body]
fn pull_byte<R: FnMut() -> Option<u8>>(reader: &mut R) -> (r: Option<u8>) {
    reader()
}

/// Makes a source of characters out of a source of bytes in UTF-8.
pub struct ByteToCharAdapter<R> {
    reader: R,
}

impl<R> ByteToCharAdapter<R> {
    pub fn new(reader: R) -> (r: Self)
        ensures
            r.source() == reader,
    {
        ByteToCharAdapter { reader }
    }

    /// The source of bytes.
    pub closed spec fn source(&self) -> R {
        self.reader
    }
}

/// How many bytes the character takes whose first byte is `first`;
/// nothing where `first` can begin no character.
pub open spec fn char_len(first: u8) -> Option<usize> {
    if first < 0x80 {
        Some(1usize)
    } else {
        width_spec(first)
    }
}

/// What follows from the first byte of a character: how many bytes the
/// character takes in all (one where the byte is enough by itself);
/// nothing where no character begins with this byte.
pub fn char_width(first: u8) -> (r: Option<usize>)
    ensures
        r == char_len(first),
{
    if first < 0x80 {
        Some(1)
    } else {
        utf8_width(first)
    }
}

/// Whether `bytes` are the bytes that are taken for one character: not
/// empty, and as many as the first of them asks for.
pub open spec fn taken_for_one(bytes: Seq<u8>) -> bool {
    bytes.len() > 0 && char_len(bytes[0]) == Some(bytes.len() as usize)
}

impl<R> ByteToCharAdapter<R> where R: FnMut() -> Option<u8> {
    /// The bytes of the next character as the source hands them out: one
    /// byte, and as many more as a character that begins with it has.
    /// Nothing where the source ends before that, or where the first byte
    /// can begin no character.
    pub fn read_bytes(&mut self) -> (r: Option<Vec<u8>>)
        ensures
            r is Some ==> taken_for_one(r->0@),
    {
        let first_byte = match pull_byte(&mut self.reader) {
            Some(b) => b,
            None => {
                return None;
            },
        };
        let mut bytes: Vec<u8> = Vec::new();
        bytes.push(first_byte);
        let num_bytes = match char_width(first_byte) {
            Some(n) => n,
            None => {
                return None;
            },
        };
        let mut i: usize = 1;
        while i < num_bytes
            invariant
                1 <= i <= num_bytes,
                bytes@.len() == i,
                bytes@[0] == first_byte,
            decreases num_bytes - i,
        {
            match pull_byte(&mut self.reader) {
                Some(b) => bytes.push(b),
                None => {
                    return None;
                },
            }
            i += 1;
        }
        Some(bytes)
    }
}

impl<R> CharReader for ByteToCharAdapter<R> where R: FnMut() -> Option<u8> {
    /// The character that the next bytes of the source encode. Nothing
    /// where the source ends or the bytes are no character.
    fn read_char(&mut self) -> (r: Option<char>)
        ensures
            r is Some ==> exists|bytes: Seq<u8>|
                taken_for_one(bytes) && r == #[trigger] first_char_spec(bytes),
    {
        match self.read_bytes() {
            Some(bytes) => {
                let r = first_char(&bytes);
                assert(taken_for_one(bytes@) && r == first_char_spec(bytes@));
                r
            },
            None => None,
        }
    }
}

/// How many characters a [`TokenStream`] takes from its source at most.
pub const READ_LIMIT: u64 = 0xffff_ffff_ffff_ffff;

/// Where the first token of `s[i..]` begins: behind the blanks and the
/// comments in front of it; the length of `s` where there is no token.
pub open spec fn token_start(s: Seq<char>, i: int) -> int
    decreases s.len() - i,
{
    if i < 0 || i >= s.len() {
        s.len() as int
    } else if is_space(s[i]) {
        token_start(s, i + 1)
    } else if s[i] == ';' {
        token_start(s, onward(s, i, comment_stop(s, i + 1)))
    } else {
        i
    }
}

/// Where the token that begins at `b` ends.
pub open spec fn token_end(s: Seq<char>, b: int) -> int {
    if s[b] == '~' && b + 1 < s.len() && s[b + 1] == '@' {
        b + 2
    } else if is_special(s[b]) {
        b + 1
    } else if s[b] == '"' {
        onward(s, b, string_stop(s, b + 1))
    } else {
        onward(s, b, bare_stop(s, b + 1))
    }
}

/// Whether the token that begins at `b` is settled: whatever characters
/// follow `s`, it ends where it ends in `s`. A `~` waits for the
/// character behind it, a string for its closing quote, a bare token for
/// the character that ends it.
pub open spec fn settled_at(s: Seq<char>, b: int) -> bool {
    if s[b] == '~' {
        b + 1 < s.len()
    } else if is_special(s[b]) {
        true
    } else if s[b] == '"' {
        string_closed(s, b + 1)
    } else {
        bare_stop(s, b + 1) < s.len()
    }
}

/// Whether `s` has a first token and that token is settled.
pub open spec fn settled(s: Seq<char>) -> bool {
    token_start(s, 0) < s.len() && settled_at(s, token_start(s, 0))
}

/// The tokens of `s` from `i` on are the first token, where there is one,
/// and the tokens behind it.
pub proof fn lemma_tokens_step(s: Seq<char>, i: int)
    requires
        0 <= i,
    ensures
        token_start(s, i) >= s.len() ==> tokens_from(s, i) == Seq::<Seq<char>>::empty(),
        token_start(s, i) < s.len() ==> i <= token_start(s, i) < token_end(s, token_start(s, i))
            <= s.len() && tokens_from(s, i) == seq![
            s.subrange(token_start(s, i), token_end(s, token_start(s, i))),
        ] + tokens_from(s, token_end(s, token_start(s, i))),
    decreases s.len() - i,
{
    if i < s.len() {
        if is_space(s[i]) {
            lemma_tokens_step(s, i + 1);
        } else if s[i] == ';' {
            lemma_tokens_step(s, onward(s, i, comment_stop(s, i + 1)));
        }
    }
}

/// A comment that ends within a text ends at the same place in every text that goes on from it.
pub proof fn lemma_comment_stable(p: Seq<char>, t: Seq<char>, j: int)
    requires
        p.is_prefix_of(t),
        0 <= j,
        comment_stop(p, j) < p.len(),
    ensures
        comment_stop(t, j) == comment_stop(p, j),
    decreases p.len() - j,
{
    if j < p.len() {
        assert(t[j] == p[j]);
        if p[j] != '\n' {
            lemma_comment_stable(p, t, j + 1);
        }
    }
}

/// A bare token that ends within a text ends at the same place in every text that goes on from it.
pub proof fn lemma_bare_stable(p: Seq<char>, t: Seq<char>, j: int)
    requires
        p.is_prefix_of(t),
        0 <= j,
        bare_stop(p, j) < p.len(),
    ensures
        bare_stop(t, j) == bare_stop(p, j),
    decreases p.len() - j,
{
    if j < p.len() {
        assert(t[j] == p[j]);
        if !ends_bare(p[j]) {
            lemma_bare_stable(p, t, j + 1);
        }
    }
}

/// A string that is closed within a text ends at the same place in every text that goes on from it.
pub proof fn lemma_string_stable(p: Seq<char>, t: Seq<char>, j: int)
    requires
        p.is_prefix_of(t),
        0 <= j,
        string_closed(p, j),
    ensures
        string_closed(t, j),
        string_stop(t, j) == string_stop(p, j),
        j < string_stop(p, j) <= p.len(),
    decreases p.len() - j,
{
    if j < p.len() {
        assert(t[j] == p[j]);
        if p[j] == '"' {
        } else if p[j] == '\\' && j + 1 < p.len() {
            assert(t[j + 1] == p[j + 1]);
            lemma_string_stable(p, t, j + 2);
        } else {
            lemma_string_stable(p, t, j + 1);
        }
    }
}

/// A token that begins within a text begins at the same place in every text that goes on from it.
pub proof fn lemma_start_stable(p: Seq<char>, t: Seq<char>, i: int)
    requires
        p.is_prefix_of(t),
        0 <= i,
        token_start(p, i) < p.len(),
    ensures
        token_start(t, i) == token_start(p, i),
    decreases p.len() - i,
{
    if i < p.len() {
        assert(t[i] == p[i]);
        if is_space(p[i]) {
            lemma_start_stable(p, t, i + 1);
        } else if p[i] == ';' {
            let c = comment_stop(p, i + 1);
            lemma_comment_bounds(p, i + 1);
            if c < p.len() {
                lemma_comment_stable(p, t, i + 1);
                lemma_start_stable(p, t, c);
            } else {
                assert(token_start(p, c) == p.len());
            }
        }
    }
}

/// A comment ends at or behind the place from which it is followed, and within the text.
pub proof fn lemma_comment_bounds(s: Seq<char>, j: int)
    requires
        0 <= j <= s.len(),
    ensures
        j <= comment_stop(s, j) <= s.len(),
    decreases s.len() - j,
{
    if j < s.len() && s[j] != '\n' {
        lemma_comment_bounds(s, j + 1);
    }
}

/// A bare token ends at or behind the place from which it is followed, and within the text.
pub proof fn lemma_bare_bounds(s: Seq<char>, j: int)
    requires
        0 <= j <= s.len(),
    ensures
        j <= bare_stop(s, j) <= s.len(),
    decreases s.len() - j,
{
    if j < s.len() && !ends_bare(s[j]) {
        lemma_bare_bounds(s, j + 1);
    }
}

/// A settled first token is the first token of every text that goes on
/// from the one in which it is settled: the tokens of such a text are
/// that token and the tokens behind it.
pub proof fn law_settled_token_stays(p: Seq<char>, t: Seq<char>)
    requires
        p.is_prefix_of(t),
        settled(p),
    ensures
        token_start(t, 0) == token_start(p, 0),
        token_end(t, token_start(p, 0)) == token_end(p, token_start(p, 0)),
        token_end(p, token_start(p, 0)) <= p.len(),
        tokens_of(t) == seq![p.subrange(token_start(p, 0), token_end(p, token_start(p, 0)))]
            + tokens_from(t, token_end(p, token_start(p, 0))),
{
    let b = token_start(p, 0);
    lemma_start_stable(p, t, 0);
    lemma_tokens_step(p, 0);
    lemma_tokens_step(t, 0);
    assert(t[b] == p[b]);
    if p[b] == '~' {
        assert(t[b + 1] == p[b + 1]);
    } else if is_special(p[b]) {
    } else if p[b] == '"' {
        lemma_string_stable(p, t, b + 1);
    } else {
        lemma_bare_bounds(p, b + 1);
        lemma_bare_stable(p, t, b + 1);
    }
    let e = token_end(p, b);
    assert(t.subrange(b, e) =~= p.subrange(b, e));
}

/// Where the first token of `s` begins.
fn find_start(s: &Vec<char>) -> (b: usize)
    ensures
        b == token_start(s@, 0),
        b <= s.len(),
{
    let mut i: usize = 0;
    while i < s.len()
        invariant
            i <= s.len(),
            token_start(s@, 0) == token_start(s@, i as int),
        decreases s.len() - i,
    {
        if space_char(s[i]) {
            i += 1;
        } else if s[i] == ';' {
            i = scan_comment(s, i + 1);
        } else {
            return i;
        }
    }
    i
}

/// Where the token that begins at `b` ends, and whether it is settled.
fn find_end(s: &Vec<char>, b: usize) -> (r: (usize, bool))
    requires
        b < s.len(),
    ensures
        r.0 == token_end(s@, b as int),
        r.1 == settled_at(s@, b as int),
        b < r.0 <= s.len(),
{
    let c = s[b];
    if c == '~' {
        if b + 1 < s.len() {
            if s[b + 1] == '@' {
                (b + 2, true)
            } else {
                (b + 1, true)
            }
        } else {
            (b + 1, false)
        }
    } else if special_char(c) {
        (b + 1, true)
    } else if c == '"' {
        let stop = scan_string(s, b + 1);
        (stop.0, stop.1)
    } else {
        let e = scan_bare(s, b + 1);
        (e, e < s.len())
    }
}

/// The characters of `s` from `from` on.
fn tail_of(s: &Vec<char>, from: usize) -> (r: Vec<char>)
    requires
        from <= s.len(),
    ensures
        r@ == s@.skip(from as int),
{
    let mut r: Vec<char> = Vec::new();
    let mut i: usize = from;
    while i < s.len()
        invariant
            from <= i <= s.len(),
            r@ == s@.subrange(from as int, i as int),
        decreases s.len() - i,
    {
        r.push(s[i]);
        i += 1;
    }
    assert(s@.subrange(from as int, s@.len() as int) =~= s@.skip(from as int));
    r
}

/// Takes characters from a source one by one and hands out their tokens
/// as soon as each is settled.
pub struct TokenStream<R: CharReader> {
    reader: R,
    buffer: Vec<char>,
    done: bool,
    budget: u64,
}

/// Whether the text `s`, which goes on from `pending`, holds no character
/// that was taken in behind a settled first token: a character is taken
/// only while the first token is not settled.
pub open spec fn no_sooner(pending: Seq<char>, s: Seq<char>) -> bool {
    s.len() > pending.len() ==> !settled(s.drop_last())
}

/// The text of a token, where there is one.
pub open spec fn text_of_token(r: Option<String>) -> Option<Seq<char>> {
    match r {
        Some(t) => Some(t@),
        None => None,
    }
}

/// What one call for a token does, where `s` is the pending text with the
/// characters taken in during the call: the first token of `s`
/// is handed out, settled unless the source has ended, and the text
/// behind it stays pending; or `s` has no token and the source has ended.
pub open spec fn handed_out(
    s: Seq<char>,
    r: Option<Seq<char>>,
    pending: Seq<char>,
    done: bool,
) -> bool {
    match r {
        Some(token) => {
            let b = token_start(s, 0);
            &&& b < s.len()
            &&& token == s.subrange(b, token_end(s, b))
            &&& pending == s.skip(token_end(s, b))
            &&& (settled(s) || done)
        },
        None => token_start(s, 0) >= s.len() && done && pending.len() == 0,
    }
}

impl<R: CharReader> TokenStream<R> {
    pub fn new(reader: R) -> (r: Self)
        ensures
            r.pending() == Seq::<char>::empty(),
            !r.is_done(),
            r.left() == READ_LIMIT,
    {
        TokenStream { reader, buffer: Vec::new(), done: false, budget: READ_LIMIT }
    }

    /// The characters that were taken in and not yet handed out in a token.
    pub closed spec fn pending(&self) -> Seq<char> {
        self.buffer@
    }

    /// Whether the source has ended.
    pub closed spec fn is_done(&self) -> bool {
        self.done
    }

    /// How many characters may still be taken from the source.
    pub closed spec fn left(&self) -> nat {
        self.budget as nat
    }

    /// Takes one more character from the source, where it has one, and
    /// puts it behind the pending text. Where it has none, or the limit is
    /// reached, the stream is done.
    pub fn fill_buffer(&mut self)
        ensures
            old(self).is_done() ==> final(self).is_done() && final(self).pending() == old(self).pending() && final(self).left() == old(self).left(),
            final(self).is_done() ==> final(self).pending() == old(self).pending() && final(self).left() == old(self).left(),
            !final(self).is_done() ==> final(self).left() + 1 == old(self).left() && final(self).pending().len() == old(self).pending().len() + 1 && old(self).pending().is_prefix_of(
                final(self).pending(),
            ),
    {
        if self.done {
            return ;
        }
        if self.budget == 0 {
            self.done = true;
            return ;
        }
        match self.reader.read_char() {
            Some(ch) => {
                self.buffer.push(ch);
                self.budget -= 1;
            },
            None => {
                self.done = true;
            },
        }
    }

    /// The next token; nothing where the source has ended and no token is
    /// pending. Characters are taken from the source only until the first
    /// pending token is settled.
    pub fn next(&mut self) -> (r: Option<String>)
        ensures
            final(self).left() <= old(self).left(),
            old(self).is_done() ==> final(self).is_done() && final(self).left() == old(self).left(),
            exists|s: Seq<char>|
                old(self).pending().is_prefix_of(s) && s.len() - old(self).pending().len() == old(
                    self).left() - final(self).left() && #[trigger] handed_out(
                    s,
                    text_of_token(r),
                    final(self).pending(),
                    final(self).is_done(),
                ) && no_sooner(old(self).pending(), s),
            r is Some ==> final(self).left() < old(self).left() || final(self).pending().len()
                < old(self).pending().len(),
    {
        loop
            invariant
                self.left() <= old(self).left(),
                old(self).is_done() ==> self.is_done() && self.left() == old(self).left(),
                old(self).pending().is_prefix_of(self.pending()),
                self.pending().len() - old(self).pending().len() == old(self).left() - self.left(),
                no_sooner(old(self).pending(), self.pending()),
            decreases
                    self.budget,
                    (if self.done {
                        0nat
                    } else {
                        1nat
                    }),
        {
            let b = find_start(&self.buffer);
            if b < self.buffer.len() {
                let end = find_end(&self.buffer, b);
                if end.1 || self.done {
                    let ghost s = self.buffer@;
                    let token = text_of(&self.buffer, b, end.0);
                    self.buffer = tail_of(&self.buffer, end.0);
                    let r = Some(token);
                    assert(handed_out(s, text_of_token(r), self.pending(), self.is_done()));
                    return r;
                }
            } else if self.done {
                let ghost s = self.buffer@;
                self.buffer = Vec::new();
                assert(handed_out(s, text_of_token(None), self.pending(), self.is_done()));
                return None;
            }
            let ghost before = self.buffer@;
            assert(!settled(before));
            self.fill_buffer();
            assert(self.buffer@.len() > before.len() ==> self.buffer@.drop_last() =~= before);
        }
    }

    /// All tokens that are still to come: the tokens of the pending text
    /// with all characters behind it that the source still had.
    pub fn collect(&mut self) -> (r: Vec<String>)
        ensures
            final(self).is_done(),
            final(self).pending().len() == 0,
            final(self).left() <= old(self).left(),
            exists|all: Seq<char>|
                old(self).pending().is_prefix_of(all) && all.len() - old(self).pending().len()
                    == old(self).left() - final(self).left() && texts(r@) == #[trigger] tokens_of(
                    all,
                ),
    {
        let mut out: Vec<String> = Vec::new();
        let ghost mut seen = self.pending();
        proof {
            assert(texts(out@) =~= Seq::<Seq<char>>::empty());
            assert forall|f: Seq<char>| (self.is_done() ==> f.len() == 0) implies #[trigger] tokens_of(
                seen + f,
            ) == texts(out@) + tokens_of(self.pending() + f) by {
                assert(texts(out@) + tokens_of(seen + f) =~= tokens_of(seen + f));
            }
        }
        loop
            invariant
                self.left() <= old(self).left(),
                old(self).pending().is_prefix_of(seen),
                seen.len() - old(self).pending().len() == old(self).left() - self.left(),
                agrees(seen, texts(out@), self.pending(), self.is_done()),
            ensures
                self.is_done(),
                self.pending().len() == 0,
                self.left() <= old(self).left(),
                old(self).pending().is_prefix_of(seen),
                seen.len() - old(self).pending().len() == old(self).left() - self.left(),
                texts(out@) == tokens_of(seen),
            decreases self.left(), self.pending().len(),
        {
            let ghost pending = self.pending();
            let ghost done = self.is_done();
            let ghost left = self.left();
            let ghost before = texts(out@);
            let r = self.next();
            proof {
                let s = choose|s: Seq<char>|
                    pending.is_prefix_of(s) && s.len() - pending.len() == left - self.left()
                        && #[trigger] handed_out(
                        s,
                        text_of_token(r),
                        self.pending(),
                        self.is_done(),
                    );
                if done {
                    assert(s =~= pending);
                }
                lemma_collect_step(
                    seen,
                    before,
                    pending,
                    done,
                    s,
                    text_of_token(r),
                    self.pending(),
                    self.is_done(),
                );
                seen = seen + s.skip(pending.len() as int);
            }
            match r {
                Some(t) => {
                    out.push(t);
                    assert(texts(out@) =~= before.push(t@));
                },
                None => {
                    break ;
                },
            }
        }
        out
    }
}

/// Whether the tokens `out` are those that lie before the pending text
/// `pending` in `seen`, whatever characters `f` still follow (none, once
/// the source is `done`): the tokens of `seen` and `f` are `out`, then
/// the tokens of `pending` and `f`.
pub open spec fn agrees(
    seen: Seq<char>,
    out: Seq<Seq<char>>,
    pending: Seq<char>,
    done: bool,
) -> bool {
    forall|f: Seq<char>|
        (done ==> f.len() == 0) ==> #[trigger] tokens_of(seen + f) == out + tokens_of(pending + f)
}

/// A comment ends at the same character wherever the text is taken to begin.
pub proof fn lemma_comment_shift(s: Seq<char>, e: int, j: int)
    requires
        0 <= e <= s.len(),
        0 <= j,
    ensures
        comment_stop(s, e + j) == e + comment_stop(s.skip(e), j),
    decreases s.len() - e - j,
{
    if e + j < s.len() {
        assert(s.skip(e)[j] == s[e + j]);
        if s[e + j] != '\n' {
            lemma_comment_shift(s, e, j + 1);
        }
    }
}

/// A bare token ends at the same character wherever the text is taken to begin.
pub proof fn lemma_bare_shift(s: Seq<char>, e: int, j: int)
    requires
        0 <= e <= s.len(),
        0 <= j,
    ensures
        bare_stop(s, e + j) == e + bare_stop(s.skip(e), j),
    decreases s.len() - e - j,
{
    if e + j < s.len() {
        assert(s.skip(e)[j] == s[e + j]);
        if !ends_bare(s[e + j]) {
            lemma_bare_shift(s, e, j + 1);
        }
    }
}

/// A string ends at the same character wherever the text is taken to begin.
pub proof fn lemma_string_shift(s: Seq<char>, e: int, j: int)
    requires
        0 <= e <= s.len(),
        0 <= j,
    ensures
        string_stop(s, e + j) == e + string_stop(s.skip(e), j),
        string_closed(s, e + j) == string_closed(s.skip(e), j),
    decreases s.len() - e - j,
{
    if e + j < s.len() {
        assert(s.skip(e)[j] == s[e + j]);
        if s[e + j] == '"' {
        } else if s[e + j] == '\\' && e + j + 1 < s.len() {
            lemma_string_shift(s, e, j + 2);
        } else {
            lemma_string_shift(s, e, j + 1);
        }
    }
}

/// The tokens of a text from a place on are the tokens of the text that begins at that place.
pub proof fn lemma_tokens_shift(s: Seq<char>, e: int, j: int)
    requires
        0 <= e <= s.len(),
        0 <= j,
    ensures
        tokens_from(s, e + j) == tokens_from(s.skip(e), j),
    decreases s.len() - e - j,
{
    let t = s.skip(e);
    let i = e + j;
    if i < s.len() {
        assert(t[j] == s[i]);
        if is_space(s[i]) {
            lemma_tokens_shift(s, e, j + 1);
        } else if s[i] == ';' {
            lemma_comment_shift(s, e, j + 1);
            lemma_comment_bounds(t, j + 1);
            let c = comment_stop(t, j + 1);
            assert(onward(s, i, e + c) == e + onward(t, j, c));
            lemma_tokens_shift(s, e, onward(t, j, c));
        } else if s[i] == '~' && i + 1 < s.len() && s[i + 1] == '@' {
            assert(t[j + 1] == s[i + 1]);
            lemma_tokens_shift(s, e, j + 2);
            assert(s.subrange(i, i + 2) =~= t.subrange(j, j + 2));
        } else if is_special(s[i]) {
            if i + 1 < s.len() {
                assert(t[j + 1] == s[i + 1]);
            }
            lemma_tokens_shift(s, e, j + 1);
            assert(s.subrange(i, i + 1) =~= t.subrange(j, j + 1));
        } else if s[i] == '"' {
            lemma_string_shift(s, e, j + 1);
            let k = onward(t, j, string_stop(t, j + 1));
            assert(onward(s, i, string_stop(s, i + 1)) == e + k);
            lemma_tokens_shift(s, e, k);
            assert(s.subrange(i, e + k) =~= t.subrange(j, k));
        } else {
            lemma_bare_shift(s, e, j + 1);
            let k = onward(t, j, bare_stop(t, j + 1));
            assert(onward(s, i, bare_stop(s, i + 1)) == e + k);
            lemma_tokens_shift(s, e, k);
            assert(s.subrange(i, e + k) =~= t.subrange(j, k));
        }
    }
}

/// The token that is handed out of the text `s` is the first token of
/// `s` with whatever characters `f` follow it (none, once the source is
/// done), and the tokens behind it are those of what stays pending with `f`.
pub proof fn lemma_first_token(
    s: Seq<char>,
    token: Seq<char>,
    pending2: Seq<char>,
    done2: bool,
    f: Seq<char>,
)
    requires
        handed_out(s, Some(token), pending2, done2),
        done2 ==> f.len() == 0,
    ensures
        tokens_of(s + f) == seq![token] + tokens_of(pending2 + f),
{
    let b = token_start(s, 0);
    let e = token_end(s, b);
    lemma_tokens_step(s, 0);
    if settled(s) {
        assert(s.is_prefix_of(s + f));
        law_settled_token_stays(s, s + f);
    } else {
        assert(s + f =~= s);
    }
    lemma_tokens_shift(s + f, e, 0);
    assert((s + f).skip(e) =~= pending2 + f);
}

/// Where the tokens `out` lie before `pending` in `seen`, they lie before
/// `pending` and `m` in `seen` and `m`, whatever characters `m` are taken in.
pub proof fn lemma_agrees_taken(
    seen: Seq<char>,
    out: Seq<Seq<char>>,
    pending: Seq<char>,
    done: bool,
    m: Seq<char>,
)
    requires
        agrees(seen, out, pending, done),
        done ==> m.len() == 0,
    ensures
        agrees(seen + m, out, pending + m, done),
{
    assert forall|f: Seq<char>| (done ==> f.len() == 0) implies #[trigger] tokens_of(seen + m + f)
        == out + tokens_of(pending + m + f) by {
        assert(seen + m + f =~= seen + (m + f));
        assert(pending + m + f =~= pending + (m + f));
        assert(tokens_of(seen + (m + f)) == out + tokens_of(pending + (m + f)));
    }
}

/// No token is handed out yet: the empty run of tokens lies before the
/// pending text in the pending text.
pub proof fn lemma_agrees_start(pending: Seq<char>, done: bool)
    ensures
        agrees(pending, Seq::empty(), pending, done),
{
    assert forall|f: Seq<char>| (done ==> f.len() == 0) implies #[trigger] tokens_of(pending + f)
        == Seq::<Seq<char>>::empty() + tokens_of(pending + f) by {
        assert(Seq::<Seq<char>>::empty() + tokens_of(pending + f) =~= tokens_of(pending + f));
    }
}

/// All tokens of the text seen are handed out and nothing is pending:
/// they lie before the empty text, now that the source has ended.
pub proof fn lemma_agrees_end(seen: Seq<char>, out: Seq<Seq<char>>, pending: Seq<char>)
    requires
        out == tokens_of(seen),
        pending.len() == 0,
    ensures
        agrees(seen, out, pending, true),
{
    assert forall|f: Seq<char>| f.len() == 0 implies #[trigger] tokens_of(seen + f) == out
        + tokens_of(pending + f) by {
        assert(seen + f =~= seen);
        assert(pending + f =~= Seq::<char>::empty());
        assert(tokens_of(Seq::<char>::empty()) =~= Seq::<Seq<char>>::empty());
        assert(out + Seq::<Seq<char>>::empty() =~= out);
    }
}

/// What stays pending behind a token that is handed out is the end of
/// the text seen, as the pending text was before.
pub proof fn lemma_suffix_stays(
    seen: Seq<char>,
    pending: Seq<char>,
    s: Seq<char>,
    pending2: Seq<char>,
)
    requires
        seen.len() >= pending.len(),
        seen.skip(seen.len() - pending.len()) == pending,
        pending.is_prefix_of(s),
        exists|e: int| 0 <= e <= s.len() && pending2 == #[trigger] s.skip(e),
    ensures
        (seen + s.skip(pending.len() as int)).len() >= pending2.len(),
        (seen + s.skip(pending.len() as int)).skip(
            (seen + s.skip(pending.len() as int)).len() - pending2.len(),
        ) == pending2,
{
    let e = choose|e: int| 0 <= e <= s.len() && pending2 == #[trigger] s.skip(e);
    let m = s.skip(pending.len() as int);
    let cut = seen.len() - pending.len();
    let all = seen + m;
    assert(pending + m =~= s);
    assert(all.skip(cut) =~= s) by {
        assert(seen.skip(cut) =~= pending);
        assert forall|i: int| 0 <= i < s.len() implies all.skip(cut)[i] == s[i] by {
            if i < pending.len() {
                assert(all[cut + i] == seen[cut + i]);
                assert(seen.skip(cut)[i] == seen[cut + i]);
            }
        }
    }
    assert(all.skip(cut + e) =~= s.skip(e));
}

/// One token more is handed out of the text `s`: the tokens handed out
/// so far, with it, lie before what stays pending.
pub proof fn lemma_collect_token(
    seen: Seq<char>,
    out: Seq<Seq<char>>,
    s: Seq<char>,
    done: bool,
    token: Seq<char>,
    pending2: Seq<char>,
    done2: bool,
)
    requires
        agrees(seen, out, s, done),
        done ==> done2,
        handed_out(s, Some(token), pending2, done2),
    ensures
        agrees(seen, out.push(token), pending2, done2),
{
    assert forall|f: Seq<char>| (done2 ==> f.len() == 0) implies #[trigger] tokens_of(seen + f)
        == out.push(token) + tokens_of(pending2 + f) by {
        assert(tokens_of(seen + f) == out + tokens_of(s + f));
        lemma_first_token(s, token, pending2, done2, f);
        assert(out + (seq![token] + tokens_of(pending2 + f)) =~= out.push(token) + tokens_of(
            pending2 + f,
        ));
    }
}

/// No token is left in the text `s` and the source has ended: the tokens
/// handed out so far are all tokens of the text seen.
pub proof fn lemma_collect_end(seen: Seq<char>, out: Seq<Seq<char>>, s: Seq<char>, done: bool)
    requires
        agrees(seen, out, s, done),
        token_start(s, 0) >= s.len(),
    ensures
        out == tokens_of(seen),
{
    let f = Seq::<char>::empty();
    lemma_tokens_step(s, 0);
    assert(seen + f =~= seen);
    assert(s + f =~= s);
    assert(tokens_of(seen + f) == out + tokens_of(s + f));
    assert(out + Seq::<Seq<char>>::empty() =~= out);
}

/// One call for a token is made: the tokens handed out so far still agree
/// with the text seen so far, which is `seen` with the characters that
/// the call took in.
pub proof fn lemma_collect_step(
    seen: Seq<char>,
    out: Seq<Seq<char>>,
    pending: Seq<char>,
    done: bool,
    s: Seq<char>,
    r: Option<Seq<char>>,
    pending2: Seq<char>,
    done2: bool,
)
    requires
        agrees(seen, out, pending, done),
        pending.is_prefix_of(s),
        done ==> s == pending,
        done ==> done2,
        handed_out(s, r, pending2, done2),
    ensures
        r is Some ==> agrees(seen + s.skip(pending.len() as int), out.push(r->0), pending2, done2),
        r is None ==> out == tokens_of(seen + s.skip(pending.len() as int)),
{
    let m = s.skip(pending.len() as int);
    assert(pending + m =~= s);
    lemma_agrees_taken(seen, out, pending, done, m);
    match r {
        Some(token) => {
            lemma_collect_token(seen + m, out, s, done, token, pending2, done2);
        },
        None => {
            lemma_collect_end(seen + m, out, s, done);
        },
    }
}

/// Whether the thrown value `e` says that the input ended too early.
pub open spec fn is_incomplete(e: Val) -> bool {
    match e {
        Val::Str(msg) => "INCOMPLETE:"@.is_prefix_of(msg),
        _ => false,
    }
}

/// What the tokens `tokens` amount to: the form that they write or the
/// failure of reading them; nothing where they only lack their end.
pub open spec fn parse_spec(tokens: Seq<Seq<char>>) -> Option<Result<Val, Val>> {
    match read_form_spec(tokens, 0).0 {
        Ok(v) => Some(Ok(v)),
        Err(e) => if is_incomplete(e) {
            None
        } else {
            Some(Err(e))
        },
    }
}

/// Whether `s` begins with `prefix`.
pub fn starts_with(s: &str, prefix: &str) -> (r: bool)
    ensures
        r == prefix@.is_prefix_of(s@),
{
    let cs = chars_of(s);
    let ps = chars_of(prefix);
    if ps.len() > cs.len() {
        return false;
    }
    let mut i: usize = 0;
    while i < ps.len()
        invariant
            i <= ps.len() <= cs.len(),
            cs@ == s@,
            ps@ == prefix@,
            forall|j: int| 0 <= j < i ==> ps@[j] == cs@[j],
        decreases ps.len() - i,
    {
        if ps[i] != cs[i] {
            assert(cs@.subrange(0, ps@.len() as int)[i as int] != ps@[i as int]);
            return false;
        }
        i += 1;
    }
    assert(ps@ =~= cs@.subrange(0, ps@.len() as int));
    true
}

/// Reads the tokens of `rdr` from the first one on: the form or the
/// failure; nothing where they only lack their end.
pub fn try_parse(rdr: &mut Reader) -> (r: Option<MalRet>)
    ensures
        final(rdr).tokens == old(rdr).tokens,
        final(rdr).pos == 0,
        match r {
            Some(x) => parse_spec(texts(old(rdr).tokens@)) == Some(ret_val(x)),
            None => parse_spec(texts(old(rdr).tokens@)) is None,
        },
{
    rdr.pos = 0;
    let result = read_form(rdr);
    rdr.pos = 0;
    match result {
        Ok(val) => Some(Ok(val)),
        Err(e) => {
            let incomplete = match &e {
                MalVal::Str(msg) => starts_with(msg.as_str(), "INCOMPLETE:"),
                _ => false,
            };
            if incomplete {
                None
            } else {
                Some(Err(e))
            }
        },
    }
}

/// Whether the tokens `tokens` are what a stream gathers for one form:
/// there is at least one, and no shorter run of them from the first on
/// writes a form or fails for good.
pub open spec fn gathered_for_one(tokens: Seq<Seq<char>>) -> bool {
    tokens.len() > 0 && forall|k: int|
        0 < k < tokens.len() ==> parse_spec(#[trigger] tokens.take(k)) is None
}

/// The forms that a stream reads from the tokens `tokens[start..]`, of
/// which it has gathered the first `k`: as soon as what is gathered
/// writes a form or fails for good, that is one form and gathering starts
/// again behind it; what is gathered when the tokens end is read as it is.
pub open spec fn forms_from(tokens: Seq<Seq<char>>, start: int, k: int) -> Seq<Result<Val, Val>>
    decreases tokens.len() - start, tokens.len() - start - k,
{
    if start < 0 || k < 0 || start + k > tokens.len() {
        Seq::empty()
    } else if k > 0 && parse_spec(tokens.subrange(start, start + k)) is Some {
        seq![parse_spec(tokens.subrange(start, start + k))->0] + forms_from(tokens, start + k, 0)
    } else if start + k < tokens.len() {
        forms_from(tokens, start, k + 1)
    } else if k == 0 {
        Seq::empty()
    } else {
        seq![read_form_spec(tokens.subrange(start, start + k), 0).0]
    }
}

/// The forms that a stream reads from the tokens `tokens`.
pub open spec fn forms_of(tokens: Seq<Seq<char>>) -> Seq<Result<Val, Val>> {
    forms_from(tokens, 0, 0)
}

/// The forms that a stream reads from a text.
pub open spec fn forms_of_text(s: Seq<char>) -> Seq<Result<Val, Val>> {
    forms_of(tokens_of(s))
}

/// The mathematical value of what a stream hands out.
pub open spec fn form_of(r: Option<MalRet>) -> Option<Result<Val, Val>> {
    match r {
        Some(x) => Some(ret_val(x)),
        None => None,
    }
}

/// Whether the text `t` is the tokens `held` and, from `cut` on, a text
/// whose first token is not settled, where no run of `held` from the
/// first token on writes a form or fails for good.
pub open spec fn holds_back(t: Seq<char>, held: Seq<Seq<char>>, cut: int) -> bool {
    &&& 0 <= cut <= t.len()
    &&& agrees(t, held, t.skip(cut), false)
    &&& !settled(t.skip(cut))
    &&& forall|k: int| 0 < k <= held.len() ==> parse_spec(#[trigger] held.take(k)) is None
}

/// Whether a stream that holds the text `t` still waits for a form: the
/// tokens that are settled in `t` do not yet write one.
pub open spec fn waiting(t: Seq<char>) -> bool {
    exists|held: Seq<Seq<char>>, cut: int| #[trigger] holds_back(t, held, cut)
}

/// Whether the text `s`, which goes on from `pending`, holds no character
/// that was taken in behind a complete form: a character is taken only
/// while the stream still waits for a form.
pub open spec fn no_form_sooner(pending: Seq<char>, s: Seq<char>) -> bool {
    s.len() > pending.len() ==> waiting(s.drop_last())
}

/// A character that a token stream takes in while tokens `held` are
/// gathered that write no form is taken while the stream waits for a form.
pub proof fn lemma_still_waiting(
    seen: Seq<char>,
    held: Seq<Seq<char>>,
    pending: Seq<char>,
    s: Seq<char>,
)
    requires
        agrees(seen, held, pending, false),
        seen.len() >= pending.len(),
        seen.skip(seen.len() - pending.len()) == pending,
        pending.is_prefix_of(s),
        s.len() > pending.len(),
        !settled(s.drop_last()),
        forall|k: int| 0 < k <= held.len() ==> parse_spec(#[trigger] held.take(k)) is None,
    ensures
        waiting((seen + s.skip(pending.len() as int)).drop_last()),
{
    let m = s.skip(pending.len() as int);
    let m1 = m.drop_last();
    let t = seen + m1;
    let cut = seen.len() - pending.len();
    lemma_agrees_taken(seen, held, pending, false, m1);
    assert((seen + m).drop_last() =~= t);
    assert(t.skip(cut) =~= pending + m1);
    assert(pending + m1 =~= s.drop_last());
    assert(holds_back(t, held, cut));
}

/// What one call for a form does, where `s` is the pending text with the
/// characters taken in during the call: the first tokens of `s`, just as
/// many as write a form or fail for good (or all, where the source has
/// ended), are read, and the text behind them stays pending; or `s` has no
/// token and the source has ended.
pub open spec fn read_out(
    s: Seq<char>,
    r: Option<Result<Val, Val>>,
    pending: Seq<char>,
    done: bool,
) -> bool {
    match r {
        Some(form) => exists|tokens: Seq<Seq<char>>|
            #[trigger] gathered_for_one(tokens) && agrees(s, tokens, pending, done) && form
                == read_form_spec(tokens, 0).0 && (parse_spec(tokens) is Some || (done
                && pending.len() == 0)),
        None => tokens_of(s).len() == 0 && done && pending.len() == 0,
    }
}

/// Whether the forms `out` are those that lie before the pending text
/// `pending` in `seen`, whatever characters `f` still follow (none, once
/// the source is `done`).
pub open spec fn agrees_forms(
    seen: Seq<char>,
    out: Seq<Result<Val, Val>>,
    pending: Seq<char>,
    done: bool,
) -> bool {
    forall|f: Seq<char>|
        (done ==> f.len() == 0) ==> #[trigger] forms_of_text(seen + f) == out + forms_of_text(
            pending + f,
        )
}

/// The forms read from a place on are the forms of the tokens that begin at that place.
pub proof fn lemma_forms_shift(tokens: Seq<Seq<char>>, e: int, start: int, k: int)
    requires
        0 <= e <= tokens.len(),
        0 <= start,
        0 <= k,
    ensures
        forms_from(tokens, e + start, k) == forms_from(tokens.skip(e), start, k),
    decreases tokens.len() - e - start, tokens.len() - e - start - k,
{
    let t = tokens.skip(e);
    if e + start + k <= tokens.len() {
        assert(tokens.subrange(e + start, e + start + k) =~= t.subrange(start, start + k));
        if k > 0 && parse_spec(tokens.subrange(e + start, e + start + k)) is Some {
            lemma_forms_shift(tokens, e, start + k, 0);
        } else if e + start + k < tokens.len() {
            lemma_forms_shift(tokens, e, start, k + 1);
        }
    }
}

/// While fewer tokens are gathered than write a form, gathering goes on.
pub proof fn lemma_gather(tokens: Seq<Seq<char>>, one: Seq<Seq<char>>, k: int)
    requires
        gathered_for_one(one),
        one.is_prefix_of(tokens),
        0 <= k <= one.len(),
    ensures
        forms_from(tokens, 0, 0) == forms_from(tokens, 0, k),
    decreases k,
{
    if k > 0 {
        lemma_gather(tokens, one, k - 1);
        if k - 1 > 0 {
            assert(tokens.subrange(0, k - 1) =~= one.take(k - 1));
        }
    }
}

/// Tokens that write a form, and none fewer, are read as one form; the
/// forms of what follows them come behind it.
pub proof fn lemma_forms_emit(one: Seq<Seq<char>>, rest: Seq<Seq<char>>)
    requires
        gathered_for_one(one),
        parse_spec(one) is Some,
    ensures
        forms_of(one + rest) == seq![read_form_spec(one, 0).0] + forms_of(rest),
{
    let tokens = one + rest;
    let n = one.len() as int;
    lemma_gather(tokens, one, n);
    assert(tokens.subrange(0, n) =~= one);
    lemma_forms_shift(tokens, n, 0, 0);
    assert(tokens.skip(n) =~= rest);
}

/// Tokens that lack their end, with nothing behind them, are read as they are.
pub proof fn lemma_forms_end(one: Seq<Seq<char>>)
    requires
        gathered_for_one(one),
    ensures
        forms_of(one) == seq![read_form_spec(one, 0).0],
{
    let n = one.len() as int;
    lemma_gather(one, one, n);
    assert(one.subrange(0, n) =~= one);
    if parse_spec(one) is Some {
        assert(forms_from(one, n, 0) =~= Seq::<Result<Val, Val>>::empty());
        assert(seq![read_form_spec(one, 0).0] + Seq::<Result<Val, Val>>::empty() =~= seq![
            read_form_spec(one, 0).0,
        ]);
    }
}

/// Where the forms `out` lie before `pending` in `seen`, they lie before
/// `pending` and `m` in `seen` and `m`, whatever characters `m` are taken in.
pub proof fn lemma_agrees_forms_taken(
    seen: Seq<char>,
    out: Seq<Result<Val, Val>>,
    pending: Seq<char>,
    done: bool,
    m: Seq<char>,
)
    requires
        agrees_forms(seen, out, pending, done),
        done ==> m.len() == 0,
    ensures
        agrees_forms(seen + m, out, pending + m, done),
{
    assert forall|f: Seq<char>| (done ==> f.len() == 0) implies #[trigger] forms_of_text(
        seen + m + f,
    ) == out + forms_of_text(pending + m + f) by {
        assert(seen + m + f =~= seen + (m + f));
        assert(pending + m + f =~= pending + (m + f));
        assert(forms_of_text(seen + (m + f)) == out + forms_of_text(pending + (m + f)));
    }
}

/// The form that is read out of the text `s` is the first form of `s`
/// with whatever characters `f` follow it (none, once the source is
/// done), and the forms behind it are those of what stays pending with `f`.
pub proof fn lemma_first_form(
    s: Seq<char>,
    one: Seq<Seq<char>>,
    pending2: Seq<char>,
    done2: bool,
    f: Seq<char>,
)
    requires
        gathered_for_one(one),
        tokens_of(s + f) == one + tokens_of(pending2 + f),
        parse_spec(one) is Some || (done2 && pending2.len() == 0),
        done2 ==> f.len() == 0,
    ensures
        forms_of_text(s + f) == seq![read_form_spec(one, 0).0] + forms_of_text(pending2 + f),
{
    let rest = tokens_of(pending2 + f);
    if parse_spec(one) is Some {
        lemma_forms_emit(one, rest);
    } else {
        assert(pending2 + f =~= Seq::<char>::empty());
        assert(rest =~= Seq::<Seq<char>>::empty());
        assert(one + rest =~= one);
        lemma_forms_end(one);
        assert(forms_of(rest) =~= Seq::<Result<Val, Val>>::empty());
        assert(seq![read_form_spec(one, 0).0] + forms_of(rest) =~= seq![read_form_spec(one, 0).0]);
    }
}

/// One form more is read out of the text `s`: the forms handed out so
/// far, with it, lie before what stays pending.
pub proof fn lemma_forms_form(
    seen: Seq<char>,
    out: Seq<Result<Val, Val>>,
    s: Seq<char>,
    done: bool,
    form: Result<Val, Val>,
    pending2: Seq<char>,
    done2: bool,
)
    requires
        agrees_forms(seen, out, s, done),
        done ==> done2,
        read_out(s, Some(form), pending2, done2),
    ensures
        agrees_forms(seen, out.push(form), pending2, done2),
{
    let one = choose|tokens: Seq<Seq<char>>|
        #[trigger] gathered_for_one(tokens) && agrees(s, tokens, pending2, done2) && form
            == read_form_spec(tokens, 0).0 && (parse_spec(tokens) is Some || (done2
            && pending2.len() == 0));
    assert forall|f: Seq<char>| (done2 ==> f.len() == 0) implies #[trigger] forms_of_text(seen + f)
        == out.push(form) + forms_of_text(pending2 + f) by {
        assert(forms_of_text(seen + f) == out + forms_of_text(s + f));
        assert(tokens_of(s + f) == one + tokens_of(pending2 + f));
        lemma_first_form(s, one, pending2, done2, f);
        assert(out + (seq![form] + forms_of_text(pending2 + f)) =~= out.push(form)
            + forms_of_text(pending2 + f));
    }
}

/// No token is left in the text `s` and the source has ended: the forms
/// handed out so far are all forms of the text seen.
pub proof fn lemma_forms_none(
    seen: Seq<char>,
    out: Seq<Result<Val, Val>>,
    s: Seq<char>,
    done: bool,
)
    requires
        agrees_forms(seen, out, s, done),
        tokens_of(s).len() == 0,
    ensures
        out == forms_of_text(seen),
{
    let f = Seq::<char>::empty();
    assert(seen + f =~= seen);
    assert(s + f =~= s);
    assert(forms_of_text(seen + f) == out + forms_of_text(s + f));
    assert(tokens_of(s) =~= Seq::<Seq<char>>::empty());
    assert(forms_of(tokens_of(s)) =~= Seq::<Result<Val, Val>>::empty());
    assert(out + Seq::<Result<Val, Val>>::empty() =~= out);
}

/// One call for a form is made: the forms handed out so far still agree
/// with the text seen so far, which is `seen` with the characters that
/// the call took in.
pub proof fn lemma_forms_step(
    seen: Seq<char>,
    out: Seq<Result<Val, Val>>,
    pending: Seq<char>,
    done: bool,
    s: Seq<char>,
    r: Option<Result<Val, Val>>,
    pending2: Seq<char>,
    done2: bool,
)
    requires
        agrees_forms(seen, out, pending, done),
        pending.is_prefix_of(s),
        done ==> s == pending,
        done ==> done2,
        read_out(s, r, pending2, done2),
    ensures
        r is Some ==> agrees_forms(
            seen + s.skip(pending.len() as int),
            out.push(r->0),
            pending2,
            done2,
        ),
        r is None ==> out == forms_of_text(seen + s.skip(pending.len() as int)),
{
    let m = s.skip(pending.len() as int);
    assert(pending + m =~= s);
    lemma_agrees_forms_taken(seen, out, pending, done, m);
    match r {
        Some(form) => {
            lemma_forms_form(seen + m, out, s, done, form, pending2, done2);
        },
        None => {
            lemma_forms_none(seen + m, out, s, done);
        },
    }
}

/// The mathematical values of a sequence of results.
pub open spec fn rets(results: Seq<MalRet>) -> Seq<Result<Val, Val>> {
    Seq::new(results.len(), |i: int| ret_val(results[i]))
}

/// Takes characters from a source and hands out the forms that they write, one by one.
pub struct MalStream<R: CharReader> {
    token_stream: TokenStream<R>,
}

impl<R: CharReader> MalStream<R> {
    pub fn new(reader: R) -> (r: Self)
        ensures
            r.left() == READ_LIMIT,
            r.pending() == Seq::<char>::empty(),
            !r.is_done(),
    {
        MalStream { token_stream: TokenStream::new(reader) }
    }

    /// How many characters may still be taken from the source.
    pub closed spec fn left(&self) -> nat {
        self.token_stream.left()
    }

    /// The characters that were taken from the source and not yet read in a token.
    pub closed spec fn pending(&self) -> Seq<char> {
        self.token_stream.pending()
    }

    /// Whether the source has ended.
    pub closed spec fn is_done(&self) -> bool {
        self.token_stream.is_done()
    }

    /// The next form, or the failure of reading it; nothing where the
    /// source has ended. Tokens are gathered until they write a form or
    /// fail for another reason than a missing end; at the end of the
    /// source what was gathered is read as it is. No character is taken
    /// from the source behind a complete form.
    pub fn next(&mut self) -> (r: Option<MalRet>)
        ensures
            final(self).left() <= old(self).left(),
            old(self).is_done() ==> final(self).is_done() && final(self).left() == old(self).left(),
            exists|s: Seq<char>|
                old(self).pending().is_prefix_of(s) && s.len() - old(self).pending().len() == old(
                    self).left() - final(self).left() && #[trigger] read_out(
                    s,
                    form_of(r),
                    final(self).pending(),
                    final(self).is_done(),
                ) && no_form_sooner(old(self).pending(), s),
            r is Some ==> final(self).left() < old(self).left() || final(self).pending().len()
                < old(self).pending().len(),
    {
        let mut gathered = Reader { tokens: Vec::new(), pos: 0 };
        let ghost mut seen = self.pending();
        proof {
            assert(texts(gathered.tokens@) =~= Seq::<Seq<char>>::empty());
            lemma_agrees_start(seen, self.is_done());
            assert(seen.skip(0) =~= seen);
        }
        loop
            invariant
                gathered.pos == 0,
                self.left() <= old(self).left(),
                old(self).is_done() ==> self.is_done() && self.left() == old(self).left(),
                self.left() == old(self).left() ==> self.pending().len() <= old(
                    self).pending().len(),
                gathered.tokens@.len() > 0 ==> self.left() < old(self).left()
                    || self.pending().len() < old(self).pending().len(),
                forall|k: int|
                    0 < k <= gathered.tokens@.len() ==> parse_spec(
                        #[trigger] texts(gathered.tokens@).take(k),
                    ) is None,
                old(self).pending().is_prefix_of(seen),
                seen.len() - old(self).pending().len() == old(self).left() - self.left(),
                agrees(seen, texts(gathered.tokens@), self.pending(), self.is_done()),
                seen.len() >= self.pending().len(),
                seen.skip(seen.len() - self.pending().len()) == self.pending(),
                no_form_sooner(old(self).pending(), seen),
            decreases self.token_stream.left(), self.token_stream.pending().len(),
        {
            let ghost before = texts(gathered.tokens@);
            let ghost pending = self.pending();
            let ghost done = self.is_done();
            let ghost left = self.left();
            let next = self.token_stream.next();
            proof {
                let s = choose|s: Seq<char>|
                    pending.is_prefix_of(s) && s.len() - pending.len() == left - self.left()
                        && #[trigger] handed_out(
                        s,
                        text_of_token(next),
                        self.pending(),
                        self.is_done(),
                    ) && no_sooner(pending, s);
                if done {
                    assert(s =~= pending);
                }
                if s.len() > pending.len() {
                    lemma_still_waiting(seen, before, pending, s);
                }
                lemma_collect_step(
                    seen,
                    before,
                    pending,
                    done,
                    s,
                    text_of_token(next),
                    self.pending(),
                    self.is_done(),
                );
                if next is Some {
                    lemma_tokens_step(s, 0);
                    assert(self.pending() == s.skip(token_end(s, token_start(s, 0))));
                } else {
                    assert(self.pending() =~= s.skip(s.len() as int));
                }
                lemma_suffix_stays(seen, pending, s, self.pending());
                seen = seen + s.skip(pending.len() as int);
            }
            match next {
                Some(token) => {
                    gathered.tokens.push(token);
                    let ghost tokens = texts(gathered.tokens@);
                    proof {
                        assert(tokens =~= before.push(token@));
                        assert(tokens.take(tokens.len() as int) =~= tokens);
                        assert forall|k: int| 0 < k < tokens.len() implies parse_spec(
                            #[trigger] tokens.take(k),
                        ) is None by {
                            assert(tokens.take(k) =~= before.take(k));
                        }
                    }
                    match try_parse(&mut gathered) {
                        Some(result) => {
                            let r = Some(result);
                            proof {
                                assert(ret_val(result) == read_form_spec(tokens, 0).0);
                                assert(gathered_for_one(tokens));
                                assert(read_out(
                                    seen,
                                    form_of(r),
                                    self.pending(),
                                    self.is_done(),
                                ));
                            }
                            return r;
                        },
                        None => {},
                    }
                },
                None => {
                    if gathered.tokens.len() == 0 {
                        proof {
                            assert(before =~= Seq::<Seq<char>>::empty());
                            assert(read_out(seen, form_of(None), self.pending(), self.is_done()));
                        }
                        return None;
                    } else {
                        let result = read_form(&mut gathered);
                        let r = Some(result);
                        proof {
                            assert(before.take(before.len() as int) =~= before);
                            assert forall|k: int| 0 < k < before.len() implies parse_spec(
                                #[trigger] before.take(k),
                            ) is None by {}
                            assert(ret_val(result) == read_form_spec(before, 0).0);
                            assert(gathered_for_one(before));
                            lemma_agrees_end(seen, before, self.pending());
                            assert(read_out(seen, form_of(r), self.pending(), self.is_done()));
                        }
                        return r;
                    }
                },
            }
        }
    }

    /// All forms that are still to come, each with the failure of reading
    /// it in its place: the forms of the pending text with all characters
    /// behind it that the source still had.
    pub fn collect(&mut self) -> (r: Vec<MalRet>)
        ensures
            final(self).is_done(),
            final(self).pending().len() == 0,
            final(self).left() <= old(self).left(),
            exists|all: Seq<char>|
                old(self).pending().is_prefix_of(all) && all.len() - old(self).pending().len()
                    == old(self).left() - final(self).left() && rets(r@) == #[trigger] forms_of_text(
                    all,
                ),
    {
        let mut out: Vec<MalRet> = Vec::new();
        let ghost mut seen = self.pending();
        proof {
            assert(rets(out@) =~= Seq::<Result<Val, Val>>::empty());
            assert forall|f: Seq<char>|
                (self.is_done() ==> f.len() == 0) implies #[trigger] forms_of_text(seen + f)
                == rets(out@) + forms_of_text(self.pending() + f) by {
                assert(rets(out@) + forms_of_text(seen + f) =~= forms_of_text(seen + f));
            }
        }
        loop
            invariant
                self.left() <= old(self).left(),
                old(self).pending().is_prefix_of(seen),
                seen.len() - old(self).pending().len() == old(self).left() - self.left(),
                agrees_forms(seen, rets(out@), self.pending(), self.is_done()),
            ensures
                self.is_done(),
                self.pending().len() == 0,
                self.left() <= old(self).left(),
                old(self).pending().is_prefix_of(seen),
                seen.len() - old(self).pending().len() == old(self).left() - self.left(),
                rets(out@) == forms_of_text(seen),
            decreases self.left(), self.pending().len(),
        {
            let ghost pending = self.pending();
            let ghost done = self.is_done();
            let ghost left = self.left();
            let ghost before = rets(out@);
            let r = self.next();
            proof {
                let s = choose|s: Seq<char>|
                    pending.is_prefix_of(s) && s.len() - pending.len() == left - self.left()
                        && #[trigger] read_out(s, form_of(r), self.pending(), self.is_done());
                if done {
                    assert(s =~= pending);
                }
                lemma_forms_step(
                    seen,
                    before,
                    pending,
                    done,
                    s,
                    form_of(r),
                    self.pending(),
                    self.is_done(),
                );
                seen = seen + s.skip(pending.len() as int);
            }
            match r {
                Some(t) => {
                    out.push(t);
                    assert(rets(out@) =~= before.push(ret_val(t)));
                },
                None => {
                    break ;
                },
            }
        }
        out
    }
}

} // verus!
