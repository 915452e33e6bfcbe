//! Character classes of the query grammar and UTF-8 width accounting for
//! byte-accurate source positions.

use vstd::prelude::*;
use vstd::utf8::{encode_scalar, encode_utf8};

verus! {

/// Whitespace that the tokenizer skips between tokens (the ASCII whitespace
/// characters).
pub open spec fn is_ws(c: char) -> bool {
    c == ' ' || c == '\t' || c == '\n' || c == '\r' || c == '\u{b}' || c == '\u{c}'
}

/// Decimal digits.
pub open spec fn is_digit(c: char) -> bool {
    '0' <= c && c <= '9'
}

/// Letters that may start an identifier: `[A-Za-z]`.
pub open spec fn is_alpha(c: char) -> bool {
    ('a' <= c && c <= 'z') || ('A' <= c && c <= 'Z')
}

/// Letters and digits.
pub open spec fn is_alnum(c: char) -> bool {
    is_alpha(c) || is_digit(c)
}

/// Characters that may continue an identifier or path segment:
/// `[A-Za-z0-9_]`.
pub open spec fn is_ident_cont(c: char) -> bool {
    is_alnum(c) || c == '_'
}

pub fn ws_char(c: char) -> (b: bool)
    ensures
        b == is_ws(c),
{
    c == ' ' || c == '\t' || c == '\n' || c == '\r' || c == '\u{b}' || c == '\u{c}'
}

pub fn digit_char(c: char) -> (b: bool)
    ensures
        b == is_digit(c),
{
    '0' <= c && c <= '9'
}

pub fn alpha_char(c: char) -> (b: bool)
    ensures
        b == is_alpha(c),
{
    ('a' <= c && c <= 'z') || ('A' <= c && c <= 'Z')
}

pub fn ident_cont_char(c: char) -> (b: bool)
    ensures
        b == is_ident_cont(c),
{
    alpha_char(c) || digit_char(c) || c == '_'
}

/// Number of bytes of the UTF-8 encoding of one character.
pub open spec fn utf8_len(c: char) -> int {
    encode_scalar(c as u32).len() as int
}

/// Number of bytes of the UTF-8 encoding of a character sequence; the byte
/// offset of position `i` in a source string `s` is `bytes_len(s.take(i))`.
pub open spec fn bytes_len(s: Seq<char>) -> int {
    encode_utf8(s).len() as int
}

pub proof fn lemma_utf8_len_bounds(c: char)
    ensures
        1 <= utf8_len(c) <= 4,
{
}

pub fn utf8_len_of(c: char) -> (n: usize)
    ensures
        n as int == utf8_len(c),
{
    let u = c as u32;
    if u < 0x80 {
        1
    } else if u < 0x800 {
        2
    } else if u < 0x10000 {
        3
    } else {
        4
    }
}

pub proof fn lemma_bytes_len_concat(a: Seq<char>, b: Seq<char>)
    ensures
        bytes_len(a + b) == bytes_len(a) + bytes_len(b),
    decreases a.len(),
{
    if a.len() == 0 {
        assert(a + b =~= b);
    } else {
        lemma_bytes_len_concat(a.drop_first(), b);
        assert((a + b).drop_first() =~= a.drop_first() + b);
        assert(encode_utf8(a + b) == encode_scalar((a + b)[0] as u32) + encode_utf8(
            (a + b).drop_first(),
        ));
    }
}

/// Advancing one character advances the byte offset by that character's
/// UTF-8 width.
pub proof fn lemma_bytes_len_step(s: Seq<char>, i: int)
    requires
        0 <= i < s.len(),
    ensures
        bytes_len(s.take(i + 1)) == bytes_len(s.take(i)) + utf8_len(s[i]),
{
    assert(s.take(i + 1) =~= s.take(i) + seq![s[i]]);
    lemma_bytes_len_concat(s.take(i), seq![s[i]]);
    lemma_bytes_len_single(s[i]);
}

pub proof fn lemma_bytes_len_single(c: char)
    ensures
        bytes_len(seq![c]) == utf8_len(c),
{
    let s = seq![c];
    assert(s.drop_first() =~= Seq::<char>::empty());
    assert(encode_utf8(s) == encode_scalar(c as u32) + encode_utf8(Seq::<char>::empty()));
    assert(encode_utf8(s) =~= encode_scalar(c as u32));
}

pub proof fn lemma_bytes_len_nonneg(s: Seq<char>)
    ensures
        bytes_len(s) >= s.len(),
    decreases s.len(),
{
    if s.len() > 0 {
        lemma_bytes_len_nonneg(s.drop_first());
        assert(encode_utf8(s) == encode_scalar(s[0] as u32) + encode_utf8(s.drop_first()));
    }
}

/// Prefix byte offsets never exceed the whole string's byte length.
pub proof fn lemma_bytes_len_prefix(s: Seq<char>, i: int)
    requires
        0 <= i <= s.len(),
    ensures
        bytes_len(s.take(i)) <= bytes_len(s),
{
    assert(s =~= s.take(i) + s.skip(i));
    lemma_bytes_len_concat(s.take(i), s.skip(i));
    lemma_bytes_len_nonneg(s.skip(i));
}

/// Relies on `str::chars`: yields exactly the characters of the string, in
/// order, and on `Iterator::collect` for `Vec`. Also records that the byte
/// length of a `str` (the UTF-8 encoding of its characters) fits in `usize`,
/// which `str::len` guarantees.
#[verifier::external_body]
pub fn str_chars(s: &str) -> (v: Vec<char>)
    ensures
        v@ == s@,
        bytes_len(v@) <= usize::MAX,
{
    s.chars().collect()
}

/// Relies on `String::from_iter` over `char`: builds the string holding
/// exactly the given characters.
#[verifier::external_body]
pub fn chars_string(v: &[char]) -> (s: String)
    ensures
        s@ == v@,
{
    v.iter().collect()
}


/// The characters of `chars` in `[j, k)`, as their own vector.
pub fn copy_chars(chars: &Vec<char>, j: usize, k: usize) -> (v: Vec<char>)
    requires
        j <= k <= chars@.len(),
    ensures
        v@ == chars@.subrange(j as int, k as int),
{
    let mut v: Vec<char> = Vec::new();
    let mut m: usize = j;
    while m < k
        invariant
            j <= m <= k <= chars@.len(),
            v@ == chars@.subrange(j as int, m as int),
        decreases k - m,
    {
        let c = chars[m];
        v.push(c);
        proof {
            assert(chars@.subrange(j as int, m as int + 1) =~= chars@.subrange(
                j as int,
                m as int,
            ).push(c));
        }
        m = m + 1;
    }
    v
}
} // verus!
