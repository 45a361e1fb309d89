//! Character classes and the katakana to hiragana block shift.
use vstd::prelude::*;

verus! {

/// The Unicode scalar value of a character.
pub open spec fn code_of(c: char) -> int {
    c as int
}

/// CJK Unified Ideographs and their Extension A.
pub open spec fn is_kanji(c: char) -> bool {
    (0x4E00 <= code_of(c) <= 0x9FFF) || (0x3400 <= code_of(c) <= 0x4DBF)
}

pub open spec fn has_kanji(s: Seq<char>) -> bool {
    exists|i: int| 0 <= i < s.len() && #[trigger] is_kanji(s[i])
}

/// The katakana syllabary that has a hiragana counterpart 0x60 below it.
pub open spec fn is_shiftable_katakana(c: char) -> bool {
    0x30A1 <= code_of(c) <= 0x30F6
}

/// The character whose code lies 0x60 below that of `c`.
pub open spec fn shifted_down(c: char) -> char {
    choose|d: char| #[trigger] code_of(d) == code_of(c) - 0x60
}

pub open spec fn hiragana_char(c: char) -> char {
    if is_shiftable_katakana(c) {
        shifted_down(c)
    } else {
        c
    }
}

/// A string with every shiftable katakana moved onto hiragana.
pub open spec fn hiragana_of(s: Seq<char>) -> Seq<char> {
    s.map_values(|c: char| hiragana_char(c))
}

/// The White_Space property of Unicode, which `char::is_whitespace` follows.
pub open spec fn is_white_space(c: char) -> bool {
    let n = code_of(c);
    (0x9 <= n <= 0xD) || n == 0x20 || n == 0x85 || n == 0xA0 || n == 0x1680 || (0x2000 <= n
        <= 0x200A) || n == 0x2028 || n == 0x2029 || n == 0x202F || n == 0x205F || n == 0x3000
}

pub open spec fn is_blank(s: Seq<char>) -> bool {
    forall|i: int| 0 <= i < s.len() ==> #[trigger] is_white_space(s[i])
}

/// Relies on char::from_u32: a character exactly for the codes outside the
/// surrogate block and up to 0x10FFFF.
#[verifier::external_body]
fn char_from_code(n: u32) -> (r: Option<char>)
    ensures
        r is Some <==> (n < 0xD800 || (0xE000 <= n && n <= 0x10FFFF)),
        r matches Some(d) ==> code_of(d) == n as int,
{
    char::from_u32(n)
}

/// Relies on char::is_whitespace: the White_Space property.
#[verifier::external_body]
fn char_is_whitespace(c: char) -> (r: bool)
    ensures
        r == is_white_space(c),
{
    c.is_whitespace()
}

/// Relies on str::chars, collected: the characters of the string in order.
#[verifier::external_body]
pub(crate) fn chars_of(s: &str) -> (r: Vec<char>)
    ensures
        r@ == s@,
{
    s.chars().collect()
}

/// Relies on String's FromIterator<char>: the characters in order.
#[verifier::external_body]
pub(crate) fn string_of(v: &[char]) -> (r: String)
    ensures
        r@ == v@,
{
    v.iter().collect()
}

pub fn is_kanji_char(c: char) -> (r: bool)
    ensures
        r == is_kanji(c),
{
    let n = c as u32;
    (0x4E00 <= n && n <= 0x9FFF) || (0x3400 <= n && n <= 0x4DBF)
}

pub fn contains_kanji(s: &str) -> (r: bool)
    ensures
        r == has_kanji(s@),
{
    let cs = chars_of(s);
    contains_kanji_chars(&cs)
}

pub fn contains_kanji_chars(cs: &Vec<char>) -> (r: bool)
    ensures
        r == has_kanji(cs@),
{
    let mut i: usize = 0;
    while i < cs.len()
        invariant
            i <= cs@.len(),
            forall|k: int| 0 <= k < i ==> !#[trigger] is_kanji(cs@[k]),
        decreases cs@.len() - i,
    {
        if is_kanji_char(cs[i]) {
            return true;
        }
        i = i + 1;
    }
    false
}

pub fn hiragana_char_of(c: char) -> (r: char)
    ensures
        r == hiragana_char(c),
{
    let n = c as u32;
    if 0x30A1 <= n && n <= 0x30F6 {
        match char_from_code(n - 0x60) {
            Some(d) => {
                let ghost e = shifted_down(c);
                assert(code_of(e) == code_of(d));
                d
            },
            None => c,
        }
    } else {
        c
    }
}

pub fn hiragana_chars(cs: &Vec<char>) -> (r: Vec<char>)
    ensures
        r@ == hiragana_of(cs@),
{
    let mut out: Vec<char> = Vec::new();
    let mut i: usize = 0;
    while i < cs.len()
        invariant
            i <= cs@.len(),
            out@ == hiragana_of(cs@.subrange(0, i as int)),
        decreases cs@.len() - i,
    {
        out.push(hiragana_char_of(cs[i]));
        assert(hiragana_of(cs@.subrange(0, i + 1)) =~= hiragana_of(cs@.subrange(0, i as int)).push(
            hiragana_char(cs@[i as int]),
        ));
        i = i + 1;
    }
    assert(cs@.subrange(0, cs@.len() as int) =~= cs@);
    out
}

/// Shifts each katakana of U+30A1..=U+30F6 down by 0x60 onto hiragana; every
/// other character is kept.
pub fn katakana_to_hiragana(input: &str) -> (r: String)
    ensures
        r@ == hiragana_of(input@),
{
    let cs = chars_of(input);
    let hs = hiragana_chars(&cs);
    string_of(hs.as_slice())
}

/// Whether every character is white space (so the string trims to nothing).
pub fn is_blank_text(s: &str) -> (r: bool)
    ensures
        r == is_blank(s@),
{
    let cs = chars_of(s);
    let mut i: usize = 0;
    while i < cs.len()
        invariant
            i <= cs@.len(),
            cs@ == s@,
            forall|k: int| 0 <= k < i ==> #[trigger] is_white_space(cs@[k]),
        decreases cs@.len() - i,
    {
        if !char_is_whitespace(cs[i]) {
            return false;
        }
        i = i + 1;
    }
    true
}

} // verus!
