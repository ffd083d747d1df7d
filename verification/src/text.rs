//! Measures of a text: bytes, characters, newlines and words, stated over
//! the sequence of characters that a `&str` denotes.
use vstd::prelude::*;
use vstd::utf8::encode_scalar;
use vstd::utf8::encode_utf8;

verus! {

/// Whether `c` has the Unicode `White_Space` property, as
/// `char::is_whitespace` decides it.  The full character table is left
/// unstated; it is a function of the character alone.
pub uninterp spec fn is_unicode_whitespace(c: char) -> bool;

/// Relies on `char::is_whitespace`: true exactly when the character has the
/// Unicode `White_Space` property, which depends on the character alone.
#[verifier::external_body]
pub(crate) fn is_whitespace_char(c: char) -> (r: bool)
    ensures
        r == is_unicode_whitespace(c),
{
    c.is_whitespace()
}

/// Relies on `bytecount::count`: the number of occurrences of `needle`
/// among the bytes of `haystack`.
#[verifier::external_body]
fn occurrences_of_byte(haystack: &[u8], needle: u8) -> (r: usize)
    ensures
        r as nat == byte_matches(haystack@, needle),
{
    bytecount::count(haystack, needle)
}

/// How many bytes of `s` equal `b`.
pub open spec fn byte_matches(s: Seq<u8>, b: u8) -> nat
    decreases s.len(),
{
    if s.len() == 0 {
        0
    } else {
        (if s[0] == b {
            1nat
        } else {
            0nat
        }) + byte_matches(s.drop_first(), b)
    }
}

/// The length of the UTF-8 encoding of `s`: what `wc -c` reports.
pub open spec fn byte_count(s: Seq<char>) -> nat {
    encode_utf8(s).len()
}

/// How many characters of `s` are the newline character.
pub open spec fn newline_count(s: Seq<char>) -> nat
    decreases s.len(),
{
    if s.len() == 0 {
        0
    } else {
        (if s[0] == '\n' {
            1nat
        } else {
            0nat
        }) + newline_count(s.drop_first())
    }
}

/// The number of newline-terminated segments of `s`: every newline ends a
/// segment, and a non-empty tail without a final newline counts as one more.
pub open spec fn line_segment_count(s: Seq<char>) -> nat {
    if s.len() == 0 {
        0
    } else if s.last() == '\n' {
        newline_count(s)
    } else {
        newline_count(s) + 1
    }
}

/// Position `i` starts a word: it holds a non-whitespace character that is
/// not preceded by one.  Every maximal whitespace-delimited token has
/// exactly one such position, so counting starts counts tokens.
pub open spec fn is_word_start(s: Seq<char>, i: int) -> bool {
    &&& !is_unicode_whitespace(s[i])
    &&& (i == 0 || is_unicode_whitespace(s[i - 1]))
}

/// How many word starts lie in `s[0..n]`.
pub open spec fn word_count_upto(s: Seq<char>, n: int) -> nat
    decreases n,
{
    if n <= 0 {
        0
    } else {
        word_count_upto(s, n - 1) + (if is_word_start(s, n - 1) {
            1nat
        } else {
            0nat
        })
    }
}

/// The number of maximal whitespace-delimited non-empty tokens of `s`.
pub open spec fn word_count(s: Seq<char>) -> nat {
    word_count_upto(s, s.len() as int)
}

proof fn lemma_byte_matches_concat(a: Seq<u8>, b: Seq<u8>, t: u8)
    ensures
        byte_matches(a + b, t) == byte_matches(a, t) + byte_matches(b, t),
    decreases a.len(),
{
    if a.len() == 0 {
        assert(a + b =~= b);
    } else {
        assert((a + b).drop_first() =~= a.drop_first() + b);
        lemma_byte_matches_concat(a.drop_first(), b, t);
    }
}

proof fn lemma_encode_scalar_newlines(c: char)
    ensures
        byte_matches(encode_scalar(c as u32), 10u8) == (if c == '\n' {
            1nat
        } else {
            0nat
        }),
{
    broadcast use vstd::utf8::char_is_scalar;

    let v = c as u32;
    let e = encode_scalar(v);
    assert(e.len() >= 1);
    if v <= 0x7f {
        let x = (v & 0x7f) as u8;
        assert(x == v) by (bit_vector)
            requires
                v <= 0x7f,
                x == (v & 0x7f) as u8,
        ;
        assert(e =~= seq![x]);
        assert(byte_matches(e, 10u8) == (if x == 10u8 {
            1nat
        } else {
            0nat
        })) by {
            assert(e.drop_first() =~= Seq::<u8>::empty());
            assert(byte_matches(Seq::<u8>::empty(), 10u8) == 0);
            assert(e[0] == x);
        }
        if x == 10u8 {
            vstd::utf8::char_u32_cast(c, v);
            assert('\n' as u32 == 10);
            vstd::utf8::char_u32_cast('\n', 10);
            assert(c == '\n');
        } else {
            assert(c != '\n');
        }
    } else {
        assert(c != '\n');
        assert(forall|i: int| 0 <= i < e.len() ==> #[trigger] e[i] != 10u8) by {
            lemma_wide_encoding_bytes(v);
        }
        lemma_no_matches_when_absent(e, 10u8);
    }
}

proof fn lemma_wide_encoding_bytes(v: u32)
    requires
        v > 0x7f,
    ensures
        forall|i: int|
            0 <= i < encode_scalar(v).len() ==> #[trigger] encode_scalar(v)[i] >= 0x80u8,
{
    assert(0xC0u8 | (((v >> 6) & 0x1F) as u8) >= 0x80u8) by (bit_vector);
    assert(0xE0u8 | (((v >> 12) & 0x0F) as u8) >= 0x80u8) by (bit_vector);
    assert(0xF0u8 | (((v >> 18) & 0x7) as u8) >= 0x80u8) by (bit_vector);
    assert(0x80u8 | ((v & 0x3F) as u8) >= 0x80u8) by (bit_vector);
    assert(0x80u8 | (((v >> 6) & 0x3F) as u8) >= 0x80u8) by (bit_vector);
    assert(0x80u8 | (((v >> 12) & 0x3F) as u8) >= 0x80u8) by (bit_vector);
}

proof fn lemma_no_matches_when_absent(s: Seq<u8>, t: u8)
    requires
        forall|i: int| 0 <= i < s.len() ==> #[trigger] s[i] != t,
    ensures
        byte_matches(s, t) == 0,
    decreases s.len(),
{
    if s.len() > 0 {
        lemma_no_matches_when_absent(s.drop_first(), t);
    }
}

proof fn lemma_newline_bytes(s: Seq<char>)
    ensures
        byte_matches(encode_utf8(s), 10u8) == newline_count(s),
    decreases s.len(),
{
    if s.len() > 0 {
        lemma_byte_matches_concat(encode_scalar(s[0] as u32), encode_utf8(s.drop_first()), 10u8);
        lemma_encode_scalar_newlines(s[0]);
        lemma_newline_bytes(s.drop_first());
    }
}

pub proof fn lemma_newline_count_lt_no_trailing(s: Seq<char>)
    requires
        s.len() > 0,
        s.last() != '\n',
    ensures
        newline_count(s) < s.len(),
    decreases s.len(),
{
    if s.len() == 1 {
        assert(s[0] == s.last());
        assert(newline_count(s.drop_first()) == 0);
    } else {
        assert(s.drop_first().last() == s.last());
        lemma_newline_count_lt_no_trailing(s.drop_first());
    }
}

/// Whether a character needs more than one byte in UTF-8.
pub open spec fn is_multibyte(c: char) -> bool {
    c as u32 > 0x7f
}

/// A text never has more characters than bytes, and has strictly fewer as
/// soon as one character needs more than one byte in UTF-8.
pub proof fn lemma_chars_le_bytes(s: Seq<char>)
    ensures
        s.len() <= byte_count(s),
        (exists|i: int| 0 <= i < s.len() && is_multibyte(s[i])) ==> s.len() < byte_count(s),
    decreases s.len(),
{
    if s.len() > 0 {
        let head = encode_scalar(s[0] as u32);
        lemma_chars_le_bytes(s.drop_first());
        assert(byte_count(s) == head.len() + byte_count(s.drop_first()));
        assert(head.len() >= 1);
        if exists|i: int| 0 <= i < s.len() && is_multibyte(s[i]) {
            let i = choose|i: int| 0 <= i < s.len() && is_multibyte(s[i]);
            if i == 0 {
                assert(head.len() >= 2);
            } else {
                assert(is_multibyte(s.drop_first()[i - 1]));
            }
        }
    }
}

/// Counts the newline characters of `content` by scanning its UTF-8 bytes:
/// a byte equal to `\n` occurs exactly where a newline character does,
/// since every byte of a multi-byte encoding is at least `0x80`.
pub(crate) fn newlines(content: &str) -> (r: usize)
    ensures
        r as nat == newline_count(content@),
{
    let r = occurrences_of_byte(content.as_bytes(), 10u8);
    proof {
        lemma_newline_bytes(content@);
    }
    r
}

/// Counts the maximal whitespace-delimited tokens of `content`: a token
/// begins at each non-whitespace character without a non-whitespace
/// predecessor.
pub(crate) fn words(content: &str) -> (r: usize)
    ensures
        r as nat == word_count(content@),
{
    let ghost s = content@;
    let len = content.unicode_len();
    let mut found: usize = 0;
    let mut after_whitespace = true;
    let mut i: usize = 0;
    while i < len
        invariant
            i <= len,
            len as nat == s.len(),
            s == content@,
            found as nat == word_count_upto(s, i as int),
            found <= i,
            after_whitespace <==> (i == 0 || is_unicode_whitespace(s[i as int - 1])),
        decreases len - i,
    {
        let c = content.get_char(i);
        let ws = is_whitespace_char(c);
        if !ws && after_whitespace {
            found = found + 1;
        }
        after_whitespace = ws;
        i = i + 1;
    }
    found
}

/// The byte length of `content`, which is the length of its UTF-8 encoding.
pub(crate) fn utf8_len(content: &str) -> (r: usize)
    ensures
        r as nat == byte_count(content@),
{
    content.as_bytes().len()
}

} // verus!
