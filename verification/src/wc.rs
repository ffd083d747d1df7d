//! A one-shot counter that measures all four metrics of a text at once.
//! Its line count follows the segment convention: every newline ends a
//! line, and a non-empty tail without a final newline is one more line.
use crate::digits;
use crate::text;
use vstd::prelude::*;

verus! {

/// The four counts for one piece of text, all of them computed.
#[derive(Clone, Copy, Debug, PartialEq, Eq, Structural)]
pub struct WcCount {
    pub lines: usize,
    pub words: usize,
    pub chars: usize,
    pub bytes: usize,
}

/// Which of the four metrics a report should display.
pub struct WcOption {
    pub bytes: bool,
    pub chars: bool,
    pub words: bool,
    pub lines: bool,
}

/// The all-zero count.
pub open spec fn zero_count() -> WcCount {
    WcCount { lines: 0, words: 0, chars: 0, bytes: 0 }
}

/// The field-wise sum of two counts.
pub open spec fn spec_add(a: WcCount, b: WcCount) -> WcCount {
    WcCount {
        lines: (a.lines + b.lines) as usize,
        words: (a.words + b.words) as usize,
        chars: (a.chars + b.chars) as usize,
        bytes: (a.bytes + b.bytes) as usize,
    }
}

/// Whether the field-wise sum of two counts stays within `usize`.
pub open spec fn add_fits(a: WcCount, b: WcCount) -> bool {
    &&& a.lines + b.lines <= usize::MAX
    &&& a.words + b.words <= usize::MAX
    &&& a.chars + b.chars <= usize::MAX
    &&& a.bytes + b.bytes <= usize::MAX
}

impl WcCount {
    /// The all-zero count: the identity element for `add`.
    pub fn empty() -> (r: WcCount)
        ensures
            r == zero_count(),
    {
        WcCount { lines: 0, words: 0, chars: 0, bytes: 0 }
    }

    /// The width of the widest field when printed in decimal, which is the
    /// byte count, the largest metric of any text.
    pub fn max_field_width(&self) -> (r: usize)
        ensures
            r as nat == digits::dec_width(self.bytes as int),
    {
        digits::decimal_width(self.bytes)
    }

    /// The field-wise sum of two counts.
    pub fn add(self, rhs: &WcCount) -> (r: WcCount)
        requires
            add_fits(self, *rhs),
        ensures
            r == spec_add(self, *rhs),
    {
        WcCount {
            lines: self.lines + rhs.lines,
            words: self.words + rhs.words,
            chars: self.chars + rhs.chars,
            bytes: self.bytes + rhs.bytes,
        }
    }

    /// Adds another count onto this one, field by field.
    pub fn add_assign(&mut self, rhs: &WcCount)
        requires
            add_fits(*old(self), *rhs),
        ensures
            *final(self) == spec_add(*old(self), *rhs),
    {
        self.lines = self.lines + rhs.lines;
        self.words = self.words + rhs.words;
        self.chars = self.chars + rhs.chars;
        self.bytes = self.bytes + rhs.bytes;
    }
}

/// Adding the all-zero count changes nothing: it is the identity.
pub proof fn lemma_add_zero(a: WcCount)
    ensures
        spec_add(a, zero_count()) == a,
        spec_add(zero_count(), a) == a,
{
}

/// The field-wise sum does not depend on the order of its arguments.
pub proof fn lemma_add_comm(a: WcCount, b: WcCount)
    ensures
        spec_add(a, b) == spec_add(b, a),
{
}

/// Summing three counts gives the same result however grouped, as long as
/// the sums stay within `usize`.
pub proof fn lemma_add_assoc(a: WcCount, b: WcCount, c: WcCount)
    requires
        add_fits(a, b),
        add_fits(spec_add(a, b), c),
    ensures
        add_fits(b, c),
        add_fits(a, spec_add(b, c)),
        spec_add(spec_add(a, b), c) == spec_add(a, spec_add(b, c)),
{
}

/// Counts all four metrics of `content` in one call.
pub fn wc(content: &str) -> (r: WcCount)
    ensures
        r.lines as nat == text::line_segment_count(content@),
        r.words as nat == text::word_count(content@),
        r.chars as nat == content@.len(),
        r.bytes as nat == text::byte_count(content@),
{
    WcCount {
        lines: count_lines(content),
        words: count_words(content),
        chars: count_chars(content),
        bytes: count_bytes(content),
    }
}

/// The number of line segments of `content`: every newline ends one, and a
/// non-empty tail without a final newline counts as one more.
pub fn count_lines(content: &str) -> (r: usize)
    ensures
        r as nat == text::line_segment_count(content@),
{
    let n = text::newlines(content);
    let len = content.unicode_len();
    if len == 0 {
        0
    } else {
        let last = content.get_char(len - 1);
        if last == '\n' {
            n
        } else {
            proof {
                text::lemma_newline_count_lt_no_trailing(content@);
            }
            n + 1
        }
    }
}

/// The number of maximal whitespace-delimited tokens of `content`.
pub fn count_words(content: &str) -> (r: usize)
    ensures
        r as nat == text::word_count(content@),
{
    text::words(content)
}

/// The number of characters of `content`: Unicode code points, not bytes.
pub fn count_chars(content: &str) -> (r: usize)
    ensures
        r as nat == content@.len(),
{
    content.unicode_len()
}

/// The number of bytes of `content` in its UTF-8 form.
pub fn count_bytes(content: &str) -> (r: usize)
    ensures
        r as nat == text::byte_count(content@),
{
    text::utf8_len(content)
}

} // verus!
