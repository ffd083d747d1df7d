//! The counting engine: four metrics of a text, computed only when
//! selected, together with the field-wise sum used for total rows.
use crate::digits;
use crate::text;
use vstd::prelude::*;

verus! {

/// Which of the four metrics a run should compute and display.
pub struct Options {
    pub bytes: bool,
    pub chars: bool,
    pub words: bool,
    pub lines: bool,
}

impl Options {
    /// The selection a run works with: the flags as given, except that no
    /// flag at all means the customary lines, words and bytes.
    pub fn from_flags(bytes: bool, chars: bool, words: bool, lines: bool) -> (r: Options)
        ensures
            (!bytes && !chars && !words && !lines) ==> r == (Options {
                bytes: true,
                chars: false,
                words: true,
                lines: true,
            }),
            (bytes || chars || words || lines) ==> r == (Options { bytes, chars, words, lines }),
    {
        if !(bytes || chars || words || lines) {
            Options { bytes: true, chars: false, words: true, lines: true }
        } else {
            Options { bytes, chars, words, lines }
        }
    }
}

/// The four counts for one piece of text; an unselected metric stays zero.
#[derive(Clone, Copy, Debug, PartialEq, Eq, Structural)]
pub struct CountStat {
    pub bytes: usize,
    pub chars: usize,
    pub words: usize,
    pub lines: usize,
}

/// The all-zero statistic.
pub open spec fn zero_stat() -> CountStat {
    CountStat { bytes: 0, chars: 0, words: 0, lines: 0 }
}

/// The field-wise sum of two statistics.
pub open spec fn spec_add(a: CountStat, b: CountStat) -> CountStat {
    CountStat {
        bytes: (a.bytes + b.bytes) as usize,
        chars: (a.chars + b.chars) as usize,
        words: (a.words + b.words) as usize,
        lines: (a.lines + b.lines) as usize,
    }
}

/// Whether the field-wise sum of two statistics stays within `usize`.
pub open spec fn add_fits(a: CountStat, b: CountStat) -> bool {
    &&& a.bytes + b.bytes <= usize::MAX
    &&& a.chars + b.chars <= usize::MAX
    &&& a.words + b.words <= usize::MAX
    &&& a.lines + b.lines <= usize::MAX
}

impl CountStat {
    /// The all-zero statistic: the identity element for `add`.
    pub fn empty() -> (r: CountStat)
        ensures
            r == zero_stat(),
    {
        CountStat { lines: 0, words: 0, chars: 0, bytes: 0 }
    }

    /// The width of the widest field when printed in decimal, which is the
    /// byte count, the largest metric of any text.
    pub fn max_field_width(&self) -> (r: usize)
        ensures
            r as nat == digits::dec_width(self.bytes as int),
    {
        digits::decimal_width(self.bytes)
    }

    /// The field-wise sum of two statistics.
    pub fn add(self, rhs: &CountStat) -> (r: CountStat)
        requires
            add_fits(self, *rhs),
        ensures
            r == spec_add(self, *rhs),
    {
        CountStat {
            lines: self.lines + rhs.lines,
            words: self.words + rhs.words,
            chars: self.chars + rhs.chars,
            bytes: self.bytes + rhs.bytes,
        }
    }
}

/// Adding the all-zero statistic changes nothing: it is the identity.
pub proof fn lemma_add_zero(a: CountStat)
    ensures
        spec_add(a, zero_stat()) == a,
        spec_add(zero_stat(), a) == a,
{
}

/// The field-wise sum does not depend on the order of its arguments.
pub proof fn lemma_add_comm(a: CountStat, b: CountStat)
    ensures
        spec_add(a, b) == spec_add(b, a),
{
}

/// Summing three statistics gives the same result however grouped, as long
/// as the sums stay within `usize`.
pub proof fn lemma_add_assoc(a: CountStat, b: CountStat, c: CountStat)
    requires
        add_fits(a, b),
        add_fits(spec_add(a, b), c),
    ensures
        add_fits(b, c),
        add_fits(a, spec_add(b, c)),
        spec_add(spec_add(a, b), c) == spec_add(a, spec_add(b, c)),
{
}

/// Counts the selected metrics of `content`; a metric that was not
/// selected is not computed and reports zero.
pub fn count(content: &str, options: &Options) -> (r: CountStat)
    ensures
        r.lines as nat == (if options.lines {
            text::newline_count(content@)
        } else {
            0nat
        }),
        r.words as nat == (if options.words {
            text::word_count(content@)
        } else {
            0nat
        }),
        r.chars as nat == (if options.chars {
            content@.len()
        } else {
            0nat
        }),
        r.bytes as nat == (if options.bytes {
            text::byte_count(content@)
        } else {
            0nat
        }),
{
    CountStat {
        bytes: if options.bytes {
            count_bytes(content)
        } else {
            0
        },
        chars: if options.chars {
            count_chars(content)
        } else {
            0
        },
        words: if options.words {
            count_words(content)
        } else {
            0
        },
        lines: if options.lines {
            count_lines(content)
        } else {
            0
        },
    }
}

/// The number of newline characters of `content`.
pub fn count_lines(content: &str) -> (r: usize)
    ensures
        r as nat == text::newline_count(content@),
{
    text::newlines(content)
}

/// The number of maximal whitespace-delimited tokens of `content`.
pub fn count_words(content: &str) -> (r: usize)
    ensures
        r as nat == text::word_count(content@),
{
    text::words(content)
}

/// The number of characters of `content`: Unicode code points, not bytes.
pub fn count_chars(content: &str) -> (r: usize)
    ensures
        r as nat == content@.len(),
{
    content.unicode_len()
}

/// The number of bytes of `content` in its UTF-8 form.
pub fn count_bytes(content: &str) -> (r: usize)
    ensures
        r as nat == text::byte_count(content@),
{
    text::utf8_len(content)
}

} // verus!
