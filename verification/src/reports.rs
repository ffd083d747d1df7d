//! Per-source outcomes over the one-shot counter, and the aggregate over
//! them: the total row for multi-source runs, the column width that aligns
//! every row, and the rendered text of each row.
use crate::digits;
use crate::error::error_message;
use crate::error::Error;
use crate::wc::WcCount;
use crate::wc::WcOption;
use vstd::prelude::*;

verus! {

/// The outcome for one named source: its counts, or why it failed.
pub struct Report {
    pub name: String,
    pub result: Result<WcCount, Error>,
}

/// The statistics of the successful outcomes, in their order of arrival.
pub open spec fn ok_stats(s: Seq<Report>) -> Seq<WcCount>
    decreases s.len(),
{
    if s.len() == 0 {
        Seq::empty()
    } else {
        ok_stats(s.drop_last()) + (match s.last().result {
            Ok(c) => seq![c],
            Err(_) => Seq::<WcCount>::empty(),
        })
    }
}

/// The largest byte count among the statistics; zero when there are none.
pub open spec fn max_bytes(s: Seq<WcCount>) -> nat
    decreases s.len(),
{
    if s.len() == 0 {
        0
    } else {
        let rest = max_bytes(s.drop_last());
        if s.last().bytes as nat > rest {
            s.last().bytes as nat
        } else {
            rest
        }
    }
}

/// The sum of the line counts.
pub open spec fn sum_lines(s: Seq<WcCount>) -> int
    decreases s.len(),
{
    if s.len() == 0 {
        0
    } else {
        sum_lines(s.drop_last()) + s.last().lines
    }
}

/// The sum of the word counts.
pub open spec fn sum_words(s: Seq<WcCount>) -> int
    decreases s.len(),
{
    if s.len() == 0 {
        0
    } else {
        sum_words(s.drop_last()) + s.last().words
    }
}

/// The sum of the character counts.
pub open spec fn sum_chars(s: Seq<WcCount>) -> int
    decreases s.len(),
{
    if s.len() == 0 {
        0
    } else {
        sum_chars(s.drop_last()) + s.last().chars
    }
}

/// The sum of the byte counts.
pub open spec fn sum_bytes(s: Seq<WcCount>) -> int
    decreases s.len(),
{
    if s.len() == 0 {
        0
    } else {
        sum_bytes(s.drop_last()) + s.last().bytes
    }
}

/// Whether every field-wise sum stays within `usize`.
pub open spec fn total_fits(s: Seq<WcCount>) -> bool {
    &&& sum_lines(s) <= usize::MAX
    &&& sum_words(s) <= usize::MAX
    &&& sum_chars(s) <= usize::MAX
    &&& sum_bytes(s) <= usize::MAX
}

/// The field-wise sum of the statistics: the content of a total row.
pub open spec fn total_stat(s: Seq<WcCount>) -> WcCount {
    WcCount {
        lines: sum_lines(s) as usize,
        words: sum_words(s) as usize,
        chars: sum_chars(s) as usize,
        bytes: sum_bytes(s) as usize,
    }
}

/// One printed row: each selected metric right-aligned to `width` in the
/// fixed order lines, words, chars, bytes, each followed by a space, and
/// the display name left-aligned to `width` at the end.
pub open spec fn row_chars(c: WcCount, o: WcOption, name: Seq<char>, width: int) -> Seq<char> {
    (if o.lines {
        digits::padded_dec(c.lines as int, width) + seq![' ']
    } else {
        Seq::<char>::empty()
    }) + (if o.words {
        digits::padded_dec(c.words as int, width) + seq![' ']
    } else {
        Seq::<char>::empty()
    }) + (if o.chars {
        digits::padded_dec(c.chars as int, width) + seq![' ']
    } else {
        Seq::<char>::empty()
    }) + (if o.bytes {
        digits::padded_dec(c.bytes as int, width) + seq![' ']
    } else {
        Seq::<char>::empty()
    }) + digits::padded_name(name, width)
}

impl Report {
    /// The printed row for a successful outcome: the selected metrics
    /// aligned to `width`, then the display name.
    #[verifier::rlimit(50)]
    pub fn render(&self, width: usize, options: &WcOption) -> (r: String)
        requires
            self.result is Ok,
        ensures
            self.result matches Ok(c) ==> r@ == row_chars(c, *options, self.name@, width as int),
    {
        match &self.result {
            Ok(stat) => {
                let ghost w = width as int;
                let ghost p_lines: Seq<char> = if options.lines {
                    digits::padded_dec(stat.lines as int, w) + seq![' ']
                } else {
                    Seq::<char>::empty()
                };
                let ghost p_words: Seq<char> = if options.words {
                    digits::padded_dec(stat.words as int, w) + seq![' ']
                } else {
                    Seq::<char>::empty()
                };
                let ghost p_chars: Seq<char> = if options.chars {
                    digits::padded_dec(stat.chars as int, w) + seq![' ']
                } else {
                    Seq::<char>::empty()
                };
                let ghost p_bytes: Seq<char> = if options.bytes {
                    digits::padded_dec(stat.bytes as int, w) + seq![' ']
                } else {
                    Seq::<char>::empty()
                };
                let ghost p_name = digits::padded_name(self.name@, w);
                let mut out = String::new();
                proof {
                    reveal_strlit(" ");
                    assert(" "@ =~= seq![' ']);
                }
                if options.lines {
                    digits::append_padded(&mut out, stat.lines, width);
                    out.append(" ");
                    proof {
                        assert(Seq::<char>::empty() + digits::padded_dec(stat.lines as int, w)
                            =~= digits::padded_dec(stat.lines as int, w));
                    }
                }
                proof {
                    assert(out@ == p_lines);
                }
                if options.words {
                    digits::append_padded(&mut out, stat.words, width);
                    out.append(" ");
                    proof {
                        vstd::seq_lib::lemma_concat_associative(
                            p_lines,
                            digits::padded_dec(stat.words as int, w),
                            seq![' '],
                        );
                    }
                } else {
                    proof {
                        assert(p_lines + Seq::<char>::empty() =~= p_lines);
                    }
                }
                proof {
                    assert(out@ == p_lines + p_words);
                }
                if options.chars {
                    digits::append_padded(&mut out, stat.chars, width);
                    out.append(" ");
                    proof {
                        vstd::seq_lib::lemma_concat_associative(
                            p_lines + p_words,
                            digits::padded_dec(stat.chars as int, w),
                            seq![' '],
                        );
                    }
                } else {
                    proof {
                        assert((p_lines + p_words) + Seq::<char>::empty() =~= p_lines + p_words);
                    }
                }
                proof {
                    assert(out@ == p_lines + p_words + p_chars);
                }
                if options.bytes {
                    digits::append_padded(&mut out, stat.bytes, width);
                    out.append(" ");
                    proof {
                        vstd::seq_lib::lemma_concat_associative(
                            p_lines + p_words + p_chars,
                            digits::padded_dec(stat.bytes as int, w),
                            seq![' '],
                        );
                    }
                } else {
                    proof {
                        assert((p_lines + p_words + p_chars) + Seq::<char>::empty() =~= p_lines
                            + p_words + p_chars);
                    }
                }
                proof {
                    assert(out@ == p_lines + p_words + p_chars + p_bytes);
                }
                out.append(self.name.as_str());
                let name_len = self.name.as_str().unicode_len();
                if width > name_len {
                    digits::append_spaces(&mut out, width - name_len);
                    proof {
                        vstd::seq_lib::lemma_concat_associative(
                            p_lines + p_words + p_chars + p_bytes,
                            self.name@,
                            digits::spaces(w - name_len as int),
                        );
                    }
                } else {
                    proof {
                        assert(self.name@ + digits::spaces(w - self.name@.len()) =~= self.name@);
                    }
                }
                proof {
                    assert(out@ == p_lines + p_words + p_chars + p_bytes + p_name);
                }
                out
            },
            Err(_) => {
                proof {
                    assert(false);
                }
                String::new()
            },
        }
    }

    /// The diagnostic line for a failed outcome: the display name, then
    /// the error's own message.
    pub fn render_err(&self) -> (r: String)
        requires
            self.result is Err,
        ensures
            self.result matches Err(e) ==> r@ == self.name@ + ": "@ + error_message(e),
    {
        match &self.result {
            Err(e) => {
                let mut out = String::new();
                out.append(self.name.as_str());
                out.append(": ");
                let m = e.message();
                out.append(m.as_str());
                proof {
                    assert(out@ =~= self.name@ + ": "@ + error_message(*e));
                }
                out
            },
            Ok(_) => {
                proof {
                    assert(false);
                }
                String::new()
            },
        }
    }
}

/// The outcomes of one run, in input order, with the optional total last.
pub struct Reports {
    pub data: Vec<Report>,
}

proof fn lemma_ok_stats_step(s: Seq<Report>, i: int)
    requires
        0 <= i < s.len(),
    ensures
        ok_stats(s.take(i + 1)) == ok_stats(s.take(i)) + (match s[i].result {
            Ok(c) => seq![c],
            Err(_) => Seq::<WcCount>::empty(),
        }),
{
    let t = s.take(i + 1);
    assert(t.drop_last() =~= s.take(i));
    assert(t.last() == s[i]);
}

proof fn lemma_sums_nonneg(s: Seq<WcCount>)
    ensures
        sum_lines(s) >= 0,
        sum_words(s) >= 0,
        sum_chars(s) >= 0,
        sum_bytes(s) >= 0,
    decreases s.len(),
{
    if s.len() > 0 {
        lemma_sums_nonneg(s.drop_last());
    }
}

proof fn lemma_ok_sums_prefix(s: Seq<Report>, i: int)
    requires
        0 <= i <= s.len(),
    ensures
        sum_lines(ok_stats(s.take(i))) <= sum_lines(ok_stats(s)),
        sum_words(ok_stats(s.take(i))) <= sum_words(ok_stats(s)),
        sum_chars(ok_stats(s.take(i))) <= sum_chars(ok_stats(s)),
        sum_bytes(ok_stats(s.take(i))) <= sum_bytes(ok_stats(s)),
    decreases s.len() - i,
{
    if i == s.len() {
        assert(s.take(i) =~= s);
    } else {
        lemma_ok_stats_step(s, i);
        let a = ok_stats(s.take(i));
        match s[i].result {
            Ok(c) => {
                let b = a + seq![c];
                assert(b.drop_last() =~= a);
                assert(b.last() == c);
            },
            Err(_) => {
                assert(a + Seq::<WcCount>::empty() =~= a);
            },
        }
        lemma_ok_sums_prefix(s, i + 1);
    }
}

impl Reports {
    /// Whether any outcome of the run failed: the run's exit signal.
    pub fn has_error(&self) -> (r: bool)
        ensures
            r == exists|i: int| 0 <= i < self.data@.len() && self.data@[i].result is Err,
    {
        let n = self.data.len();
        let mut i: usize = 0;
        while i < n
            invariant
                i <= n,
                n == self.data@.len(),
                forall|j: int| 0 <= j < i ==> !(self.data@[j].result is Err),
            decreases n - i,
        {
            if self.data[i].result.is_err() {
                return true;
            }
            i = i + 1;
        }
        false
    }

    /// The width that right-aligns every number of the report: the decimal
    /// width of the largest byte count among the successful outcomes, and
    /// at least one even when there is none or all counts are zero.
    pub fn field_width(&self) -> (r: usize)
        ensures
            r as nat == digits::dec_width(max_bytes(ok_stats(self.data@)) as int),
    {
        let ghost s = self.data@;
        let n = self.data.len();
        let mut w: usize = 1;
        let mut i: usize = 0;
        proof {
            assert(s.take(0int) =~= Seq::<Report>::empty());
        }
        while i < n
            invariant
                i <= n,
                n == s.len(),
                s == self.data@,
                w as nat == digits::dec_width(max_bytes(ok_stats(s.take(i as int))) as int),
            decreases n - i,
        {
            proof {
                lemma_ok_stats_step(s, i as int);
            }
            let rep = &self.data[i];
            match &rep.result {
                Ok(c) => {
                    let fw = c.max_field_width();
                    proof {
                        let a = ok_stats(s.take(i as int));
                        let b = a + seq![*c];
                        assert(b.drop_last() =~= a);
                        assert(b.last() == *c);
                        if c.bytes as nat > max_bytes(a) {
                            digits::lemma_dec_width_mono(max_bytes(a) as int, c.bytes as int);
                        } else {
                            digits::lemma_dec_width_mono(c.bytes as int, max_bytes(a) as int);
                        }
                    }
                    if fw > w {
                        w = fw;
                    }
                },
                Err(_) => {
                    proof {
                        let a = ok_stats(s.take(i as int));
                        assert(a + Seq::<WcCount>::empty() =~= a);
                    }
                },
            }
            i = i + 1;
        }
        proof {
            assert(s.take(n as int) =~= s);
        }
        w
    }

    /// The statistics of the successful outcomes, in arrival order.
    pub fn results_ok(&self) -> (r: Vec<WcCount>)
        ensures
            r@ == ok_stats(self.data@),
    {
        let ghost s = self.data@;
        let n = self.data.len();
        let mut out: Vec<WcCount> = Vec::new();
        let mut i: usize = 0;
        proof {
            assert(s.take(0int) =~= Seq::<Report>::empty());
        }
        while i < n
            invariant
                i <= n,
                n == s.len(),
                s == self.data@,
                out@ == ok_stats(s.take(i as int)),
            decreases n - i,
        {
            proof {
                lemma_ok_stats_step(s, i as int);
            }
            let rep = &self.data[i];
            match &rep.result {
                Ok(c) => {
                    out.push(*c);
                    proof {
                        let a = ok_stats(s.take(i as int));
                        assert(a.push(*c) =~= a + seq![*c]);
                    }
                },
                Err(_) => {
                    proof {
                        let a = ok_stats(s.take(i as int));
                        assert(a + Seq::<WcCount>::empty() =~= a);
                    }
                },
            }
            i = i + 1;
        }
        proof {
            assert(s.take(n as int) =~= s);
        }
        out
    }

    /// The outcomes themselves, in arrival order.
    pub fn iter(&self) -> (r: &Vec<Report>)
        ensures
            r@ == self.data@,
    {
        &self.data
    }

    /// Appends one outcome at the end.
    pub fn push(&mut self, value: Report)
        ensures
            final(self).data@ == old(self).data@.push(value),
    {
        self.data.push(value);
    }

    /// How many outcomes the run holds so far.
    pub fn len(&self) -> (r: usize)
        ensures
            r == self.data@.len(),
    {
        self.data.len()
    }

    /// Appends the total row when more than one source was processed, and
    /// only then: its name is `total` and its counts are the field-wise
    /// sums of the successful outcomes.  Returns false, changing nothing,
    /// only when a sum would not fit in `usize`.
    pub fn append_total(&mut self) -> (ok: bool)
        ensures
            old(self).data@.len() <= 1 ==> ok && final(self).data@ == old(self).data@,
            old(self).data@.len() > 1 && total_fits(ok_stats(old(self).data@)) ==> {
                &&& ok
                &&& final(self).data@.len() == old(self).data@.len() + 1
                &&& final(self).data@.drop_last() == old(self).data@
                &&& final(self).data@.last().name@ == "total"@
                &&& final(self).data@.last().result == Ok::<WcCount, Error>(total_stat(
                    ok_stats(old(self).data@),
                ))
            },
            old(self).data@.len() > 1 && !total_fits(ok_stats(old(self).data@)) ==> {
                &&& !ok
                &&& final(self).data@ == old(self).data@
            },
    {
        if self.data.len() <= 1 {
            return true;
        }
        let ghost s = self.data@;
        let n = self.data.len();
        let mut total = WcCount::empty();
        let mut i: usize = 0;
        proof {
            assert(s.take(0int) =~= Seq::<Report>::empty());
        }
        while i < n
            invariant
                i <= n,
                n == s.len(),
                s == self.data@,
                s == old(self).data@,
                total_fits(ok_stats(s.take(i as int))),
                total == total_stat(ok_stats(s.take(i as int))),
            decreases n - i,
        {
            proof {
                lemma_ok_stats_step(s, i as int);
            }
            let rep = &self.data[i];
            match &rep.result {
                Ok(c) => {
                    proof {
                        let a = ok_stats(s.take(i as int));
                        let b = a + seq![*c];
                        lemma_sums_nonneg(a);
                        assert(b.drop_last() =~= a);
                        assert(b.last() == *c);
                        assert(sum_lines(b) == sum_lines(a) + c.lines);
                        assert(sum_words(b) == sum_words(a) + c.words);
                        assert(sum_chars(b) == sum_chars(a) + c.chars);
                        assert(sum_bytes(b) == sum_bytes(a) + c.bytes);
                    }
                    let lines = total.lines.checked_add(c.lines);
                    let words = total.words.checked_add(c.words);
                    let chars = total.chars.checked_add(c.chars);
                    let bytes = total.bytes.checked_add(c.bytes);
                    if lines.is_none() || words.is_none() || chars.is_none() || bytes.is_none() {
                        proof {
                            lemma_ok_sums_prefix(s, i as int + 1);
                        }
                        return false;
                    }
                    total = WcCount {
                        lines: lines.unwrap(),
                        words: words.unwrap(),
                        chars: chars.unwrap(),
                        bytes: bytes.unwrap(),
                    };
                },
                Err(_) => {
                    proof {
                        let a = ok_stats(s.take(i as int));
                        assert(a + Seq::<WcCount>::empty() =~= a);
                    }
                },
            }
            i = i + 1;
        }
        proof {
            assert(s.take(n as int) =~= s);
        }
        let name = "total".to_owned();
        self.data.push(Report { name, result: Ok(total) });
        proof {
            assert(self.data@.drop_last() =~= s);
        }
        true
    }
}

} // verus!
