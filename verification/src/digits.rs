//! Decimal rendering of counts: the digit string of a number, its width,
//! and right-alignment inside a column.
use vstd::prelude::*;

verus! {

/// The digit character for a value below ten.
pub open spec fn digit_char(d: int) -> char {
    if d == 0 {
        '0'
    } else if d == 1 {
        '1'
    } else if d == 2 {
        '2'
    } else if d == 3 {
        '3'
    } else if d == 4 {
        '4'
    } else if d == 5 {
        '5'
    } else if d == 6 {
        '6'
    } else if d == 7 {
        '7'
    } else if d == 8 {
        '8'
    } else {
        '9'
    }
}

/// The decimal digit string of `n`, most significant digit first.
pub open spec fn dec_rep(n: int) -> Seq<char>
    decreases n,
{
    if n < 10 {
        seq![digit_char(n)]
    } else {
        dec_rep(n / 10).push(digit_char(n % 10))
    }
}

/// How many decimal digits `n` takes; one for zero.
pub open spec fn dec_width(n: int) -> nat {
    dec_rep(n).len()
}

/// `n` space characters, none for a non-positive count.
pub open spec fn spaces(n: int) -> Seq<char> {
    if n <= 0 {
        Seq::empty()
    } else {
        Seq::new(n as nat, |i: int| ' ')
    }
}

/// The digits of `n` right-aligned in a column of `width` characters;
/// a number wider than the column keeps all its digits.
pub open spec fn padded_dec(n: int, width: int) -> Seq<char> {
    spaces(width - dec_width(n)) + dec_rep(n)
}

/// A name left-aligned in a column of `width` characters.
pub open spec fn padded_name(name: Seq<char>, width: int) -> Seq<char> {
    name + spaces(width - name.len())
}

pub proof fn lemma_dec_width_at_least_one(n: int)
    ensures
        dec_width(n) >= 1,
    decreases n,
{
    if n >= 10 {
        lemma_dec_width_at_least_one(n / 10);
    }
}

pub proof fn lemma_dec_width_le(n: int)
    requires
        n >= 1,
    ensures
        dec_width(n) <= n,
    decreases n,
{
    if n >= 10 {
        lemma_dec_width_le(n / 10);
    }
}

pub proof fn lemma_dec_width_mono(a: int, b: int)
    requires
        0 <= a <= b,
    ensures
        dec_width(a) <= dec_width(b),
    decreases b,
{
    if b >= 10 {
        if a >= 10 {
            lemma_dec_width_mono(a / 10, b / 10);
        } else {
            lemma_dec_width_at_least_one(b / 10);
        }
    }
}

/// Appends `n` space characters to `out`.
pub(crate) fn append_spaces(out: &mut String, n: usize)
    ensures
        final(out)@ == old(out)@ + spaces(n as int),
{
    proof {
        assert(old(out)@ + spaces(0int) =~= old(out)@);
    }
    let mut i: usize = 0;
    while i < n
        invariant
            i <= n,
            out@ == old(out)@ + spaces(i as int),
        decreases n - i,
    {
        out.append(" ");
        proof {
            reveal_strlit(" ");
            assert(old(out)@ + spaces(i as int) + " "@ =~= old(out)@ + spaces(i as int + 1));
        }
        i = i + 1;
    }
}

/// Appends the digit character of `d` to `out`.
fn append_digit(out: &mut String, d: usize)
    requires
        d < 10,
    ensures
        final(out)@ == old(out)@.push(digit_char(d as int)),
{
    if d == 0 {
        out.append("0");
        proof {
            reveal_strlit("0");
        }
    } else if d == 1 {
        out.append("1");
        proof {
            reveal_strlit("1");
        }
    } else if d == 2 {
        out.append("2");
        proof {
            reveal_strlit("2");
        }
    } else if d == 3 {
        out.append("3");
        proof {
            reveal_strlit("3");
        }
    } else if d == 4 {
        out.append("4");
        proof {
            reveal_strlit("4");
        }
    } else if d == 5 {
        out.append("5");
        proof {
            reveal_strlit("5");
        }
    } else if d == 6 {
        out.append("6");
        proof {
            reveal_strlit("6");
        }
    } else if d == 7 {
        out.append("7");
        proof {
            reveal_strlit("7");
        }
    } else if d == 8 {
        out.append("8");
        proof {
            reveal_strlit("8");
        }
    } else {
        out.append("9");
        proof {
            reveal_strlit("9");
        }
    }
    proof {
        assert(out@ =~= old(out)@.push(digit_char(d as int)));
    }
}

/// Appends the decimal digits of `n` to `out`, most significant first.
pub(crate) fn append_number(out: &mut String, n: usize)
    ensures
        final(out)@ == old(out)@ + dec_rep(n as int),
    decreases n,
{
    if n >= 10 {
        append_number(out, n / 10);
        append_digit(out, n % 10);
        proof {
            assert(out@ =~= old(out)@ + dec_rep(n as int));
        }
    } else {
        append_digit(out, n);
        proof {
            assert(out@ =~= old(out)@ + dec_rep(n as int));
        }
    }
}

/// Appends the digits of `n` right-aligned in a column of `width`
/// characters to `out`.
pub(crate) fn append_padded(out: &mut String, n: usize, width: usize)
    ensures
        final(out)@ == old(out)@ + padded_dec(n as int, width as int),
{
    let dw = decimal_width(n);
    if width > dw {
        append_spaces(out, width - dw);
    }
    append_number(out, n);
    proof {
        assert(out@ =~= old(out)@ + padded_dec(n as int, width as int));
    }
}

/// The number of decimal digits of `n`: what `n` takes to print.
pub(crate) fn decimal_width(n: usize) -> (r: usize)
    ensures
        r as nat == dec_width(n as int),
{
    let mut w: usize = 1;
    let mut m: usize = n;
    proof {
        lemma_dec_width_at_least_one(n as int);
        if n >= 1 {
            lemma_dec_width_le(n as int);
        }
    }
    while m >= 10
        invariant
            w >= 1,
            w + dec_width(m as int) == 1 + dec_width(n as int),
            dec_width(n as int) <= usize::MAX,
            m <= n,
        decreases m,
    {
        proof {
            lemma_dec_width_at_least_one(m as int / 10);
        }
        m = m / 10;
        w = w + 1;
    }
    w
}

} // verus!
