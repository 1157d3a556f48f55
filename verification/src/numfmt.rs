//! Decimal formatting of the integer tick values shown on the y-axis.

use vstd::prelude::*;

use crate::graph_canvas::push_char;

verus! {

/// The decimal digit character for `d`.
pub open spec fn digit_char(d: int) -> char {
    if d == 0 {
        '0'
    } else if d == 1 {
        '1'
    } else if d == 2 {
        '2'
    } else if d == 3 {
        '3'
    } else if d == 4 {
        '4'
    } else if d == 5 {
        '5'
    } else if d == 6 {
        '6'
    } else if d == 7 {
        '7'
    } else if d == 8 {
        '8'
    } else {
        '9'
    }
}

/// The decimal digits of a natural number, most significant first, with no
/// leading zeros (`0` itself is the single digit `0`).
pub open spec fn dec_chars(n: nat) -> Seq<char>
    decreases n,
{
    if n < 10 {
        seq![digit_char(n as int)]
    } else {
        dec_chars(n / 10) + seq![digit_char((n % 10) as int)]
    }
}

/// The decimal notation of an integer: its digits, preceded by `-` when it is
/// negative.
pub open spec fn int_chars(v: int) -> Seq<char> {
    if v < 0 {
        seq!['-'] + dec_chars((-v) as nat)
    } else {
        dec_chars(v as nat)
    }
}

/// A sequence of characters reversed.
pub open spec fn rev_chars(s: Seq<char>) -> Seq<char>
    decreases s.len(),
{
    if s.len() == 0 {
        Seq::empty()
    } else {
        seq![s.last()] + rev_chars(s.drop_last())
    }
}

fn digit_char_exec(d: u64) -> (c: char)
    requires
        d < 10,
    ensures
        c == digit_char(d as int),
{
    match d {
        0 => '0',
        1 => '1',
        2 => '2',
        3 => '3',
        4 => '4',
        5 => '5',
        6 => '6',
        7 => '7',
        8 => '8',
        _ => '9',
    }
}

/// Reversing after appending a character prepends it.
proof fn lemma_rev_push(s: Seq<char>, c: char)
    ensures
        rev_chars(s.push(c)) == seq![c] + rev_chars(s),
{
    assert(s.push(c).last() == c);
    assert(s.push(c).drop_last() =~= s);
    assert(rev_chars(s.push(c)) =~= seq![c] + rev_chars(s));
}

/// Append the decimal digits of `n` to `out`.
fn push_u64(out: &mut String, n: u64)
    ensures
        final(out)@ == old(out)@ + dec_chars(n as nat),
{
    let mut digits: Vec<char> = Vec::new();
    let mut m: u64 = n;
    let d0 = digit_char_exec(m % 10);
    digits.push(d0);
    proof {
        lemma_rev_push(Seq::<char>::empty(), d0);
        assert(rev_chars(digits@) =~= seq![digit_char((n % 10) as int)]);
    }
    m = m / 10;
    while m > 0
        invariant
            dec_chars(n as nat) == (if m == 0 {
                rev_chars(digits@)
            } else {
                dec_chars(m as nat) + rev_chars(digits@)
            }),
        decreases m,
    {
        let ghost m0 = m as nat;
        let ghost pre = digits@;
        let d = digit_char_exec(m % 10);
        digits.push(d);
        m = m / 10;
        proof {
            lemma_rev_push(pre, d);
            if m == 0 {
                assert(dec_chars(m0) == seq![digit_char((m0 % 10) as int)]);
                assert(dec_chars(n as nat) =~= rev_chars(digits@));
            } else {
                assert(dec_chars(m0) == dec_chars(m0 / 10) + seq![digit_char((m0 % 10) as int)]);
                assert(dec_chars(n as nat) =~= dec_chars(m as nat) + rev_chars(digits@));
            }
        }
    }
    let ghost base = out@;
    while digits.len() > 0
        invariant
            out@ + rev_chars(digits@) == base + dec_chars(n as nat),
        decreases digits.len(),
    {
        let ghost pre = digits@;
        let d = match digits.pop() {
            Some(d) => d,
            None => ' ',
        };
        proof {
            assert(pre.last() == d);
            assert(pre.drop_last() =~= digits@);
            assert(rev_chars(pre) == seq![d] + rev_chars(digits@));
        }
        push_char(out, d);
        proof {
            assert(out@ + rev_chars(digits@) =~= base + dec_chars(n as nat));
        }
    }
    proof {
        assert(out@ =~= out@ + rev_chars(digits@));
    }
}

/// Format an integer in decimal notation, matching [`int_chars`].
pub fn fmt_i64(v: i64) -> (out: String)
    ensures
        out@ == int_chars(v as int),
{
    let mut out = String::new();
    if v >= 0 {
        push_u64(&mut out, v as u64);
        proof {
            assert(Seq::<char>::empty() + dec_chars(v as nat) =~= dec_chars(v as nat));
        }
    } else {
        push_char(&mut out, '-');
        let mag128: i128 = -(v as i128);
        let mag: u64 = mag128 as u64;
        assert(mag as int == -(v as int));
        push_u64(&mut out, mag);
        proof {
            assert(Seq::<char>::empty().push('-') + dec_chars(mag as nat) =~= seq!['-']
                + dec_chars((-(v as int)) as nat));
        }
    }
    out
}

} // verus!
