//! Human-readable category names. The intervals cut by the decision limits
//! `b0 < b1 < ...` are named `<b0`, `≥b0 and <b1`, ..., `≥bn`, with each
//! limit printed as a plain decimal (fixed-point value, trailing fractional
//! zeros trimmed).

use vstd::prelude::*;
use vstd::string::StringExecFns;

verus! {

/// The decimal digit character for `d`.
pub open spec fn digit_char(d: int) -> char {
    if d == 0 { '0' }
    else if d == 1 { '1' }
    else if d == 2 { '2' }
    else if d == 3 { '3' }
    else if d == 4 { '4' }
    else if d == 5 { '5' }
    else if d == 6 { '6' }
    else if d == 7 { '7' }
    else if d == 8 { '8' }
    else { '9' }
}

/// Decimal digits of `v`, most significant first.
pub open spec fn dec_chars(v: int) -> Seq<char>
    decreases v,
{
    if v < 10 {
        seq![digit_char(v)]
    } else {
        dec_chars(v / 10) + seq![digit_char(v % 10)]
    }
}

/// The last `k` decimal digits of `v`, zero-padded to width `k`.
pub open spec fn padded_chars(v: int, k: nat) -> Seq<char>
    decreases k,
{
    if k == 0 {
        Seq::empty()
    } else {
        padded_chars(v / 10, (k - 1) as nat) + seq![digit_char(v % 10)]
    }
}

/// The `k`-digit fractional part of `v` with trailing zeros trimmed.
pub open spec fn frac_chars(v: int, k: nat) -> Seq<char>
    decreases k,
{
    if k == 0 {
        Seq::empty()
    } else if v % 10 == 0 {
        frac_chars(v / 10, (k - 1) as nat)
    } else {
        padded_chars(v, k)
    }
}

/// Decimal rendering of the fixed-point value `v`: optional minus sign,
/// integer part, and the nonzero fractional part after a point.
pub open spec fn fixed_chars(v: int) -> Seq<char> {
    let a = if v >= 0 { v } else { -v };
    let sign: Seq<char> = if v < 0 { seq!['-'] } else { Seq::empty() };
    let frac = a % 1_000_000;
    sign + dec_chars(a / 1_000_000)
        + if frac == 0 { Seq::<char>::empty() } else { seq!['.'] + frac_chars(frac, 6) }
}

/// The name of category `i` among the intervals cut by `cdls`.
pub open spec fn spec_name(cdls: Seq<i64>, i: int) -> Seq<char> {
    if i == 0 {
        seq!['<'] + fixed_chars(cdls[0] as int)
    } else if i == cdls.len() {
        seq!['≥'] + fixed_chars(cdls[cdls.len() - 1] as int)
    } else {
        seq!['≥'] + fixed_chars(cdls[i - 1] as int) + seq![' ', 'a', 'n', 'd', ' ', '<']
            + fixed_chars(cdls[i] as int)
    }
}

fn push_digit(s: &mut String, d: u64)
    requires
        d < 10,
    ensures
        final(s)@ == old(s)@ + seq![digit_char(d as int)],
{
    if d == 0 {
        proof { reveal_strlit("0"); }
        s.append("0");
        proof { assert(s@ =~= old(s)@ + seq![digit_char(d as int)]); }
    } else if d == 1 {
        proof { reveal_strlit("1"); }
        s.append("1");
        proof { assert(s@ =~= old(s)@ + seq![digit_char(d as int)]); }
    } else if d == 2 {
        proof { reveal_strlit("2"); }
        s.append("2");
        proof { assert(s@ =~= old(s)@ + seq![digit_char(d as int)]); }
    } else if d == 3 {
        proof { reveal_strlit("3"); }
        s.append("3");
        proof { assert(s@ =~= old(s)@ + seq![digit_char(d as int)]); }
    } else if d == 4 {
        proof { reveal_strlit("4"); }
        s.append("4");
        proof { assert(s@ =~= old(s)@ + seq![digit_char(d as int)]); }
    } else if d == 5 {
        proof { reveal_strlit("5"); }
        s.append("5");
        proof { assert(s@ =~= old(s)@ + seq![digit_char(d as int)]); }
    } else if d == 6 {
        proof { reveal_strlit("6"); }
        s.append("6");
        proof { assert(s@ =~= old(s)@ + seq![digit_char(d as int)]); }
    } else if d == 7 {
        proof { reveal_strlit("7"); }
        s.append("7");
        proof { assert(s@ =~= old(s)@ + seq![digit_char(d as int)]); }
    } else if d == 8 {
        proof { reveal_strlit("8"); }
        s.append("8");
        proof { assert(s@ =~= old(s)@ + seq![digit_char(d as int)]); }
    } else {
        proof { reveal_strlit("9"); }
        s.append("9");
        proof { assert(s@ =~= old(s)@ + seq![digit_char(d as int)]); }
    }
}

fn push_dec(s: &mut String, v: u64)
    ensures
        final(s)@ == old(s)@ + dec_chars(v as int),
    decreases v,
{
    if v >= 10 {
        push_dec(s, v / 10);
        push_digit(s, v % 10);
        proof {
            assert(s@ =~= old(s)@ + dec_chars(v as int));
        }
    } else {
        push_digit(s, v);
    }
}

fn push_padded(s: &mut String, v: u64, k: u32)
    ensures
        final(s)@ == old(s)@ + padded_chars(v as int, k as nat),
    decreases k,
{
    if k > 0 {
        push_padded(s, v / 10, k - 1);
        push_digit(s, v % 10);
        proof {
            assert(s@ =~= old(s)@ + padded_chars(v as int, k as nat));
        }
    } else {
        proof {
            assert(s@ =~= old(s)@ + padded_chars(v as int, 0));
        }
    }
}

fn push_frac(s: &mut String, v: u64, k: u32)
    ensures
        final(s)@ == old(s)@ + frac_chars(v as int, k as nat),
    decreases k,
{
    if k == 0 {
        proof {
            assert(s@ =~= old(s)@ + frac_chars(v as int, 0));
        }
    } else if v % 10 == 0 {
        push_frac(s, v / 10, k - 1);
    } else {
        push_padded(s, v, k);
    }
}

/// Renders a fixed-point value as a plain decimal string.
pub fn fixed_to_string(v: i64) -> (r: String)
    requires
        -crate::fixed::VAL_MAX <= v <= crate::fixed::VAL_MAX,
    ensures
        r@ == fixed_chars(v as int),
{
    let mut s = String::new();
    let a: u64;
    if v < 0 {
        proof { reveal_strlit("-"); }
        s.append("-");
        proof { assert(s@ =~= seq!['-']); }
        a = (-v) as u64;
    } else {
        a = v as u64;
    }
    push_dec(&mut s, a / 1_000_000);
    let frac = a % 1_000_000;
    if frac > 0 {
        proof { reveal_strlit("."); }
        s.append(".");
        push_frac(&mut s, frac, 6);
        proof {
            assert(s@ =~= fixed_chars(v as int));
        }
    } else {
        proof {
            assert(s@ =~= fixed_chars(v as int));
        }
    }
    s
}

/// Builds the category names for the intervals cut by the decision limits:
/// `<b0`, then `≥b(i-1) and <b(i)` for each middle interval, then `≥bn`.
/// There is always exactly one more name than there are limits.
pub fn build_names(cdls: &Vec<i64>) -> (names: Vec<String>)
    requires
        cdls@.len() >= 1,
        forall|k: int| 0 <= k < cdls@.len() ==>
            -crate::fixed::VAL_MAX <= #[trigger] cdls@[k] <= crate::fixed::VAL_MAX,
    ensures
        names@.len() == cdls@.len() + 1,
        forall|i: int| 0 <= i < names@.len() ==> names@[i]@ == spec_name(cdls@, i),
{
    let mut names: Vec<String> = Vec::new();
    let mut first = String::new();
    proof { reveal_strlit("<"); }
    first.append("<");
    let s0 = fixed_to_string(cdls[0]);
    first.append(s0.as_str());
    proof {
        assert(first@ =~= spec_name(cdls@, 0));
    }
    names.push(first);
    let mut i: usize = 1;
    while i < cdls.len()
        invariant
            1 <= i <= cdls@.len(),
            cdls@.len() >= 1,
            forall|k: int| 0 <= k < cdls@.len() ==>
                -crate::fixed::VAL_MAX <= #[trigger] cdls@[k] <= crate::fixed::VAL_MAX,
            names@.len() == i,
            forall|j: int| 0 <= j < i ==> names@[j]@ == spec_name(cdls@, j),
        decreases cdls@.len() - i,
    {
        let mut mid = String::new();
        proof { reveal_strlit("≥"); }
        mid.append("≥");
        let sa = fixed_to_string(cdls[i - 1]);
        mid.append(sa.as_str());
        proof { reveal_strlit(" and <"); }
        mid.append(" and <");
        let sb = fixed_to_string(cdls[i]);
        mid.append(sb.as_str());
        proof {
            assert(" and <"@ =~= seq![' ', 'a', 'n', 'd', ' ', '<']);
            assert(mid@ =~= spec_name(cdls@, i as int));
        }
        names.push(mid);
        i = i + 1;
    }
    let mut last = String::new();
    proof { reveal_strlit("≥"); }
    last.append("≥");
    let sl = fixed_to_string(cdls[cdls.len() - 1]);
    last.append(sl.as_str());
    proof {
        assert(last@ =~= spec_name(cdls@, cdls@.len() as int));
    }
    names.push(last);
    names
}

} // verus!
