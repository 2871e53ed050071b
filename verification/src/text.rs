//! Decimal numbers and byte ranges as text, the way error messages show them.

use std::ops::Range;

use vstd::prelude::*;
use vstd::string::StringExecFns;

verus! {

/// The character of the decimal digit `d`.
pub open spec fn digit(d: nat) -> char {
    (48 + d) as char
}

/// `n` in decimal, without leading zeros.
pub open spec fn decimal(n: nat) -> Seq<char>
    decreases n,
{
    if n < 10 {
        seq![digit(n)]
    } else {
        decimal(n / 10).push(digit(n % 10))
    }
}

/// A byte range as `start..end`.
pub open spec fn range_text(r: Range<u64>) -> Seq<char> {
    decimal(r.start as nat) + ".."@ + decimal(r.end as nat)
}

/// The ranges of `rs`, separated by a comma and a space.
pub open spec fn joined_text(rs: Seq<Range<u64>>) -> Seq<char>
    decreases rs.len(),
{
    if rs.len() == 0 {
        Seq::empty()
    } else if rs.len() == 1 {
        range_text(rs[0])
    } else {
        joined_text(rs.drop_last()) + ", "@ + range_text(rs.last())
    }
}

/// The ranges of `rs` as a bracketed list.
pub open spec fn ranges_text(rs: Seq<Range<u64>>) -> Seq<char> {
    "["@ + joined_text(rs) + "]"@
}

fn digit_str(d: u64) -> (s: &'static str)
    requires
        d < 10,
    ensures
        s@ == seq![digit(d as nat)],
{
    proof {
        reveal_strlit("0");
        reveal_strlit("1");
        reveal_strlit("2");
        reveal_strlit("3");
        reveal_strlit("4");
        reveal_strlit("5");
        reveal_strlit("6");
        reveal_strlit("7");
        reveal_strlit("8");
        reveal_strlit("9");
    }
    match d {
        0 => "0",
        1 => "1",
        2 => "2",
        3 => "3",
        4 => "4",
        5 => "5",
        6 => "6",
        7 => "7",
        8 => "8",
        _ => "9",
    }
}

/// Appends `n` in decimal.
pub fn push_decimal(out: &mut String, n: u64)
    ensures
        final(out)@ == old(out)@ + decimal(n as nat),
    decreases n,
{
    if n < 10 {
        out.append(digit_str(n));
    } else {
        push_decimal(out, n / 10);
        out.append(digit_str(n % 10));
        assert(decimal(n as nat) == decimal((n / 10) as nat).push(digit((n % 10) as nat)));
    }
}

/// Appends a byte range as `start..end`.
pub fn push_range(out: &mut String, r: &Range<u64>)
    ensures
        final(out)@ == old(out)@ + range_text(*r),
        final(out)@ == old(out)@ + decimal(r.start as nat) + ".."@ + decimal(r.end as nat),
{
    push_decimal(out, r.start);
    out.append("..");
    push_decimal(out, r.end);
}

/// Appends a bracketed list of byte ranges.
pub fn push_ranges(out: &mut String, rs: &[Range<u64>])
    ensures
        final(out)@ == old(out)@ + ranges_text(rs@),
{
    out.append("[");
    let ghost start: Seq<char> = out@;
    let mut i: usize = 0;
    while i < rs.len()
        invariant
            i <= rs.len(),
            out@ == start + joined_text(rs@.take(i as int)),
        decreases rs.len() - i,
    {
        assert(rs@.take(i + 1).drop_last() == rs@.take(i as int));
        if i > 0 {
            out.append(", ");
        }
        push_range(out, &rs[i]);
        i += 1;
    }
    assert(rs@.take(rs.len() as int) == rs@);
    out.append("]");
}

/// A number below ten is written as its digit, and one more digit is written behind those of a
/// number that is not zero.
pub proof fn law_decimal_digits(n: nat, d: nat)
    requires
        d < 10,
    ensures
        decimal(d) == seq![('0' as nat + d) as char],
        n > 0 ==> decimal(10 * n + d) == decimal(n).push(('0' as nat + d) as char),
{
    if n > 0 {
        assert((10 * n + d) / 10 == n && (10 * n + d) % 10 == d);
    }
}

/// Different numbers are written differently.
pub proof fn law_decimal_is_faithful(a: nat, b: nat)
    requires
        decimal(a) == decimal(b),
    ensures
        a == b,
    decreases a,
{
    if a < 10 && b < 10 {
        assert(decimal(a)[0] == digit(a) && decimal(b)[0] == digit(b));
    } else if a >= 10 && b >= 10 {
        let x = decimal(a / 10).push(digit(a % 10));
        let y = decimal(b / 10).push(digit(b % 10));
        assert(x.drop_last() == decimal(a / 10) && y.drop_last() == decimal(b / 10));
        assert(x.last() == digit(a % 10) && y.last() == digit(b % 10));
        law_decimal_is_faithful(a / 10, b / 10);
    } else {
        lemma_decimal_len(a);
        lemma_decimal_len(b);
    }
}

proof fn lemma_decimal_len(n: nat)
    ensures
        decimal(n).len() >= 1,
        n >= 10 ==> decimal(n).len() >= 2,
    decreases n,
{
    if n >= 10 {
        lemma_decimal_len(n / 10);
    }
}

/// A range is written as its two ends with two dots between them.
pub proof fn law_range_shows_its_ends(r: Range<u64>)
    ensures
        range_text(r) == decimal(r.start as nat) + ".."@ + decimal(r.end as nat),
{
}

/// A list of ranges is written in brackets. One more range is written before the closing
/// bracket, behind a comma and a space where it is not the first.
pub proof fn law_list_shows_its_ranges(rs: Seq<Range<u64>>, r: Range<u64>)
    ensures
        ranges_text(Seq::empty()) == "["@ + "]"@,
        ranges_text(rs.push(r)) == (if rs.len() == 0 {
            "["@
        } else {
            ranges_text(rs).drop_last() + ", "@
        }) + decimal(r.start as nat) + ".."@ + decimal(r.end as nat) + "]"@,
{
    reveal_strlit("[");
    reveal_strlit("]");
    assert(rs.push(r).drop_last() == rs);
    assert(ranges_text(Seq::empty()) =~= "["@ + "]"@);
    if rs.len() == 0 {
        assert(rs.push(r)[0] == r);
    } else {
        assert(ranges_text(rs).drop_last() =~= "["@ + joined_text(rs));
    }
}

} // verus!
