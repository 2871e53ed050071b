//! Merging of byte ranges that are close to each other.
//!
//! One read of a larger range is cheaper than two reads with a seek between them, as long as
//! few bytes are read in vain and no single read grows too large.

use std::ops::Range;

use vstd::prelude::*;
use vstd::relations::sorted_by;
use vstd::relations::total_ordering;

verus! {

/// The range does not end before it starts.
pub open spec fn is_range(r: Range<u64>) -> bool {
    r.start <= r.end
}

/// Every one of the ranges is a range.
pub open spec fn are_ranges(rs: Seq<Range<u64>>) -> bool {
    forall|i: int| 0 <= i < rs.len() ==> is_range(#[trigger] rs[i])
}

/// `inner` lies within `outer`.
pub open spec fn covers(outer: Range<u64>, inner: Range<u64>) -> bool {
    outer.start <= inner.start && inner.end <= outer.end
}

/// Byte `p` lies in the range.
pub open spec fn holds_byte(r: Range<u64>, p: int) -> bool {
    r.start <= p < r.end
}

/// The order in which ranges are merged: by start, then by end.
pub open spec fn precedes(a: Range<u64>, b: Range<u64>) -> bool {
    a.start < b.start || (a.start == b.start && a.end <= b.end)
}

/// `precedes` as a relation.
pub open spec fn range_order() -> spec_fn(Range<u64>, Range<u64>) -> bool {
    |a: Range<u64>, b: Range<u64>| precedes(a, b)
}

/// The ranges of `rs` in order.
pub open spec fn in_order(rs: Seq<Range<u64>>) -> Seq<Range<u64>> {
    rs.sort_by(range_order())
}

/// Whether `next` is read together with `last`, the request before it: `last` is not larger
/// than `max_size`, and the distance from its end to `next` is less than `max_gap`. The
/// distance is negative where the two overlap.
pub open spec fn joins(last: Range<u64>, next: Range<u64>, max_gap: u64, max_size: u64) -> bool {
    last.end - last.start <= max_size && next.start - last.end < max_gap
}

/// The range that contains both `last` and `next`, where `next` does not start before `last`.
pub open spec fn joined(last: Range<u64>, next: Range<u64>) -> Range<u64> {
    Range { start: last.start, end: if last.end < next.end { next.end } else { last.end } }
}

/// The requests `done` after `next` has been added to them.
pub open spec fn add_request(
    done: Seq<Range<u64>>,
    next: Range<u64>,
    max_gap: u64,
    max_size: u64,
) -> Seq<Range<u64>> {
    if done.len() > 0 && joins(done.last(), next, max_gap, max_size) {
        done.drop_last().push(joined(done.last(), next))
    } else {
        done.push(next)
    }
}

/// The requests that result from adding the ranges of `rs` one after the other.
pub open spec fn merge_in_order(rs: Seq<Range<u64>>, max_gap: u64, max_size: u64) -> Seq<
    Range<u64>,
>
    decreases rs.len(),
{
    if rs.len() == 0 {
        Seq::empty()
    } else {
        add_request(
            merge_in_order(rs.drop_last(), max_gap, max_size),
            rs.last(),
            max_gap,
            max_size,
        )
    }
}

/// The requests that are read for the ranges `raw`.
pub open spec fn merged(raw: Seq<Range<u64>>, max_gap: u64, max_size: u64) -> Seq<Range<u64>> {
    merge_in_order(in_order(raw), max_gap, max_size)
}

/// `i` is the position of the first range in `rs` that covers `r`.
pub open spec fn is_first_cover(rs: Seq<Range<u64>>, r: Range<u64>, i: int) -> bool {
    &&& 0 <= i < rs.len()
    &&& covers(rs[i], r)
    &&& forall|j: int| 0 <= j < i ==> !covers(#[trigger] rs[j], r)
}

/// Some range in `rs` covers `r`.
pub open spec fn is_covered(rs: Seq<Range<u64>>, r: Range<u64>) -> bool {
    exists|i: int| 0 <= i < rs.len() && covers(#[trigger] rs[i], r)
}

proof fn lemma_range_order_is_total()
    ensures
        total_ordering(range_order()),
{
}

/// Merges two ordered lists into one.
fn merge_two(a: &Vec<Range<u64>>, b: &Vec<Range<u64>>) -> (out: Vec<Range<u64>>)
    requires
        sorted_by(a@, range_order()),
        sorted_by(b@, range_order()),
    ensures
        sorted_by(out@, range_order()),
        out@.to_multiset() == a@.to_multiset().add(b@.to_multiset()),
{
    broadcast use vstd::multiset::group_multiset_axioms;
    broadcast use vstd::seq_lib::group_to_multiset_ensures;

    let mut out: Vec<Range<u64>> = Vec::new();
    let mut i: usize = 0;
    let mut j: usize = 0;
    assert(out@.to_multiset() == a@.take(0).to_multiset().add(b@.take(0).to_multiset()));
    while i < a.len() || j < b.len()
        invariant
            i <= a.len(),
            j <= b.len(),
            sorted_by(a@, range_order()),
            sorted_by(b@, range_order()),
            sorted_by(out@, range_order()),
            forall|k: int, l: int|
                0 <= k < out.len() && i <= l < a.len() ==> precedes(#[trigger] out[k], #[trigger] a[l]),
            forall|k: int, l: int|
                0 <= k < out.len() && j <= l < b.len() ==> precedes(#[trigger] out[k], #[trigger] b[l]),
            out@.to_multiset() == a@.take(i as int).to_multiset().add(
                b@.take(j as int).to_multiset(),
            ),
        decreases a.len() - i + b.len() - j,
    {
        let from_a: bool = if i < a.len() && j < b.len() {
            a[i].start < b[j].start || (a[i].start == b[j].start && a[i].end <= b[j].end)
        } else {
            i < a.len()
        };
        let ghost before: Seq<Range<u64>> = out@;
        if from_a {
            out.push(a[i].start..a[i].end);
            assert(a@.take(i + 1) == a@.take(i as int).push(a[i as int]));
            assert forall|l: int| i <= l < a.len() implies precedes(a[i as int], #[trigger] a[l]) by {
                if l > i {
                    assert(range_order()(a[i as int], a[l]));
                }
            }
            if j < b.len() {
                assert forall|l: int| j <= l < b.len() implies precedes(
                    a[i as int],
                    #[trigger] b[l],
                ) by {
                    if l > j {
                        assert(range_order()(b[j as int], b[l]));
                    }
                }
            }
            proof {
                vstd::seq_lib::to_multiset_build(before, a[i as int]);
                vstd::seq_lib::to_multiset_build(a@.take(i as int), a[i as int]);
                assert(out@ == before.push(a[i as int]));
                assert(out@.to_multiset() =~= a@.take(i + 1).to_multiset().add(
                    b@.take(j as int).to_multiset(),
                ));
            }
            i += 1;
        } else {
            out.push(b[j].start..b[j].end);
            assert(b@.take(j + 1) == b@.take(j as int).push(b[j as int]));
            assert forall|l: int| j <= l < b.len() implies precedes(b[j as int], #[trigger] b[l]) by {
                if l > j {
                    assert(range_order()(b[j as int], b[l]));
                }
            }
            if i < a.len() {
                assert forall|l: int| i <= l < a.len() implies precedes(
                    b[j as int],
                    #[trigger] a[l],
                ) by {
                    if l > i {
                        assert(range_order()(a[i as int], a[l]));
                    }
                }
            }
            proof {
                vstd::seq_lib::to_multiset_build(before, b[j as int]);
                vstd::seq_lib::to_multiset_build(b@.take(j as int), b[j as int]);
                assert(out@ == before.push(b[j as int]));
                assert(out@.to_multiset() =~= a@.take(i as int).to_multiset().add(
                    b@.take(j + 1).to_multiset(),
                ));
            }
            j += 1;
        }
    }
    assert(a@.take(a.len() as int) == a@);
    assert(b@.take(b.len() as int) == b@);
    out
}

/// Puts ranges in order.
fn sort_ranges(ranges: Vec<Range<u64>>) -> (out: Vec<Range<u64>>)
    ensures
        out@ == in_order(ranges@),
    decreases ranges.len(),
{
    let ghost all: Seq<Range<u64>> = ranges@;
    let mut left: Vec<Range<u64>> = ranges;
    let out: Vec<Range<u64>> = if left.len() <= 1 {
        left
    } else {
        let mid: usize = left.len() / 2;
        let right: Vec<Range<u64>> = left.split_off(mid);
        proof {
            lemma_range_order_is_total();
            assert(all == left@ + right@);
            vstd::seq_lib::lemma_multiset_commutative(left@, right@);
            left@.lemma_sort_by_ensures(range_order());
            right@.lemma_sort_by_ensures(range_order());
        }
        let left: Vec<Range<u64>> = sort_ranges(left);
        let right: Vec<Range<u64>> = sort_ranges(right);
        merge_two(&left, &right)
    };
    proof {
        lemma_range_order_is_total();
        all.lemma_sort_by_ensures(range_order());
        vstd::seq_lib::lemma_sorted_unique(out@, in_order(all), range_order());
    }
    out
}

/// The requests that are read for a list of byte ranges.
pub struct RangeMerger {
    ranges: Vec<Range<u64>>,
}

impl View for RangeMerger {
    type V = Seq<Range<u64>>;

    closed spec fn view(&self) -> Seq<Range<u64>> {
        self.ranges@
    }
}

impl RangeMerger {
    /// The requests are in memory, so that a `usize` can count them.
    pub proof fn lemma_requests_are_counted(&self)
        ensures
            self@.len() <= usize::MAX,
    {
        assert(self.ranges.len() == self.ranges@.len());
    }

    /// Merges ranges: in order, a range is read together with the request before it where the
    /// distance between them is less than `max_gap`, unless that request is already larger
    /// than `max_size`.
    pub fn from_iter(ranges: Vec<Range<u64>>, max_gap: u64, max_size: u64) -> (merger: Self)
        requires
            forall|i: int|
                0 <= i < ranges@.len() ==> (#[trigger] ranges@[i]).start <= ranges@[i].end,
        ensures
            merger@ == merged(ranges@, max_gap, max_size),
    {
        let sorted: Vec<Range<u64>> = sort_ranges(ranges);
        let mut done: Vec<Range<u64>> = Vec::new();
        let mut i: usize = 0;
        proof {
            lemma_order_keeps_ranges(ranges@);
        }
        while i < sorted.len()
            invariant
                i <= sorted.len(),
                are_ranges(sorted@),
                sorted_by(sorted@, range_order()),
                are_ranges(done@),
                done@ == merge_in_order(sorted@.take(i as int), max_gap, max_size),
            decreases sorted.len() - i,
        {
            let next: &Range<u64> = &sorted[i];
            assert(sorted@.take(i + 1).drop_last() == sorted@.take(i as int));
            let joins: bool = if done.len() > 0 {
                let last: &Range<u64> = &done[done.len() - 1];
                last.end - last.start <= max_size && (next.start < last.end || next.start
                    - last.end < max_gap)
            } else {
                false
            };
            if joins {
                let at: usize = done.len() - 1;
                let start: u64 = done[at].start;
                let end: u64 = if done[at].end < next.end {
                    next.end
                } else {
                    done[at].end
                };
                done.pop();
                done.push(start..end);
            } else {
                done.push(next.start..next.end);
            }
            i += 1;
        }
        assert(sorted@.take(sorted.len() as int) == sorted@);
        RangeMerger { ranges: done }
    }

    /// The requests, in order.
    pub fn ranges(&self) -> (out: Vec<Range<u64>>)
        ensures
            out@ == self@,
    {
        let mut out: Vec<Range<u64>> = Vec::with_capacity(self.ranges.len());
        let mut i: usize = 0;
        while i < self.ranges.len()
            invariant
                i <= self.ranges.len(),
                out@ == self.ranges@.take(i as int),
            decreases self.ranges.len() - i,
        {
            assert(self.ranges@.take(i + 1) == self.ranges@.take(i as int).push(
                self.ranges[i as int],
            ));
            out.push(self.ranges[i].start..self.ranges[i].end);
            i += 1;
        }
        assert(self.ranges@.take(i as int) == self.ranges@);
        out
    }

    /// The first request that covers `check`, with its position.
    pub fn get(&self, check: Range<u64>) -> (found: Option<(usize, Range<u64>)>)
        ensures
            match found {
                Some((i, r)) => is_first_cover(self@, check, i as int) && r == self@[i as int],
                None => !is_covered(self@, check),
            },
            match found {
                Some((i, r)) => {
                    &&& i < self@.len()
                    &&& r == self@[i as int]
                    &&& r.start <= check.start && check.end <= r.end
                    &&& forall|j: int|
                        0 <= j < i ==> check.start < (#[trigger] self@[j]).start || self@[j].end
                            < check.end
                },
                None => forall|j: int|
                    0 <= j < self@.len() ==> check.start < (#[trigger] self@[j]).start
                        || self@[j].end < check.end,
            },
    {
        let mut i: usize = 0;
        while i < self.ranges.len()
            invariant
                i <= self.ranges.len(),
                forall|j: int| 0 <= j < i ==> !covers(#[trigger] self.ranges@[j], check),
            decreases self.ranges.len() - i,
        {
            let r: &Range<u64> = &self.ranges[i];
            if r.start <= check.start && check.end <= r.end {
                return Some((i, r.start..r.end));
            }
            i += 1;
        }
        None
    }
}

/// Putting ranges in order neither adds nor drops one.
pub proof fn lemma_order_keeps_ranges(raw: Seq<Range<u64>>)
    ensures
        sorted_by(in_order(raw), range_order()),
        in_order(raw).len() == raw.len(),
        forall|r: Range<u64>| in_order(raw).contains(r) <==> raw.contains(r),
        are_ranges(raw) ==> are_ranges(in_order(raw)),
{
    broadcast use vstd::seq_lib::group_to_multiset_ensures;

    lemma_range_order_is_total();
    raw.lemma_sort_by_ensures(range_order());
    assert(in_order(raw).to_multiset().len() == raw.to_multiset().len());
    assert forall|r: Range<u64>| in_order(raw).contains(r) <==> raw.contains(r) by {
        assert(in_order(raw).to_multiset().count(r) == raw.to_multiset().count(r));
    }
    if are_ranges(raw) {
        assert forall|i: int| 0 <= i < in_order(raw).len() implies is_range(
            #[trigger] in_order(raw)[i],
        ) by {
            assert(in_order(raw).contains(in_order(raw)[i]));
        }
    }
}

/// Some range of `raw` starts where `m` starts, within `m`.
pub open spec fn starts_as_asked(raw: Seq<Range<u64>>, m: Range<u64>) -> bool {
    exists|a: Range<u64>| #[trigger] raw.contains(a) && covers(m, a) && a.start == m.start
}

/// Some range of `raw` ends where `m` ends, within `m`, and starts less than
/// `max_size + max_gap` bytes behind the start of `m`, if not there.
pub open spec fn ends_as_asked(
    raw: Seq<Range<u64>>,
    m: Range<u64>,
    max_gap: u64,
    max_size: u64,
) -> bool {
    exists|b: Range<u64>|
        {
            &&& #[trigger] raw.contains(b)
            &&& covers(m, b)
            &&& b.end == m.end
            &&& b.start == m.start || b.start - m.start < max_size + max_gap
        }
}

/// Some range of `raw` holds byte `p`.
pub open spec fn is_asked(raw: Seq<Range<u64>>, p: int) -> bool {
    exists|a: Range<u64>| #[trigger] raw.contains(a) && holds_byte(a, p)
}

/// Byte `p` of `m` lies between two ranges of `raw` in `m` that are less than `max_gap` apart.
pub open spec fn is_in_small_gap(
    raw: Seq<Range<u64>>,
    m: Range<u64>,
    max_gap: u64,
    p: int,
) -> bool {
    exists|a: Range<u64>, b: Range<u64>|
        {
            &&& #[trigger] raw.contains(a)
            &&& #[trigger] raw.contains(b)
            &&& covers(m, a)
            &&& covers(m, b)
            &&& a.end <= p < b.start
            &&& b.start - a.end < max_gap
        }
}

/// The ranges before the last one are in order too.
proof fn lemma_order_of_prefix(rs: Seq<Range<u64>>)
    requires
        sorted_by(rs, range_order()),
        rs.len() > 0,
    ensures
        sorted_by(rs.drop_last(), range_order()),
        rs.len() > 1 ==> rs.drop_last().last().start <= rs.last().start,
{
    let before = rs.drop_last();
    assert forall|i: int, j: int| 0 <= i < j < before.len() implies #[trigger] range_order()(
        before[i],
        before[j],
    ) by {
        assert(range_order()(rs[i], rs[j]));
    }
    if rs.len() > 1 {
        assert(range_order()(rs[rs.len() - 2], rs[rs.len() - 1]));
    }
}

/// A range is among the first ones, or is the last one.
proof fn lemma_contains_of_prefix(rs: Seq<Range<u64>>)
    requires
        rs.len() > 0,
    ensures
        rs.contains(rs.last()),
        forall|r: Range<u64>| #[trigger] rs.drop_last().contains(r) ==> rs.contains(r),
        forall|r: Range<u64>| #[trigger]
            rs.contains(r) ==> rs.drop_last().contains(r) || r == rs.last(),
{
    let before = rs.drop_last();
    assert(rs[rs.len() - 1] == rs.last());
    assert forall|r: Range<u64>| #[trigger] before.contains(r) implies rs.contains(r) by {
        let k = choose|k: int| 0 <= k < before.len() && before[k] == r;
        assert(rs[k] == r);
    }
    assert forall|r: Range<u64>| #[trigger] rs.contains(r) implies before.contains(r) || r
        == rs.last() by {
        let k = choose|k: int| 0 <= k < rs.len() && rs[k] == r;
        if k < before.len() {
            assert(before[k] == r);
        }
    }
}

proof fn lemma_request_count(rs: Seq<Range<u64>>, max_gap: u64, max_size: u64)
    requires
        sorted_by(rs, range_order()),
    ensures
        ({
            let ms = merge_in_order(rs, max_gap, max_size);
            &&& ms.len() <= rs.len()
            &&& rs.len() > 0 ==> ms.len() > 0 && ms.last().start <= rs.last().start
        }),
    decreases rs.len(),
{
    if rs.len() > 0 {
        lemma_order_of_prefix(rs);
        lemma_request_count(rs.drop_last(), max_gap, max_size);
    }
}

proof fn lemma_all_covered(rs: Seq<Range<u64>>, max_gap: u64, max_size: u64)
    requires
        sorted_by(rs, range_order()),
    ensures
        forall|r: Range<u64>| #[trigger] rs.contains(r) ==> is_covered(
            merge_in_order(rs, max_gap, max_size),
            r,
        ),
    decreases rs.len(),
{
    if rs.len() > 0 {
        let before = rs.drop_last();
        let done = merge_in_order(before, max_gap, max_size);
        let ms = merge_in_order(rs, max_gap, max_size);
        lemma_order_of_prefix(rs);
        lemma_request_count(before, max_gap, max_size);
        lemma_all_covered(before, max_gap, max_size);
        lemma_contains_of_prefix(rs);
        assert forall|r: Range<u64>| #[trigger] rs.contains(r) implies is_covered(ms, r) by {
            if before.contains(r) {
                let i = choose|i: int| 0 <= i < done.len() && covers(#[trigger] done[i], r);
                assert(covers(ms[i], r));
            } else {
                assert(covers(ms[ms.len() - 1], r));
            }
        }
    }
}

proof fn lemma_none_joins_the_next(rs: Seq<Range<u64>>, max_gap: u64, max_size: u64)
    ensures
        ({
            let ms = merge_in_order(rs, max_gap, max_size);
            forall|i: int, j: int|
                0 <= i && j == i + 1 && j < ms.len() ==> !joins(
                    #[trigger] ms[i],
                    #[trigger] ms[j],
                    max_gap,
                    max_size,
                )
        }),
    decreases rs.len(),
{
    if rs.len() > 0 {
        let done = merge_in_order(rs.drop_last(), max_gap, max_size);
        let ms = merge_in_order(rs, max_gap, max_size);
        lemma_none_joins_the_next(rs.drop_last(), max_gap, max_size);
        assert forall|i: int, j: int| 0 <= i && j == i + 1 && j < ms.len() implies !joins(
            #[trigger] ms[i],
            #[trigger] ms[j],
            max_gap,
            max_size,
        ) by {
            if j < done.len() {
                assert(!joins(done[i], done[j], max_gap, max_size));
            }
        }
    }
}

/// What a request owes to the ranges that are asked for.
spec fn is_owed(
    rs: Seq<Range<u64>>,
    m: Range<u64>,
    max_gap: u64,
    max_size: u64,
) -> bool {
    &&& starts_as_asked(rs, m)
    &&& ends_as_asked(rs, m, max_gap, max_size)
    &&& forall|p: int| #[trigger]
        holds_byte(m, p) ==> is_asked(rs, p) || is_in_small_gap(rs, m, max_gap, p)
}

proof fn lemma_more_ranges_owe(
    before: Seq<Range<u64>>,
    rs: Seq<Range<u64>>,
    m: Range<u64>,
    max_gap: u64,
    max_size: u64,
)
    requires
        is_owed(before, m, max_gap, max_size),
        forall|r: Range<u64>| #[trigger] before.contains(r) ==> rs.contains(r),
    ensures
        is_owed(rs, m, max_gap, max_size),
{
    let a = choose|a: Range<u64>| #[trigger]
        before.contains(a) && covers(m, a) && a.start == m.start;
    assert(rs.contains(a));
    let b = choose|b: Range<u64>|
        {
            &&& #[trigger] before.contains(b)
            &&& covers(m, b)
            &&& b.end == m.end
            &&& b.start == m.start || b.start - m.start < max_size + max_gap
        };
    assert(rs.contains(b));
    assert forall|p: int| #[trigger] holds_byte(m, p) implies is_asked(rs, p) || is_in_small_gap(
        rs,
        m,
        max_gap,
        p,
    ) by {
        if is_asked(before, p) {
            let c = choose|c: Range<u64>| #[trigger] before.contains(c) && holds_byte(c, p);
            assert(rs.contains(c));
        } else {
            let (c, d) = choose|c: Range<u64>, d: Range<u64>|
                {
                    &&& #[trigger] before.contains(c)
                    &&& #[trigger] before.contains(d)
                    &&& covers(m, c)
                    &&& covers(m, d)
                    &&& c.end <= p < d.start
                    &&& d.start - c.end < max_gap
                };
            assert(rs.contains(c) && rs.contains(d));
        }
    }
}

proof fn lemma_joined_is_owed(
    rs: Seq<Range<u64>>,
    last: Range<u64>,
    next: Range<u64>,
    max_gap: u64,
    max_size: u64,
)
    requires
        is_owed(rs, last, max_gap, max_size),
        rs.contains(next),
        joins(last, next, max_gap, max_size),
        last.start <= next.start,
    ensures
        is_owed(rs, joined(last, next), max_gap, max_size),
{
    let m = joined(last, next);
    let a = choose|a: Range<u64>| #[trigger]
        rs.contains(a) && covers(last, a) && a.start == last.start;
    assert(covers(m, a));
    let b = choose|b: Range<u64>|
        {
            &&& #[trigger] rs.contains(b)
            &&& covers(last, b)
            &&& b.end == last.end
            &&& b.start == last.start || b.start - last.start < max_size + max_gap
        };
    assert(covers(m, b));
    assert(covers(m, next));
    if last.end < next.end {
        assert(next.end == m.end);
    }
    assert forall|p: int| #[trigger] holds_byte(m, p) implies is_asked(rs, p) || is_in_small_gap(
        rs,
        m,
        max_gap,
        p,
    ) by {
        if holds_byte(last, p) {
            if !is_asked(rs, p) {
                let (c, d) = choose|c: Range<u64>, d: Range<u64>|
                    {
                        &&& #[trigger] rs.contains(c)
                        &&& #[trigger] rs.contains(d)
                        &&& covers(last, c)
                        &&& covers(last, d)
                        &&& c.end <= p < d.start
                        &&& d.start - c.end < max_gap
                    };
                assert(covers(m, c) && covers(m, d));
            }
        } else if p < next.start {
            assert(rs.contains(b) && b.end <= p < next.start);
        } else {
            assert(holds_byte(next, p));
        }
    }
}

proof fn lemma_requests_are_owed(rs: Seq<Range<u64>>, max_gap: u64, max_size: u64, i: int)
    requires
        sorted_by(rs, range_order()),
        0 <= i < merge_in_order(rs, max_gap, max_size).len(),
    ensures
        is_owed(rs, merge_in_order(rs, max_gap, max_size)[i], max_gap, max_size),
    decreases rs.len(),
{
    if rs.len() > 0 {
        let before = rs.drop_last();
        let next = rs.last();
        let done = merge_in_order(before, max_gap, max_size);
        lemma_order_of_prefix(rs);
        lemma_request_count(before, max_gap, max_size);
        lemma_contains_of_prefix(rs);
        if i < done.len() {
            lemma_requests_are_owed(before, max_gap, max_size, i);
            lemma_more_ranges_owe(before, rs, done[i], max_gap, max_size);
            if i == done.len() - 1 && joins(done[i], next, max_gap, max_size) {
                lemma_joined_is_owed(rs, done[i], next, max_gap, max_size);
            }
        } else {
            assert(covers(next, next));
            assert forall|p: int| #[trigger] holds_byte(next, p) implies is_asked(rs, p) by {
                assert(rs.contains(next));
            }
        }
    }
}

/// Every range that is asked for lies within one request.
pub proof fn law_every_range_is_read(raw: Seq<Range<u64>>, max_gap: u64, max_size: u64)
    ensures
        forall|r: Range<u64>| #[trigger] raw.contains(r) ==> is_covered(
            merged(raw, max_gap, max_size),
            r,
        ),
{
    lemma_order_keeps_ranges(raw);
    lemma_all_covered(in_order(raw), max_gap, max_size);
}

/// There are no more requests than ranges.
pub proof fn law_no_more_requests_than_ranges(raw: Seq<Range<u64>>, max_gap: u64, max_size: u64)
    ensures
        merged(raw, max_gap, max_size).len() <= raw.len(),
{
    lemma_order_keeps_ranges(raw);
    lemma_request_count(in_order(raw), max_gap, max_size);
}

/// What should be read together is read together: a request is joined by none that follows
/// it, since it is larger than `max_size` or at least `max_gap` bytes before the next one.
pub proof fn law_close_requests_are_merged(
    raw: Seq<Range<u64>>,
    max_gap: u64,
    max_size: u64,
    i: int,
)
    requires
        0 <= i < merged(raw, max_gap, max_size).len() - 1,
    ensures
        ({
            let ms = merged(raw, max_gap, max_size);
            ms[i].end - ms[i].start > max_size || ms[i + 1].start - ms[i].end >= max_gap
        }),
{
    lemma_order_keeps_ranges(raw);
    lemma_none_joins_the_next(in_order(raw), max_gap, max_size);
    let ms = merged(raw, max_gap, max_size);
    let j = i + 1;
    assert(!joins(ms[i], ms[j], max_gap, max_size));
}

/// A request that is larger than `max_size` is not extended: the range after it is a request
/// of its own.
pub proof fn law_large_request_is_not_extended(
    rs: Seq<Range<u64>>,
    next: Range<u64>,
    max_gap: u64,
    max_size: u64,
)
    requires
        merge_in_order(rs, max_gap, max_size).len() > 0,
        ({
            let last = merge_in_order(rs, max_gap, max_size).last();
            last.end - last.start > max_size
        }),
    ensures
        merge_in_order(rs.push(next), max_gap, max_size) == merge_in_order(
            rs,
            max_gap,
            max_size,
        ).push(next),
{
    assert(rs.push(next).drop_last() == rs);
}

/// A range less than `max_gap` behind a request that is not larger than `max_size` is read
/// with it, in one range that contains both.
pub proof fn law_near_range_is_joined(
    rs: Seq<Range<u64>>,
    next: Range<u64>,
    max_gap: u64,
    max_size: u64,
)
    requires
        sorted_by(rs.push(next), range_order()),
        merge_in_order(rs, max_gap, max_size).len() > 0,
        ({
            let last = merge_in_order(rs, max_gap, max_size).last();
            last.end - last.start <= max_size && next.start - last.end < max_gap
        }),
    ensures
        ({
            let before = merge_in_order(rs, max_gap, max_size);
            let after = merge_in_order(rs.push(next), max_gap, max_size);
            &&& after.len() == before.len()
            &&& after.drop_last() == before.drop_last()
            &&& covers(after.last(), before.last())
            &&& covers(after.last(), next)
        }),
{
    assert(rs.push(next).drop_last() == rs);
    lemma_order_of_prefix(rs.push(next));
    lemma_request_count(rs, max_gap, max_size);
    let before = merge_in_order(rs, max_gap, max_size);
    assert(before.drop_last().push(joined(before.last(), next)).drop_last() == before.drop_last());
}

/// A request starts and ends with a range that is asked for, and the one that it ends with
/// starts less than `max_size + max_gap` bytes behind its start, if not there: a request
/// grows beyond that by no more than one range.
pub proof fn law_requests_are_bounded(
    raw: Seq<Range<u64>>,
    max_gap: u64,
    max_size: u64,
    i: int,
)
    requires
        0 <= i < merged(raw, max_gap, max_size).len(),
    ensures
        starts_as_asked(raw, merged(raw, max_gap, max_size)[i]),
        ends_as_asked(raw, merged(raw, max_gap, max_size)[i], max_gap, max_size),
{
    lemma_order_keeps_ranges(raw);
    lemma_requests_are_owed(in_order(raw), max_gap, max_size, i);
    let m = merged(raw, max_gap, max_size)[i];
    lemma_more_ranges_owe(in_order(raw), raw, m, max_gap, max_size);
}

/// A byte that is read in vain lies between two ranges of its request that are less than
/// `max_gap` apart.
pub proof fn law_only_small_gaps_are_read(
    raw: Seq<Range<u64>>,
    max_gap: u64,
    max_size: u64,
    i: int,
    p: int,
)
    requires
        0 <= i < merged(raw, max_gap, max_size).len(),
        holds_byte(merged(raw, max_gap, max_size)[i], p),
    ensures
        is_asked(raw, p) || is_in_small_gap(raw, merged(raw, max_gap, max_size)[i], max_gap, p),
{
    lemma_order_keeps_ranges(raw);
    lemma_requests_are_owed(in_order(raw), max_gap, max_size, i);
    let m = merged(raw, max_gap, max_size)[i];
    lemma_more_ranges_owe(in_order(raw), raw, m, max_gap, max_size);
}

/// The ranges of a list that `next` follows in order, and `next`, are in order with `next` at
/// the end.
proof fn lemma_order_of_next(raw: Seq<Range<u64>>, next: Range<u64>)
    requires
        forall|i: int|
            0 <= i < raw.len() ==> (#[trigger] raw[i]).start < next.start || (raw[i].start
                == next.start && raw[i].end <= next.end),
    ensures
        in_order(raw.push(next)) == in_order(raw).push(next),
{
    broadcast use vstd::seq_lib::group_to_multiset_ensures;

    lemma_order_keeps_ranges(raw);
    lemma_range_order_is_total();
    raw.lemma_sort_by_ensures(range_order());
    raw.push(next).lemma_sort_by_ensures(range_order());
    let ordered = in_order(raw);
    let longer = ordered.push(next);
    assert forall|i: int, j: int| 0 <= i < j < longer.len() implies #[trigger] range_order()(
        longer[i],
        longer[j],
    ) by {
        if j < ordered.len() {
            assert(range_order()(ordered[i], ordered[j]));
        } else {
            assert(ordered.contains(ordered[i]));
            assert(raw.contains(ordered[i]));
            let k = choose|k: int| 0 <= k < raw.len() && raw[k] == ordered[i];
            assert(raw[k].start <= next.start);
        }
    }
    vstd::seq_lib::to_multiset_build(ordered, next);
    vstd::seq_lib::to_multiset_build(raw, next);
    vstd::seq_lib::lemma_sorted_unique(longer, in_order(raw.push(next)), range_order());
}

/// Nothing is read where nothing is asked for.
pub proof fn law_nothing_is_read_for_nothing(max_gap: u64, max_size: u64)
    ensures
        merged(Seq::empty(), max_gap, max_size) == Seq::<Range<u64>>::empty(),
{
    lemma_order_keeps_ranges(Seq::empty());
}

/// The requests do not depend on the order in which the ranges are asked for.
pub proof fn law_order_of_asking_does_not_matter(
    a: Seq<Range<u64>>,
    b: Seq<Range<u64>>,
    max_gap: u64,
    max_size: u64,
)
    requires
        a.to_multiset() == b.to_multiset(),
    ensures
        merged(a, max_gap, max_size) == merged(b, max_gap, max_size),
{
    lemma_range_order_is_total();
    a.lemma_sort_by_ensures(range_order());
    b.lemma_sort_by_ensures(range_order());
    vstd::seq_lib::lemma_sorted_unique(in_order(a), in_order(b), range_order());
}

/// Asking for one more range, which starts and ends behind the others, leaves all requests but
/// the last as they are. The range is read with the last request where that is at most
/// `max_size` bytes large and less than `max_gap` bytes before the range, and is a request of
/// its own otherwise.
pub proof fn law_one_more_range(
    raw: Seq<Range<u64>>,
    next: Range<u64>,
    max_gap: u64,
    max_size: u64,
)
    requires
        forall|i: int|
            0 <= i < raw.len() ==> (#[trigger] raw[i]).start < next.start || (raw[i].start
                == next.start && raw[i].end <= next.end),
    ensures
        ({
            let before = merged(raw, max_gap, max_size);
            let after = merged(raw.push(next), max_gap, max_size);
            let last = before.last();
            if before.len() > 0 && last.end - last.start <= max_size && next.start - last.end
                < max_gap {
                &&& after.len() == before.len()
                &&& after.drop_last() == before.drop_last()
                &&& after.last().start == last.start
                &&& after.last().end >= last.end && after.last().end >= next.end
                &&& after.last().end == last.end || after.last().end == next.end
            } else {
                after == before.push(next)
            }
        }),
{
    lemma_order_of_next(raw, next);
    assert(in_order(raw).push(next).drop_last() == in_order(raw));
    let before = merged(raw, max_gap, max_size);
    if before.len() > 0 {
        assert(before.drop_last().push(joined(before.last(), next)).drop_last()
            == before.drop_last());
    }
}

/// A range is covered by requests where one of them starts no later and ends no earlier.
pub proof fn law_covered_lies_in_one(rs: Seq<Range<u64>>, r: Range<u64>)
    ensures
        is_covered(rs, r) <==> exists|k: int|
            0 <= k < rs.len() && (#[trigger] rs[k]).start <= r.start && r.end <= rs[k].end,
{
    if is_covered(rs, r) {
        let k = choose|k: int| 0 <= k < rs.len() && covers(#[trigger] rs[k], r);
        assert(rs[k].start <= r.start && r.end <= rs[k].end);
    }
    if exists|k: int|
        0 <= k < rs.len() && (#[trigger] rs[k]).start <= r.start && r.end <= rs[k].end {
        let k = choose|k: int|
            0 <= k < rs.len() && (#[trigger] rs[k]).start <= r.start && r.end <= rs[k].end;
        assert(covers(rs[k], r));
    }
}

/// Every range that is asked for can be read from one request: it starts no earlier than the
/// request, and ends no later.
pub proof fn law_each_range_lies_in_a_request(
    raw: Seq<Range<u64>>,
    max_gap: u64,
    max_size: u64,
    i: int,
)
    requires
        0 <= i < raw.len(),
    ensures
        exists|k: int|
            0 <= k < merged(raw, max_gap, max_size).len() && (#[trigger] merged(
                raw,
                max_gap,
                max_size,
            )[k]).start <= raw[i].start && raw[i].end <= merged(raw, max_gap, max_size)[k].end,
{
    law_every_range_is_read(raw, max_gap, max_size);
    assert(raw.contains(raw[i]));
    let ms = merged(raw, max_gap, max_size);
    let k = choose|k: int| 0 <= k < ms.len() && covers(#[trigger] ms[k], raw[i]);
    assert(ms[k].start <= raw[i].start && raw[i].end <= ms[k].end);
}

/// A request starts where a range starts that is asked for. It ends where one ends, which
/// starts less than `max_size + max_gap` bytes behind the start of the request, if not there.
pub proof fn law_requests_start_and_end_as_asked(
    raw: Seq<Range<u64>>,
    max_gap: u64,
    max_size: u64,
    k: int,
)
    requires
        0 <= k < merged(raw, max_gap, max_size).len(),
    ensures
        ({
            let m = merged(raw, max_gap, max_size)[k];
            &&& exists|i: int|
                0 <= i < raw.len() && (#[trigger] raw[i]).start == m.start && raw[i].end <= m.end
            &&& exists|i: int|
                {
                    &&& 0 <= i < raw.len()
                    &&& (#[trigger] raw[i]).end == m.end
                    &&& m.start <= raw[i].start
                    &&& raw[i].start == m.start || raw[i].start - m.start < max_size + max_gap
                }
        }),
{
    law_requests_are_bounded(raw, max_gap, max_size, k);
    let m = merged(raw, max_gap, max_size)[k];
    let a = choose|a: Range<u64>| #[trigger]
        raw.contains(a) && covers(m, a) && a.start == m.start;
    let i = choose|i: int| 0 <= i < raw.len() && raw[i] == a;
    assert(raw[i].start == m.start && raw[i].end <= m.end);
    let b = choose|b: Range<u64>|
        {
            &&& #[trigger] raw.contains(b)
            &&& covers(m, b)
            &&& b.end == m.end
            &&& b.start == m.start || b.start - m.start < max_size + max_gap
        };
    let j = choose|j: int| 0 <= j < raw.len() && raw[j] == b;
    assert(raw[j].end == m.end);
}

/// A byte of a request is one that is asked for, or lies between two ranges that are asked for
/// and less than `max_gap` bytes apart.
pub proof fn law_few_bytes_are_read_in_vain(
    raw: Seq<Range<u64>>,
    max_gap: u64,
    max_size: u64,
    k: int,
    p: int,
)
    requires
        0 <= k < merged(raw, max_gap, max_size).len(),
        merged(raw, max_gap, max_size)[k].start <= p < merged(raw, max_gap, max_size)[k].end,
    ensures
        ({
            ||| exists|i: int| 0 <= i < raw.len() && (#[trigger] raw[i]).start <= p < raw[i].end
            ||| exists|i: int, j: int|
                {
                    &&& 0 <= i < raw.len()
                    &&& 0 <= j < raw.len()
                    &&& (#[trigger] raw[i]).end <= p < (#[trigger] raw[j]).start
                    &&& raw[j].start - raw[i].end < max_gap
                }
        }),
{
    let m = merged(raw, max_gap, max_size)[k];
    law_only_small_gaps_are_read(raw, max_gap, max_size, k, p);
    if is_asked(raw, p) {
        let a = choose|a: Range<u64>| #[trigger] raw.contains(a) && holds_byte(a, p);
        let i = choose|i: int| 0 <= i < raw.len() && raw[i] == a;
        assert(raw[i].start <= p < raw[i].end);
    } else {
        let (a, b) = choose|a: Range<u64>, b: Range<u64>|
            {
                &&& #[trigger] raw.contains(a)
                &&& #[trigger] raw.contains(b)
                &&& covers(m, a)
                &&& covers(m, b)
                &&& a.end <= p < b.start
                &&& b.start - a.end < max_gap
            };
        let i = choose|i: int| 0 <= i < raw.len() && raw[i] == a;
        let j = choose|j: int| 0 <= j < raw.len() && raw[j] == b;
        assert(raw[i].end <= p < raw[j].start);
    }
}

} // verus!
