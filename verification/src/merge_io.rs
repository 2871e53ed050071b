//! Reading many parts of an object with few requests.
//!
//! The work falls into three steps: `merge_ranges` says which requests to send, the caller
//! sends them and hands in the bytes, and `collect_columns` finds the parts in them.

use std::ops::Range;

use vstd::prelude::*;
use vstd::string::StringExecFns;

use crate::chunks::MergeIOReadResult;
use crate::chunks::OwnerMemory;
use crate::errors::ErrorCode;
use crate::ranges::RangeMerger;
use crate::text::push_range;
use crate::text::push_ranges;

verus! {

/// How reads are merged.
pub struct ReadSettings {
    /// Two parts that are less than this many bytes apart are read together.
    pub storage_io_min_bytes_for_seek: u64,
    /// A request that is larger than this is not extended.
    pub storage_io_max_page_bytes_for_read: u64,
}

impl Default for ReadSettings {
    /// Gaps of less than 48 bytes are read over, in requests of up to 512 KB.
    fn default() -> (settings: Self)
        ensures
            settings.storage_io_min_bytes_for_seek == 48,
            settings.storage_io_max_page_bytes_for_read == 512 * 1024,
    {
        ReadSettings {
            storage_io_min_bytes_for_seek: 48,
            storage_io_max_page_bytes_for_read: 524288,
        }
    }
}

/// The ranges of the parts `raw`, without the columns that they belong to.
pub open spec fn ranges_of(raw: Seq<(usize, Range<u64>)>) -> Seq<Range<u64>> {
    raw.map_values(|part: (usize, Range<u64>)| part.1)
}

/// The requests that are sent for the parts `raw`.
pub open spec fn requests(settings: ReadSettings, raw: Seq<(usize, Range<u64>)>) -> Seq<Range<u64>> {
    crate::ranges::merged(
        ranges_of(raw),
        settings.storage_io_min_bytes_for_seek,
        settings.storage_io_max_page_bytes_for_read,
    )
}

/// The position of the first of the requests `rs` that covers `r`.
pub open spec fn first_cover(rs: Seq<Range<u64>>, r: Range<u64>) -> int {
    choose|i: int| crate::ranges::is_first_cover(rs, r, i)
}

/// Where a part is found, by its column: the request that covers it, and its place there.
pub open spec fn placed(rs: Seq<Range<u64>>, part: (usize, Range<u64>)) -> (
    usize,
    (usize, Range<usize>),
) {
    let i = first_cover(rs, part.1);
    (
        part.0,
        (
            i as usize,
            Range {
                start: (part.1.start - rs[i].start) as usize,
                end: (part.1.end - rs[i].start) as usize,
            },
        ),
    )
}

/// Where the parts `raw` are found, in their order.
pub open spec fn all_placed(rs: Seq<Range<u64>>, raw: Seq<(usize, Range<u64>)>) -> Seq<
    (usize, (usize, Range<usize>)),
> {
    raw.map_values(|part: (usize, Range<u64>)| placed(rs, part))
}

/// The message for a part that no request covers.
pub open spec fn not_found_text(r: Range<u64>, path: Seq<char>, rs: Seq<Range<u64>>) -> Seq<char> {
    "It's a terrible bug, not found raw range:["@ + crate::text::range_text(r) + "], path:"@ + path
        + " from merged ranges\n: "@ + crate::text::ranges_text(rs)
}

/// Part `i` of `raw` is the first that no request covers.
pub open spec fn is_first_missing(
    rs: Seq<Range<u64>>,
    raw: Seq<(usize, Range<u64>)>,
    i: int,
) -> bool {
    &&& 0 <= i < raw.len()
    &&& !crate::ranges::is_covered(rs, raw[i].1)
    &&& forall|j: int| 0 <= j < i ==> crate::ranges::is_covered(rs, (#[trigger] raw[j]).1)
}

/// Says which requests to send for the parts `raw_ranges`.
pub fn merge_ranges(settings: &ReadSettings, raw_ranges: &Vec<(usize, Range<u64>)>) -> (merger:
    RangeMerger)
    requires
        forall|i: int|
            0 <= i < raw_ranges@.len() ==> (#[trigger] raw_ranges@[i]).1.start
                <= raw_ranges@[i].1.end,
    ensures
        merger@ == requests(*settings, raw_ranges@),
        merger@ == crate::ranges::merged(
            raw_ranges@.map_values(|part: (usize, Range<u64>)| part.1),
            settings.storage_io_min_bytes_for_seek,
            settings.storage_io_max_page_bytes_for_read,
        ),
{
    let mut ranges: Vec<Range<u64>> = Vec::with_capacity(raw_ranges.len());
    let mut i: usize = 0;
    while i < raw_ranges.len()
        invariant
            i <= raw_ranges.len(),
            ranges@ == ranges_of(raw_ranges@).take(i as int),
        decreases raw_ranges.len() - i,
    {
        let part: &(usize, Range<u64>) = &raw_ranges[i];
        assert(ranges_of(raw_ranges@).take(i + 1) == ranges_of(raw_ranges@).take(i as int).push(
            part.1,
        ));
        ranges.push(part.1.start..part.1.end);
        i += 1;
    }
    assert(ranges_of(raw_ranges@).take(i as int) == ranges_of(raw_ranges@));
    assert forall|k: int| 0 <= k < ranges@.len() implies (#[trigger] ranges@[k]).start
        <= ranges@[k].end by {
        assert(raw_ranges@[k].1.start <= raw_ranges@[k].1.end);
    }
    RangeMerger::from_iter(
        ranges,
        settings.storage_io_min_bytes_for_seek,
        settings.storage_io_max_page_bytes_for_read,
    )
}

proof fn lemma_first_cover_is_unique(rs: Seq<Range<u64>>, r: Range<u64>, i: int)
    requires
        crate::ranges::is_first_cover(rs, r, i),
    ensures
        first_cover(rs, r) == i,
{
    let j = first_cover(rs, r);
    assert(crate::ranges::is_first_cover(rs, r, j));
    if i < j {
        assert(!crate::ranges::covers(rs[i], r));
    } else if j < i {
        assert(!crate::ranges::covers(rs[j], r));
    }
}

/// Finds the parts `raw_ranges` in the bytes `chunks` that were read from the object at
/// `path`, one chunk for each request of `range_merger`, under the position of the request.
/// It fails on the first part that no request covers.
pub fn collect_columns(
    range_merger: &RangeMerger,
    raw_ranges: &Vec<(usize, Range<u64>)>,
    chunks: Vec<(usize, Vec<u8>)>,
    path: String,
) -> (r: Result<MergeIOReadResult, ErrorCode>)
    requires
        forall|i: int|
            0 <= i < raw_ranges@.len() ==> (#[trigger] raw_ranges@[i]).1.start
                <= raw_ranges@[i].1.end,
    ensures
        match r {
            Ok(read) => {
                &&& forall|i: int|
                    0 <= i < raw_ranges@.len() ==> crate::ranges::is_covered(
                        range_merger@,
                        (#[trigger] raw_ranges@[i]).1,
                    )
                &&& read@.path == path@
                &&& read@.chunks == crate::entries::collected(
                    crate::chunks::chunk_entries(chunks@),
                )
                &&& read@.columns == crate::entries::collected(
                    all_placed(range_merger@, raw_ranges@),
                )
            },
            Err(ErrorCode::Internal(message)) => exists|i: int|
                {
                    &&& #[trigger] is_first_missing(range_merger@, raw_ranges@, i)
                    &&& message@ == not_found_text(raw_ranges@[i].1, path@, range_merger@)
                },
            Err(_) => false,
        },
        match r {
            Ok(read) => {
                &&& read@.path == path@
                &&& forall|i: int|
                    0 <= i < chunks@.len() && (forall|j: int|
                        i < j < chunks@.len() ==> (#[trigger] chunks@[j]).0 != chunks@[i].0) ==> {
                        &&& read@.chunks.contains_key((#[trigger] chunks@[i]).0)
                        &&& read@.chunks[chunks@[i].0] == chunks@[i].1@
                    }
                &&& forall|index: usize| #[trigger]
                    read@.chunks.contains_key(index) ==> exists|i: int|
                        0 <= i < chunks@.len() && (#[trigger] chunks@[i]).0 == index
                &&& forall|i: int|
                    0 <= i < raw_ranges@.len() && (forall|j: int|
                        i < j < raw_ranges@.len() ==> (#[trigger] raw_ranges@[j]).0
                            != raw_ranges@[i].0) ==> {
                        let part = (#[trigger] raw_ranges@[i]).1;
                        let found = read@.columns[raw_ranges@[i].0];
                        let k = found.0 as int;
                        &&& read@.columns.contains_key(raw_ranges@[i].0)
                        &&& k < range_merger@.len()
                        &&& range_merger@[k].start <= part.start
                        &&& part.end <= range_merger@[k].end
                        &&& forall|j: int|
                            0 <= j < k ==> part.start < (#[trigger] range_merger@[j]).start
                                || range_merger@[j].end < part.end
                        &&& found.1.start == (part.start - range_merger@[k].start) as usize
                        &&& found.1.end == (part.end - range_merger@[k].start) as usize
                    }
                &&& forall|column: usize| #[trigger]
                    read@.columns.contains_key(column) ==> exists|i: int|
                        0 <= i < raw_ranges@.len() && (#[trigger] raw_ranges@[i]).0 == column
            },
            Err(ErrorCode::Internal(message)) => exists|i: int|
                {
                    let part = (#[trigger] raw_ranges@[i]).1;
                    &&& 0 <= i < raw_ranges@.len()
                    &&& forall|k: int|
                        0 <= k < range_merger@.len() ==> part.start < (
                        #[trigger] range_merger@[k]).start || range_merger@[k].end < part.end
                    &&& forall|j: int|
                        0 <= j < i ==> crate::ranges::is_covered(
                            range_merger@,
                            (#[trigger] raw_ranges@[j]).1,
                        )
                    &&& message@ == "It's a terrible bug, not found raw range:["@
                        + crate::text::decimal(part.start as nat) + ".."@ + crate::text::decimal(
                        part.end as nat,
                    ) + "], path:"@ + path@ + " from merged ranges\n: "@
                        + crate::text::ranges_text(range_merger@)
                },
            Err(_) => false,
        },
{
    assert forall|k: int| 0 <= k < ranges_of(raw_ranges@).len() implies crate::ranges::is_range(
        #[trigger] ranges_of(raw_ranges@)[k],
    ) by {
        assert(raw_ranges@[k].1.start <= raw_ranges@[k].1.end);
    }
    match find_columns(range_merger, raw_ranges, chunks, path) {
        Ok(read) => {
            proof {
                crate::chunks::law_chunks_are_held(chunks@);
                range_merger.lemma_requests_are_counted();
                law_parts_are_placed(range_merger@, raw_ranges@, read@.columns);
            }
            Ok(read)
        },
        Err(e) => {
            proof {
                let i = choose|i: int|
                    {
                        &&& #[trigger] is_first_missing(range_merger@, raw_ranges@, i)
                        &&& e->Internal_0@ == not_found_text(
                            raw_ranges@[i].1,
                            path@,
                            range_merger@,
                        )
                    };
                law_missing_part_is_named(range_merger@, raw_ranges@, i, path@);
                assert(raw_ranges@[i].1 == ranges_of(raw_ranges@)[i]);
            }
            Err(e)
        },
    }
}

/// Looks up the request of each part, and notes where the part is in its bytes.
fn find_columns(
    range_merger: &RangeMerger,
    raw_ranges: &Vec<(usize, Range<u64>)>,
    chunks: Vec<(usize, Vec<u8>)>,
    path: String,
) -> (r: Result<MergeIOReadResult, ErrorCode>)
    requires
        crate::ranges::are_ranges(ranges_of(raw_ranges@)),
    ensures
        match r {
            Ok(read) => {
                &&& forall|i: int|
                    0 <= i < raw_ranges@.len() ==> crate::ranges::is_covered(
                        range_merger@,
                        (#[trigger] raw_ranges@[i]).1,
                    )
                &&& read@.path == path@
                &&& read@.chunks == crate::entries::collected(
                    crate::chunks::chunk_entries(chunks@),
                )
                &&& read@.columns == crate::entries::collected(
                    all_placed(range_merger@, raw_ranges@),
                )
            },
            Err(ErrorCode::Internal(message)) => exists|i: int|
                {
                    &&& #[trigger] is_first_missing(range_merger@, raw_ranges@, i)
                    &&& message@ == not_found_text(raw_ranges@[i].1, path@, range_merger@)
                },
            Err(_) => false,
        },
{
    let ghost all: Seq<(usize, (usize, Range<usize>))> = all_placed(range_merger@, raw_ranges@);
    let ghost memory: Map<usize, Seq<u8>> = crate::entries::collected(
        crate::chunks::chunk_entries(chunks@),
    );
    let owner_memory: OwnerMemory = OwnerMemory::create(chunks);
    let mut read_res: MergeIOReadResult = MergeIOReadResult::create(
        owner_memory,
        raw_ranges.len(),
        path.clone(),
    );
    let mut i: usize = 0;
    while i < raw_ranges.len()
        invariant
            i <= raw_ranges.len(),
            crate::ranges::are_ranges(ranges_of(raw_ranges@)),
            all == all_placed(range_merger@, raw_ranges@),
            read_res@.path == path@,
            read_res@.chunks == memory,
            read_res@.columns == crate::entries::collected(all.take(i as int)),
            forall|j: int|
                0 <= j < i ==> crate::ranges::is_covered(
                    range_merger@,
                    (#[trigger] raw_ranges@[j]).1,
                ),
        decreases raw_ranges.len() - i,
    {
        let (raw_idx, raw_range): &(usize, Range<u64>) = &raw_ranges[i];
        match range_merger.get(raw_range.start..raw_range.end) {
            None => {
                let mut message: String = String::from_str(
                    "It's a terrible bug, not found raw range:[",
                );
                push_range(&mut message, raw_range);
                message.append("], path:");
                message.append(path.as_str());
                message.append(" from merged ranges\n: ");
                push_ranges(&mut message, range_merger.ranges().as_slice());
                assert(is_first_missing(range_merger@, raw_ranges@, i as int));
                return Err(ErrorCode::Internal(message));
            },
            Some((merged_range_idx, merged_range)) => {
                proof {
                    lemma_first_cover_is_unique(
                        range_merger@,
                        *raw_range,
                        merged_range_idx as int,
                    );
                    assert(crate::ranges::is_range(ranges_of(raw_ranges@)[i as int]));
                    assert(all.take(i + 1).drop_last() == all.take(i as int));
                }
                let start: usize = (raw_range.start - merged_range.start) as usize;
                let end: usize = (raw_range.end - merged_range.start) as usize;
                read_res.add_column_chunk(merged_range_idx, *raw_idx, start..end);
                assert(crate::ranges::is_covered(range_merger@, raw_ranges@[i as int].1)) by {
                    assert(crate::ranges::covers(
                        range_merger@[merged_range_idx as int],
                        *raw_range,
                    ));
                }
            },
        }
        i += 1;
    }
    assert(all.take(i as int) == all);
    Ok(read_res)
}

/// The parts `raw` lie within an object of `len` bytes.
pub open spec fn are_within(raw: Seq<(usize, Range<u64>)>, len: nat) -> bool {
    forall|i: int|
        0 <= i < raw.len() ==> crate::ranges::is_range((#[trigger] raw[i]).1) && raw[i].1.end <= len
}

/// The chunks are what the requests `rs` get from `object`, each under the position of its
/// request.
pub open spec fn are_read_from(
    chunks: Map<usize, Seq<u8>>,
    rs: Seq<Range<u64>>,
    object: Seq<u8>,
) -> bool {
    forall|k: usize|
        k < rs.len() ==> #[trigger] chunks.contains_key(k) && chunks[k] == object.subrange(
            rs[k as int].start as int,
            rs[k as int].end as int,
        )
}

/// The bytes of each of the requests `rs` fit into memory.
pub open spec fn are_addressable(rs: Seq<Range<u64>>) -> bool {
    forall|k: int|
        0 <= k < rs.len() ==> (#[trigger] rs[k]).end - rs[k].start <= usize::MAX
}

/// The requests that are sent for some parts cover all of them, so that collecting the parts
/// does not fail.
pub proof fn law_no_part_is_missing(settings: ReadSettings, raw: Seq<(usize, Range<u64>)>)
    ensures
        forall|i: int|
            0 <= i < raw.len() ==> crate::ranges::is_covered(
                requests(settings, raw),
                (#[trigger] raw[i]).1,
            ),
        forall|i: int| !#[trigger] is_first_missing(requests(settings, raw), raw, i),
{
    crate::ranges::law_every_range_is_read(
        ranges_of(raw),
        settings.storage_io_min_bytes_for_seek,
        settings.storage_io_max_page_bytes_for_read,
    );
    assert forall|i: int| 0 <= i < raw.len() implies crate::ranges::is_covered(
        requests(settings, raw),
        (#[trigger] raw[i]).1,
    ) by {
        assert(ranges_of(raw)[i] == raw[i].1);
        assert(ranges_of(raw).contains(raw[i].1));
    }
}

/// The requests for parts of an object lie within the object.
pub proof fn law_requests_lie_within_the_object(
    settings: ReadSettings,
    raw: Seq<(usize, Range<u64>)>,
    len: nat,
    k: int,
)
    requires
        are_within(raw, len),
        0 <= k < requests(settings, raw).len(),
    ensures
        requests(settings, raw)[k].start <= requests(settings, raw)[k].end <= len,
{
    let m = requests(settings, raw)[k];
    let max_gap = settings.storage_io_min_bytes_for_seek;
    let max_size = settings.storage_io_max_page_bytes_for_read;
    crate::ranges::law_requests_are_bounded(ranges_of(raw), max_gap, max_size, k);
    let a = choose|a: Range<u64>| #[trigger]
        ranges_of(raw).contains(a) && crate::ranges::covers(m, a) && a.start == m.start;
    let i = choose|i: int| 0 <= i < raw.len() && ranges_of(raw)[i] == a;
    assert(raw[i].1 == a);
    let b = choose|b: Range<u64>|
        {
            &&& #[trigger] ranges_of(raw).contains(b)
            &&& crate::ranges::covers(m, b)
            &&& b.end == m.end
            &&& b.start == m.start || b.start - m.start < max_size + max_gap
        };
    let j = choose|j: int| 0 <= j < raw.len() && ranges_of(raw)[j] == b;
    assert(raw[j].1 == b);
}

/// A part is found whole in the bytes of its request.
proof fn lemma_part_is_found(
    settings: ReadSettings,
    object: Seq<u8>,
    raw: Seq<(usize, Range<u64>)>,
    chunks: Map<usize, Seq<u8>>,
    i: int,
)
    requires
        raw.len() <= usize::MAX,
        are_within(raw, object.len()),
        are_addressable(requests(settings, raw)),
        are_read_from(chunks, requests(settings, raw), object),
        0 <= i < raw.len(),
    ensures
        ({
            let (column, (chunk, range)) = placed(requests(settings, raw), raw[i]);
            &&& column == raw[i].0
            &&& chunks.contains_key(chunk)
            &&& range.start <= range.end <= chunks[chunk].len()
            &&& chunks[chunk].subrange(range.start as int, range.end as int) == object.subrange(
                raw[i].1.start as int,
                raw[i].1.end as int,
            )
        }),
{
    let rs = requests(settings, raw);
    let r = raw[i].1;
    law_no_part_is_missing(settings, raw);
    assert(crate::ranges::is_covered(rs, r));
    lemma_first_cover_exists(rs, r);
    let k = first_cover(rs, r);
    law_requests_lie_within_the_object(settings, raw, object.len(), k);
    crate::ranges::law_no_more_requests_than_ranges(
        ranges_of(raw),
        settings.storage_io_min_bytes_for_seek,
        settings.storage_io_max_page_bytes_for_read,
    );
    assert(chunks.contains_key(k as usize));
}

proof fn lemma_first_cover_exists(rs: Seq<Range<u64>>, r: Range<u64>)
    requires
        crate::ranges::is_covered(rs, r),
    ensures
        crate::ranges::is_first_cover(rs, r, first_cover(rs, r)),
    decreases rs.len(),
{
    let i = choose|i: int| 0 <= i < rs.len() && crate::ranges::covers(#[trigger] rs[i], r);
    let before = rs.take(i);
    if crate::ranges::is_covered(before, r) {
        lemma_first_cover_exists(before, r);
        let k = first_cover(before, r);
        assert forall|j: int| 0 <= j < k implies !crate::ranges::covers(#[trigger] rs[j], r) by {
            assert(before[j] == rs[j]);
        }
        assert(crate::ranges::is_first_cover(rs, r, k));
    } else {
        assert forall|j: int| 0 <= j < i implies !crate::ranges::covers(#[trigger] rs[j], r) by {
            assert(before[j] == rs[j]);
        }
        assert(crate::ranges::is_first_cover(rs, r, i));
    }
}

/// What is read back is what is stored: where the chunks of a merged read are what its
/// requests get from an object, every column holds exactly the bytes of its part of the
/// object, that is of its last part in `raw`; and there are no other columns. This does not
/// depend on how the parts are merged.
pub proof fn law_columns_are_parts_of_the_object(
    settings: ReadSettings,
    object: Seq<u8>,
    raw: Seq<(usize, Range<u64>)>,
    read: crate::chunks::MergeIOReadView,
)
    requires
        raw.len() <= usize::MAX,
        are_within(raw, object.len()),
        are_addressable(requests(settings, raw)),
        are_read_from(read.chunks, requests(settings, raw), object),
        read.columns == crate::entries::collected(all_placed(requests(settings, raw), raw)),
    ensures
        read.is_all_fetched(),
        read.is_consistent(),
        forall|i: int| #[trigger]
            crate::entries::is_last_of_key(raw, i) ==> {
                &&& read.columns.contains_key(raw[i].0)
                &&& read.column_bytes(raw[i].0) == object.subrange(
                    raw[i].1.start as int,
                    raw[i].1.end as int,
                )
            },
        forall|column: usize| #[trigger]
            read.columns.contains_key(column) ==> exists|i: int| #[trigger]
                crate::entries::is_last_of_key(raw, i) && raw[i].0 == column,
{
    let rs = requests(settings, raw);
    let entries = all_placed(rs, raw);
    crate::entries::law_last_entry_wins(entries);
    assert forall|i: int| crate::entries::is_last_of_key(raw, i) <==>
        crate::entries::is_last_of_key(entries, i) by {
        if crate::entries::is_last_of_key(raw, i) {
            assert forall|j: int| i < j < entries.len() implies (#[trigger] entries[j]).0
                != entries[i].0 by {
                assert(raw[j].0 != raw[i].0);
            }
        }
        if crate::entries::is_last_of_key(entries, i) {
            assert forall|j: int| i < j < raw.len() implies (#[trigger] raw[j]).0 != raw[i].0 by {
                assert(entries[j].0 != entries[i].0);
            }
        }
    }
    assert forall|i: int| #[trigger] crate::entries::is_last_of_key(raw, i) implies {
        &&& read.columns.contains_key(raw[i].0)
        &&& read.is_fetched(raw[i].0)
        &&& read.is_within_chunk(raw[i].0)
        &&& read.column_bytes(raw[i].0) == object.subrange(
            raw[i].1.start as int,
            raw[i].1.end as int,
        )
    } by {
        assert(crate::entries::is_last_of_key(entries, i));
        assert(entries[i] == placed(rs, raw[i]));
        lemma_part_is_found(settings, object, raw, read.chunks, i);
    }
    assert forall|column: usize| #[trigger] read.columns.contains_key(column) implies {
        &&& read.is_fetched(column)
        &&& read.is_within_chunk(column)
        &&& exists|i: int| #[trigger]
            crate::entries::is_last_of_key(raw, i) && raw[i].0 == column
    } by {
        let i = choose|i: int| #[trigger]
            crate::entries::is_last_of_key(entries, i) && entries[i].0 == column;
        assert(crate::entries::is_last_of_key(raw, i));
    }
}

/// A part is found in the first request that covers it, at its distance from the start of the
/// request. That holds of the last part of each column, and there are no other columns.
pub proof fn law_parts_are_placed(
    rs: Seq<Range<u64>>,
    raw: Seq<(usize, Range<u64>)>,
    columns: Map<usize, (usize, Range<usize>)>,
)
    requires
        rs.len() <= usize::MAX,
        forall|i: int|
            0 <= i < raw.len() ==> crate::ranges::is_covered(rs, (#[trigger] raw[i]).1),
        columns == crate::entries::collected(all_placed(rs, raw)),
    ensures
        forall|i: int|
            0 <= i < raw.len() && (forall|j: int|
                i < j < raw.len() ==> (#[trigger] raw[j]).0 != raw[i].0) ==> {
                let part = (#[trigger] raw[i]).1;
                let found = columns[raw[i].0];
                let k = found.0 as int;
                &&& columns.contains_key(raw[i].0)
                &&& k < rs.len()
                &&& rs[k].start <= part.start
                &&& part.end <= rs[k].end
                &&& forall|j: int|
                    0 <= j < k ==> part.start < (#[trigger] rs[j]).start || rs[j].end < part.end
                &&& found.1.start == (part.start - rs[k].start) as usize
                &&& found.1.end == (part.end - rs[k].start) as usize
            },
        forall|column: usize| #[trigger]
            columns.contains_key(column) <==> exists|i: int|
                0 <= i < raw.len() && (#[trigger] raw[i]).0 == column,
{
    let entries = all_placed(rs, raw);
    crate::entries::law_map_of_entries(entries);
    assert forall|i: int|
        0 <= i < raw.len() && (forall|j: int|
            i < j < raw.len() ==> (#[trigger] raw[j]).0 != raw[i].0) implies {
        let part = (#[trigger] raw[i]).1;
        let found = columns[raw[i].0];
        let k = found.0 as int;
        &&& columns.contains_key(raw[i].0)
        &&& k < rs.len()
        &&& rs[k].start <= part.start
        &&& part.end <= rs[k].end
        &&& forall|j: int|
            0 <= j < k ==> part.start < (#[trigger] rs[j]).start || rs[j].end < part.end
        &&& found.1.start == (part.start - rs[k].start) as usize
        &&& found.1.end == (part.end - rs[k].start) as usize
    } by {
        assert forall|j: int| i < j < entries.len() implies (#[trigger] entries[j]).0
            != entries[i].0 by {
            assert(raw[j].0 != raw[i].0);
        }
        assert(entries[i] == placed(rs, raw[i]));
        lemma_first_cover_exists(rs, raw[i].1);
        let k = first_cover(rs, raw[i].1);
        assert(columns[raw[i].0].0 as int == k);
        assert forall|j: int| 0 <= j < k implies raw[i].1.start < (#[trigger] rs[j]).start
            || rs[j].end < raw[i].1.end by {
            assert(!crate::ranges::covers(rs[j], raw[i].1));
        }
    }
    assert forall|column: usize| #[trigger] columns.contains_key(column) <==> exists|i: int|
        0 <= i < raw.len() && (#[trigger] raw[i]).0 == column by {
        if columns.contains_key(column) {
            let i = choose|i: int| 0 <= i < entries.len() && (#[trigger] entries[i]).0 == column;
            assert(raw[i].0 == column);
        }
        if exists|i: int| 0 <= i < raw.len() && (#[trigger] raw[i]).0 == column {
            let i = choose|i: int| 0 <= i < raw.len() && (#[trigger] raw[i]).0 == column;
            assert(entries[i].0 == column);
        }
    }
}

/// The first missing part is one that no request covers, behind parts that are all covered. The
/// message shows it, the path and all requests.
pub proof fn law_missing_part_is_named(
    rs: Seq<Range<u64>>,
    raw: Seq<(usize, Range<u64>)>,
    i: int,
    path: Seq<char>,
)
    requires
        is_first_missing(rs, raw, i),
    ensures
        0 <= i < raw.len(),
        forall|k: int|
            0 <= k < rs.len() ==> raw[i].1.start < (#[trigger] rs[k]).start || rs[k].end
                < raw[i].1.end,
        forall|j: int|
            0 <= j < i ==> crate::ranges::is_covered(rs, (#[trigger] raw[j]).1),
        not_found_text(raw[i].1, path, rs) == "It's a terrible bug, not found raw range:["@
            + crate::text::decimal(raw[i].1.start as nat) + ".."@ + crate::text::decimal(
            raw[i].1.end as nat,
        ) + "], path:"@ + path + " from merged ranges\n: "@ + crate::text::ranges_text(rs),
{
    assert forall|k: int| 0 <= k < rs.len() implies raw[i].1.start < (#[trigger] rs[k]).start
        || rs[k].end < raw[i].1.end by {
        assert(!crate::ranges::covers(rs[k], raw[i].1));
    }
    assert(not_found_text(raw[i].1, path, rs) =~= "It's a terrible bug, not found raw range:["@
        + crate::text::decimal(raw[i].1.start as nat) + ".."@ + crate::text::decimal(
        raw[i].1.end as nat,
    ) + "], path:"@ + path + " from merged ranges\n: "@ + crate::text::ranges_text(rs));
}

/// Every part can be read from one request: it starts no earlier than the request, and ends no
/// later.
pub proof fn law_each_part_lies_in_a_request(
    settings: ReadSettings,
    raw: Seq<(usize, Range<u64>)>,
    i: int,
)
    requires
        0 <= i < raw.len(),
    ensures
        exists|k: int|
            0 <= k < requests(settings, raw).len() && (#[trigger] requests(settings, raw)[k]).start
                <= raw[i].1.start && raw[i].1.end <= requests(settings, raw)[k].end,
{
    law_no_part_is_missing(settings, raw);
    assert(crate::ranges::is_covered(requests(settings, raw), raw[i].1));
    crate::ranges::law_covered_lies_in_one(requests(settings, raw), raw[i].1);
}

/// A request starts where a part starts. It ends where a part ends that starts less than
/// `storage_io_max_page_bytes_for_read + storage_io_min_bytes_for_seek` bytes behind the start
/// of the request, if not there. Unless a request is larger than
/// `storage_io_max_page_bytes_for_read`, the next one is at least
/// `storage_io_min_bytes_for_seek` bytes behind it.
pub proof fn law_requests_obey_the_settings(
    settings: ReadSettings,
    raw: Seq<(usize, Range<u64>)>,
    k: int,
)
    requires
        0 <= k < requests(settings, raw).len(),
    ensures
        ({
            let rs = requests(settings, raw);
            let gap = settings.storage_io_min_bytes_for_seek;
            let page = settings.storage_io_max_page_bytes_for_read;
            &&& exists|i: int|
                0 <= i < raw.len() && (#[trigger] raw[i]).1.start == rs[k].start && raw[i].1.end
                    <= rs[k].end
            &&& exists|i: int|
                {
                    &&& 0 <= i < raw.len()
                    &&& (#[trigger] raw[i]).1.end == rs[k].end
                    &&& rs[k].start <= raw[i].1.start
                    &&& raw[i].1.start == rs[k].start || raw[i].1.start - rs[k].start < page + gap
                }
            &&& k + 1 < rs.len() ==> rs[k].end - rs[k].start > page || rs[k + 1].start - rs[k].end
                >= gap
        }),
{
    let rs = requests(settings, raw);
    let gap = settings.storage_io_min_bytes_for_seek;
    let page = settings.storage_io_max_page_bytes_for_read;
    let asked = ranges_of(raw);
    crate::ranges::law_requests_start_and_end_as_asked(asked, gap, page, k);
    let i = choose|i: int|
        0 <= i < asked.len() && (#[trigger] asked[i]).start == rs[k].start && asked[i].end
            <= rs[k].end;
    assert(raw[i].1 == asked[i]);
    let j = choose|j: int|
        {
            &&& 0 <= j < asked.len()
            &&& (#[trigger] asked[j]).end == rs[k].end
            &&& rs[k].start <= asked[j].start
            &&& asked[j].start == rs[k].start || asked[j].start - rs[k].start < page + gap
        };
    assert(raw[j].1 == asked[j]);
    if k + 1 < rs.len() {
        crate::ranges::law_close_requests_are_merged(asked, gap, page, k);
    }
}

/// Nothing is requested for nothing. Asking for one more part, which starts and ends behind the
/// others, leaves all requests but the last as they are. The part is read with the last request
/// where that is at most `storage_io_max_page_bytes_for_read` bytes large and less than
/// `storage_io_min_bytes_for_seek` bytes before the part, and is a request of its own otherwise.
pub proof fn law_one_more_part(
    settings: ReadSettings,
    raw: Seq<(usize, Range<u64>)>,
    column: usize,
    next: Range<u64>,
)
    requires
        forall|i: int|
            0 <= i < raw.len() ==> (#[trigger] raw[i]).1.start < next.start || (raw[i].1.start
                == next.start && raw[i].1.end <= next.end),
    ensures
        requests(settings, Seq::empty()) == Seq::<Range<u64>>::empty(),
        ({
            let before = requests(settings, raw);
            let after = requests(settings, raw.push((column, next)));
            let last = before.last();
            if before.len() > 0 && last.end - last.start
                <= settings.storage_io_max_page_bytes_for_read && next.start - last.end
                < settings.storage_io_min_bytes_for_seek {
                &&& after.len() == before.len()
                &&& after.drop_last() == before.drop_last()
                &&& after.last().start == last.start
                &&& after.last().end >= last.end && after.last().end >= next.end
                &&& after.last().end == last.end || after.last().end == next.end
            } else {
                after == before.push(next)
            }
        }),
{
    let gap = settings.storage_io_min_bytes_for_seek;
    let page = settings.storage_io_max_page_bytes_for_read;
    assert(ranges_of(Seq::empty()) =~= Seq::empty());
    crate::ranges::law_nothing_is_read_for_nothing(gap, page);
    let asked = ranges_of(raw);
    assert forall|i: int| 0 <= i < asked.len() implies (#[trigger] asked[i]).start < next.start
        || (asked[i].start == next.start && asked[i].end <= next.end) by {
        assert(raw[i].1 == asked[i]);
    }
    assert(ranges_of(raw.push((column, next))) =~= asked.push(next));
    crate::ranges::law_one_more_range(asked, next, gap, page);
}

/// The requests depend neither on the order of the parts nor on the columns that they are for.
pub proof fn law_order_of_parts_does_not_matter(
    settings: ReadSettings,
    a: Seq<(usize, Range<u64>)>,
    b: Seq<(usize, Range<u64>)>,
)
    requires
        a.map_values(|part: (usize, Range<u64>)| part.1).to_multiset() == b.map_values(
            |part: (usize, Range<u64>)| part.1,
        ).to_multiset(),
    ensures
        requests(settings, a) == requests(settings, b),
{
    crate::ranges::law_order_of_asking_does_not_matter(
        ranges_of(a),
        ranges_of(b),
        settings.storage_io_min_bytes_for_seek,
        settings.storage_io_max_page_bytes_for_read,
    );
}

/// What is handed in is handed out: where there is a chunk for every request, and each chunk
/// holds the bytes of the object that its request is for, a column holds exactly the bytes of
/// its part of the object, that is of its last part in `raw`; and there are no other columns.
pub proof fn law_parts_are_read_back(
    settings: ReadSettings,
    object: Seq<u8>,
    raw: Seq<(usize, Range<u64>)>,
    chunks: Seq<(usize, Vec<u8>)>,
    read: crate::chunks::MergeIOReadView,
)
    requires
        raw.len() <= usize::MAX,
        forall|i: int|
            0 <= i < raw.len() ==> (#[trigger] raw[i]).1.start <= raw[i].1.end <= object.len(),
        forall|k: int|
            0 <= k < requests(settings, raw).len() ==> {
                let request = #[trigger] requests(settings, raw)[k];
                &&& request.end - request.start <= usize::MAX
                &&& exists|c: int| 0 <= c < chunks.len() && (#[trigger] chunks[c]).0 == k
            },
        forall|c: int|
            0 <= c < chunks.len() && (#[trigger] chunks[c]).0 < requests(settings, raw).len()
                ==> chunks[c].1@ == object.subrange(
                requests(settings, raw)[chunks[c].0 as int].start as int,
                requests(settings, raw)[chunks[c].0 as int].end as int,
            ),
        read.chunks == crate::entries::collected(crate::chunks::chunk_entries(chunks)),
        read.columns == crate::entries::collected(all_placed(requests(settings, raw), raw)),
    ensures
        forall|i: int|
            0 <= i < raw.len() && (forall|j: int|
                i < j < raw.len() ==> (#[trigger] raw[j]).0 != raw[i].0) ==> {
                let part = (#[trigger] raw[i]).1;
                let found = read.columns[raw[i].0];
                &&& read.columns.contains_key(raw[i].0)
                &&& read.chunks.contains_key(found.0)
                &&& found.1.start <= found.1.end <= read.chunks[found.0].len()
                &&& read.chunks[found.0].subrange(found.1.start as int, found.1.end as int)
                    == object.subrange(part.start as int, part.end as int)
            },
        forall|column: usize| #[trigger]
            read.columns.contains_key(column) <==> exists|i: int|
                0 <= i < raw.len() && (#[trigger] raw[i]).0 == column,
{
    let rs = requests(settings, raw);
    crate::ranges::law_no_more_requests_than_ranges(
        ranges_of(raw),
        settings.storage_io_min_bytes_for_seek,
        settings.storage_io_max_page_bytes_for_read,
    );
    law_no_part_is_missing(settings, raw);
    law_parts_are_placed(rs, raw, read.columns);
    assert forall|i: int|
        0 <= i < raw.len() && (forall|j: int|
            i < j < raw.len() ==> (#[trigger] raw[j]).0 != raw[i].0) implies {
        let part = (#[trigger] raw[i]).1;
        let found = read.columns[raw[i].0];
        &&& read.columns.contains_key(raw[i].0)
        &&& read.chunks.contains_key(found.0)
        &&& found.1.start <= found.1.end <= read.chunks[found.0].len()
        &&& read.chunks[found.0].subrange(found.1.start as int, found.1.end as int)
            == object.subrange(part.start as int, part.end as int)
    } by {
        let part = raw[i].1;
        let found = read.columns[raw[i].0];
        let k = found.0 as int;
        law_requests_lie_within_the_object(settings, raw, object.len(), k);
        assert(rs[k] == requests(settings, raw)[k]);
        lemma_chunk_is_read(object, rs, chunks, found.0);
        lemma_part_of_chunk(object, rs[k], read.chunks[found.0], part, found.1);
    }
}

/// A part of the bytes of a request is a part of the object.
proof fn lemma_part_of_chunk(
    object: Seq<u8>,
    request: Range<u64>,
    chunk: Seq<u8>,
    part: Range<u64>,
    place: Range<usize>,
)
    requires
        request.start <= part.start <= part.end <= request.end <= object.len(),
        request.end - request.start <= usize::MAX,
        chunk == object.subrange(request.start as int, request.end as int),
        place.start == (part.start - request.start) as usize,
        place.end == (part.end - request.start) as usize,
    ensures
        place.start <= place.end <= chunk.len(),
        chunk.subrange(place.start as int, place.end as int) == object.subrange(
            part.start as int,
            part.end as int,
        ),
{
}

/// The chunk that is held for a request is what the request gets from the object.
proof fn lemma_chunk_is_read(
    object: Seq<u8>,
    rs: Seq<Range<u64>>,
    chunks: Seq<(usize, Vec<u8>)>,
    k: usize,
)
    requires
        k < rs.len(),
        exists|c: int| 0 <= c < chunks.len() && (#[trigger] chunks[c]).0 == k,
        forall|c: int|
            0 <= c < chunks.len() && (#[trigger] chunks[c]).0 < rs.len() ==> chunks[c].1@
                == object.subrange(
                rs[chunks[c].0 as int].start as int,
                rs[chunks[c].0 as int].end as int,
            ),
    ensures
        ({
            let held = crate::entries::collected(crate::chunks::chunk_entries(chunks));
            &&& held.contains_key(k)
            &&& held[k] == object.subrange(rs[k as int].start as int, rs[k as int].end as int)
        }),
{
    let entries = crate::chunks::chunk_entries(chunks);
    let held = crate::entries::collected(entries);
    crate::entries::law_last_entry_wins(entries);
    let any = choose|c: int| 0 <= c < chunks.len() && (#[trigger] chunks[c]).0 == k;
    assert(entries[any].0 == k);
    assert(held.contains_key(k));
    let c = choose|c: int| #[trigger]
        crate::entries::is_last_of_key(entries, c) && entries[c].0 == k;
    assert(entries[c] == (chunks[c].0, chunks[c].1@));
}

} // verus!
