//! The bytes that a merged read has fetched, and the parts of them that are columns.

use std::collections::HashMap;
use std::ops::Range;

use vstd::prelude::*;
use vstd::slice::slice_subrange;
use vstd::string::StringExecFns;

use crate::errors::ErrorCode;
use crate::text::push_decimal;

verus! {

broadcast use vstd::std_specs::hash::group_hash_axioms;

/// The message for chunk `index` of the object at `path`, which is not there.
pub open spec fn missing_chunk_text(index: usize, path: Seq<char>) -> Seq<char> {
    "It's a terrible bug, not found range data, merged_range_idx:"@ + crate::text::decimal(
        index as nat,
    ) + ", path:"@ + path
}

/// Fetched chunks with their bytes in place of their buffers.
pub open spec fn chunk_entries(chunks: Seq<(usize, Vec<u8>)>) -> Seq<(usize, Seq<u8>)> {
    chunks.map_values(|c: (usize, Vec<u8>)| (c.0, c.1@))
}

/// A chunk is held byte for byte, unless a later one has the same index; and nothing else is
/// held.
pub proof fn law_chunks_are_held(chunks: Seq<(usize, Vec<u8>)>)
    ensures
        ({
            let held = crate::entries::collected(chunk_entries(chunks));
            &&& forall|i: int|
                0 <= i < chunks.len() && (forall|j: int|
                    i < j < chunks.len() ==> (#[trigger] chunks[j]).0 != chunks[i].0) ==> {
                    &&& held.contains_key((#[trigger] chunks[i]).0)
                    &&& held[chunks[i].0] == chunks[i].1@
                }
            &&& forall|index: usize| #[trigger]
                held.contains_key(index) <==> exists|i: int|
                    0 <= i < chunks.len() && (#[trigger] chunks[i]).0 == index
        }),
{
    let entries = chunk_entries(chunks);
    let held = crate::entries::collected(entries);
    crate::entries::law_map_of_entries(entries);
    assert forall|i: int| 0 <= i < chunks.len() implies #[trigger] entries[i] == (
        chunks[i].0,
        chunks[i].1@,
    ) by {}
    assert forall|i: int|
        0 <= i < chunks.len() && (forall|j: int|
            i < j < chunks.len() ==> (#[trigger] chunks[j]).0 != chunks[i].0) implies {
        &&& held.contains_key((#[trigger] chunks[i]).0)
        &&& held[chunks[i].0] == chunks[i].1@
    } by {
        assert forall|j: int| i < j < entries.len() implies (#[trigger] entries[j]).0
            != entries[i].0 by {
            assert(chunks[j].0 != chunks[i].0);
        }
    }
    assert forall|index: usize| #[trigger] held.contains_key(index) <==> exists|i: int|
        0 <= i < chunks.len() && (#[trigger] chunks[i]).0 == index by {
        if held.contains_key(index) {
            let i = choose|i: int| 0 <= i < entries.len() && (#[trigger] entries[i]).0 == index;
            assert(chunks[i].0 == index);
        }
        if exists|i: int| 0 <= i < chunks.len() && (#[trigger] chunks[i]).0 == index {
            let i = choose|i: int| 0 <= i < chunks.len() && (#[trigger] chunks[i]).0 == index;
            assert(entries[i].0 == index);
        }
    }
}

/// The message for a missing chunk shows its index in decimal, and the path.
pub proof fn law_missing_chunk_is_named(index: usize, path: Seq<char>)
    ensures
        missing_chunk_text(index, path)
            == "It's a terrible bug, not found range data, merged_range_idx:"@
            + crate::text::decimal(index as nat) + ", path:"@ + path,
{
}

/// Owns the chunks that have been fetched, each under the index of its request.
pub struct OwnerMemory {
    chunks: HashMap<usize, Vec<u8>>,
}

impl View for OwnerMemory {
    type V = Map<usize, Seq<u8>>;

    closed spec fn view(&self) -> Map<usize, Seq<u8>> {
        self.chunks@.map_values(|v: Vec<u8>| v@)
    }
}

impl OwnerMemory {
    /// Takes over chunks. One that comes later replaces an earlier one with the same index.
    pub fn create(chunks: Vec<(usize, Vec<u8>)>) -> (memory: OwnerMemory)
        ensures
            memory@ == crate::entries::collected(chunk_entries(chunks@)),
            forall|i: int|
                0 <= i < chunks@.len() && (forall|j: int|
                    i < j < chunks@.len() ==> (#[trigger] chunks@[j]).0 != chunks@[i].0) ==> {
                    &&& memory@.contains_key((#[trigger] chunks@[i]).0)
                    &&& memory@[chunks@[i].0] == chunks@[i].1@
                },
            forall|index: usize| #[trigger]
                memory@.contains_key(index) ==> exists|i: int|
                    0 <= i < chunks@.len() && (#[trigger] chunks@[i]).0 == index,
    {
        let ghost all: Seq<(usize, Seq<u8>)> = chunk_entries(chunks@);
        let mut map: HashMap<usize, Vec<u8>> = HashMap::new();
        assert(map@.map_values(|v: Vec<u8>| v@) =~= crate::entries::collected(all.take(0)));
        for chunk in it: chunks.into_iter()
            invariant
                it.seq() == chunks@,
                all == chunk_entries(chunks@),
                map@.map_values(|v: Vec<u8>| v@) == crate::entries::collected(
                    all.take(it.index() as int),
                ),
        {
            let ghost i: int = it.index() as int;
            let ghost before: Map<usize, Vec<u8>> = map@;
            assert(all.take(i + 1).drop_last() == all.take(i));
            assert(all.take(i + 1).last() == (chunk.0, chunk.1@));
            map.insert(chunk.0, chunk.1);
            assert(map@.map_values(|v: Vec<u8>| v@) =~= before.map_values(
                |v: Vec<u8>| v@,
            ).insert(chunk.0, chunk.1@));
        }
        assert(all.take(all.len() as int) == all);
        proof {
            law_chunks_are_held(chunks@);
        }
        OwnerMemory { chunks: map }
    }

    /// The bytes of chunk `index`. `path` is the object that they were read from.
    pub fn get_chunk(&self, index: usize, path: &str) -> (r: Result<&[u8], ErrorCode>)
        ensures
            match r {
                Ok(chunk) => self@.contains_key(index) && chunk@ == self@[index],
                Err(ErrorCode::Internal(message)) => {
                    &&& !self@.contains_key(index)
                    &&& message@ == missing_chunk_text(index, path@)
                    &&& message@
                        == "It's a terrible bug, not found range data, merged_range_idx:"@
                        + crate::text::decimal(index as nat) + ", path:"@ + path@
                },
                Err(_) => false,
            },
    {
        match self.chunks.get(&index) {
            Some(chunk) => Ok(chunk.as_slice()),
            None => {
                let mut message: String = String::from_str(
                    "It's a terrible bug, not found range data, merged_range_idx:",
                );
                push_decimal(&mut message, index as u64);
                message.append(", path:");
                message.append(path);
                Err(ErrorCode::Internal(message))
            },
        }
    }
}

/// What a merged read has brought: the object that was read, the chunks, and for each column
/// the chunk that holds it with the range of its bytes there.
#[verifier::ext_equal]
pub struct MergeIOReadView {
    pub path: Seq<char>,
    pub chunks: Map<usize, Seq<u8>>,
    pub columns: Map<usize, (usize, Range<usize>)>,
}

impl MergeIOReadView {
    /// The chunk of column `column` is there.
    pub open spec fn is_fetched(self, column: usize) -> bool {
        self.chunks.contains_key(self.columns[column].0)
    }

    /// The bytes of column `column` lie within its chunk.
    pub open spec fn is_within_chunk(self, column: usize) -> bool {
        let (chunk, range) = self.columns[column];
        range.start <= range.end <= self.chunks[chunk].len()
    }

    /// The bytes of column `column`.
    pub open spec fn column_bytes(self, column: usize) -> Seq<u8> {
        let (chunk, range) = self.columns[column];
        self.chunks[chunk].subrange(range.start as int, range.end as int)
    }

    /// The chunk of every column is there.
    pub open spec fn is_all_fetched(self) -> bool {
        forall|column: usize| #[trigger]
            self.columns.contains_key(column) ==> self.is_fetched(column)
    }

    /// `listed` holds every column once, with its bytes, and nothing else.
    pub open spec fn is_listed_by(self, listed: Seq<(usize, &[u8])>) -> bool {
        &&& forall|i: int|
            0 <= i < listed.len() ==> {
                &&& self.columns.contains_key((#[trigger] listed[i]).0)
                &&& listed[i].1@ == self.column_bytes(listed[i].0)
            }
        &&& forall|i: int, j: int|
            0 <= i < j < listed.len() ==> (#[trigger] listed[i]).0 != (#[trigger] listed[j]).0
        &&& forall|column: usize| #[trigger]
            self.columns.contains_key(column) ==> exists|i: int|
                0 <= i < listed.len() && (#[trigger] listed[i]).0 == column
    }

    /// Every column whose chunk is there lies within it.
    pub open spec fn is_consistent(self) -> bool {
        forall|column: usize| #[trigger]
            self.columns.contains_key(column) && self.is_fetched(column) ==> self.is_within_chunk(
                column,
            )
    }
}

/// The result of a merged read of an object.
pub struct MergeIOReadResult {
    path: String,
    owner_memory: OwnerMemory,
    columns_chunks: HashMap<usize, (usize, Range<usize>)>,
}

impl View for MergeIOReadResult {
    type V = MergeIOReadView;

    closed spec fn view(&self) -> MergeIOReadView {
        MergeIOReadView {
            path: self.path@,
            chunks: self.owner_memory@,
            columns: self.columns_chunks@,
        }
    }
}

impl MergeIOReadResult {
    /// A result without columns. `capacity` is the number of columns to make room for.
    pub fn create(owner_memory: OwnerMemory, capacity: usize, path: String) -> (result:
        MergeIOReadResult)
        ensures
            result@ == (MergeIOReadView {
                path: path@,
                chunks: owner_memory@,
                columns: Map::empty(),
            }),
    {
        MergeIOReadResult { path, owner_memory, columns_chunks: HashMap::with_capacity(capacity) }
    }

    /// The columns, in no particular order, each once and with its bytes. It fails where the
    /// chunk of a column is missing.
    pub fn columns_chunks(&self) -> (r: Result<Vec<(usize, &[u8])>, ErrorCode>)
        requires
            forall|column: usize| #[trigger]
                self@.columns.contains_key(column) && self@.chunks.contains_key(
                    self@.columns[column].0,
                ) ==> self@.columns[column].1.start <= self@.columns[column].1.end
                    <= self@.chunks[self@.columns[column].0].len(),
        ensures
            match r {
                Ok(columns) => {
                    &&& forall|i: int|
                        0 <= i < columns@.len() ==> {
                            let part = self@.columns[(#[trigger] columns@[i]).0];
                            &&& self@.columns.contains_key(columns@[i].0)
                            &&& self@.chunks.contains_key(part.0)
                            &&& columns@[i].1@ == self@.chunks[part.0].subrange(
                                part.1.start as int,
                                part.1.end as int,
                            )
                        }
                    &&& forall|i: int, j: int|
                        0 <= i < j < columns@.len() ==> (#[trigger] columns@[i]).0 != (
                        #[trigger] columns@[j]).0
                    &&& forall|column: usize| #[trigger]
                        self@.columns.contains_key(column) ==> exists|i: int|
                            0 <= i < columns@.len() && (#[trigger] columns@[i]).0 == column
                },
                Err(ErrorCode::Internal(message)) => exists|column: usize|
                    {
                        &&& #[trigger] self@.columns.contains_key(column)
                        &&& !self@.chunks.contains_key(self@.columns[column].0)
                        &&& message@
                            == "It's a terrible bug, not found range data, merged_range_idx:"@
                            + crate::text::decimal(self@.columns[column].0 as nat) + ", path:"@
                            + self@.path
                    },
                Err(_) => false,
            },
            match r {
                Ok(columns) => self@.is_all_fetched() && self@.is_listed_by(columns@),
                Err(ErrorCode::Internal(message)) => exists|column: usize|
                    {
                        &&& #[trigger] self@.columns.contains_key(column)
                        &&& !self@.is_fetched(column)
                        &&& message@ == missing_chunk_text(
                            self@.columns[column].0,
                            self@.path,
                        )
                    },
                Err(_) => false,
            },
    {
        assert(self@.is_consistent());
        match self.list_columns() {
            Ok(columns) => {
                proof {
                    law_listed_columns_are_slices(self@, columns@);
                }
                Ok(columns)
            },
            Err(e) => Err(e),
        }
    }

    /// Cuts the columns out of their chunks.
    fn list_columns(&self) -> (r: Result<Vec<(usize, &[u8])>, ErrorCode>)
        requires
            self@.is_consistent(),
        ensures
            match r {
                Ok(columns) => self@.is_all_fetched() && self@.is_listed_by(columns@),
                Err(ErrorCode::Internal(message)) => exists|column: usize|
                    {
                        &&& #[trigger] self@.columns.contains_key(column)
                        &&& !self@.is_fetched(column)
                        &&& message@ == missing_chunk_text(
                            self@.columns[column].0,
                            self@.path,
                        )
                    },
                Err(_) => false,
            },
    {
        let mut res: Vec<(usize, &[u8])> = Vec::with_capacity(self.columns_chunks.len());
        let ghost pairs: Seq<(&usize, &(usize, Range<usize>))> =
            vstd::std_specs::iter::IteratorSpec::remaining(&self.columns_chunks.iter());
        for entry in it: self.columns_chunks.iter()
            invariant
                self@.is_consistent(),
                it.seq() == pairs,
                pairs == vstd::std_specs::iter::IteratorSpec::remaining(
                    &self.columns_chunks.iter(),
                ),
                pairs.no_duplicates(),
                res@.len() == it.index(),
                forall|i: int|
                    0 <= i < res@.len() ==> {
                        &&& (#[trigger] res@[i]).0 == *pairs[i].0
                        &&& self@.is_fetched(res@[i].0)
                        &&& res@[i].1@ == self@.column_bytes(res@[i].0)
                    },
        {
            let (chunk_idx, range): &(usize, Range<usize>) = entry.1;
            let ghost column: usize = *entry.0;
            assert(self.columns_chunks@.contains_key(column));
            assert(self.columns_chunks@[column] == (*chunk_idx, *range));
            assert(self@.columns.contains_key(column));
            match self.owner_memory.get_chunk(*chunk_idx, self.path.as_str()) {
                Ok(chunk) => {
                    assert(self@.is_within_chunk(column));
                    res.push((*entry.0, slice_subrange(chunk, range.start, range.end)));
                },
                Err(e) => {
                    return Err(e);
                },
            }
        }
        proof {
            let columns = self.columns_chunks@;
            assert forall|i: int| 0 <= i < res@.len() implies {
                &&& columns.contains_key((#[trigger] res@[i]).0)
                &&& columns[res@[i].0] == *pairs[i].1
            } by {
                assert(columns.contains_key(*pairs[i].0));
            }
            assert forall|column: usize| #[trigger] columns.contains_key(column) implies {
                &&& self@.is_fetched(column)
                &&& exists|i: int| 0 <= i < res@.len() && (#[trigger] res@[i]).0 == column
            } by {
                assert(pairs.contains((&column, &columns[column])));
                let i = choose|i: int|
                    0 <= i < pairs.len() && pairs[i] == (&column, &columns[column]);
                assert(res@[i].0 == column);
            }
            assert forall|i: int, j: int| 0 <= i < j < res@.len() implies (#[trigger] res@[i]).0
                != (#[trigger] res@[j]).0 by {
                if res@[i].0 == res@[j].0 {
                    assert(pairs[i] == pairs[j]);
                }
            }
            assert(self@.is_all_fetched());
            assert(self@.is_listed_by(res@));
        }
        Ok(res)
    }

    /// The bytes of chunk `index`. `path` is the object that they were read from.
    pub fn get_chunk(&self, index: usize, path: &str) -> (r: Result<&[u8], ErrorCode>)
        ensures
            match r {
                Ok(chunk) => self@.chunks.contains_key(index) && chunk@ == self@.chunks[index],
                Err(ErrorCode::Internal(message)) => {
                    &&& !self@.chunks.contains_key(index)
                    &&& message@ == missing_chunk_text(index, path@)
                    &&& message@
                        == "It's a terrible bug, not found range data, merged_range_idx:"@
                        + crate::text::decimal(index as nat) + ", path:"@ + path@
                },
                Err(_) => false,
            },
    {
        self.owner_memory.get_chunk(index, path)
    }

    /// Says that column `column` is the part `range` of chunk `chunk`.
    pub fn add_column_chunk(&mut self, chunk: usize, column: usize, range: Range<usize>)
        ensures
            final(self)@ == (MergeIOReadView {
                columns: old(self)@.columns.insert(column, (chunk, range)),
                ..old(self)@
            }),
    {
        self.columns_chunks.insert(column, (chunk, range));
    }
}

/// Where every chunk is there and the columns are listed, each column is listed once, as the
/// part of its chunk that it was said to be; and nothing else is listed.
pub proof fn law_listed_columns_are_slices(read: MergeIOReadView, listed: Seq<(usize, &[u8])>)
    requires
        read.is_all_fetched(),
        read.is_listed_by(listed),
    ensures
        forall|i: int|
            0 <= i < listed.len() ==> {
                let part = read.columns[(#[trigger] listed[i]).0];
                &&& read.columns.contains_key(listed[i].0)
                &&& read.chunks.contains_key(part.0)
                &&& listed[i].1@ == read.chunks[part.0].subrange(
                    part.1.start as int,
                    part.1.end as int,
                )
            },
        forall|i: int, j: int|
            0 <= i < j < listed.len() ==> (#[trigger] listed[i]).0 != (#[trigger] listed[j]).0,
        forall|column: usize| #[trigger]
            read.columns.contains_key(column) ==> exists|i: int|
                0 <= i < listed.len() && (#[trigger] listed[i]).0 == column,
{
    assert forall|i: int| 0 <= i < listed.len() implies {
        let part = read.columns[(#[trigger] listed[i]).0];
        &&& read.columns.contains_key(listed[i].0)
        &&& read.chunks.contains_key(part.0)
        &&& listed[i].1@ == read.chunks[part.0].subrange(
            part.1.start as int,
            part.1.end as int,
        )
    } by {
        assert(read.is_fetched(listed[i].0));
    }
}

} // verus!
