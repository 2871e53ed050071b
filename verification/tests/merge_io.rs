use std::ops::Range;

use block_reader::chunks::MergeIOReadResult;
use block_reader::chunks::OwnerMemory;
use block_reader::errors::ErrorCode;
use block_reader::merge_io::collect_columns;
use block_reader::merge_io::merge_ranges;
use block_reader::merge_io::ReadSettings;
use block_reader::ranges::RangeMerger;

fn sorted<'a>(mut columns: Vec<(usize, &'a [u8])>) -> Vec<(usize, &'a [u8])> {
    columns.sort();
    columns
}

fn read(merger: &RangeMerger, object: &[u8]) -> Vec<(usize, Vec<u8>)> {
    merger
        .ranges()
        .iter()
        .enumerate()
        .map(|(i, r)| (i, object[r.start as usize..r.end as usize].to_vec()))
        .collect()
}

#[test]
fn chunks_are_found_by_index() {
    let memory = OwnerMemory::create(vec![(0, vec![1, 2]), (7, vec![3])]);
    assert_eq!(memory.get_chunk(0, "p"), Ok(&[1u8, 2][..]));
    assert_eq!(memory.get_chunk(7, "p"), Ok(&[3u8][..]));
}

#[test]
fn later_chunk_replaces_an_earlier_one() {
    let memory = OwnerMemory::create(vec![(4, vec![1]), (4, vec![2, 2])]);
    assert_eq!(memory.get_chunk(4, "p"), Ok(&[2u8, 2][..]));
}

#[test]
fn missing_chunk_is_reported() {
    let memory = OwnerMemory::create(vec![(0, vec![1])]);
    let message = "It's a terrible bug, not found range data, merged_range_idx:12, path:a/b";
    assert_eq!(memory.get_chunk(12, "a/b"), Err(ErrorCode::Internal(message.to_string())));
    let result = MergeIOReadResult::create(memory, 0, "x".to_string());
    assert_eq!(result.get_chunk(12, "a/b"), Err(ErrorCode::Internal(message.to_string())));
    assert_eq!(result.get_chunk(0, "a/b"), Ok(&[1u8][..]));
}

#[test]
fn columns_are_slices_of_chunks() {
    let memory = OwnerMemory::create(vec![(0, vec![0, 1, 2, 3]), (1, vec![9, 8])]);
    let mut result = MergeIOReadResult::create(memory, 3, "p".to_string());
    result.add_column_chunk(0, 5, 1..3);
    result.add_column_chunk(1, 6, 0..2);
    result.add_column_chunk(0, 7, 4..4);
    assert_eq!(
        sorted(result.columns_chunks().unwrap()),
        vec![(5, &[1u8, 2][..]), (6, &[9u8, 8][..]), (7, &[][..])]
    );
}

#[test]
fn column_added_again_is_replaced() {
    let memory = OwnerMemory::create(vec![(0, vec![0, 1, 2, 3])]);
    let mut result = MergeIOReadResult::create(memory, 1, "p".to_string());
    result.add_column_chunk(0, 5, 0..1);
    result.add_column_chunk(0, 5, 2..4);
    assert_eq!(result.columns_chunks(), Ok(vec![(5, &[2u8, 3][..])]));
}

#[test]
fn result_without_columns_is_empty() {
    let result = MergeIOReadResult::create(OwnerMemory::create(vec![]), 0, "p".to_string());
    assert_eq!(result.columns_chunks(), Ok(vec![]));
}

#[test]
fn column_in_a_missing_chunk_is_reported_with_the_path() {
    let mut result =
        MergeIOReadResult::create(OwnerMemory::create(vec![]), 1, "t/block".to_string());
    result.add_column_chunk(3, 5, 0..1);
    assert_eq!(
        result.columns_chunks(),
        Err(ErrorCode::Internal(
            "It's a terrible bug, not found range data, merged_range_idx:3, path:t/block"
                .to_string()
        ))
    );
}

#[test]
fn columns_are_read_back() {
    let object: Vec<u8> = (0..200).collect();
    let raw: Vec<(usize, Range<u64>)> = vec![(2, 120..130), (0, 0..10), (1, 15..40), (9, 195..200)];
    let settings = ReadSettings {
        storage_io_min_bytes_for_seek: 10,
        storage_io_max_page_bytes_for_read: 100,
    };
    let merger = merge_ranges(&settings, &raw);
    assert_eq!(merger.ranges(), vec![0..40, 120..130, 195..200]);
    let chunks = read(&merger, &object);
    let result = collect_columns(&merger, &raw, chunks, "p".to_string()).unwrap();
    assert_eq!(
        sorted(result.columns_chunks().unwrap()),
        vec![
            (0, &object[0..10]),
            (1, &object[15..40]),
            (2, &object[120..130]),
            (9, &object[195..200]),
        ]
    );
}

#[test]
fn what_is_read_back_does_not_depend_on_the_settings() {
    let object: Vec<u8> = (0..=255).collect();
    let raw: Vec<(usize, Range<u64>)> =
        vec![(0, 0..1), (1, 3..3), (2, 2..90), (3, 85..100), (4, 140..256), (5, 101..139)];
    for gap in [0, 1, 2, 48, 300] {
        for size in [0, 10, 88, 1000] {
            let settings = ReadSettings {
                storage_io_min_bytes_for_seek: gap,
                storage_io_max_page_bytes_for_read: size,
            };
            let merger = merge_ranges(&settings, &raw);
            let chunks = read(&merger, &object);
            let result = collect_columns(&merger, &raw, chunks, "p".to_string()).unwrap();
            let expected: Vec<(usize, &[u8])> = raw
                .iter()
                .map(|(column, r)| (*column, &object[r.start as usize..r.end as usize]))
                .collect();
            assert_eq!(sorted(result.columns_chunks().unwrap()), expected);
        }
    }
}

#[test]
fn column_asked_for_twice_holds_its_last_part() {
    let object: Vec<u8> = (0..50).collect();
    let raw: Vec<(usize, Range<u64>)> = vec![(1, 0..5), (1, 10..12)];
    let merger = merge_ranges(&ReadSettings::default(), &raw);
    let chunks = read(&merger, &object);
    let result = collect_columns(&merger, &raw, chunks, "p".to_string()).unwrap();
    assert_eq!(result.columns_chunks(), Ok(vec![(1, &object[10..12])]));
}

#[test]
fn missing_request_is_reported() {
    let merger = RangeMerger::from_iter(vec![0..10, 100..110], 5, 1000);
    let raw: Vec<(usize, Range<u64>)> = vec![(0, 0..4), (1, 95..105), (2, 7..300)];
    let error = collect_columns(&merger, &raw, vec![], "t/block".to_string()).err();
    assert_eq!(
        error,
        Some(ErrorCode::Internal(
            "It's a terrible bug, not found raw range:[95..105], path:t/block from merged \
             ranges\n: [0..10, 100..110]"
                .to_string()
        ))
    );
}

#[test]
fn object_of_a_storage_is_read_back() {
    let content: Vec<u8> = (0..=255).collect();
    let operator = opendal::Operator::create(opendal::services::Memory::default())
        .unwrap()
        .finish();
    let object = operator.object("t/block");
    futures::executor::block_on(object.write(content.clone())).unwrap();

    let raw: Vec<(usize, Range<u64>)> = vec![(3, 200..256), (0, 0..16), (1, 40..60)];
    let merger = merge_ranges(&ReadSettings::default(), &raw);
    assert_eq!(merger.ranges(), vec![0..60, 200..256]);
    let mut chunks = vec![];
    for (i, r) in merger.ranges().into_iter().enumerate() {
        chunks.push((i, futures::executor::block_on(object.range_read(r)).unwrap()));
    }
    let result =
        collect_columns(&merger, &raw, chunks, object.path().to_string()).unwrap();
    assert_eq!(
        sorted(result.columns_chunks().unwrap()),
        vec![(0, &content[0..16]), (1, &content[40..60]), (3, &content[200..256])]
    );
}
