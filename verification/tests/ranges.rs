use std::ops::Range;

use block_reader::merge_io::ReadSettings;
use block_reader::ranges::RangeMerger;
use block_reader::text::push_decimal;
use block_reader::text::push_range;
use block_reader::text::push_ranges;

fn merged(ranges: Vec<Range<u64>>, max_gap: u64, max_size: u64) -> Vec<Range<u64>> {
    RangeMerger::from_iter(ranges, max_gap, max_size).ranges()
}

#[test]
fn nothing_is_merged_into_nothing() {
    assert_eq!(merged(vec![], 48, 1000), Vec::<Range<u64>>::new());
}

#[test]
fn distance_below_the_gap_is_merged() {
    assert_eq!(merged(vec![0..10, 19..20], 10, 1000), vec![0..20]);
}

#[test]
fn distance_of_the_gap_is_not_merged() {
    assert_eq!(merged(vec![0..10, 20..30], 10, 1000), vec![0..10, 20..30]);
}

#[test]
fn request_of_the_page_size_is_extended() {
    assert_eq!(merged(vec![0..100, 100..110], 10, 100), vec![0..110]);
}

#[test]
fn request_above_the_page_size_is_not_extended() {
    assert_eq!(merged(vec![0..101, 101..110], 10, 100), vec![0..101, 101..110]);
}

#[test]
fn size_is_that_of_the_merged_request() {
    assert_eq!(
        merged(vec![0..40, 40..80, 80..120, 120..160], 10, 100),
        vec![0..120, 120..160]
    );
}

#[test]
fn ranges_are_merged_in_order_of_their_start() {
    assert_eq!(merged(vec![50..60, 0..10, 12..20], 5, 1000), vec![0..20, 50..60]);
}

#[test]
fn range_within_a_request_does_not_shorten_it() {
    assert_eq!(merged(vec![0..100, 10..20, 105..110], 10, 1000), vec![0..110]);
}

#[test]
fn without_a_gap_only_overlaps_are_merged() {
    assert_eq!(merged(vec![0..10, 10..20], 0, 1000), vec![0..10, 10..20]);
    assert_eq!(merged(vec![0..10, 9..20], 0, 1000), vec![0..20]);
}

#[test]
fn extreme_ranges_are_merged() {
    assert_eq!(
        merged(vec![u64::MAX..u64::MAX, 0..u64::MAX], u64::MAX, u64::MAX),
        vec![0..u64::MAX]
    );
}

#[test]
fn same_ranges_are_read_once() {
    assert_eq!(merged(vec![5..9, 5..9, 5..9], 48, 1000), vec![5..9]);
}

#[test]
fn defaults_merge_below_48_bytes() {
    let settings = ReadSettings::default();
    assert_eq!(settings.storage_io_min_bytes_for_seek, 48);
    assert_eq!(settings.storage_io_max_page_bytes_for_read, 512 * 1024);
}

#[test]
fn first_covering_request_is_found() {
    let merger = RangeMerger::from_iter(vec![0..10, 100..120, 300..310], 5, 1000);
    assert_eq!(merger.get(0..10), Some((0, 0..10)));
    assert_eq!(merger.get(105..120), Some((1, 100..120)));
    assert_eq!(merger.get(300..300), Some((2, 300..310)));
    assert_eq!(merger.get(105..121), None);
    assert_eq!(merger.get(10..100), None);
}

#[test]
fn every_range_is_covered_by_a_request() {
    let ranges = vec![900..1000, 3..4, 0..2, 70..500, 40..41, 1000..1001, 499..502];
    for gap in 0..60 {
        for size in [0, 1, 50, 400, 2000] {
            let merger = RangeMerger::from_iter(ranges.clone(), gap, size);
            assert!(merger.ranges().len() <= ranges.len());
            for r in &ranges {
                let (_, found) = merger.get(r.clone()).expect("a covering request");
                assert!(found.start <= r.start && r.end <= found.end);
            }
        }
    }
}

#[test]
fn bytes_between_requests_are_not_read() {
    let requests = merged(vec![0..10, 15..20, 80..90], 48, 1000);
    assert_eq!(requests, vec![0..20, 80..90]);
}

#[test]
fn decimals_are_written_without_leading_zeros() {
    for (n, text) in [
        (0, "0"),
        (9, "9"),
        (10, "10"),
        (1080, "1080"),
        (12345678, "12345678"),
        (u64::MAX, "18446744073709551615"),
    ] {
        let mut out = String::from("n=");
        push_decimal(&mut out, n);
        assert_eq!(out, format!("n={}", text));
    }
}

#[test]
fn ranges_are_written_as_debug_shows_them() {
    let mut one = String::new();
    push_range(&mut one, &(7..12));
    assert_eq!(one, format!("{:?}", 7..12));

    for ranges in [vec![], vec![0..1], vec![0..1, 20..300, 400..400]] {
        let ranges: Vec<Range<u64>> = ranges;
        let mut out = String::new();
        push_ranges(&mut out, ranges.as_slice());
        assert_eq!(out, format!("{:?}", ranges));
    }
}
