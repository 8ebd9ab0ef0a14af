use rsdiff::aggregate_directory;
use rsdiff::check_file_sizes;
use rsdiff::classify_target;
use rsdiff::diff_buffer;
use rsdiff::diff_transmute_buffers_i16;
use rsdiff::diff_transmute_buffers_i32;
use rsdiff::diff_transmute_buffers_i64;
use rsdiff::diff_transmute_buffers_u16;
use rsdiff::diff_transmute_buffers_u32;
use rsdiff::diff_transmute_buffers_u64;
use rsdiff::dispatch::str_ends_with;
use rsdiff::partition_entries;
use rsdiff::ByteScan;
use rsdiff::Diff;
use rsdiff::Similarity;
use rsdiff::SizeCheck;
use rsdiff::TargetKind;
use rsdiff::TypedScan;

fn names(v: &[&str]) -> Vec<String> {
    v.iter().map(|s| s.to_string()).collect()
}

#[test]
fn diff_buffer_counts_matching_bytes() {
    assert_eq!(diff_buffer(&[1, 2, 3, 4], &[1, 9, 3, 9]), 2);
    assert_eq!(diff_buffer(&[1, 2, 3], &[1, 2, 3]), 3);
    assert_eq!(diff_buffer(&[], &[]), 0);
}

#[test]
fn transmute_u16_counts_whole_elements() {
    // Two whole elements; the trailing odd byte is ignored.
    let left = [1, 0, 2, 0, 7];
    let right = [1, 0, 9, 0, 7];
    assert_eq!(diff_transmute_buffers_u16(&left, &right), 1);
    assert_eq!(diff_transmute_buffers_i16(&left, &right), 1);
}

#[test]
fn transmute_equal_bytes_in_different_elements_do_not_match() {
    // Byte-wise 3 of 4 bytes agree, but neither 16-bit element does.
    let left = [1, 0, 2, 0];
    let right = [1, 1, 2, 1];
    assert_eq!(diff_buffer(&left, &right), 2);
    assert_eq!(diff_transmute_buffers_u16(&left, &right), 0);
}

#[test]
fn transmute_32_and_64_bit_widths() {
    let left = [1, 2, 3, 4, 5, 6, 7, 8];
    let mut right = left;
    assert_eq!(diff_transmute_buffers_u32(&left, &right), 2);
    assert_eq!(diff_transmute_buffers_i32(&left, &right), 2);
    assert_eq!(diff_transmute_buffers_u64(&left, &right), 1);
    assert_eq!(diff_transmute_buffers_i64(&left, &right), 1);
    right[7] = 9;
    assert_eq!(diff_transmute_buffers_u32(&left, &right), 1);
    assert_eq!(diff_transmute_buffers_u64(&left, &right), 0);
}

#[test]
fn bytescan_identical_files() {
    let mut scan = ByteScan::new();
    assert!(scan.step(&[1, 2, 3], &[1, 2, 3]));
    let d = scan.finish("a.bin", "b.bin");
    assert!(d.matches);
    assert_eq!(d.similarity, Some(Similarity { matched: 3, total: 3 }));
    assert_eq!(d.additional_info, "");
    assert_eq!(d.report, "");
}

#[test]
fn bytescan_partial_match() {
    let mut scan = ByteScan::new();
    assert!(scan.step(&[1, 2, 3, 4], &[1, 9, 3, 9]));
    let d = scan.finish("a.bin", "b.bin");
    assert!(!d.matches);
    assert_eq!(d.similarity, Some(Similarity { matched: 2, total: 4 }));
    assert_eq!(d.additional_info, "2 of 4 bytes match (50.0%)");
    assert_eq!(d.report, "a.bin vs b.bin: 2 of 4 bytes match (50.0%)");
}

#[test]
fn bytescan_empty_streams_match() {
    let scan = ByteScan::new();
    let d = scan.finish("a", "b");
    assert!(d.matches);
    assert_eq!(d.similarity, Some(Similarity { matched: 0, total: 0 }));
    assert_eq!(d.report, "");
}

#[test]
fn bytescan_accumulates_across_chunks() {
    let mut scan = ByteScan::new();
    assert!(scan.step(&[1, 2], &[1, 9]));
    assert!(scan.step(&[3], &[3]));
    assert_eq!(scan.matched(), 2);
    assert_eq!(scan.seen(), 3);
    let d = scan.finish("a", "b");
    assert!(!d.matches);
    assert_eq!(d.similarity, Some(Similarity { matched: 2, total: 3 }));
}

#[test]
fn bytescan_refuses_desynchronized_chunks() {
    let mut scan = ByteScan::new();
    assert!(!scan.step(&[1, 2], &[1]));
    assert_eq!(scan.seen(), 0);
    assert_eq!(scan.matched(), 0);
}

#[test]
fn size_check_short_circuits_on_mismatch() {
    match check_file_sizes("a", "b", 3, 5) {
        SizeCheck::Scan => panic!("sizes differ, no scan expected"),
        SizeCheck::Mismatch(d) => {
            assert!(!d.matches);
            assert_eq!(d.additional_info, "file sizes differ: 3 vs 5");
            assert_eq!(d.report, "a vs b: file sizes differ: 3 vs 5");
            assert_eq!(d.similarity, None);
        },
    }
}

#[test]
fn size_check_scans_on_equal_sizes() {
    assert!(matches!(check_file_sizes("a", "b", 7, 7), SizeCheck::Scan));
}

#[test]
fn typedscan_carries_elements_across_chunk_boundaries() {
    // Two 4-byte elements, split 5 + 3 so one element straddles the boundary.
    let left = [1u8, 0, 0, 0, 2, 0, 0, 0];
    let right = [1u8, 0, 0, 0, 2, 0, 0, 0];
    let mut scan = TypedScan::new(4);
    assert!(scan.step(&left[..5], &right[..5]));
    assert_eq!(scan.matched(), 1);
    assert!(scan.step(&left[5..], &right[5..]));
    assert_eq!(scan.matched(), 2);
}

#[test]
fn typedscan_counts_mismatching_elements() {
    let left = [1u8, 0, 2, 0, 3, 0];
    let right = [1u8, 0, 9, 0, 3, 0];
    let mut scan = TypedScan::new(2);
    assert!(scan.step(&left, &right));
    assert_eq!(scan.matched(), 2);
}

#[test]
fn typedscan_ignores_trailing_partial_element() {
    let left = [1u8, 0, 0, 7];
    let right = [1u8, 0, 0, 9];
    let mut scan = TypedScan::new(3);
    assert!(scan.step(&left, &right));
    assert_eq!(scan.matched(), 1);
}

#[test]
fn typedscan_refuses_desynchronized_chunks() {
    let mut scan = TypedScan::new(2);
    assert!(!scan.step(&[1, 2, 3], &[1, 2]));
    assert_eq!(scan.matched(), 0);
}

#[test]
fn partition_splits_listings() {
    let left = names(&["a", "b"]);
    let right = names(&["a", "b", "c"]);
    let (left_only, right_only, common) = partition_entries(&left, &right);
    assert_eq!(left_only, names(&[]));
    assert_eq!(right_only, names(&["c"]));
    assert_eq!(common, names(&["a", "b"]));
}

#[test]
fn partition_keeps_listing_order() {
    let left = names(&["z", "m", "a"]);
    let right = names(&["a", "q", "z"]);
    let (left_only, right_only, common) = partition_entries(&left, &right);
    assert_eq!(common, names(&["z", "a"]));
    assert_eq!(left_only, names(&["m"]));
    assert_eq!(right_only, names(&["q"]));
}

#[test]
fn partition_places_every_name_in_exactly_one_class() {
    let left = names(&["a", "b", "d"]);
    let right = names(&["b", "c", "d"]);
    let (left_only, right_only, common) = partition_entries(&left, &right);
    for name in left.iter().chain(right.iter()) {
        let classes = [
            common.contains(name),
            left_only.contains(name),
            right_only.contains(name),
        ];
        assert_eq!(classes.iter().filter(|c| **c).count(), 1);
    }
}

fn matching_sub(left: &str, right: &str) -> Diff {
    let mut scan = ByteScan::new();
    assert!(scan.step(&[1, 2, 3], &[1, 2, 3]));
    scan.finish(left, right)
}

fn mismatching_sub(left: &str, right: &str) -> Diff {
    let mut scan = ByteScan::new();
    assert!(scan.step(&[1, 2], &[1, 9]));
    scan.finish(left, right)
}

#[test]
fn directory_with_one_extra_file() {
    let left = names(&["a", "b"]);
    let right = names(&["a", "b", "c"]);
    let (left_only, right_only, common) = partition_entries(&left, &right);
    let subs = vec![matching_sub("l/a", "r/a"), matching_sub("l/b", "r/b")];
    let d = aggregate_directory("l", "r", left_only, right_only, common, subs);
    assert!(!d.matches);
    assert_eq!(d.left_only, names(&[]));
    assert_eq!(d.right_only, names(&["c"]));
    assert_eq!(d.report, "l vs r\nOnly in r: c\n");
    assert_eq!(d.similarity, None);
    assert_eq!(d.additional_info, "");
}

#[test]
fn directory_matches_when_sets_empty_and_children_match() {
    let subs = vec![matching_sub("l/a", "r/a"), matching_sub("l/b", "r/b")];
    let d = aggregate_directory(
        "l",
        "r",
        names(&[]),
        names(&[]),
        names(&["a", "b"]),
        subs,
    );
    assert!(d.matches);
    assert_eq!(d.report, "");
    assert_eq!(d.additional_info, "");
}

#[test]
fn directory_flips_with_its_single_failing_child() {
    let good = vec![matching_sub("l/a", "r/a"), matching_sub("l/b", "r/b")];
    let with_bad = vec![matching_sub("l/a", "r/a"), mismatching_sub("l/b", "r/b")];
    let parent_good =
        aggregate_directory("l", "r", names(&[]), names(&[]), names(&["a", "b"]), good);
    let parent_bad =
        aggregate_directory("l", "r", names(&[]), names(&[]), names(&["a", "b"]), with_bad);
    assert!(parent_good.matches);
    assert!(!parent_bad.matches);
    assert_eq!(
        parent_bad.report,
        "l vs r\nl/b vs r/b: 1 of 2 bytes match (50.0%)\n"
    );
}

#[test]
fn directory_lists_both_exclusive_sets() {
    let left = names(&["a", "x", "y"]);
    let right = names(&["a", "q"]);
    let (left_only, right_only, common) = partition_entries(&left, &right);
    let subs = vec![matching_sub("l/a", "r/a")];
    let d = aggregate_directory("l", "r", left_only, right_only, common, subs);
    assert!(!d.matches);
    assert_eq!(d.report, "l vs r\nOnly in l: x, y\nOnly in r: q\n");
}

#[test]
fn reflexive_directory_comparison_matches() {
    let listing = names(&["a", "b", "c"]);
    let (left_only, right_only, common) = partition_entries(&listing, &listing);
    assert_eq!(left_only, names(&[]));
    assert_eq!(right_only, names(&[]));
    assert_eq!(common, listing);
    let subs = vec![
        matching_sub("d/a", "d/a"),
        matching_sub("d/b", "d/b"),
        matching_sub("d/c", "d/c"),
    ];
    let d = aggregate_directory("d", "d", left_only, right_only, common, subs);
    assert!(d.matches);
}

#[test]
fn reflexive_file_comparison_matches() {
    let bytes = [5u8, 6, 7, 8, 9];
    let mut scan = ByteScan::new();
    assert!(scan.step(&bytes, &bytes));
    let d = scan.finish("x.bin", "x.bin");
    assert!(d.matches);
    assert_eq!(d.similarity, Some(Similarity { matched: 5, total: 5 }));
}

#[test]
fn classify_picks_the_comparator() {
    assert_eq!(classify_target(true, "anything.nii"), TargetKind::Directory);
    assert_eq!(classify_target(false, "brain.nii"), TargetKind::Image);
    assert_eq!(classify_target(false, "brain.nii.gz"), TargetKind::Image);
    assert_eq!(classify_target(false, "notes.txt"), TargetKind::GenericFile);
    assert_eq!(classify_target(false, "nii"), TargetKind::GenericFile);
}

#[test]
fn suffix_test_matches_string_ends() {
    assert!(str_ends_with("brain.nii.gz", "gz"));
    assert!(str_ends_with("brain.nii.gz", ".nii.gz"));
    assert!(!str_ends_with("brain.nii", ".nii.gz"));
    assert!(str_ends_with("x", ""));
    assert!(!str_ends_with("", "x"));
}

#[test]
fn diff_new_is_the_default_record() {
    let d = Diff::new("a", "b");
    assert_eq!(d.left, "a");
    assert_eq!(d.right, "b");
    assert!(!d.matches);
    assert_eq!(d.similarity, None);
    assert!(d.left_only.is_empty());
    assert!(d.right_only.is_empty());
    assert!(d.common.is_empty());
    assert!(d.sub_diffs.is_empty());
    assert_eq!(d.additional_info, "");
    assert_eq!(d.report, "");
}
