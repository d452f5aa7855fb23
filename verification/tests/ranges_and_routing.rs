use bamf::error::ConfigError;
use bamf::range::{checked_split_ranges, prepare_split_ranges, FragmentRange};
use bamf::split::{output_path_from_prefix, route, sink_names};

fn bounds(ranges: &Vec<FragmentRange>) -> Vec<(i64, i64)> {
    ranges.iter().map(|r| (r.min(), r.max())).collect()
}

#[test]
fn default_range_is_zero_to_thousand() {
    let range = FragmentRange::new();
    assert_eq!((range.min(), range.max()), (0, 1000));
}

#[test]
fn range_bounds_come_in_either_order() {
    assert_eq!(FragmentRange::from_bounds(120, 20), FragmentRange::from_bounds(20, 120));
    let range = FragmentRange::from_bounds(120, 20);
    assert_eq!((range.min(), range.max()), (20, 120));
    let point = FragmentRange::from_bounds(7, 7);
    assert_eq!((point.min(), point.max()), (7, 7));
}

#[test]
fn range_contains_its_bounds() {
    let range = FragmentRange::from_bounds(20, 120);
    assert!(!range.contains(19));
    assert!(range.contains(20));
    assert!(range.contains(120));
    assert!(!range.contains(121));
    assert!(!range.contains(u64::MAX));
}

#[test]
fn range_with_negative_bounds() {
    let below = FragmentRange::from_bounds(-10, -1);
    assert!(!below.contains(0));
    let across = FragmentRange::from_bounds(-10, 5);
    assert!(across.contains(0));
    assert!(across.contains(5));
    assert!(!across.contains(6));
}

#[test]
fn range_suffix() {
    assert_eq!(FragmentRange::from_bounds(20, 120).suffix(), "_20to120");
    assert_eq!(FragmentRange::new().suffix(), "_0to1000");
    assert_eq!(FragmentRange::from_bounds(10, -5).suffix(), "_-5to10");
    assert_eq!(
        FragmentRange::from_bounds(i64::MIN, i64::MAX).suffix(),
        "_-9223372036854775808to9223372036854775807"
    );
}

#[test]
fn split_ranges_are_normalized_in_declared_order() {
    let ranges = prepare_split_ranges(&vec![120, 20, 300, 250]);
    assert_eq!(bounds(&ranges), vec![(20, 120), (250, 300)]);
}

#[test]
fn split_ranges_are_not_sorted() {
    let ranges = prepare_split_ranges(&vec![500, 400, 0, 10, 200, 100, 0, 10]);
    assert_eq!(bounds(&ranges), vec![(400, 500), (0, 10), (100, 200), (0, 10)]);
}

#[test]
fn split_ranges_of_empty_list() {
    assert_eq!(bounds(&prepare_split_ranges(&Vec::new())), Vec::<(i64, i64)>::new());
    assert_eq!(checked_split_ranges(&Vec::new()).map(|r| bounds(&r)), Ok(Vec::new()));
}

#[test]
fn split_ranges_leave_out_a_last_bound_without_partner() {
    assert_eq!(bounds(&prepare_split_ranges(&vec![120, 20, 300])), vec![(20, 120)]);
    assert_eq!(bounds(&prepare_split_ranges(&vec![5])), Vec::<(i64, i64)>::new());
}

#[test]
fn odd_split_list_is_rejected() {
    assert_eq!(checked_split_ranges(&vec![120, 20, 300]), Err(ConfigError::OddRangeList));
    assert_eq!(checked_split_ranges(&vec![1]), Err(ConfigError::OddRangeList));
    assert_eq!(
        checked_split_ranges(&vec![120, 20, 300, 250]).map(|r| bounds(&r)),
        Ok(vec![(20, 120), (250, 300)])
    );
}

#[test]
fn record_goes_to_first_matching_range() {
    let ranges = prepare_split_ranges(&vec![120, 20, 300, 250]);
    assert_eq!(route(&ranges, 100, false), vec![0]);
    assert_eq!(route(&ranges, -100, false), vec![0]);
    assert_eq!(route(&ranges, 100, true), vec![0]);
    assert_eq!(route(&ranges, 275, false), vec![1]);
}

#[test]
fn overlapping_ranges_without_multimembership() {
    let ranges = prepare_split_ranges(&vec![50, 150, 0, 1000, 90, 110]);
    assert_eq!(route(&ranges, 100, false), vec![0]);
    assert_eq!(route(&ranges, 10, false), vec![1]);
    let reordered = prepare_split_ranges(&vec![0, 1000, 50, 150, 90, 110]);
    assert_eq!(route(&reordered, 100, false), vec![0]);
}

#[test]
fn overlapping_ranges_with_multimembership() {
    let ranges = prepare_split_ranges(&vec![50, 150, 0, 1000, 90, 110, 200, 300]);
    assert_eq!(route(&ranges, 100, true), vec![0, 1, 2]);
    assert_eq!(route(&ranges, 10, true), vec![1]);
    assert_eq!(route(&ranges, 250, true), vec![1, 3]);
}

#[test]
fn duplicate_ranges_each_get_the_record_with_multimembership() {
    let ranges = prepare_split_ranges(&vec![0, 10, 0, 10]);
    assert_eq!(route(&ranges, 5, true), vec![0, 1]);
    assert_eq!(route(&ranges, 5, false), vec![0]);
}

#[test]
fn record_outside_every_range_is_dropped() {
    let ranges = prepare_split_ranges(&vec![120, 20, 300, 250]);
    assert_eq!(route(&ranges, 400, false), Vec::<usize>::new());
    assert_eq!(route(&ranges, 400, true), Vec::<usize>::new());
    assert_eq!(route(&ranges, 200, true), Vec::<usize>::new());
    assert_eq!(route(&ranges, i64::MIN, true), Vec::<usize>::new());
}

#[test]
fn no_ranges_no_writes() {
    assert_eq!(route(&Vec::new(), 100, true), Vec::<usize>::new());
    assert_eq!(route(&Vec::new(), 100, false), Vec::<usize>::new());
}

#[test]
fn output_path_joins_prefix_suffix_and_extension() {
    assert_eq!(
        output_path_from_prefix(
            Some("bam"),
            Some(String::from("out/sample")),
            Some(String::from("_20to120"))
        ),
        "out/sample_20to120.bam"
    );
}

#[test]
fn output_path_parts_may_be_absent() {
    assert_eq!(output_path_from_prefix(None, None, None), "");
    assert_eq!(output_path_from_prefix(Some("bam"), None, None), ".bam");
    assert_eq!(output_path_from_prefix(None, Some(String::from("p")), None), "p");
    assert_eq!(output_path_from_prefix(None, None, Some(String::from("_s"))), "_s");
    assert_eq!(
        output_path_from_prefix(None, Some(String::from("p")), Some(String::from("_s"))),
        "p_s"
    );
}

#[test]
fn sink_names_follow_the_ranges() {
    let ranges = prepare_split_ranges(&vec![120, 20, 300, 250]);
    assert_eq!(
        sink_names(&ranges, "frag", Some("bam")),
        vec!["frag_20to120.bam", "frag_250to300.bam"]
    );
    assert_eq!(sink_names(&ranges, "frag", None), vec!["frag_20to120", "frag_250to300"]);
    assert_eq!(sink_names(&Vec::new(), "frag", Some("bam")), Vec::<String>::new());
}

fn sized(insert_size: i64) -> bamf::fragment::AlignmentRecord {
    bamf::fragment::AlignmentRecord {
        insert_size,
        tid: 0,
        pos: 10,
        mpos: 20,
        proper_pair: true,
        first_in_template: false,
        cigar_len: 2,
    }
}

#[test]
fn split_sends_each_record_to_its_first_range() {
    let ranges = prepare_split_ranges(&vec![120, 20, 300, 250]);
    let records = vec![sized(100), sized(400), sized(275), sized(-30), sized(250)];
    assert_eq!(
        bamf::split::split_records(&records, &ranges, false),
        vec![vec![sized(100), sized(-30)], vec![sized(275), sized(250)]]
    );
}

#[test]
fn split_with_multimembership_copies_into_every_matching_range() {
    let ranges = prepare_split_ranges(&vec![50, 150, 0, 1000, 90, 110]);
    let records = vec![sized(100), sized(10), sized(-95), sized(2000), sized(150)];
    assert_eq!(
        bamf::split::split_records(&records, &ranges, true),
        vec![
            vec![sized(100), sized(-95), sized(150)],
            vec![sized(100), sized(10), sized(-95), sized(150)],
            vec![sized(100), sized(-95)],
        ]
    );
    assert_eq!(
        bamf::split::split_records(&records, &ranges, false),
        vec![vec![sized(100), sized(-95), sized(150)], vec![sized(10)], vec![]]
    );
}

#[test]
fn split_drops_records_outside_every_range() {
    let ranges = prepare_split_ranges(&vec![120, 20, 300, 250]);
    let records = vec![sized(400), sized(0), sized(200)];
    let empty: Vec<Vec<bamf::fragment::AlignmentRecord>> = vec![vec![], vec![]];
    assert_eq!(bamf::split::split_records(&records, &ranges, false), empty);
    assert_eq!(bamf::split::split_records(&records, &ranges, true), empty);
}

#[test]
fn split_without_ranges_or_records() {
    let none: Vec<Vec<bamf::fragment::AlignmentRecord>> = Vec::new();
    assert_eq!(bamf::split::split_records(&vec![sized(1)], &Vec::new(), true), none);
    let ranges = prepare_split_ranges(&vec![0, 10]);
    let empty: Vec<Vec<bamf::fragment::AlignmentRecord>> = vec![vec![]];
    assert_eq!(bamf::split::split_records(&Vec::new(), &ranges, false), empty);
}
