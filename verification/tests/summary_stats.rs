use bamf::error::ConfigError;
use bamf::summary::{report_lines, select_field, summary, BamSummary, SummaryField, SummaryState};

#[test]
fn summary_of_empty_stream_is_all_zero() {
    let inserts: Vec<i64> = Vec::new();
    assert_eq!(summary(&inserts), BamSummary { min: 0, max: 0, mean: 0, reads: 0 });
}

#[test]
fn summary_of_three_sizes() {
    let r = summary(&vec![100, 300, 200]);
    assert_eq!(r.min, 100);
    assert_eq!(r.max, 300);
    assert_eq!(r.reads, 3);
    // 100, then 100 + 200 / 2 = 200, then 200 + 0 / 3 = 200
    assert_eq!(r.mean, 200);
}

#[test]
fn summary_mean_truncates_each_step() {
    // 3, then 3 + (-3 / 2) = 3 - 1 = 2, then 2 + (-2 / 3) = 2 - 0 = 2; the
    // arithmetic mean would be 1.
    assert_eq!(summary(&vec![3, 0, 0]).mean, 2);
    // 1, then 1 + 1 / 2 = 1; the arithmetic mean would be 1.5.
    assert_eq!(summary(&vec![1, 2]).mean, 1);
    // 10, then 10 + (-9 / 2) = 6, then 6 + (94 / 3) = 37, then 37 + (-36 / 4) = 28
    assert_eq!(summary(&vec![10, 1, 100, 1]).mean, 28);
}

#[test]
fn summary_depends_on_order() {
    assert_eq!(summary(&vec![0, 0, 3]).mean, 1);
    assert_eq!(summary(&vec![3, 0, 0]).mean, 2);
}

#[test]
fn summary_takes_absolute_values() {
    let r = summary(&vec![-100, 300, -200]);
    assert_eq!(r, BamSummary { min: 100, max: 300, mean: 200, reads: 3 });
}

#[test]
fn summary_of_one_record() {
    assert_eq!(summary(&vec![-7]), BamSummary { min: 7, max: 7, mean: 7, reads: 1 });
}

#[test]
fn summary_of_zero_sizes_equals_empty_but_for_count() {
    assert_eq!(summary(&vec![0, 0]), BamSummary { min: 0, max: 0, mean: 0, reads: 2 });
}

#[test]
fn summary_with_extreme_sizes() {
    let r = summary(&vec![i64::MIN, 0]);
    assert_eq!(r.min, 0);
    assert_eq!(r.max, 9223372036854775808);
    assert_eq!(r.mean, 4611686018427387904);
    assert_eq!(r.reads, 2);
}

#[test]
fn summary_state_streams() {
    let mut state = SummaryState::new();
    assert_eq!(state.count(), 0);
    assert_eq!(state.result(), BamSummary { min: 0, max: 0, mean: 0, reads: 0 });
    state.observe(100);
    assert_eq!(state.result(), BamSummary { min: 100, max: 100, mean: 100, reads: 1 });
    state.observe(-300);
    assert_eq!(state.result(), BamSummary { min: 100, max: 300, mean: 200, reads: 2 });
    state.observe(50);
    assert_eq!(state.count(), 3);
    assert_eq!(state.result(), BamSummary { min: 50, max: 300, mean: 150, reads: 3 });
}

#[test]
fn summary_mean_stays_between_min_and_max() {
    let r = summary(&vec![5, 900, 17, 17, 3, 1000, 2]);
    assert!(r.min <= r.mean && r.mean <= r.max);
    assert_eq!(r.min, 2);
    assert_eq!(r.max, 1000);
}

#[test]
fn select_field_defaults_to_all() {
    assert_eq!(select_field(false, false, false, false), Ok(SummaryField::All));
}

#[test]
fn select_field_takes_the_one_set() {
    assert_eq!(select_field(true, false, false, false), Ok(SummaryField::Min));
    assert_eq!(select_field(false, true, false, false), Ok(SummaryField::Max));
    assert_eq!(select_field(false, false, true, false), Ok(SummaryField::Mean));
    assert_eq!(select_field(false, false, false, true), Ok(SummaryField::Reads));
}

#[test]
fn select_field_rejects_more_than_one() {
    assert_eq!(select_field(true, true, false, false), Err(ConfigError::ConflictingFields));
    assert_eq!(select_field(false, false, true, true), Err(ConfigError::ConflictingFields));
    assert_eq!(select_field(true, false, false, true), Err(ConfigError::ConflictingFields));
    assert_eq!(select_field(true, true, true, true), Err(ConfigError::ConflictingFields));
}

#[test]
fn report_has_four_labelled_lines() {
    let s = BamSummary { min: 100, max: 300, mean: 200, reads: 3 };
    assert_eq!(
        report_lines(&s, SummaryField::All),
        vec!["min: 100", "max: 300", "mean: 200", "reads: 3"]
    );
}

#[test]
fn report_of_one_field_is_a_bare_number() {
    let s = BamSummary { min: 100, max: 300, mean: 200, reads: 3 };
    assert_eq!(report_lines(&s, SummaryField::Min), vec!["100"]);
    assert_eq!(report_lines(&s, SummaryField::Max), vec!["300"]);
    assert_eq!(report_lines(&s, SummaryField::Mean), vec!["200"]);
    assert_eq!(report_lines(&s, SummaryField::Reads), vec!["3"]);
}

#[test]
fn report_of_empty_summary() {
    let s = BamSummary { min: 0, max: 0, mean: 0, reads: 0 };
    assert_eq!(
        report_lines(&s, SummaryField::All),
        vec!["min: 0", "max: 0", "mean: 0", "reads: 0"]
    );
}

#[test]
fn config_error_messages() {
    assert_eq!(
        ConfigError::ConflictingFields.message(),
        "only one summary field can be selected"
    );
    assert_eq!(ConfigError::OddRangeList.message(), "split bounds must come in pairs");
    assert_eq!(ConfigError::CeilingTooLarge.message(), "histogram ceiling is too large");
}
