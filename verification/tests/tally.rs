use cargo_install_update::tally::{make_failed_report, make_overall_failed, make_overall_updated};
use cargo_install_update::tally::{make_updated_report, Outcome, Tally};

fn names(names: &[&str]) -> Vec<String> {
    names.iter().map(|n| n.to_string()).collect()
}

fn outcome(success: bool, code: Option<i32>) -> Outcome {
    Outcome { success, code }
}

#[test]
fn installs_are_told_apart_by_their_outcome() {
    let mut tally = Tally::empty();
    tally.record("a".to_string(), outcome(true, Some(0)));
    tally.record("b".to_string(), outcome(false, Some(101)));
    tally.record("c".to_string(), outcome(true, Some(0)));
    tally.record("d".to_string(), outcome(false, Some(7)));
    assert_eq!(tally.updated, names(&["a", "c"]));
    assert_eq!(tally.failed, names(&["b", "d"]));
    assert_eq!(tally.code, Some(101));
}

#[test]
fn a_process_without_exit_code_counts_as_minus_one() {
    let mut tally = Tally::empty();
    tally.record("a".to_string(), outcome(false, None));
    assert_eq!(tally.code, Some(-1));
}

#[test]
fn batches_follow_each_other() {
    let mut first = Tally::empty();
    first.record("a".to_string(), outcome(true, Some(0)));
    let mut second = Tally::empty();
    second.record("b".to_string(), outcome(false, Some(3)));
    second.record("c".to_string(), outcome(true, Some(0)));
    first.extend(second);
    assert_eq!(first.updated, names(&["a", "c"]));
    assert_eq!(first.failed, names(&["b"]));
    assert_eq!(first.code, Some(3));
    let mut third = Tally::empty();
    third.record("d".to_string(), outcome(false, Some(4)));
    first.extend(third);
    assert_eq!(first.failed, names(&["b", "d"]));
    assert_eq!(first.code, Some(3));
}

#[test]
fn reports_count_and_name_packages() {
    assert_eq!(make_updated_report("package", 0), "\nUpdated 0 packages.\n");
    assert_eq!(make_updated_report("package", 1), "\nUpdated 1 package.\n");
    assert_eq!(make_updated_report("git package", 12), "\nUpdated 12 git packages.\n");
    assert_eq!(make_failed_report(&names(&["a", "b"])), "Failed to update a, b.\n\n");
    assert_eq!(make_overall_updated(&names(&[])), "Overall updated 0 packages.\n");
    assert_eq!(make_overall_updated(&names(&["a"])), "Overall updated 1 package: a.\n");
    assert_eq!(make_overall_updated(&names(&["a", "b"])), "Overall updated 2 packages: a, b.\n");
    assert_eq!(
        make_overall_failed(&names(&["a", "b"])),
        "Overall failed to update 2 packages: a, b.\n"
    );
    assert_eq!(make_overall_failed(&names(&["a"])), "Overall failed to update 1 package: a.\n");
}
