use bulkrename::error::Error;
use bulkrename::executor::Executor;
use bulkrename::plan::plan;
use bulkrename::plan::plan_edited;
use bulkrename::plan::Rename;

fn paths(names: &[&str]) -> Vec<Vec<u8>> {
    names.iter().map(|n| n.as_bytes().to_vec()).collect()
}

#[test]
fn one_changed_line_plans_exactly_one_rename() {
    let sources = paths(&["a.txt", "b.txt"]);
    let destinations = paths(&["a.txt", "c.txt"]);
    let records = plan(&sources, &destinations).unwrap();
    assert_eq!(
        records,
        vec![Rename { source: b"b.txt".to_vec(), destination: b"c.txt".to_vec() }]
    );
}

#[test]
fn renames_are_counted_per_differing_position() {
    let sources = paths(&["a", "b", "c", "d"]);
    let destinations = paths(&["a", "x", "c", "y"]);
    let records = plan(&sources, &destinations).unwrap();
    assert_eq!(records.len(), 2);
    assert_eq!(records[0].source, b"b".to_vec());
    assert_eq!(records[0].destination, b"x".to_vec());
    assert_eq!(records[1].source, b"d".to_vec());
    assert_eq!(records[1].destination, b"y".to_vec());
}

#[test]
fn length_mismatch_is_an_invalid_file_list() {
    let sources = paths(&["a", "b"]);
    let destinations = paths(&["a"]);
    assert_eq!(plan(&sources, &destinations).unwrap_err(), Error::InvalidFileList);
}

#[test]
fn identical_lists_plan_nothing() {
    let sources = paths(&["a.txt", "b.txt"]);
    let destinations = paths(&["a.txt", "b.txt"]);
    let records = plan(&sources, &destinations).unwrap();
    assert!(records.is_empty());
    let ex = Executor::new(records);
    assert_eq!(ex.performed(), 0);
    assert!(ex.next_pending().is_none());
}

#[test]
fn empty_lists_plan_nothing() {
    let records = plan(&Vec::new(), &Vec::new()).unwrap();
    assert!(records.is_empty());
}

#[test]
fn executor_hands_records_out_in_order_and_counts_them() {
    let sources = paths(&["a", "b", "c"]);
    let destinations = paths(&["x", "b", "z"]);
    let records = plan(&sources, &destinations).unwrap();
    let mut ex = Executor::new(records);
    let first = ex.next_pending().unwrap().clone();
    assert_eq!(first.source, b"a".to_vec());
    assert_eq!(first.destination, b"x".to_vec());
    ex.mark_performed();
    assert_eq!(ex.performed(), 1);
    let second = ex.next_pending().unwrap().clone();
    assert_eq!(second.source, b"c".to_vec());
    assert_eq!(second.destination, b"z".to_vec());
    ex.mark_performed();
    assert!(ex.next_pending().is_none());
    assert_eq!(ex.performed(), 2);
}

#[test]
fn executor_stops_counting_when_the_caller_stops_after_a_failure() {
    let sources = paths(&["a", "b"]);
    let destinations = paths(&["x", "y"]);
    let records = plan(&sources, &destinations).unwrap();
    let mut ex = Executor::new(records);
    let _first = ex.next_pending().unwrap();
    ex.mark_performed();
    // the second rename fails: the caller walks away without marking it
    assert_eq!(ex.performed(), 1);
}

#[test]
fn plan_edited_pairs_sources_with_the_files_lines() {
    let sources = paths(&["a.txt", "b.txt"]);
    let records = plan_edited(&sources, &b"a.txt\nc.txt\n".to_vec()).unwrap();
    assert_eq!(
        records,
        vec![Rename { source: b"b.txt".to_vec(), destination: b"c.txt".to_vec() }]
    );
}

#[test]
fn plan_edited_ignores_trailing_blank_lines() {
    let sources = paths(&["a.txt", "b.txt"]);
    let records = plan_edited(&sources, &b"a.txt\nc.txt\n\n\n".to_vec()).unwrap();
    assert_eq!(records.len(), 1);
    assert_eq!(records[0].destination, b"c.txt".to_vec());
}

#[test]
fn plan_edited_rejects_a_shortened_list() {
    let sources = paths(&["a.txt", "b.txt"]);
    let r = plan_edited(&sources, &b"a.txt\n".to_vec());
    assert_eq!(r.unwrap_err(), Error::InvalidFileList);
}

#[test]
fn plan_edited_rejects_an_extended_list() {
    let sources = paths(&["a.txt"]);
    let r = plan_edited(&sources, &b"a.txt\nb.txt\n".to_vec());
    assert_eq!(r.unwrap_err(), Error::InvalidFileList);
}

#[test]
fn unedited_scratch_contents_plan_zero_renames() {
    let sources = paths(&["a.txt", "b.txt"]);
    let scratch = bulkrename::lines::render_lines(&sources);
    let records = plan_edited(&sources, &scratch).unwrap();
    assert!(records.is_empty());
    assert_eq!(Executor::new(records).performed(), 0);
}

#[test]
fn plan_is_indifferent_to_the_replace_flag() {
    // whether an existing destination may be overwritten is decided at
    // execution time; the planner emits the record either way
    let sources = paths(&["b.txt"]);
    let destinations = paths(&["c.txt"]);
    let records = plan(&sources, &destinations).unwrap();
    assert_eq!(records.len(), 1);
}
