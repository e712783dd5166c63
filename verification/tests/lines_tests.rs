use bulkrename::lines::destination_lines;
use bulkrename::lines::render_lines;
use bulkrename::lines::split_lines;

#[test]
fn render_empty_list_is_empty() {
    let lines: Vec<Vec<u8>> = vec![];
    assert_eq!(render_lines(&lines), Vec::<u8>::new());
}

#[test]
fn render_appends_a_terminator_after_each_line() {
    let lines = vec![b"a.txt".to_vec(), b"b.txt".to_vec()];
    assert_eq!(render_lines(&lines), b"a.txt\nb.txt\n".to_vec());
}

#[test]
fn split_empty_contents_yields_no_lines() {
    assert_eq!(split_lines(&Vec::new()), Vec::<Vec<u8>>::new());
}

#[test]
fn split_terminated_lines() {
    let r = split_lines(&b"a\nbc\n".to_vec());
    assert_eq!(r, vec![b"a".to_vec(), b"bc".to_vec()]);
}

#[test]
fn split_keeps_an_unterminated_final_line() {
    let r = split_lines(&b"a\nbc".to_vec());
    assert_eq!(r, vec![b"a".to_vec(), b"bc".to_vec()]);
}

#[test]
fn split_sees_blank_lines() {
    let r = split_lines(&b"\n\n".to_vec());
    assert_eq!(r, vec![Vec::<u8>::new(), Vec::<u8>::new()]);
}

#[test]
fn splitting_what_was_rendered_gives_the_list_back() {
    let lines = vec![b"one".to_vec(), b"two".to_vec(), b"three".to_vec()];
    assert_eq!(split_lines(&render_lines(&lines)), lines);
}

#[test]
fn destination_lines_drop_blank_lines() {
    let r = destination_lines(&b"a.txt\n\nb.txt\n".to_vec());
    assert_eq!(r, vec![b"a.txt".to_vec(), b"b.txt".to_vec()]);
}

#[test]
fn trailing_blank_lines_do_not_count() {
    let plain = destination_lines(&b"a.txt\nb.txt\n".to_vec());
    let padded = destination_lines(&b"a.txt\nb.txt\n\n\n\n".to_vec());
    assert_eq!(plain, padded);
    assert_eq!(padded.len(), 2);
}

#[test]
fn destination_lines_of_only_blanks_are_empty() {
    assert_eq!(destination_lines(&b"\n\n\n".to_vec()), Vec::<Vec<u8>>::new());
}
