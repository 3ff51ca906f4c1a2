use jarman::files::{dedup_lines, file_lines, get_paths};

fn strings(v: &[&str]) -> Vec<String> {
    v.iter().map(|s| s.to_string()).collect()
}

#[test]
fn an_unopened_file_has_no_lines() {
    assert_eq!(file_lines(None), Vec::<String>::new());
}

#[test]
fn unreadable_lines_are_left_out() {
    let read = vec![Some("a".to_string()), None, Some("".to_string()), Some("c".to_string())];
    assert_eq!(file_lines(Some(read)), strings(&["a", "", "c"]));
}

#[test]
fn paths_are_trimmed_existing_non_comment_lines() {
    let lines = strings(&["  /srv/one  ", "# /srv/commented", "", "   ", "/srv/missing", "\t/srv/two"]);
    let exists = vec![true, true, false, false, false, true];
    assert_eq!(get_paths(&lines, &exists), strings(&["/srv/one", "/srv/two"]));
}

#[test]
fn repeats_on_consecutive_lines_are_dropped() {
    let lines = strings(&["/a", " /a", "/b", "/a", "/a\t"]);
    let exists = vec![true; 5];
    assert_eq!(get_paths(&lines, &exists), strings(&["/a", "/b", "/a"]));
}

#[test]
fn a_missing_path_between_repeats_joins_them() {
    let lines = strings(&["/a", "/gone", "/a"]);
    let exists = vec![true, false, true];
    assert_eq!(get_paths(&lines, &exists), strings(&["/a"]));
}

#[test]
fn a_comment_only_needs_its_first_character() {
    let lines = strings(&["  #/x", "/y#z"]);
    let exists = vec![true, true];
    assert_eq!(get_paths(&lines, &exists), strings(&["/y#z"]));
}

#[test]
fn listed_paths_hold_no_repeat_in_a_row() {
    let lines = strings(&["/a", "/a", "/b", "/b", "/a", "/c", "/c"]);
    let exists = vec![true; 7];
    let r = get_paths(&lines, &exists);
    for w in r.windows(2) {
        assert_ne!(w[0], w[1]);
    }
}

#[test]
fn listed_paths_list_themselves() {
    let lines = strings(&[" /a ", "#x", "/a", "", "/b "]);
    let exists = vec![true; 5];
    let r = get_paths(&lines, &exists);
    let again = get_paths(&r, &vec![true; r.len()]);
    assert_eq!(again, r);
}

#[test]
fn dedup_keeps_the_first_of_each_run() {
    assert_eq!(dedup_lines(strings(&["x", "x", "y", "x"])), strings(&["x", "y", "x"]));
    assert_eq!(dedup_lines(Vec::new()), Vec::<String>::new());
}
