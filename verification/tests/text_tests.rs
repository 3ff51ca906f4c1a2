use jarman::text::{split_lines, trim_text};

fn strings(v: &[&str]) -> Vec<String> {
    v.iter().map(|s| s.to_string()).collect()
}

#[test]
fn trim_removes_surrounding_white_space() {
    assert_eq!(trim_text("  /home/me/project \t"), "/home/me/project");
    assert_eq!(trim_text("\u{a0}\u{3000}x y\u{2029}\n"), "x y");
    assert_eq!(trim_text(" \t\r\n"), "");
    assert_eq!(trim_text(""), "");
    assert_eq!(trim_text("abc"), "abc");
}

#[test]
fn trim_matches_std_trim() {
    for s in ["", " a ", "\u{85}b\u{85}", "\u{200b}c", "x\u{1680}", " \u{205f} q w \u{202f}"] {
        assert_eq!(trim_text(s), s.trim());
    }
}

#[test]
fn trim_is_idempotent() {
    let once = trim_text("\t  build-paths  \n");
    assert_eq!(trim_text(&once), once);
}

#[test]
fn lines_are_split_as_str_lines() {
    assert_eq!(split_lines(""), Vec::<String>::new());
    assert_eq!(split_lines("a"), strings(&["a"]));
    assert_eq!(split_lines("a\n"), strings(&["a"]));
    assert_eq!(split_lines("a\n\n"), strings(&["a", ""]));
    assert_eq!(split_lines("\n"), strings(&[""]));
    assert_eq!(split_lines("a\r\nb\nc"), strings(&["a", "b", "c"]));
    assert_eq!(split_lines("a\rb\r"), strings(&["a\rb\r"]));
    assert_eq!(split_lines("\r\n\r\n"), strings(&["", ""]));
}

#[test]
fn lines_match_std_lines() {
    for s in ["", "x", "x\n", "x\r\n", "a\nb\r\nc\r", "\n\n\r\n", "end\r"] {
        let expected: Vec<String> = s.lines().map(|l| l.to_string()).collect();
        assert_eq!(split_lines(s), expected);
    }
}

#[test]
fn a_final_line_ending_changes_nothing() {
    assert_eq!(split_lines("one\ntwo\n"), split_lines("one\ntwo"));
    assert_eq!(split_lines("one\ntwo\r\n"), split_lines("one\ntwo"));
}

#[test]
fn no_line_holds_a_line_feed() {
    for l in split_lines("a\nb\r\n\nc") {
        assert!(!l.contains('\n'));
    }
}

#[test]
fn joined_lines_end_each_with_a_line_feed() {
    assert_eq!(jarman::text::join_lines(&strings(&["a", "", "b c"])), "a\n\nb c\n");
    assert_eq!(jarman::text::join_lines(&Vec::new()), "");
}

#[test]
fn joined_lines_split_back_into_themselves() {
    for v in [strings(&["x", "", "y z"]), strings(&[""]), Vec::new(), strings(&["\tt "])] {
        assert_eq!(split_lines(&jarman::text::join_lines(&v)), v);
    }
}

#[test]
fn a_line_ending_with_a_carriage_return_loses_it_on_the_way_back() {
    let v = strings(&["a\r"]);
    assert_eq!(split_lines(&jarman::text::join_lines(&v)), strings(&["a"]));
}
