use minigrep::{line_contains, search};

#[test]
fn one_result() {
    let query = "duct";
    let contents = "\
      Rust:
      safe, fast, productive.
      Pick three.
      Duct tape.";

    assert_eq!(vec!["safe, fast, productive."], search(query, contents, true));
}

#[test]
fn case_insensitive() {
    let query = "rUst";
    let contents = "\
      Rust:
      safe, fast, productive.
      Pick three.
      Trust me.";

    assert_eq!(vec!["Rust:", "Trust me."], search(query, contents, false));
}

const POEM: &str = "Rust:\nsafe, fast, productive.\nPick three.\nDuct tape.";

#[test]
fn absent_query_gives_nothing_in_either_mode() {
    assert!(search("xyz", POEM, true).is_empty());
    assert!(search("xyz", POEM, false).is_empty());
}

#[test]
fn empty_document_has_no_lines() {
    assert!(search("a", "", true).is_empty());
    assert!(search("a", "", false).is_empty());
    assert!(search("", "", true).is_empty());
    assert!(search("", "", false).is_empty());
}

#[test]
fn empty_query_returns_every_trimmed_line() {
    let doc = "  one \n\ttwo\n\n three four  ";
    assert_eq!(vec!["one", "two", "", "three four"], search("", doc, true));
}

#[test]
fn final_newline_opens_no_empty_line() {
    assert_eq!(vec!["a", "b"], search("", "a\nb\n", true));
    assert_eq!(vec!["", "a"], search("", "\na\n", true));
    assert_eq!(vec![""], search("", "\n", true));
}

#[test]
fn lines_come_in_document_order_with_duplicates() {
    let doc = "ab\ncd\nab\nxab";
    assert_eq!(vec!["ab", "ab", "xab"], search("ab", doc, true));
}

#[test]
fn search_twice_gives_the_same_lines() {
    assert_eq!(search("t", POEM, true), search("t", POEM, true));
    assert_eq!(search("T", POEM, false), search("T", POEM, false));
}

#[test]
fn ignoring_case_keeps_every_exact_match() {
    let exact = search("p", POEM, true);
    let loose = search("p", POEM, false);
    assert_eq!(vec!["safe, fast, productive.", "Duct tape."], exact);
    assert_eq!(vec!["safe, fast, productive.", "Pick three.", "Duct tape."], loose);
    for line in &exact {
        assert!(loose.contains(line));
    }
}

#[test]
fn case_sensitive_search_tells_case_apart() {
    assert_eq!(vec!["Duct tape."], search("Duct", POEM, true));
    assert_eq!(vec!["safe, fast, productive.", "Duct tape."], search("duct", POEM, false));
}

#[test]
fn trimming_keeps_inner_whitespace() {
    let doc = "   lots  of   space \t\nnone";
    assert_eq!(vec!["lots  of   space"], search("of", doc, true));
}

#[test]
fn match_is_tested_before_trimming() {
    assert_eq!(vec!["x"], search(" x", "  x\ny", true));
    assert!(search(" x", "x", true).is_empty());
}

#[test]
fn carriage_return_is_trimmed() {
    assert_eq!(vec!["alpha", "beta"], search("a", "alpha\r\nbeta\r\n", true));
}

#[test]
fn unicode_whitespace_is_trimmed() {
    assert_eq!(vec!["wide"], search("wide", "\u{3000}wide\u{a0}", true));
}

#[test]
fn non_ascii_text_is_lowered_when_case_is_ignored() {
    assert_eq!(vec!["ÄPFEL"], search("äpfel", "ÄPFEL\nbirnen", false));
    assert!(search("äpfel", "ÄPFEL\nbirnen", true).is_empty());
}

#[test]
fn result_slices_borrow_from_the_document() {
    let doc = String::from("  keep me  \ndrop");
    let found = search("keep", &doc, true);
    assert_eq!(1, found.len());
    let start = doc.as_ptr() as usize;
    let at = found[0].as_ptr() as usize;
    assert_eq!(2, at - start);
}

#[test]
fn line_contains_tests_runs_of_characters() {
    assert!(line_contains("rust:", "rust"));
    assert!(line_contains("trust me.", "rust"));
    assert!(line_contains("anything", ""));
    assert!(line_contains("", ""));
    assert!(!line_contains("Rust:", "rust"));
    assert!(!line_contains("ru", "rust"));
    assert!(!line_contains("r u s t", "rust"));
}
