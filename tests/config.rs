use minigrep::Config;

fn args(items: &[&str]) -> Vec<String> {
    items.iter().map(|s| s.to_string()).collect()
}

#[test]
fn config_takes_query_and_file_name() {
    let c = Config::new(&args(&["prog", "needle", "poem.txt"]), false).unwrap();
    assert_eq!("needle", c.query);
    assert_eq!("poem.txt", c.filename);
    assert!(c.case_sensitive);
}

#[test]
fn config_ignores_case_when_asked() {
    let c = Config::new(&args(&["prog", "needle", "poem.txt", "extra"]), true).unwrap();
    assert_eq!("needle", c.query);
    assert_eq!("poem.txt", c.filename);
    assert!(!c.case_sensitive);
}

#[test]
fn config_without_query_is_refused() {
    let r = Config::new(&args(&["prog"]), false);
    assert_eq!(Some("Didn't get a query string"), r.err());
    let r = Config::new(&args(&[]), true);
    assert_eq!(Some("Didn't get a query string"), r.err());
}

#[test]
fn config_without_file_name_is_refused() {
    let r = Config::new(&args(&["prog", "needle"]), false);
    assert_eq!(Some("Didn't get a file name"), r.err());
}
