use minigrep::config::{run_search, Config, ConfigError};
use minigrep::search::{matches_folded, search, search_case_insensitive};
use minigrep::text::{chars_of, contains_in, is_whitespace, trim_bounds};

#[test]
fn one_result() {
    let query = "duct";
    let contents = "\
        Rust:
        safe, fast, productive.
        Pick three.
        Duct tape.";

    assert_eq!(vec!["safe, fast, productive."], search(query, contents));
}

#[test]
fn case_insensitive() {
    let query = "RuSt";
    let contents = "\
        Rust:
        safe, fast, productive.
        Pick three.
        Trust me.";

    assert_eq!(vec!["Rust:", "Trust me."], search_case_insensitive(query, contents));
}

#[test]
fn scenario_exact_search() {
    let contents = "Rust:\nsafe, fast, productive.\nPick three.\nDuct tape.";
    assert_eq!(vec!["safe, fast, productive."], search("duct", contents));
}

#[test]
fn scenario_case_insensitive_search() {
    let contents = "Rust:\nsafe, fast, productive.\nPick three.\nTrust me.";
    assert_eq!(vec!["Rust:", "Trust me."], search_case_insensitive("RuSt", contents));
}

#[test]
fn exact_search_respects_case() {
    let contents = "Rust:\nsafe, fast, productive.\nPick three.\nTrust me.";
    assert_eq!(vec!["Trust me."], search("rust", contents));
    assert_eq!(Vec::<&str>::new(), search("RuSt", contents));
}

#[test]
fn case_insensitive_finds_at_least_exact() {
    let contents = "alpha\nBeta\nbeta\ngamma";
    let exact = search("beta", contents);
    let folded = search_case_insensitive("beta", contents);
    assert_eq!(vec!["beta"], exact);
    assert_eq!(vec!["Beta", "beta"], folded);
    assert!(folded.len() >= exact.len());
}

#[test]
fn search_twice_gives_same_lines() {
    let contents = "one two\nthree\n  two three  \n";
    let first = search("two", contents);
    let second = search("two", contents);
    assert_eq!(first, second);
    assert_eq!(vec!["one two", "two three"], first);
}

#[test]
fn empty_contents_gives_nothing() {
    assert_eq!(Vec::<&str>::new(), search("x", ""));
    assert_eq!(Vec::<&str>::new(), search("", ""));
    assert_eq!(Vec::<&str>::new(), search_case_insensitive("X", ""));
}

#[test]
fn empty_query_gives_every_line_trimmed() {
    let contents = "  a \n\nb\t\n c";
    assert_eq!(vec!["a", "", "b", "c"], search("", contents));
    assert_eq!(vec!["a", "", "b", "c"], search_case_insensitive("", contents));
}

#[test]
fn no_match_is_empty() {
    assert_eq!(Vec::<&str>::new(), search("zebra", "apple\nbanana\n"));
}

#[test]
fn trailing_newline_adds_no_line() {
    assert_eq!(vec!["x", "x"], search("", "x\nx\n"));
    assert_eq!(vec!["", "x"], search("", "\nx"));
}

#[test]
fn carriage_return_before_newline_ends_line() {
    assert_eq!(vec!["ab"], search("ab", "ab\r\ncd\r\n"));
    assert_eq!(Vec::<&str>::new(), search("b\r", "ab\r\ncd"));
    assert_eq!(vec!["cd"], search("d\r", "ab\ncd\r"));
}

#[test]
fn unicode_whitespace_is_trimmed() {
    let contents = "\u{3000}\u{a0}wide\u{2003}\nnarrow\u{85}";
    assert_eq!(vec!["wide", "narrow"], search("", contents));
}

#[test]
fn non_ascii_case_insensitive() {
    let contents = "Straße\nÄPFEL und Birnen\nkeine";
    assert_eq!(vec!["ÄPFEL und Birnen"], search_case_insensitive("äpfel", contents));
    assert_eq!(Vec::<&str>::new(), search("äpfel", contents));
}

#[test]
fn matches_folded_checks_substring() {
    assert!(matches_folded("rust", "trust me."));
    assert!(matches_folded("", "anything"));
    assert!(!matches_folded("rust", "TRUST ME."));
    assert!(!matches_folded("longer than line", "short"));
}

#[test]
fn contains_in_looks_only_at_range() {
    let hay = chars_of("abcdef");
    let needle = chars_of("cd");
    assert!(contains_in(&hay, 1, 5, &needle));
    assert!(!contains_in(&hay, 3, 6, &needle));
    assert!(contains_in(&hay, 2, 2, &chars_of("")));
}

#[test]
fn trim_bounds_skips_whitespace() {
    let cs = chars_of("  ab c \t");
    assert_eq!((2, 6), trim_bounds(&cs, 0, cs.len()));
    assert_eq!((2, 2), trim_bounds(&cs, 0, 2));
    assert_eq!((3, 4), trim_bounds(&cs, 3, 5));
}

#[test]
fn whitespace_classes() {
    assert!(is_whitespace(' '));
    assert!(is_whitespace('\n'));
    assert!(is_whitespace('\u{2028}'));
    assert!(!is_whitespace('a'));
    assert!(!is_whitespace('\u{200b}'));
    assert_eq!(chars_of("aé"), vec!['a', 'é']);
}

fn args(items: &[&str]) -> Vec<String> {
    items.iter().map(|s| s.to_string()).collect()
}

#[test]
fn missing_filename_is_reported() {
    let r = Config::new(args(&["minigrep", "query"]), false);
    assert!(matches!(r, Err(ConfigError::MissingFilename)));
}

#[test]
fn missing_query_is_reported() {
    assert!(matches!(Config::new(args(&["minigrep"]), false), Err(ConfigError::MissingQuery)));
    assert!(matches!(Config::new(Vec::new(), true), Err(ConfigError::MissingQuery)));
}

#[test]
fn config_from_arguments() {
    let c = Config::new(args(&["minigrep", "to", "poem.txt", "extra"]), false).ok().unwrap();
    assert_eq!("to", c.query);
    assert_eq!("poem.txt", c.filename);
    assert!(c.case_sensitive);
    let c = Config::new(args(&["minigrep", "to", "poem.txt"]), true).ok().unwrap();
    assert!(!c.case_sensitive);
}

#[test]
fn error_messages() {
    assert_eq!("didnt get a query string", ConfigError::MissingQuery.message());
    assert_eq!("didnt get filename", ConfigError::MissingFilename.message());
}

#[test]
fn run_search_follows_configuration() {
    let contents = "Rust:\nTrust me.";
    let sensitive = Config::new(args(&["p", "rust", "f"]), false).ok().unwrap();
    assert_eq!(vec!["Trust me."], run_search(&sensitive, contents));
    let insensitive = Config::new(args(&["p", "rust", "f"]), true).ok().unwrap();
    assert_eq!(vec!["Rust:", "Trust me."], run_search(&insensitive, contents));
}
