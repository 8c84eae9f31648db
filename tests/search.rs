use minigrep::search::{search, search_case_insenstive};
use minigrep::text::{contains_text, same_text, split_lines};

#[test]
fn one_result() {
    let query = "duct";
    let content = "\
Rust:
safe, fast, productive.
Pick three.";

    assert_eq!(vec!["safe, fast, productive."], search(query, content));
}

#[test]
fn case_insenstive() {
    let query = "rUsT";
    let contents = "
Rust:
safe, fast, productive.
Pck three.
Trust me.";
    assert_eq!(
        vec!["Rust:", "Trust me."],
        search_case_insenstive(query, contents)
    )
}

#[test]
fn empty_query_returns_every_line() {
    let content = "\nRust:\nsafe, fast, productive.\n\nPick three.\n";
    assert_eq!(
        vec!["", "Rust:", "safe, fast, productive.", "", "Pick three."],
        search("", content)
    );
}

#[test]
fn empty_content_has_no_matches() {
    assert!(search("x", "").is_empty());
    assert!(search("", "").is_empty());
    assert!(search_case_insenstive("x", "").is_empty());
}

#[test]
fn repeated_lines_are_all_kept() {
    let content = "abc\nxyz\nabc\nabcabc";
    assert_eq!(vec!["abc", "abc", "abcabc"], search("abc", content));
}

#[test]
fn query_longer_than_line_does_not_match() {
    assert!(search("productive", "prod\nuct").is_empty());
}

#[test]
fn search_is_case_sensitive() {
    assert!(search("rust", "Rust:\nTRUST").is_empty());
    assert_eq!(vec!["trust"], search("rust", "Rust:\ntrust"));
}

#[test]
fn case_insensitive_lowers_the_query_too() {
    assert_eq!(vec!["rust", "RuSt"], search_case_insenstive("RUST", "rust\nRuSt\nrest"));
}

#[test]
fn case_insensitive_covers_exact_matches() {
    let content = "Rust:\nsafe, fast, productive.\nPick three.\nduct tape";
    let exact = search("duct", content);
    let folded = search_case_insenstive("duct", content);
    for line in &exact {
        assert!(folded.contains(line));
    }
    assert_eq!(vec!["safe, fast, productive.", "duct tape"], folded);
}

#[test]
fn searching_twice_gives_the_same_lines() {
    let content = "\nRust:\nsafe, fast, productive.\nPck three.\nTrust me.";
    assert_eq!(search("st", content), search("st", content));
    assert_eq!(
        search_case_insenstive("rUsT", content),
        search_case_insenstive("rUsT", content)
    );
}

#[test]
fn non_ascii_lines_are_searched_whole() {
    let content = "größe\nGRÖSSE\nÄrger";
    assert_eq!(vec!["größe"], search("öß", content));
    assert_eq!(vec!["Ärger"], search_case_insenstive("äR", content));
}

#[test]
fn lines_end_at_newlines() {
    assert_eq!(vec!["a", "b"], split_lines("a\nb\n"));
    assert_eq!(vec!["a", "", "b"], split_lines("a\r\n\nb"));
    assert_eq!(vec![""], split_lines("\n"));
    assert_eq!(vec!["a\r"], split_lines("a\r"));
    assert!(split_lines("").is_empty());
}

#[test]
fn crlf_terminator_is_not_part_of_line() {
    assert_eq!(vec!["one two", "two"], search("two", "one two\r\nthree\r\ntwo\r\n"));
}

#[test]
fn contains_text_finds_parts() {
    assert!(contains_text("safe, fast, productive.", "duct"));
    assert!(contains_text("abc", ""));
    assert!(contains_text("abc", "abc"));
    assert!(!contains_text("abc", "abcd"));
    assert!(!contains_text("abc", "ac"));
    assert!(!contains_text("", "a"));
}

#[test]
fn same_text_compares_whole_texts() {
    assert!(same_text("-i", "-i"));
    assert!(!same_text("-i", "-x"));
    assert!(!same_text("-i", "--ignore_case"));
    assert!(same_text("", ""));
}
