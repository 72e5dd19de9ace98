use minigrep::search::find_matches;
use minigrep::text::{contains_str, split_lines};
use minigrep::{search, search_case_insensitive, Config};

#[test]
fn case_sensitive() {
    let query = "duct";
    let contents = "
Rust: 
safe, fast, productive.
Pick three.
Duct tape.";
    assert_eq!(vec!["safe, fast, productive."], search(query, contents))
}

#[test]
fn case_insensitive() {
    let query = "RuSt";
    let contents = "\
Rust:
safe, fast, productive
Trust me.";
    assert_eq!(
        vec!["Rust:", "Trust me."],
        search_case_insensitive(query, contents)
    );
}

#[test]
fn exact_matches_are_lines_holding_the_query() {
    let body = "one fish\ntwo fish\nred\nblue fish fish";
    let found = search("fish", body);
    assert_eq!(vec!["one fish", "two fish", "blue fish fish"], found);
    for line in &found {
        assert!(body.lines().any(|l| l == *line));
        assert!(line.contains("fish"));
    }
}

#[test]
fn folded_matches_keep_the_line_as_written() {
    let found = search_case_insensitive("ÄPFEL", "Äpfel und Birnen\nkeine\nGRÜNE ÄPFEL");
    assert_eq!(vec!["Äpfel und Birnen", "GRÜNE ÄPFEL"], found);
}

#[test]
fn folding_applies_beyond_ascii() {
    assert_eq!(vec!["ΣΟΦΊΑ"], search_case_insensitive("σοφία", "ΣΟΦΊΑ\nάλλο"));
    assert!(search("σοφία", "ΣΟΦΊΑ\nάλλο").is_empty());
}

#[test]
fn same_inputs_give_same_results() {
    let body = "alpha\nbeta\nalphabet\n";
    assert_eq!(search("alpha", body), search("alpha", body));
    assert_eq!(
        search_case_insensitive("ALPHA", body),
        search_case_insensitive("ALPHA", body)
    );
}

#[test]
fn searching_the_matches_again_keeps_them() {
    let body = "alpha\nbeta\nalphabet\n";
    let first = search("alpha", body);
    let joined = first.join("\n");
    assert_eq!(first, search("alpha", &joined));
}

#[test]
fn empty_query_returns_every_line() {
    let body = "first\n\nthird\r\nfourth";
    assert_eq!(vec!["first", "", "third", "fourth"], search("", body));
}

#[test]
fn empty_body_has_no_matches() {
    assert!(search("x", "").is_empty());
    assert!(search("", "").is_empty());
    assert!(search_case_insensitive("x", "").is_empty());
}

#[test]
fn no_match_gives_empty_result() {
    assert!(search("zebra", "cat\ndog").is_empty());
}

#[test]
fn query_longer_than_line_matches_nothing() {
    assert!(search("longer than it", "short\nlines").is_empty());
}

#[test]
fn line_with_repeated_query_appears_once() {
    assert_eq!(vec!["ab ab ab"], search("ab", "ab ab ab\ncd"));
}

#[test]
fn line_endings_are_removed() {
    assert_eq!(vec!["a", "b", "", "c"], split_lines("a\r\nb\n\nc\n"));
    assert_eq!(vec!["x\r"], split_lines("x\r\r\n"));
    assert_eq!(vec!["y"], split_lines("y\r"));
    assert!(split_lines("").is_empty());
    assert_eq!(vec![""], split_lines("\n"));
}

#[test]
fn lines_split_inside_multibyte_text() {
    assert_eq!(vec!["héllo", "wörld", "日本語"], split_lines("héllo\nwörld\r\n日本語"));
    assert_eq!(vec!["wörld"], search("ö", "héllo\nwörld\r\n日本語"));
    assert_eq!(vec!["日本語"], search("本", "héllo\nwörld\r\n日本語"));
}

#[test]
fn substring_containment() {
    assert!(contains_str("productive", "duct"));
    assert!(contains_str("anything", ""));
    assert!(contains_str("", ""));
    assert!(!contains_str("Duct tape.", "duct"));
    assert!(!contains_str("ab", "abc"));
    assert!(contains_str("äpfel und birnen", "äpfel"));
}

fn strings(items: &[&str]) -> Vec<String> {
    items.iter().map(|s| s.to_string()).collect()
}

fn vars(items: &[(&str, &str)]) -> Vec<(String, String)> {
    items.iter().map(|(k, v)| (k.to_string(), v.to_string())).collect()
}

#[test]
fn too_few_arguments_fail() {
    assert_eq!(Config::new(&strings(&["prog"]), &[]).err(), Some("not enough arguments"));
    assert_eq!(
        Config::new(&strings(&["prog", "q"]), &[]).err(),
        Some("not enough arguments")
    );
}

#[test]
fn arguments_are_taken_verbatim() {
    let c = Config::new(&strings(&["prog", " q ", "", "extra"]), &[]).ok().unwrap();
    assert_eq!(" q ", c.query);
    assert_eq!("", c.filename);
}

#[test]
fn case_sensitive_without_variable() {
    let c = Config::new(&strings(&["prog", "q", "f"]), &[]).ok().unwrap();
    assert_eq!("q", c.query);
    assert_eq!("f", c.filename);
    assert!(c.case_sensitive);
    assert!(!c.case_skip_space);
}

#[test]
fn case_insensitive_variable_set() {
    let env = vars(&[("CASE_INSENSITIVE", "1")]);
    let c = Config::new(&strings(&["prog", "q", "f"]), &env).ok().unwrap();
    assert!(!c.case_sensitive);
    let env = vars(&[("CASE_INSENSITIVE", "")]);
    let c = Config::new(&strings(&["prog", "q", "f"]), &env).ok().unwrap();
    assert!(!c.case_sensitive);
}

#[test]
fn case_insensitive_variable_zero() {
    let env = vars(&[("OTHER", "1"), ("CASE_INSENSITIVE", "0")]);
    let c = Config::new(&strings(&["prog", "q", "f"]), &env).ok().unwrap();
    assert!(c.case_sensitive);
}

#[test]
fn skip_space_variable() {
    let env = vars(&[("CASE_SKIPSPACE", "yes")]);
    let c = Config::new(&strings(&["prog", "q", "f"]), &env).ok().unwrap();
    assert!(c.case_skip_space);
    assert!(c.case_sensitive);
    let env = vars(&[("CASE_SKIPSPACE", "0")]);
    let c = Config::new(&strings(&["prog", "q", "f"]), &env).ok().unwrap();
    assert!(!c.case_skip_space);
}

#[test]
fn first_entry_of_a_variable_wins() {
    let env = vars(&[("CASE_INSENSITIVE", "0"), ("CASE_INSENSITIVE", "1")]);
    let c = Config::new(&strings(&["prog", "q", "f"]), &env).ok().unwrap();
    assert!(c.case_sensitive);
}

#[test]
fn matches_follow_the_configuration() {
    let body = "Rust:\nsafe, fast, productive\nTrust me.";
    let exact = Config::new(&strings(&["prog", "RuSt", "f"]), &[]).ok().unwrap();
    assert!(find_matches(&exact, body).is_empty());
    let env = vars(&[("CASE_INSENSITIVE", "1")]);
    let folded = Config::new(&strings(&["prog", "RuSt", "f"]), &env).ok().unwrap();
    assert_eq!(vec!["Rust:", "Trust me."], find_matches(&folded, body));
}
