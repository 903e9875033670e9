use mojang_auth::hosts::{clean_contents, scan, LineEnding};
use mojang_auth::lines::split_lines;
use mojang_auth::search::contains_chars;

fn chars(s: &str) -> Vec<char> {
    s.chars().collect()
}

#[test]
fn scan_without_match_is_empty() {
    let found = scan("127.0.0.1 localhost\n::1 localhost\n", "mojang.com");
    assert!(found.is_empty());
}

#[test]
fn scan_empty_file() {
    assert!(scan("", "mojang.com").is_empty());
}

#[test]
fn scan_returns_matches_in_order() {
    let text = "1.2.3.4 sessionserver.mojang.com\r\n127.0.0.1 localhost\r\n5.6.7.8 authserver.mojang.com\r\n";
    let found = scan(text, "mojang.com");
    assert_eq!(
        found,
        vec![
            String::from("1.2.3.4 sessionserver.mojang.com"),
            String::from("5.6.7.8 authserver.mojang.com"),
        ]
    );
}

#[test]
fn scan_is_case_sensitive() {
    let found = scan("1.2.3.4 MOJANG.COM\n1.2.3.4 mojang.com", "mojang.com");
    assert_eq!(found, vec![String::from("1.2.3.4 mojang.com")]);
}

#[test]
fn clean_example_from_two_lines() {
    let out = clean_contents("1.2.3.4 mojang.com\n127.0.0.1 localhost\n", "mojang.com", LineEnding::Lf);
    assert_eq!(out, "127.0.0.1 localhost\n");
    let lines: Vec<&str> = out.lines().collect();
    assert_eq!(lines, vec!["127.0.0.1 localhost"]);
}

#[test]
fn clean_writes_crlf() {
    let out = clean_contents("1.2.3.4 mojang.com\n127.0.0.1 localhost", "mojang.com", LineEnding::CrLf);
    assert_eq!(out, "127.0.0.1 localhost\r\n");
}

#[test]
fn clean_keeps_order_of_other_lines() {
    let text = "# hosts\n1.1.1.1 a.mojang.com\n10.0.0.1 b\n2.2.2.2 c.mojang.com\n10.0.0.2 d\n";
    let out = clean_contents(text, "mojang.com", LineEnding::Lf);
    assert_eq!(out, "# hosts\n10.0.0.1 b\n10.0.0.2 d\n");
}

#[test]
fn clean_without_match_keeps_content() {
    let text = "127.0.0.1 localhost\n::1 localhost\n";
    let once = clean_contents(text, "mojang.com", LineEnding::Lf);
    assert_eq!(once, text);
    let twice = clean_contents(&once, "mojang.com", LineEnding::Lf);
    assert_eq!(twice, once);
}

#[test]
fn clean_twice_is_clean_once() {
    let text = "1.2.3.4 mojang.com\r\n127.0.0.1 localhost\r\n\r\n";
    let once = clean_contents(text, "mojang.com", LineEnding::CrLf);
    assert_eq!(once, "127.0.0.1 localhost\r\n\r\n");
    assert_eq!(clean_contents(&once, "mojang.com", LineEnding::CrLf), once);
}

#[test]
fn clean_all_lines_match() {
    let out = clean_contents("1.2.3.4 mojang.com\n5.6.7.8 api.mojang.com\n", "mojang.com", LineEnding::Lf);
    assert_eq!(out, "");
}

#[test]
fn split_lines_like_std() {
    let samples = ["", "a", "a\n", "a\r\nb", "\n\nx\r", "a\r\r\n", "x\ny\n\n"];
    for s in samples.iter() {
        let got: Vec<String> = split_lines(&chars(s)).into_iter().map(|l| l.into_iter().collect()).collect();
        let want: Vec<String> = s.lines().map(String::from).collect();
        assert_eq!(got, want, "{:?}", s);
    }
}

#[test]
fn contains_chars_cases() {
    assert!(contains_chars(&chars("1.2.3.4 mojang.com"), &chars("mojang.com")));
    assert!(contains_chars(&chars("abc"), &chars("")));
    assert!(!contains_chars(&chars("mojang.co"), &chars("mojang.com")));
    assert!(!contains_chars(&chars("mojang"), &chars("mojang.com")));
    assert!(contains_chars(&chars("aab"), &chars("ab")));
}

#[test]
fn scan_keeps_carriage_return_of_unended_last_line() {
    let found = scan("1.2.3.4 mojang.com\r\n5.6.7.8 mojang.com\r", "mojang.com");
    assert_eq!(found, vec![String::from("1.2.3.4 mojang.com"), String::from("5.6.7.8 mojang.com\r")]);
}
