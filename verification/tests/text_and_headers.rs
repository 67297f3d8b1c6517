use silverwind::headers::Headers;
use silverwind::text::{str_ci_equal, str_equal, str_find, str_split, str_starts_with};

fn pieces(s: &str, d: &str) -> Vec<String> {
    str_split(&s.to_string(), &d.to_string())
}

#[test]
fn split_cuts_at_every_delimiter() {
    assert_eq!(pieces("a,b,c", ","), vec!["a", "b", "c"]);
    assert_eq!(pieces("a,,c", ","), vec!["a", "", "c"]);
    assert_eq!(pieces(",a,", ","), vec!["", "a", ""]);
    assert_eq!(pieces("abc", ","), vec!["abc"]);
    assert_eq!(pieces("", ","), vec![""]);
    assert_eq!(pieces("a--b---c", "--"), vec!["a", "b", "-c"]);
    assert_eq!(pieces("abc", ""), vec!["abc"]);
}

#[test]
fn find_reports_the_first_occurrence() {
    assert_eq!(str_find("hello world", "o"), Some(4));
    assert_eq!(str_find("hello world", "world"), Some(6));
    assert_eq!(str_find("hello", "xyz"), None);
    assert_eq!(str_find("hello", ""), Some(0));
}

#[test]
fn starts_with_and_equality() {
    assert!(str_starts_with("/api/users", "/api/"));
    assert!(!str_starts_with("/ap", "/api/"));
    assert!(str_equal("same", "same"));
    assert!(!str_equal("same", "Same"));
    assert!(str_ci_equal("Host", "hOST"));
    assert!(!str_ci_equal("Host", "Hos"));
}

#[test]
fn header_lookup_is_case_insensitive_first_match() {
    let mut hs = Headers::new();
    hs.insert("X-Env".to_string(), "prod".to_string());
    hs.insert("x-env".to_string(), "staging".to_string());
    hs.insert("Host".to_string(), "example.com".to_string());
    assert_eq!(hs.get("x-ENV"), Some(&"prod".to_string()));
    assert_eq!(hs.get("host"), Some(&"example.com".to_string()));
    assert_eq!(hs.get("missing"), None);
    assert!(hs.contains_key("HOST"));
    assert!(!hs.contains_key("cookie"));
}
