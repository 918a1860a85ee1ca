use ipm::www::{ToURL, URL};

#[test]
fn test_url_parse() {
    let url = URL::parse("https://www.example.com/path/to/resource").unwrap();
    assert_eq!(url.protocol(), "https");
    assert_eq!(url.domain(), "www.example.com");
    assert_eq!(url.path(), "/path/to/resource");

    let url_no_path = URL::parse("http://example.org").unwrap();
    assert_eq!(url_no_path.protocol(), "http");
    assert_eq!(url_no_path.domain(), "example.org");
    assert_eq!(url_no_path.path(), "/");
}

#[test]
fn test_url_to_string() {
    let url = URL::new("https", "www.example.com", "path/to/resource");
    assert_eq!(url.to_string(), "https://www.example.com/path/to/resource");

    let url_no_path = URL::new("http", "example.org", "");
    assert_eq!(url_no_path.to_string(), "http://example.org/");
}

#[test]
fn test_from_str() {
    let url: URL = "https://www.example.com/path/to/resource".parse().unwrap();
    assert_eq!(url.protocol(), "https");
    assert_eq!(url.domain(), "www.example.com");
    assert_eq!(url.path(), "/path/to/resource");
}

#[test]
fn test_display() {
    let url = URL::new("https", "www.example.com", "path/to/resource");
    assert_eq!(format!("{}", url.to_string()), "https://www.example.com/path/to/resource");
}

#[test]
fn test_to_url_trait() {
    let url_str = "https://www.example.com/path";
    let url = url_str.to_url().unwrap();
    assert_eq!(url.protocol(), "https");
    assert_eq!(url.domain(), "www.example.com");

    let url_string = String::from("http://localhost:8080/api");
    let url_from_string = url_string.to_url().unwrap();
    assert_eq!(url_from_string.protocol(), "http");
    assert_eq!(url_from_string.domain(), "localhost:8080");
    assert_eq!(url_from_string.path(), "/api");
}

#[test]
fn test_getters() {
    let url = URL::new("https", "www.example.com", "path");
    assert_eq!(url.protocol(), "https");
    assert_eq!(url.domain(), "www.example.com");
    assert_eq!(url.path(), "/path");
}

#[test]
fn url_without_scheme_mark_is_refused() {
    assert_eq!(
        URL::parse("www.example.com/path").err(),
        Some("Invalid URL format: missing protocol or malformed")
    );
}

#[test]
fn url_with_two_scheme_marks_is_refused() {
    assert!(URL::parse("http://a://b").is_err());
    assert!(URL::parse("").is_err());
}

#[test]
fn url_join_appends_relative_and_replaces_absolute() {
    let base = URL::parse("https://host/repo").unwrap();
    assert_eq!(base.clone().join("repo.yaml").unwrap().to_string(), "https://host/repo/repo.yaml");
    assert_eq!(base.clone().join("/packages/a.ipak").unwrap().to_string(), "https://host/packages/a.ipak");
    let slash = URL::parse("https://host/repo/").unwrap();
    assert_eq!(slash.clone().join("x").unwrap().path(), "/repo/x");
    assert_eq!(slash.join("").unwrap().path(), "/repo/");
    assert_eq!(base.join("").unwrap().path(), "/repo/");
}

#[test]
fn url_parse_keeps_double_slash_path() {
    let url = URL::parse("http://host//x").unwrap();
    assert_eq!(url.domain(), "host");
    assert_eq!(url.path(), "/x");
    let empty_domain = URL::parse("file:///tmp/repo").unwrap();
    assert_eq!(empty_domain.domain(), "");
    assert_eq!(empty_domain.path(), "/tmp/repo");
}
