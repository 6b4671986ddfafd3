use srmd::path::CanonicalPath;

fn segments(p: &CanonicalPath) -> Vec<String> {
    let mut out = Vec::new();
    let mut i = 0;
    while i < p.depth() {
        out.push(p.segment(i).clone());
        i += 1;
    }
    out
}

#[test]
fn parse_splits_into_segments() {
    let p = CanonicalPath::parse("/a/b/c").unwrap();
    assert_eq!(segments(&p), vec!["a", "b", "c"]);
}

#[test]
fn parse_root_has_no_segments() {
    let p = CanonicalPath::parse("/").unwrap();
    assert_eq!(p.depth(), 0);
}

#[test]
fn parse_ignores_trailing_separator() {
    let with = CanonicalPath::parse("/a/b/").unwrap();
    let without = CanonicalPath::parse("/a/b").unwrap();
    assert_eq!(segments(&with), segments(&without));
}

#[test]
fn parse_collapses_consecutive_separators() {
    let p = CanonicalPath::parse("//a///b").unwrap();
    assert_eq!(segments(&p), vec!["a", "b"]);
}

#[test]
fn parse_rejects_relative_path() {
    assert!(CanonicalPath::parse("a/b").is_none());
}

#[test]
fn parse_rejects_empty_string() {
    assert!(CanonicalPath::parse("").is_none());
}

#[test]
fn parse_rejects_dot_segment() {
    assert!(CanonicalPath::parse("/a/./b").is_none());
}

#[test]
fn parse_rejects_dot_dot_segment() {
    assert!(CanonicalPath::parse("/a/../b").is_none());
}

#[test]
fn parse_accepts_hidden_names() {
    let p = CanonicalPath::parse("/a/.config").unwrap();
    assert_eq!(segments(&p), vec!["a", ".config"]);
}

#[test]
fn render_root() {
    let p = CanonicalPath::parse("/").unwrap();
    assert_eq!(p.render(), "/");
}

#[test]
fn render_rebuilds_the_text() {
    let p = CanonicalPath::parse("/tmp/X/music").unwrap();
    assert_eq!(p.render(), "/tmp/X/music");
}

#[test]
fn render_normalizes_trailing_separator() {
    let p = CanonicalPath::parse("/a/b/").unwrap();
    assert_eq!(p.render(), "/a/b");
}

#[test]
fn from_segments_accepts_valid_segments() {
    let p = CanonicalPath::from_segments(vec!["usr".to_string(), "lib".to_string()]).unwrap();
    assert_eq!(p.render(), "/usr/lib");
}

#[test]
fn from_segments_rejects_empty_segment() {
    assert!(CanonicalPath::from_segments(vec!["a".to_string(), String::new()]).is_none());
}

#[test]
fn from_segments_rejects_separator_in_segment() {
    assert!(CanonicalPath::from_segments(vec!["a/b".to_string()]).is_none());
}

#[test]
fn from_segments_rejects_dot_segments() {
    assert!(CanonicalPath::from_segments(vec![".".to_string()]).is_none());
    assert!(CanonicalPath::from_segments(vec!["..".to_string()]).is_none());
}
