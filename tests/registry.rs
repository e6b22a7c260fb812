use test_utils::registry::ImageRegistry;

fn s(x: &str) -> String {
    x.to_string()
}

#[test]
fn unknown_name_needs_build() {
    let r = ImageRegistry::new(None);
    assert!(r.is_build_needed(&s("img"), &s("sha256:aa")));
}

#[test]
fn push_then_same_digest_needs_no_build() {
    let mut r = ImageRegistry::new(None);
    r.push(s("img"), s("sha256:aa"));
    assert!(!r.is_build_needed(&s("img"), &s("sha256:aa")));
    assert!(r.is_build_needed(&s("img"), &s("sha256:bb")));
    assert!(r.is_build_needed(&s("other"), &s("sha256:aa")));
}

#[test]
fn later_push_replaces_earlier() {
    let mut r = ImageRegistry::new(None);
    r.push(s("img"), s("sha256:aa"));
    r.push(s("img"), s("sha256:bb"));
    assert!(r.is_build_needed(&s("img"), &s("sha256:aa")));
    assert!(!r.is_build_needed(&s("img"), &s("sha256:bb")));
    assert_eq!(r.to_text(), "img=sha256:bb\n");
}

#[test]
fn persisted_text_has_one_line_per_record() {
    let mut r = ImageRegistry::new(None);
    r.push(s("a"), s("sha256:01"));
    r.push(s("b"), s("sha256:02"));
    assert_eq!(r.to_text(), "a=sha256:01\nb=sha256:02\n");
}

#[test]
fn load_parses_lines_and_skips_malformed() {
    let r = ImageRegistry::new(Some("a=sha256:01\r\nbroken\nb=sha256:02=x\na=sha256:03"));
    assert!(!r.is_build_needed(&s("a"), &s("sha256:03")));
    assert!(r.is_build_needed(&s("a"), &s("sha256:01")));
    assert!(!r.is_build_needed(&s("b"), &s("sha256:02")));
    assert!(r.is_build_needed(&s("broken"), &s("")));
}

#[test]
fn load_round_trips_persisted_text() {
    let mut r = ImageRegistry::new(None);
    r.push(s("x"), s("sha256:ff"));
    r.push(s("y"), s("sha256:ee"));
    let again = ImageRegistry::from_text(&r.to_text());
    assert!(!again.is_build_needed(&s("x"), &s("sha256:ff")));
    assert!(!again.is_build_needed(&s("y"), &s("sha256:ee")));
    assert_eq!(again.to_text(), r.to_text());
}

#[test]
fn empty_text_gives_empty_registry() {
    let r = ImageRegistry::from_text("");
    assert_eq!(r.to_text(), "");
    let r = ImageRegistry::from_text("\n\n");
    assert_eq!(r.to_text(), "");
}
