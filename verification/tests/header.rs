use resume_markdown::document::extract_frontmatter;
use resume_markdown::metadata::{parse_metadata, MetaError, MetaValue};

fn by(s: &str) -> Vec<u8> {
    s.as_bytes().to_vec()
}

#[test]
fn no_header_is_all_body() {
    let input = by("# Title\n\njust a body, no delimiters");
    let d = extract_frontmatter(&input);
    assert_eq!(d.frontmatter, None);
    assert_eq!(d.body, input);
}

#[test]
fn delimiter_not_at_start_is_body() {
    let input = by("intro\n---\nkey: v\n---\nrest");
    let d = extract_frontmatter(&input);
    assert_eq!(d.frontmatter, None);
    assert_eq!(d.body, input);
}

#[test]
fn well_formed_header_splits() {
    let input = by("---\ncontact:\n  email: \"a@b.com\"\n---\n# Body\n");
    let d = extract_frontmatter(&input);
    assert_eq!(d.frontmatter, Some(by("contact:\n  email: \"a@b.com\"\n")));
    assert_eq!(d.body, by("# Body\n"));
}

#[test]
fn header_round_trip_is_byte_identical() {
    let input = by("---\na: 1\nb: 2\n---\nbody text\nmore\n");
    let d = extract_frontmatter(&input);
    let fm = d.frontmatter.expect("header expected");
    let mut rejoined = by("---\n");
    rejoined.extend_from_slice(&fm);
    rejoined.extend_from_slice(b"---\n");
    rejoined.extend_from_slice(&d.body);
    assert_eq!(rejoined, input);
}

#[test]
fn empty_frontmatter_round_trip() {
    let input = by("---\n---\nbody");
    let d = extract_frontmatter(&input);
    assert_eq!(d.frontmatter, Some(Vec::new()));
    assert_eq!(d.body, by("body"));
}

#[test]
fn unterminated_header_is_body() {
    let input = by("---\ncontact:\n  email: \"a@b.com\"\nno closing line");
    let d = extract_frontmatter(&input);
    assert_eq!(d.frontmatter, None);
    assert_eq!(d.body, input);
}

#[test]
fn closing_delimiter_needs_its_newline() {
    // a trailing `---` that the input ends on does not close the header
    let input = by("---\na: b\n---");
    let d = extract_frontmatter(&input);
    assert_eq!(d.frontmatter, None);
    assert_eq!(d.body, input);
}

#[test]
fn parse_scalar_entry() {
    let m = parse_metadata(&by("name: value")).expect("parses");
    assert_eq!(m.entries.len(), 1);
    assert_eq!(m.entries[0].0, by("name"));
    assert_eq!(m.entries[0].1, MetaValue::Scalar(by("value")));
}

#[test]
fn parse_quoted_scalar() {
    let m = parse_metadata(&by("title: \"hello there\"")).expect("parses");
    assert_eq!(m.entries[0].1, MetaValue::Scalar(by("hello there")));
}

#[test]
fn parse_nested_block_mapping() {
    let m = parse_metadata(&by("contact:\n  email: \"a@b.com\"\n  linkedin: \"todo\"\n"))
        .expect("parses");
    assert_eq!(m.entries.len(), 1);
    assert_eq!(m.entries[0].0, by("contact"));
    assert_eq!(
        m.entries[0].1,
        MetaValue::Mapping(vec![
            (by("email"), by("a@b.com")),
            (by("linkedin"), by("todo")),
        ])
    );
}

#[test]
fn parse_flow_mapping() {
    let m = parse_metadata(&by("contact: { email: \"a@b.com\" }")).expect("parses");
    assert_eq!(
        m.entries[0].1,
        MetaValue::Mapping(vec![(by("email"), by("a@b.com"))])
    );
}

#[test]
fn parse_flow_mapping_two_fields() {
    let m = parse_metadata(&by("contact: { email: x, phone: \"1 2\" }")).expect("parses");
    assert_eq!(
        m.entries[0].1,
        MetaValue::Mapping(vec![(by("email"), by("x")), (by("phone"), by("1 2"))])
    );
}

#[test]
fn blank_lines_are_skipped() {
    let m = parse_metadata(&by("\na: 1\n\nb: 2\n")).expect("parses");
    assert_eq!(m.entries.len(), 2);
    assert_eq!(m.entries[1].0, by("b"));
}

#[test]
fn nested_map_lookup() {
    let m = parse_metadata(&by("contact:\n  email: \"a@b.com\"\n")).expect("parses");
    let cm = m.nested_map(b"contact").expect("contact mapping");
    assert_eq!(cm, &vec![(by("email"), by("a@b.com"))]);
    assert!(m.nested_map(b"absent").is_none());
}

#[test]
fn error_missing_colon() {
    assert_eq!(parse_metadata(&by("just words")), Err(MetaError::MissingColon));
}

#[test]
fn error_empty_key() {
    assert_eq!(parse_metadata(&by(": value")), Err(MetaError::EmptyKey));
}

#[test]
fn error_unclosed_quote() {
    assert_eq!(parse_metadata(&by("k: \"open")), Err(MetaError::UnclosedQuote));
}

#[test]
fn error_unclosed_brace() {
    assert_eq!(parse_metadata(&by("k: { a: b")), Err(MetaError::UnclosedBrace));
}

#[test]
fn error_bad_indent() {
    assert_eq!(parse_metadata(&by("  k: v")), Err(MetaError::BadIndent));
}
