use resume_markdown::markdown::{parse_markdown, Node, Registry};

fn bv(s: &str) -> Vec<u8> {
    s.as_bytes().to_vec()
}

fn builtin() -> Registry {
    Registry::with_builtin()
}

#[test]
fn heading_paragraph_list() {
    let reg = builtin();
    let tree = parse_markdown("# Title\n\nHello *world*\n\n- one\n- two".as_bytes(), &reg);
    assert_eq!(
        tree,
        vec![
            Node::Heading(1, vec![Node::Text(bv("Title"))]),
            Node::Paragraph(vec![Node::Text(bv("Hello ")), Node::Emph(bv("world"))]),
            Node::List(vec![vec![Node::Text(bv("one"))], vec![Node::Text(bv("two"))]]),
        ]
    );
}

#[test]
fn heading_levels() {
    let reg = builtin();
    let tree = parse_markdown("## Projects".as_bytes(), &reg);
    assert_eq!(tree, vec![Node::Heading(2, vec![Node::Text(bv("Projects"))])]);
}

#[test]
fn hash_without_space_is_paragraph() {
    let reg = builtin();
    let tree = parse_markdown("#bad".as_bytes(), &reg);
    assert_eq!(tree, vec![Node::Paragraph(vec![Node::Text(bv("#bad"))])]);
}

#[test]
fn paragraph_joins_adjacent_lines() {
    let reg = builtin();
    let tree = parse_markdown("first line\nsecond line".as_bytes(), &reg);
    assert_eq!(
        tree,
        vec![Node::Paragraph(vec![Node::Text(bv("first line\nsecond line"))])]
    );
}

#[test]
fn inline_code_and_math() {
    let reg = builtin();
    let tree = parse_markdown("use `leptos` and $x+y$".as_bytes(), &reg);
    assert_eq!(
        tree,
        vec![Node::Paragraph(vec![
            Node::Text(bv("use ")),
            Node::Code(bv("leptos")),
            Node::Text(bv(" and ")),
            Node::Math(bv("x+y")),
        ])]
    );
}

#[test]
fn autolink() {
    let reg = builtin();
    let tree = parse_markdown("see <https://example.com> now".as_bytes(), &reg);
    assert_eq!(
        tree,
        vec![Node::Paragraph(vec![
            Node::Text(bv("see ")),
            Node::Link(bv("https://example.com")),
            Node::Text(bv(" now")),
        ])]
    );
}

#[test]
fn unclosed_emphasis_stays_literal() {
    let reg = builtin();
    let tree = parse_markdown("*a".as_bytes(), &reg);
    assert_eq!(
        tree,
        vec![Node::Paragraph(vec![Node::Text(bv("*")), Node::Text(bv("a"))])]
    );
}

#[test]
fn experience_with_date_label() {
    let reg = builtin();
    let tree = parse_markdown(
        "<Experience date=\"2022 - 2023\">text</Experience>".as_bytes(),
        &reg,
    );
    assert_eq!(
        tree,
        vec![Node::Experience(
            Some(bv("2022 - 2023")),
            vec![Node::Paragraph(vec![Node::Text(bv("text"))])],
        )]
    );
}

#[test]
fn experience_without_date_has_empty_label() {
    let reg = builtin();
    let tree = parse_markdown("<Experience>text</Experience>".as_bytes(), &reg);
    assert_eq!(
        tree,
        vec![Node::Experience(
            None,
            vec![Node::Paragraph(vec![Node::Text(bv("text"))])],
        )]
    );
}

#[test]
fn experience_block_content() {
    let reg = builtin();
    let tree = parse_markdown(
        "<Experience date=\"2023\">\n\nARTEFACT project\n- vehicles\n\n</Experience>".as_bytes(),
        &reg,
    );
    assert_eq!(
        tree,
        vec![Node::Experience(
            Some(bv("2023")),
            vec![
                Node::Paragraph(vec![Node::Text(bv("ARTEFACT project"))]),
                Node::List(vec![vec![Node::Text(bv("vehicles"))]]),
            ],
        )]
    );
}

#[test]
fn nested_experience_renders_each_level() {
    let reg = builtin();
    let tree = parse_markdown(
        "<Experience>a<Experience>b</Experience>c</Experience>".as_bytes(),
        &reg,
    );
    assert_eq!(
        tree,
        vec![Node::Experience(
            None,
            vec![
                Node::Paragraph(vec![Node::Text(bv("a"))]),
                Node::Experience(None, vec![Node::Paragraph(vec![Node::Text(bv("b"))])]),
                Node::Paragraph(vec![Node::Text(bv("c"))]),
            ],
        )]
    );
}

#[test]
fn unknown_tag_is_plain_text() {
    let reg = builtin();
    let tree = parse_markdown("<Widget>x</Widget>".as_bytes(), &reg);
    assert_eq!(
        tree,
        vec![Node::Paragraph(vec![
            Node::Text(bv("<")),
            Node::Text(bv("Widget>x<")),
            Node::Text(bv("/Widget>")),
        ])]
    );
}

#[test]
fn unmatched_open_degrades_to_error_node() {
    let reg = builtin();
    let tree = parse_markdown("<Experience>abc".as_bytes(), &reg);
    assert_eq!(
        tree,
        vec![
            Node::Error(bv("Experience")),
            Node::Paragraph(vec![Node::Text(bv("abc"))]),
        ]
    );
}

#[test]
fn stray_close_degrades_to_error_node() {
    let reg = builtin();
    let tree = parse_markdown("before\n</Experience>\nafter".as_bytes(), &reg);
    assert_eq!(
        tree,
        vec![
            Node::Paragraph(vec![Node::Text(bv("before"))]),
            Node::Error(bv("Experience")),
            Node::Paragraph(vec![Node::Text(bv("after"))]),
        ]
    );
}

#[test]
fn registered_custom_tag_keeps_attributes() {
    let reg = Registry::with_builtin().add(bv("Badge"));
    let tree = parse_markdown("<Badge color=\"red\" size=\"2\">x</Badge>".as_bytes(), &reg);
    assert_eq!(
        tree,
        vec![Node::Component(
            bv("Badge"),
            vec![(bv("color"), bv("red")), (bv("size"), bv("2"))],
            vec![Node::Paragraph(vec![Node::Text(bv("x"))])],
        )]
    );
}

#[test]
fn empty_registry_sees_no_components() {
    let reg = Registry::new();
    let tree = parse_markdown("<Experience>x</Experience>".as_bytes(), &reg);
    assert_eq!(
        tree,
        vec![Node::Paragraph(vec![
            Node::Text(bv("<")),
            Node::Text(bv("Experience>x<")),
            Node::Text(bv("/Experience>")),
        ])]
    );
}

#[test]
fn sibling_blocks_keep_source_order() {
    let reg = builtin();
    let tree = parse_markdown(
        "## Education\n<Experience date=\"2021\">one</Experience>\n## Skills".as_bytes(),
        &reg,
    );
    assert_eq!(
        tree,
        vec![
            Node::Heading(2, vec![Node::Text(bv("Education"))]),
            Node::Experience(
                Some(bv("2021")),
                vec![Node::Paragraph(vec![Node::Text(bv("one"))])],
            ),
            Node::Heading(2, vec![Node::Text(bv("Skills"))]),
        ]
    );
}
