use resume_markdown::markdown::{Node, Registry};
use resume_markdown::view::{compose, contact_panel, font_name, num_fonts, Panel, Store};

fn bw(s: &str) -> Vec<u8> {
    s.as_bytes().to_vec()
}

fn sample() -> Vec<u8> {
    bw("---\ncontact: { email: \"a@b.com\" }\n---\n# Title\nbody text")
}

#[test]
fn font_list_is_fixed() {
    assert_eq!(num_fonts(), 7);
    assert_eq!(font_name(0), "verdana");
    assert_eq!(font_name(3), "monaco");
    assert_eq!(font_name(6), "arial");
}

#[test]
fn contact_panel_shows_email() {
    let text = sample();
    let reg = Registry::with_builtin();
    let v = compose(&text, 0, &reg);
    match &v.panel {
        Panel::Contact(fields) => {
            assert_eq!(fields, &vec![(bw("email"), bw("a@b.com"))]);
        },
        Panel::Unavailable => panic!("expected contact fields"),
    }
}

#[test]
fn malformed_header_falls_back_and_body_renders() {
    // the flow mapping never closes, so the header does not parse
    let text = bw("---\ncontact: { email: \"a@b.com\"\n---\nbody text");
    let reg = Registry::with_builtin();
    let v = compose(&text, 0, &reg);
    assert_eq!(v.panel, Panel::Unavailable);
    assert_eq!(v.body, vec![Node::Paragraph(vec![Node::Text(bw("body text"))])]);
}

#[test]
fn missing_header_falls_back() {
    let text = bw("no header here");
    let reg = Registry::with_builtin();
    let v = compose(&text, 0, &reg);
    assert_eq!(v.panel, Panel::Unavailable);
    assert_eq!(v.body, vec![Node::Paragraph(vec![Node::Text(bw("no header here"))])]);
}

#[test]
fn header_without_contact_falls_back() {
    let text = bw("---\ntitle: \"cv\"\n---\nbody");
    let reg = Registry::with_builtin();
    let v = compose(&text, 0, &reg);
    assert_eq!(v.panel, Panel::Unavailable);
}

#[test]
fn rerender_is_structurally_identical() {
    let text = sample();
    let reg = Registry::with_builtin();
    let a = compose(&text, 2, &reg);
    let b = compose(&text, 2, &reg);
    assert_eq!(a, b);
}

#[test]
fn font_change_keeps_document_structure() {
    let text = sample();
    let reg = Registry::with_builtin();
    let a = compose(&text, 0, &reg);
    let b = compose(&text, 5, &reg);
    assert_eq!(a.body, b.body);
    assert_eq!(a.panel, b.panel);
    assert_eq!(a.font, "verdana");
    assert_eq!(b.font, "monospace");
}

#[test]
fn store_starts_on_default_font() {
    let s = Store::new(sample(), Registry::with_builtin());
    assert_eq!(s.font_index, 0);
    assert_eq!(s.font(), "verdana");
}

#[test]
fn store_font_change_leaves_body_and_panel() {
    let mut s = Store::new(sample(), Registry::with_builtin());
    let body_before = format!("{:?}", s.body());
    let panel_before = format!("{:?}", s.panel());
    s.set_font(4);
    assert_eq!(s.font(), "serif");
    assert_eq!(format!("{:?}", s.body()), body_before);
    assert_eq!(format!("{:?}", s.panel()), panel_before);
}

#[test]
fn store_text_edit_rederives_body_and_panel() {
    let mut s = Store::new(sample(), Registry::with_builtin());
    s.set_font(2);
    s.set_text(bw("fresh body"));
    assert_eq!(s.body(), &vec![Node::Paragraph(vec![Node::Text(bw("fresh body"))])]);
    assert_eq!(s.panel(), &Panel::Unavailable);
    // the font selection survives the edit
    assert_eq!(s.font(), "sans-serif");
}

#[test]
fn contact_panel_of_absent_frontmatter() {
    assert_eq!(contact_panel(&None), Panel::Unavailable);
    let p = contact_panel(&Some(bw("contact:\n  email: \"a@b.com\"\n")));
    assert_eq!(p, Panel::Contact(vec![(bw("email"), bw("a@b.com"))]));
}

#[test]
fn full_resume_pipeline() {
    let text = bw(
        "---\ncontact:\n  email: \"someone@example.org\"\n  linkedin: \"todo\"\n---\n# Name\n\n## Projects\n<Experience date=\"2022 - 2023\">\n\nContributed to projects (see <https://example.org>)\n- `tooling`, a *fine* thing\n\n</Experience>\n",
    );
    let reg = Registry::with_builtin();
    let v = compose(&text, 1, &reg);
    assert_eq!(v.font, "times");
    match &v.panel {
        Panel::Contact(fields) => {
            assert_eq!(
                fields,
                &vec![
                    (bw("email"), bw("someone@example.org")),
                    (bw("linkedin"), bw("todo")),
                ]
            );
        },
        Panel::Unavailable => panic!("expected contact fields"),
    }
    assert_eq!(v.body.len(), 3);
    assert_eq!(v.body[0], Node::Heading(1, vec![Node::Text(bw("Name"))]));
    assert_eq!(v.body[1], Node::Heading(2, vec![Node::Text(bw("Projects"))]));
    match &v.body[2] {
        Node::Experience(date, children) => {
            assert_eq!(date, &Some(bw("2022 - 2023")));
            assert_eq!(children.len(), 2);
            assert_eq!(
                children[0],
                Node::Paragraph(vec![
                    Node::Text(bw("Contributed to projects (see ")),
                    Node::Link(bw("https://example.org")),
                    Node::Text(bw(")")),
                ])
            );
            assert_eq!(
                children[1],
                Node::List(vec![vec![
                    Node::Code(bw("tooling")),
                    Node::Text(bw(", a ")),
                    Node::Emph(bw("fine")),
                    Node::Text(bw(" thing")),
                ]])
            );
        },
        other => panic!("expected an experience entry, got {:?}", other),
    }
}
