//! The Markdown engine: parsing body text into a render tree.
//!
//! The body is standard line-oriented Markdown — headings, bullet lists,
//! paragraphs, with emphasis, inline code, math spans and autolinks inside a
//! line — extended by custom component tags. An XML-like open/close pair
//! `<Name attr="value" ...> ... </Name>` whose name is registered is parsed
//! into a component node: its attributes as string pairs and the region
//! between the tags, parsed recursively as Markdown, as its children. An
//! open tag with no matching close, or a stray close tag, degrades to a
//! visibly marked error node; the rest of the document still renders.
//! Unregistered tags are not components and stand as ordinary text.

use vstd::prelude::*;

use crate::metadata::spec_lookup_pair;
use crate::text::{bytes_eq, find_byte, find_byte_from, lines_view, spec_lines, spec_trim, split_lines, trim};

verus! {

/// A node of the render tree, the mathematical form.
pub enum MNode {
    /// Plain text.
    Text(Seq<u8>),
    /// Emphasised text, from `*...*`.
    Emph(Seq<u8>),
    /// An inline code span, from a backtick pair.
    Code(Seq<u8>),
    /// A math span, from `$...$`.
    Math(Seq<u8>),
    /// An autolink, from `<http...>`.
    Link(Seq<u8>),
    /// A heading with its level and its inline content.
    Heading(u8, Seq<MNode>),
    /// A paragraph of inline content.
    Paragraph(Seq<MNode>),
    /// A bullet list: one inline sequence per item.
    List(Seq<Seq<MNode>>),
    /// The built-in timeline entry: an optional date label shown before the
    /// children.
    Experience(Option<Seq<u8>>, Seq<MNode>),
    /// A registered component with no built-in renderer: name, attributes,
    /// children.
    Component(Seq<u8>, Seq<(Seq<u8>, Seq<u8>)>, Seq<MNode>),
    /// A visibly marked error region: the name of the unmatched tag.
    Error(Seq<u8>),
}

/// A node of the render tree.
#[derive(Debug, PartialEq, Eq)]
pub enum Node {
    Text(Vec<u8>),
    Emph(Vec<u8>),
    Code(Vec<u8>),
    Math(Vec<u8>),
    Link(Vec<u8>),
    Heading(u8, Vec<Node>),
    Paragraph(Vec<Node>),
    List(Vec<Vec<Node>>),
    Experience(Option<Vec<u8>>, Vec<Node>),
    Component(Vec<u8>, Vec<(Vec<u8>, Vec<u8>)>, Vec<Node>),
    Error(Vec<u8>),
}

/// The views of a vector of attribute pairs.
pub open spec fn attrs_view(v: Vec<(Vec<u8>, Vec<u8>)>) -> Seq<(Seq<u8>, Seq<u8>)> {
    Seq::new(v@.len(), |i: int| (v@[i].0@, v@[i].1@))
}

/// The mathematical form of a render node.
pub open spec fn node_view(n: Node) -> MNode
    decreases n,
{
    match n {
        Node::Text(s) => MNode::Text(s@),
        Node::Emph(s) => MNode::Emph(s@),
        Node::Code(s) => MNode::Code(s@),
        Node::Math(s) => MNode::Math(s@),
        Node::Link(s) => MNode::Link(s@),
        Node::Heading(l, c) => MNode::Heading(l, nodes_view(c)),
        Node::Paragraph(c) => MNode::Paragraph(nodes_view(c)),
        Node::List(items) => MNode::List(items_view(items)),
        Node::Experience(d, c) => MNode::Experience(
            match d {
                Some(s) => Some(s@),
                None => None,
            },
            nodes_view(c),
        ),
        Node::Component(name, attrs, c) => MNode::Component(name@, attrs_view(attrs), nodes_view(c)),
        Node::Error(s) => MNode::Error(s@),
    }
}

/// The mathematical forms of a vector of render nodes.
pub open spec fn nodes_view(v: Vec<Node>) -> Seq<MNode>
    decreases v,
{
    Seq::new(
        v@.len(),
        |i: int|
            if 0 <= i < v@.len() {
                node_view(v@[i])
            } else {
                MNode::Text(Seq::empty())
            },
    )
}

/// The mathematical forms of a vector of list items.
pub open spec fn items_view(v: Vec<Vec<Node>>) -> Seq<Seq<MNode>>
    decreases v,
{
    Seq::new(
        v@.len(),
        |i: int|
            if 0 <= i < v@.len() {
                nodes_view(v@[i])
            } else {
                Seq::empty()
            },
    )
}

/// The registry of custom component tag names. A tag is recognised as a
/// component exactly when its name, byte for byte, stands here.
#[derive(Debug, PartialEq, Eq)]
pub struct Registry {
    pub names: Vec<Vec<u8>>,
}

/// The registered names as a sequence of byte strings.
pub open spec fn registry_view(r: Registry) -> Seq<Seq<u8>> {
    lines_view(r.names)
}

/// The name of the built-in timeline component, `Experience`.
pub open spec fn experience_name() -> Seq<u8> {
    seq![69u8, 120u8, 112u8, 101u8, 114u8, 105u8, 101u8, 110u8, 99u8, 101u8]
}

/// The name of its date attribute, `date`.
pub open spec fn date_attr_name() -> Seq<u8> {
    seq![100u8, 97u8, 116u8, 101u8]
}

fn experience_name_bytes() -> (r: Vec<u8>)
    ensures
        r@ == experience_name(),
{
    let mut v: Vec<u8> = Vec::new();
    v.push(69);
    v.push(120);
    v.push(112);
    v.push(101);
    v.push(114);
    v.push(105);
    v.push(101);
    v.push(110);
    v.push(99);
    v.push(101);
    proof {
        assert(v@ =~= experience_name());
    }
    v
}

fn date_attr_name_bytes() -> (r: Vec<u8>)
    ensures
        r@ == date_attr_name(),
{
    let mut v: Vec<u8> = Vec::new();
    v.push(100);
    v.push(97);
    v.push(116);
    v.push(101);
    proof {
        assert(v@ =~= date_attr_name());
    }
    v
}

impl Registry {
    /// An empty registry: no tag is a component.
    pub fn new() -> (r: Registry)
        ensures
            registry_view(r) == Seq::<Seq<u8>>::empty(),
    {
        let r = Registry { names: Vec::new() };
        proof {
            assert(registry_view(r) =~= Seq::<Seq<u8>>::empty());
        }
        r
    }

    /// The registry with the built-in components: only `Experience`.
    pub fn with_builtin() -> (r: Registry)
        ensures
            registry_view(r) == seq![experience_name()],
    {
        let r = Registry::new();
        r.add(experience_name_bytes())
    }

    /// The same registry with one more registered name.
    pub fn add(self, name: Vec<u8>) -> (r: Registry)
        ensures
            registry_view(r) == registry_view(self).push(name@),
    {
        let ghost old_view = registry_view(self);
        let mut names = self.names;
        names.push(name);
        let r = Registry { names };
        proof {
            assert(registry_view(r) =~= old_view.push(name@));
        }
        r
    }

    /// Whether a tag name is registered.
    pub fn is_registered(&self, name: &[u8]) -> (r: bool)
        ensures
            r <==> registry_view(*self).contains(name@),
    {
        let mut i: usize = 0;
        while i < self.names.len()
            invariant
                i <= self.names@.len(),
                forall|k: int| 0 <= k < i ==> registry_view(*self)[k] != name@,
            decreases self.names@.len() - i,
        {
            if bytes_eq(self.names[i].as_slice(), name) {
                proof {
                    assert(registry_view(*self)[i as int] == name@);
                }
                return true;
            }
            i += 1;
        }
        false
    }
}

/// A byte that may stand in a tag or attribute name: a letter or a digit.
pub open spec fn is_name_byte(c: u8) -> bool {
    (65 <= c <= 90) || (97 <= c <= 122) || (48 <= c <= 57)
}

fn name_byte(c: u8) -> (r: bool)
    ensures
        r == is_name_byte(c),
{
    (65 <= c && c <= 90) || (97 <= c && c <= 122) || (48 <= c && c <= 57)
}

/// The end of the run of name bytes that starts at `i`.
pub open spec fn spec_scan_name(t: Seq<u8>, i: int) -> int
    decreases t.len() - i when 0 <= i <= t.len()
{
    if i >= t.len() {
        i
    } else if is_name_byte(t[i]) {
        spec_scan_name(t, i + 1)
    } else {
        i
    }
}

proof fn lemma_scan_name_range(t: Seq<u8>, i: int)
    requires
        0 <= i <= t.len(),
    ensures
        i <= spec_scan_name(t, i) <= t.len(),
    decreases t.len() - i,
{
    if i >= t.len() {
    } else if is_name_byte(t[i]) {
        lemma_scan_name_range(t, i + 1);
    } else {
    }
}

fn scan_name(t: &[u8], i: usize) -> (r: usize)
    requires
        i <= t@.len(),
    ensures
        r == spec_scan_name(t@, i as int),
        i <= r <= t@.len(),
    decreases t@.len() - i,
{
    if i >= t.len() {
        i
    } else if name_byte(t[i]) {
        scan_name(t, i + 1)
    } else {
        i
    }
}

/// The attributes and the end position of an open tag, scanned from the
/// first byte after the tag name: space-separated `key="value"` pairs up to
/// the closing `>`.
pub open spec fn spec_attrs_from(t: Seq<u8>, j: int) -> Option<(Seq<(Seq<u8>, Seq<u8>)>, int)>
    decreases t.len() - j when 0 <= j <= t.len() via spec_attrs_from_dec
{
    if j >= t.len() {
        None
    } else if t[j] == 62 {
        Some((Seq::empty(), j + 1))
    } else if t[j] == 32 {
        spec_attrs_from(t, j + 1)
    } else if is_name_byte(t[j]) {
        let ke = spec_scan_name(t, j);
        if ke + 1 < t.len() && t[ke] == 61 && t[ke + 1] == 34 {
            let q = find_byte_from(t, ke + 2, 34);
            if q < 0 {
                None
            } else {
                match spec_attrs_from(t, q + 1) {
                    Some(r) => Some((seq![(t.subrange(j, ke), t.subrange(ke + 2, q))] + r.0, r.1)),
                    None => None,
                }
            }
        } else {
            None
        }
    } else {
        None
    }
}

#[via_fn]
proof fn spec_attrs_from_dec(t: Seq<u8>, j: int) {
    if 0 <= j < t.len() && t[j] != 62 && t[j] != 32 && is_name_byte(t[j]) {
        lemma_scan_name_range(t, j);
        let ke = spec_scan_name(t, j);
        if ke + 1 < t.len() {
            crate::text::lemma_find_byte_range(t, ke + 2, 34);
        }
    }
}

proof fn lemma_attrs_end(t: Seq<u8>, j: int)
    requires
        0 <= j <= t.len(),
    ensures
        spec_attrs_from(t, j) matches Some(r) ==> j < r.1 <= t.len(),
    decreases t.len() - j,
{
    if j >= t.len() {
    } else if t[j] == 62 {
    } else if t[j] == 32 {
        lemma_attrs_end(t, j + 1);
    } else if is_name_byte(t[j]) {
        lemma_scan_name_range(t, j);
        let ke = spec_scan_name(t, j);
        if ke + 1 < t.len() && t[ke] == 61 && t[ke + 1] == 34 {
            crate::text::lemma_find_byte_range(t, ke + 2, 34);
            let q = find_byte_from(t, ke + 2, 34);
            if q >= 0 {
                lemma_attrs_end(t, q + 1);
            }
        }
    }
}

/// The open tag standing at `i`, if any: its name, its attributes, and the
/// position after its closing `>`.
pub open spec fn spec_open_tag_at(t: Seq<u8>, i: int) -> Option<(Seq<u8>, Seq<(Seq<u8>, Seq<u8>)>, int)>
    recommends
        0 <= i <= t.len(),
{
    if 0 <= i < t.len() && t[i] == 60 {
        let ne = spec_scan_name(t, i + 1);
        if ne > i + 1 {
            match spec_attrs_from(t, ne) {
                Some(r) => Some((t.subrange(i + 1, ne), r.0, r.1)),
                None => None,
            }
        } else {
            None
        }
    } else {
        None
    }
}

proof fn lemma_open_end(t: Seq<u8>, i: int)
    requires
        0 <= i <= t.len(),
    ensures
        spec_open_tag_at(t, i) matches Some(r) ==> i + 2 < r.2 <= t.len(),
{
    if 0 <= i < t.len() && t[i] == 60 {
        lemma_scan_name_range(t, i + 1);
        lemma_attrs_end(t, spec_scan_name(t, i + 1));
    }
}

/// The close tag standing at `i`, if any: its name and the position after
/// its `>`.
pub open spec fn spec_close_tag_at(t: Seq<u8>, i: int) -> Option<(Seq<u8>, int)>
    recommends
        0 <= i <= t.len(),
{
    if 0 <= i && i + 1 < t.len() && t[i] == 60 && t[i + 1] == 47 {
        let ne = spec_scan_name(t, i + 2);
        if ne > i + 2 && ne < t.len() && t[ne] == 62 {
            Some((t.subrange(i + 2, ne), ne + 1))
        } else {
            None
        }
    } else {
        None
    }
}

proof fn lemma_close_end(t: Seq<u8>, i: int)
    requires
        0 <= i <= t.len(),
    ensures
        spec_close_tag_at(t, i) matches Some(r) ==> i + 3 < r.1 <= t.len(),
{
    if 0 <= i && i + 1 < t.len() && t[i] == 60 && t[i + 1] == 47 {
        lemma_scan_name_range(t, i + 2);
    }
}

/// A component open tag stands at `i`: a well-formed open tag whose name is
/// registered.
pub open spec fn is_comp_open_at(t: Seq<u8>, names: Seq<Seq<u8>>, i: int) -> bool {
    spec_open_tag_at(t, i) matches Some(r) && names.contains(r.0)
}

/// A component close tag stands at `i`.
pub open spec fn is_comp_close_at(t: Seq<u8>, names: Seq<Seq<u8>>, i: int) -> bool {
    spec_close_tag_at(t, i) matches Some(r) && names.contains(r.0)
}

/// The first position `>= i` where a component open or close tag stands, or
/// -1 if there is none.
pub open spec fn spec_find_tag(t: Seq<u8>, names: Seq<Seq<u8>>, i: int) -> int
    decreases t.len() - i when 0 <= i <= t.len()
{
    if i >= t.len() {
        -1
    } else if is_comp_open_at(t, names, i) || is_comp_close_at(t, names, i) {
        i
    } else {
        spec_find_tag(t, names, i + 1)
    }
}

proof fn lemma_find_tag_range(t: Seq<u8>, names: Seq<Seq<u8>>, i: int)
    requires
        0 <= i <= t.len(),
    ensures
        spec_find_tag(t, names, i) != -1 ==> i <= spec_find_tag(t, names, i) < t.len(),
        spec_find_tag(t, names, i) != -1 ==> is_comp_open_at(t, names, spec_find_tag(t, names, i))
            || is_comp_close_at(t, names, spec_find_tag(t, names, i)),
    decreases t.len() - i,
{
    if i >= t.len() {
    } else if is_comp_open_at(t, names, i) || is_comp_close_at(t, names, i) {
    } else {
        lemma_find_tag_range(t, names, i + 1);
    }
}

/// The matching close tag for `name`, scanned from `i` in document order:
/// `depth` further opens of the same name must close first. Yields the start
/// of the matching close tag and the position after it.
pub open spec fn spec_find_close(t: Seq<u8>, name: Seq<u8>, i: int, depth: int) -> Option<(int, int)>
    decreases t.len() - i when 0 <= i <= t.len() via spec_find_close_dec
{
    if i >= t.len() {
        None
    } else {
        let cl = spec_close_tag_at(t, i);
        let op = spec_open_tag_at(t, i);
        if cl is Some && cl.unwrap().0 == name {
            if depth == 0 {
                Some((i, cl.unwrap().1))
            } else {
                spec_find_close(t, name, cl.unwrap().1, depth - 1)
            }
        } else if op is Some && op.unwrap().0 == name {
            spec_find_close(t, name, op.unwrap().2, depth + 1)
        } else {
            spec_find_close(t, name, i + 1, depth)
        }
    }
}

#[via_fn]
proof fn spec_find_close_dec(t: Seq<u8>, name: Seq<u8>, i: int, depth: int) {
    if 0 <= i <= t.len() {
        lemma_close_end(t, i);
        lemma_open_end(t, i);
    }
}

proof fn lemma_find_close_range(t: Seq<u8>, name: Seq<u8>, i: int, depth: int)
    requires
        0 <= i <= t.len(),
    ensures
        spec_find_close(t, name, i, depth) matches Some(r) ==> i <= r.0 && r.0 + 3 < r.1
            && r.1 <= t.len(),
    decreases t.len() - i,
{
    if i >= t.len() {
    } else {
        let cl = spec_close_tag_at(t, i);
        let op = spec_open_tag_at(t, i);
        lemma_close_end(t, i);
        lemma_open_end(t, i);
        if cl is Some && cl.unwrap().0 == name {
            if depth != 0 {
                lemma_find_close_range(t, name, cl.unwrap().1, depth - 1);
            }
        } else if op is Some && op.unwrap().0 == name {
            lemma_find_close_range(t, name, op.unwrap().2, depth + 1);
        } else {
            lemma_find_close_range(t, name, i + 1, depth);
        }
    }
}

fn prepend_pair(key: Vec<u8>, val: Vec<u8>, tail: Vec<(Vec<u8>, Vec<u8>)>) -> (r: Vec<
    (Vec<u8>, Vec<u8>),
>)
    ensures
        attrs_view(r) == seq![(key@, val@)] + attrs_view(tail),
{
    let ghost tail_view = attrs_view(tail);
    let ghost key_view = key@;
    let ghost val_view = val@;
    let mut v: Vec<(Vec<u8>, Vec<u8>)> = Vec::new();
    v.push((key, val));
    let mut tail = tail;
    v.append(&mut tail);
    proof {
        assert(attrs_view(v) =~= seq![(key_view, val_view)] + tail_view);
    }
    v
}

fn parse_attrs(t: &[u8], j: usize) -> (r: Option<(Vec<(Vec<u8>, Vec<u8>)>, usize)>)
    requires
        j <= t@.len(),
    ensures
        match r {
            Some(p) => spec_attrs_from(t@, j as int) matches Some(sp) && attrs_view(p.0) == sp.0
                && p.1 == sp.1 && j < p.1 <= t@.len(),
            None => spec_attrs_from(t@, j as int) is None,
        },
    decreases t@.len() - j,
{
    if j >= t.len() {
        None
    } else if t[j] == 62 {
        let v: Vec<(Vec<u8>, Vec<u8>)> = Vec::new();
        proof {
            assert(attrs_view(v) =~= Seq::<(Seq<u8>, Seq<u8>)>::empty());
        }
        Some((v, j + 1))
    } else if t[j] == 32 {
        parse_attrs(t, j + 1)
    } else if name_byte(t[j]) {
        let ke = scan_name(t, j);
        if t.len() - ke > 1 && t[ke] == 61 && t[ke + 1] == 34 {
            match find_byte(t, ke + 2, 34) {
                None => None,
                Some(q) => match parse_attrs(t, q + 1) {
                    Some(p) => {
                        let key = vstd::slice::slice_to_vec(vstd::slice::slice_subrange(t, j, ke));
                        let val = vstd::slice::slice_to_vec(
                            vstd::slice::slice_subrange(t, ke + 2, q),
                        );
                        Some((prepend_pair(key, val, p.0), p.1))
                    },
                    None => None,
                },
            }
        } else {
            None
        }
    } else {
        None
    }
}

fn parse_open_tag(t: &[u8], i: usize) -> (r: Option<(Vec<u8>, Vec<(Vec<u8>, Vec<u8>)>, usize)>)
    requires
        i <= t@.len(),
    ensures
        match r {
            Some(p) => spec_open_tag_at(t@, i as int) matches Some(sp) && p.0@ == sp.0
                && attrs_view(p.1) == sp.1 && p.2 == sp.2 && i < p.2 <= t@.len(),
            None => spec_open_tag_at(t@, i as int) is None,
        },
{
    if i < t.len() && t[i] == 60 {
        let ne = scan_name(t, i + 1);
        if ne > i + 1 {
            match parse_attrs(t, ne) {
                Some(p) => {
                    let name = vstd::slice::slice_to_vec(
                        vstd::slice::slice_subrange(t, i + 1, ne),
                    );
                    Some((name, p.0, p.1))
                },
                None => None,
            }
        } else {
            None
        }
    } else {
        None
    }
}

fn parse_close_tag(t: &[u8], i: usize) -> (r: Option<(Vec<u8>, usize)>)
    requires
        i <= t@.len(),
    ensures
        match r {
            Some(p) => spec_close_tag_at(t@, i as int) matches Some(sp) && p.0@ == sp.0 && p.1
                == sp.1 && i < p.1 <= t@.len(),
            None => spec_close_tag_at(t@, i as int) is None,
        },
{
    if t.len() - i > 1 && t[i] == 60 && t[i + 1] == 47 {
        let ne = scan_name(t, i + 2);
        if ne > i + 2 && ne < t.len() && t[ne] == 62 {
            let name = vstd::slice::slice_to_vec(vstd::slice::slice_subrange(t, i + 2, ne));
            Some((name, ne + 1))
        } else {
            None
        }
    } else {
        None
    }
}

fn find_tag(t: &[u8], reg: &Registry, i: usize) -> (r: Option<usize>)
    requires
        i <= t@.len(),
    ensures
        match r {
            Some(k) => k == spec_find_tag(t@, registry_view(*reg), i as int) && i <= k < t@.len(),
            None => spec_find_tag(t@, registry_view(*reg), i as int) == -1,
        },
    decreases t@.len() - i,
{
    if i >= t.len() {
        None
    } else {
        let significant = if t[i] == 60 {
            match parse_open_tag(t, i) {
                Some(p) => reg.is_registered(p.0.as_slice()),
                None => match parse_close_tag(t, i) {
                    Some(p) => reg.is_registered(p.0.as_slice()),
                    None => false,
                },
            }
        } else {
            false
        };
        if significant {
            Some(i)
        } else {
            find_tag(t, reg, i + 1)
        }
    }
}

fn find_close(t: &[u8], name: &[u8], i: usize, depth: usize) -> (r: Option<(usize, usize)>)
    requires
        i <= t@.len(),
        depth <= i,
    ensures
        match r {
            Some(p) => spec_find_close(t@, name@, i as int, depth as int) == Some(
                (p.0 as int, p.1 as int),
            ) && i <= p.0 && p.0 + 3 < p.1 && p.1 <= t@.len(),
            None => spec_find_close(t@, name@, i as int, depth as int) is None,
        },
    decreases t@.len() - i,
{
    if i >= t.len() {
        None
    } else {
        match parse_close_tag(t, i) {
            Some(p) => {
                if bytes_eq(p.0.as_slice(), name) {
                    if depth == 0 {
                        Some((i, p.1))
                    } else {
                        find_close(t, name, p.1, depth - 1)
                    }
                } else {
                    match parse_open_tag(t, i) {
                        Some(q) => {
                            if bytes_eq(q.0.as_slice(), name) {
                                find_close(t, name, q.2, depth + 1)
                            } else {
                                find_close(t, name, i + 1, depth)
                            }
                        },
                        None => find_close(t, name, i + 1, depth),
                    }
                }
            },
            None => match parse_open_tag(t, i) {
                Some(q) => {
                    if bytes_eq(q.0.as_slice(), name) {
                        find_close(t, name, q.2, depth + 1)
                    } else {
                        find_close(t, name, i + 1, depth)
                    }
                },
                None => find_close(t, name, i + 1, depth),
            },
        }
    }
}

/// A byte that opens an inline span: `*`, a backtick, `$`, or `<`.
pub open spec fn is_special_byte(c: u8) -> bool {
    c == 42 || c == 96 || c == 36 || c == 60
}

fn special_byte(c: u8) -> (r: bool)
    ensures
        r == is_special_byte(c),
{
    c == 42 || c == 96 || c == 36 || c == 60
}

/// The first position `>= i` holding a span-opening byte, or -1.
pub open spec fn spec_find_special(s: Seq<u8>, i: int) -> int
    decreases s.len() - i when 0 <= i <= s.len()
{
    if i >= s.len() {
        -1
    } else if is_special_byte(s[i]) {
        i
    } else {
        spec_find_special(s, i + 1)
    }
}

fn find_special(s: &[u8], i: usize) -> (r: Option<usize>)
    requires
        i <= s@.len(),
    ensures
        match r {
            Some(k) => k == spec_find_special(s@, i as int) && i <= k < s@.len(),
            None => spec_find_special(s@, i as int) == -1,
        },
    decreases s@.len() - i,
{
    if i >= s.len() {
        None
    } else if special_byte(s[i]) {
        Some(i)
    } else {
        find_special(s, i + 1)
    }
}

/// The bytes `http` stand at `i`.
pub open spec fn starts_http(s: Seq<u8>, i: int) -> bool {
    i + 4 <= s.len() && s[i] == 104 && s[i + 1] == 116 && s[i + 2] == 116 && s[i + 3] == 112
}

/// The span node a delimiter byte wraps its content in.
pub open spec fn spec_span(c: u8, content: Seq<u8>) -> MNode {
    if c == 42 {
        MNode::Emph(content)
    } else if c == 96 {
        MNode::Code(content)
    } else {
        MNode::Math(content)
    }
}

/// The inline nodes of one run of text: plain text split by emphasis, code,
/// math and autolink spans; a delimiter with no closing partner stands as
/// literal text.
pub open spec fn spec_inline(s: Seq<u8>) -> Seq<MNode>
    decreases s.len() when s.len() >= 0 via spec_inline_dec
{
    if s.len() == 0 {
        Seq::empty()
    } else {
        let k = spec_find_special(s, 0);
        if k < 0 {
            seq![MNode::Text(s)]
        } else {
            let pre: Seq<MNode> = if k > 0 {
                seq![MNode::Text(s.subrange(0, k))]
            } else {
                Seq::empty()
            };
            let c = s[k];
            if c == 60 {
                let j = find_byte_from(s, k + 1, 62);
                if j >= 0 && starts_http(s, k + 1) {
                    pre + seq![MNode::Link(s.subrange(k + 1, j))] + spec_inline(
                        s.subrange(j + 1, s.len() as int),
                    )
                } else {
                    seq![MNode::Text(s.subrange(0, k + 1))] + spec_inline(
                        s.subrange(k + 1, s.len() as int),
                    )
                }
            } else {
                let j = find_byte_from(s, k + 1, c);
                if j >= 0 {
                    pre + seq![spec_span(c, s.subrange(k + 1, j))] + spec_inline(
                        s.subrange(j + 1, s.len() as int),
                    )
                } else {
                    seq![MNode::Text(s.subrange(0, k + 1))] + spec_inline(
                        s.subrange(k + 1, s.len() as int),
                    )
                }
            }
        }
    }
}

#[via_fn]
proof fn spec_inline_dec(s: Seq<u8>) {
    if s.len() > 0 {
        let k = spec_find_special(s, 0);
        lemma_find_special_range(s, 0);
        if k >= 0 {
            crate::text::lemma_find_byte_range(s, k + 1, 62);
            crate::text::lemma_find_byte_range(s, k + 1, s[k]);
        }
    }
}

proof fn lemma_find_special_range(s: Seq<u8>, i: int)
    requires
        0 <= i <= s.len(),
    ensures
        spec_find_special(s, i) != -1 ==> i <= spec_find_special(s, i) < s.len(),
    decreases s.len() - i,
{
    if i >= s.len() {
    } else if is_special_byte(s[i]) {
    } else {
        lemma_find_special_range(s, i + 1);
    }
}

fn prepend_node(n: Node, tail: Vec<Node>) -> (r: Vec<Node>)
    ensures
        nodes_view(r) == seq![node_view(n)] + nodes_view(tail),
{
    let ghost tail_view = nodes_view(tail);
    let ghost n_view = node_view(n);
    let mut v: Vec<Node> = Vec::new();
    v.push(n);
    let mut tail = tail;
    v.append(&mut tail);
    proof {
        assert(nodes_view(v) =~= seq![n_view] + tail_view);
    }
    v
}

/// Parse one run of text into inline nodes.
#[verifier::rlimit(100)]
pub fn parse_inline(s: &[u8]) -> (r: Vec<Node>)
    ensures
        nodes_view(r) == spec_inline(s@),
    decreases s@.len(),
{
    let mut out: Vec<Node> = Vec::new();
    if s.len() == 0 {
        proof {
            assert(nodes_view(out) =~= spec_inline(s@));
        }
        return out;
    }
    match find_special(s, 0) {
        None => {
            out.push(Node::Text(vstd::slice::slice_to_vec(s)));
            proof {
                assert(nodes_view(out) =~= spec_inline(s@));
            }
            out
        },
        Some(k) => {
            let c = s[k];
            let close = if c == 60 {
                find_byte(s, k + 1, 62)
            } else {
                find_byte(s, k + 1, c)
            };
            let http_ok = c != 60 || (s.len() - (k + 1) >= 4 && s[k + 1] == 104 && s[k + 2] == 116
                && s[k + 3] == 116 && s[k + 4] == 112);
        
            match close {
                Some(j) if http_ok => {
                    let content = vstd::slice::slice_to_vec(
                        vstd::slice::slice_subrange(s, k + 1, j),
                    );
                    let span = if c == 60 {
                        Node::Link(content)
                    } else if c == 42 {
                        Node::Emph(content)
                    } else if c == 96 {
                        Node::Code(content)
                    } else {
                        Node::Math(content)
                    };
                    let rest = parse_inline(vstd::slice::slice_subrange(s, j + 1, s.len()));
                    let tail = prepend_node(span, rest);
                    if k > 0 {
                        let pre = Node::Text(
                            vstd::slice::slice_to_vec(vstd::slice::slice_subrange(s, 0, k)),
                        );
                        let r = prepend_node(pre, tail);
                        proof {
                            assert(nodes_view(r) =~= spec_inline(s@));
                        }
                        r
                    } else {
                        proof {
                            assert(nodes_view(tail) =~= spec_inline(s@));
                        }
                        tail
                    }
                },
                _ => {
                    let pre = Node::Text(
                        vstd::slice::slice_to_vec(vstd::slice::slice_subrange(s, 0, k + 1)),
                    );
                    let rest = parse_inline(vstd::slice::slice_subrange(s, k + 1, s.len()));
                    let r = prepend_node(pre, rest);
                    proof {
                        assert(nodes_view(r) =~= spec_inline(s@));
                    }
                    r
                },
            }
        },
    }
}

/// A line with no visible content.
pub open spec fn is_blank_line(l: Seq<u8>) -> bool {
    spec_trim(l).len() == 0
}

/// The index after the run of leading `#` bytes.
pub open spec fn spec_count_hash(l: Seq<u8>, i: int) -> int
    decreases l.len() - i when 0 <= i <= l.len()
{
    if i < l.len() && l[i] == 35 {
        spec_count_hash(l, i + 1)
    } else {
        i
    }
}

/// The heading level of a line: its count of leading `#` bytes.
pub open spec fn heading_level(l: Seq<u8>) -> int {
    spec_count_hash(l, 0)
}

/// A heading line: one to six `#` bytes and a space before the content.
pub open spec fn is_heading_line(l: Seq<u8>) -> bool {
    1 <= heading_level(l) <= 6 && heading_level(l) < l.len() && l[heading_level(l)] == 32
}

/// The content of a heading line, after the marker.
pub open spec fn heading_content(l: Seq<u8>) -> Seq<u8>
    recommends
        is_heading_line(l),
{
    spec_trim(l.subrange(heading_level(l), l.len() as int))
}

/// A bullet list line: `- ` then the item.
pub open spec fn is_list_line(l: Seq<u8>) -> bool {
    l.len() >= 2 && l[0] == 45 && l[1] == 32
}

/// The content of a list line, after the bullet.
pub open spec fn item_content(l: Seq<u8>) -> Seq<u8>
    recommends
        l.len() >= 1,
{
    spec_trim(l.subrange(1, l.len() as int))
}

/// A paragraph line: non-blank and neither a heading nor a list line.
pub open spec fn is_plain_line(l: Seq<u8>) -> bool {
    !is_blank_line(l) && !is_heading_line(l) && !is_list_line(l)
}

proof fn lemma_count_hash_range(l: Seq<u8>, i: int)
    requires
        0 <= i <= l.len(),
    ensures
        i <= spec_count_hash(l, i) <= l.len(),
    decreases l.len() - i,
{
    if i < l.len() && l[i] == 35 {
        lemma_count_hash_range(l, i + 1);
    }
}

fn count_hash(l: &[u8], i: usize) -> (r: usize)
    requires
        i <= l@.len(),
    ensures
        r == spec_count_hash(l@, i as int),
        i <= r <= l@.len(),
    decreases l@.len() - i,
{
    if i < l.len() && l[i] == 35 {
        count_hash(l, i + 1)
    } else {
        i
    }
}

fn line_blank(l: &[u8]) -> (r: bool)
    ensures
        r == is_blank_line(l@),
{
    trim(l).len() == 0
}

fn line_list(l: &[u8]) -> (r: bool)
    ensures
        r == is_list_line(l@),
{
    l.len() >= 2 && l[0] == 45 && l[1] == 32
}

fn line_heading(l: &[u8]) -> (r: bool)
    ensures
        r == is_heading_line(l@),
{
    let h = count_hash(l, 0);
    1 <= h && h <= 6 && h < l.len() && l[h] == 32
}

/// The first line `>= i` that is not a list line.
pub open spec fn spec_list_end(ls: Seq<Seq<u8>>, i: int) -> int
    decreases ls.len() - i when 0 <= i <= ls.len()
{
    if i >= ls.len() {
        i
    } else if is_list_line(ls[i]) {
        spec_list_end(ls, i + 1)
    } else {
        i
    }
}

proof fn lemma_list_end(ls: Seq<Seq<u8>>, i: int)
    requires
        0 <= i <= ls.len(),
    ensures
        i <= spec_list_end(ls, i) <= ls.len(),
        forall|k: int| i <= k < spec_list_end(ls, i) ==> is_list_line(ls[k]),
    decreases ls.len() - i,
{
    if i >= ls.len() {
    } else if is_list_line(ls[i]) {
        lemma_list_end(ls, i + 1);
    } else {
    }
}

fn list_end(ls: &Vec<Vec<u8>>, i: usize) -> (r: usize)
    requires
        i <= ls@.len(),
    ensures
        r == spec_list_end(lines_view(*ls), i as int),
        i <= r <= ls@.len(),
    decreases ls@.len() - i,
{
    let ghost lsv = lines_view(*ls);
    if i >= ls.len() {
        i
    } else {
        proof {
            assert(lsv[i as int] == ls@[i as int]@);
        }
        if line_list(ls[i].as_slice()) {
            list_end(ls, i + 1)
        } else {
            i
        }
    }
}

/// The first line `>= i` that is not a paragraph line.
pub open spec fn spec_para_end(ls: Seq<Seq<u8>>, i: int) -> int
    decreases ls.len() - i when 0 <= i <= ls.len()
{
    if i >= ls.len() {
        i
    } else if is_plain_line(ls[i]) {
        spec_para_end(ls, i + 1)
    } else {
        i
    }
}

proof fn lemma_para_end(ls: Seq<Seq<u8>>, i: int)
    requires
        0 <= i <= ls.len(),
    ensures
        i <= spec_para_end(ls, i) <= ls.len(),
    decreases ls.len() - i,
{
    if i >= ls.len() {
    } else if is_plain_line(ls[i]) {
        lemma_para_end(ls, i + 1);
    } else {
    }
}

fn para_end(ls: &Vec<Vec<u8>>, i: usize) -> (r: usize)
    requires
        i <= ls@.len(),
    ensures
        r == spec_para_end(lines_view(*ls), i as int),
        i <= r <= ls@.len(),
    decreases ls@.len() - i,
{
    let ghost lsv = lines_view(*ls);
    if i >= ls.len() {
        i
    } else {
        proof {
            assert(lsv[i as int] == ls@[i as int]@);
        }
        let l = ls[i].as_slice();
        if !line_blank(l) && !line_heading(l) && !line_list(l) {
            para_end(ls, i + 1)
        } else {
            i
        }
    }
}

/// Lines `i..j` joined with newline bytes.
pub open spec fn spec_join(ls: Seq<Seq<u8>>, i: int, j: int) -> Seq<u8>
    decreases j - i when i <= j
{
    if i >= j {
        Seq::empty()
    } else if i + 1 == j {
        ls[i]
    } else {
        ls[i] + seq![10u8] + spec_join(ls, i + 1, j)
    }
}

fn join_lines(ls: &Vec<Vec<u8>>, i: usize, j: usize) -> (r: Vec<u8>)
    requires
        i <= j <= ls@.len(),
    ensures
        r@ == spec_join(lines_view(*ls), i as int, j as int),
    decreases j - i,
{
    let ghost lsv = lines_view(*ls);
    if i >= j {
        let v: Vec<u8> = Vec::new();
        proof {
            assert(v@ =~= spec_join(lsv, i as int, j as int));
        }
        v
    } else {
        proof {
            assert(lsv[i as int] == ls@[i as int]@);
        }
        let mut v = vstd::slice::slice_to_vec(ls[i].as_slice());
        if i + 1 == j {
            v
        } else {
            v.push(10);
            let mut rest = join_lines(ls, i + 1, j);
            let ghost rest_view = rest@;
            v.append(&mut rest);
            proof {
                assert(v@ =~= lsv[i as int] + seq![10u8] + rest_view);
            }
            v
        }
    }
}

/// The list items of lines `i..j`, each parsed as inline content.
pub open spec fn spec_items(ls: Seq<Seq<u8>>, i: int, j: int) -> Seq<Seq<MNode>>
    recommends
        0 <= i <= j <= ls.len(),
{
    Seq::new(
        (j - i) as nat,
        |n: int|
            if 0 <= n < j - i {
                spec_inline(item_content(ls[i + n]))
            } else {
                Seq::empty()
            },
    )
}

fn collect_items(ls: &Vec<Vec<u8>>, i: usize, j: usize) -> (r: Vec<Vec<Node>>)
    requires
        i <= j <= ls@.len(),
        forall|k: int| i <= k < j ==> is_list_line(lines_view(*ls)[k]),
    ensures
        items_view(r) == spec_items(lines_view(*ls), i as int, j as int),
{
    let ghost lsv = lines_view(*ls);
    let mut acc: Vec<Vec<Node>> = Vec::new();
    let mut m = i;
    proof {
        assert(items_view(acc) =~= spec_items(lsv, i as int, i as int));
    }
    while m < j
        invariant
            i <= m <= j <= ls@.len(),
            lsv == lines_view(*ls),
            forall|k: int| i <= k < j ==> is_list_line(lsv[k]),
            items_view(acc) == spec_items(lsv, i as int, m as int),
        decreases j - m,
    {
        let ghost acc_before = items_view(acc);
        proof {
            assert(lsv[m as int] == ls@[m as int]@);
            assert(is_list_line(lsv[m as int]));
        }
        let l = &ls[m];
        let content = trim(vstd::slice::slice_subrange(l.as_slice(), 1, l.len()));
        let inline = parse_inline(content);
        proof {
            assert(content@ == item_content(lsv[m as int]));
        }
        let ghost old_acc = acc@;
        let ghost inline_view = nodes_view(inline);
        acc.push(inline);
        proof {
            assert(acc@ == old_acc.push(inline));
            assert(acc_before.len() == old_acc.len());
            assert(spec_items(lsv, i as int, m as int).len() == m - i);
            assert(old_acc.len() == m - i);
            assert forall|n: int| 0 <= n < acc@.len() implies items_view(acc)[n] == spec_items(
                lsv,
                i as int,
                m + 1,
            )[n] by {
                if n < m - i {
                    assert(acc@[n] == old_acc[n]);
                    assert(items_view(acc)[n] == nodes_view(acc@[n]));
                    assert(acc_before[n] == nodes_view(old_acc[n]));
                    assert(acc_before[n] == spec_items(lsv, i as int, m as int)[n]);
                } else {
                    assert(acc@[n] == inline);
                    assert(items_view(acc)[n] == inline_view);
                }
            }
            assert(items_view(acc) =~= spec_items(lsv, i as int, m + 1));
        }
        m += 1;
    }
    acc
}

/// The block nodes of the lines from `i` on: headings, bullet lists, and
/// paragraphs of consecutive plain lines, in source order.
pub open spec fn spec_blocks_from(ls: Seq<Seq<u8>>, i: int) -> Seq<MNode>
    decreases ls.len() - i when 0 <= i <= ls.len() via spec_blocks_from_dec
{
    if i >= ls.len() {
        Seq::empty()
    } else if is_blank_line(ls[i]) {
        spec_blocks_from(ls, i + 1)
    } else if is_heading_line(ls[i]) {
        seq![MNode::Heading(heading_level(ls[i]) as u8, spec_inline(heading_content(ls[i])))]
            + spec_blocks_from(ls, i + 1)
    } else if is_list_line(ls[i]) {
        let j = spec_list_end(ls, i + 1);
        seq![MNode::List(spec_items(ls, i, j))] + spec_blocks_from(ls, j)
    } else {
        let j = spec_para_end(ls, i + 1);
        seq![MNode::Paragraph(spec_inline(spec_join(ls, i, j)))] + spec_blocks_from(ls, j)
    }
}

#[via_fn]
proof fn spec_blocks_from_dec(ls: Seq<Seq<u8>>, i: int) {
    if 0 <= i < ls.len() {
        lemma_list_end(ls, i + 1);
        lemma_para_end(ls, i + 1);
    }
}

/// The block nodes of a tag-free body text.
pub open spec fn spec_blocks(t: Seq<u8>) -> Seq<MNode> {
    spec_blocks_from(spec_lines(t), 0)
}

#[verifier::rlimit(100)]
fn parse_blocks_from(ls: &Vec<Vec<u8>>, i: usize) -> (r: Vec<Node>)
    requires
        i <= ls@.len(),
    ensures
        nodes_view(r) == spec_blocks_from(lines_view(*ls), i as int),
    decreases ls@.len() - i,
{
    let ghost lsv = lines_view(*ls);
    if i >= ls.len() {
        let v: Vec<Node> = Vec::new();
        proof {
            assert(nodes_view(v) =~= spec_blocks_from(lsv, i as int));
        }
        v
    } else {
        proof {
            assert(lsv[i as int] == ls@[i as int]@);
        }
        let l = ls[i].as_slice();
        if line_blank(l) {
            parse_blocks_from(ls, i + 1)
        } else if line_heading(l) {
            let h = count_hash(l, 0);
            let content = trim(vstd::slice::slice_subrange(l, h, l.len()));
            let inline = parse_inline(content);
            proof {
                assert(h <= 6);
            }
            let rest = parse_blocks_from(ls, i + 1);
            let r = prepend_node(Node::Heading(h as u8, inline), rest);
            proof {
                assert(nodes_view(r) =~= spec_blocks_from(lsv, i as int));
            }
            r
        } else if line_list(l) {
            let j = list_end(ls, i + 1);
            proof {
                lemma_list_end(lsv, i + 1);
            }
            let items = collect_items(ls, i, j);
            let rest = parse_blocks_from(ls, j);
            let r = prepend_node(Node::List(items), rest);
            proof {
                assert(nodes_view(r) =~= spec_blocks_from(lsv, i as int));
            }
            r
        } else {
            let j = para_end(ls, i + 1);
            let joined = join_lines(ls, i, j);
            let inline = parse_inline(joined.as_slice());
            let rest = parse_blocks_from(ls, j);
            let r = prepend_node(Node::Paragraph(inline), rest);
            proof {
                assert(nodes_view(r) =~= spec_blocks_from(lsv, i as int));
            }
            r
        }
    }
}

/// Parse a tag-free text into block nodes.
pub fn parse_blocks(t: &[u8]) -> (r: Vec<Node>)
    ensures
        nodes_view(r) == spec_blocks(t@),
{
    let lines = split_lines(t);
    parse_blocks_from(&lines, 0)
}

/// The render node the registry's entry produces for a component: the
/// built-in `Experience` renderer shows the optional `date` attribute as a
/// label before its children; any other registered name keeps its name,
/// attributes and children as a generic component node.
pub open spec fn spec_render_component(
    name: Seq<u8>,
    attrs: Seq<(Seq<u8>, Seq<u8>)>,
    children: Seq<MNode>,
) -> MNode {
    if name == experience_name() {
        MNode::Experience(spec_lookup_pair(attrs, date_attr_name()), children)
    } else {
        MNode::Component(name, attrs, children)
    }
}

/// Apply the registry's renderer for a parsed component invocation.
pub fn render_component(name: Vec<u8>, attrs: Vec<(Vec<u8>, Vec<u8>)>, children: Vec<Node>) -> (r:
    Node)
    ensures
        node_view(r) == spec_render_component(name@, attrs_view(attrs), nodes_view(children)),
{
    let exp = experience_name_bytes();
    if bytes_eq(name.as_slice(), exp.as_slice()) {
        proof {
            assert(crate::metadata::pairs_view(attrs) =~= attrs_view(attrs));
        }
        let date_key = date_attr_name_bytes();
        let date = crate::metadata::lookup_pair(&attrs, date_key.as_slice());
        Node::Experience(date, children)
    } else {
        Node::Component(name, attrs, children)
    }
}

/// The render tree of a body text: Markdown blocks split around component
/// tags. A registered open tag with its matching close becomes one component
/// node whose children are the region between them, parsed recursively; an
/// open tag with no matching close, or a stray close tag, becomes an error
/// node and parsing goes on after it.
pub open spec fn spec_parse_doc(t: Seq<u8>, names: Seq<Seq<u8>>) -> Seq<MNode>
    decreases t.len() via spec_parse_doc_dec
{
    let k = spec_find_tag(t, names, 0);
    if k < 0 {
        spec_blocks(t)
    } else {
        let pre = spec_blocks(t.subrange(0, k));
        let op = spec_open_tag_at(t, k);
        if op is Some && names.contains(op.unwrap().0) {
            let name = op.unwrap().0;
            let attrs = op.unwrap().1;
            let e = op.unwrap().2;
            match spec_find_close(t, name, e, 0) {
                Some(c) => pre + seq![
                    spec_render_component(name, attrs, spec_parse_doc(t.subrange(e, c.0), names)),
                ] + spec_parse_doc(t.subrange(c.1, t.len() as int), names),
                None => pre + seq![MNode::Error(name)] + spec_parse_doc(
                    t.subrange(e, t.len() as int),
                    names,
                ),
            }
        } else {
            let cl = spec_close_tag_at(t, k);
            pre + seq![MNode::Error(cl.unwrap().0)] + spec_parse_doc(
                t.subrange(cl.unwrap().1, t.len() as int),
                names,
            )
        }
    }
}

#[via_fn]
proof fn spec_parse_doc_dec(t: Seq<u8>, names: Seq<Seq<u8>>) {
    lemma_find_tag_range(t, names, 0);
    let k = spec_find_tag(t, names, 0);
    if k >= 0 {
        lemma_open_end(t, k);
        lemma_close_end(t, k);
        let op = spec_open_tag_at(t, k);
        if op is Some && names.contains(op.unwrap().0) {
            lemma_find_close_range(t, op.unwrap().0, op.unwrap().2, 0);
        }
    }
}

/// Parse a body text into its render tree, recognising the registered
/// component tags.
#[verifier::rlimit(100)]
pub fn parse_markdown(t: &[u8], reg: &Registry) -> (r: Vec<Node>)
    ensures
        nodes_view(r) == spec_parse_doc(t@, registry_view(*reg)),
    decreases t@.len(),
{
    let ghost names = registry_view(*reg);
    proof {
        lemma_find_tag_range(t@, names, 0);
    }
    match find_tag(t, reg, 0) {
        None => parse_blocks(t),
        Some(k) => {
            let mut out = parse_blocks(vstd::slice::slice_subrange(t, 0, k));
            let ghost pre = nodes_view(out);
            match parse_open_tag(t, k) {
                Some(p) => {
                    if reg.is_registered(p.0.as_slice()) {
                        let name = p.0;
                        let attrs = p.1;
                        let e = p.2;
                        match find_close(t, name.as_slice(), e, 0) {
                            Some(c) => {
                                let children = parse_markdown(
                                    vstd::slice::slice_subrange(t, e, c.0),
                                    reg,
                                );
                                let node = render_component(name, attrs, children);
                                let ghost node_v = node_view(node);
                                let mut rest = parse_markdown(
                                    vstd::slice::slice_subrange(t, c.1, t.len()),
                                    reg,
                                );
                                let ghost rest_v = nodes_view(rest);
                                out.push(node);
                                out.append(&mut rest);
                                proof {
                                    assert(nodes_view(out) =~= pre + seq![node_v] + rest_v);
                                }
                                out
                            },
                            None => {
                                let mut rest = parse_markdown(
                                    vstd::slice::slice_subrange(t, e, t.len()),
                                    reg,
                                );
                                let ghost rest_v = nodes_view(rest);
                                let ghost name_v = name@;
                                out.push(Node::Error(name));
                                out.append(&mut rest);
                                proof {
                                    assert(nodes_view(out) =~= pre + seq![MNode::Error(name_v)]
                                        + rest_v);
                                }
                                out
                            },
                        }
                    } else {
                        proof {
                            assert(false);
                        }
                        out
                    }
                },
                None => {
                    match parse_close_tag(t, k) {
                        Some(c) => {
                            let mut rest = parse_markdown(
                                vstd::slice::slice_subrange(t, c.1, t.len()),
                                reg,
                            );
                            let ghost rest_v = nodes_view(rest);
                            let ghost name_v = c.0@;
                            out.push(Node::Error(c.0));
                            out.append(&mut rest);
                            proof {
                                assert(nodes_view(out) =~= pre + seq![MNode::Error(name_v)]
                                    + rest_v);
                            }
                            out
                        },
                        None => {
                            proof {
                                assert(false);
                            }
                            out
                        },
                    }
                },
            }
        },
    }
}

/// The `Experience` renderer reads only the optional `date` attribute: with
/// the attribute present its value becomes the label, without it the label
/// is empty, and the children are the same either way.
pub proof fn lemma_experience_label(attrs: Seq<(Seq<u8>, Seq<u8>)>, children: Seq<MNode>)
    ensures
        spec_render_component(experience_name(), attrs, children) == MNode::Experience(
            spec_lookup_pair(attrs, date_attr_name()),
            children,
        ),
        spec_lookup_pair(attrs, date_attr_name()) is None ==> spec_render_component(
            experience_name(),
            attrs,
            children,
        ) == MNode::Experience(None::<Seq<u8>>, children),
{
}

} // verus!
