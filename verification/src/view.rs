//! Composing the displayed structure, and the reactive text store.
//!
//! The composer is a pure function of the raw text, the font selection and
//! the component registry: it extracts the header, parses body and header,
//! and combines the body's render tree, the font-family name and the contact
//! panel into one view. The store owns the raw text and the font index and
//! keeps the derived pieces current: editing the text re-derives body and
//! panel, changing the font touches neither.

use vstd::prelude::*;

use crate::document::{
    extract_frontmatter,
    spec_body,
    spec_frontmatter,
    well_formed_header,
};
use crate::markdown::{
    nodes_view,
    parse_markdown,
    registry_view,
    spec_parse_doc,
    MNode,
    Node,
    Registry,
};
use crate::metadata::{
    pairs_view,
    parse_metadata,
    spec_lookup_entry,
    spec_parse_metadata,
    MetaValueView,
};

verus! {

/// How many fonts the fixed list holds.
pub open spec fn font_count() -> int {
    7
}

/// How many fonts the fixed list holds.
pub fn num_fonts() -> (r: usize)
    ensures
        r == font_count(),
{
    7
}

/// The font-family name at an index of the fixed list.
pub open spec fn spec_font_name(i: int) -> Seq<char> {
    if i == 0 {
        "verdana"@
    } else if i == 1 {
        "times"@
    } else if i == 2 {
        "sans-serif"@
    } else if i == 3 {
        "monaco"@
    } else if i == 4 {
        "serif"@
    } else if i == 5 {
        "monospace"@
    } else {
        "arial"@
    }
}

/// The font-family name at a valid index of the fixed list.
pub fn font_name(i: usize) -> (r: &'static str)
    requires
        i < font_count(),
    ensures
        r@ == spec_font_name(i as int),
{
    if i == 0 {
        "verdana"
    } else if i == 1 {
        "times"
    } else if i == 2 {
        "sans-serif"
    } else if i == 3 {
        "monaco"
    } else if i == 4 {
        "serif"
    } else if i == 5 {
        "monospace"
    } else {
        "arial"
    }
}

/// The key the contact panel reads, `contact`.
pub open spec fn contact_key() -> Seq<u8> {
    seq![99u8, 111u8, 110u8, 116u8, 97u8, 99u8, 116u8]
}

fn contact_key_bytes() -> (r: Vec<u8>)
    ensures
        r@ == contact_key(),
{
    let mut v: Vec<u8> = Vec::new();
    v.push(99);
    v.push(111);
    v.push(110);
    v.push(116);
    v.push(97);
    v.push(99);
    v.push(116);
    proof {
        assert(v@ =~= contact_key());
    }
    v
}

/// The contact panel: either the contact fields, or a visible fallback when
/// the header is absent, malformed, or holds no contact mapping.
#[derive(Debug, PartialEq, Eq)]
pub enum Panel {
    Contact(Vec<(Vec<u8>, Vec<u8>)>),
    Unavailable,
}

/// The mathematical form of the contact panel.
pub enum PanelView {
    Contact(Seq<(Seq<u8>, Seq<u8>)>),
    Unavailable,
}

pub open spec fn panel_view(p: Panel) -> PanelView {
    match p {
        Panel::Contact(fields) => PanelView::Contact(pairs_view(fields)),
        Panel::Unavailable => PanelView::Unavailable,
    }
}

/// The view of an optional frontmatter.
pub open spec fn opt_bytes_view(o: Option<Vec<u8>>) -> Option<Seq<u8>> {
    match o {
        Some(v) => Some(v@),
        None => None,
    }
}

/// The optional frontmatter of an input, as header extraction finds it.
pub open spec fn spec_fm_opt(t: Seq<u8>) -> Option<Seq<u8>> {
    if well_formed_header(t) {
        Some(spec_frontmatter(t))
    } else {
        None
    }
}

/// What the contact panel shows for an optional frontmatter: the `contact`
/// mapping of a header that parses and holds one; the fallback otherwise.
pub open spec fn spec_contact_panel(fm: Option<Seq<u8>>) -> PanelView {
    match fm {
        None => PanelView::Unavailable,
        Some(f) => match spec_parse_metadata(f) {
            Err(_) => PanelView::Unavailable,
            Ok(es) => match spec_lookup_entry(es, contact_key()) {
                Some(MetaValueView::Mapping(m)) => PanelView::Contact(m),
                _ => PanelView::Unavailable,
            },
        },
    }
}

fn clone_pairs(v: &Vec<(Vec<u8>, Vec<u8>)>) -> (r: Vec<(Vec<u8>, Vec<u8>)>)
    ensures
        pairs_view(r) == pairs_view(*v),
{
    let mut r: Vec<(Vec<u8>, Vec<u8>)> = Vec::new();
    let mut i: usize = 0;
    while i < v.len()
        invariant
            i <= v@.len(),
            r@.len() == i,
            forall|k: int| 0 <= k < i ==> pairs_view(r)[k] == pairs_view(*v)[k],
        decreases v@.len() - i,
    {
        let key = vstd::slice::slice_to_vec(v[i].0.as_slice());
        let val = vstd::slice::slice_to_vec(v[i].1.as_slice());
        r.push((key, val));
        i += 1;
    }
    proof {
        assert(pairs_view(r) =~= pairs_view(*v));
    }
    r
}

/// Build the contact panel from an optional raw frontmatter.
pub fn contact_panel(fm: &Option<Vec<u8>>) -> (p: Panel)
    ensures
        panel_view(p) == spec_contact_panel(opt_bytes_view(*fm)),
{
    match fm {
        None => Panel::Unavailable,
        Some(f) => match parse_metadata(f.as_slice()) {
            Err(_) => Panel::Unavailable,
            Ok(m) => {
                let key = contact_key_bytes();
                match m.nested_map(key.as_slice()) {
                    Some(cm) => Panel::Contact(clone_pairs(cm)),
                    None => Panel::Unavailable,
                }
            },
        },
    }
}

/// The displayed structure: the font-family style of the container, the
/// body's render tree, and the contact panel.
#[derive(Debug, PartialEq, Eq)]
pub struct Rendered {
    pub font: &'static str,
    pub body: Vec<Node>,
    pub panel: Panel,
}

/// The mathematical form of a displayed structure.
pub struct ViewModel {
    pub font: Seq<char>,
    pub body: Seq<MNode>,
    pub panel: PanelView,
}

pub open spec fn view_model(v: Rendered) -> ViewModel {
    ViewModel { font: v.font@, body: nodes_view(v.body), panel: panel_view(v.panel) }
}

/// What composing raw text with a font index and a registry displays.
pub open spec fn spec_compose(t: Seq<u8>, f: int, names: Seq<Seq<u8>>) -> ViewModel {
    ViewModel {
        font: spec_font_name(f),
        body: spec_parse_doc(spec_body(t), names),
        panel: spec_contact_panel(spec_fm_opt(t)),
    }
}

/// Compose the displayed structure from the raw text, the font selection
/// and the component registry. A pure function of its inputs: the body tree
/// comes from the body alone, the panel from the header alone, and the font
/// style from the index alone.
pub fn compose(t: &[u8], font_index: usize, reg: &Registry) -> (v: Rendered)
    requires
        font_index < font_count(),
    ensures
        view_model(v) == spec_compose(t@, font_index as int, registry_view(*reg)),
{
    let doc = extract_frontmatter(t);
    let panel = contact_panel(&doc.frontmatter);
    let body = parse_markdown(doc.body.as_slice(), reg);
    Rendered { font: font_name(font_index), body, panel }
}

/// Re-rendering the same text and font selection yields a structurally
/// identical view: the composition is a function of its inputs, so two
/// renders of one state agree in every node.
pub proof fn lemma_render_deterministic(
    a: Rendered,
    b: Rendered,
    t: Seq<u8>,
    f: int,
    names: Seq<Seq<u8>>,
)
    requires
        view_model(a) == spec_compose(t, f, names),
        view_model(b) == spec_compose(t, f, names),
    ensures
        view_model(a) == view_model(b),
{
}

/// The font selection and the document content are independent: two font
/// indices give the same body tree and the same contact panel, and only the
/// font-family style differs between their views.
pub proof fn lemma_font_independent(t: Seq<u8>, f1: int, f2: int, names: Seq<Seq<u8>>)
    ensures
        spec_compose(t, f1, names).body == spec_compose(t, f2, names).body,
        spec_compose(t, f1, names).panel == spec_compose(t, f2, names).panel,
        spec_compose(t, f1, names).font == spec_font_name(f1),
{
}

/// A malformed header is isolated to the contact panel: it falls back to
/// its unavailable state, and the body renders exactly as the body text
/// alone dictates.
pub proof fn lemma_malformed_header_isolated(t: Seq<u8>, f: int, names: Seq<Seq<u8>>)
    requires
        spec_fm_opt(t) matches Some(fm) && spec_parse_metadata(fm) is Err,
    ensures
        spec_compose(t, f, names).panel == PanelView::Unavailable,
        spec_compose(t, f, names).body == spec_parse_doc(spec_body(t), names),
{
}

/// A header that parses and holds a `contact` mapping fills the contact
/// panel with exactly that mapping's fields.
pub proof fn lemma_contact_panel_fields(fm: Seq<u8>, es: Seq<(Seq<u8>, MetaValueView)>)
    requires
        spec_parse_metadata(fm) == Ok::<Seq<(Seq<u8>, MetaValueView)>, crate::metadata::MetaError>(
            es,
        ),
        spec_lookup_entry(es, contact_key()) matches Some(v) && v matches
            MetaValueView::Mapping(m),
    ensures
        spec_contact_panel(Some(fm)) matches PanelView::Contact(m) && spec_lookup_entry(
            es,
            contact_key(),
        ) == Some(MetaValueView::Mapping(m)),
{
}

/// The reactive text store: the one owner of the raw text and the font
/// index, with the derived body tree and contact panel kept current. A text
/// edit re-derives exactly the body and the panel; a font change touches
/// neither.
pub struct Store {
    pub text: Vec<u8>,
    pub font_index: usize,
    pub registry: Registry,
    pub body: Vec<Node>,
    pub panel: Panel,
}

impl Store {
    /// The derived pieces agree with the owned state.
    pub open spec fn wf(self) -> bool {
        &&& self.font_index < font_count()
        &&& nodes_view(self.body) == spec_parse_doc(spec_body(self.text@), registry_view(
            self.registry,
        ))
        &&& panel_view(self.panel) == spec_contact_panel(spec_fm_opt(self.text@))
    }

    /// The view the store's state composes to.
    pub open spec fn spec_current(self) -> ViewModel {
        spec_compose(self.text@, self.font_index as int, registry_view(self.registry))
    }

    /// A store over initial text, with the default font selected.
    pub fn new(text: Vec<u8>, registry: Registry) -> (s: Store)
        ensures
            s.wf(),
            s.text == text,
            s.font_index == 0,
            s.registry == registry,
    {
        let doc = extract_frontmatter(text.as_slice());
        let panel = contact_panel(&doc.frontmatter);
        let body = parse_markdown(doc.body.as_slice(), &registry);
        Store { text, font_index: 0, registry, body, panel }
    }

    /// Replace the text: the body tree and the contact panel are re-derived
    /// from the new text, and the font selection stands untouched.
    pub fn set_text(&mut self, text: Vec<u8>)
        requires
            old(self).wf(),
        ensures
            final(self).wf(),
            final(self).text == text,
            final(self).font_index == old(self).font_index,
            final(self).registry == old(self).registry,
    {
        self.text = text;
        let doc = extract_frontmatter(self.text.as_slice());
        self.panel = contact_panel(&doc.frontmatter);
        self.body = parse_markdown(doc.body.as_slice(), &self.registry);
    }

    /// Change the font selection: only the index moves; the body tree and
    /// the contact panel are the very values derived before, not recomputed.
    pub fn set_font(&mut self, i: usize)
        requires
            old(self).wf(),
            i < font_count(),
        ensures
            final(self).wf(),
            final(self).font_index == i,
            final(self).text == old(self).text,
            final(self).registry == old(self).registry,
            final(self).body == old(self).body,
            final(self).panel == old(self).panel,
    {
        self.font_index = i;
    }

    /// The current font-family name.
    pub fn font(&self) -> (r: &'static str)
        requires
            self.wf(),
        ensures
            r@ == spec_font_name(self.font_index as int),
            r@ == self.spec_current().font,
    {
        font_name(self.font_index)
    }

    /// The current body render tree.
    pub fn body(&self) -> (r: &Vec<Node>)
        requires
            self.wf(),
        ensures
            nodes_view(*r) == self.spec_current().body,
    {
        &self.body
    }

    /// The current contact panel.
    pub fn panel(&self) -> (r: &Panel)
        requires
            self.wf(),
        ensures
            panel_view(*r) == self.spec_current().panel,
    {
        &self.panel
    }
}

} // verus!
