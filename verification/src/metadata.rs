//! Parsing the metadata header into a key/value mapping.
//!
//! The header holds one top-level mapping. Each non-blank line is
//! `key: value`; a value is a bare scalar, a double-quoted scalar, an inline
//! map `{ k: v, ... }`, or — when the rest of the line is empty — a nested
//! map given by the following space-indented `k: v` lines. Nested values are
//! plain strings. Parsing never aborts the pipeline: a malformed header is
//! reported as a recoverable error value.

use vstd::prelude::*;

use crate::text::{
    bytes_eq,
    find_byte,
    find_byte_from,
    lines_view,
    spec_lines,
    spec_trim,
    split_lines,
    trim,
};

verus! {

/// Why a header failed to parse.
#[derive(Clone, Copy, Debug, PartialEq, Eq, Structural)]
pub enum MetaError {
    /// A non-blank line holds no `:` separator.
    MissingColon,
    /// A `:` separator with nothing before it.
    EmptyKey,
    /// A value opened with `"` but did not close it.
    UnclosedQuote,
    /// An inline map opened with `{` but did not close it.
    UnclosedBrace,
    /// A top-level line begins with indentation that belongs to no nested map.
    BadIndent,
}

/// A parsed metadata value: a plain string or one nested string map.
#[derive(Debug, PartialEq, Eq)]
pub enum MetaValue {
    Scalar(Vec<u8>),
    Mapping(Vec<(Vec<u8>, Vec<u8>)>),
}

/// The mathematical form of a metadata value.
pub enum MetaValueView {
    Scalar(Seq<u8>),
    Mapping(Seq<(Seq<u8>, Seq<u8>)>),
}

/// The views of a vector of string pairs.
pub open spec fn pairs_view(v: Vec<(Vec<u8>, Vec<u8>)>) -> Seq<(Seq<u8>, Seq<u8>)> {
    Seq::new(v@.len(), |i: int| (v@[i].0@, v@[i].1@))
}

pub open spec fn meta_value_view(v: MetaValue) -> MetaValueView {
    match v {
        MetaValue::Scalar(s) => MetaValueView::Scalar(s@),
        MetaValue::Mapping(m) => MetaValueView::Mapping(pairs_view(m)),
    }
}

/// The views of a vector of parsed entries.
pub open spec fn entries_view(v: Vec<(Vec<u8>, MetaValue)>) -> Seq<(Seq<u8>, MetaValueView)> {
    Seq::new(v@.len(), |i: int| (v@[i].0@, meta_value_view(v@[i].1)))
}

/// A parsed metadata header: its top-level entries in source order.
#[derive(Debug, PartialEq, Eq)]
pub struct Metadata {
    pub entries: Vec<(Vec<u8>, MetaValue)>,
}

/// A scalar from an already-trimmed value text: quoted scalars lose their
/// quotes, anything else stands as written.
pub open spec fn spec_scalar(rest: Seq<u8>) -> Result<Seq<u8>, MetaError> {
    if rest.len() >= 1 && rest[0] == 34 {
        if rest.len() >= 2 && rest[rest.len() - 1] == 34 {
            Ok(rest.subrange(1, rest.len() - 1))
        } else {
            Err(MetaError::UnclosedQuote)
        }
    } else {
        Ok(rest)
    }
}

/// One `key: value` pair with a scalar value, from one piece of text.
pub open spec fn spec_pair(piece: Seq<u8>) -> Result<(Seq<u8>, Seq<u8>), MetaError> {
    let c = find_byte_from(piece, 0, 58);
    if c < 0 {
        Err(MetaError::MissingColon)
    } else {
        let key = spec_trim(piece.subrange(0, c));
        if key.len() == 0 {
            Err(MetaError::EmptyKey)
        } else {
            match spec_scalar(spec_trim(piece.subrange(c + 1, piece.len() as int))) {
                Ok(v) => Ok((key, v)),
                Err(e) => Err(e),
            }
        }
    }
}

/// The comma-separated `k: v` pairs of an inline map body.
pub open spec fn spec_flow_entries(inner: Seq<u8>) -> Result<Seq<(Seq<u8>, Seq<u8>)>, MetaError>
    decreases inner.len() via spec_flow_entries_dec
{
    let k = find_byte_from(inner, 0, 44);
    if k < 0 {
        match spec_pair(inner) {
            Ok(p) => Ok(seq![p]),
            Err(e) => Err(e),
        }
    } else {
        match spec_pair(inner.subrange(0, k)) {
            Ok(p) => match spec_flow_entries(inner.subrange(k + 1, inner.len() as int)) {
                Ok(tail) => Ok(seq![p] + tail),
                Err(e) => Err(e),
            },
            Err(e) => Err(e),
        }
    }
}

#[via_fn]
proof fn spec_flow_entries_dec(inner: Seq<u8>) {
    crate::text::lemma_find_byte_range(inner, 0, 44);
}

/// An inline map `{ k: v, ... }` from an already-trimmed value text that
/// opens with `{`.
pub open spec fn spec_flow_map(rest: Seq<u8>) -> Result<Seq<(Seq<u8>, Seq<u8>)>, MetaError> {
    if rest.len() < 2 || rest[rest.len() - 1] != 125 {
        Err(MetaError::UnclosedBrace)
    } else {
        let inner = rest.subrange(1, rest.len() - 1);
        if spec_trim(inner).len() == 0 {
            Ok(Seq::empty())
        } else {
            spec_flow_entries(inner)
        }
    }
}

/// The `k: v` pairs of a nested block: the run of space-indented lines from
/// `i` on. Returns the pairs and the index of the first line after the block.
pub open spec fn spec_parse_block(ls: Seq<Seq<u8>>, i: int) -> Result<
    (Seq<(Seq<u8>, Seq<u8>)>, int),
    MetaError,
>
    decreases ls.len() - i when 0 <= i <= ls.len()
{
    if i >= ls.len() {
        Ok((Seq::empty(), i))
    } else if spec_trim(ls[i]).len() == 0 || ls[i][0] != 32 {
        Ok((Seq::empty(), i))
    } else {
        match spec_pair(ls[i]) {
            Ok(p) => match spec_parse_block(ls, i + 1) {
                Ok((tail, j)) => Ok((seq![p] + tail, j)),
                Err(e) => Err(e),
            },
            Err(e) => Err(e),
        }
    }
}

proof fn lemma_parse_block_range(ls: Seq<Seq<u8>>, i: int)
    requires
        0 <= i <= ls.len(),
    ensures
        spec_parse_block(ls, i) matches Ok(r) ==> i <= r.1 <= ls.len(),
    decreases ls.len() - i,
{
    if i >= ls.len() {
    } else if spec_trim(ls[i]).len() == 0 || ls[i][0] != 32 {
    } else {
        lemma_parse_block_range(ls, i + 1);
    }
}

/// The top-level entries from line `i` on. Blank lines separate entries; an
/// indented line belongs to the nested map opened by the line above it.
pub open spec fn spec_parse_lines(ls: Seq<Seq<u8>>, i: int) -> Result<
    Seq<(Seq<u8>, MetaValueView)>,
    MetaError,
>
    decreases ls.len() - i when 0 <= i <= ls.len() via spec_parse_lines_dec
{
    if i >= ls.len() {
        Ok(Seq::empty())
    } else if spec_trim(ls[i]).len() == 0 {
        spec_parse_lines(ls, i + 1)
    } else if ls[i][0] == 32 {
        Err(MetaError::BadIndent)
    } else {
        let l = ls[i];
        let c = find_byte_from(l, 0, 58);
        if c < 0 {
            Err(MetaError::MissingColon)
        } else {
            let key = spec_trim(l.subrange(0, c));
            if key.len() == 0 {
                Err(MetaError::EmptyKey)
            } else {
                let rest = spec_trim(l.subrange(c + 1, l.len() as int));
                if rest.len() == 0 {
                    match spec_parse_block(ls, i + 1) {
                        Ok((pairs, j)) => match spec_parse_lines(ls, j) {
                            Ok(tail) => Ok(seq![(key, MetaValueView::Mapping(pairs))] + tail),
                            Err(e) => Err(e),
                        },
                        Err(e) => Err(e),
                    }
                } else if rest[0] == 123 {
                    match spec_flow_map(rest) {
                        Ok(pairs) => match spec_parse_lines(ls, i + 1) {
                            Ok(tail) => Ok(seq![(key, MetaValueView::Mapping(pairs))] + tail),
                            Err(e) => Err(e),
                        },
                        Err(e) => Err(e),
                    }
                } else {
                    match spec_scalar(rest) {
                        Ok(v) => match spec_parse_lines(ls, i + 1) {
                            Ok(tail) => Ok(seq![(key, MetaValueView::Scalar(v))] + tail),
                            Err(e) => Err(e),
                        },
                        Err(e) => Err(e),
                    }
                }
            }
        }
    }
}

#[via_fn]
proof fn spec_parse_lines_dec(ls: Seq<Seq<u8>>, i: int) {
    if 0 <= i < ls.len() {
        lemma_parse_block_range(ls, i + 1);
    }
}

/// What parsing a whole header text yields.
pub open spec fn spec_parse_metadata(t: Seq<u8>) -> Result<Seq<(Seq<u8>, MetaValueView)>, MetaError> {
    spec_parse_lines(spec_lines(t), 0)
}

fn parse_scalar(rest: &[u8]) -> (r: Result<Vec<u8>, MetaError>)
    ensures
        r is Ok <==> spec_scalar(rest@) is Ok,
        r matches Ok(v) ==> spec_scalar(rest@) == Ok::<Seq<u8>, MetaError>(v@),
        r matches Err(e) ==> spec_scalar(rest@) == Err::<Seq<u8>, MetaError>(e),
{
    if rest.len() >= 1 && rest[0] == 34 {
        if rest.len() >= 2 && rest[rest.len() - 1] == 34 {
            Ok(vstd::slice::slice_to_vec(vstd::slice::slice_subrange(rest, 1, rest.len() - 1)))
        } else {
            Err(MetaError::UnclosedQuote)
        }
    } else {
        Ok(vstd::slice::slice_to_vec(rest))
    }
}

fn parse_pair(piece: &[u8]) -> (r: Result<(Vec<u8>, Vec<u8>), MetaError>)
    ensures
        r is Ok <==> spec_pair(piece@) is Ok,
        r matches Ok(p) ==> spec_pair(piece@) == Ok::<(Seq<u8>, Seq<u8>), MetaError>((p.0@, p.1@)),
        r matches Err(e) ==> spec_pair(piece@) == Err::<(Seq<u8>, Seq<u8>), MetaError>(e),
{
    match find_byte(piece, 0, 58) {
        None => Err(MetaError::MissingColon),
        Some(c) => {
            let key = trim(vstd::slice::slice_subrange(piece, 0, c));
            if key.len() == 0 {
                Err(MetaError::EmptyKey)
            } else {
                let n = piece.len();
                let rest = trim(vstd::slice::slice_subrange(piece, c + 1, n));
                match parse_scalar(rest) {
                    Ok(v) => Ok((vstd::slice::slice_to_vec(key), v)),
                    Err(e) => Err(e),
                }
            }
        },
    }
}

fn parse_flow_entries(inner: &[u8]) -> (r: Result<Vec<(Vec<u8>, Vec<u8>)>, MetaError>)
    ensures
        r is Ok <==> spec_flow_entries(inner@) is Ok,
        r matches Ok(v) ==> spec_flow_entries(inner@) == Ok::<Seq<(Seq<u8>, Seq<u8>)>, MetaError>(
            pairs_view(v),
        ),
        r matches Err(e) ==> spec_flow_entries(inner@) == Err::<Seq<(Seq<u8>, Seq<u8>)>, MetaError>(
            e,
        ),
    decreases inner@.len(),
{
    match find_byte(inner, 0, 44) {
        None => match parse_pair(inner) {
            Ok(p) => {
                let mut v: Vec<(Vec<u8>, Vec<u8>)> = Vec::new();
                v.push(p);
                proof {
                    assert(pairs_view(v) =~= seq![spec_pair(inner@)->Ok_0]);
                }
                Ok(v)
            },
            Err(e) => Err(e),
        },
        Some(k) => match parse_pair(vstd::slice::slice_subrange(inner, 0, k)) {
            Ok(p) => {
                let n = inner.len();
                match parse_flow_entries(vstd::slice::slice_subrange(inner, k + 1, n)) {
                    Ok(tail) => {
                        let ghost tail_view = pairs_view(tail);
                        let mut v: Vec<(Vec<u8>, Vec<u8>)> = Vec::new();
                        v.push(p);
                        let mut tail = tail;
                        v.append(&mut tail);
                        proof {
                            assert(pairs_view(v) =~= seq![
                                spec_pair(inner@.subrange(0, k as int))->Ok_0,
                            ] + tail_view);
                        }
                        Ok(v)
                    },
                    Err(e) => Err(e),
                }
            },
            Err(e) => Err(e),
        },
    }
}

fn parse_flow_map(rest: &[u8]) -> (r: Result<Vec<(Vec<u8>, Vec<u8>)>, MetaError>)
    ensures
        r is Ok <==> spec_flow_map(rest@) is Ok,
        r matches Ok(v) ==> spec_flow_map(rest@) == Ok::<Seq<(Seq<u8>, Seq<u8>)>, MetaError>(
            pairs_view(v),
        ),
        r matches Err(e) ==> spec_flow_map(rest@) == Err::<Seq<(Seq<u8>, Seq<u8>)>, MetaError>(e),
{
    if rest.len() < 2 || rest[rest.len() - 1] != 125 {
        Err(MetaError::UnclosedBrace)
    } else {
        let inner = vstd::slice::slice_subrange(rest, 1, rest.len() - 1);
        if trim(inner).len() == 0 {
            let v: Vec<(Vec<u8>, Vec<u8>)> = Vec::new();
            proof {
                assert(pairs_view(v) =~= Seq::<(Seq<u8>, Seq<u8>)>::empty());
            }
            Ok(v)
        } else {
            parse_flow_entries(inner)
        }
    }
}

fn parse_block(ls: &Vec<Vec<u8>>, i: usize) -> (r: Result<(Vec<(Vec<u8>, Vec<u8>)>, usize), MetaError>)
    requires
        i <= ls@.len(),
    ensures
        r is Ok <==> spec_parse_block(lines_view(*ls), i as int) is Ok,
        r matches Ok(p) ==> spec_parse_block(lines_view(*ls), i as int) matches Ok(sp) && pairs_view(
            p.0,
        ) == sp.0 && p.1 == sp.1 && i <= p.1 <= ls@.len(),
        r matches Err(e) ==> spec_parse_block(lines_view(*ls), i as int) matches Err(se) && e == se,
    decreases ls@.len() - i,
{
    let ghost lsv = lines_view(*ls);
    if i >= ls.len() {
        let v: Vec<(Vec<u8>, Vec<u8>)> = Vec::new();
        proof {
            assert(pairs_view(v) =~= Seq::<(Seq<u8>, Seq<u8>)>::empty());
        }
        Ok((v, i))
    } else {
        let line = &ls[i];
        proof {
            assert(lsv[i as int] == line@);
        }
        if trim(line.as_slice()).len() == 0 || line[0] != 32 {
            let v: Vec<(Vec<u8>, Vec<u8>)> = Vec::new();
            proof {
                assert(pairs_view(v) =~= Seq::<(Seq<u8>, Seq<u8>)>::empty());
            }
            Ok((v, i))
        } else {
            match parse_pair(line.as_slice()) {
                Ok(p) => match parse_block(ls, i + 1) {
                    Ok((tail, j)) => {
                        let ghost tail_view = pairs_view(tail);
                        let mut v: Vec<(Vec<u8>, Vec<u8>)> = Vec::new();
                        v.push(p);
                        let mut tail = tail;
                        v.append(&mut tail);
                        proof {
                            assert(pairs_view(v) =~= seq![spec_pair(lsv[i as int])->Ok_0]
                                + tail_view);
                        }
                        Ok((v, j))
                    },
                    Err(e) => Err(e),
                },
                Err(e) => Err(e),
            }
        }
    }
}

#[verifier::rlimit(100)]
fn parse_lines_from(ls: &Vec<Vec<u8>>, i: usize) -> (r: Result<Vec<(Vec<u8>, MetaValue)>, MetaError>)
    requires
        i <= ls@.len(),
    ensures
        r is Ok <==> spec_parse_lines(lines_view(*ls), i as int) is Ok,
        r matches Ok(v) ==> spec_parse_lines(lines_view(*ls), i as int) matches Ok(sv)
            && entries_view(v) == sv,
        r matches Err(e) ==> spec_parse_lines(lines_view(*ls), i as int) matches Err(se) && e == se,
    decreases ls@.len() - i,
{
    let ghost lsv = lines_view(*ls);
    if i >= ls.len() {
        let v: Vec<(Vec<u8>, MetaValue)> = Vec::new();
        proof {
            assert(entries_view(v) =~= Seq::<(Seq<u8>, MetaValueView)>::empty());
        }
        Ok(v)
    } else {
        let line = &ls[i];
        proof {
            assert(lsv[i as int] == line@);
        }
        if trim(line.as_slice()).len() == 0 {
            parse_lines_from(ls, i + 1)
        } else if line[0] == 32 {
            Err(MetaError::BadIndent)
        } else {
            match find_byte(line.as_slice(), 0, 58) {
                None => Err(MetaError::MissingColon),
                Some(c) => {
                    let key = trim(vstd::slice::slice_subrange(line.as_slice(), 0, c));
                    if key.len() == 0 {
                        Err(MetaError::EmptyKey)
                    } else {
                        let n = line.len();
                        let rest = trim(
                            vstd::slice::slice_subrange(line.as_slice(), c + 1, n),
                        );
                        if rest.len() == 0 {
                            match parse_block(ls, i + 1) {
                                Ok((pairs, j)) => match parse_lines_from(ls, j) {
                                    Ok(tail) => Ok(
                                        prepend_entry(
                                            vstd::slice::slice_to_vec(key),
                                            MetaValue::Mapping(pairs),
                                            tail,
                                        ),
                                    ),
                                    Err(e) => Err(e),
                                },
                                Err(e) => Err(e),
                            }
                        } else if rest[0] == 123 {
                            match parse_flow_map(rest) {
                                Ok(pairs) => match parse_lines_from(ls, i + 1) {
                                    Ok(tail) => Ok(
                                        prepend_entry(
                                            vstd::slice::slice_to_vec(key),
                                            MetaValue::Mapping(pairs),
                                            tail,
                                        ),
                                    ),
                                    Err(e) => Err(e),
                                },
                                Err(e) => Err(e),
                            }
                        } else {
                            match parse_scalar(rest) {
                                Ok(v) => match parse_lines_from(ls, i + 1) {
                                    Ok(tail) => Ok(
                                        prepend_entry(
                                            vstd::slice::slice_to_vec(key),
                                            MetaValue::Scalar(v),
                                            tail,
                                        ),
                                    ),
                                    Err(e) => Err(e),
                                },
                                Err(e) => Err(e),
                            }
                        }
                    }
                },
            }
        }
    }
}

fn prepend_entry(key: Vec<u8>, value: MetaValue, tail: Vec<(Vec<u8>, MetaValue)>) -> (r: Vec<
    (Vec<u8>, MetaValue),
>)
    ensures
        entries_view(r) == seq![(key@, meta_value_view(value))] + entries_view(tail),
{
    let ghost tail_view = entries_view(tail);
    let ghost key_view = key@;
    let ghost value_view = meta_value_view(value);
    let mut v: Vec<(Vec<u8>, MetaValue)> = Vec::new();
    v.push((key, value));
    let mut tail = tail;
    v.append(&mut tail);
    proof {
        assert(entries_view(v) =~= seq![(key_view, value_view)] + tail_view);
    }
    v
}

/// Parse a metadata header text into its top-level entries.
///
/// The result is `Ok` exactly when the text matches the header grammar, and
/// then holds, in source order, exactly the entries the grammar gives; each
/// grammar fault yields its own error value and leaves the caller free to
/// fall back.
pub fn parse_metadata(t: &[u8]) -> (r: Result<Metadata, MetaError>)
    ensures
        r is Ok <==> spec_parse_metadata(t@) is Ok,
        r matches Ok(m) ==> spec_parse_metadata(t@) matches Ok(sv) && entries_view(m.entries) == sv,
        r matches Err(e) ==> spec_parse_metadata(t@) matches Err(se) && e == se,
{
    let lines = split_lines(t);
    match parse_lines_from(&lines, 0) {
        Ok(entries) => Ok(Metadata { entries }),
        Err(e) => Err(e),
    }
}

/// The value of the first pair with the given key, if any.
pub open spec fn spec_lookup_pair(ps: Seq<(Seq<u8>, Seq<u8>)>, k: Seq<u8>) -> Option<Seq<u8>>
    decreases ps.len(),
{
    if ps.len() == 0 {
        None
    } else if ps[0].0 == k {
        Some(ps[0].1)
    } else {
        spec_lookup_pair(ps.subrange(1, ps.len() as int), k)
    }
}

/// The value of the first entry with the given key, if any.
pub open spec fn spec_lookup_entry(es: Seq<(Seq<u8>, MetaValueView)>, k: Seq<u8>) -> Option<
    MetaValueView,
>
    decreases es.len(),
{
    if es.len() == 0 {
        None
    } else if es[0].0 == k {
        Some(es[0].1)
    } else {
        spec_lookup_entry(es.subrange(1, es.len() as int), k)
    }
}

fn lookup_pair_from(ps: &Vec<(Vec<u8>, Vec<u8>)>, k: &[u8], i: usize) -> (r: Option<Vec<u8>>)
    requires
        i <= ps@.len(),
    ensures
        match r {
            Some(v) => spec_lookup_pair(pairs_view(*ps).subrange(i as int, ps@.len() as int), k@)
                == Some(v@),
            None => spec_lookup_pair(pairs_view(*ps).subrange(i as int, ps@.len() as int), k@)
                is None,
        },
    decreases ps@.len() - i,
{
    let ghost whole = pairs_view(*ps).subrange(i as int, ps@.len() as int);
    if i >= ps.len() {
        None
    } else if bytes_eq(ps[i].0.as_slice(), k) {
        proof {
            assert(whole[0] == (ps@[i as int].0@, ps@[i as int].1@));
        }
        Some(clone_bytes(&ps[i].1))
    } else {
        let r = lookup_pair_from(ps, k, i + 1);
        proof {
            assert(whole[0] == (ps@[i as int].0@, ps@[i as int].1@));
            assert(whole.subrange(1, whole.len() as int) =~= pairs_view(*ps).subrange(
                i + 1,
                ps@.len() as int,
            ));
        }
        r
    }
}

fn clone_bytes(v: &Vec<u8>) -> (r: Vec<u8>)
    ensures
        r@ == v@,
{
    vstd::slice::slice_to_vec(v.as_slice())
}

/// Find the value of `k` among string pairs; the first match counts.
pub fn lookup_pair(ps: &Vec<(Vec<u8>, Vec<u8>)>, k: &[u8]) -> (r: Option<Vec<u8>>)
    ensures
        match r {
            Some(v) => spec_lookup_pair(pairs_view(*ps), k@) == Some(v@),
            None => spec_lookup_pair(pairs_view(*ps), k@) is None,
        },
{
    let r = lookup_pair_from(ps, k, 0);
    proof {
        assert(pairs_view(*ps).subrange(0, ps@.len() as int) =~= pairs_view(*ps));
    }
    r
}

impl Metadata {
    /// The nested map stored under the given top-level key, if that key is
    /// present and holds a map.
    pub fn nested_map(&self, k: &[u8]) -> (r: Option<&Vec<(Vec<u8>, Vec<u8>)>>)
        ensures
            match r {
                Some(m) => spec_lookup_entry(entries_view(self.entries), k@) == Some(
                    MetaValueView::Mapping(pairs_view(*m)),
                ),
                None => !(spec_lookup_entry(entries_view(self.entries), k@) matches Some(
                    MetaValueView::Mapping(_),
                )),
            },
    {
        proof {
            assert(entries_view(self.entries).subrange(0, self.entries@.len() as int)
                =~= entries_view(self.entries));
        }
        self.nested_map_from(k, 0)
    }

    fn nested_map_from(&self, k: &[u8], i: usize) -> (r: Option<&Vec<(Vec<u8>, Vec<u8>)>>)
        requires
            i <= self.entries@.len(),
        ensures
            match r {
                Some(m) => spec_lookup_entry(
                    entries_view(self.entries).subrange(i as int, self.entries@.len() as int),
                    k@,
                ) == Some(MetaValueView::Mapping(pairs_view(*m))),
                None => !(spec_lookup_entry(
                    entries_view(self.entries).subrange(i as int, self.entries@.len() as int),
                    k@,
                ) matches Some(MetaValueView::Mapping(_))),
            },
        decreases self.entries@.len() - i,
    {
        let ghost whole = entries_view(self.entries).subrange(
            i as int,
            self.entries@.len() as int,
        );
        if i >= self.entries.len() {
            None
        } else {
            proof {
                assert(whole[0] == (self.entries@[i as int].0@, meta_value_view(
                    self.entries@[i as int].1,
                )));
                assert(whole.subrange(1, whole.len() as int) =~= entries_view(
                    self.entries,
                ).subrange(i + 1, self.entries@.len() as int));
            }
            if bytes_eq(self.entries[i].0.as_slice(), k) {
                match &self.entries[i].1 {
                    MetaValue::Mapping(m) => Some(m),
                    MetaValue::Scalar(_) => None,
                }
            } else {
                self.nested_map_from(k, i + 1)
            }
        }
    }
}

} // verus!
