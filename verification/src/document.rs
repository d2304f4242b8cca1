//! Splitting raw source text into an optional metadata header and a body.
//!
//! A header is opened by a first line that is exactly `---` and closed by the
//! next newline-terminated line that is exactly `---`. The bytes between the
//! two delimiter lines are the frontmatter; everything after the closing
//! delimiter line is the body. When no well-formed header is present — no
//! opening line, or a header that never closes — the whole input is the
//! body.

use vstd::prelude::*;

verus! {

/// One delimiter line, `---` followed by a newline.
pub open spec fn delim() -> Seq<u8> {
    seq![45u8, 45u8, 45u8, 10u8]
}

/// The input opens a header: it begins with a `---` delimiter line.
pub open spec fn starts_header(t: Seq<u8>) -> bool {
    t.len() >= 4 && t.subrange(0, 4) == delim()
}

/// A closing delimiter line `---\n` begins at position `i`: it is preceded by
/// a newline (or directly follows the opening line) and spans `i..i+4`.
pub open spec fn is_close_at(t: Seq<u8>, i: int) -> bool {
    &&& 4 <= i
    &&& i + 4 <= t.len()
    &&& t.subrange(i, i + 4) == delim()
    &&& (i == 4 || t[i - 1] == 10)
}

/// The first position `>= i` where a closing delimiter line begins, or -1 if
/// there is none.
pub open spec fn first_close_from(t: Seq<u8>, i: int) -> int
    recommends
        4 <= i,
    decreases t.len() - i when i <= t.len()
{
    if i + 4 > t.len() {
        -1
    } else if is_close_at(t, i) {
        i
    } else {
        first_close_from(t, i + 1)
    }
}

/// The input holds a well-formed header: an opening delimiter line and a
/// later closing delimiter line.
pub open spec fn well_formed_header(t: Seq<u8>) -> bool {
    starts_header(t) && first_close_from(t, 4) >= 0
}

/// The frontmatter of an input with a well-formed header: the bytes between
/// the opening and the closing delimiter lines.
pub open spec fn spec_frontmatter(t: Seq<u8>) -> Seq<u8>
    recommends
        well_formed_header(t),
{
    t.subrange(4, first_close_from(t, 4))
}

/// The body: the bytes after the closing delimiter line, or the whole input
/// when there is no well-formed header.
pub open spec fn spec_body(t: Seq<u8>) -> Seq<u8> {
    if well_formed_header(t) {
        t.subrange(first_close_from(t, 4) + 4, t.len() as int)
    } else {
        t
    }
}

/// The result of header extraction: an optional raw frontmatter and the body.
#[derive(Debug, PartialEq, Eq)]
pub struct Document {
    pub frontmatter: Option<Vec<u8>>,
    pub body: Vec<u8>,
}

proof fn lemma_first_close_props(t: Seq<u8>, i: int)
    requires
        4 <= i <= t.len(),
    ensures
        first_close_from(t, i) >= 0 ==> is_close_at(t, first_close_from(t, i)),
        first_close_from(t, i) >= 0 ==> i <= first_close_from(t, i),
        first_close_from(t, i) >= 0 ==> first_close_from(t, i) + 4 <= t.len(),
    decreases t.len() - i,
{
    if i + 4 > t.len() {
    } else if is_close_at(t, i) {
    } else {
        lemma_first_close_props(t, i + 1);
    }
}

/// Four delimiter bytes stand at `i..i+4`.
fn delim_bytes_at(t: &[u8], i: usize) -> (r: bool)
    requires
        i + 4 <= t@.len(),
    ensures
        r <==> t@.subrange(i as int, i + 4) == delim(),
{
    let r = t[i] == 45 && t[i + 1] == 45 && t[i + 2] == 45 && t[i + 3] == 10;
    proof {
        if r {
            assert(t@.subrange(i as int, i + 4) =~= delim());
        } else {
            assert(t@.subrange(i as int, i + 4) != delim()) by {
                if t@.subrange(i as int, i + 4) == delim() {
                    assert(t@[i as int] == t@.subrange(i as int, i + 4)[0]);
                    assert(t@[i + 1] == t@.subrange(i as int, i + 4)[1]);
                    assert(t@[i + 2] == t@.subrange(i as int, i + 4)[2]);
                    assert(t@[i + 3] == t@.subrange(i as int, i + 4)[3]);
                }
            }
        }
    }
    r
}

fn find_close(t: &[u8], i: usize) -> (r: Option<usize>)
    requires
        4 <= i <= t@.len(),
    ensures
        match r {
            Some(c) => c == first_close_from(t@, i as int),
            None => first_close_from(t@, i as int) == -1,
        },
    decreases t@.len() - i,
{
    if t.len() - i < 4 {
        None
    } else {
        let here = delim_bytes_at(t, i) && (i == 4 || t[i - 1] == 10);
        if here {
            Some(i)
        } else {
            find_close(t, i + 1)
        }
    }
}

/// Split raw source text into an optional frontmatter and a body.
///
/// With a well-formed header the frontmatter is exactly the bytes between the
/// delimiter lines and the body is everything after the closing line; with no
/// well-formed header the frontmatter is absent and the body is the whole
/// input, byte for byte.
pub fn extract_frontmatter(t: &[u8]) -> (d: Document)
    ensures
        well_formed_header(t@) ==> (d.frontmatter matches Some(f) && f@ == spec_frontmatter(t@)),
        !well_formed_header(t@) ==> d.frontmatter is None,
        d.body@ == spec_body(t@),
{
    if t.len() >= 4 && delim_bytes_at(t, 0) {
        proof {
            assert(starts_header(t@));
        }
        match find_close(t, 4) {
            Some(c) => {
                proof {
                    lemma_first_close_props(t@, 4);
                }
                let f = vstd::slice::slice_subrange(t, 4, c);
                let b = vstd::slice::slice_subrange(t, c + 4, t.len());
                Document {
                    frontmatter: Some(vstd::slice::slice_to_vec(f)),
                    body: vstd::slice::slice_to_vec(b),
                }
            },
            None => Document { frontmatter: None, body: vstd::slice::slice_to_vec(t) },
        }
    } else {
        proof {
            assert(!starts_header(t@));
        }
        Document { frontmatter: None, body: vstd::slice::slice_to_vec(t) }
    }
}

/// With no well-formed header, extraction finds no frontmatter and the body
/// is the full input.
pub proof fn lemma_no_header_identity(t: Seq<u8>)
    requires
        !well_formed_header(t),
    ensures
        spec_body(t) == t,
{
}

/// Re-joining the pieces of a well-formed input — opening delimiter line,
/// frontmatter, closing delimiter line, body — reproduces the input byte for
/// byte.
pub proof fn lemma_header_round_trip(t: Seq<u8>)
    requires
        well_formed_header(t),
    ensures
        t == delim() + spec_frontmatter(t) + delim() + spec_body(t),
{
    let c = first_close_from(t, 4);
    lemma_first_close_props(t, 4);
    assert(t.subrange(0, 4) == delim());
    assert(t.subrange(c, c + 4) == delim());
    assert(t =~= delim() + spec_frontmatter(t) + delim() + spec_body(t)) by {
        assert forall|k: int| 0 <= k < t.len() implies t[k] == (delim() + spec_frontmatter(t)
            + delim() + spec_body(t))[k] by {
            if k < 4 {
                assert(t[k] == t.subrange(0, 4)[k]);
            } else if k < c {
                assert(t[k] == spec_frontmatter(t)[k - 4]);
            } else if k < c + 4 {
                assert(t[k] == t.subrange(c, c + 4)[k - c]);
            } else {
                assert(t[k] == spec_body(t)[k - c - 4]);
            }
        }
    }
}

} // verus!
