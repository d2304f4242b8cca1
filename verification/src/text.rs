//! Byte-level text helpers shared by the header parser and the Markdown
//! engine: searching, splitting into lines, trimming spaces, and comparing.

use vstd::prelude::*;

verus! {

/// First position `>= i` in `t` holding byte `b`, or -1 if there is none.
pub open spec fn find_byte_from(t: Seq<u8>, i: int, b: u8) -> int
    decreases t.len() - i when i <= t.len()
{
    if i >= t.len() {
        -1
    } else if t[i] == b {
        i
    } else {
        find_byte_from(t, i + 1, b)
    }
}

pub proof fn lemma_find_byte_range(t: Seq<u8>, i: int, b: u8)
    requires
        0 <= i <= t.len(),
    ensures
        find_byte_from(t, i, b) != -1 ==> i <= find_byte_from(t, i, b) < t.len() && t[find_byte_from(
            t,
            i,
            b,
        )] == b,
    decreases t.len() - i,
{
    if i >= t.len() {
    } else if t[i] == b {
    } else {
        lemma_find_byte_range(t, i + 1, b);
    }
}

pub fn find_byte(t: &[u8], i: usize, b: u8) -> (r: Option<usize>)
    requires
        i <= t@.len(),
    ensures
        match r {
            Some(j) => j == find_byte_from(t@, i as int, b) && i <= j < t@.len() && t@[j as int]
                == b,
            None => find_byte_from(t@, i as int, b) == -1,
        },
    decreases t@.len() - i,
{
    if i >= t.len() {
        None
    } else if t[i] == b {
        Some(i)
    } else {
        find_byte(t, i + 1, b)
    }
}

/// The input split at newline bytes; a trailing newline closes its line
/// without opening an empty last one.
pub open spec fn spec_lines(t: Seq<u8>) -> Seq<Seq<u8>>
    decreases t.len() via spec_lines_dec
{
    if t.len() == 0 {
        Seq::empty()
    } else {
        let k = find_byte_from(t, 0, 10);
        if k < 0 {
            seq![t]
        } else {
            seq![t.subrange(0, k)] + spec_lines(t.subrange(k + 1, t.len() as int))
        }
    }
}

#[via_fn]
proof fn spec_lines_dec(t: Seq<u8>) {
    lemma_find_byte_range(t, 0, 10);
}

/// The sequence of line views held by a vector of lines.
pub open spec fn lines_view(v: Vec<Vec<u8>>) -> Seq<Seq<u8>> {
    Seq::new(v@.len(), |i: int| v@[i]@)
}

pub fn split_lines(t: &[u8]) -> (r: Vec<Vec<u8>>)
    ensures
        lines_view(r) == spec_lines(t@),
    decreases t@.len(),
{
    let mut r: Vec<Vec<u8>> = Vec::new();
    if t.len() == 0 {
        assert(lines_view(r) =~= spec_lines(t@));
        return r;
    }
    match find_byte(t, 0, 10) {
        None => {
            r.push(vstd::slice::slice_to_vec(t));
            assert(lines_view(r) =~= spec_lines(t@));
            r
        },
        Some(k) => {
            r.push(vstd::slice::slice_to_vec(vstd::slice::slice_subrange(t, 0, k)));
            let mut rest = split_lines(vstd::slice::slice_subrange(t, k + 1, t.len()));
            let ghost rest_lines = lines_view(rest);
            r.append(&mut rest);
            assert(lines_view(r) =~= seq![t@.subrange(0, k as int)] + rest_lines);
            r
        },
    }
}

/// The input with leading space bytes removed.
pub open spec fn spec_trim_start(t: Seq<u8>) -> Seq<u8>
    decreases t.len(),
{
    if t.len() > 0 && t[0] == 32 {
        spec_trim_start(t.subrange(1, t.len() as int))
    } else {
        t
    }
}

/// The input with trailing space bytes removed.
pub open spec fn spec_trim_end(t: Seq<u8>) -> Seq<u8>
    decreases t.len(),
{
    if t.len() > 0 && t[t.len() - 1] == 32 {
        spec_trim_end(t.subrange(0, t.len() - 1))
    } else {
        t
    }
}

/// The input with leading and trailing space bytes removed.
pub open spec fn spec_trim(t: Seq<u8>) -> Seq<u8> {
    spec_trim_end(spec_trim_start(t))
}

fn trim_start(t: &[u8]) -> (r: &[u8])
    ensures
        r@ == spec_trim_start(t@),
    decreases t@.len(),
{
    if t.len() > 0 && t[0] == 32 {
        let rest = vstd::slice::slice_subrange(t, 1, t.len());
        trim_start(rest)
    } else {
        t
    }
}

fn trim_end(t: &[u8]) -> (r: &[u8])
    ensures
        r@ == spec_trim_end(t@),
    decreases t@.len(),
{
    if t.len() > 0 && t[t.len() - 1] == 32 {
        let rest = vstd::slice::slice_subrange(t, 0, t.len() - 1);
        trim_end(rest)
    } else {
        t
    }
}

/// Remove leading and trailing space bytes.
pub fn trim(t: &[u8]) -> (r: &[u8])
    ensures
        r@ == spec_trim(t@),
{
    trim_end(trim_start(t))
}

/// Compare two byte strings for equality.
pub fn bytes_eq(a: &[u8], b: &[u8]) -> (r: bool)
    ensures
        r <==> a@ == b@,
{
    if a.len() != b.len() {
        return false;
    }
    let mut i: usize = 0;
    while i < a.len()
        invariant
            i <= a@.len(),
            a@.len() == b@.len(),
            forall|k: int| 0 <= k < i ==> a@[k] == b@[k],
        decreases a@.len() - i,
    {
        if a[i] != b[i] {
            return false;
        }
        i += 1;
    }
    proof {
        assert(a@ =~= b@);
    }
    true
}

} // verus!
