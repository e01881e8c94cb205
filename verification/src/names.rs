//! Names as bytes: equality, the order in which stacks are processed, and the short form of
//! a full reference name.
//!
//! Stack and head names are text; reference names are bytes. Where the two meet, text is
//! taken by its UTF-8 encoding.

use vstd::prelude::*;
use vstd::string::*;
use vstd::utf8::encode_utf8;

verus! {

/// The bytes of a textual name.
pub open spec fn name_bytes(name: Seq<char>) -> Seq<u8> {
    encode_utf8(name)
}

/// `a` and `b` hold the same bytes at every position below `k`.
pub open spec fn agree_below(a: Seq<u8>, b: Seq<u8>, k: int) -> bool {
    forall|j: int| 0 <= j < k ==> a[j] == b[j]
}

/// `a` comes no later than `b` in lexicographic byte order: either `a` is a prefix of `b`, or
/// at the first position where they differ `a` holds the smaller byte.
pub open spec fn lex_le(a: Seq<u8>, b: Seq<u8>) -> bool {
    exists|k: int|
        0 <= k <= a.len() && k <= b.len() && #[trigger] agree_below(a, b, k) && (k == a.len() || (k
            < b.len() && a[k] < b[k]))
}

/// Whether two byte strings are equal.
pub fn bytes_equal(a: &[u8], b: &[u8]) -> (r: bool)
    ensures
        r == (a@ == b@),
{
    if a.len() != b.len() {
        return false;
    }
    let mut i: usize = 0;
    while i < a.len()
        invariant
            i <= a.len(),
            a.len() == b.len(),
            forall|j: int| 0 <= j < i ==> a@[j] == b@[j],
        decreases a.len() - i,
    {
        if a[i] != b[i] {
            return false;
        }
        i += 1;
    }
    assert(a@ =~= b@);
    true
}

/// Whether `a` comes no later than `b` in lexicographic byte order.
pub fn bytes_le(a: &[u8], b: &[u8]) -> (r: bool)
    ensures
        r == lex_le(a@, b@),
{
    let mut i: usize = 0;
    while i < a.len() && i < b.len()
        invariant
            i <= a.len(),
            i <= b.len(),
            agree_below(a@, b@, i as int),
        decreases a.len() - i,
    {
        if a[i] != b[i] {
            return a[i] < b[i];
        }
        i += 1;
    }
    i == a.len()
}

/// Whether the text `name` has exactly the bytes `bytes`.
pub fn name_is(name: &String, bytes: &Vec<u8>) -> (r: bool)
    ensures
        r == (name_bytes(name@) == bytes@),
{
    bytes_equal(name.as_str().as_bytes(), bytes.as_slice())
}

/// Whether the text `a` sorts no later than the text `b`, compared byte by byte.
pub fn name_le(a: &String, b: &String) -> (r: bool)
    ensures
        r == lex_le(name_bytes(a@), name_bytes(b@)),
{
    bytes_le(a.as_str().as_bytes(), b.as_str().as_bytes())
}

/// Whether `gix` accepts the bytes as a full reference name.
pub uninterp spec fn full_name_accepted(name: Seq<u8>) -> bool;

/// The short form that `gix` gives for an accepted full reference name.
pub uninterp spec fn short_name(name: Seq<u8>) -> Seq<u8>;

/// The full name of the local branch with the short name `short`.
pub open spec fn local_branch(short: Seq<u8>) -> Seq<u8> {
    name_bytes("refs/heads/"@) + short
}

/// Makes a `gix::refs::FullName` of the bytes with `try_from`, which validates them, and calls
/// `shorten` on it, which strips a well-known prefix if there is one. Both depend on the
/// bytes alone. Their results are named, not spelled out: validation is
/// `full_name_accepted`, the short form is `short_name`. One case is spelled out, the one
/// that `shorten` tries first after tags: from a name that starts with `refs/heads/` it
/// strips just that.
#[verifier::external_body]
fn gix_shorten(full: &Vec<u8>) -> (r: Option<Vec<u8>>)
    ensures
        r.is_some() == full_name_accepted(full@),
        r matches Some(short) ==> short@ == short_name(full@),
        r matches Some(short) ==> forall|rest: Seq<u8>|
            full@ == #[trigger] local_branch(rest) ==> short@ == rest,
{
    match gix::refs::FullName::try_from(bstr::BString::from(full.clone())) {
        Ok(name) => Some(name.shorten().to_vec()),
        Err(_) => None,
    }
}

/// The short form of a full reference name, or `None` if the bytes are no valid full name.
pub fn shorten(full: &Vec<u8>) -> (r: Option<Vec<u8>>)
    ensures
        r.is_some() == full_name_accepted(full@),
        r matches Some(short) ==> short@ == short_name(full@),
        r matches Some(short) ==> forall|rest: Seq<u8>|
            full@ == #[trigger] local_branch(rest) ==> short@ == rest,
{
    gix_shorten(full)
}

} // verus!
