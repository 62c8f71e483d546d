//! Identifier manipulation: contributor prefixing and canonicalization of
//! identifiers for target schemas whose grammar refuses `:`.

use vstd::prelude::*;
use vstd::string::StringExecFns;

verus! {

/// `s` with every `:` replaced by `_`.
pub open spec fn colons_replaced(s: Seq<char>) -> Seq<char> {
    s.map_values(|c: char| if c == ':' { '_' } else { c })
}

/// Relies on `str::replace`, which replaces every match of a pattern:
/// with a one-character pattern and a one-character replacement, each `:`
/// becomes `_` and every other character stays in place.
#[verifier::external_body]
fn replace_colons(s: &str) -> (r: String)
    ensures
        r@ == colons_replaced(s@),
{
    s.replace(':', "_")
}

/// Replaces each `:`, which the target grammar refuses, with `_`.
pub fn canonical_id(s: &str) -> (r: String)
    ensures
        r@ == colons_replaced(s@),
        forall|i: int| 0 <= i < r@.len() ==> r@[i] != ':',
{
    replace_colons(s)
}

/// The identifier `id` in the namespace of `contributor`.
pub open spec fn prefixed(contributor: Seq<char>, id: Seq<char>) -> Seq<char> {
    contributor + seq![':'] + id
}

/// Puts `id` into the namespace of `contributor`: `"{contributor}:{id}"`.
pub fn prefix_id(contributor: &str, id: &str) -> (r: String)
    ensures
        r@ == prefixed(contributor@, id@),
{
    let mut r = String::from_str(contributor);
    r.append(":");
    r.append(id);
    proof {
        reveal_strlit(":");
    }
    r
}

/// `s` holds no `:`, so that it can serve as a namespace.
pub open spec fn is_namespace(s: Seq<char>) -> bool {
    forall|i: int| 0 <= i < s.len() ==> s[i] != ':'
}

/// Two sources read under distinct contributor namespaces never produce the
/// same identifier, whatever natural identifiers they share; within one
/// namespace, distinct natural identifiers stay distinct.
pub proof fn lemma_prefixing_unique(c1: Seq<char>, id1: Seq<char>, c2: Seq<char>, id2: Seq<char>)
    requires
        is_namespace(c1),
        is_namespace(c2),
        c1 != c2 || id1 != id2,
    ensures
        prefixed(c1, id1) != prefixed(c2, id2),
{
    let p1 = prefixed(c1, id1);
    let p2 = prefixed(c2, id2);
    if c1 == c2 {
        if p1 == p2 {
            assert(id1 =~= p1.subrange(c1.len() + 1int, p1.len() as int));
            assert(id2 =~= p2.subrange(c2.len() + 1int, p2.len() as int));
        }
    } else if c1.len() == c2.len() {
        assert(!(c1 =~= c2));
        let i = choose|i: int| 0 <= i < c1.len() && c1[i] != c2[i];
        assert(p1[i] == c1[i]);
        assert(p2[i] == c2[i]);
    } else if c1.len() < c2.len() {
        assert(p1[c1.len() as int] == ':');
        assert(p2[c1.len() as int] == c2[c1.len() as int]);
    } else {
        assert(p2[c2.len() as int] == ':');
        assert(p1[c2.len() as int] == c1[c2.len() as int]);
    }
}

} // verus!
