//! Crate-name normalization: `-` and `_` are interchangeable in dependency
//! names, so all name comparisons go through a normal form in which every
//! `-` is spelled `_`.

use vstd::prelude::*;

verus! {

/// The normal form of a crate name: every `-` replaced by `_`.
pub open spec fn normalize(s: Seq<char>) -> Seq<char> {
    s.map_values(|c: char| if c == '-' { '_' } else { c })
}

/// Normalization is idempotent.
pub proof fn lemma_normalize_idempotent(s: Seq<char>)
    ensures
        normalize(normalize(s)) == normalize(s),
{
    assert(normalize(normalize(s)) =~= normalize(s));
}

/// Normalization treats `-` and `_` as equivalent: two names that agree
/// everywhere except that one spells `-` where the other spells `_`
/// normalize to the same normal form.
pub proof fn lemma_normalize_equivalent(a: Seq<char>, b: Seq<char>)
    requires
        a.len() == b.len(),
        forall|i: int|
            0 <= i < a.len() ==> a[i] == b[i] || ((a[i] == '-' || a[i] == '_') && (b[i] == '-'
                || b[i] == '_')),
    ensures
        normalize(a) == normalize(b),
{
    assert(normalize(a) =~= normalize(b));
}

/// Normalize a crate name, as the host build tool does: replace `-` by `_`.
pub fn normalize_package_name(name: &str) -> (r: String)
    ensures
        r@ == normalize(name@),
{
    let n = name.unicode_len();
    let mut r = String::new();
    let mut i: usize = 0;
    while i < n
        invariant
            n == name@.len(),
            i <= n,
            r@ == normalize(name@.subrange(0, i as int)),
        decreases n - i,
    {
        let c = name.get_char(i);
        if c == '-' {
            r.append("_");
            proof {
                reveal_strlit("_");
            }
        } else {
            let piece = name.substring_char(i, i + 1);
            r.append(piece);
        }
        proof {
            assert(r@ =~= normalize(name@.subrange(0, i + 1 as int)));
        }
        i = i + 1;
    }
    proof {
        assert(name@.subrange(0, n as int) == name@);
    }
    r
}

/// Whether two crate names denote the same dependency, i.e. are equal after
/// normalization.
pub fn names_match(a: &String, b: &String) -> (r: bool)
    ensures
        r == (normalize(a@) == normalize(b@)),
{
    let na = normalize_package_name(a.as_str());
    let nb = normalize_package_name(b.as_str());
    na == nb
}

} // verus!
