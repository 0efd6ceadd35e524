//! The order of keys: by their characters, the first difference deciding, a
//! proper prefix before its extensions.

use vstd::prelude::*;

verus! {

/// Whether key `a` comes strictly before key `b`.
pub open spec fn key_before(a: Seq<char>, b: Seq<char>) -> bool
    decreases a.len(),
{
    if b.len() == 0 {
        false
    } else if a.len() == 0 {
        true
    } else if a[0] != b[0] {
        a[0] < b[0]
    } else {
        key_before(a.drop_first(), b.drop_first())
    }
}

/// No key comes before itself, and no two keys come before each other.
pub proof fn lemma_key_order_asymmetric(a: Seq<char>, b: Seq<char>)
    ensures
        !(key_before(a, b) && key_before(b, a)),
    decreases a.len(),
{
    if a.len() > 0 && b.len() > 0 && a[0] == b[0] {
        lemma_key_order_asymmetric(a.drop_first(), b.drop_first());
    }
}

/// Of two different keys one comes before the other.
pub proof fn lemma_key_order_total(a: Seq<char>, b: Seq<char>)
    ensures
        a == b || key_before(a, b) || key_before(b, a),
    decreases a.len(),
{
    if a.len() > 0 && b.len() > 0 && a[0] == b[0] {
        lemma_key_order_total(a.drop_first(), b.drop_first());
        if a.drop_first() == b.drop_first() {
            assert(a =~= seq![a[0]] + a.drop_first());
            assert(b =~= seq![b[0]] + b.drop_first());
        }
    }
}

/// The order of keys is transitive.
pub proof fn lemma_key_order_transitive(a: Seq<char>, b: Seq<char>, c: Seq<char>)
    requires
        key_before(a, b),
        key_before(b, c),
    ensures
        key_before(a, c),
    decreases a.len(),
{
    if a.len() > 0 && a[0] == b[0] && b[0] == c[0] {
        lemma_key_order_transitive(a.drop_first(), b.drop_first(), c.drop_first());
    }
}

/// Whether the key with the characters `a` comes strictly before the key
/// with the characters `b`.
pub fn key_precedes(a: &[char], b: &[char]) -> (before: bool)
    ensures
        before == key_before(a@, b@),
{
    let mut i: usize = 0;
    assert(a@.skip(0) == a@ && b@.skip(0) == b@);
    while i < a.len() && i < b.len()
        invariant
            i <= a.len(),
            i <= b.len(),
            key_before(a@, b@) == key_before(a@.skip(i as int), b@.skip(i as int)),
        decreases a.len() - i,
    {
        assert(a@.skip(i as int).drop_first() == a@.skip(i + 1));
        assert(b@.skip(i as int).drop_first() == b@.skip(i + 1));
        if a[i] != b[i] {
            return a[i] < b[i];
        }
        i += 1;
    }
    i < b.len()
}

} // verus!
