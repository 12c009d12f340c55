//! The order of keys: byte strings compared lexicographically, a proper
//! prefix before its extensions.

use vstd::prelude::*;

verus! {

/// Whether `a` stands before `b` in lexicographic order.
pub open spec fn key_lt(a: Seq<u8>, b: Seq<u8>) -> bool
    decreases a.len(),
{
    if b.len() == 0 {
        false
    } else if a.len() == 0 {
        true
    } else if a[0] != b[0] {
        a[0] < b[0]
    } else {
        key_lt(a.drop_first(), b.drop_first())
    }
}

/// Whether `a` stands before `b` or is `b`.
pub open spec fn key_le(a: Seq<u8>, b: Seq<u8>) -> bool {
    a == b || key_lt(a, b)
}

/// The least key after `k`: `k` with a zero byte behind it.
pub open spec fn key_after(k: Seq<u8>) -> Seq<u8> {
    k.push(0u8)
}

pub proof fn lemma_key_lt_irreflexive(a: Seq<u8>)
    ensures
        !key_lt(a, a),
    decreases a.len(),
{
    if a.len() > 0 {
        lemma_key_lt_irreflexive(a.drop_first());
    }
}

pub proof fn lemma_key_lt_transitive(a: Seq<u8>, b: Seq<u8>, c: Seq<u8>)
    requires
        key_lt(a, b),
        key_lt(b, c),
    ensures
        key_lt(a, c),
    decreases a.len(),
{
    if a.len() > 0 && b.len() > 0 && c.len() > 0 && a[0] == b[0] && b[0] == c[0] {
        lemma_key_lt_transitive(a.drop_first(), b.drop_first(), c.drop_first());
    }
}

/// Of two keys one stands before the other, or they are the same key.
pub proof fn lemma_key_lt_total(a: Seq<u8>, b: Seq<u8>)
    ensures
        key_lt(a, b) || key_lt(b, a) || a == b,
    decreases a.len(),
{
    if a.len() > 0 && b.len() > 0 && a[0] == b[0] {
        lemma_key_lt_total(a.drop_first(), b.drop_first());
        if a.drop_first() == b.drop_first() {
            assert(a =~= seq![a[0]] + a.drop_first());
            assert(b =~= seq![b[0]] + b.drop_first());
        }
    } else if a.len() == 0 && b.len() == 0 {
        assert(a =~= b);
    }
}

pub proof fn lemma_key_lt_asymmetric(a: Seq<u8>, b: Seq<u8>)
    requires
        key_lt(a, b),
    ensures
        !key_lt(b, a),
{
    if key_lt(b, a) {
        lemma_key_lt_transitive(a, b, a);
        lemma_key_lt_irreflexive(a);
    }
}

/// Nothing stands between a key and the key after it.
pub proof fn lemma_key_after(x: Seq<u8>, k: Seq<u8>)
    ensures
        key_lt(x, key_after(k)) <==> key_le(x, k),
    decreases x.len(),
{
    let s = key_after(k);
    assert(s.len() == k.len() + 1);
    if x.len() == 0 {
        if k.len() == 0 {
            assert(x =~= k);
        } else {
            assert(key_lt(x, k));
        }
        assert(key_lt(x, s));
    } else if k.len() == 0 {
        assert(s.drop_first() =~= Seq::<u8>::empty());
        assert(!key_lt(x.drop_first(), s.drop_first()));
        assert(s[0] == 0u8);
        assert(!key_lt(x, s));
        assert(x != k);
        assert(!key_lt(x, k));
    } else {
        assert(s.drop_first() =~= key_after(k.drop_first()));
        assert(s[0] == k[0]);
        if x[0] == k[0] {
            lemma_key_after(x.drop_first(), k.drop_first());
            assert(key_lt(x, s) == key_lt(x.drop_first(), s.drop_first()));
            assert(key_lt(x, k) == key_lt(x.drop_first(), k.drop_first()));
            if x.drop_first() == k.drop_first() {
                assert(x =~= seq![x[0]] + x.drop_first());
                assert(k =~= seq![k[0]] + k.drop_first());
            }
        } else {
            assert(x != k);
            assert(key_lt(x, s) == (x[0] < k[0]));
            assert(key_lt(x, k) == (x[0] < k[0]));
        }
    }
}

/// Comparing from the `i`-th byte on: the bytes there decide, or are the
/// same and the bytes behind them decide.
pub proof fn lemma_key_lt_at(x: Seq<u8>, y: Seq<u8>, i: int)
    requires
        0 <= i < x.len(),
        i < y.len(),
    ensures
        key_lt(x.skip(i), y.skip(i)) == (x[i] < y[i] || (x[i] == y[i] && key_lt(
            x.skip(i + 1),
            y.skip(i + 1),
        ))),
{
    assert(x.skip(i).drop_first() =~= x.skip(i + 1));
    assert(y.skip(i).drop_first() =~= y.skip(i + 1));
    assert(x.skip(i)[0] == x[i] && y.skip(i)[0] == y[i]);
}

/// Whether the bytes of `a` stand before those of `b`.
pub fn key_less(a: &Vec<u8>, b: &Vec<u8>) -> (r: bool)
    ensures
        r == key_lt(a@, b@),
{
    let mut i: usize = 0;
    assert(a@.skip(0) =~= a@ && b@.skip(0) =~= b@);
    while i < a.len() && i < b.len()
        invariant
            i <= a.len(),
            i <= b.len(),
            key_lt(a@, b@) == key_lt(a@.skip(i as int), b@.skip(i as int)),
        decreases a.len() - i,
    {
        let ghost x = a@.skip(i as int);
        let ghost y = b@.skip(i as int);
        assert(x[0] == a@[i as int] && y[0] == b@[i as int]);
        if a[i] != b[i] {
            return a[i] < b[i];
        }
        assert(x.drop_first() =~= a@.skip(i + 1));
        assert(y.drop_first() =~= b@.skip(i + 1));
        i += 1;
    }
    i < b.len()
}

} // verus!
