//! An ordered key-value store held in memory: entries sorted by key, no key
//! twice. It offers what the height-keyed stores need of a storage engine:
//! point reads, writes batched into transactions, and paged range scans in
//! either direction.

use crate::storage::keys::{
    key_after, key_less, key_lt, lemma_key_after, lemma_key_lt_asymmetric,
    lemma_key_lt_irreflexive, lemma_key_lt_total, lemma_key_lt_transitive,
};
use crate::wire::{copy_bytes, opt_bytes_view};
use vstd::prelude::*;

verus! {

/// Entries a page holds where the caller names no size.
pub const PAGE_SIZE_MAX: usize = 10000;

/// A key with its value.
#[derive(Debug, PartialEq, Eq)]
pub struct Entry {
    pub key: Vec<u8>,
    pub value: Vec<u8>,
}

impl View for Entry {
    type V = (Seq<u8>, Seq<u8>);

    open spec fn view(&self) -> (Seq<u8>, Seq<u8>) {
        (self.key@, self.value@)
    }
}

impl DeepView for Entry {
    type V = (Seq<u8>, Seq<u8>);

    open spec fn deep_view(&self) -> (Seq<u8>, Seq<u8>) {
        self@
    }
}

impl Clone for Entry {
    fn clone(&self) -> (r: Self)
        ensures
            r@ == self@,
    {
        Entry { key: copy_bytes(&self.key), value: copy_bytes(&self.value) }
    }
}

/// The entries as pairs of byte sequences.
pub open spec fn entry_views(s: Seq<Entry>) -> Seq<(Seq<u8>, Seq<u8>)> {
    Seq::new(s.len(), |i: int| s[i]@)
}

/// Whether the keys rise strictly along `s`.
pub open spec fn sorted(s: Seq<(Seq<u8>, Seq<u8>)>) -> bool {
    forall|i: int, j: int| 0 <= i < j < s.len() ==> key_lt((#[trigger] s[i]).0, (#[trigger] s[j]).0)
}

/// How many entries of `s` have a key before `k`. In a sorted sequence this
/// is the index of the first entry whose key is `k` or after it.
pub open spec fn rank(s: Seq<(Seq<u8>, Seq<u8>)>, k: Seq<u8>) -> nat
    decreases s.len(),
{
    if s.len() == 0 {
        0
    } else {
        rank(s.drop_last(), k) + if key_lt(s.last().0, k) {
            1nat
        } else {
            0nat
        }
    }
}

/// The value stored under `k`.
pub open spec fn get_spec(s: Seq<(Seq<u8>, Seq<u8>)>, k: Seq<u8>) -> Option<Seq<u8>> {
    let i = rank(s, k) as int;
    if i < s.len() && s[i].0 == k {
        Some(s[i].1)
    } else {
        None
    }
}

/// The store after `v` is written under `k`: the entry of `k` replaced, or a
/// new entry put in its place in the order.
pub open spec fn put_spec(s: Seq<(Seq<u8>, Seq<u8>)>, k: Seq<u8>, v: Seq<u8>) -> Seq<
    (Seq<u8>, Seq<u8>),
> {
    let i = rank(s, k) as int;
    if i < s.len() && s[i].0 == k {
        s.update(i, (k, v))
    } else {
        s.insert(i, (k, v))
    }
}

/// The store after the writes of a transaction, applied in the order made.
pub open spec fn apply_puts(s: Seq<(Seq<u8>, Seq<u8>)>, puts: Seq<(Seq<u8>, Seq<u8>)>) -> Seq<
    (Seq<u8>, Seq<u8>),
>
    decreases puts.len(),
{
    if puts.len() == 0 {
        s
    } else {
        apply_puts(put_spec(s, puts[0].0, puts[0].1), puts.drop_first())
    }
}

pub open spec fn min_int(a: int, b: int) -> int {
    if a <= b {
        a
    } else {
        b
    }
}

pub open spec fn max_int(a: int, b: int) -> int {
    if a >= b {
        a
    } else {
        b
    }
}

/// The bounds, as indices into `s`, of the entries a scan may still return:
/// those with a key from `lo` on and before `hi`, and where the scan resumes
/// behind a token, only those the scan had not reached when it gave the token.
pub open spec fn window(
    s: Seq<(Seq<u8>, Seq<u8>)>,
    lo: Seq<u8>,
    hi: Option<Seq<u8>>,
    token: Option<Seq<u8>>,
    reverse: bool,
) -> (int, int) {
    let a = rank(s, lo) as int;
    let b = match hi {
        Some(h) => rank(s, h) as int,
        None => s.len() as int,
    };
    match token {
        None => (a, b),
        Some(t) => if reverse {
            (a, min_int(b, rank(s, t) as int))
        } else {
            (max_int(a, rank(s, key_after(t)) as int), b)
        },
    }
}

/// The entries a scan returns if no page size cuts it short, in the order in
/// which it returns them.
pub open spec fn scan(
    s: Seq<(Seq<u8>, Seq<u8>)>,
    lo: Seq<u8>,
    hi: Option<Seq<u8>>,
    token: Option<Seq<u8>>,
    reverse: bool,
) -> Seq<(Seq<u8>, Seq<u8>)> {
    let (a, b) = window(s, lo, hi, token, reverse);
    if a >= b {
        Seq::empty()
    } else if reverse {
        Seq::new((b - a) as nat, |i: int| s[b - 1 - i])
    } else {
        s.subrange(a, b)
    }
}

/// The first `limit` entries of a scan.
pub open spec fn page_of(all: Seq<(Seq<u8>, Seq<u8>)>, limit: nat) -> Seq<(Seq<u8>, Seq<u8>)> {
    if all.len() <= limit {
        all
    } else {
        all.take(limit as int)
    }
}

/// The token a page carries: the last key on it, where the scan has more to
/// return behind the page.
pub open spec fn token_of(all: Seq<(Seq<u8>, Seq<u8>)>, limit: nat) -> Option<Seq<u8>> {
    if 0 < limit < all.len() {
        Some(all[limit - 1].0)
    } else {
        None
    }
}

pub proof fn lemma_rank_bound(s: Seq<(Seq<u8>, Seq<u8>)>, k: Seq<u8>)
    ensures
        rank(s, k) <= s.len(),
    decreases s.len(),
{
    if s.len() > 0 {
        lemma_rank_bound(s.drop_last(), k);
    }
}

/// Where exactly the first `i` keys stand before `k`, the rank of `k` is `i`.
pub proof fn lemma_rank_is(s: Seq<(Seq<u8>, Seq<u8>)>, k: Seq<u8>, i: int)
    requires
        0 <= i <= s.len(),
        forall|j: int| 0 <= j < i ==> key_lt((#[trigger] s[j]).0, k),
        forall|j: int| i <= j < s.len() ==> !key_lt((#[trigger] s[j]).0, k),
    ensures
        rank(s, k) == i,
    decreases s.len(),
{
    if s.len() > 0 {
        let t = s.drop_last();
        if i == s.len() {
            assert(key_lt(s[s.len() - 1].0, k));
            assert forall|j: int| 0 <= j < i - 1 implies key_lt((#[trigger] t[j]).0, k) by {
                assert(t[j] == s[j]);
            }
            lemma_rank_is(t, k, i - 1);
        } else {
            assert(!key_lt(s[s.len() - 1].0, k));
            assert forall|j: int| 0 <= j < i implies key_lt((#[trigger] t[j]).0, k) by {
                assert(t[j] == s[j]);
            }
            assert forall|j: int| i <= j < t.len() implies !key_lt((#[trigger] t[j]).0, k) by {
                assert(t[j] == s[j]);
            }
            lemma_rank_is(t, k, i);
        }
    }
}

/// In a sorted sequence the keys before `k` are exactly those in front of
/// the rank of `k`.
pub proof fn lemma_rank_splits(s: Seq<(Seq<u8>, Seq<u8>)>, k: Seq<u8>)
    requires
        sorted(s),
    ensures
        rank(s, k) <= s.len(),
        forall|j: int| 0 <= j < rank(s, k) ==> key_lt((#[trigger] s[j]).0, k),
        forall|j: int| rank(s, k) <= j < s.len() ==> !key_lt((#[trigger] s[j]).0, k),
    decreases s.len(),
{
    if s.len() > 0 {
        let t = s.drop_last();
        let n = s.len() - 1;
        assert forall|i: int, j: int| 0 <= i < j < t.len() implies key_lt(
            (#[trigger] t[i]).0,
            (#[trigger] t[j]).0,
        ) by {
            assert(t[i] == s[i] && t[j] == s[j]);
        }
        lemma_rank_splits(t, k);
        lemma_rank_bound(t, k);
        if key_lt(s[n].0, k) {
            assert forall|j: int| 0 <= j < n implies key_lt((#[trigger] s[j]).0, k) by {
                lemma_key_lt_transitive(s[j].0, s[n].0, k);
            }
            if rank(t, k) < n {
                let j = rank(t, k) as int;
                assert(t[j] == s[j]);
                assert(!key_lt(t[j].0, k));
            }
            assert(rank(t, k) == n);
        } else {
            assert forall|j: int| 0 <= j < rank(s, k) implies key_lt((#[trigger] s[j]).0, k) by {
                assert(t[j] == s[j]);
            }
            assert forall|j: int| rank(s, k) <= j < s.len() implies !key_lt(
                (#[trigger] s[j]).0,
                k,
            ) by {
                if j < n {
                    assert(t[j] == s[j]);
                }
            }
        }
    }
}

/// The rank does not fall as the key rises.
pub proof fn lemma_rank_monotone(s: Seq<(Seq<u8>, Seq<u8>)>, a: Seq<u8>, b: Seq<u8>)
    requires
        sorted(s),
        key_lt(a, b) || a == b,
    ensures
        rank(s, a) <= rank(s, b),
{
    lemma_rank_splits(s, a);
    lemma_rank_splits(s, b);
    if rank(s, b) < rank(s, a) {
        let j = rank(s, b) as int;
        assert(key_lt(s[j].0, a));
        assert(!key_lt(s[j].0, b));
        if a != b {
            lemma_key_lt_transitive(s[j].0, a, b);
        }
    }
}

/// Writing keeps the order, and the written key then holds the value.
pub proof fn lemma_put_sorted(s: Seq<(Seq<u8>, Seq<u8>)>, k: Seq<u8>, v: Seq<u8>)
    requires
        sorted(s),
    ensures
        sorted(put_spec(s, k, v)),
        get_spec(put_spec(s, k, v), k) == Some(v),
{
    lemma_rank_splits(s, k);
    let i = rank(s, k) as int;
    let p = put_spec(s, k, v);
    lemma_key_lt_irreflexive(k);
    if i < s.len() && s[i].0 == k {
        assert forall|a: int, b: int| 0 <= a < b < p.len() implies key_lt(
            (#[trigger] p[a]).0,
            (#[trigger] p[b]).0,
        ) by {
            assert(p[a].0 == s[a].0 && p[b].0 == s[b].0);
        }
        assert forall|j: int| 0 <= j < i implies key_lt((#[trigger] p[j]).0, k) by {
            assert(p[j] == s[j]);
        }
        assert forall|j: int| i <= j < p.len() implies !key_lt((#[trigger] p[j]).0, k) by {
            assert(p[j].0 == s[j].0);
        }
    } else {
        assert forall|j: int| i <= j < s.len() implies key_lt(k, (#[trigger] s[j]).0) by {
            lemma_key_lt_total(k, s[j].0);
            if j > i {
                assert(key_lt(s[i].0, s[j].0));
                if s[j].0 == k {
                    assert(!key_lt(s[i].0, k));
                }
            }
        }
        assert forall|a: int, b: int| 0 <= a < b < p.len() implies key_lt(
            (#[trigger] p[a]).0,
            (#[trigger] p[b]).0,
        ) by {
            if b < i {
                assert(p[a] == s[a] && p[b] == s[b]);
            } else if b == i {
                assert(p[a] == s[a]);
            } else if a < i {
                assert(p[a] == s[a] && p[b] == s[b - 1]);
            } else if a == i {
                assert(p[b] == s[b - 1]);
            } else {
                assert(p[a] == s[a - 1] && p[b] == s[b - 1]);
            }
        }
        assert forall|j: int| 0 <= j < i implies key_lt((#[trigger] p[j]).0, k) by {
            assert(p[j] == s[j]);
        }
        assert forall|j: int| i <= j < p.len() implies !key_lt((#[trigger] p[j]).0, k) by {
            if j > i {
                assert(p[j] == s[j - 1]);
                lemma_key_lt_asymmetric(k, s[j - 1].0);
            }
        }
    }
    lemma_rank_is(p, k, i);
}

/// In a sorted store a key has the value that stands beside it.
pub proof fn lemma_get_is_member(s: Seq<(Seq<u8>, Seq<u8>)>, k: Seq<u8>, v: Seq<u8>)
    requires
        sorted(s),
    ensures
        get_spec(s, k) == Some(v) <==> s.contains((k, v)),
{
    lemma_rank_splits(s, k);
    let i = rank(s, k) as int;
    if get_spec(s, k) == Some(v) {
        assert(s[i] == (k, v));
    }
    if s.contains((k, v)) {
        let j = s.index_of((k, v));
        lemma_key_lt_irreflexive(k);
        assert(!key_lt(s[j].0, k));
        if i < j {
            assert(key_lt(s[i].0, s[j].0));
            assert(!key_lt(s[i].0, k));
        }
    }
}

/// A scan from the first key up returns the entries with a key from `lo`
/// on and before `hi`, and no others.
pub proof fn lemma_scan_members(
    s: Seq<(Seq<u8>, Seq<u8>)>,
    lo: Seq<u8>,
    hi: Option<Seq<u8>>,
    e: (Seq<u8>, Seq<u8>),
)
    requires
        sorted(s),
    ensures
        scan(s, lo, hi, None, false).contains(e) <==> (s.contains(e) && !key_lt(e.0, lo) && (
        hi matches Some(h) ==> key_lt(e.0, h))),
        sorted(scan(s, lo, hi, None, false)),
{
    let all = scan(s, lo, hi, None, false);
    let (a, b) = window(s, lo, hi, None, false);
    lemma_rank_splits(s, lo);
    if let Some(h) = hi {
        lemma_rank_splits(s, h);
    }
    if all.contains(e) {
        let j = all.index_of(e);
        assert(s[a + j] == e);
    }
    if s.contains(e) && !key_lt(e.0, lo) && (hi matches Some(h) ==> key_lt(e.0, h)) {
        let j = s.index_of(e);
        assert(a <= j < b);
        assert(all[j - a] == e);
    }
    assert forall|i: int, j: int| 0 <= i < j < all.len() implies key_lt(
        (#[trigger] all[i]).0,
        (#[trigger] all[j]).0,
    ) by {
        assert(all[i] == s[a + i] && all[j] == s[a + j]);
    }
}

/// The rank depends on the keys alone.
pub proof fn lemma_rank_keys(s: Seq<(Seq<u8>, Seq<u8>)>, t: Seq<(Seq<u8>, Seq<u8>)>, k: Seq<u8>)
    requires
        s.len() == t.len(),
        forall|i: int| 0 <= i < s.len() ==> (#[trigger] s[i]).0 == t[i].0,
    ensures
        rank(s, k) == rank(t, k),
    decreases s.len(),
{
    if s.len() > 0 {
        assert(s.last().0 == t.last().0);
        assert forall|i: int| 0 <= i < s.drop_last().len() implies (#[trigger] s.drop_last()[i]).0
            == t.drop_last()[i].0 by {
            assert(s.drop_last()[i] == s[i]);
        }
        lemma_rank_keys(s.drop_last(), t.drop_last(), k);
    }
}

/// A new entry raises by one the rank of the keys behind its own, and of
/// no others.
pub proof fn lemma_rank_insert(s: Seq<(Seq<u8>, Seq<u8>)>, k: Seq<u8>, v: Seq<u8>, x: Seq<u8>)
    requires
        sorted(s),
    ensures
        rank(s.insert(rank(s, k) as int, (k, v)), x) == rank(s, x) + if key_lt(k, x) {
            1nat
        } else {
            0nat
        },
{
    let i = rank(s, k) as int;
    let t = s.insert(i, (k, v));
    lemma_rank_splits(s, k);
    lemma_rank_splits(s, x);
    let r = rank(s, x) as int;
    if key_lt(k, x) {
        if r < i {
            assert(key_lt(s[r].0, k));
            lemma_key_lt_transitive(s[r].0, k, x);
        }
        assert forall|j: int| 0 <= j < r + 1 implies key_lt((#[trigger] t[j]).0, x) by {
            if j < i {
                assert(t[j] == s[j]);
            } else if j > i {
                assert(t[j] == s[j - 1]);
            }
        }
        assert forall|j: int| r + 1 <= j < t.len() implies !key_lt((#[trigger] t[j]).0, x) by {
            assert(t[j] == s[j - 1]);
        }
        lemma_rank_is(t, x, r + 1);
    } else {
        if i < r {
            assert(key_lt(s[i].0, x));
            assert(!key_lt(s[i].0, k));
            lemma_key_lt_total(s[i].0, k);
            if s[i].0 != k {
                lemma_key_lt_transitive(k, s[i].0, x);
            }
        }
        assert forall|j: int| 0 <= j < r implies key_lt((#[trigger] t[j]).0, x) by {
            assert(t[j] == s[j]);
        }
        assert forall|j: int| r <= j < t.len() implies !key_lt((#[trigger] t[j]).0, x) by {
            if j < i {
                assert(t[j] == s[j]);
            } else if j > i {
                assert(t[j] == s[j - 1]);
            }
        }
        lemma_rank_is(t, x, r);
    }
}

/// Writing under one key leaves what is stored under every other.
pub proof fn lemma_get_put_other(s: Seq<(Seq<u8>, Seq<u8>)>, k: Seq<u8>, v: Seq<u8>, x: Seq<u8>)
    requires
        sorted(s),
        x != k,
    ensures
        get_spec(put_spec(s, k, v), x) == get_spec(s, x),
{
    let i = rank(s, k) as int;
    let t = put_spec(s, k, v);
    lemma_rank_splits(s, k);
    lemma_rank_splits(s, x);
    let r = rank(s, x) as int;
    if i < s.len() && s[i].0 == k {
        assert forall|j: int| 0 <= j < s.len() implies (#[trigger] s[j]).0 == t[j].0 by {}
        lemma_rank_keys(s, t, x);
        if r < s.len() && s[r].0 == x {
            assert(r != i);
        }
    } else {
        lemma_rank_insert(s, k, v, x);
        if key_lt(k, x) {
            if r < i {
                assert(key_lt(s[r].0, k));
                lemma_key_lt_transitive(s[r].0, k, x);
            }
            if r < s.len() {
                assert(t[r + 1] == s[r]);
            }
        } else {
            if i < r {
                assert(key_lt(s[i].0, x));
                lemma_key_lt_total(s[i].0, k);
                if s[i].0 != k {
                    lemma_key_lt_transitive(k, s[i].0, x);
                }
            }
            if r < i {
                assert(t[r] == s[r]);
            } else {
                assert(t[r] == (k, v));
                if r < s.len() && s[r].0 == x {
                    lemma_key_lt_total(k, x);
                    assert(key_lt(x, k));
                    assert(!key_lt(s[r].0, k));
                }
            }
        }
    }
}

/// A scan from the last key down returns what the scan from the first key
/// up returns, in the opposite order.
pub proof fn lemma_scan_reverse(s: Seq<(Seq<u8>, Seq<u8>)>, lo: Seq<u8>, hi: Option<Seq<u8>>)
    ensures
        scan(s, lo, hi, None, true).len() == scan(s, lo, hi, None, false).len(),
        forall|i: int|
            0 <= i < scan(s, lo, hi, None, true).len() ==> #[trigger] scan(s, lo, hi, None, true)[i]
                == scan(s, lo, hi, None, false)[scan(s, lo, hi, None, false).len() - 1 - i],
{
    lemma_rank_bound(s, lo);
    if let Some(h) = hi {
        lemma_rank_bound(s, h);
    }
}

/// A scan that resumes behind the key of its `k`-th entry returns what the
/// uncut scan returns from the `k`-th entry on.
pub proof fn lemma_scan_resume(
    s: Seq<(Seq<u8>, Seq<u8>)>,
    lo: Seq<u8>,
    hi: Option<Seq<u8>>,
    reverse: bool,
    k: int,
)
    requires
        sorted(s),
        0 < k <= scan(s, lo, hi, None, reverse).len(),
    ensures
        scan(s, lo, hi, Some(scan(s, lo, hi, None, reverse)[k - 1].0), reverse) == scan(
            s,
            lo,
            hi,
            None,
            reverse,
        ).skip(k),
{
    let all = scan(s, lo, hi, None, reverse);
    let (a, b) = window(s, lo, hi, None, reverse);
    lemma_rank_bound(s, lo);
    if let Some(h) = hi {
        lemma_rank_bound(s, h);
    }
    let t = all[k - 1].0;
    if reverse {
        let at = b - k;
        assert(t == s[at].0);
        assert forall|j: int| 0 <= j < at implies key_lt((#[trigger] s[j]).0, t) by {}
        assert forall|j: int| at <= j < s.len() implies !key_lt((#[trigger] s[j]).0, t) by {
            if j == at {
                lemma_key_lt_irreflexive(t);
            } else {
                lemma_key_lt_asymmetric(t, s[j].0);
            }
        }
        lemma_rank_is(s, t, at);
        assert(scan(s, lo, hi, Some(t), reverse) =~= all.skip(k));
    } else {
        let at = a + k;
        assert(t == s[at - 1].0);
        let u = key_after(t);
        assert forall|j: int| 0 <= j < at implies key_lt((#[trigger] s[j]).0, u) by {
            lemma_key_after(s[j].0, t);
        }
        assert forall|j: int| at <= j < s.len() implies !key_lt((#[trigger] s[j]).0, u) by {
            lemma_key_after(s[j].0, t);
            lemma_key_lt_asymmetric(t, s[j].0);
            lemma_key_lt_irreflexive(t);
        }
        lemma_rank_is(s, u, at);
        assert(scan(s, lo, hi, Some(t), reverse) =~= all.skip(k));
    }
}

/// A scan read page by page returns what it returns in one page: the first
/// page, then the scan resumed behind its token, is the uncut scan; and a
/// page without a token is the whole of it.
pub proof fn lemma_pages_compose(
    s: Seq<(Seq<u8>, Seq<u8>)>,
    lo: Seq<u8>,
    hi: Option<Seq<u8>>,
    reverse: bool,
    limit: nat,
)
    requires
        sorted(s),
        limit > 0,
    ensures
        match token_of(scan(s, lo, hi, None, reverse), limit) {
            Some(t) => page_of(scan(s, lo, hi, None, reverse), limit) + scan(
                s,
                lo,
                hi,
                Some(t),
                reverse,
            ) == scan(s, lo, hi, None, reverse),
            None => page_of(scan(s, lo, hi, None, reverse), limit) == scan(
                s,
                lo,
                hi,
                None,
                reverse,
            ),
        },
{
    let all = scan(s, lo, hi, None, reverse);
    if limit < all.len() {
        lemma_scan_resume(s, lo, hi, reverse, limit as int);
        assert(all.take(limit as int) + all.skip(limit as int) =~= all);
    }
}

/// How a range scan is cut into pages.
#[derive(Debug, PartialEq, Eq)]
pub struct PageOptions {
    /// Most entries on a page; `PAGE_SIZE_MAX` where there is none.
    pub page_size: Option<usize>,
    /// The token of the page before, to resume behind it.
    pub page_token: Option<Vec<u8>>,
    /// Whether the scan runs from the last key down.
    pub reverse: bool,
}

impl PageOptions {
    /// Most entries a page made with these options holds.
    pub open spec fn limit(&self) -> nat {
        match self.page_size {
            Some(n) => n as nat,
            None => PAGE_SIZE_MAX as nat,
        }
    }

    pub fn page_limit(&self) -> (n: usize)
        ensures
            n == self.limit(),
    {
        match self.page_size {
            Some(n) => n,
            None => PAGE_SIZE_MAX,
        }
    }
}

/// One page of a range scan.
#[derive(Debug, PartialEq, Eq)]
pub struct Page {
    pub entries: Vec<Entry>,
    /// The last key on the page, where more entries remain behind it.
    pub next_page_token: Option<Vec<u8>>,
}

/// Writes gathered to be applied together.
pub struct Txn {
    puts: Vec<Entry>,
}

impl View for Txn {
    type V = Seq<(Seq<u8>, Seq<u8>)>;

    closed spec fn view(&self) -> Seq<(Seq<u8>, Seq<u8>)> {
        entry_views(self.puts@)
    }
}

impl Txn {
    pub fn new() -> (txn: Txn)
        ensures
            txn@ == Seq::<(Seq<u8>, Seq<u8>)>::empty(),
    {
        let txn = Txn { puts: Vec::new() };
        assert(txn@ =~= Seq::<(Seq<u8>, Seq<u8>)>::empty());
        txn
    }

    /// Adds a write behind those gathered so far.
    pub fn put(&mut self, key: Vec<u8>, value: Vec<u8>)
        ensures
            final(self)@ == old(self)@.push((key@, value@)),
    {
        self.puts.push(Entry { key, value });
        assert(self@ =~= old(self)@.push((key@, value@)));
    }
}

/// The store: its entries in key order.
pub struct Db {
    entries: Vec<Entry>,
}

impl View for Db {
    type V = Seq<(Seq<u8>, Seq<u8>)>;

    closed spec fn view(&self) -> Seq<(Seq<u8>, Seq<u8>)> {
        entry_views(self.entries@)
    }
}

impl Db {
    #[verifier::type_invariant]
    spec fn ordered(&self) -> bool {
        sorted(self@)
    }

    /// An empty store.
    pub fn new() -> (db: Db)
        ensures
            db@ == Seq::<(Seq<u8>, Seq<u8>)>::empty(),
    {
        let db = Db { entries: Vec::new() };
        assert(db@ =~= Seq::<(Seq<u8>, Seq<u8>)>::empty());
        db
    }

    /// The number of entries. Every store is sorted, and says so here.
    pub fn len(&self) -> (n: usize)
        ensures
            n == self@.len(),
            sorted(self@),
    {
        proof {
            use_type_invariant(self);
        }
        self.entries.len()
    }

    /// The index of the first entry whose key is `key` or after it.
    fn lower_bound(&self, key: &Vec<u8>) -> (i: usize)
        ensures
            i == rank(self@, key@),
            i <= self@.len(),
            sorted(self@),
    {
        proof {
            use_type_invariant(self);
        }
        let mut i: usize = 0;
        while i < self.entries.len() && key_less(&self.entries[i].key, key)
            invariant
                i <= self.entries.len(),
                forall|j: int| 0 <= j < i ==> key_lt((#[trigger] self@[j]).0, key@),
            decreases self.entries.len() - i,
        {
            i += 1;
        }
        proof {
            assert forall|j: int| i <= j < self@.len() implies !key_lt(
                (#[trigger] self@[j]).0,
                key@,
            ) by {
                if j > i {
                    assert(key_lt(self@[i as int].0, self@[j].0));
                    if key_lt(self@[j].0, key@) {
                        lemma_key_lt_transitive(self@[i as int].0, self@[j].0, key@);
                    }
                }
            }
            lemma_rank_is(self@, key@, i as int);
        }
        i
    }

    /// The value stored under `key`.
    pub fn get(&self, key: &Vec<u8>) -> (r: Option<Vec<u8>>)
        ensures
            opt_bytes_view(r) == get_spec(self@, key@),
    {
        let i = self.lower_bound(key);
        if i < self.entries.len() && !key_less(key, &self.entries[i].key) {
            proof {
                lemma_rank_splits(self@, key@);
                lemma_key_lt_total(key@, self@[i as int].0);
            }
            Some(copy_bytes(&self.entries[i].value))
        } else {
            proof {
                if i < self@.len() {
                    lemma_key_lt_irreflexive(key@);
                }
            }
            None
        }
    }

    /// Writes `value` under `key`, in place of what was stored there.
    pub fn put(&mut self, key: Vec<u8>, value: Vec<u8>)
        ensures
            final(self)@ == put_spec(old(self)@, key@, value@),
            sorted(old(self)@),
            sorted(final(self)@),
    {
        let i = self.lower_bound(&key);
        proof {
            lemma_put_sorted(self@, key@, value@);
            lemma_rank_splits(self@, key@);
        }
        let ghost before = self@;
        let mut entries: Vec<Entry> = Vec::new();
        assert(sorted(entry_views(entries@)));
        core::mem::swap(&mut self.entries, &mut entries);
        assert(entry_views(entries@) == before);
        if i < entries.len() && !key_less(&key, &entries[i].key) {
            proof {
                lemma_key_lt_total(key@, before[i as int].0);
                assert(entry_views(entries@.update(i as int, Entry { key, value }))
                    =~= put_spec(before, key@, value@));
            }
            entries.set(i, Entry { key, value });
        } else {
            proof {
                if i < before.len() {
                    lemma_key_lt_irreflexive(key@);
                }
                assert(entry_views(entries@.insert(i as int, Entry { key, value }))
                    =~= put_spec(before, key@, value@));
            }
            entries.insert(i, Entry { key, value });
        }
        self.entries = entries;
    }

    /// Applies the writes of `txn`, in the order in which they were made.
    pub fn commit(&mut self, txn: Txn)
        ensures
            final(self)@ == apply_puts(old(self)@, txn@),
            sorted(old(self)@),
            sorted(final(self)@),
    {
        proof {
            use_type_invariant(&*self);
        }
        let mut puts = txn.puts;
        let ghost all = entry_views(puts@);
        let mut i: usize = 0;
        assert(all.skip(0) =~= all);
        while i < puts.len()
            invariant
                i <= puts.len(),
                all == entry_views(puts@),
                apply_puts(old(self)@, all) == apply_puts(self@, all.skip(i as int)),
                sorted(self@),
            decreases puts.len() - i,
        {
            let ghost rest = all.skip(i as int);
            assert(rest[0] == all[i as int]);
            assert(rest.drop_first() =~= all.skip(i + 1));
            let key = copy_bytes(&puts[i].key);
            let value = copy_bytes(&puts[i].value);
            self.put(key, value);
            i += 1;
        }
    }
    /// The entry with the greatest key from `start` on and before `stop`.
    pub fn last_in_range(&self, start: &Vec<u8>, stop: &Vec<u8>) -> (r: Option<Entry>)
        ensures
            r.deep_view() == ({
                let entries = scan(self@, start@, Some(stop@), None, false);
                if entries.len() == 0 {
                    None
                } else {
                    Some(entries.last())
                }
            }),
            sorted(self@),
    {
        let a = self.lower_bound(start);
        let b = self.lower_bound(stop);
        if a < b {
            Some(self.entries[b - 1].clone())
        } else {
            None
        }
    }

    /// One page of the entries with a key from `start` on and before `stop`
    /// (to the end of the store where there is no `stop`), in rising order of
    /// keys, or falling where `options.reverse` is set. The page resumes
    /// behind `options.page_token` where there is one, holds at most
    /// `options.limit()` entries, and carries a token exactly where the scan
    /// has more to return.
    pub fn get_range(&self, start: &Vec<u8>, stop: &Option<Vec<u8>>, options: &PageOptions) -> (page:
        Page)
        ensures
            entry_views(page.entries@) == page_of(
                scan(
                    self@,
                    start@,
                    opt_bytes_view(*stop),
                    opt_bytes_view(options.page_token),
                    options.reverse,
                ),
                options.limit(),
            ),
            opt_bytes_view(page.next_page_token) == token_of(
                scan(
                    self@,
                    start@,
                    opt_bytes_view(*stop),
                    opt_bytes_view(options.page_token),
                    options.reverse,
                ),
                options.limit(),
            ),
            sorted(self@),
    {
        let ghost all = scan(
            self@,
            start@,
            opt_bytes_view(*stop),
            opt_bytes_view(options.page_token),
            options.reverse,
        );
        let mut a: usize = self.lower_bound(start);
        let mut b: usize = match stop {
            Some(h) => self.lower_bound(h),
            None => self.entries.len(),
        };
        match &options.page_token {
            Some(t) => {
                if options.reverse {
                    let c = self.lower_bound(t);
                    if c < b {
                        b = c;
                    }
                } else {
                    let mut after = copy_bytes(t);
                    after.push(0u8);
                    let c = self.lower_bound(&after);
                    if c > a {
                        a = c;
                    }
                }
            },
            None => {},
        }
        assert((a as int, b as int) == window(
            self@,
            start@,
            opt_bytes_view(*stop),
            opt_bytes_view(options.page_token),
            options.reverse,
        ));
        let limit = options.page_limit();
        let mut entries: Vec<Entry> = Vec::new();
        if a >= b || limit == 0 {
            assert(entry_views(entries@) =~= page_of(all, limit as nat));
            return Page { entries, next_page_token: None };
        }
        let total: usize = b - a;
        let n: usize = if total <= limit {
            total
        } else {
            limit
        };
        let reverse = options.reverse;
        let mut j: usize = 0;
        while j < n
            invariant
                j <= n <= total,
                total == b - a,
                b <= self.entries.len(),
                all.len() == total,
                reverse ==> all == Seq::new(total as nat, |i: int| self@[b - 1 - i]),
                !reverse ==> all == self@.subrange(a as int, b as int),
                entries.len() == j,
                forall|k: int| 0 <= k < j ==> (#[trigger] entries@[k])@ == all[k],
            decreases n - j,
        {
            let at: usize = if reverse {
                b - 1 - j
            } else {
                a + j
            };
            assert(self@[at as int] == all[j as int]);
            entries.push(self.entries[at].clone());
            j += 1;
        }
        assert(entry_views(entries@) =~= page_of(all, limit as nat));
        let next_page_token = if n < total {
            Some(copy_bytes(&entries[n - 1].key))
        } else {
            None
        };
        Page { entries, next_page_token }
    }
}

impl Default for Db {
    /// An empty store.
    fn default() -> (db: Db)
        ensures
            db@ == Seq::<(Seq<u8>, Seq<u8>)>::empty(),
    {
        Db::new()
    }
}

impl Clone for Db {
    /// A store of its own with the same entries. What is written to one of
    /// the two afterwards is not in the other.
    fn clone(&self) -> (db: Db)
        ensures
            db@ == self@,
    {
        proof {
            use_type_invariant(self);
        }
        let mut entries: Vec<Entry> = Vec::new();
        let mut i: usize = 0;
        while i < self.entries.len()
            invariant
                i <= self.entries.len(),
                entries.len() == i,
                forall|j: int| 0 <= j < i ==> (#[trigger] entries@[j])@ == self.entries@[j]@,
            decreases self.entries.len() - i,
        {
            entries.push(self.entries[i].clone());
            i += 1;
        }
        assert(entry_views(entries@) =~= self@);
        Db { entries }
    }
}

} // verus!
