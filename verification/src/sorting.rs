use vstd::prelude::*;

verus! {

// ── Orders ────────────────────────────────────────────────────────────

/// Lexicographic order on character sequences by code point, the order of `str`'s `Ord`.
pub open spec fn text_le(a: Seq<char>, b: Seq<char>) -> bool
    decreases a.len(),
{
    if a.len() == 0 {
        true
    } else if b.len() == 0 {
        false
    } else if a[0] != b[0] {
        a[0] < b[0]
    } else {
        text_le(a.drop_first(), b.drop_first())
    }
}

/// Strict lexicographic order on character sequences.
pub open spec fn text_lt(a: Seq<char>, b: Seq<char>) -> bool {
    text_le(a, b) && a != b
}

/// The view of a sort key: a major and a minor number, then a text.
pub type KeyView = (u64, u64, Seq<char>);

/// Keys compare by major number, then minor number, then text.
pub open spec fn key_le(a: KeyView, b: KeyView) -> bool {
    a.0 < b.0 || (a.0 == b.0 && (a.1 < b.1 || (a.1 == b.1 && text_le(a.2, b.2))))
}

pub proof fn lemma_text_le_refl(a: Seq<char>)
    ensures
        text_le(a, a),
    decreases a.len(),
{
    if a.len() > 0 {
        lemma_text_le_refl(a.drop_first());
    }
}

pub proof fn lemma_text_le_total(a: Seq<char>, b: Seq<char>)
    ensures
        text_le(a, b) || text_le(b, a),
    decreases a.len(),
{
    if a.len() > 0 && b.len() > 0 && a[0] == b[0] {
        lemma_text_le_total(a.drop_first(), b.drop_first());
    }
}

pub proof fn lemma_text_le_trans(a: Seq<char>, b: Seq<char>, c: Seq<char>)
    requires
        text_le(a, b),
        text_le(b, c),
    ensures
        text_le(a, c),
    decreases a.len(),
{
    if a.len() > 0 && b.len() > 0 && c.len() > 0 && a[0] == b[0] && b[0] == c[0] {
        lemma_text_le_trans(a.drop_first(), b.drop_first(), c.drop_first());
    }
}

pub proof fn lemma_text_le_antisym(a: Seq<char>, b: Seq<char>)
    requires
        text_le(a, b),
        text_le(b, a),
    ensures
        a == b,
    decreases a.len(),
{
    if a.len() > 0 {
        lemma_text_le_antisym(a.drop_first(), b.drop_first());
        assert(a =~= seq![a[0]] + a.drop_first());
        assert(b =~= seq![b[0]] + b.drop_first());
    }
}

pub proof fn lemma_key_le_refl(a: KeyView)
    ensures
        key_le(a, a),
{
    lemma_text_le_refl(a.2);
}

pub proof fn lemma_key_le_total(a: KeyView, b: KeyView)
    ensures
        key_le(a, b) || key_le(b, a),
{
    lemma_text_le_total(a.2, b.2);
}

pub proof fn lemma_key_le_trans(a: KeyView, b: KeyView, c: KeyView)
    requires
        key_le(a, b),
        key_le(b, c),
    ensures
        key_le(a, c),
{
    if a.0 == b.0 && b.0 == c.0 && a.1 == b.1 && b.1 == c.1 {
        lemma_text_le_trans(a.2, b.2, c.2);
    }
}

// ── Stable sorting ────────────────────────────────────────────────────

/// The elements of `s` whose key is `k`, in their order in `s`.
pub open spec fn keep_key<T>(s: Seq<T>, kf: spec_fn(T) -> KeyView, k: KeyView) -> Seq<T>
    decreases s.len(),
{
    if s.len() == 0 {
        Seq::empty()
    } else {
        let r = keep_key(s.drop_last(), kf, k);
        if kf(s.last()) == k {
            r.push(s.last())
        } else {
            r
        }
    }
}

/// `r` is in ascending key order.
pub open spec fn sorted_by<T>(r: Seq<T>, kf: spec_fn(T) -> KeyView) -> bool {
    forall|i: int, j: int| 0 <= i < j < r.len() ==> key_le(kf(r[i]), kf(r[j]))
}

/// `r` is `s` stably sorted by key: ascending keys, and the elements of each key in
/// the order they had in `s`.
pub open spec fn stably_sorted<T>(r: Seq<T>, s: Seq<T>, kf: spec_fn(T) -> KeyView) -> bool {
    &&& sorted_by(r, kf)
    &&& forall|k: KeyView| #[trigger] keep_key(r, kf, k) == keep_key(s, kf, k)
}

pub proof fn lemma_keep_key_add<T>(a: Seq<T>, b: Seq<T>, kf: spec_fn(T) -> KeyView, k: KeyView)
    ensures
        keep_key(a + b, kf, k) == keep_key(a, kf, k) + keep_key(b, kf, k),
    decreases b.len(),
{
    if b.len() == 0 {
        assert(a + b =~= a);
        assert(keep_key(a, kf, k) + keep_key(b, kf, k) =~= keep_key(a, kf, k));
    } else {
        assert((a + b).drop_last() =~= a + b.drop_last());
        assert((a + b).last() == b.last());
        lemma_keep_key_add(a, b.drop_last(), kf, k);
        if kf(b.last()) == k {
            assert(keep_key(a, kf, k) + keep_key(b.drop_last(), kf, k).push(b.last()) =~= (
            keep_key(a, kf, k) + keep_key(b.drop_last(), kf, k)).push(b.last()));
        }
    }
}

pub proof fn lemma_keep_key_none<T>(s: Seq<T>, kf: spec_fn(T) -> KeyView, k: KeyView)
    requires
        forall|j: int| 0 <= j < s.len() ==> kf(#[trigger] s[j]) != k,
    ensures
        keep_key(s, kf, k) == Seq::<T>::empty(),
    decreases s.len(),
{
    if s.len() > 0 {
        assert forall|j: int| 0 <= j < s.drop_last().len() implies kf(
            #[trigger] s.drop_last()[j],
        ) != k by {
            assert(s.drop_last()[j] == s[j]);
        }
        lemma_keep_key_none(s.drop_last(), kf, k);
    }
}

pub proof fn lemma_keep_key_contains<T>(s: Seq<T>, kf: spec_fn(T) -> KeyView, x: T)
    ensures
        s.contains(x) <==> keep_key(s, kf, kf(x)).contains(x),
    decreases s.len(),
{
    if s.len() > 0 {
        lemma_keep_key_contains(s.drop_last(), kf, x);
        let r = keep_key(s.drop_last(), kf, kf(x));
        if s.contains(x) {
            if s.last() != x {
                let j = choose|j: int| 0 <= j < s.len() && s[j] == x;
                assert(s.drop_last()[j] == x);
            }
        }
        if s.drop_last().contains(x) {
            let j = choose|j: int| 0 <= j < s.drop_last().len() && s.drop_last()[j] == x;
            assert(s[j] == x);
        }
        if kf(s.last()) == kf(x) {
            if r.push(s.last()).contains(x) && !r.contains(x) {
                let j = choose|j: int| 0 <= j < r.push(s.last()).len() && r.push(s.last())[j] == x;
                assert(j == r.len());
                assert(s[s.len() - 1] == x);
            }
            if s.last() == x {
                assert(r.push(s.last())[r.len() as int] == x);
            }
            if r.contains(x) {
                let j = choose|j: int| 0 <= j < r.len() && r[j] == x;
                assert(r.push(s.last())[j] == x);
            }
        } else {
            if s.last() == x {
            }
        }
    }
}

/// A stable sort keeps exactly the same elements.
pub proof fn lemma_stably_sorted_contains<T>(r: Seq<T>, s: Seq<T>, kf: spec_fn(T) -> KeyView, x: T)
    requires
        stably_sorted(r, s, kf),
    ensures
        r.contains(x) <==> s.contains(x),
{
    lemma_keep_key_contains(r, kf, x);
    lemma_keep_key_contains(s, kf, x);
    assert(keep_key(r, kf, kf(x)) == keep_key(s, kf, kf(x)));
}

/// Keys are antisymmetric: two keys each at most the other are equal.
pub proof fn lemma_key_le_antisym(a: KeyView, b: KeyView)
    requires
        key_le(a, b),
        key_le(b, a),
    ensures
        a == b,
{
    if a.0 == b.0 && a.1 == b.1 {
        lemma_text_le_antisym(a.2, b.2);
    }
}

/// What `keep_key` keeps are elements of `s` with key `k`.
pub proof fn lemma_keep_key_members<T>(s: Seq<T>, kf: spec_fn(T) -> KeyView, k: KeyView)
    ensures
        forall|i: int|
            0 <= i < keep_key(s, kf, k).len() ==> kf(#[trigger] keep_key(s, kf, k)[i]) == k
                && s.contains(keep_key(s, kf, k)[i]),
    decreases s.len(),
{
    if s.len() > 0 {
        let d = s.drop_last();
        lemma_keep_key_members(d, kf, k);
        let r = keep_key(d, kf, k);
        let t = keep_key(s, kf, k);
        assert forall|i: int| 0 <= i < t.len() implies kf(#[trigger] t[i]) == k && s.contains(t[i]) by {
            if i < r.len() {
                assert(t[i] == r[i]);
                let y = r[i];
                assert(d.contains(y));
                let j = choose|j: int| 0 <= j < d.len() && d[j] == y;
                assert(s[j] == y);
            } else {
                assert(t[i] == s.last());
                assert(s[s.len() - 1] == s.last());
            }
        }
    }
}

/// In a sequence sorted by key, the last element's key is at least every element's key.
proof fn lemma_sorted_last_is_greatest<T>(b: Seq<T>, kf: spec_fn(T) -> KeyView, y: T)
    requires
        sorted_by(b, kf),
        b.contains(y),
    ensures
        key_le(kf(y), kf(b.last())),
{
    let j = choose|j: int| 0 <= j < b.len() && b[j] == y;
    if j < b.len() - 1 {
        assert(key_le(kf(b[j]), kf(b[b.len() - 1])));
    } else {
        lemma_key_le_refl(kf(y));
    }
}

/// Two sequences sorted by key that keep the same elements under every key are equal.
proof fn lemma_same_keys_sorted_equal<T>(a: Seq<T>, b: Seq<T>, kf: spec_fn(T) -> KeyView)
    requires
        sorted_by(a, kf),
        sorted_by(b, kf),
        forall|k: KeyView| #[trigger] keep_key(a, kf, k) == keep_key(b, kf, k),
    ensures
        a == b,
    decreases a.len() + b.len(),
{
    if a.len() == 0 && b.len() == 0 {
        assert(a =~= b);
    } else if a.len() == 0 {
        let k = kf(b.last());
        assert(keep_key(a, kf, k) == keep_key(b, kf, k));
        assert(keep_key(b, kf, k).len() > 0);
    } else if b.len() == 0 {
        let k = kf(a.last());
        assert(keep_key(a, kf, k) == keep_key(b, kf, k));
        assert(keep_key(a, kf, k).len() > 0);
    } else {
        let ka = kf(a.last());
        let kb = kf(b.last());
        let ra = keep_key(a, kf, ka);
        let rb = keep_key(b, kf, kb);
        assert(keep_key(b, kf, ka) == ra);
        assert(keep_key(a, kf, kb) == rb);
        lemma_keep_key_members(b, kf, ka);
        lemma_keep_key_members(a, kf, kb);
        assert(ra.len() > 0 && ra[ra.len() - 1] == a.last());
        assert(rb.len() > 0 && rb[rb.len() - 1] == b.last());
        assert(b.contains(ra[ra.len() - 1]));
        assert(a.contains(rb[rb.len() - 1]));
        lemma_sorted_last_is_greatest(b, kf, a.last());
        lemma_sorted_last_is_greatest(a, kf, b.last());
        lemma_key_le_antisym(ka, kb);
        let da = a.drop_last();
        let db = b.drop_last();
        assert(ra == keep_key(da, kf, ka).push(a.last()));
        assert(ra == keep_key(db, kf, ka).push(b.last()));
        assert(keep_key(da, kf, ka) == ra.drop_last());
        assert(keep_key(db, kf, ka) == ra.drop_last());
        assert forall|k: KeyView| #[trigger] keep_key(da, kf, k) == keep_key(db, kf, k) by {
            if k != ka {
                assert(keep_key(a, kf, k) == keep_key(b, kf, k));
            }
        }
        lemma_same_keys_sorted_equal(da, db, kf);
        assert(a =~= da.push(a.last()));
        assert(b =~= db.push(b.last()));
    }
}

/// A stable sort has a single outcome: two sequences that are both `s` stably sorted by
/// the same key are equal.
pub proof fn law_stable_sort_unique<T>(r1: Seq<T>, r2: Seq<T>, s: Seq<T>, kf: spec_fn(T) -> KeyView)
    requires
        stably_sorted(r1, s, kf),
        stably_sorted(r2, s, kf),
    ensures
        r1 == r2,
{
    assert forall|k: KeyView| #[trigger] keep_key(r1, kf, k) == keep_key(r2, kf, k) by {
        assert(keep_key(r1, kf, k) == keep_key(s, kf, k));
        assert(keep_key(r2, kf, k) == keep_key(s, kf, k));
    }
    lemma_same_keys_sorted_equal(r1, r2, kf);
}

/// A sort key: major number, minor number, text.
pub struct SortKey {
    pub major: u64,
    pub minor: u64,
    pub text: Vec<char>,
}

impl View for SortKey {
    type V = KeyView;

    open spec fn view(&self) -> KeyView {
        (self.major, self.minor, self.text@)
    }
}

/// Lexicographic comparison of two character slices.
pub fn text_le_exec(a: &[char], b: &[char]) -> (r: bool)
    ensures
        r == text_le(a@, b@),
{
    let n = if a.len() < b.len() {
        a.len()
    } else {
        b.len()
    };
    let mut i: usize = 0;
    assert(a@.skip(0) == a@);
    assert(b@.skip(0) == b@);
    while i < n
        invariant
            n <= a@.len(),
            n <= b@.len(),
            n == a@.len() || n == b@.len(),
            i <= n,
            text_le(a@, b@) == text_le(a@.skip(i as int), b@.skip(i as int)),
        decreases n - i,
    {
        assert(a@.skip(i as int)[0] == a@[i as int]);
        assert(b@.skip(i as int)[0] == b@[i as int]);
        if a[i] != b[i] {
            return a[i] < b[i];
        }
        assert(a@.skip(i as int).drop_first() == a@.skip(i as int + 1));
        assert(b@.skip(i as int).drop_first() == b@.skip(i as int + 1));
        i = i + 1;
    }
    a.len() <= b.len()
}

/// Comparison of two sort keys.
pub fn key_le_exec(a: &SortKey, b: &SortKey) -> (r: bool)
    ensures
        r == key_le(a@, b@),
{
    if a.major != b.major {
        a.major < b.major
    } else if a.minor != b.minor {
        a.minor < b.minor
    } else {
        text_le_exec(a.text.as_slice(), b.text.as_slice())
    }
}

/// Sorts `items` stably by the keys given beside them (`slice::sort_by`).
pub fn sort_stable<T>(items: Vec<T>, keys: Vec<SortKey>, Ghost(kf): Ghost<spec_fn(T) -> KeyView>) -> (r:
    Vec<T>)
    requires
        items@.len() == keys@.len(),
        forall|i: int| 0 <= i < items@.len() ==> #[trigger] keys@[i]@ == kf(items@[i]),
    ensures
        stably_sorted(r@, items@, kf),
{
    let ghost orig = items@;
    let mut items = items;
    let mut keys = keys;
    let mut out: Vec<T> = Vec::new();
    let mut out_keys: Vec<SortKey> = Vec::new();
    let n = items.len();
    let mut i: usize = 0;
    while i < n
        invariant
            n == orig.len(),
            i <= n,
            items@ == orig.skip(i as int),
            keys@.len() == items@.len(),
            forall|j: int| 0 <= j < items@.len() ==> #[trigger] keys@[j]@ == kf(items@[j]),
            out_keys@.len() == out@.len(),
            forall|j: int| 0 <= j < out@.len() ==> #[trigger] out_keys@[j]@ == kf(out@[j]),
            sorted_by(out@, kf),
            forall|k: KeyView| #[trigger] keep_key(out@, kf, k) == keep_key(orig.take(i as int), kf, k),
        decreases n - i,
    {
        let x = items.remove(0);
        let xk = keys.remove(0);
        assert(x == orig[i as int]);
        let mut p = out.len();
        while p > 0 && !key_le_exec(&out_keys[p - 1], &xk)
            invariant
                p <= out@.len(),
                out_keys@.len() == out@.len(),
                forall|j: int| p <= j < out@.len() ==> !key_le(#[trigger] out_keys@[j]@, xk@),
            decreases p,
        {
            p = p - 1;
        }
        let ghost old_out = out@;
        proof {
            assert forall|j: int| 0 <= j < p implies key_le(kf(#[trigger] old_out[j]), kf(x)) by {
                assert(out_keys@[p - 1]@ == kf(old_out[p - 1]));
                if j < p - 1 {
                    lemma_key_le_trans(kf(old_out[j]), kf(old_out[p - 1]), kf(x));
                }
            }
            assert forall|j: int| p <= j < old_out.len() implies key_le(kf(x), kf(#[trigger] old_out[j]))
                && kf(old_out[j]) != kf(x) by {
                assert(out_keys@[j]@ == kf(old_out[j]));
                lemma_key_le_total(kf(x), kf(old_out[j]));
                lemma_key_le_refl(kf(x));
            }
        }
        out.insert(p, x);
        out_keys.insert(p, xk);
        proof {
            let nw = out@;
            assert(nw =~= old_out.take(p as int) + seq![x] + old_out.skip(p as int));
            assert forall|a: int, b: int| 0 <= a < b < nw.len() implies key_le(kf(nw[a]), kf(nw[b])) by {
                if b < p {
                    assert(nw[a] == old_out[a] && nw[b] == old_out[b]);
                } else if b == p {
                    assert(nw[a] == old_out[a]);
                } else if a < p {
                    assert(nw[a] == old_out[a] && nw[b] == old_out[b - 1]);
                    lemma_key_le_trans(kf(old_out[a]), kf(x), kf(old_out[b - 1]));
                } else if a == p {
                    assert(nw[b] == old_out[b - 1]);
                } else {
                    assert(nw[a] == old_out[a - 1] && nw[b] == old_out[b - 1]);
                }
            }
            assert forall|j: int| 0 <= j < nw.len() implies #[trigger] out_keys@[j]@ == kf(nw[j]) by {
                if j < p {
                } else if j > p {
                    assert(nw[j] == old_out[j - 1]);
                }
            }
            assert(orig.take(i as int + 1) =~= orig.take(i as int) + seq![x]);
            assert(old_out =~= old_out.take(p as int) + old_out.skip(p as int));
            assert forall|k: KeyView| #[trigger] keep_key(nw, kf, k) == keep_key(
                orig.take(i as int + 1),
                kf,
                k,
            ) by {
                lemma_keep_key_add(old_out.take(p as int) + seq![x], old_out.skip(p as int), kf, k);
                lemma_keep_key_add(old_out.take(p as int), seq![x], kf, k);
                lemma_keep_key_add(old_out.take(p as int), old_out.skip(p as int), kf, k);
                lemma_keep_key_add(orig.take(i as int), seq![x], kf, k);
                assert(seq![x].drop_last() =~= Seq::<T>::empty());
                assert(seq![x].last() == x);
                assert(keep_key(seq![x].drop_last(), kf, k) =~= Seq::<T>::empty());
                assert(keep_key(old_out, kf, k) == keep_key(orig.take(i as int), kf, k));
                let kt = keep_key(old_out.take(p as int), kf, k);
                let ks = keep_key(old_out.skip(p as int), kf, k);
                let kx = keep_key(seq![x], kf, k);
                if kf(x) == k {
                    assert forall|j: int| 0 <= j < old_out.skip(p as int).len() implies kf(
                        #[trigger] old_out.skip(p as int)[j],
                    ) != k by {
                        assert(old_out.skip(p as int)[j] == old_out[p + j]);
                    }
                    lemma_keep_key_none(old_out.skip(p as int), kf, k);
                    assert(kt + kx + ks =~= kt + ks + kx);
                } else {
                    assert(kx =~= Seq::<T>::empty());
                    assert(kt + kx + ks =~= kt + ks + kx);
                }
            }
            assert(items@ =~= orig.skip(i as int + 1));
        }
        i = i + 1;
    }
    assert(orig.take(n as int) =~= orig);
    out
}

/// Every element is strictly before the next: ascending without repeats.
pub open spec fn strictly_ascending(r: Seq<Seq<char>>) -> bool {
    forall|i: int, j: int| 0 <= i < j < r.len() ==> text_lt(r[i], r[j])
}

/// Sorting key of a string: its text.
pub open spec fn text_key(s: String) -> KeyView {
    (0u64, 0u64, s@)
}

/// The distinct strings of `items` in ascending order (a `HashSet` collected and sorted).
pub fn sorted_distinct_strings(items: Vec<String>) -> (r: Vec<String>)
    ensures
        strictly_ascending(crate::text::string_views(r@)),
        forall|v: Seq<char>| #[trigger] crate::text::string_views(r@).contains(v)
            <==> crate::text::string_views(items@).contains(v),
{
    let ghost orig = items@;
    let mut keys: Vec<SortKey> = Vec::new();
    let n = items.len();
    let mut i: usize = 0;
    while i < n
        invariant
            n == items@.len(),
            i <= n,
            keys@.len() == i,
            forall|j: int| 0 <= j < i ==> #[trigger] keys@[j]@ == text_key(items@[j]),
        decreases n - i,
    {
        let t = crate::text::chars_of(items[i].as_str());
        keys.push(SortKey { major: 0, minor: 0, text: t });
        i = i + 1;
    }
    let sorted = sort_stable(items, keys, Ghost(|s: String| text_key(s)));
    let ghost sv = crate::text::string_views(sorted@);
    let mut out: Vec<String> = Vec::new();
    let m = sorted.len();
    let mut k: usize = 0;
    while k < m
        invariant
            m == sorted@.len(),
            sv == crate::text::string_views(sorted@),
            stably_sorted(sorted@, orig, |s: String| text_key(s)),
            k <= m,
            strictly_ascending(crate::text::string_views(out@)),
            k > 0 ==> out@.len() > 0 && out@.last()@ == sorted@[k - 1]@,
            k == 0 ==> out@.len() == 0,
            forall|v: Seq<char>| #[trigger] crate::text::string_views(out@).contains(v)
                <==> sv.take(k as int).contains(v),
        decreases m - k,
    {
        let ghost ov = crate::text::string_views(out@);
        let ghost e = sorted@[k as int]@;
        proof {
            assert(sv.take(k as int + 1) =~= sv.take(k as int).push(e));
            assert(sv[k as int] == e);
        }
        let fresh = if out.len() == 0 {
            true
        } else {
            !(out[out.len() - 1] == sorted[k])
        };
        if fresh {
            let c = sorted[k].clone();
            out.push(c);
            proof {
                assert(crate::text::string_views(out@) =~= ov.push(e));
                if k > 0 {
                    let last = sorted@[k - 1]@;
                    assert(key_le(text_key(sorted@[k - 1]), text_key(sorted@[k as int])));
                    assert(text_le(last, e));
                    assert(ov.last() == last);
                    assert forall|a: int, b: int|
                        0 <= a < b < ov.len() + 1 implies text_lt(ov.push(e)[a], ov.push(e)[b]) by {
                        if b == ov.len() {
                            if a < ov.len() - 1 {
                                assert(text_lt(ov[a], last));
                                lemma_text_le_trans(ov[a], last, e);
                                if ov[a] == e {
                                    lemma_text_le_antisym(last, e);
                                }
                            }
                        } else {
                            assert(ov.push(e)[a] == ov[a] && ov.push(e)[b] == ov[b]);
                        }
                    }
                }
                assert forall|v: Seq<char>| #[trigger] ov.push(e).contains(v) <==> sv.take(
                    k as int + 1,
                ).contains(v) by {
                    if ov.push(e).contains(v) && v != e {
                        let j = choose|j: int| 0 <= j < ov.len() + 1 && #[trigger] ov.push(e)[j] == v;
                        assert(ov[j] == v);
                        assert(ov.contains(v));
                    }
                    if ov.contains(v) {
                        let j = choose|j: int| 0 <= j < ov.len() && #[trigger] ov[j] == v;
                        assert(ov.push(e)[j] == v);
                    }
                    if sv.take(k as int + 1).contains(v) && v != e {
                        let j = choose|j: int| 0 <= j < k + 1 && #[trigger] sv.take(k as int + 1)[j] == v;
                        assert(sv.take(k as int)[j] == v);
                    }
                    if sv.take(k as int).contains(v) {
                        let j = choose|j: int| 0 <= j < k && #[trigger] sv.take(k as int)[j] == v;
                        assert(sv.take(k as int + 1)[j] == v);
                    }
                    assert(ov.push(e)[ov.len() as int] == e);
                    assert(sv.take(k as int + 1)[k as int] == e);
                }
            }
        } else {
            proof {
                assert(ov.last() == e);
                assert(ov.contains(e));
                assert forall|v: Seq<char>| #[trigger] ov.contains(v) <==> sv.take(
                    k as int + 1,
                ).contains(v) by {
                    if sv.take(k as int + 1).contains(v) && v != e {
                        let j = choose|j: int| 0 <= j < k + 1 && #[trigger] sv.take(k as int + 1)[j] == v;
                        assert(sv.take(k as int)[j] == v);
                    }
                    if sv.take(k as int).contains(v) {
                        let j = choose|j: int| 0 <= j < k && #[trigger] sv.take(k as int)[j] == v;
                        assert(sv.take(k as int + 1)[j] == v);
                    }
                    assert(sv.take(k as int + 1)[k as int] == e);
                }
            }
        }
        k = k + 1;
    }
    proof {
        assert(sv.take(m as int) =~= sv);
        assert forall|v: Seq<char>| #[trigger] sv.contains(v) <==> crate::text::string_views(
            orig,
        ).contains(v) by {
            if sv.contains(v) {
                let j = choose|j: int| 0 <= j < sv.len() && sv[j] == v;
                lemma_stably_sorted_contains(sorted@, orig, |s: String| text_key(s), sorted@[j]);
                assert(sorted@.contains(sorted@[j]));
                let q = choose|q: int| 0 <= q < orig.len() && orig[q] == sorted@[j];
                assert(crate::text::string_views(orig)[q] == v);
            }
            if crate::text::string_views(orig).contains(v) {
                let q = choose|q: int|
                    0 <= q < orig.len() && crate::text::string_views(orig)[q] == v;
                lemma_stably_sorted_contains(sorted@, orig, |s: String| text_key(s), orig[q]);
                assert(orig.contains(orig[q]));
                let j = choose|j: int| 0 <= j < sorted@.len() && sorted@[j] == orig[q];
                assert(sv[j] == v);
            }
        }
    }
    out
}

/// Keeping the elements of one key commutes with mapping the elements.
pub proof fn lemma_keep_key_map<T, U>(
    s: Seq<T>,
    f: spec_fn(T) -> U,
    kf: spec_fn(U) -> KeyView,
    k: KeyView,
)
    ensures
        keep_key(s.map_values(f), kf, k) == keep_key(s, |x: T| kf(f(x)), k).map_values(f),
    decreases s.len(),
{
    if s.len() > 0 {
        lemma_keep_key_map(s.drop_last(), f, kf, k);
        assert(s.map_values(f).drop_last() =~= s.drop_last().map_values(f));
        let r = keep_key(s.drop_last(), |x: T| kf(f(x)), k);
        assert(r.push(s.last()).map_values(f) =~= r.map_values(f).push(f(s.last())));
    } else {
        assert(s.map_values(f) =~= Seq::<U>::empty());
    }
}

/// A stable sort by a key of the elements' images is a stable sort of the images.
pub proof fn lemma_stably_sorted_map<T, U>(
    r: Seq<T>,
    s: Seq<T>,
    f: spec_fn(T) -> U,
    kf: spec_fn(U) -> KeyView,
)
    requires
        stably_sorted(r, s, |x: T| kf(f(x))),
    ensures
        stably_sorted(r.map_values(f), s.map_values(f), kf),
{
    let g = |x: T| kf(f(x));
    assert forall|i: int, j: int| 0 <= i < j < r.map_values(f).len() implies key_le(
        kf(r.map_values(f)[i]),
        kf(r.map_values(f)[j]),
    ) by {
        assert(key_le(g(r[i]), g(r[j])));
    }
    assert forall|k: KeyView| #[trigger] keep_key(r.map_values(f), kf, k) == keep_key(
        s.map_values(f),
        kf,
        k,
    ) by {
        lemma_keep_key_map(r, f, kf, k);
        lemma_keep_key_map(s, f, kf, k);
        assert(keep_key(r, g, k) == keep_key(s, g, k));
    }
}

/// Two ascending sequences without repeats that hold the same elements are equal.
pub proof fn lemma_strictly_ascending_unique(a: Seq<Seq<char>>, b: Seq<Seq<char>>)
    requires
        strictly_ascending(a),
        strictly_ascending(b),
        forall|v: Seq<char>| #[trigger] a.contains(v) <==> b.contains(v),
    ensures
        a == b,
    decreases a.len(),
{
    if a.len() == 0 {
        if b.len() > 0 {
            assert(b.contains(b[0]));
            assert(a.contains(b[0]));
        }
        assert(a =~= b);
    } else {
        assert(a.contains(a[0]));
        assert(b.contains(a[0]));
        assert(b.len() > 0);
        assert(b.contains(b[0]));
        assert(a.contains(b[0]));
        let ja = choose|j: int| 0 <= j < a.len() && a[j] == b[0];
        let jb = choose|j: int| 0 <= j < b.len() && b[j] == a[0];
        if ja > 0 && jb > 0 {
            assert(text_lt(a[0], a[ja]));
            assert(text_lt(b[0], b[jb]));
            lemma_text_le_antisym(a[0], b[0]);
        }
        assert(a[0] == b[0]);
        let a1 = a.drop_first();
        let b1 = b.drop_first();
        assert forall|v: Seq<char>| #[trigger] a1.contains(v) <==> b1.contains(v) by {
            if a1.contains(v) {
                let j = choose|j: int| 0 <= j < a1.len() && a1[j] == v;
                assert(a[j + 1] == v);
                assert(a.contains(v));
                assert(text_lt(a[0], a[j + 1]));
                assert(v != a[0]);
                let k = choose|k: int| 0 <= k < b.len() && b[k] == v;
                assert(k != 0);
                assert(b1[k - 1] == v);
            }
            if b1.contains(v) {
                let j = choose|j: int| 0 <= j < b1.len() && b1[j] == v;
                assert(b[j + 1] == v);
                assert(b.contains(v));
                assert(text_lt(b[0], b[j + 1]));
                assert(v != b[0]);
                assert(a.contains(v));
                let k = choose|k: int| 0 <= k < a.len() && a[k] == v;
                assert(k != 0);
                assert(a1[k - 1] == v);
            }
        }
        assert forall|i: int, j: int| 0 <= i < j < a1.len() implies text_lt(a1[i], a1[j]) by {
            assert(text_lt(a[i + 1], a[j + 1]));
        }
        assert forall|i: int, j: int| 0 <= i < j < b1.len() implies text_lt(b1[i], b1[j]) by {
            assert(text_lt(b[i + 1], b[j + 1]));
        }
        lemma_strictly_ascending_unique(a1, b1);
        assert(a =~= seq![a[0]] + a1);
        assert(b =~= seq![b[0]] + b1);
    }
}

} // verus!
