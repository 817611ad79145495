//! Stable ordering of records by a two-part text key, as `sort_by` on a
//! primary key with a secondary key to break ties.
use vstd::prelude::*;

use crate::text::{chars_equal, chars_less, lemma_text_lt_asymmetric, lemma_text_lt_irreflexive,
    lemma_text_lt_total, lemma_text_lt_transitive, text_lt};

verus! {

broadcast use vstd::seq_lib::group_to_multiset_ensures;

/// The key by which a record is ordered: a primary text, then a secondary
/// text for records whose primary texts are equal.
pub struct SortKey {
    pub primary: Vec<char>,
    pub secondary: Vec<char>,
}

impl View for SortKey {
    type V = (Seq<char>, Seq<char>);

    open spec fn view(&self) -> (Seq<char>, Seq<char>) {
        (self.primary@, self.secondary@)
    }
}

/// Strict order of keys: by the primary text, then by the secondary text.
pub open spec fn key_lt(a: (Seq<char>, Seq<char>), b: (Seq<char>, Seq<char>)) -> bool {
    text_lt(a.0, b.0) || (a.0 == b.0 && text_lt(a.1, b.1))
}

/// `x` inserted into `s` after every element whose key is not greater than
/// its own.
pub open spec fn insert_sorted<T>(
    s: Seq<T>,
    x: T,
    key: spec_fn(T) -> (Seq<char>, Seq<char>),
) -> Seq<T>
    decreases s.len(),
{
    if s.len() == 0 || !key_lt(key(x), key(s.last())) {
        s.push(x)
    } else {
        insert_sorted(s.drop_last(), x, key).push(s.last())
    }
}

/// The stable sort of `s` by `key`: each element in turn is placed after
/// every element before it whose key is not greater.
pub open spec fn sort_by_key<T>(s: Seq<T>, key: spec_fn(T) -> (Seq<char>, Seq<char>)) -> Seq<T>
    decreases s.len(),
{
    if s.len() == 0 {
        s
    } else {
        insert_sorted(sort_by_key(s.drop_last(), key), s.last(), key)
    }
}

/// No element comes after one with a greater key.
pub open spec fn sorted_by_key<T>(s: Seq<T>, key: spec_fn(T) -> (Seq<char>, Seq<char>)) -> bool {
    forall|i: int, j: int| 0 <= i < j < s.len() ==> !key_lt(key(s[j]), key(s[i]))
}

proof fn lemma_key_lt_transitive(
    a: (Seq<char>, Seq<char>),
    b: (Seq<char>, Seq<char>),
    c: (Seq<char>, Seq<char>),
)
    requires
        key_lt(a, b),
        key_lt(b, c),
    ensures
        key_lt(a, c),
{
    if text_lt(a.0, b.0) && text_lt(b.0, c.0) {
        lemma_text_lt_transitive(a.0, b.0, c.0);
    }
    if a.0 == b.0 && b.0 == c.0 && text_lt(a.1, b.1) && text_lt(b.1, c.1) {
        lemma_text_lt_transitive(a.1, b.1, c.1);
    }
}

proof fn lemma_key_not_lt_transitive(
    a: (Seq<char>, Seq<char>),
    b: (Seq<char>, Seq<char>),
    c: (Seq<char>, Seq<char>),
)
    requires
        !key_lt(b, a),
        !key_lt(c, b),
    ensures
        !key_lt(c, a),
{
    lemma_text_lt_total(a.0, b.0);
    lemma_text_lt_total(b.0, c.0);
    lemma_text_lt_total(a.1, b.1);
    lemma_text_lt_total(b.1, c.1);
    if key_lt(c, a) {
        if !key_lt(a, b) {
            lemma_key_total(a, b);
        }
        lemma_key_lt_transitive(c, a, b);
    }
}

proof fn lemma_key_total(a: (Seq<char>, Seq<char>), b: (Seq<char>, Seq<char>))
    ensures
        key_lt(a, b) || a == b || key_lt(b, a),
{
    lemma_text_lt_total(a.0, b.0);
    lemma_text_lt_total(a.1, b.1);
}

proof fn lemma_key_lt_asymmetric(a: (Seq<char>, Seq<char>), b: (Seq<char>, Seq<char>))
    requires
        key_lt(a, b),
    ensures
        !key_lt(b, a),
{
    if text_lt(a.0, b.0) {
        lemma_text_lt_asymmetric(a.0, b.0);
        if b.0 == a.0 {
            lemma_text_lt_irreflexive(a.0);
        }
    } else {
        lemma_text_lt_asymmetric(a.1, b.1);
        lemma_text_lt_irreflexive(a.0);
    }
}

/// Inserting at the place found by scanning from the end.
proof fn lemma_insert_at<T>(
    s: Seq<T>,
    x: T,
    key: spec_fn(T) -> (Seq<char>, Seq<char>),
    j: int,
)
    requires
        0 <= j <= s.len(),
        forall|k: int| j <= k < s.len() ==> key_lt(key(x), #[trigger] key(s[k])),
        j > 0 ==> !key_lt(key(x), key(s[j - 1])),
    ensures
        insert_sorted(s, x, key) == s.take(j).push(x) + s.skip(j),
    decreases s.len(),
{
    if j == s.len() {
        assert(s.take(j) =~= s);
        assert(s.skip(j) =~= Seq::<T>::empty());
        assert(s.take(j).push(x) + s.skip(j) =~= s.push(x));
        if s.len() > 0 {
            assert(s.last() == s[j - 1]);
        }
    } else {
        let d = s.drop_last();
        assert(key_lt(key(x), key(s[s.len() - 1])));
        assert forall|k: int| j <= k < d.len() implies key_lt(key(x), #[trigger] key(d[k])) by {
            assert(d[k] == s[k]);
        }
        if j > 0 {
            assert(d[j - 1] == s[j - 1]);
        }
        lemma_insert_at(d, x, key, j);
        assert(d.take(j) =~= s.take(j));
        assert((d.take(j).push(x) + d.skip(j)).push(s.last()) =~= s.take(j).push(x) + s.skip(j));
    }
}

/// Insertion keeps a sequence sorted.
proof fn lemma_insert_sorted_sorted<T>(
    s: Seq<T>,
    x: T,
    key: spec_fn(T) -> (Seq<char>, Seq<char>),
)
    requires
        sorted_by_key(s, key),
    ensures
        sorted_by_key(insert_sorted(s, x, key), key),
        insert_sorted(s, x, key).to_multiset() == s.to_multiset().insert(x),
        insert_sorted(s, x, key).len() == s.len() + 1,
    decreases s.len(),
{
    if s.len() == 0 || !key_lt(key(x), key(s.last())) {
        let r = s.push(x);
        assert forall|i: int, j: int| 0 <= i < j < r.len() implies !key_lt(
            key(r[j]),
            key(r[i]),
        ) by {
            if j == s.len() {
                // r[j] == x, and the last of s is not greater than x
                if i < s.len() - 1 {
                    lemma_key_not_lt_transitive(key(s[i]), key(s.last()), key(x));
                }
            }
        }
    } else {
        let d = s.drop_last();
        assert(sorted_by_key(d, key)) by {
            assert forall|i: int, j: int| 0 <= i < j < d.len() implies !key_lt(
                key(d[j]),
                key(d[i]),
            ) by {
                assert(d[i] == s[i] && d[j] == s[j]);
            }
        }
        lemma_insert_sorted_sorted(d, x, key);
        let m = insert_sorted(d, x, key);
        let r = m.push(s.last());
        // every element of m is x or an element of d, none greater than s.last()
        assert forall|i: int| 0 <= i < m.len() implies !key_lt(key(s.last()), #[trigger] key(m[i])) by {
            lemma_insert_sorted_members(d, x, key, i);
            if m[i] == x {
                lemma_key_lt_asymmetric(key(x), key(s.last()));
            } else {
                let k = choose|k: int| 0 <= k < d.len() && d[k] == m[i];
                assert(s[k] == d[k]);
            }
        }
        assert forall|i: int, j: int| 0 <= i < j < r.len() implies !key_lt(
            key(r[j]),
            key(r[i]),
        ) by {
            if j == m.len() {
            } else {
                assert(r[i] == m[i] && r[j] == m[j]);
            }
        }
        assert(s =~= d.push(s.last()));
        assert(s.to_multiset() == d.to_multiset().insert(s.last()));
        assert(r.to_multiset() =~= s.to_multiset().insert(x));
    }
}

/// Each element of an insertion is the inserted element or one of `s`.
proof fn lemma_insert_sorted_members<T>(
    s: Seq<T>,
    x: T,
    key: spec_fn(T) -> (Seq<char>, Seq<char>),
    i: int,
)
    requires
        0 <= i < insert_sorted(s, x, key).len(),
        insert_sorted(s, x, key).len() == s.len() + 1,
    ensures
        insert_sorted(s, x, key)[i] == x || exists|k: int|
            0 <= k < s.len() && s[k] == insert_sorted(s, x, key)[i],
    decreases s.len(),
{
    let r = insert_sorted(s, x, key);
    if s.len() == 0 || !key_lt(key(x), key(s.last())) {
        if i < s.len() {
            assert(r[i] == s[i]);
        }
    } else {
        let d = s.drop_last();
        lemma_insert_sorted_len(d, x, key);
        if i < d.len() + 1 {
            lemma_insert_sorted_members(d, x, key, i);
            if insert_sorted(d, x, key)[i] != x {
                let k = choose|k: int| 0 <= k < d.len() && d[k] == insert_sorted(d, x, key)[i];
                assert(s[k] == d[k]);
            }
        } else {
            assert(r[i] == s[s.len() - 1]);
        }
    }
}

proof fn lemma_insert_sorted_len<T>(s: Seq<T>, x: T, key: spec_fn(T) -> (Seq<char>, Seq<char>))
    ensures
        insert_sorted(s, x, key).len() == s.len() + 1,
    decreases s.len(),
{
    if s.len() > 0 && key_lt(key(x), key(s.last())) {
        lemma_insert_sorted_len(s.drop_last(), x, key);
    }
}

/// The stable sort is sorted and holds the same elements.
pub proof fn lemma_sort_by_key_sorted_permutation<T>(
    s: Seq<T>,
    key: spec_fn(T) -> (Seq<char>, Seq<char>),
)
    ensures
        sorted_by_key(sort_by_key(s, key), key),
        sort_by_key(s, key).to_multiset() == s.to_multiset(),
        sort_by_key(s, key).len() == s.len(),
    decreases s.len(),
{
    if s.len() > 0 {
        lemma_sort_by_key_sorted_permutation(s.drop_last(), key);
        lemma_insert_sorted_sorted(sort_by_key(s.drop_last(), key), s.last(), key);
        assert(s =~= s.drop_last().push(s.last()));
    }
}

/// Sorting records and then taking their views is sorting the views, when
/// the key of a record is the key of its view.
pub proof fn lemma_sort_by_key_map<T, V>(
    s: Seq<T>,
    f: spec_fn(T) -> V,
    key: spec_fn(V) -> (Seq<char>, Seq<char>),
    rkey: spec_fn(T) -> (Seq<char>, Seq<char>),
)
    requires
        forall|t: T| #[trigger] rkey(t) == key(f(t)),
    ensures
        sort_by_key(s, rkey).map_values(f) == sort_by_key(s.map_values(f), key),
    decreases s.len(),
{
    if s.len() > 0 {
        lemma_sort_by_key_map(s.drop_last(), f, key, rkey);
        assert(s.map_values(f).drop_last() =~= s.drop_last().map_values(f));
        lemma_insert_sorted_map(sort_by_key(s.drop_last(), rkey), s.last(), f, key, rkey);
    }
}

proof fn lemma_insert_sorted_map<T, V>(
    s: Seq<T>,
    x: T,
    f: spec_fn(T) -> V,
    key: spec_fn(V) -> (Seq<char>, Seq<char>),
    rkey: spec_fn(T) -> (Seq<char>, Seq<char>),
)
    requires
        forall|t: T| #[trigger] rkey(t) == key(f(t)),
    ensures
        insert_sorted(s, x, rkey).map_values(f) == insert_sorted(s.map_values(f), f(x), key),
    decreases s.len(),
{
    if s.len() == 0 || !key_lt(rkey(x), rkey(s.last())) {
        assert(s.push(x).map_values(f) =~= s.map_values(f).push(f(x)));
    } else {
        lemma_insert_sorted_map(s.drop_last(), x, f, key, rkey);
        assert(s.map_values(f).drop_last() =~= s.drop_last().map_values(f));
        assert(insert_sorted(s.drop_last(), x, rkey).push(s.last()).map_values(f)
            =~= insert_sorted(s.drop_last(), x, rkey).map_values(f).push(f(s.last())));
    }
}

/// Strict comparison of keys.
pub fn key_less(a: &SortKey, b: &SortKey) -> (r: bool)
    ensures
        r == key_lt(a@, b@),
{
    if chars_less(&a.primary, &b.primary) {
        true
    } else if chars_equal(&a.primary, &b.primary) {
        chars_less(&a.secondary, &b.secondary)
    } else {
        false
    }
}

/// Sorts `items` stably by the keys that `keys` holds for them, position by
/// position.
pub fn sort_with_keys<T>(
    items: Vec<T>,
    keys: Vec<SortKey>,
    Ghost(key): Ghost<spec_fn(T) -> (Seq<char>, Seq<char>)>,
) -> (out: Vec<T>)
    requires
        items.len() == keys.len(),
        forall|i: int| 0 <= i < items.len() ==> #[trigger] keys@[i]@ == key(items@[i]),
    ensures
        out@ == sort_by_key(items@, key),
{
    let ghost orig = items@;
    let mut items = items;
    let mut keys = keys;
    let mut out: Vec<T> = Vec::new();
    let mut out_keys: Vec<SortKey> = Vec::new();
    let n = items.len();
    let mut done: usize = 0;
    while done < n
        invariant
            done <= n == orig.len(),
            items@ == orig.skip(done as int),
            items.len() == keys.len(),
            forall|i: int| 0 <= i < items.len() ==> #[trigger] keys@[i]@ == key(items@[i]),
            out@ == sort_by_key(orig.take(done as int), key),
            out.len() == out_keys.len(),
            forall|i: int| 0 <= i < out.len() ==> #[trigger] out_keys@[i]@ == key(out@[i]),
        decreases n - done,
    {
        proof {
            lemma_sort_by_key_sorted_permutation(orig.take(done as int), key);
        }
        let ghost items_before = items@;
        let ghost keys_before = keys@;
        let x = items.remove(0);
        let kx = keys.remove(0);
        assert(kx@ == key(x)) by {
            assert(keys_before[0]@ == key(items_before[0]));
        }
        assert(x == orig[done as int]);
        let mut j = out.len();
        while j > 0 && key_less(&kx, &out_keys[j - 1])
            invariant
                j <= out.len() == out_keys.len(),
                kx@ == key(x),
                forall|i: int| 0 <= i < out.len() ==> #[trigger] out_keys@[i]@ == key(out@[i]),
                forall|k: int| j <= k < out.len() ==> key_lt(key(x), #[trigger] key(out@[k])),
            decreases j,
        {
            j = j - 1;
        }
        proof {
            if j > 0 {
                assert(out_keys@[j - 1]@ == key(out@[j - 1]));
            }
            lemma_insert_at(out@, x, key, j as int);
            let t = orig.take(done + 1);
            assert(t.drop_last() =~= orig.take(done as int));
            assert(t.last() == x);
        }
        let ghost before = out@;
        let ghost before_keys = out_keys@;
        out.insert(j, x);
        out_keys.insert(j, kx);
        proof {
            assert(out@ =~= before.take(j as int).push(x) + before.skip(j as int));
            assert forall|i: int| 0 <= i < out.len() implies #[trigger] out_keys@[i]@ == key(
                out@[i],
            ) by {
                if i < j {
                    assert(out_keys@[i] == before_keys[i]);
                    assert(out@[i] == before[i]);
                } else if i > j {
                    assert(out_keys@[i] == before_keys[i - 1]);
                    assert(out@[i] == before[i - 1]);
                }
            }
            assert(items@ =~= orig.skip(done + 1));
            assert forall|i: int| 0 <= i < items.len() implies #[trigger] keys@[i]@ == key(
                items@[i],
            ) by {
                assert(keys@[i] == keys_before[i + 1]);
                assert(items@[i] == items_before[i + 1]);
                assert(keys_before[i + 1]@ == key(items_before[i + 1]));
            }
        }
        done = done + 1;
    }
    assert(orig.take(n as int) =~= orig);
    out
}

/// Records that are listed in the order of a key of their view.
pub trait Ordered: View + Sized {
    /// The key by which the view of a record is ordered.
    spec fn view_key(v: Self::V) -> (Seq<char>, Seq<char>);

    /// The key of this record.
    fn sort_key(&self) -> (k: SortKey)
        ensures
            k@ == Self::view_key(self@),
    ;
}

/// Sorts records stably by their key.
pub fn sort_records<R: Ordered>(items: Vec<R>) -> (out: Vec<R>)
    ensures
        out@.map_values(|r: R| r@) == sort_by_key(
            items@.map_values(|r: R| r@),
            |v: R::V| R::view_key(v),
        ),
{
    let mut keys: Vec<SortKey> = Vec::new();
    let mut k: usize = 0;
    while k < items.len()
        invariant
            k <= items.len(),
            keys.len() == k,
            forall|j: int| 0 <= j < k ==> #[trigger] keys@[j]@ == R::view_key(items@[j]@),
        decreases items.len() - k,
    {
        keys.push(items[k].sort_key());
        k = k + 1;
    }
    let ghost rkey = |r: R| R::view_key(r@);
    let ghost f = |r: R| r@;
    let ghost unsorted = items@;
    let sorted = sort_with_keys(items, keys, Ghost(rkey));
    proof {
        lemma_sort_by_key_map(unsorted, f, |v: R::V| R::view_key(v), rkey);
        assert(unsorted.map_values(f) =~= unsorted.map_values(|r: R| r@));
        assert(sorted@.map_values(f) =~= sorted@.map_values(|r: R| r@));
    }
    sorted
}

/// The elements of `s` that `keep` holds of, in order.
pub open spec fn select<T>(s: Seq<T>, keep: spec_fn(T) -> bool) -> Seq<T>
    decreases s.len(),
{
    if s.len() == 0 {
        Seq::empty()
    } else if keep(s.last()) {
        select(s.drop_last(), keep).push(s.last())
    } else {
        select(s.drop_last(), keep)
    }
}

/// Whether a record has the key `k`.
pub open spec fn has_key<T>(key: spec_fn(T) -> (Seq<char>, Seq<char>), k: (Seq<char>, Seq<char>)) -> spec_fn(T) -> bool {
    |t: T| key(t) == k
}

proof fn lemma_insert_sorted_stable<T>(
    s: Seq<T>,
    x: T,
    key: spec_fn(T) -> (Seq<char>, Seq<char>),
    k: (Seq<char>, Seq<char>),
)
    ensures
        select(insert_sorted(s, x, key), has_key(key, k)) == if key(x) == k {
            select(s, has_key(key, k)).push(x)
        } else {
            select(s, has_key(key, k))
        },
    decreases s.len(),
{
    if s.len() == 0 || !key_lt(key(x), key(s.last())) {
        assert(s.push(x).drop_last() =~= s);
    } else {
        lemma_insert_sorted_stable(s.drop_last(), x, key, k);
        lemma_key_lt_asymmetric(key(x), key(s.last()));
        if key(s.last()) == key(x) {
            lemma_key_lt_irreflexive(key(x));
        }
        let m = insert_sorted(s.drop_last(), x, key);
        assert(m.push(s.last()).drop_last() =~= m);
    }
}

proof fn lemma_key_lt_irreflexive(a: (Seq<char>, Seq<char>))
    ensures
        !key_lt(a, a),
{
    lemma_text_lt_irreflexive(a.0);
    lemma_text_lt_irreflexive(a.1);
}

/// The sort is stable: the records that share a key keep the order in
/// which they came.
pub proof fn lemma_sort_by_key_stable<T>(
    s: Seq<T>,
    key: spec_fn(T) -> (Seq<char>, Seq<char>),
    k: (Seq<char>, Seq<char>),
)
    ensures
        select(sort_by_key(s, key), has_key(key, k)) == select(s, has_key(key, k)),
    decreases s.len(),
{
    if s.len() > 0 {
        lemma_sort_by_key_stable(s.drop_last(), key, k);
        lemma_insert_sorted_stable(sort_by_key(s.drop_last(), key), s.last(), key, k);
    }
}

// ---------------------------------------------------------------------------
// Selections
// ---------------------------------------------------------------------------

/// Selecting from two sequences joined is joining the selections.
pub proof fn lemma_select_concat<T>(a: Seq<T>, b: Seq<T>, keep: spec_fn(T) -> bool)
    ensures
        select(a + b, keep) == select(a, keep) + select(b, keep),
    decreases b.len(),
{
    if b.len() == 0 {
        assert(a + b =~= a);
        assert(select(a, keep) + select(b, keep) =~= select(a, keep));
    } else {
        assert((a + b).drop_last() =~= a + b.drop_last());
        assert((a + b).last() == b.last());
        lemma_select_concat(a, b.drop_last(), keep);
        if keep(b.last()) {
            assert(select(a, keep) + select(b.drop_last(), keep).push(b.last()) =~= (select(
                a,
                keep,
            ) + select(b.drop_last(), keep)).push(b.last()));
        }
    }
}

/// Selecting and then mapping is mapping and then selecting by the
/// matching test.
pub proof fn lemma_select_map<T, U>(
    s: Seq<T>,
    keep: spec_fn(T) -> bool,
    f: spec_fn(T) -> U,
    keep2: spec_fn(U) -> bool,
)
    requires
        forall|t: T| #[trigger] keep(t) == keep2(f(t)),
    ensures
        select(s, keep).map_values(f) == select(s.map_values(f), keep2),
    decreases s.len(),
{
    if s.len() > 0 {
        lemma_select_map(s.drop_last(), keep, f, keep2);
        assert(s.map_values(f).drop_last() =~= s.drop_last().map_values(f));
        assert(s.map_values(f).last() == f(s.last()));
        assert(keep(s.last()) == keep2(f(s.last())));
        if keep(s.last()) {
            assert(select(s.drop_last(), keep).push(s.last()).map_values(f) =~= select(
                s.drop_last(),
                keep,
            ).map_values(f).push(f(s.last())));
        }
    } else {
        assert(s.map_values(f) =~= Seq::<U>::empty());
        assert(select(s, keep).map_values(f) =~= Seq::<U>::empty());
    }
}

/// Where every element is kept, the selection is the whole sequence.
pub proof fn lemma_select_all<T>(s: Seq<T>, keep: spec_fn(T) -> bool)
    requires
        forall|i: int| 0 <= i < s.len() ==> #[trigger] keep(s[i]),
    ensures
        select(s, keep) == s,
    decreases s.len(),
{
    if s.len() > 0 {
        assert(keep(s[s.len() - 1]));
        assert forall|i: int| 0 <= i < s.drop_last().len() implies #[trigger] keep(
            s.drop_last()[i],
        ) by {
            assert(s.drop_last()[i] == s[i]);
        }
        lemma_select_all(s.drop_last(), keep);
        assert(s.drop_last().push(s.last()) =~= s);
    }
}

/// Where no element is kept, the selection is empty.
pub proof fn lemma_select_none<T>(s: Seq<T>, keep: spec_fn(T) -> bool)
    requires
        forall|i: int| 0 <= i < s.len() ==> !#[trigger] keep(s[i]),
    ensures
        select(s, keep) == Seq::<T>::empty(),
    decreases s.len(),
{
    if s.len() > 0 {
        assert(!keep(s[s.len() - 1]));
        assert forall|i: int| 0 <= i < s.drop_last().len() implies !#[trigger] keep(
            s.drop_last()[i],
        ) by {
            assert(s.drop_last()[i] == s[i]);
        }
        lemma_select_none(s.drop_last(), keep);
    }
}


/// Sorting what is already sorted changes nothing.
pub proof fn lemma_sort_by_key_sorted_identity<T>(s: Seq<T>, key: spec_fn(T) -> (Seq<char>, Seq<char>))
    requires
        sorted_by_key(s, key),
    ensures
        sort_by_key(s, key) == s,
    decreases s.len(),
{
    if s.len() > 0 {
        let d = s.drop_last();
        assert(sorted_by_key(d, key)) by {
            assert forall|i: int, j: int| 0 <= i < j < d.len() implies !key_lt(key(d[j]), key(d[i])) by {
                assert(d[i] == s[i] && d[j] == s[j]);
            }
        }
        lemma_sort_by_key_sorted_identity(d, key);
        if d.len() > 0 {
            assert(d.last() == s[s.len() - 2]);
            assert(!key_lt(key(s[s.len() - 1]), key(s[s.len() - 2])));
        }
        assert(d.push(s.last()) =~= s);
    }
}


/// No two elements share a key.
pub open spec fn keys_distinct<T>(s: Seq<T>, key: spec_fn(T) -> (Seq<char>, Seq<char>)) -> bool {
    forall|i: int, j: int| 0 <= i < s.len() && 0 <= j < s.len() && i != j ==> key(#[trigger] s[i]) != key(#[trigger] s[j])
}

/// Two sorted sequences that hold the same elements, with no key twice,
/// are the same.
pub proof fn lemma_sorted_permutation_unique<T>(
    a: Seq<T>,
    b: Seq<T>,
    key: spec_fn(T) -> (Seq<char>, Seq<char>),
)
    requires
        sorted_by_key(a, key),
        sorted_by_key(b, key),
        a.to_multiset() == b.to_multiset(),
        keys_distinct(a, key),
    ensures
        a == b,
    decreases a.len(),
{
    assert(a.to_multiset().len() == a.len());
    assert(b.to_multiset().len() == b.len());
    if a.len() == 0 {
        assert(b.len() == 0);
        assert(a =~= b);
    } else {
        let n = a.len() - 1;
        let x = a[n];
        let y = b[n];
        assert(b.to_multiset().count(y) > 0);
        assert(a.contains(y));
        let p = choose|p: int| 0 <= p < a.len() && a[p] == y;
        assert(a.to_multiset().count(x) > 0);
        assert(b.contains(x));
        let q = choose|q: int| 0 <= q < b.len() && b[q] == x;
        if p < n {
            assert(!key_lt(key(a[n]), key(a[p])));
        }
        if q < n {
            assert(!key_lt(key(b[n]), key(b[q])));
        }
        lemma_key_total(key(x), key(y));
        assert(key(a[p]) == key(a[n]));
        assert(p == n);
        assert(x == y);
        let da = a.drop_last();
        let db = b.drop_last();
        assert(a =~= da.push(x));
        assert(b =~= db.push(x));
        assert(da.to_multiset().insert(x) == db.to_multiset().insert(x));
        assert(da.to_multiset() =~= db.to_multiset()) by {
            assert forall|e: T| da.to_multiset().count(e) == db.to_multiset().count(e) by {
                assert(da.to_multiset().insert(x).count(e) == db.to_multiset().insert(x).count(e));
            }
        }
        assert(sorted_by_key(da, key)) by {
            assert forall|i: int, j: int| 0 <= i < j < da.len() implies !key_lt(key(da[j]), key(da[i])) by {
                assert(da[i] == a[i] && da[j] == a[j]);
            }
        }
        assert(sorted_by_key(db, key)) by {
            assert forall|i: int, j: int| 0 <= i < j < db.len() implies !key_lt(key(db[j]), key(db[i])) by {
                assert(db[i] == b[i] && db[j] == b[j]);
            }
        }
        assert(keys_distinct(da, key)) by {
            assert forall|i: int, j: int| 0 <= i < da.len() && 0 <= j < da.len() && i != j implies key(
                #[trigger] da[i],
            ) != key(#[trigger] da[j]) by {
                assert(da[i] == a[i] && da[j] == a[j]);
            }
        }
        lemma_sorted_permutation_unique(da, db, key);
    }
}

} // verus!
