//! Generic list helpers shared by the rest of the crate: keeping the
//! elements that satisfy a predicate, finding the first one that does,
//! counting them, and the stable oldest-first ordering every history view
//! uses.

use vstd::multiset::Multiset;
use vstd::prelude::*;

verus! {

broadcast use vstd::seq_lib::group_seq_properties;

/// `v` with only the elements for which `pred` holds, in their order.
pub fn retain_vec<T, F: Fn(&T) -> bool>(v: Vec<T>, pred: F, Ghost(p): Ghost<spec_fn(T) -> bool>) -> (out:
    Vec<T>)
    requires
        forall|t: &T| #[trigger] pred.requires((t,)),
        forall|t: &T, b: bool| pred.ensures((t,), b) ==> b == p(*t),
    ensures
        out@ == v@.filter(p),
{
    let ghost s = v@;
    let mut out: Vec<T> = Vec::new();
    let mut rest = v;
    while rest.len() > 0
        invariant
            forall|t: &T| #[trigger] pred.requires((t,)),
            forall|t: &T, b: bool| pred.ensures((t,), b) ==> b == p(*t),
            rest@.len() <= s.len(),
            rest@ == s.skip(s.len() - rest@.len()),
            out@ == s.take(s.len() - rest@.len()).filter(p),
        decreases rest@.len(),
    {
        let ghost k = s.len() - rest@.len();
        let e = rest.remove(0);
        proof {
            assert(e == s[k]);
            assert(s.take(k + 1) == s.take(k).push(s[k]));
            s.take(k).lemma_filter_push(s[k], p);
            assert(rest@ == s.skip(k + 1));
        }
        let keep = pred(&e);
        if keep {
            out.push(e);
        }
    }
    proof {
        assert(s.take(s.len() as int) == s);
    }
    out
}

/// Whether the element at `i` is the first one in `s` satisfying `p`.
pub open spec fn first_where<T>(s: Seq<T>, p: spec_fn(T) -> bool, i: int) -> bool {
    &&& 0 <= i < s.len()
    &&& p(s[i])
    &&& forall|j: int| 0 <= j < i ==> !p(#[trigger] s[j])
}

/// The index of the first element for which `pred` holds, if any.
pub fn position<T, F: Fn(&T) -> bool>(v: &Vec<T>, pred: F, Ghost(p): Ghost<spec_fn(T) -> bool>) -> (r:
    Option<usize>)
    requires
        forall|t: &T| #[trigger] pred.requires((t,)),
        forall|t: &T, b: bool| pred.ensures((t,), b) ==> b == p(*t),
    ensures
        match r {
            Some(i) => first_where(v@, p, i as int),
            None => forall|j: int| 0 <= j < v@.len() ==> !p(#[trigger] v@[j]),
        },
{
    let mut i: usize = 0;
    while i < v.len()
        invariant
            forall|t: &T| #[trigger] pred.requires((t,)),
            forall|t: &T, b: bool| pred.ensures((t,), b) ==> b == p(*t),
            i <= v@.len(),
            forall|j: int| 0 <= j < i ==> !p(#[trigger] v@[j]),
        decreases v@.len() - i,
    {
        if pred(&v[i]) {
            return Some(i);
        }
        i = i + 1;
    }
    None
}

/// The index of the first element of `s` satisfying `p`, if there is one.
pub open spec fn first_index<T>(s: Seq<T>, p: spec_fn(T) -> bool) -> Option<int> {
    if exists|i: int| first_where(s, p, i) {
        Some(choose|i: int| first_where(s, p, i))
    } else {
        None
    }
}

/// The first matching index is unique, and absent exactly when nothing matches.
pub proof fn lemma_first_index<T>(s: Seq<T>, p: spec_fn(T) -> bool)
    ensures
        match first_index(s, p) {
            Some(i) => first_where(s, p, i),
            None => forall|j: int| 0 <= j < s.len() ==> !p(#[trigger] s[j]),
        },
        forall|i: int| #[trigger] first_where(s, p, i) ==> first_index(s, p) == Some(i),
{
    assert forall|i: int| #[trigger] first_where(s, p, i) implies first_index(s, p) == Some(i) by {
        let k = choose|k: int| first_where(s, p, k);
        if k < i {
            assert(!p(s[k]));
        } else if k > i {
            assert(!p(s[i]));
        }
    }
    if first_index(s, p) is None {
        assert forall|j: int| 0 <= j < s.len() implies !p(#[trigger] s[j]) by {
            if p(s[j]) {
                lemma_first_exists_pub(s, p, j);
            }
        }
    }
}

pub proof fn lemma_first_exists_pub<T>(s: Seq<T>, p: spec_fn(T) -> bool, j: int)
    requires
        0 <= j < s.len(),
        p(s[j]),
    ensures
        exists|i: int| first_where(s, p, i),
    decreases j,
{
    if forall|k: int| 0 <= k < j ==> !p(#[trigger] s[k]) {
        assert(first_where(s, p, j));
    } else {
        let k = choose|k: int| 0 <= k < j && p(#[trigger] s[k]);
        lemma_first_exists_pub(s, p, k);
    }
}

/// The index of the first element for which `pred` holds, as [first_index] names it.
pub fn find_index<T, F: Fn(&T) -> bool>(v: &Vec<T>, pred: F, Ghost(p): Ghost<spec_fn(T) -> bool>) -> (r:
    Option<usize>)
    requires
        forall|t: &T| #[trigger] pred.requires((t,)),
        forall|t: &T, b: bool| pred.ensures((t,), b) ==> b == p(*t),
    ensures
        match r {
            Some(i) => first_index(v@, p) == Some(i as int) && first_where(v@, p, i as int),
            None => first_index(v@, p) is None && forall|j: int|
                0 <= j < v@.len() ==> !p(#[trigger] v@[j]),
        },
{
    let r = position(v, pred, Ghost(p));
    proof {
        lemma_first_index(v@, p);
    }
    r
}

/// Whether the element at `i` is the last one in `s` satisfying `p`.
pub open spec fn last_where<T>(s: Seq<T>, p: spec_fn(T) -> bool, i: int) -> bool {
    &&& 0 <= i < s.len()
    &&& p(s[i])
    &&& forall|j: int| i < j < s.len() ==> !p(#[trigger] s[j])
}

/// The index of the last element of `s` satisfying `p`, if there is one.
pub open spec fn last_index<T>(s: Seq<T>, p: spec_fn(T) -> bool) -> Option<int> {
    if exists|i: int| last_where(s, p, i) {
        Some(choose|i: int| last_where(s, p, i))
    } else {
        None
    }
}

/// The index of the last element for which `pred` holds, as [last_index] names it.
pub fn find_last_index<T, F: Fn(&T) -> bool>(v: &Vec<T>, pred: F, Ghost(p): Ghost<spec_fn(T) -> bool>) -> (r:
    Option<usize>)
    requires
        forall|t: &T| #[trigger] pred.requires((t,)),
        forall|t: &T, b: bool| pred.ensures((t,), b) ==> b == p(*t),
    ensures
        match r {
            Some(i) => last_index(v@, p) == Some(i as int) && last_where(v@, p, i as int),
            None => last_index(v@, p) is None && forall|j: int|
                0 <= j < v@.len() ==> !p(#[trigger] v@[j]),
        },
{
    let mut i: usize = v.len();
    while i > 0
        invariant
            forall|t: &T| #[trigger] pred.requires((t,)),
            forall|t: &T, b: bool| pred.ensures((t,), b) ==> b == p(*t),
            i <= v@.len(),
            forall|j: int| i <= j < v@.len() ==> !p(#[trigger] v@[j]),
        decreases i,
    {
        if pred(&v[i - 1]) {
            proof {
                let k = (i - 1) as int;
                assert(last_where(v@, p, k));
                let c = choose|c: int| last_where(v@, p, c);
                if c < k {
                    assert(!p(v@[k]));
                } else if c > k {
                    assert(!p(v@[c]));
                }
            }
            return Some(i - 1);
        }
        i = i - 1;
    }
    proof {
        if exists|c: int| last_where(v@, p, c) {
            let c = choose|c: int| last_where(v@, p, c);
            assert(!p(v@[c]));
        }
    }
    None
}

/// Whether some element of `v` satisfies `pred`.
pub fn any_where<T, F: Fn(&T) -> bool>(v: &Vec<T>, pred: F, Ghost(p): Ghost<spec_fn(T) -> bool>) -> (b:
    bool)
    requires
        forall|t: &T| #[trigger] pred.requires((t,)),
        forall|t: &T, b: bool| pred.ensures((t,), b) ==> b == p(*t),
    ensures
        b == exists|j: int| 0 <= j < v@.len() && p(#[trigger] v@[j]),
{
    match position(v, pred, Ghost(p)) {
        Some(i) => {
            assert(p(v@[i as int]));
            true
        },
        None => false,
    }
}

/// How many elements of `s` satisfy `p`.
pub open spec fn count_where<T>(s: Seq<T>, p: spec_fn(T) -> bool) -> nat {
    s.filter(p).len()
}

/// How many elements of `v` satisfy `pred`.
pub fn count_vec<T, F: Fn(&T) -> bool>(v: &Vec<T>, pred: F, Ghost(p): Ghost<spec_fn(T) -> bool>) -> (n:
    usize)
    requires
        forall|t: &T| #[trigger] pred.requires((t,)),
        forall|t: &T, b: bool| pred.ensures((t,), b) ==> b == p(*t),
    ensures
        n == count_where(v@, p),
{
    let mut n: usize = 0;
    let mut i: usize = 0;
    while i < v.len()
        invariant
            forall|t: &T| #[trigger] pred.requires((t,)),
            forall|t: &T, b: bool| pred.ensures((t,), b) ==> b == p(*t),
            i <= v@.len(),
            n == v@.take(i as int).filter(p).len(),
            n <= i,
        decreases v@.len() - i,
    {
        proof {
            assert(v@.take(i + 1) == v@.take(i as int).push(v@[i as int]));
            v@.take(i as int).lemma_filter_push(v@[i as int], p);
        }
        if pred(&v[i]) {
            n = n + 1;
        }
        i = i + 1;
    }
    proof {
        assert(v@.take(v@.len() as int) == v@);
    }
    n
}

/// Something that carries a time (Unix seconds) it is ordered by.
pub trait Timed {
    spec fn time_of(&self) -> i64;

    fn time(&self) -> (t: i64)
        ensures
            t == self.time_of(),
    ;
}

/// `x` placed into `s` just after every leading element that is not later
/// than it — the one step of a stable insertion sort.
pub open spec fn insert_by_time<T: Timed>(s: Seq<T>, x: T) -> Seq<T>
    decreases s.len(),
{
    if s.len() == 0 {
        seq![x]
    } else if s[0].time_of() > x.time_of() {
        seq![x] + s
    } else {
        seq![s[0]] + insert_by_time(s.drop_first(), x)
    }
}

/// `s` ordered oldest first; elements with equal times keep their order.
pub open spec fn sort_by_time<T: Timed>(s: Seq<T>) -> Seq<T>
    decreases s.len(),
{
    if s.len() == 0 {
        s
    } else {
        insert_by_time(sort_by_time(s.drop_last()), s.last())
    }
}

/// Whether `s` is ordered oldest first.
pub open spec fn is_sorted_by_time<T: Timed>(s: Seq<T>) -> bool {
    forall|i: int, j: int| 0 <= i < j < s.len() ==> #[trigger] s[i].time_of() <= #[trigger] s[j].time_of()
}

proof fn lemma_insert_at<T: Timed>(s: Seq<T>, x: T, p: int)
    requires
        0 <= p <= s.len(),
        forall|j: int| 0 <= j < p ==> #[trigger] s[j].time_of() <= x.time_of(),
        p == s.len() || s[p].time_of() > x.time_of(),
    ensures
        insert_by_time(s, x) == s.insert(p, x),
    decreases s.len(),
{
    if s.len() == 0 {
        assert(s.insert(p, x) =~= seq![x]);
    } else if p == 0 {
        assert(s.insert(0, x) =~= seq![x] + s);
    } else {
        let t = s.drop_first();
        assert forall|j: int| 0 <= j < p - 1 implies #[trigger] t[j].time_of() <= x.time_of() by {
            assert(t[j] == s[j + 1]);
        }
        if p < s.len() {
            assert(t[p - 1] == s[p]);
        }
        lemma_insert_at(t, x, p - 1);
        assert(seq![s[0]] + t.insert(p - 1, x) =~= s.insert(p, x));
    }
}

/// Inserting into an ordered sequence keeps it ordered.
pub proof fn lemma_insert_sorted<T: Timed>(s: Seq<T>, x: T)
    requires
        is_sorted_by_time(s),
    ensures
        is_sorted_by_time(insert_by_time(s, x)),
        insert_by_time(s, x).to_multiset() == s.to_multiset().insert(x),
        insert_by_time(s, x).len() == s.len() + 1,
    decreases s.len(),
{
    if s.len() == 0 {
        assert(seq![x].to_multiset() =~= s.to_multiset().insert(x)) by {
            assert(seq![x] == s.push(x));
        }
    } else if s[0].time_of() > x.time_of() {
        let r = seq![x] + s;
        assert forall|i: int, j: int| 0 <= i < j < r.len() implies #[trigger] r[i].time_of()
            <= #[trigger] r[j].time_of() by {
            if i > 0 {
                assert(r[i] == s[i - 1] && r[j] == s[j - 1]);
            } else {
                assert(r[j] == s[j - 1]);
                if j - 1 > 0 {
                    assert(s[0].time_of() <= s[j - 1].time_of());
                }
            }
        }
        vstd::seq_lib::lemma_multiset_commutative(seq![x], s);
        assert(seq![x].to_multiset() =~= Multiset::empty().insert(x)) by {
            assert(seq![x] == Seq::<T>::empty().push(x));
        }
    } else {
        let t = s.drop_first();
        assert(is_sorted_by_time(t)) by {
            assert forall|i: int, j: int| 0 <= i < j < t.len() implies #[trigger] t[i].time_of()
                <= #[trigger] t[j].time_of() by {
                assert(t[i] == s[i + 1] && t[j] == s[j + 1]);
            }
        }
        lemma_insert_sorted(t, x);
        let it = insert_by_time(t, x);
        let r = seq![s[0]] + it;
        assert forall|i: int, j: int| 0 <= i < j < r.len() implies #[trigger] r[i].time_of()
            <= #[trigger] r[j].time_of() by {
            if i > 0 {
                assert(r[i] == it[i - 1] && r[j] == it[j - 1]);
            } else {
                assert(r[j] == it[j - 1]);
                // it[j - 1] is either x or some element of t, all of which are not earlier than s[0]
                assert(it.to_multiset().count(it[j - 1]) > 0);
                if it[j - 1] != x {
                    assert(t.to_multiset().count(it[j - 1]) > 0);
                    let k = choose|k: int| 0 <= k < t.len() && t[k] == it[j - 1];
                    assert(t[k] == s[k + 1]);
                }
            }
        }
        vstd::seq_lib::lemma_multiset_commutative(seq![s[0]], it);
        vstd::seq_lib::lemma_multiset_commutative(seq![s[0]], t);
        assert(seq![s[0]] + t =~= s);
    }
}

/// An ordered, element-for-element rearrangement of its input.
pub proof fn lemma_sort_by_time<T: Timed>(s: Seq<T>)
    ensures
        is_sorted_by_time(sort_by_time(s)),
        sort_by_time(s).to_multiset() == s.to_multiset(),
        sort_by_time(s).len() == s.len(),
    decreases s.len(),
{
    if s.len() > 0 {
        lemma_sort_by_time(s.drop_last());
        lemma_insert_sorted(sort_by_time(s.drop_last()), s.last());
        assert(s.drop_last().push(s.last()) == s);
    }
}

/// `v` ordered oldest first, keeping the order of elements with equal times.
pub fn sort_vec_by_time<T: Timed>(v: Vec<T>) -> (out: Vec<T>)
    ensures
        out@ == sort_by_time(v@),
{
    let ghost s = v@;
    let mut out: Vec<T> = Vec::new();
    let mut rest = v;
    while rest.len() > 0
        invariant
            rest@.len() <= s.len(),
            rest@ == s.skip(s.len() - rest@.len()),
            out@ == sort_by_time(s.take(s.len() - rest@.len())),
        decreases rest@.len(),
    {
        let ghost k = s.len() - rest@.len();
        let x = rest.remove(0);
        proof {
            assert(x == s[k]);
            assert(rest@ == s.skip(k + 1));
            lemma_sort_by_time(s.take(k));
        }
        let tx = x.time();
        let mut p: usize = 0;
        while p < out.len() && out[p].time() <= tx
            invariant
                p <= out@.len(),
                tx == x.time_of(),
                forall|j: int| 0 <= j < p ==> #[trigger] out@[j].time_of() <= x.time_of(),
            decreases out@.len() - p,
        {
            p = p + 1;
        }
        proof {
            lemma_insert_at(out@, x, p as int);
            let t = s.take(k + 1);
            assert(t.drop_last() == s.take(k));
            assert(t.last() == x);
        }
        out.insert(p, x);
    }
    proof {
        assert(s.take(s.len() as int) == s);
    }
    out
}

} // verus!
