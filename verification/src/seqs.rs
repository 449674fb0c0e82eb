//! Generic sequence utilities: first matching index and stable sorting by
//! an integer key.
use vstd::prelude::*;

verus! {

/// The first index of `s` whose element satisfies `p`.
pub open spec fn first_where<A>(s: Seq<A>, p: spec_fn(A) -> bool) -> Option<int>
    decreases s.len(),
{
    if s.len() == 0 {
        None
    } else if p(s[0]) {
        Some(0)
    } else {
        match first_where(s.drop_first(), p) {
            Some(i) => Some(i + 1),
            None => None,
        }
    }
}

/// `first_where` is the least index that satisfies `p`.
pub proof fn lemma_first_where<A>(s: Seq<A>, p: spec_fn(A) -> bool, k: int)
    requires
        0 <= k <= s.len(),
        forall|j: int| 0 <= j < k ==> !p(#[trigger] s[j]),
    ensures
        k < s.len() && p(s[k]) ==> first_where(s, p) == Some(k),
        k == s.len() ==> first_where(s, p) is None,
    decreases k,
{
    if k > 0 {
        assert forall|j: int| 0 <= j < k - 1 implies !p(#[trigger] s.drop_first()[j]) by {
            assert(s.drop_first()[j] == s[j + 1]);
        }
        lemma_first_where(s.drop_first(), p, k - 1);
        if k < s.len() {
            assert(s.drop_first()[k - 1] == s[k]);
        }
    } else if s.len() == 0 {
    }
}

/// A found index is in range and satisfies the predicate, and no earlier
/// index does.
pub proof fn lemma_first_where_some<A>(s: Seq<A>, p: spec_fn(A) -> bool)
    ensures
        first_where(s, p) matches Some(k) ==> 0 <= k < s.len() && p(s[k]) && forall|j: int| 0 <= j < k ==> !p(#[trigger] s[j]),
        first_where(s, p) is None ==> forall|j: int| 0 <= j < s.len() ==> !p(#[trigger] s[j]),
    decreases s.len(),
{
    if s.len() > 0 {
        lemma_first_where_some(s.drop_first(), p);
        assert forall|j: int| 1 <= j < s.len() implies s[j] == s.drop_first()[j - 1] by {}
    }
}

/// Inserts `x` into the key-sorted `s` after every element whose key is not
/// greater than its own.
pub open spec fn insert_by_key<T>(s: Seq<(u32, T)>, x: (u32, T)) -> Seq<(u32, T)> {
    let pos = match first_where(s, |e: (u32, T)| e.0 > x.0) {
        Some(k) => k,
        None => s.len() as int,
    };
    s.insert(pos, x)
}

/// The stable sort of `s` by the first component of its elements.
pub open spec fn stable_sort<T>(s: Seq<(u32, T)>) -> Seq<(u32, T)>
    decreases s.len(),
{
    if s.len() == 0 {
        Seq::empty()
    } else {
        insert_by_key(stable_sort(s.drop_last()), s.last())
    }
}

/// Sorts `v` by the first component of its elements, keeping the order of
/// elements with equal keys.
pub fn stable_sort_by_key<T>(v: Vec<(u32, T)>) -> (r: Vec<(u32, T)>)
    ensures
        r@ == stable_sort(v@),
{
    let ghost orig = v@;
    let n = v.len();
    let mut src = v;
    let mut out: Vec<(u32, T)> = Vec::new();
    let mut k: usize = 0;
    assert(orig.take(0) == Seq::<(u32, T)>::empty());
    assert(orig.skip(0) == orig);
    while src.len() > 0
        invariant
            k <= orig.len(),
            src@ == orig.skip(k as int),
            src@.len() + k == orig.len(),
            orig.len() == n,
            out@ == stable_sort(orig.take(k as int)),
        decreases src.len(),
    {
        let x = src.remove(0);
        assert(x == orig[k as int]);
        assert(src@ == orig.skip(k + 1));
        let ghost p = |e: (u32, T)| e.0 > x.0;
        let mut pos: usize = 0;
        while pos < out.len() && out[pos].0 <= x.0
            invariant
                pos <= out@.len(),
                forall|j: int| 0 <= j < pos ==> (#[trigger] out@[j]).0 <= x.0,
            decreases out.len() - pos,
        {
            pos = pos + 1;
        }
        proof {
            assert forall|j: int| 0 <= j < pos implies !p(#[trigger] out@[j]) by {
                assert(out@[j].0 <= x.0);
            }
            if pos < out@.len() {
                assert(p(out@[pos as int]));
            }
            lemma_first_where(out@, p, pos as int);
            assert(orig.take(k + 1).drop_last() == orig.take(k as int));
        }
        out.insert(pos, x);
        k = k + 1;
    }
    assert(orig.take(k as int) == orig);
    out
}


/// Applies `g` to the second component of each element.
pub open spec fn map_second<T, U>(s: Seq<(u32, T)>, g: spec_fn(T) -> U) -> Seq<(u32, U)> {
    s.map_values(|e: (u32, T)| (e.0, g(e.1)))
}

proof fn lemma_first_greater_mapped<T, U>(s: Seq<(u32, T)>, g: spec_fn(T) -> U, k: u32)
    ensures
        first_where(map_second(s, g), |e: (u32, U)| e.0 > k) == first_where(s, |e: (u32, T)| e.0 > k),
    decreases s.len(),
{
    if s.len() > 0 {
        assert(map_second(s, g).drop_first() == map_second(s.drop_first(), g));
        lemma_first_greater_mapped(s.drop_first(), g, k);
    }
}

/// Sorting by key commutes with changing the payloads.
pub proof fn lemma_stable_sort_map_second<T, U>(s: Seq<(u32, T)>, g: spec_fn(T) -> U)
    ensures
        map_second(stable_sort(s), g) == stable_sort(map_second(s, g)),
    decreases s.len(),
{
    if s.len() > 0 {
        lemma_stable_sort_map_second(s.drop_last(), g);
        let sorted = stable_sort(s.drop_last());
        let x = s.last();
        assert(map_second(s, g).drop_last() == map_second(s.drop_last(), g));
        assert(map_second(s, g).last() == (x.0, g(x.1)));
        lemma_first_greater_mapped(sorted, g, x.0);
        let pos = match first_where(sorted, |e: (u32, T)| e.0 > x.0) {
            Some(k) => k,
            None => sorted.len() as int,
        };
        lemma_first_where_some(sorted, |e: (u32, T)| e.0 > x.0);
        assert(0 <= pos <= sorted.len());
        assert(map_second(sorted.insert(pos, x), g) =~= map_second(sorted, g).insert(pos, (x.0, g(x.1))));
    }
}


/// Sorting keeps the elements: the sorted sequence is as long as the
/// original and holds exactly its elements.
pub proof fn lemma_stable_sort_elements<T>(s: Seq<(u32, T)>)
    ensures
        stable_sort(s).len() == s.len(),
        forall|x: (u32, T)| #[trigger] stable_sort(s).contains(x) <==> s.contains(x),
    decreases s.len(),
{
    if s.len() > 0 {
        let rest = s.drop_last();
        lemma_stable_sort_elements(rest);
        let sorted = stable_sort(rest);
        let x = s.last();
        let p = |e: (u32, T)| e.0 > x.0;
        lemma_first_where_some(sorted, p);
        let pos = match first_where(sorted, p) {
            Some(k) => k,
            None => sorted.len() as int,
        };
        let ins = sorted.insert(pos, x);
        assert(stable_sort(s) == ins);
        assert forall|y: (u32, T)| #[trigger] ins.contains(y) <==> s.contains(y) by {
            if ins.contains(y) {
                let i = choose|i: int| 0 <= i < ins.len() && ins[i] == y;
                if i < pos {
                    assert(sorted[i] == y);
                    assert(sorted.contains(y));
                    let j = choose|j: int| 0 <= j < rest.len() && rest[j] == y;
                    assert(s[j] == y);
                } else if i == pos {
                    assert(s[s.len() - 1] == y);
                } else {
                    assert(sorted[i - 1] == y);
                    assert(sorted.contains(y));
                    let j = choose|j: int| 0 <= j < rest.len() && rest[j] == y;
                    assert(s[j] == y);
                }
            }
            if s.contains(y) {
                let j = choose|j: int| 0 <= j < s.len() && s[j] == y;
                if j == s.len() - 1 {
                    assert(ins[pos] == y);
                } else {
                    assert(rest[j] == y);
                    assert(rest.contains(y));
                    assert(sorted.contains(y));
                    let i = choose|i: int| 0 <= i < sorted.len() && sorted[i] == y;
                    if i < pos {
                        assert(ins[i] == y);
                    } else {
                        assert(ins[i + 1] == y);
                    }
                }
            }
        }
    }
}

} // verus!
