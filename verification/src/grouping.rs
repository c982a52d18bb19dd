//! Grouping by key in first-seen order, as the chart layouts do with series
//! names, category labels and graph nodes.

use vstd::prelude::*;

verus! {

/// The distinct elements of `xs`, each at the place where it first occurs.
pub open spec fn distinct_in_order<A>(xs: Seq<A>) -> Seq<A>
    decreases xs.len(),
{
    if xs.len() == 0 {
        Seq::empty()
    } else {
        let d = distinct_in_order(xs.drop_last());
        if d.contains(xs.last()) {
            d
        } else {
            d.push(xs.last())
        }
    }
}

/// The text of each string.
pub open spec fn texts(v: Seq<String>) -> Seq<Seq<char>> {
    v.map_values(|s: String| s@)
}

/// The place of `x` in `xs` (meaningful when `x` occurs once).
pub open spec fn index_in<A>(xs: Seq<A>, x: A) -> int {
    choose|i: int| 0 <= i < xs.len() && xs[i] == x
}

/// What `distinct_in_order` keeps: no element twice, and exactly the elements
/// of the input.
pub proof fn lemma_distinct_in_order<A>(xs: Seq<A>)
    ensures
        distinct_in_order(xs).no_duplicates(),
        forall|x: A| distinct_in_order(xs).contains(x) <==> xs.contains(x),
    decreases xs.len(),
{
    if xs.len() > 0 {
        let p = xs.drop_last();
        lemma_distinct_in_order(p);
        let d = distinct_in_order(p);
        assert forall|x: A| distinct_in_order(xs).contains(x) <==> xs.contains(x) by {
            if p.contains(x) {
                let i = choose|i: int| 0 <= i < p.len() && p[i] == x;
                assert(xs[i] == x);
            }
            if xs.contains(x) && x != xs.last() {
                let i = choose|i: int| 0 <= i < xs.len() && xs[i] == x;
                assert(p[i] == x);
            }
            if !d.contains(xs.last()) {
                let e = d.push(xs.last());
                if d.contains(x) {
                    let i = choose|i: int| 0 <= i < d.len() && d[i] == x;
                    assert(e[i] == x);
                }
                if e.contains(x) && x != xs.last() {
                    let i = choose|i: int| 0 <= i < e.len() && e[i] == x;
                    assert(d[i] == x);
                }
                assert(e[d.len() as int] == xs.last());
            } else {
                assert(xs[xs.len() - 1] == xs.last());
            }
        }
        if !d.contains(xs.last()) {
            let e = d.push(xs.last());
            assert forall|i: int, j: int| 0 <= i < e.len() && 0 <= j < e.len() && i != j implies e[i] != e[j] by {
                if i == d.len() {
                    assert(d[j] == e[j]);
                } else if j == d.len() {
                    assert(d[i] == e[i]);
                }
            }
        }
    }
}

/// In a sequence without duplicates, an element's place is where it stands.
pub proof fn lemma_index_in_unique<A>(xs: Seq<A>, i: int)
    requires
        xs.no_duplicates(),
        0 <= i < xs.len(),
    ensures
        index_in(xs, xs[i]) == i,
{
    let j = index_in(xs, xs[i]);
    assert(0 <= j < xs.len() && xs[j] == xs[i]);
}

/// Extending the input by one element that is already present keeps the
/// result; a new element is appended.
proof fn lemma_distinct_step<A>(xs: Seq<A>, k: int)
    requires
        0 <= k < xs.len(),
    ensures
        distinct_in_order(xs.take(k + 1)) == (if distinct_in_order(xs.take(k)).contains(xs[k]) {
            distinct_in_order(xs.take(k))
        } else {
            distinct_in_order(xs.take(k)).push(xs[k])
        }),
{
    assert(xs.take(k + 1).drop_last() == xs.take(k));
    assert(xs.take(k + 1).last() == xs[k]);
}

/// The first place where a string with the text of `name` stands in `names`.
pub fn position_of_text(names: &Vec<String>, name: &String) -> (r: Option<usize>)
    ensures
        r is Some <==> texts(names@).contains(name@),
        r matches Some(i) ==> i < names@.len() && names@[i as int]@ == name@
            && forall|j: int| 0 <= j < i ==> names@[j]@ != name@,
{
    let mut i: usize = 0;
    while i < names.len()
        invariant
            i <= names@.len(),
            forall|j: int| 0 <= j < i ==> names@[j]@ != name@,
        decreases names@.len() - i,
    {
        if names[i] == *name {
            proof {
                assert(texts(names@)[i as int] == name@);
            }
            return Some(i);
        }
        i = i + 1;
    }
    proof {
        if texts(names@).contains(name@) {
            let j = choose|j: int| 0 <= j < texts(names@).len() && texts(names@)[j] == name@;
            assert(names@[j]@ == name@);
        }
    }
    None
}

/// Groups the keys by text in first-seen order: the distinct texts, each once
/// in the order it first occurs, and for each key the place of its text among
/// them.
pub fn group_first_seen(keys: &Vec<String>) -> (r: (Vec<String>, Vec<usize>))
    ensures
        texts(r.0@) == distinct_in_order(texts(keys@)),
        r.1@.len() == keys@.len(),
        forall|k: int| 0 <= k < keys@.len() ==> #[trigger] r.1@[k] < r.0@.len() && r.0@[r.1@[k] as int]@ == keys@[k]@,
{
    let mut labels: Vec<String> = Vec::new();
    let mut group: Vec<usize> = Vec::new();
    let mut k: usize = 0;
    while k < keys.len()
        invariant
            k <= keys@.len(),
            texts(labels@) == distinct_in_order(texts(keys@).take(k as int)),
            group@.len() == k,
            forall|q: int| 0 <= q < k ==> #[trigger] group@[q] < labels@.len() && labels@[group@[q] as int]@ == keys@[q]@,
        decreases keys@.len() - k,
    {
        proof {
            lemma_distinct_step(texts(keys@), k as int);
        }
        let key = &keys[k];
        match position_of_text(&labels, key) {
            Some(i) => {
                group.push(i);
            },
            None => {
                let ghost before = labels@;
                labels.push(key.clone());
                proof {
                    assert(texts(labels@) == texts(before).push(key@));
                }
                group.push(labels.len() - 1);
            },
        }
        k = k + 1;
    }
    proof {
        assert(texts(keys@).take(keys@.len() as int) == texts(keys@));
    }
    (labels, group)
}

/// The first place where `p` stands in `pairs`.
pub fn position_of_pair(pairs: &Vec<(usize, usize)>, p: (usize, usize)) -> (r: Option<usize>)
    ensures
        r is Some <==> pairs@.contains(p),
        r matches Some(i) ==> i < pairs@.len() && pairs@[i as int] == p && forall|j: int| 0 <= j < i ==> pairs@[j] != p,
{
    let mut i: usize = 0;
    while i < pairs.len()
        invariant
            i <= pairs@.len(),
            forall|j: int| 0 <= j < i ==> pairs@[j] != p,
        decreases pairs@.len() - i,
    {
        let q = pairs[i];
        if q.0 == p.0 && q.1 == p.1 {
            return Some(i);
        }
        i = i + 1;
    }
    None
}

/// Groups equal pairs in first-seen order: the distinct pairs, each once in
/// the order it first occurs, and for each input pair its place among them.
pub fn group_pairs_first_seen(pairs: &Vec<(usize, usize)>) -> (r: (Vec<(usize, usize)>, Vec<usize>))
    ensures
        r.0@ == distinct_in_order(pairs@),
        r.1@.len() == pairs@.len(),
        forall|k: int| 0 <= k < pairs@.len() ==> #[trigger] r.1@[k] < r.0@.len() && r.0@[r.1@[k] as int] == pairs@[k],
{
    let mut distinct: Vec<(usize, usize)> = Vec::new();
    let mut group: Vec<usize> = Vec::new();
    let mut k: usize = 0;
    while k < pairs.len()
        invariant
            k <= pairs@.len(),
            distinct@ == distinct_in_order(pairs@.take(k as int)),
            group@.len() == k,
            forall|q: int| 0 <= q < k ==> #[trigger] group@[q] < distinct@.len() && distinct@[group@[q] as int] == pairs@[q],
        decreases pairs@.len() - k,
    {
        proof {
            lemma_distinct_step(pairs@, k as int);
        }
        let p = pairs[k];
        match position_of_pair(&distinct, p) {
            Some(i) => {
                group.push(i);
            },
            None => {
                distinct.push(p);
                group.push(distinct.len() - 1);
            },
        }
        k = k + 1;
    }
    proof {
        assert(pairs@.take(pairs@.len() as int) == pairs@);
    }
    (distinct, group)
}

} // verus!
