//! Ordered collections keyed by names: keys stay unique and keep the order
//! in which they were first inserted.
use vstd::prelude::*;

verus! {

/// The position of the first entry of `m` whose key is `k`.
pub open spec fn key_index<V>(m: Seq<(Seq<char>, V)>, k: Seq<char>) -> Option<nat>
    decreases m.len(),
{
    if m.len() == 0 {
        None
    } else {
        match key_index(m.drop_last(), k) {
            Some(i) => Some(i),
            None => if m.last().0 == k {
                Some((m.len() - 1) as nat)
            } else {
                None
            },
        }
    }
}

/// `m` with `k` bound to `v`: an existing entry keeps its place and takes
/// the new value, a new key goes last.
pub open spec fn insert_row<V>(m: Seq<(Seq<char>, V)>, k: Seq<char>, v: V) -> Seq<(Seq<char>, V)> {
    match key_index(m, k) {
        Some(i) => m.update(i as int, (k, v)),
        None => m.push((k, v)),
    }
}

/// No key occurs twice.
pub open spec fn unique_keys<V>(m: Seq<(Seq<char>, V)>) -> bool {
    forall|i: int, j: int| 0 <= i < j < m.len() ==> m[i].0 != m[j].0
}

/// The entries of `m` with their keys as character sequences.
pub open spec fn entries<V>(m: Seq<(String, V)>) -> Seq<(Seq<char>, V)> {
    m.map_values(|e: (String, V)| (e.0@, e.1))
}

pub proof fn lemma_key_index<V>(m: Seq<(Seq<char>, V)>, k: Seq<char>)
    ensures
        match key_index(m, k) {
            Some(i) => i < m.len() && m[i as int].0 == k && forall|j: int|
                0 <= j < i ==> m[j].0 != k,
            None => forall|j: int| 0 <= j < m.len() ==> m[j].0 != k,
        },
    decreases m.len(),
{
    if m.len() > 0 {
        let t = m.drop_last();
        lemma_key_index(t, k);
        assert(forall|j: int| 0 <= j < t.len() ==> t[j] == m[j]);
    }
}

/// Inserting keeps keys unique.
pub proof fn lemma_insert_unique<V>(m: Seq<(Seq<char>, V)>, k: Seq<char>, v: V)
    requires
        unique_keys(m),
    ensures
        unique_keys(insert_row(m, k, v)),
{
    lemma_key_index(m, k);
}

/// Mapping the values leaves key positions alone.
pub proof fn lemma_key_index_map<V, W>(m: Seq<(Seq<char>, V)>, k: Seq<char>, f: spec_fn(V) -> W)
    ensures
        key_index(m.map_values(|e: (Seq<char>, V)| (e.0, f(e.1))), k) == key_index(m, k),
    decreases m.len(),
{
    let g = |e: (Seq<char>, V)| (e.0, f(e.1));
    if m.len() > 0 {
        lemma_key_index_map(m.drop_last(), k, f);
        assert(m.map_values(g).drop_last() =~= m.drop_last().map_values(g));
    }
}

/// Mapping the values commutes with insertion.
pub proof fn lemma_insert_map<V, W>(
    m: Seq<(Seq<char>, V)>,
    k: Seq<char>,
    v: V,
    f: spec_fn(V) -> W,
)
    ensures
        insert_row(m, k, v).map_values(|e: (Seq<char>, V)| (e.0, f(e.1))) == insert_row(
            m.map_values(|e: (Seq<char>, V)| (e.0, f(e.1))),
            k,
            f(v),
        ),
{
    let g = |e: (Seq<char>, V)| (e.0, f(e.1));
    lemma_key_index_map(m, k, f);
    lemma_key_index(m, k);
    assert(insert_row(m, k, v).map_values(g) =~= insert_row(m.map_values(g), k, f(v)));
}

/// The position of the entry keyed `k`, if any.
pub fn find_key<V>(m: &Vec<(String, V)>, k: &String) -> (r: Option<usize>)
    ensures
        match r {
            Some(i) => key_index(entries(m@), k@) == Some(i as nat),
            None => key_index(entries(m@), k@) is None,
        },
{
    let mut r: Option<usize> = None;
    let mut i: usize = 0;
    while i < m.len()
        invariant
            i <= m@.len(),
            match r {
                Some(j) => key_index(entries(m@.take(i as int)), k@) == Some(j as nat),
                None => key_index(entries(m@.take(i as int)), k@) is None,
            },
        decreases m.len() - i,
    {
        assert(entries(m@.take(i + 1)).drop_last() =~= entries(m@.take(i as int)));
        if r.is_none() && m[i].0 == *k {
            r = Some(i);
        }
        i = i + 1;
    }
    assert(m@.take(i as int) == m@);
    r
}

/// Binds `k` to `v` in `m`.
pub fn insert_keyed<V>(m: &mut Vec<(String, V)>, k: String, v: V)
    ensures
        entries(final(m)@) == insert_row(entries(old(m)@), k@, v),
{
    let ghost kv = k@;
    proof {
        lemma_key_index(entries(m@), kv);
    }
    match find_key(m, &k) {
        Some(i) => {
            m.set(i, (k, v));
            assert(entries(m@) =~= insert_row(entries(old(m)@), kv, v));
        },
        None => {
            m.push((k, v));
            assert(entries(m@) =~= insert_row(entries(old(m)@), kv, v));
        },
    }
}

} // verus!
