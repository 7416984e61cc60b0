//! Laws that relate building, merging and reading documents.
use vstd::prelude::*;

use crate::document::{
    build, conflicts, find_key, is_first_key, is_path, lemma_find_key, lemma_find_key_push,
    lemma_find_key_update, lemma_first_unique, lemma_wf_entries, lookup, merged, unique_keys, wf,
    Doc,
};

verus! {

/// `a` is a prefix of `b` (possibly all of it).
pub open spec fn is_prefix(a: Seq<Seq<char>>, b: Seq<Seq<char>>) -> bool {
    a.len() <= b.len() && b.subrange(0, a.len() as int) == a
}

proof fn lemma_build_merge_fixed(p: Seq<Seq<char>>, v: Seq<char>)
    ensures
        merged(build(p, v), p, v) == build(p, v),
        !conflicts(build(p, v), p),
    decreases p.len(),
{
    if p.len() > 0 {
        let es = seq![(p[0], build(p.drop_first(), v))];
        assert(is_first_key(es, p[0], 0));
        lemma_first_unique(es, p[0], 0);
        lemma_build_merge_fixed(p.drop_first(), v);
        assert(es.update(0, (p[0], build(p.drop_first(), v))) =~= es);
    }
}

/// Reading back the path of a freshly built document gives the value that
/// was stored there.
pub proof fn lemma_build_read_back(p: Seq<Seq<char>>, v: Seq<char>)
    requires
        is_path(p),
    ensures
        lookup(build(p, v), p) == Some(Doc::Leaf(v)),
{
    lemma_build_lookup(p, v);
}

proof fn lemma_build_lookup(p: Seq<Seq<char>>, v: Seq<char>)
    ensures
        lookup(build(p, v), p) == Some(Doc::Leaf(v)),
    decreases p.len(),
{
    if p.len() > 0 {
        let es = seq![(p[0], build(p.drop_first(), v))];
        assert(is_first_key(es, p[0], 0));
        lemma_first_unique(es, p[0], 0);
        lemma_build_lookup(p.drop_first(), v);
    }
}

/// Writing the same value at the same path twice gives the same document as
/// writing it once, and the second write conflicts exactly when the first did.
pub proof fn lemma_merge_idempotent(d: Doc, p: Seq<Seq<char>>, v: Seq<char>)
    requires
        is_path(p),
    ensures
        merged(merged(d, p, v), p, v) == merged(d, p, v),
        conflicts(merged(d, p, v), p) == conflicts(d, p),
{
    lemma_merge_twice(d, p, v);
}

proof fn lemma_merge_twice(d: Doc, p: Seq<Seq<char>>, v: Seq<char>)
    ensures
        merged(merged(d, p, v), p, v) == merged(d, p, v),
        p.len() > 0 ==> conflicts(merged(d, p, v), p) == conflicts(d, p),
    decreases p.len(),
{
    if p.len() > 0 {
        if let Doc::Branch(es) = d {
            let rest = p.drop_first();
            match find_key(es, p[0]) {
                Some(i) => {
                    lemma_find_key(es, p[0]);
                    let c = es[i].1;
                    lemma_merge_twice(c, rest, v);
                    let es1 = es.update(i, (p[0], merged(c, rest, v)));
                    lemma_find_key_update(es, i, merged(c, rest, v), p[0]);
                    assert(es1.update(i, (p[0], merged(merged(c, rest, v), rest, v))) =~= es1);
                    if rest.len() == 0 {
                        assert(!conflicts(c, rest));
                        assert(!conflicts(merged(c, rest, v), rest));
                    }
                },
                None => {
                    let e = (p[0], build(rest, v));
                    let es1 = es.push(e);
                    lemma_find_key_push(es, e, p[0]);
                    lemma_build_merge_fixed(rest, v);
                    assert(es1.update(es.len() as int, (p[0], merged(build(rest, v), rest, v)))
                        =~= es1);
                },
            }
        }
    }
}

proof fn lemma_lookup_build_apart(p: Seq<Seq<char>>, q: Seq<Seq<char>>, v: Seq<char>)
    requires
        !is_prefix(p, q),
        !is_prefix(q, p),
    ensures
        lookup(build(p, v), q) is None,
    decreases p.len(),
{
    assert(q.len() > 0) by {
        if q.len() == 0 {
            assert(p.subrange(0, 0) =~= q);
        }
    }
    assert(p.len() > 0) by {
        if p.len() == 0 {
            assert(q.subrange(0, 0) =~= p);
        }
    }
    let es = seq![(p[0], build(p.drop_first(), v))];
    if q[0] == p[0] {
        assert(is_first_key(es, p[0], 0));
        lemma_first_unique(es, p[0], 0);
        lemma_prefix_tail(p, q);
        lemma_lookup_build_apart(p.drop_first(), q.drop_first(), v);
    } else {
        lemma_find_key(es, q[0]);
    }
}

proof fn lemma_prefix_tail(p: Seq<Seq<char>>, q: Seq<Seq<char>>)
    requires
        p.len() > 0,
        q.len() > 0,
        p[0] == q[0],
    ensures
        is_prefix(p.drop_first(), q.drop_first()) == is_prefix(p, q),
        is_prefix(q.drop_first(), p.drop_first()) == is_prefix(q, p),
{
    if is_prefix(p.drop_first(), q.drop_first()) {
        assert forall|j: int| 0 <= j < p.len() implies q[j] == p[j] by {
            if j > 0 {
                assert(q.drop_first().subrange(0, p.len() - 1)[j - 1] == p.drop_first()[j - 1]);
            }
        }
        assert(q.subrange(0, p.len() as int) =~= p);
    }
    if is_prefix(p, q) {
        assert(q.drop_first().subrange(0, p.len() - 1) =~= p.drop_first());
    }
    if is_prefix(q.drop_first(), p.drop_first()) {
        assert forall|j: int| 0 <= j < q.len() implies p[j] == q[j] by {
            if j > 0 {
                assert(p.drop_first().subrange(0, q.len() - 1)[j - 1] == q.drop_first()[j - 1]);
            }
        }
        assert(p.subrange(0, q.len() as int) =~= q);
    }
    if is_prefix(q, p) {
        assert(p.drop_first().subrange(0, q.len() - 1) =~= q.drop_first());
    }
}

/// Writing at `p` leaves everything at a path `q` that neither extends nor
/// is extended by `p` as it was.
pub proof fn lemma_merge_non_interference(
    d: Doc,
    p: Seq<Seq<char>>,
    q: Seq<Seq<char>>,
    v: Seq<char>,
)
    requires
        !is_prefix(p, q),
        !is_prefix(q, p),
    ensures
        lookup(merged(d, p, v), q) == lookup(d, q),
    decreases p.len(),
{
    assert(q.len() > 0) by {
        if q.len() == 0 {
            assert(p.subrange(0, 0) =~= q);
        }
    }
    assert(p.len() > 0) by {
        if p.len() == 0 {
            assert(q.subrange(0, 0) =~= p);
        }
    }
    if let Doc::Branch(es) = d {
        let rest = p.drop_first();
        lemma_find_key(es, q[0]);
        match find_key(es, p[0]) {
            Some(i) => {
                lemma_find_key(es, p[0]);
                let es1 = es.update(i, (p[0], merged(es[i].1, rest, v)));
                lemma_find_key_update(es, i, merged(es[i].1, rest, v), q[0]);
                if q[0] == p[0] {
                    lemma_prefix_tail(p, q);
                    lemma_merge_non_interference(es[i].1, rest, q.drop_first(), v);
                }
            },
            None => {
                let e = (p[0], build(rest, v));
                lemma_find_key_push(es, e, q[0]);
                if q[0] == p[0] {
                    lemma_prefix_tail(p, q);
                    lemma_lookup_build_apart(rest, q.drop_first(), v);
                }
            },
        }
    }
}

/// A path one of whose proper prefixes leads to a leaf conflicts, so that
/// `merge_into` refuses it and keeps the document as it was.
pub proof fn lemma_leaf_prefix_conflicts(d: Doc, p: Seq<Seq<char>>, k: int)
    requires
        is_path(p),
        0 <= k < p.len(),
        lookup(d, p.subrange(0, k)) matches Some(Doc::Leaf(_)),
    ensures
        conflicts(d, p),
{
    lemma_leaf_prefix(d, p, k);
}

proof fn lemma_leaf_prefix(d: Doc, p: Seq<Seq<char>>, k: int)
    requires
        0 <= k < p.len(),
        lookup(d, p.subrange(0, k)) matches Some(Doc::Leaf(_)),
    ensures
        conflicts(d, p),
    decreases k,
{
    if k > 0 {
        let pre = p.subrange(0, k);
        assert(pre[0] == p[0]);
        assert(pre.drop_first() =~= p.drop_first().subrange(0, k - 1));
        if let Doc::Branch(es) = d {
            if let Some(i) = find_key(es, p[0]) {
                lemma_leaf_prefix(es[i].1, p.drop_first(), k - 1);
            }
        }
    }
}


/// A conflicting path has a proper prefix that leads to a leaf, so that a
/// conflict is never reported without one.
pub proof fn lemma_conflict_has_leaf_prefix(d: Doc, p: Seq<Seq<char>>) -> (k: int)
    requires
        conflicts(d, p),
    ensures
        0 <= k < p.len(),
        lookup(d, p.subrange(0, k)) matches Some(Doc::Leaf(_)),
    decreases p.len(),
{
    match d {
        Doc::Leaf(_) => {
            assert(p.subrange(0, 0) =~= Seq::<Seq<char>>::empty());
            0
        },
        Doc::Branch(es) => {
            let i = find_key(es, p[0])->0;
            let k1 = lemma_conflict_has_leaf_prefix(es[i].1, p.drop_first());
            let pre = p.subrange(0, k1 + 1);
            assert(pre.drop_first() =~= p.drop_first().subrange(0, k1));
            k1 + 1
        },
    }
}

/// A freshly built document is well formed.
pub proof fn lemma_build_wf(p: Seq<Seq<char>>, v: Seq<char>)
    ensures
        wf(build(p, v)),
    decreases p.len(),
{
    if p.len() > 0 {
        lemma_build_wf(p.drop_first(), v);
        let es = seq![(p[0], build(p.drop_first(), v))];
        lemma_wf_entries(es);
    }
}

/// Writing into a well-formed document keeps it well formed.
pub proof fn lemma_merge_wf(d: Doc, p: Seq<Seq<char>>, v: Seq<char>)
    requires
        wf(d),
    ensures
        wf(merged(d, p, v)),
    decreases p.len(),
{
    if p.len() > 0 {
        if let Doc::Branch(es) = d {
            lemma_wf_entries(es);
            let rest = p.drop_first();
            match find_key(es, p[0]) {
                Some(i) => {
                    lemma_find_key(es, p[0]);
                    lemma_merge_wf(es[i].1, rest, v);
                    let es1 = es.update(i, (p[0], merged(es[i].1, rest, v)));
                    lemma_wf_entries(es1);
                    assert(unique_keys(es1));
                },
                None => {
                    lemma_find_key(es, p[0]);
                    lemma_build_wf(rest, v);
                    let es1 = es.push((p[0], build(rest, v)));
                    lemma_wf_entries(es1);
                    assert(unique_keys(es1));
                },
            }
        }
    }
}

} // verus!
