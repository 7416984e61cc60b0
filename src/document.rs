use vstd::prelude::*;

use crate::error::DocError;
use crate::key_path::segments_view;

verus! {

/// The mathematical form of a document: a leaf holding the JSON text of a
/// value, or a branch of (segment, child) entries in insertion order.
pub enum Doc {
    Leaf(Seq<char>),
    Branch(Seq<(Seq<char>, Doc)>),
}

/// A node of a document tree.
pub enum DocNode {
    /// A value, held as its compact JSON text.
    Leaf(String),
    /// Named children, in insertion order.
    Branch(Vec<DocEntry>),
}

/// One named child of a branch.
pub struct DocEntry {
    pub key: String,
    pub node: DocNode,
}

impl DocNode {
    pub open spec fn view(&self) -> Doc
        decreases self,
    {
        match self {
            DocNode::Leaf(v) => Doc::Leaf(v@),
            DocNode::Branch(es) => Doc::Branch(view_entries(es@)),
        }
    }
}

pub open spec fn view_entries(es: Seq<DocEntry>) -> Seq<(Seq<char>, Doc)>
    decreases es,
{
    if es.len() == 0 {
        Seq::empty()
    } else {
        view_entries(es.drop_last()).push((es.last().key@, es.last().node.view()))
    }
}


pub(crate) proof fn lemma_view_entries(es: Seq<DocEntry>)
    ensures
        view_entries(es).len() == es.len(),
        forall|i: int|
            0 <= i < es.len() ==> #[trigger] view_entries(es)[i] == (es[i].key@, es[i].node@),
    decreases es.len(),
{
    if es.len() > 0 {
        lemma_view_entries(es.drop_last());
    }
}

/// `i` is the first index of `es` whose segment is `k`.
pub open spec fn is_first_key(es: Seq<(Seq<char>, Doc)>, k: Seq<char>, i: int) -> bool {
    &&& 0 <= i < es.len()
    &&& es[i].0 == k
    &&& forall|j: int| 0 <= j < i ==> es[j].0 != k
}

/// The index of the first entry whose segment is `k`, if any.
pub open spec fn find_key(es: Seq<(Seq<char>, Doc)>, k: Seq<char>) -> Option<int> {
    if exists|i: int| is_first_key(es, k, i) {
        Some(choose|i: int| is_first_key(es, k, i))
    } else {
        None
    }
}

/// No two entries of a branch share a segment.
pub open spec fn unique_keys(es: Seq<(Seq<char>, Doc)>) -> bool {
    forall|i: int, j: int| 0 <= i < j < es.len() ==> es[i].0 != es[j].0
}

/// Every branch of the document has unique segments.
pub open spec fn wf(d: Doc) -> bool
    decreases d,
{
    match d {
        Doc::Leaf(_) => true,
        Doc::Branch(es) => unique_keys(es) && wf_entries(es),
    }
}

/// Every child in `es` is well formed.
pub open spec fn wf_entries(es: Seq<(Seq<char>, Doc)>) -> bool
    decreases es,
{
    if es.len() == 0 {
        true
    } else {
        wf_entries(es.drop_last()) && wf(es.last().1)
    }
}

pub(crate) proof fn lemma_wf_entries(es: Seq<(Seq<char>, Doc)>)
    ensures
        wf_entries(es) <==> forall|i: int| 0 <= i < es.len() ==> #[trigger] wf(es[i].1),
    decreases es.len(),
{
    if es.len() > 0 {
        lemma_wf_entries(es.drop_last());
        if forall|i: int| 0 <= i < es.len() ==> #[trigger] wf(es[i].1) {
            assert forall|i: int| 0 <= i < es.len() - 1 implies #[trigger] wf(es.drop_last()[i].1) by {
                assert(es.drop_last()[i] == es[i]);
                assert(wf(es[i].1));
            }
            assert(wf(es[es.len() - 1].1));
            assert(wf_entries(es));
        }
        if wf_entries(es) {
            assert forall|i: int| 0 <= i < es.len() implies #[trigger] wf(es[i].1) by {
                if i < es.len() - 1 {
                    assert(es.drop_last()[i] == es[i]);
                }
            }
        }
    }
}

/// A key path that can address a leaf: at least one segment, none empty.
pub open spec fn is_path(p: Seq<Seq<char>>) -> bool {
    &&& p.len() > 0
    &&& forall|i: int| 0 <= i < p.len() ==> #[trigger] p[i].len() > 0
}

/// The node reached from `d` by following the segments of `p`, if any.
pub open spec fn lookup(d: Doc, p: Seq<Seq<char>>) -> Option<Doc>
    decreases p.len(),
{
    if p.len() == 0 {
        Some(d)
    } else {
        match d {
            Doc::Leaf(_) => None,
            Doc::Branch(es) => match find_key(es, p[0]) {
                Some(i) => lookup(es[i].1, p.drop_first()),
                None => None,
            },
        }
    }
}

/// Following `p` from `d` runs into a leaf before the last segment is used.
pub open spec fn conflicts(d: Doc, p: Seq<Seq<char>>) -> bool
    decreases p.len(),
{
    if p.len() == 0 {
        false
    } else {
        match d {
            Doc::Leaf(_) => true,
            Doc::Branch(es) => match find_key(es, p[0]) {
                Some(i) => conflicts(es[i].1, p.drop_first()),
                None => false,
            },
        }
    }
}

/// The document that holds only `v`, nested under the segments of `p`.
pub open spec fn build(p: Seq<Seq<char>>, v: Seq<char>) -> Doc
    decreases p.len(),
{
    if p.len() == 0 {
        Doc::Leaf(v)
    } else {
        Doc::Branch(seq![(p[0], build(p.drop_first(), v))])
    }
}

/// `d` with the leaf `v` written at `p`: the entries along the way are kept
/// in place, missing ones are appended, and whatever stood at `p` is replaced.
/// Where `p` runs through a leaf, `d` is returned as it is.
pub open spec fn merged(d: Doc, p: Seq<Seq<char>>, v: Seq<char>) -> Doc
    decreases p.len(),
{
    if p.len() == 0 {
        Doc::Leaf(v)
    } else {
        match d {
            Doc::Leaf(_) => d,
            Doc::Branch(es) => match find_key(es, p[0]) {
                Some(i) => Doc::Branch(es.update(i, (p[0], merged(es[i].1, p.drop_first(), v)))),
                None => Doc::Branch(es.push((p[0], build(p.drop_first(), v)))),
            },
        }
    }
}

pub(crate) proof fn lemma_find_key(es: Seq<(Seq<char>, Doc)>, k: Seq<char>)
    ensures
        find_key(es, k) matches Some(i) ==> is_first_key(es, k, i),
        find_key(es, k) is None ==> forall|j: int| 0 <= j < es.len() ==> es[j].0 != k,
{
    if find_key(es, k) is None {
        assert forall|j: int| 0 <= j < es.len() implies es[j].0 != k by {
            if es[j].0 == k {
                let m = choose_first(es, k, j);
            }
        }
    }
}

/// Some index at or below `j` is the first one with segment `k`.
proof fn choose_first(es: Seq<(Seq<char>, Doc)>, k: Seq<char>, j: int) -> (m: int)
    requires
        0 <= j < es.len(),
        es[j].0 == k,
    ensures
        is_first_key(es, k, m),
    decreases j,
{
    if exists|i: int| 0 <= i < j && es[i].0 == k {
        let i = choose|i: int| 0 <= i < j && es[i].0 == k;
        choose_first(es, k, i)
    } else {
        j
    }
}

pub(crate) proof fn lemma_first_unique(es: Seq<(Seq<char>, Doc)>, k: Seq<char>, i: int)
    requires
        is_first_key(es, k, i),
    ensures
        find_key(es, k) == Some(i),
{
    let m = choose|m: int| is_first_key(es, k, m);
    assert(is_first_key(es, k, m));
    if m < i {
        assert(es[m].0 != k);
    } else if i < m {
        assert(es[i].0 != k);
    }
}

pub(crate) proof fn lemma_find_key_update(es: Seq<(Seq<char>, Doc)>, i: int, x: Doc, k: Seq<char>)
    requires
        0 <= i < es.len(),
    ensures
        find_key(es.update(i, (es[i].0, x)), k) == find_key(es, k),
{
    let es2 = es.update(i, (es[i].0, x));
    lemma_find_key(es, k);
    lemma_find_key(es2, k);
    if let Some(m) = find_key(es, k) {
        assert(is_first_key(es2, k, m));
        lemma_first_unique(es2, k, m);
    } else if let Some(m) = find_key(es2, k) {
        assert(is_first_key(es, k, m));
    }
}

pub(crate) proof fn lemma_find_key_push(es: Seq<(Seq<char>, Doc)>, e: (Seq<char>, Doc), k: Seq<char>)
    requires
        find_key(es, e.0) is None,
    ensures
        find_key(es.push(e), k) == if k == e.0 {
            Some(es.len() as int)
        } else {
            find_key(es, k)
        },
{
    let es2 = es.push(e);
    lemma_find_key(es, e.0);
    lemma_find_key(es, k);
    lemma_find_key(es2, k);
    if k == e.0 {
        assert(is_first_key(es2, k, es.len() as int));
        lemma_first_unique(es2, k, es.len() as int);
    } else if let Some(m) = find_key(es, k) {
        assert(is_first_key(es2, k, m));
        lemma_first_unique(es2, k, m);
    } else if let Some(m) = find_key(es2, k) {
        assert(is_first_key(es, k, m));
    }
}

proof fn lemma_conflict_keeps(d: Doc, p: Seq<Seq<char>>, v: Seq<char>)
    requires
        conflicts(d, p),
    ensures
        merged(d, p, v) == d,
    decreases p.len(),
{
    if let Doc::Branch(es) = d {
        if let Some(i) = find_key(es, p[0]) {
            lemma_conflict_keeps(es[i].1, p.drop_first(), v);
            lemma_find_key(es, p[0]);
            assert(es.update(i, (p[0], es[i].1)) =~= es);
        }
    }
}

/// The first entry of `es` whose key equals `k`.
fn find_entry(es: &Vec<DocEntry>, k: &String) -> (r: Option<usize>)
    ensures
        match find_key(view_entries(es@), k@) {
            Some(i) => r matches Some(j) && j == i,
            None => r is None,
        },
{
    proof {
        lemma_view_entries(es@);
    }
    let ghost ve = view_entries(es@);
    let mut j: usize = 0;
    while j < es.len()
        invariant
            j <= es.len(),
            ve == view_entries(es@),
            ve.len() == es.len(),
            forall|m: int| 0 <= m < es.len() ==> #[trigger] ve[m] == (es@[m].key@, es@[m].node@),
            forall|m: int| 0 <= m < j ==> ve[m].0 != k@,
        decreases es.len() - j,
    {
        if es[j].key == *k {
            proof {
                assert(ve[j as int] == (es@[j as int].key@, es@[j as int].node@));
                lemma_first_unique(ve, k@, j as int);
            }
            return Some(j);
        }
        j = j + 1;
    }
    proof {
        lemma_find_key(ve, k@);
    }
    None
}

/// The document nested under `path[i..]` holding `value`.
fn build_from(path: &Vec<String>, i: usize, value: String) -> (r: DocNode)
    requires
        i <= path.len(),
    ensures
        r@ == build(segments_view(path@).subrange(i as int, path.len() as int), value@),
{
    let ghost p = segments_view(path@);
    let ghost v = value@;
    let mut node = DocNode::Leaf(value);
    let mut j: usize = path.len();
    assert(p.subrange(j as int, path.len() as int) =~= Seq::<Seq<char>>::empty());
    while j > i
        invariant
            i <= j <= path.len(),
            p == segments_view(path@),
            node@ == build(p.subrange(j as int, path.len() as int), v),
        decreases j,
    {
        j = j - 1;
        let key = path[j].clone();
        let ghost child = node@;
        let mut es: Vec<DocEntry> = Vec::new();
        es.push(DocEntry { key, node });
        proof {
            let sub = p.subrange(j as int, path.len() as int);
            assert(sub.drop_first() =~= p.subrange(j as int + 1, path.len() as int));
            lemma_view_entries(es@);
            assert(view_entries(es@)[0] == (p[j as int], child));
            assert(view_entries(es@) =~= seq![(p[j as int], child)]);
        }
        node = DocNode::Branch(es);
    }
    node
}

/// Writes `value` at `path[i..]` below `node`; the flag tells whether the
/// path was free of leaves on the way.
fn merge_node(node: DocNode, path: &Vec<String>, i: usize, value: String) -> (r: (DocNode, bool))
    requires
        i <= path.len(),
    ensures
        r.0@ == merged(node@, segments_view(path@).subrange(i as int, path.len() as int), value@),
        r.1 == !conflicts(node@, segments_view(path@).subrange(i as int, path.len() as int)),
    decreases path.len() - i,
{
    let ghost p = segments_view(path@).subrange(i as int, path.len() as int);
    if i == path.len() {
        return (DocNode::Leaf(value), true);
    }
    assert(p.drop_first() =~= segments_view(path@).subrange(i as int + 1, path.len() as int));
    match node {
        DocNode::Leaf(t) => (DocNode::Leaf(t), false),
        DocNode::Branch(es) => {
            let mut es = es;
            let ghost ves = view_entries(es@);
            proof {
                lemma_view_entries(es@);
            }
            match find_entry(&es, &path[i]) {
                Some(j) => {
                    proof {
                        lemma_find_key(ves, p[0]);
                    }
                    let ghost old_es = es@;
                    let e = es.remove(j);
                    let (child, ok) = merge_node(e.node, path, i + 1, value);
                    let ghost nc = child@;
                    es.insert(j, DocEntry { key: e.key, node: child });
                    proof {
                        lemma_view_entries(es@);
                        assert(es@.len() == old_es.len());
                        assert forall|m: int| 0 <= m < es@.len() && m != j implies es@[m]
                            == old_es[m] by {
                            if m < j {
                                assert(es@[m] == old_es.remove(j as int)[m]);
                            } else {
                                assert(es@[m] == old_es.remove(j as int)[m - 1]);
                            }
                        }
                        assert(view_entries(es@) =~= ves.update(j as int, (p[0], nc)));
                    }
                    (DocNode::Branch(es), ok)
                },
                None => {
                    let child = build_from(path, i + 1, value);
                    let key = path[i].clone();
                    let ghost old_es = es@;
                    es.push(DocEntry { key, node: child });
                    proof {
                        assert(es@.drop_last() =~= old_es);
                    }
                    (DocNode::Branch(es), true)
                },
            }
        },
    }
}


impl DocNode {
    /// The node reached by following `path` from this one, if any.
    pub fn get<'a>(&'a self, path: &Vec<String>) -> (r: Option<&'a DocNode>)
        ensures
            match lookup(self@, segments_view(path@)) {
                Some(d) => r matches Some(n) && n@ == d,
                None => r is None,
            },
    {
        let ghost sv = segments_view(path@);
        let mut cur: &DocNode = self;
        let mut i: usize = 0;
        assert(sv.subrange(0, sv.len() as int) =~= sv);
        while i < path.len()
            invariant
                i <= path.len(),
                sv == segments_view(path@),
                lookup(self@, sv) == lookup(cur@, sv.subrange(i as int, sv.len() as int)),
            decreases path.len() - i,
        {
            let ghost sub = sv.subrange(i as int, sv.len() as int);
            assert(sub.drop_first() =~= sv.subrange(i as int + 1, sv.len() as int));
            match cur {
                DocNode::Leaf(_) => {
                    return None;
                },
                DocNode::Branch(es) => {
                    proof {
                        lemma_view_entries(es@);
                    }
                    match find_entry(es, &path[i]) {
                        Some(j) => {
                            cur = &es[j].node;
                        },
                        None => {
                            return None;
                        },
                    }
                },
            }
            i = i + 1;
        }
        assert(sv.subrange(i as int, sv.len() as int) =~= Seq::<Seq<char>>::empty());
        Some(cur)
    }
}

/// Checks that `path` has at least one segment and that none is empty.
pub(crate) fn check_path(path: &Vec<String>) -> (r: bool)
    ensures
        r == is_path(segments_view(path@)),
{
    if path.len() == 0 {
        return false;
    }
    let mut i: usize = 0;
    while i < path.len()
        invariant
            i <= path.len(),
            forall|k: int| 0 <= k < i ==> #[trigger] path@[k]@.len() > 0,
        decreases path.len() - i,
    {
        if path[i].as_str().is_empty() {
            assert(segments_view(path@)[i as int].len() == 0);
            return false;
        }
        i = i + 1;
    }
    true
}

/// The document that holds `value` under `path` and nothing else. Fails with
/// `InvalidKeyPath` exactly when the path is empty or has an empty segment.
pub fn build_document(path: &Vec<String>, value: String) -> (r: Result<DocNode, DocError>)
    ensures
        is_path(segments_view(path@)) ==> (r matches Ok(d) && d@ == build(
            segments_view(path@),
            value@,
        )),
        !is_path(segments_view(path@)) ==> r == Err::<DocNode, DocError>(DocError::InvalidKeyPath),
        r matches Ok(d) ==> wf(d@),
{
    if !check_path(path) {
        return Err(DocError::InvalidKeyPath);
    }
    let d = build_from(path, 0, value);
    assert(segments_view(path@).subrange(0, path.len() as int) =~= segments_view(path@));
    proof {
        crate::laws::lemma_build_wf(segments_view(path@), value@);
    }
    Ok(d)
}

/// Writes `value` at `path` inside `root`, creating the branches that are
/// missing and replacing what stood at `path`. Fails with `InvalidKeyPath`
/// on an empty path or an empty segment, and with `KeyPathConflict` when a
/// proper prefix of `path` leads to a leaf; on failure `root` is left as it was.
pub fn merge_into(root: &mut DocNode, path: &Vec<String>, value: String) -> (r: Result<
    (),
    DocError,
>)
    ensures
        !is_path(segments_view(path@)) ==> r == Err::<(), DocError>(DocError::InvalidKeyPath),
        is_path(segments_view(path@)) && conflicts(old(root)@, segments_view(path@)) ==> r == Err::<
            (),
            DocError,
        >(DocError::KeyPathConflict),
        is_path(segments_view(path@)) && !conflicts(old(root)@, segments_view(path@)) ==> r is Ok,
        r is Err ==> final(root)@ == old(root)@,
        r is Ok ==> final(root)@ == merged(old(root)@, segments_view(path@), value@),
        wf(old(root)@) ==> wf(final(root)@),
{
    if !check_path(path) {
        return Err(DocError::InvalidKeyPath);
    }
    let mut taken = DocNode::Branch(Vec::new());
    std::mem::swap(root, &mut taken);
    let ghost before = taken@;
    let (node, ok) = merge_node(taken, path, 0, value);
    assert(segments_view(path@).subrange(0, path.len() as int) =~= segments_view(path@));
    let mut node = node;
    std::mem::swap(root, &mut node);
    proof {
        if wf(before) {
            crate::laws::lemma_merge_wf(before, segments_view(path@), value@);
        }
    }
    if ok {
        Ok(())
    } else {
        proof {
            lemma_conflict_keeps(before, segments_view(path@), value@);
        }
        Err(DocError::KeyPathConflict)
    }
}

} // verus!
