//! The cache tree: an immutable, copy-on-write tree keyed by path segments.
//!
//! Each node optionally remembers what was learned the last time the host was
//! consulted for the path that names it: the host-side logging handle and the
//! effective severity threshold. Updates never touch a live node; they build
//! a fresh chain of nodes from the changed leaf up to a new root.

use vstd::prelude::*;
use std::sync::Arc;
use crate::level::LevelFilter;
use crate::path::views_of;

verus! {

use pyo3::Py;
use pyo3::PyAny;
use pyo3::Python;

/// What was learned the last time the host was consulted for one exact path.
pub struct CacheEntry {
    /// The effective severity threshold the host reported, or `Trace` ("no
    /// restriction") when only the handle is cached.
    pub filter: LevelFilter,
    /// The host-side logging handle for this path.
    pub logger: Py<PyAny>,
}

impl CacheEntry {
    /// Clones the entry; the clone shares the same host handle.
    pub fn clone_ref(&self, py: Python<'_>) -> (r: CacheEntry)
        ensures
            r == *self,
    {
        CacheEntry { filter: self.filter, logger: crate::host::clone_handle(py, &self.logger) }
    }
}

/// One node of the cache tree. `children` associates one path segment each
/// with a subtree, shared copy-on-write between tree generations.
pub struct CacheNode {
    /// The entry cached for the path that names this node, if any.
    pub local: Option<CacheEntry>,
    /// The subtrees, one per path segment observed below this node.
    pub children: Vec<(String, Arc<CacheNode>)>,
}

/// The first subtree registered under segment `seg`, if any.
pub open spec fn find_child(children: Seq<(String, Arc<CacheNode>)>, seg: Seq<char>) -> Option<
    Arc<CacheNode>,
>
    decreases children.len(),
{
    if children.len() == 0 {
        None
    } else if children[0].0@ == seg {
        Some(children[0].1)
    } else {
        find_child(children.skip(1), seg)
    }
}

/// The node reached from `node` by walking the segments of `path`, if the
/// whole walk stays inside the tree.
pub open spec fn find_node(node: CacheNode, path: Seq<Seq<char>>) -> Option<CacheNode>
    decreases path.len(),
{
    if path.len() == 0 {
        Some(node)
    } else {
        match find_child(node.children@, path[0]) {
            Some(child) => find_node(*child, path.skip(1)),
            None => None,
        }
    }
}

/// The entry the tree rooted at `node` caches for `path`, if any. A miss at
/// any depth is a full miss.
pub open spec fn lookup_local(node: CacheNode, path: Seq<Seq<char>>) -> Option<CacheEntry> {
    match find_node(node, path) {
        Some(n) => n.local,
        None => None,
    }
}

/// A node with no entry and no children caches nothing, at any path.
pub proof fn lemma_empty_lookup(n: &CacheNode, path: Seq<Seq<char>>)
    requires
        n.local is None,
        n.children@.len() == 0,
    ensures
        lookup_local(*n, path) == None::<CacheEntry>,
{
}

/// Relies on `Arc::clone`: returns a second reference to the same node.
#[verifier::external_body]
pub(crate) fn share_node(n: &Arc<CacheNode>) -> (r: Arc<CacheNode>)
    ensures
        r == *n,
{
    Arc::clone(n)
}

/// If `k` is the first index whose key is `seg`, the child search finds it.
proof fn lemma_find_child_at(s: Seq<(String, Arc<CacheNode>)>, seg: Seq<char>, k: int)
    requires
        0 <= k < s.len(),
        s[k].0@ == seg,
        forall|j: int| 0 <= j < k ==> s[j].0@ != seg,
    ensures
        find_child(s, seg) == Some(s[k].1),
    decreases k,
{
    if k == 0 {
    } else {
        assert(s[0].0@ != seg);
        assert forall|j: int| 0 <= j < k - 1 implies s.skip(1)[j].0@ != seg by {
            assert(s.skip(1)[j] == s[j + 1]);
        }
        assert(s.skip(1)[k - 1] == s[k]);
        lemma_find_child_at(s.skip(1), seg, k - 1);
    }
}

/// If no key is `seg`, the child search misses.
proof fn lemma_find_child_none(s: Seq<(String, Arc<CacheNode>)>, seg: Seq<char>)
    requires
        forall|j: int| 0 <= j < s.len() ==> s[j].0@ != seg,
    ensures
        find_child(s, seg) == None::<Arc<CacheNode>>,
    decreases s.len(),
{
    if s.len() == 0 {
    } else {
        assert forall|j: int| 0 <= j < s.len() - 1 implies s.skip(1)[j].0@ != seg by {
            assert(s.skip(1)[j] == s[j + 1]);
        }
        lemma_find_child_none(s.skip(1), seg);
    }
}

/// Replacing the subtree at index `k` redirects the search for its key and
/// leaves the search for every other key unchanged.
proof fn lemma_find_child_update(
    s: Seq<(String, Arc<CacheNode>)>,
    k: int,
    sub: Arc<CacheNode>,
    seg2: Seq<char>,
)
    requires
        0 <= k < s.len(),
        s[k].0@ != seg2,
    ensures
        find_child(s.update(k, (s[k].0, sub)), seg2) == find_child(s, seg2),
    decreases s.len(),
{
    let s2 = s.update(k, (s[k].0, sub));
    if k == 0 {
        assert(s2[0].0 == s[0].0);
        if s[0].0@ == seg2 {
            assert(false);
        } else {
            assert(s2.skip(1) =~= s.skip(1));
        }
    } else {
        assert(s2[0] == s[0]);
        if s[0].0@ == seg2 {
        } else {
            assert(s2.skip(1) =~= s.skip(1).update(k - 1, (s.skip(1)[k - 1].0, sub)));
            assert(s.skip(1)[k - 1] == s[k]);
            lemma_find_child_update(s.skip(1), k - 1, sub, seg2);
        }
    }
}

/// Appending a subtree is only seen by searches for its own key, and only
/// when no earlier subtree already carries that key.
proof fn lemma_find_child_push(
    s: Seq<(String, Arc<CacheNode>)>,
    v: (String, Arc<CacheNode>),
    seg2: Seq<char>,
)
    ensures
        find_child(s, seg2) is Some ==> find_child(s.push(v), seg2) == find_child(s, seg2),
        find_child(s, seg2) is None && v.0@ == seg2 ==> find_child(s.push(v), seg2) == Some(v.1),
        find_child(s, seg2) is None && v.0@ != seg2 ==> find_child(s.push(v), seg2) == None::<
            Arc<CacheNode>,
        >,
    decreases s.len(),
{
    if s.len() == 0 {
        assert(s.push(v)[0] == v);
        assert(s.push(v).skip(1) =~= Seq::<(String, Arc<CacheNode>)>::empty());
        if v.0@ == seg2 {
            assert(find_child(s.push(v), seg2) == Some(v.1));
        } else {
            assert(find_child(s.push(v), seg2) == find_child(
                Seq::<(String, Arc<CacheNode>)>::empty(),
                seg2,
            ));
        }
    } else {
        assert(s.push(v)[0] == s[0]);
        if s[0].0@ == seg2 {
            assert(find_child(s, seg2) == Some(s[0].1));
            assert(find_child(s.push(v), seg2) == Some(s.push(v)[0].1));
        } else {
            assert(s.push(v).skip(1) =~= s.skip(1).push(v));
            lemma_find_child_push(s.skip(1), v, seg2);
        }
    }
}

/// Unfolds one level of a lookup along a non-empty path.
proof fn lemma_lookup_unfold(n: &CacheNode, q: Seq<Seq<char>>)
    requires
        q.len() > 0,
    ensures
        lookup_local(*n, q) == (match find_child(n.children@, q[0]) {
            Some(c) => lookup_local(*c, q.skip(1)),
            None => None,
        }),
{
}

/// The first index among `children` whose key equals `seg`, if any.
fn find_child_index(children: &Vec<(String, Arc<CacheNode>)>, seg: &String) -> (r: Option<usize>)
    ensures
        match r {
            Some(k) => k < children@.len() && children@[k as int].0@ == seg@ && (forall|j: int|
                0 <= j < k ==> children@[j].0@ != seg@),
            None => forall|j: int| 0 <= j < children@.len() ==> children@[j].0@ != seg@,
        },
{
    let mut k: usize = 0;
    while k < children.len()
        invariant
            k <= children@.len(),
            forall|j: int| 0 <= j < k ==> children@[j].0@ != seg@,
        decreases children@.len() - k,
    {
        if children[k].0 == *seg {
            return Some(k);
        }
        k = k + 1;
    }
    None
}

/// Walks the segments of `segs` down from `root`; a missing child at any
/// depth is a full miss. The result is exactly the node the tree specifies.
pub fn find_in_tree(root: &Arc<CacheNode>, segs: &Vec<String>) -> (r: Option<Arc<CacheNode>>)
    ensures
        (r is Some) == (find_node(**root, views_of(segs@)) is Some),
        r matches Some(n) ==> find_node(**root, views_of(segs@)) == Some(*n),
{
    let ghost full = views_of(segs@);
    let mut cur: &Arc<CacheNode> = root;
    let mut i: usize = 0;
    proof {
        assert(full.skip(0) =~= full);
    }
    while i < segs.len()
        invariant
            i <= segs@.len(),
            full == views_of(segs@),
            find_node(**root, full) == find_node(**cur, full.skip(i as int)),
        decreases segs@.len() - i,
    {
        let ghost rest = full.skip(i as int);
        proof {
            assert(rest[0] == segs@[i as int]@);
            assert(rest.skip(1) =~= full.skip(i as int + 1));
        }
        let node: &CacheNode = &**cur;
        match find_child_index(&node.children, &segs[i]) {
            Some(k) => {
                proof {
                    lemma_find_child_at(node.children@, rest[0], k as int);
                }
                cur = &node.children[k].1;
                i = i + 1;
            },
            None => {
                proof {
                    lemma_find_child_none(node.children@, rest[0]);
                }
                return None;
            },
        }
    }
    proof {
        assert(full.skip(i as int) =~= Seq::<Seq<char>>::empty());
    }
    Some(share_node(cur))
}

impl CacheNode {
    /// A fresh node caching nothing.
    pub fn empty() -> (n: CacheNode)
        ensures
            n.local is None,
            n.children@.len() == 0,
            forall|q: Seq<Seq<char>>| lookup_local(n, q) == None::<CacheEntry>,
    {
        let n = CacheNode { local: None, children: Vec::new() };
        proof {
            assert forall|q: Seq<Seq<char>>| lookup_local(n, q) == None::<CacheEntry> by {
                lemma_empty_lookup(&n, q);
            }
        }
        n
    }

    /// Clones the children list; each clone shares the original subtree.
    fn clone_children(&self, py: Python<'_>) -> (r: Vec<(String, Arc<CacheNode>)>)
        ensures
            r@ == self.children@,
    {
        let mut out: Vec<(String, Arc<CacheNode>)> = Vec::new();
        let mut j: usize = 0;
        while j < self.children.len()
            invariant
                j <= self.children@.len(),
                out@.len() == j,
                forall|m: int| 0 <= m < j ==> out@[m] == self.children@[m],
            decreases self.children@.len() - j,
        {
            let key = self.children[j].0.clone();
            let sub = share_node(&self.children[j].1);
            proof {
                assert(key == self.children@[j as int].0);
            }
            out.push((key, sub));
            j = j + 1;
        }
        proof {
            assert(out@ =~= self.children@);
        }
        out
    }

    /// Clones the locally cached entry, if any; the clone shares the handle.
    fn clone_local(&self, py: Python<'_>) -> (r: Option<CacheEntry>)
        ensures
            r == self.local,
    {
        match &self.local {
            Some(e) => Some(e.clone_ref(py)),
            None => None,
        }
    }

    /// Builds the copy-on-write replacement tree: a fresh chain of nodes from
    /// this node down to the leaf named by `segs[i..]`, whose entry becomes
    /// `entry`. Every node on the way is rebuilt, its children shallow-shared;
    /// every path other than `segs[i..]` keeps exactly the entry it had.
    pub fn store_to_cache_recursive(
        &self,
        py: Python<'_>,
        segs: &Vec<String>,
        i: usize,
        entry: CacheEntry,
    ) -> (r: Arc<CacheNode>)
        requires
            i <= segs@.len(),
        ensures
            lookup_local(*r, views_of(segs@).skip(i as int)) == Some(entry),
            forall|q: Seq<Seq<char>>|
                q != views_of(segs@).skip(i as int) ==> lookup_local(*r, q) == lookup_local(
                    *self,
                    q,
                ),
        decreases segs@.len() - i,
    {
        let ghost p = views_of(segs@).skip(i as int);
        let new_local = self.clone_local(py);
        let mut new_children = self.clone_children(py);
        if i == segs.len() {
            proof {
                assert(p =~= Seq::<Seq<char>>::empty());
            }
            let r = Arc::new(CacheNode { local: Some(entry), children: new_children });
            proof {
                assert(lookup_local(*r, p) == Some(entry));
                assert forall|q: Seq<Seq<char>>| q != p implies lookup_local(*r, q)
                    == lookup_local(*self, q) by {
                    if q.len() == 0 {
                        assert(q =~= p);
                    } else {
                        lemma_lookup_unfold(&*r, q);
                        lemma_lookup_unfold(self, q);
                    }
                }
            }
            return r;
        }
        proof {
            assert(p.len() == segs@.len() - i);
            assert(p[0] == segs@[i as int]@);
            assert(p.skip(1) =~= views_of(segs@).skip(i as int + 1));
        }
        let ghost p_rest = views_of(segs@).skip(i as int + 1);
        match find_child_index(&new_children, &segs[i]) {
            Some(k) => {
                let sub = {
                    let child: &Arc<CacheNode> = &self.children[k].1;
                    proof {
                        assert(new_children@[k as int] == self.children@[k as int]);
                    }
                    (**child).store_to_cache_recursive(py, segs, i + 1, entry)
                };
                let ghost old_children = new_children@;
                let key = self.children[k].0.clone();
                let shared = share_node(&sub);
                new_children.remove(k);
                new_children.insert(k, (key, shared));
                proof {
                    assert(new_children@ =~= old_children.update(
                        k as int,
                        (old_children[k as int].0, sub),
                    ));
                }
                let r = Arc::new(CacheNode { local: new_local, children: new_children });
                proof {
                    let oc = self.children@;
                    assert(oc == old_children);
                    // The path being stored:
                    lemma_find_child_at(r.children@, p[0], k as int);
                    lemma_lookup_unfold(&*r, p);
                    assert(lookup_local(*r, p) == lookup_local(*sub, p_rest));
                    // Every other path:
                    assert forall|q: Seq<Seq<char>>| q != p implies lookup_local(*r, q)
                        == lookup_local(*self, q) by {
                        if q.len() == 0 {
                        } else {
                            lemma_lookup_unfold(&*r, q);
                            lemma_lookup_unfold(self, q);
                            if q[0] == p[0] {
                                lemma_find_child_at(r.children@, q[0], k as int);
                                lemma_find_child_at(oc, q[0], k as int);
                                assert(q.skip(1) != p_rest) by {
                                    if q.skip(1) == p_rest {
                                        assert(q.len() == p.len());
                                        assert forall|m: int| 0 <= m < p.len() implies q[m]
                                            == p[m] by {
                                            if m > 0 {
                                                assert(q.skip(1)[m - 1] == q[m]);
                                                assert(p.skip(1)[m - 1] == p[m]);
                                            }
                                        }
                                        assert(q =~= p);
                                    }
                                }
                                assert(lookup_local(*sub, q.skip(1)) == lookup_local(
                                    *self.children@[k as int].1,
                                    q.skip(1),
                                ));
                            } else {
                                lemma_find_child_update(oc, k as int, sub, q[0]);
                            }
                        }
                    }
                }
                r
            },
            None => {
                let base = CacheNode::empty();
                let sub = base.store_to_cache_recursive(py, segs, i + 1, entry);
                let ghost old_children = new_children@;
                let key = segs[i].clone();
                let shared = share_node(&sub);
                new_children.push((key, shared));
                proof {
                    assert(new_children@ =~= old_children.push((segs@[i as int], sub)));
                }
                let r = Arc::new(CacheNode { local: new_local, children: new_children });
                proof {
                    let oc = self.children@;
                    assert(oc == old_children);
                    let v = (segs@[i as int], sub);
                    // The path being stored:
                    lemma_find_child_none(oc, p[0]);
                    lemma_find_child_push(oc, v, p[0]);
                    lemma_lookup_unfold(&*r, p);
                    assert(lookup_local(*r, p) == lookup_local(*sub, p_rest));
                    // Every other path:
                    assert forall|q: Seq<Seq<char>>| q != p implies lookup_local(*r, q)
                        == lookup_local(*self, q) by {
                        if q.len() == 0 {
                        } else {
                            lemma_lookup_unfold(&*r, q);
                            lemma_lookup_unfold(self, q);
                            lemma_find_child_push(oc, v, q[0]);
                            if q[0] == p[0] {
                                lemma_find_child_none(oc, q[0]);
                                assert(q.skip(1) != p_rest) by {
                                    if q.skip(1) == p_rest {
                                        assert(q.len() == p.len());
                                        assert forall|m: int| 0 <= m < p.len() implies q[m]
                                            == p[m] by {
                                            if m > 0 {
                                                assert(q.skip(1)[m - 1] == q[m]);
                                                assert(p.skip(1)[m - 1] == p[m]);
                                            }
                                        }
                                        assert(q =~= p);
                                    }
                                }
                                assert(lookup_local(*sub, q.skip(1)) == lookup_local(
                                    base,
                                    q.skip(1),
                                ));
                                lemma_empty_lookup(&base, q.skip(1));
                            } else {
                            }
                        }
                    }
                }
                r
            },
        }
    }
}

} // verus!
