//! The module tree and the lexical scope chain.
//!
//! Modules form a tree held in an arena (`ModuleTree`): each node owns two
//! flat namespaces (constants and named holes) and a map from name to child
//! index, plus a back-reference to its parent's index.  Scopes form a
//! separate chain: each scope is anchored at one module (by index) and may
//! have an enclosing scope; resolution probes the anchored module first and
//! then retries the whole lookup in the enclosing scope.

use vstd::prelude::*;

use crate::ident::{ConstId, Ident, Loc, TranslateErr};

verus! {

// ---------------------------------------------------------------------------
// Association lists: the flat namespaces of a module.
// ---------------------------------------------------------------------------

/// The binding a key has in an association list: the value of the first
/// entry whose name reads the same, or `None`.
pub open spec fn assoc_get(l: Seq<(String, usize)>, k: Seq<char>) -> Option<usize>
    decreases l.len(),
{
    if l.len() == 0 {
        None
    } else if l[0].0@ == k {
        Some(l[0].1)
    } else {
        assoc_get(l.drop_first(), k)
    }
}

/// No two entries bind the same name.
pub open spec fn distinct_keys(l: Seq<(String, usize)>) -> bool {
    forall|i: int, j: int| 0 <= i < j < l.len() ==> l[i].0@ != l[j].0@
}

/// If no entry before `i` matches `k`, the lookup is decided at or after `i`.
proof fn lemma_assoc_get_first_match(l: Seq<(String, usize)>, k: Seq<char>, i: int)
    requires
        0 <= i <= l.len(),
        forall|j: int| 0 <= j < i ==> l[j].0@ != k,
    ensures
        i < l.len() && l[i].0@ == k ==> assoc_get(l, k) == Some(l[i].1),
        i == l.len() ==> assoc_get(l, k) is None,
    decreases i,
{
    if i == 0 {
    } else {
        assert(l[0].0@ != k);
        assert(l.drop_first().len() == l.len() - 1);
        assert(forall|j: int| 0 <= j < i - 1 ==> l.drop_first()[j] == l[j + 1]);
        lemma_assoc_get_first_match(l.drop_first(), k, i - 1);
        if i < l.len() && l[i].0@ == k {
            assert(l.drop_first()[i - 1] == l[i]);
        }
    }
}

/// A successful lookup comes from some entry of the list.
proof fn lemma_assoc_get_some_index(l: Seq<(String, usize)>, k: Seq<char>)
    requires
        assoc_get(l, k) is Some,
    ensures
        exists|j: int|
            0 <= j < l.len() && #[trigger] l[j].0@ == k && l[j].1 == assoc_get(l, k)->Some_0,
    decreases l.len(),
{
    if l.len() == 0 {
    } else if l[0].0@ == k {
        assert(l[0].0@ == k);
    } else {
        lemma_assoc_get_some_index(l.drop_first(), k);
        let j0 = choose|j: int|
            0 <= j < l.drop_first().len() && #[trigger] l.drop_first()[j].0@ == k
                && l.drop_first()[j].1 == assoc_get(l.drop_first(), k)->Some_0;
        assert(l[j0 + 1] == l.drop_first()[j0]);
        assert(l[j0 + 1].0@ == k);
    }
}

/// A missed lookup means no entry of the list matches.
proof fn lemma_assoc_get_none_no_match(l: Seq<(String, usize)>, k: Seq<char>)
    requires
        assoc_get(l, k) is None,
    ensures
        forall|j: int| 0 <= j < l.len() ==> l[j].0@ != k,
    decreases l.len(),
{
    if l.len() == 0 {
    } else {
        lemma_assoc_get_none_no_match(l.drop_first(), k);
        assert forall|j: int| 0 <= j < l.len() implies l[j].0@ != k by {
            if j > 0 {
                assert(l.drop_first()[j - 1] == l[j]);
            }
        }
    }
}

/// Appending an entry decides only the keys the list did not already bind.
proof fn lemma_assoc_get_push(l: Seq<(String, usize)>, p: (String, usize), k: Seq<char>)
    ensures
        assoc_get(l.push(p), k) == (if assoc_get(l, k) is Some {
            assoc_get(l, k)
        } else if p.0@ == k {
            Some(p.1)
        } else {
            None::<usize>
        }),
    decreases l.len(),
{
    if l.len() == 0 {
        assert(l.push(p)[0] == p);
        assert(l.push(p).drop_first() =~= Seq::<(String, usize)>::empty());
        assert(assoc_get(Seq::<(String, usize)>::empty(), k) is None);
        if p.0@ == k {
            assert(assoc_get(l.push(p), k) == Some(p.1));
        } else {
            assert(assoc_get(l.push(p), k) == assoc_get(l.push(p).drop_first(), k));
        }
    } else {
        assert(l.push(p)[0] == l[0]);
        assert(l.push(p).drop_first() =~= l.drop_first().push(p));
        lemma_assoc_get_push(l.drop_first(), p, k);
        if l[0].0@ == k {
            assert(assoc_get(l.push(p), k) == Some(l[0].1));
            assert(assoc_get(l, k) == Some(l[0].1));
        } else {
            assert(assoc_get(l.push(p), k) == assoc_get(l.drop_first().push(p), k));
            assert(assoc_get(l, k) == assoc_get(l.drop_first(), k));
        }
    }
}

/// Two lists that bind the same names, and agree on the value wherever the
/// name is `k`, agree on the lookup of `k`.
proof fn lemma_assoc_get_same_keys(l1: Seq<(String, usize)>, l2: Seq<(String, usize)>, k: Seq<char>)
    requires
        l1.len() == l2.len(),
        forall|j: int| 0 <= j < l1.len() ==> l1[j].0@ == #[trigger] l2[j].0@,
        forall|j: int| 0 <= j < l1.len() && #[trigger] l1[j].0@ == k ==> l1[j].1 == l2[j].1,
    ensures
        assoc_get(l1, k) == assoc_get(l2, k),
    decreases l1.len(),
{
    if l1.len() == 0 {
    } else {
        assert(l1[0].0@ == l2[0].0@);
        assert(forall|j: int|
            0 <= j < l1.drop_first().len() ==> #[trigger] l1.drop_first()[j] == l1[j + 1]
                && l2.drop_first()[j] == l2[j + 1]);
        lemma_assoc_get_same_keys(l1.drop_first(), l2.drop_first(), k);
    }
}

/// Lookup of `key` in an association list.
fn assoc_lookup(l: &Vec<(String, usize)>, key: &String) -> (r: Option<usize>)
    ensures
        r == assoc_get(l@, key@),
{
    let n = l.len();
    let mut i: usize = 0;
    while i < n
        invariant
            n == l@.len(),
            0 <= i <= n,
            forall|j: int| 0 <= j < i ==> l@[j].0@ != key@,
        decreases n - i,
    {
        if <String as PartialEq>::eq(&l[i].0, key) {
            proof {
                lemma_assoc_get_first_match(l@, key@, i as int);
            }
            return Some(l[i].1);
        }
        i += 1;
    }
    proof {
        lemma_assoc_get_first_match(l@, key@, n as int);
    }
    None
}

/// Binds `key` to `value`, replacing the binding the list already had for
/// `key` if there was one.
fn assoc_insert(l: &mut Vec<(String, usize)>, key: String, value: usize)
    requires
        distinct_keys(old(l)@),
    ensures
        distinct_keys(final(l)@),
        assoc_get(final(l)@, key@) == Some(value),
        forall|k2: Seq<char>| k2 != key@ ==> assoc_get(final(l)@, k2) == assoc_get(old(l)@, k2),
{
    let n = l.len();
    let mut i: usize = 0;
    while i < n
        invariant
            n == l@.len(),
            0 <= i <= n,
            *l == *old(l),
            distinct_keys(l@),
            forall|j: int| 0 <= j < i ==> l@[j].0@ != key@,
        decreases n - i,
    {
        if <String as PartialEq>::eq(&l[i].0, &key) {
            proof {
                lemma_assoc_get_first_match(l@, key@, i as int);
            }
            let ghost prev = l@;
            l[i] = (key, value);
            proof {
                assert(l@ =~= prev.update(i as int, (key, value)));
                lemma_assoc_get_first_match(l@, key@, i as int);
                assert(assoc_get(l@, key@) == Some(value));
                assert forall|k2: Seq<char>| k2 != key@ implies assoc_get(l@, k2) == assoc_get(
                    prev,
                    k2,
                ) by {
                    lemma_assoc_get_same_keys(prev, l@, k2);
                }
            }
            return ;
        }
        i += 1;
    }
    proof {
        lemma_assoc_get_first_match(l@, key@, n as int);
    }
    let ghost prev = l@;
    l.push((key, value));
    proof {
        assert forall|k2: Seq<char>| true implies assoc_get(l@, k2) == (if assoc_get(prev, k2)
            is Some {
            assoc_get(prev, k2)
        } else if prev.len() < l@.len() && l@.last().0@ == k2 {
            Some(l@.last().1)
        } else {
            None::<usize>
        }) by {
            assert(l@ =~= prev.push(l@.last()));
            lemma_assoc_get_push(prev, l@.last(), k2);
        }
        assert(assoc_get(l@, key@) == Some(value));
    }
}

// ---------------------------------------------------------------------------
// The module tree.
// ---------------------------------------------------------------------------

/// A named namespace node.  `ids` and `namedhole_ids` are two independent
/// flat namespaces; `children` maps a name to the index of the child node;
/// `parent` is the index of the enclosing module, absent only for the root.
pub struct Module {
    pub name: String,
    pub ids: Vec<(String, ConstId)>,
    pub namedhole_ids: Vec<(String, usize)>,
    pub parent: Option<usize>,
    pub children: Vec<(String, usize)>,
}

/// The arena owning every module node.  Node 0 is the anonymous root; a
/// child is always allocated after its parent, so parent indices decrease
/// strictly toward the root.
pub struct ModuleTree {
    pub nodes: Vec<Module>,
}

/// The reserved path segment that navigates to the parent module.
pub open spec fn seg_super() -> Seq<char> {
    "super"@
}

/// The reserved path segment that stays at the current module.
pub open spec fn seg_self() -> Seq<char> {
    "self"@
}

/// A qualifier as a sequence of segment views.
pub open spec fn path_view(q: Seq<String>) -> Seq<Seq<char>> {
    q.map_values(|s: String| s@)
}

impl ModuleTree {
    /// Number of nodes.
    pub open spec fn n(self) -> int {
        self.nodes@.len() as int
    }

    /// The node at index `i`.
    pub open spec fn node(self, i: int) -> Module {
        self.nodes@[i]
    }

    /// Well-formedness of one node: the parent link points strictly toward
    /// the root, the namespaces bind each name once, every child entry leads
    /// to a node that points back here under that very name, and no child is
    /// named like a reserved segment.
    pub open spec fn node_wf(self, i: int) -> bool {
        let nd = self.node(i);
        &&& (nd.parent matches Some(p) ==> p < i)
        &&& distinct_keys(nd.ids@)
        &&& distinct_keys(nd.namedhole_ids@)
        &&& distinct_keys(nd.children@)
        &&& forall|c: int|
            0 <= c < nd.children@.len() ==> {
                let entry = #[trigger] nd.children@[c];
                &&& i < entry.1 < self.n()
                &&& self.node(entry.1 as int).parent matches Some(p) && p as int == i
                &&& self.node(entry.1 as int).name@ == entry.0@
                &&& entry.0@ != seg_super()
                &&& entry.0@ != seg_self()
            }
        &&& (nd.parent matches Some(p) ==> assoc_get(self.node(p as int).children@, nd.name@)
            matches Some(v) && v as int == i)
    }

    /// The module graph is a tree rooted at the anonymous node 0.
    pub open spec fn wf(self) -> bool {
        &&& 1 <= self.n()
        &&& self.node(0).parent is None
        &&& self.node(0).name@ == Seq::<char>::empty()
        &&& forall|i: int| 1 <= i < self.n() ==> (#[trigger] self.node(i)).parent is Some
        &&& forall|i: int| 0 <= i < self.n() ==> #[trigger] self.node_wf(i)
    }
}

/// Navigation of a qualifier, one segment at a time: `"super"` moves to the
/// parent (failing with that segment at the root), `"self"` stays, any other
/// segment descends into the identically-named child (failing with the
/// segment if absent).  The empty path resolves to the start node.
pub open spec fn spec_search(t: ModuleTree, cur: int, path: Seq<Seq<char>>) -> Result<
    int,
    Seq<char>,
>
    decreases path.len(),
{
    if path.len() == 0 {
        Ok(cur)
    } else {
        let s = path[0];
        if s == seg_super() {
            match t.node(cur).parent {
                Some(p) => spec_search(t, p as int, path.drop_first()),
                None => Err(s),
            }
        } else if s == seg_self() {
            spec_search(t, cur, path.drop_first())
        } else {
            match assoc_get(t.node(cur).children@, s) {
                Some(c) => spec_search(t, c as int, path.drop_first()),
                None => Err(s),
            }
        }
    }
}

/// Navigation then a probe of the constant namespace of the module reached.
pub open spec fn spec_search_const(
    t: ModuleTree,
    cur: int,
    path: Seq<Seq<char>>,
    id: Seq<char>,
) -> Option<ConstId> {
    match spec_search(t, cur, path) {
        Ok(m) => assoc_get(t.node(m).ids@, id),
        Err(_) => None,
    }
}

/// Navigation then a probe of the named-hole namespace of the module reached.
pub open spec fn spec_search_namedhole(
    t: ModuleTree,
    cur: int,
    path: Seq<Seq<char>>,
    id: Seq<char>,
) -> Option<usize> {
    match spec_search(t, cur, path) {
        Ok(m) => assoc_get(t.node(m).namedhole_ids@, id),
        Err(_) => None,
    }
}

/// Navigation stays inside the arena.
pub proof fn lemma_search_in_range(t: ModuleTree, cur: int, path: Seq<Seq<char>>)
    requires
        t.wf(),
        0 <= cur < t.n(),
        spec_search(t, cur, path) is Ok,
    ensures
        0 <= spec_search(t, cur, path)->Ok_0 < t.n(),
    decreases path.len(),
{
    if path.len() == 0 {
    } else {
        let s = path[0];
        assert(t.node_wf(cur));
        if s == seg_super() {
            match t.node(cur).parent {
                Some(p) => {
                    lemma_search_in_range(t, p as int, path.drop_first());
                },
                None => {},
            }
        } else if s == seg_self() {
            lemma_search_in_range(t, cur, path.drop_first());
        } else {
            match assoc_get(t.node(cur).children@, s) {
                Some(c) => {
                    lemma_assoc_get_some_index(t.node(cur).children@, s);
                    lemma_search_in_range(t, c as int, path.drop_first());
                },
                None => {},
            }
        }
    }
}

/// Resolves a qualifier from the module at index `start`, consuming segments
/// left to right.  Pure navigation: it can fail only on a missing module,
/// reporting the offending segment, never on a missing identifier.  An empty
/// qualifier resolves to `start` itself.
pub fn search_module(tree: &ModuleTree, start: usize, qualifier: &Vec<String>) -> (r: Result<
    usize,
    String,
>)
    requires
        tree.wf(),
        start < tree.n(),
    ensures
        match r {
            Ok(m) => m < tree.n() && spec_search(*tree, start as int, path_view(qualifier@))
                == Ok::<int, Seq<char>>(m as int),
            Err(s) => spec_search(*tree, start as int, path_view(qualifier@)) == Err::<
                int,
                Seq<char>,
            >(s@),
        },
        qualifier@.len() == 0 ==> r == Ok::<usize, String>(start),
{
    let ghost pv = path_view(qualifier@);
    let sup: String = "super".to_owned();
    let slf: String = "self".to_owned();
    proof {
        reveal_strlit("super");
        reveal_strlit("self");
    }
    let n = qualifier.len();
    let mut cur: usize = start;
    let mut i: usize = 0;
    proof {
        assert(pv.skip(0) =~= pv);
    }
    while i < n
        invariant
            tree.wf(),
            cur < tree.n(),
            n == qualifier@.len(),
            0 <= i <= n,
            pv == path_view(qualifier@),
            sup@ == seg_super(),
            slf@ == seg_self(),
            spec_search(*tree, start as int, pv) == spec_search(
                *tree,
                cur as int,
                pv.skip(i as int),
            ),
        decreases n - i,
    {
        let seg = &qualifier[i];
        proof {
            assert(pv.skip(i as int)[0] == seg@);
            assert(pv.skip(i as int).drop_first() =~= pv.skip(i as int + 1));
            assert(tree.node_wf(cur as int));
        }
        if <String as PartialEq>::eq(seg, &sup) {
            match tree.nodes[cur].parent {
                Some(p) => {
                    cur = p;
                },
                None => {
                    return Err(seg.clone());
                },
            }
        } else if <String as PartialEq>::eq(seg, &slf) {
        } else {
            match assoc_lookup(&tree.nodes[cur].children, seg) {
                Some(c) => {
                    proof {
                        lemma_assoc_get_some_index(tree.node(cur as int).children@, seg@);
                    }
                    cur = c;
                },
                None => {
                    return Err(seg.clone());
                },
            }
        }
        i += 1;
    }
    proof {
        assert(pv.skip(n as int) =~= Seq::<Seq<char>>::empty());
    }
    Ok(cur)
}

/// Resolves `qualifier` from `start`, then probes the constant namespace of
/// the module reached for `identifier`.  Absence anywhere along the way is
/// reported as `None`.
pub fn search_const(
    tree: &ModuleTree,
    start: usize,
    qualifier: &Vec<String>,
    identifier: &String,
) -> (r: Option<ConstId>)
    requires
        tree.wf(),
        start < tree.n(),
    ensures
        r == spec_search_const(*tree, start as int, path_view(qualifier@), identifier@),
{
    match search_module(tree, start, qualifier) {
        Ok(m) => assoc_lookup(&tree.nodes[m].ids, identifier),
        Err(_) => None,
    }
}

/// Resolves `qualifier` from `start`, then probes the named-hole namespace
/// of the module reached for `identifier`.
pub fn search_namedhole(
    tree: &ModuleTree,
    start: usize,
    qualifier: &Vec<String>,
    identifier: &String,
) -> (r: Option<usize>)
    requires
        tree.wf(),
        start < tree.n(),
    ensures
        r == spec_search_namedhole(*tree, start as int, path_view(qualifier@), identifier@),
{
    match search_module(tree, start, qualifier) {
        Ok(m) => assoc_lookup(&tree.nodes[m].namedhole_ids, identifier),
        Err(_) => None,
    }
}

impl Module {
    /// The anonymous root module: no name, no parent, no entries.
    pub fn anonymous_top() -> (m: Module)
        ensures
            m.name@ == Seq::<char>::empty(),
            m.ids@ =~= Seq::<(String, ConstId)>::empty(),
            m.namedhole_ids@ =~= Seq::<(String, usize)>::empty(),
            m.parent is None,
            m.children@ =~= Seq::<(String, usize)>::empty(),
    {
        proof {
            reveal_strlit("");
        }
        Module {
            name: "".to_owned(),
            ids: Vec::new(),
            namedhole_ids: Vec::new(),
            parent: None,
            children: Vec::new(),
        }
    }

    /// Inserts `name -> id` into the constant namespace, silently replacing
    /// an existing binding of the same name; the module's other attributes
    /// are untouched.
    pub fn register(&mut self, id: ConstId, name: String)
        requires
            distinct_keys(old(self).ids@),
        ensures
            distinct_keys(final(self).ids@),
            assoc_get(final(self).ids@, name@) == Some(id),
            forall|k2: Seq<char>| k2 != name@ ==> assoc_get(final(self).ids@, k2) == assoc_get(
                old(self).ids@,
                k2,
            ),
            final(self).name == old(self).name,
            final(self).namedhole_ids == old(self).namedhole_ids,
            final(self).parent == old(self).parent,
            final(self).children == old(self).children,
    {
        assoc_insert(&mut self.ids, name, id);
    }

    /// Inserts `name -> id` into the named-hole namespace, independent of
    /// the constant namespace, with the same replacement policy.
    pub fn register_namedhole(&mut self, id: usize, name: String)
        requires
            distinct_keys(old(self).namedhole_ids@),
        ensures
            distinct_keys(final(self).namedhole_ids@),
            assoc_get(final(self).namedhole_ids@, name@) == Some(id),
            forall|k2: Seq<char>|
                k2 != name@ ==> assoc_get(final(self).namedhole_ids@, k2) == assoc_get(
                    old(self).namedhole_ids@,
                    k2,
                ),
            final(self).name == old(self).name,
            final(self).ids == old(self).ids,
            final(self).parent == old(self).parent,
            final(self).children == old(self).children,
    {
        assoc_insert(&mut self.namedhole_ids, name, id);
    }

    /// The module's own name; empty for the anonymous root.
    pub fn name(&self) -> (r: &str)
        ensures
            r@ == self.name@,
    {
        self.name.as_str()
    }
}

/// Creates a new child module named `name` under the node at `parent`,
/// linking it back to its parent.  Fails, changing nothing, if `parent`
/// already has a child of that name: submodules never shadow one another.
/// The reserved segments are never valid module names; the caller rejects
/// them at declaration time.
pub fn add_child(tree: &mut ModuleTree, parent: usize, name: String) -> (r: Result<usize, ()>)
    requires
        old(tree).wf(),
        parent < old(tree).n(),
        name@ != seg_super(),
        name@ != seg_self(),
    ensures
        final(tree).wf(),
        match r {
            Err(_) => {
                &&& assoc_get(old(tree).node(parent as int).children@, name@) is Some
                &&& *final(tree) == *old(tree)
            },
            Ok(j) => {
                &&& assoc_get(old(tree).node(parent as int).children@, name@) is None
                &&& j == old(tree).n()
                &&& final(tree).n() == old(tree).n() + 1
                &&& forall|i: int|
                    0 <= i < old(tree).n() && i != parent as int ==> final(tree).node(i) == old(
                        tree,
                    ).node(i)
                &&& final(tree).node(j as int).name@ == name@
                &&& final(tree).node(j as int).parent == Some(parent)
                &&& final(tree).node(j as int).ids@ =~= Seq::<(String, ConstId)>::empty()
                &&& final(tree).node(j as int).namedhole_ids@ =~= Seq::<(String, usize)>::empty()
                &&& final(tree).node(j as int).children@ =~= Seq::<(String, usize)>::empty()
                &&& final(tree).node(parent as int).name == old(tree).node(parent as int).name
                &&& final(tree).node(parent as int).ids == old(tree).node(parent as int).ids
                &&& final(tree).node(parent as int).namedhole_ids == old(tree).node(
                    parent as int,
                ).namedhole_ids
                &&& final(tree).node(parent as int).parent == old(tree).node(parent as int).parent
                &&& final(tree).node(parent as int).children@ =~= old(tree).node(
                    parent as int,
                ).children@.push((name, j))
                &&& assoc_get(final(tree).node(parent as int).children@, name@) == Some(j)
            },
        },
{
    let dup = assoc_lookup(&tree.nodes[parent].children, &name);
    if dup.is_some() {
        return Err(());
    }
    proof {
        lemma_assoc_get_none_no_match(tree.node(parent as int).children@, name@);
    }
    let j = tree.nodes.len();
    let child = Module {
        name: name.clone(),
        ids: Vec::new(),
        namedhole_ids: Vec::new(),
        parent: Some(parent),
        children: Vec::new(),
    };
    tree.nodes.push(child);
    let entry_name = name;
    tree.nodes[parent].children.push((entry_name, j));
    proof {
        let t0 = *old(tree);
        let t1 = *tree;
        assert(t1.node(parent as int).children@ =~= t0.node(parent as int).children@.push(
            (t1.node(parent as int).children@.last().0, j),
        ));
        assert(t1.node(parent as int).children@.last().0@ == name@);
        lemma_assoc_get_push(
            t0.node(parent as int).children@,
            t1.node(parent as int).children@.last(),
            name@,
        );
        assert forall|k2: Seq<char>| true implies assoc_get(t1.node(parent as int).children@, k2)
            == (if assoc_get(t0.node(parent as int).children@, k2) is Some {
            assoc_get(t0.node(parent as int).children@, k2)
        } else if k2 == name@ {
            Some(j)
        } else {
            None::<usize>
        }) by {
            lemma_assoc_get_push(
                t0.node(parent as int).children@,
                t1.node(parent as int).children@.last(),
                k2,
            );
        }
        assert forall|i: int| 0 <= i < t1.n() implies #[trigger] t1.node_wf(i) by {
            if i < t0.n() {
                assert(t0.node_wf(i));
                if i == parent as int {
                    assert(t1.node(i).name == t0.node(i).name);
                    assert(t1.node(i).parent == t0.node(i).parent);
                    assert(t1.node(i).ids == t0.node(i).ids);
                    assert(t1.node(i).namedhole_ids == t0.node(i).namedhole_ids);
                    if t1.node(i).parent is Some {
                        let p2 = t1.node(i).parent->Some_0;
                        assert(t1.node(p2 as int) == t0.node(p2 as int));
                        assert(assoc_get(t1.node(p2 as int).children@, t1.node(i).name@)
                            == assoc_get(t0.node(p2 as int).children@, t0.node(i).name@));
                    }
                    assert forall|c: int|
                        0 <= c < t1.node(i).children@.len() implies {
                        let entry = #[trigger] t1.node(i).children@[c];
                        &&& i < entry.1 < t1.n()
                        &&& t1.node(entry.1 as int).parent matches Some(p) && p as int == i
                        &&& t1.node(entry.1 as int).name@ == entry.0@
                        &&& entry.0@ != seg_super()
                        &&& entry.0@ != seg_self()
                    } by {
                        if c < t0.node(i).children@.len() {
                            assert(t1.node(i).children@[c] == t0.node(i).children@[c]);
                        }
                    }
                    assert(distinct_keys(t1.node(i).children@));
                } else {
                    assert(t1.node(i) == t0.node(i));
                    if t1.node(i).parent is Some {
                        let p2 = t1.node(i).parent->Some_0;
                        if p2 as int == parent as int {
                            assert(assoc_get(t0.node(p2 as int).children@, t1.node(i).name@)
                                matches Some(v) && v as int == i);
                        } else {
                            assert(t1.node(p2 as int) == t0.node(p2 as int));
                        }
                    }
                    assert forall|c: int|
                        0 <= c < t1.node(i).children@.len() implies {
                        let entry = #[trigger] t1.node(i).children@[c];
                        &&& i < entry.1 < t1.n()
                        &&& t1.node(entry.1 as int).parent matches Some(p) && p as int == i
                        &&& t1.node(entry.1 as int).name@ == entry.0@
                        &&& entry.0@ != seg_super()
                        &&& entry.0@ != seg_self()
                    } by {
                        assert(t0.node(i).children@[c] == t1.node(i).children@[c]);
                        let entry = t1.node(i).children@[c];
                        assert(entry.1 as int != j as int);
                        if entry.1 as int == parent as int {
                            assert(t1.node(entry.1 as int).parent == t0.node(
                                entry.1 as int,
                            ).parent);
                        }
                    }
                }
            } else {
                assert(i == j as int);
                assert(distinct_keys(t1.node(i).ids@));
                assert(distinct_keys(t1.node(i).namedhole_ids@));
                assert(distinct_keys(t1.node(i).children@));
                assert(assoc_get(t1.node(parent as int).children@, t1.node(i).name@)
                    matches Some(v) && v as int == i);
            }
        }
        assert(t1.node(0).parent == t0.node(0).parent);
        assert(t1.node(0).name == t0.node(0).name);
        assert forall|i2: int| 1 <= i2 < t1.n() implies (#[trigger] t1.node(i2)).parent is Some by {
            if i2 == j as int {
            } else if i2 == parent as int {
                assert(t1.node(i2).parent == t0.node(i2).parent);
            } else {
                assert(t1.node(i2) == t0.node(i2));
            }
        }
    }
    Ok(j)
}

// ---------------------------------------------------------------------------
// The scope chain.
// ---------------------------------------------------------------------------

/// A fully-qualified name as registered through a scope: the qualifier path
/// and the leaf identifier.  Kept only for introspection and printing, never
/// consulted during resolution.
pub struct Name {
    pub qualifier: Vec<String>,
    pub identifier: String,
}

impl Name {
    /// A name with an empty qualifier.
    pub fn simple(identifier: String) -> (n: Name)
        ensures
            n.qualifier@ =~= Seq::<String>::empty(),
            n.identifier == identifier,
    {
        Name { qualifier: Vec::new(), identifier }
    }
}

/// A lexical resolution context: one anchored module (by index into the
/// tree), the log of names registered through this scope, and the optional
/// enclosing scope.  Scope nesting is independent of module nesting.
pub struct Scope {
    pub module: usize,
    pub names: Vec<Name>,
    pub parent: Option<Box<Scope>>,
}

impl Scope {
    /// Every module index along the chain is inside the arena.
    pub open spec fn wf(self, tree: ModuleTree) -> bool
        decreases self,
    {
        &&& self.module < tree.n()
        &&& (self.parent matches Some(p) ==> p.wf(tree))
    }

    /// Resolution along the chain: probe the anchored module under the full
    /// qualifier; on a miss (of the module path or of the identifier), retry
    /// the entire resolution in the enclosing scope.
    pub open spec fn spec_resolve(
        self,
        tree: ModuleTree,
        path: Seq<Seq<char>>,
        id: Seq<char>,
    ) -> Option<ConstId>
        decreases self,
    {
        match spec_search_const(tree, self.module as int, path, id) {
            Some(c) => Some(c),
            None => match self.parent {
                Some(p) => p.spec_resolve(tree, path, id),
                None => None,
            },
        }
    }

    /// The same resolution against the named-hole namespaces; constants and
    /// named holes never interact.
    pub open spec fn spec_resolve_namedhole(
        self,
        tree: ModuleTree,
        path: Seq<Seq<char>>,
        id: Seq<char>,
    ) -> Option<usize>
        decreases self,
    {
        match spec_search_namedhole(tree, self.module as int, path, id) {
            Some(c) => Some(c),
            None => match self.parent {
                Some(p) => p.spec_resolve_namedhole(tree, path, id),
                None => None,
            },
        }
    }

    /// Well-formedness depends on the tree only through its node count.
    pub proof fn lemma_wf_same_len(self, t1: ModuleTree, t2: ModuleTree)
        requires
            self.wf(t1),
            t1.n() == t2.n(),
        ensures
            self.wf(t2),
        decreases self,
    {
        match self.parent {
            Some(p) => {
                p.lemma_wf_same_len(t1, t2);
            },
            None => {},
        }
    }

    /// A fresh root scope over a fresh root module in a fresh arena.
    pub fn top() -> (r: (ModuleTree, Scope))
        ensures
            r.0.wf(),
            r.1.wf(r.0),
            r.0.n() == 1,
            r.0.node(0).ids@ =~= Seq::<(String, ConstId)>::empty(),
            r.0.node(0).namedhole_ids@ =~= Seq::<(String, usize)>::empty(),
            r.0.node(0).children@ =~= Seq::<(String, usize)>::empty(),
            r.1.module == 0,
            r.1.names@ =~= Seq::<Name>::empty(),
            r.1.parent is None,
    {
        let mut nodes: Vec<Module> = Vec::new();
        nodes.push(Module::anonymous_top());
        let tree = ModuleTree { nodes };
        let scope = Scope { module: 0, names: Vec::new(), parent: None };
        proof {
            assert forall|i: int| 0 <= i < tree.n() implies #[trigger] tree.node_wf(i) by {
                assert(i == 0);
            }
        }
        (tree, scope)
    }

    /// A scope anchored at `module` whose lexical parent is `parent`; the
    /// anchored module need not be related to the parent scope's module in
    /// the tree.
    pub fn new(module: usize, parent: Scope) -> (s: Scope)
        ensures
            s.module == module,
            s.names@ =~= Seq::<Name>::empty(),
            s.parent matches Some(p) && *p == parent,
    {
        Scope { module, names: Vec::new(), parent: Some(Box::new(parent)) }
    }

    /// Resolves a qualified name to a constant id: probe this scope's module,
    /// and on any miss retry the whole resolution — the same qualifier and
    /// identifier — in the enclosing scope.  `None` when the chain is
    /// exhausted.
    pub fn resolve(&self, tree: &ModuleTree, qualifier: &Vec<String>, identifier: &String) -> (r:
        Option<ConstId>)
        requires
            tree.wf(),
            self.wf(*tree),
        ensures
            r == self.spec_resolve(*tree, path_view(qualifier@), identifier@),
        decreases *self,
    {
        match search_const(tree, self.module, qualifier, identifier) {
            Some(c) => Some(c),
            None => match &self.parent {
                Some(p) => p.resolve(tree, qualifier, identifier),
                None => None,
            },
        }
    }

    /// Resolution of a parsed qualified identifier.
    pub fn resolve_from_ident(&self, tree: &ModuleTree, ident: &Ident) -> (r: Option<ConstId>)
        requires
            tree.wf(),
            self.wf(*tree),
        ensures
            r == self.spec_resolve(*tree, path_view(ident.domain@), ident.name@),
    {
        self.resolve(tree, &ident.domain, &ident.name)
    }

    /// The index of the module this scope is anchored at.
    pub fn module(&self) -> (r: usize)
        ensures
            r == self.module,
    {
        self.module
    }

    /// Resolves a parsed qualified identifier against the named-hole
    /// namespaces, by the same chain discipline as `resolve`; the two
    /// namespaces never interact.
    pub fn resolve_namedhole(&self, tree: &ModuleTree, ident: &Ident) -> (r: Option<usize>)
        requires
            tree.wf(),
            self.wf(*tree),
        ensures
            r == self.spec_resolve_namedhole(*tree, path_view(ident.domain@), ident.name@),
        decreases *self,
    {
        match search_namedhole(tree, self.module, &ident.domain, &ident.name) {
            Some(c) => Some(c),
            None => match &self.parent {
                Some(p) => p.resolve_namedhole(tree, ident),
                None => None,
            },
        }
    }

    /// Registers `identifier -> cid` in the module that `qualifier` reaches
    /// from this scope's own module — never from an ancestor scope's module —
    /// and logs the fully-qualified name in this scope.  Fails with the
    /// unresolved segment, changing nothing, if the qualifier does not
    /// resolve from here.
    pub fn register_const(
        &mut self,
        tree: &mut ModuleTree,
        qualifier: &Vec<String>,
        identifier: String,
        cid: ConstId,
    ) -> (r: Result<ConstId, String>)
        requires
            old(tree).wf(),
            old(self).wf(*old(tree)),
        ensures
            final(tree).wf(),
            final(self).wf(*final(tree)),
            final(tree).n() == old(tree).n(),
            final(self).module == old(self).module,
            final(self).parent == old(self).parent,
            match spec_search(*old(tree), old(self).module as int, path_view(qualifier@)) {
                Err(seg) => {
                    &&& r matches Err(s) && s@ == seg
                    &&& *final(tree) == *old(tree)
                    &&& *final(self) == *old(self)
                },
                Ok(m) => {
                    &&& r == Ok::<ConstId, String>(cid)
                    &&& forall|i: int|
                        0 <= i < old(tree).n() && i != m ==> final(tree).node(i) == old(
                            tree,
                        ).node(i)
                    &&& final(tree).node(m).name == old(tree).node(m).name
                    &&& final(tree).node(m).parent == old(tree).node(m).parent
                    &&& final(tree).node(m).children == old(tree).node(m).children
                    &&& final(tree).node(m).namedhole_ids == old(tree).node(m).namedhole_ids
                    &&& assoc_get(final(tree).node(m).ids@, identifier@) == Some(cid)
                    &&& forall|k2: Seq<char>|
                        k2 != identifier@ ==> assoc_get(final(tree).node(m).ids@, k2) == assoc_get(
                            old(tree).node(m).ids@,
                            k2,
                        )
                    &&& final(self).names@.len() == old(self).names@.len() + 1
                    &&& forall|i: int|
                        0 <= i < old(self).names@.len() ==> final(self).names@[i] == old(
                            self,
                        ).names@[i]
                    &&& final(self).names@.last().qualifier@ =~= qualifier@
                    &&& final(self).names@.last().identifier == identifier
                },
            },
    {
        let m = match search_module(tree, self.module, qualifier) {
            Ok(m) => m,
            Err(seg) => {
                return Err(seg);
            },
        };
        proof {
            assert(tree.node_wf(m as int));
        }
        let qual = clone_string_vec(qualifier);
        assoc_insert(&mut tree.nodes[m].ids, identifier.clone(), cid);
        self.names.push(Name { qualifier: qual, identifier });
        proof {
            let t0 = *old(tree);
            let t1 = *tree;
            assert forall|i: int| 0 <= i < t1.n() implies #[trigger] t1.node_wf(i) by {
                assert(t0.node_wf(i));
                if i != m as int {
                    assert(t1.node(i) == t0.node(i));
                }
                assert(t1.node(i).children@ == t0.node(i).children@);
                assert(t1.node(i).parent == t0.node(i).parent);
                assert(t1.node(i).name == t0.node(i).name);
                assert forall|c: int|
                    0 <= c < t1.node(i).children@.len() implies {
                    let entry = #[trigger] t1.node(i).children@[c];
                    &&& i < entry.1 < t1.n()
                    &&& t1.node(entry.1 as int).parent matches Some(p) && p as int == i
                    &&& t1.node(entry.1 as int).name@ == entry.0@
                    &&& entry.0@ != seg_super()
                    &&& entry.0@ != seg_self()
                } by {
                    let entry = t1.node(i).children@[c];
                    assert(t0.node(i).children@[c] == entry);
                    assert(t1.node(entry.1 as int).parent == t0.node(entry.1 as int).parent);
                    assert(t1.node(entry.1 as int).name == t0.node(entry.1 as int).name);
                }
                if t1.node(i).parent is Some {
                    let p2 = t1.node(i).parent->Some_0;
                    assert(t1.node(p2 as int).children@ == t0.node(p2 as int).children@);
                }
            }
            assert(t1.node(0).parent == t0.node(0).parent);
            assert(t1.node(0).name == t0.node(0).name);
            assert forall|i2: int| 1 <= i2 < t1.n() implies (#[trigger] t1.node(
                i2,
            )).parent is Some by {
                assert(t1.node(i2).parent == t0.node(i2).parent);
            }
            old(self).lemma_wf_same_len(t0, t1);
        }
        Ok(cid)
    }

    /// Registers a named hole in the module that the identifier's domain
    /// reaches from this scope's own module.  On an unresolvable domain,
    /// fails with the offending segment and the identifier's source
    /// location, changing nothing.
    pub fn register_namedhole(&self, tree: &mut ModuleTree, name: Ident, id: usize) -> (r: Result<
        (),
        (TranslateErr, Loc),
    >)
        requires
            old(tree).wf(),
            self.wf(*old(tree)),
        ensures
            final(tree).wf(),
            final(tree).n() == old(tree).n(),
            match spec_search(*old(tree), self.module as int, path_view(name.domain@)) {
                Err(seg) => {
                    &&& r matches Err(e) && e.0 matches TranslateErr::UndefinedModule {
                        name: s,
                    } && s@ == seg && e.1 == name.loc
                    &&& *final(tree) == *old(tree)
                },
                Ok(m) => {
                    &&& r is Ok
                    &&& forall|i: int|
                        0 <= i < old(tree).n() && i != m ==> final(tree).node(i) == old(
                            tree,
                        ).node(i)
                    &&& final(tree).node(m).name == old(tree).node(m).name
                    &&& final(tree).node(m).parent == old(tree).node(m).parent
                    &&& final(tree).node(m).children == old(tree).node(m).children
                    &&& final(tree).node(m).ids == old(tree).node(m).ids
                    &&& assoc_get(final(tree).node(m).namedhole_ids@, name.name@) == Some(id)
                    &&& forall|k2: Seq<char>|
                        k2 != name.name@ ==> assoc_get(final(tree).node(m).namedhole_ids@, k2)
                            == assoc_get(old(tree).node(m).namedhole_ids@, k2)
                },
            },
    {
        let m = match search_module(tree, self.module, &name.domain) {
            Ok(m) => m,
            Err(seg) => {
                return Err((TranslateErr::UndefinedModule { name: seg }, name.loc));
            },
        };
        proof {
            assert(tree.node_wf(m as int));
        }
        assoc_insert(&mut tree.nodes[m].namedhole_ids, name.name, id);
        proof {
            let t0 = *old(tree);
            let t1 = *tree;
            assert forall|i: int| 0 <= i < t1.n() implies #[trigger] t1.node_wf(i) by {
                assert(t0.node_wf(i));
                if i != m as int {
                    assert(t1.node(i) == t0.node(i));
                }
                assert(t1.node(i).children@ == t0.node(i).children@);
                assert forall|c: int|
                    0 <= c < t1.node(i).children@.len() implies {
                    let entry = #[trigger] t1.node(i).children@[c];
                    &&& i < entry.1 < t1.n()
                    &&& t1.node(entry.1 as int).parent matches Some(p) && p as int == i
                    &&& t1.node(entry.1 as int).name@ == entry.0@
                    &&& entry.0@ != seg_super()
                    &&& entry.0@ != seg_self()
                } by {
                    let entry = t1.node(i).children@[c];
                    assert(t0.node(i).children@[c] == entry);
                    assert(t1.node(entry.1 as int).parent == t0.node(entry.1 as int).parent);
                    assert(t1.node(entry.1 as int).name == t0.node(entry.1 as int).name);
                }
                if t1.node(i).parent is Some {
                    let p2 = t1.node(i).parent->Some_0;
                    assert(t1.node(p2 as int).children@ == t0.node(p2 as int).children@);
                }
            }
            assert(t1.node(0).parent == t0.node(0).parent);
            assert(t1.node(0).name == t0.node(0).name);
            assert forall|i2: int| 1 <= i2 < t1.n() implies (#[trigger] t1.node(
                i2,
            )).parent is Some by {
                assert(t1.node(i2).parent == t0.node(i2).parent);
            }
        }
        Ok(())
    }

    /// Read-only view of the names registered through this scope, in
    /// registration order.
    pub fn names(&self) -> (r: &Vec<Name>)
        ensures
            r == &self.names,
    {
        &self.names
    }
}

// ---------------------------------------------------------------------------
// Laws of the tree and of the chain.
// ---------------------------------------------------------------------------

/// Concatenation of qualifiers: navigating `p1 + p2` is navigating `p1`
/// and then, from the module reached, `p2`; an early failure is final.
pub proof fn lemma_search_append(t: ModuleTree, cur: int, p1: Seq<Seq<char>>, p2: Seq<Seq<char>>)
    ensures
        spec_search(t, cur, p1 + p2) == (match spec_search(t, cur, p1) {
            Ok(m) => spec_search(t, m, p2),
            Err(e) => Err::<int, Seq<char>>(e),
        }),
    decreases p1.len(),
{
    if p1.len() == 0 {
        assert(p1 + p2 =~= p2);
    } else {
        let s = p1[0];
        assert((p1 + p2)[0] == s);
        assert((p1 + p2).drop_first() =~= p1.drop_first() + p2);
        if s == seg_super() {
            match t.node(cur).parent {
                Some(p) => {
                    lemma_search_append(t, p as int, p1.drop_first(), p2);
                },
                None => {},
            }
        } else if s == seg_self() {
            lemma_search_append(t, cur, p1.drop_first(), p2);
        } else {
            match assoc_get(t.node(cur).children@, s) {
                Some(c) => {
                    lemma_search_append(t, c as int, p1.drop_first(), p2);
                },
                None => {},
            }
        }
    }
}

/// `m` lies on the parent chain of `j` (or is `j` itself).
pub open spec fn is_ancestor(t: ModuleTree, m: int, j: int) -> bool
    decreases j,
{
    j == m || (0 <= j < t.n() && match t.node(j).parent {
        Some(p) => p < j && is_ancestor(t, m, p as int),
        None => false,
    })
}

/// The path of child names from `m` down to its descendant `j`; empty when
/// the two coincide.
pub open spec fn path_between(t: ModuleTree, m: int, j: int) -> Seq<Seq<char>>
    decreases j,
{
    if j == m {
        Seq::empty()
    } else if 0 <= j < t.n() {
        match t.node(j).parent {
            Some(p) => if p < j {
                path_between(t, m, p as int).push(t.node(j).name@)
            } else {
                Seq::empty()
            },
            None => Seq::empty(),
        }
    } else {
        Seq::empty()
    }
}

/// A qualifier of `n` `"super"` segments.
pub open spec fn supers(n: nat) -> Seq<Seq<char>> {
    Seq::new(n, |i| seg_super())
}

/// One parent/child edge, both ways: from the parent, the child's own name
/// descends to the child; from the child, `"super"` returns to the parent.
pub proof fn lemma_child_round_trip(t: ModuleTree, j: int)
    requires
        t.wf(),
        1 <= j < t.n(),
    ensures
        t.node(j).parent matches Some(p) && {
            &&& spec_search(t, p as int, seq![t.node(j).name@]) == Ok::<int, Seq<char>>(j)
            &&& spec_search(t, j, seq![seg_super()]) == Ok::<int, Seq<char>>(p as int)
        },
{
    assert(t.node_wf(j));
    let p = t.node(j).parent->Some_0;
    assert(t.node_wf(p as int));
    let ch = t.node(p as int).children@;
    let nm = t.node(j).name@;
    assert(assoc_get(ch, nm) matches Some(v) && v as int == j);
    lemma_assoc_get_some_index(ch, nm);
    let c = choose|c: int|
        0 <= c < ch.len() && #[trigger] ch[c].0@ == nm && ch[c].1 == assoc_get(ch, nm)->Some_0;
    assert(ch[c].0@ != seg_super() && ch[c].0@ != seg_self());
    assert(nm != seg_super());
    assert(nm != seg_self());
    let path1 = seq![nm];
    assert(path1.len() == 1);
    assert(path1[0] == nm);
    assert(path1.drop_first() =~= Seq::<Seq<char>>::empty());
    assert(spec_search(t, j, Seq::<Seq<char>>::empty()) == Ok::<int, Seq<char>>(j));
    assert(spec_search(t, p as int, path1) == spec_search(
        t,
        assoc_get(ch, nm)->Some_0 as int,
        path1.drop_first(),
    ));
    let path2 = seq![seg_super()];
    assert(path2.len() == 1);
    assert(path2[0] == seg_super());
    assert(path2.drop_first() =~= Seq::<Seq<char>>::empty());
    assert(spec_search(t, p as int, Seq::<Seq<char>>::empty()) == Ok::<int, Seq<char>>(p as int));
    assert(spec_search(t, j, path2) == spec_search(t, p as int, path2.drop_first()));
}

/// Tree integrity, from any node: a descendant is reached from its
/// ancestor by the path that exactly retraces the child names between
/// them, and as many `"super"` segments lead from the descendant back up.
pub proof fn lemma_retrace(t: ModuleTree, m: int, j: int)
    requires
        t.wf(),
        0 <= m < t.n(),
        0 <= j < t.n(),
        is_ancestor(t, m, j),
    ensures
        spec_search(t, m, path_between(t, m, j)) == Ok::<int, Seq<char>>(j),
        spec_search(t, j, supers(path_between(t, m, j).len() as nat)) == Ok::<int, Seq<char>>(m),
    decreases j,
{
    if j == m {
        assert(path_between(t, m, j) =~= Seq::<Seq<char>>::empty());
        assert(supers(0) =~= Seq::<Seq<char>>::empty());
    } else {
        assert(t.node_wf(j));
        let p = t.node(j).parent->Some_0;
        lemma_retrace(t, m, p as int);
        lemma_child_round_trip(t, j);
        assert(path_between(t, m, j) =~= path_between(t, m, p as int) + seq![t.node(j).name@]);
        lemma_search_append(t, m, path_between(t, m, p as int), seq![t.node(j).name@]);
        let d = path_between(t, m, p as int).len() as nat;
        assert(supers(d + 1) =~= seq![seg_super()] + supers(d));
        lemma_search_append(t, j, seq![seg_super()], supers(d));
    }
}

/// The root is an ancestor of every node.
pub proof fn lemma_root_is_ancestor(t: ModuleTree, j: int)
    requires
        t.wf(),
        0 <= j < t.n(),
    ensures
        is_ancestor(t, 0, j),
    decreases j,
{
    if j != 0 {
        assert(t.node_wf(j));
        lemma_root_is_ancestor(t, t.node(j).parent->Some_0 as int);
    }
}

/// Tree integrity from the root: every node is reachable from the root by
/// finitely many `children` steps — the path that retraces its ancestors'
/// names — and `"super"` repeated as many times leads back to the root.
pub proof fn lemma_tree_integrity(t: ModuleTree, j: int)
    requires
        t.wf(),
        0 <= j < t.n(),
    ensures
        is_ancestor(t, 0, j),
        spec_search(t, 0, path_between(t, 0, j)) == Ok::<int, Seq<char>>(j),
        spec_search(t, j, supers(path_between(t, 0, j).len() as nat)) == Ok::<int, Seq<char>>(0),
{
    lemma_root_is_ancestor(t, j);
    lemma_retrace(t, 0, j);
}

/// Two trees with the same nodes, names, parent links and children; only
/// the flat namespaces may differ.
pub open spec fn same_shape(t1: ModuleTree, t2: ModuleTree) -> bool {
    &&& t1.n() == t2.n()
    &&& forall|i: int|
        0 <= i < t1.n() ==> {
            &&& (#[trigger] t2.node(i)).name@ == t1.node(i).name@
            &&& t2.node(i).parent == t1.node(i).parent
            &&& t2.node(i).children@ == t1.node(i).children@
        }
}

/// Navigation reads only the shape of the tree.
pub proof fn lemma_search_same_shape(t1: ModuleTree, t2: ModuleTree, cur: int, path: Seq<Seq<char>>)
    requires
        t1.wf(),
        same_shape(t1, t2),
        0 <= cur < t1.n(),
    ensures
        spec_search(t1, cur, path) == spec_search(t2, cur, path),
    decreases path.len(),
{
    if path.len() == 0 {
    } else {
        let s = path[0];
        assert(t1.node_wf(cur));
        if s == seg_super() {
            match t1.node(cur).parent {
                Some(p) => {
                    lemma_search_same_shape(t1, t2, p as int, path.drop_first());
                },
                None => {},
            }
        } else if s == seg_self() {
            lemma_search_same_shape(t1, t2, cur, path.drop_first());
        } else {
            match assoc_get(t1.node(cur).children@, s) {
                Some(c) => {
                    lemma_assoc_get_some_index(t1.node(cur).children@, s);
                    lemma_search_same_shape(t1, t2, c as int, path.drop_first());
                },
                None => {},
            }
        }
    }
}

/// Namespace independence, one direction: resolution of named holes reads
/// only the shape and the named-hole namespaces, so a change that touches
/// only constant namespaces — as `register_const` does — cannot affect it.
pub proof fn lemma_namespace_independence_holes(
    t1: ModuleTree,
    t2: ModuleTree,
    s: Scope,
    path: Seq<Seq<char>>,
    id: Seq<char>,
)
    requires
        t1.wf(),
        same_shape(t1, t2),
        s.wf(t1),
        forall|i: int|
            0 <= i < t1.n() ==> (#[trigger] t2.node(i)).namedhole_ids@ == t1.node(
                i,
            ).namedhole_ids@,
    ensures
        s.spec_resolve_namedhole(t1, path, id) == s.spec_resolve_namedhole(t2, path, id),
    decreases s,
{
    lemma_search_same_shape(t1, t2, s.module as int, path);
    if spec_search(t1, s.module as int, path) is Ok {
        lemma_search_in_range(t1, s.module as int, path);
    }
    match s.parent {
        Some(p) => {
            lemma_namespace_independence_holes(t1, t2, *p, path, id);
        },
        None => {},
    }
}

/// Namespace independence, the other direction: resolution of constants
/// cannot be affected by a change that touches only named-hole namespaces —
/// as `register_namedhole` does.
pub proof fn lemma_namespace_independence_consts(
    t1: ModuleTree,
    t2: ModuleTree,
    s: Scope,
    path: Seq<Seq<char>>,
    id: Seq<char>,
)
    requires
        t1.wf(),
        same_shape(t1, t2),
        s.wf(t1),
        forall|i: int| 0 <= i < t1.n() ==> (#[trigger] t2.node(i)).ids@ == t1.node(i).ids@,
    ensures
        s.spec_resolve(t1, path, id) == s.spec_resolve(t2, path, id),
    decreases s,
{
    lemma_search_same_shape(t1, t2, s.module as int, path);
    if spec_search(t1, s.module as int, path) is Ok {
        lemma_search_in_range(t1, s.module as int, path);
    }
    match s.parent {
        Some(p) => {
            lemma_namespace_independence_consts(t1, t2, *p, path, id);
        },
        None => {},
    }
}

/// Scope fallback order: a scope whose own module answers the lookup wins,
/// and one whose module does not answer defers to its enclosing scope with
/// the very same qualifier and identifier — so the nearest enclosing scope
/// that can resolve the name decides.
pub proof fn lemma_scope_fallback(
    tree: ModuleTree,
    s: Scope,
    parent: Scope,
    path: Seq<Seq<char>>,
    id: Seq<char>,
)
    requires
        s.parent matches Some(p) && *p == parent,
    ensures
        spec_search_const(tree, s.module as int, path, id) matches Some(c) ==> s.spec_resolve(
            tree,
            path,
            id,
        ) == Some(c),
        spec_search_const(tree, s.module as int, path, id) is None ==> s.spec_resolve(tree, path, id)
            == parent.spec_resolve(tree, path, id),
{
}

/// An element-wise copy of a vector of strings.
fn clone_string_vec(v: &Vec<String>) -> (r: Vec<String>)
    ensures
        r@ =~= v@,
{
    let mut r: Vec<String> = Vec::new();
    let n = v.len();
    let mut i: usize = 0;
    while i < n
        invariant
            n == v@.len(),
            0 <= i <= n,
            r@ =~= v@.subrange(0, i as int),
        decreases n - i,
    {
        r.push(v[i].clone());
        proof {
            assert(r@ =~= v@.subrange(0, i as int + 1));
        }
        i += 1;
    }
    r
}

} // verus!
