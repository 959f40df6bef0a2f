//! Ways down from a class to its fields: which field a row shows, and which
//! rows can be opened up.

use crate::app_state::{AppState, AppV};
use crate::expand::{dup_path, ExpandV, Spot};
use crate::node::{array_depth, nodes_view, ClassId, Node, NodeKind, NodeV, PathSeg};
use crate::registry::{class_at, known, ClassRegistry, ClassV, RegistryV};
use vstd::prelude::*;

verus! {

// ---------------------------------------------------------------------------
// Which field a row shows
// ---------------------------------------------------------------------------

/// Where a way down has come to.
pub struct Stand {
    /// The class whose fields come next.
    pub class: ClassId,
    /// The field last named.
    pub owner: (ClassId, usize),
    /// What that field, or the element last named, is.
    pub kind: Option<NodeKind>,
}

/// The class whose fields come next after `kind`: its target where it has one
/// directly, else `class` still.
pub open spec fn class_after(class: ClassId, kind: NodeKind) -> ClassId {
    match kind {
        NodeKind::ClassInstance { class_id } => class_id,
        NodeKind::ClassPtr { class_id } => class_id,
        _ => class,
    }
}

/// One step down, where there is such a field or element.
pub open spec fn step(v: RegistryV, at: Stand, seg: PathSeg) -> Option<Stand> {
    match seg {
        PathSeg::Node(i) => if v.has(at.class) && i < v.nodes(at.class).len() {
            let kind = v.nodes(at.class)[i as int].kind;
            Some(
                Stand {
                    class: class_after(at.class, kind),
                    owner: (at.class, i),
                    kind: Some(kind),
                },
            )
        } else {
            None
        },
        PathSeg::Elem(_) => match at.kind {
            Some(NodeKind::Array { element, count }) => Some(
                Stand {
                    class: class_after(at.class, *element),
                    owner: at.owner,
                    kind: Some(*element),
                },
            ),
            _ => None,
        },
    }
}

/// All of the way down.
pub open spec fn walked(v: RegistryV, root: ClassId, path: Seq<PathSeg>) -> Option<Stand>
    decreases path.len(),
{
    if path.len() == 0 {
        Some(Stand { class: root, owner: (root, 0), kind: None })
    } else {
        match walked(v, root, path.drop_last()) {
            Some(at) => step(v, at, path.last()),
            None => None,
        }
    }
}

proof fn lemma_walk_stays_lost(v: RegistryV, root: ClassId, path: Seq<PathSeg>, i: int)
    requires
        0 <= i <= path.len(),
        walked(v, root, path.take(i)) is None,
    ensures
        walked(v, root, path) is None,
    decreases path.len(),
{
    if i == path.len() {
        assert(path.take(i) =~= path);
    } else {
        assert(path.drop_last().take(i) =~= path.take(i));
        lemma_walk_stays_lost(v, root, path.drop_last(), i);
    }
}

impl AppState {
    /// Resolve a row path to the `(owning class, node index)` it identifies.
    pub fn resolve_owner(&self, root_class: ClassId, path: &Vec<PathSeg>) -> (r: Option<
        (ClassId, usize),
    >)
        requires
            self.wf(),
        ensures
            r == match walked(self@.project.registry, root_class, path@) {
                Some(at) => Some(at.owner),
                None => None,
            },
    {
        let ghost v = self@.project.registry;
        let reg = &self.project.registry;
        let mut class: ClassId = root_class;
        let mut owner: (ClassId, usize) = (root_class, 0);
        let mut kind: Option<NodeKind> = None;
        let mut i: usize = 0;
        proof {
            assert(path@.take(0) =~= Seq::<PathSeg>::empty());
        }
        while i < path.len()
            invariant
                reg@ == v,
                v == self@.project.registry,
                v.wf(),
                i <= path@.len(),
                walked(v, root_class, path@.take(i as int)) == Some(Stand { class, owner, kind }),
            decreases path@.len() - i,
        {
            proof {
                let p = path@.take(i as int + 1);
                assert(p.drop_last() =~= path@.take(i as int));
                assert(p.last() == path@[i as int]);
                if walked(v, root_class, p) is None {
                    lemma_walk_stays_lost(v, root_class, path@, i as int + 1);
                }
            }
            match path[i] {
                PathSeg::Node(n) => {
                    let c = match reg.get(class) {
                        Some(c) => c,
                        None => {
                            return None;
                        },
                    };
                    if n >= c.nodes.len() {
                        return None;
                    }
                    let k = c.nodes[n].kind.dup();
                    owner = (class, n);
                    match &k {
                        NodeKind::ClassInstance { class_id } => {
                            class = *class_id;
                        },
                        NodeKind::ClassPtr { class_id } => {
                            class = *class_id;
                        },
                        _ => {},
                    }
                    kind = Some(k);
                },
                PathSeg::Elem(_) => {
                    let taken = kind;
                    match taken {
                        Some(NodeKind::Array { element, count: _ }) => {
                            let inner: NodeKind = *element;
                            match &inner {
                                NodeKind::ClassInstance { class_id } => {
                                    class = *class_id;
                                },
                                NodeKind::ClassPtr { class_id } => {
                                    class = *class_id;
                                },
                                _ => {},
                            }
                            kind = Some(inner);
                        },
                        _ => {
                            return None;
                        },
                    }
                },
            }
            i = i + 1;
        }
        proof {
            assert(path@.take(i as int) =~= path@);
        }
        Some(owner)
    }
}

/// The fields of the class that a path starts from are their own owners.
pub proof fn law_field_owns_its_row(v: RegistryV, c: ClassId, i: usize)
    ensures
        v.has(c) && i < v.nodes(c).len() ==> (walked(v, c, seq![PathSeg::Node(i)]) matches Some(at)
            && at.owner == (c, i)),
        !(v.has(c) && i < v.nodes(c).len()) ==> walked(v, c, seq![PathSeg::Node(i)]) is None,
{
    let p = seq![PathSeg::Node(i)];
    assert(p.drop_last() =~= Seq::<PathSeg>::empty());
    reveal_with_fuel(walked, 2);
}

/// Behind a pointer to a class, and inside an inline instance of one, a row
/// belongs to that class: where a path has come to a field or an element of kind
/// `ClassPtr` or `ClassInstance` of class `t`, field `i` of `t` comes next.
pub proof fn law_path_goes_on_in_the_target(
    v: RegistryV,
    root: ClassId,
    path: Seq<PathSeg>,
    t: ClassId,
    i: usize,
)
    requires
        walked(v, root, path) matches Some(at) && (at.kind == Some(
            NodeKind::ClassPtr { class_id: t },
        ) || at.kind == Some(NodeKind::ClassInstance { class_id: t })),
    ensures
        v.has(t) && i < v.nodes(t).len() ==> (walked(v, root, path.push(PathSeg::Node(i))) matches
            Some(at) && at.owner == (t, i) && at.kind == Some(v.nodes(t)[i as int].kind)),
        !(v.has(t) && i < v.nodes(t).len()) ==> walked(v, root, path.push(PathSeg::Node(i))) is None,
{
    lemma_stand_kind(v, root, path);
    assert(path.push(PathSeg::Node(i)).drop_last() =~= path);
}

/// An element of an array belongs to the field that is the array, whatever its
/// number; a way into the elements of anything else leads nowhere.
pub proof fn law_elements_belong_to_their_array(
    v: RegistryV,
    root: ClassId,
    path: Seq<PathSeg>,
    e: usize,
)
    ensures
        walked(v, root, path) matches Some(at) ==> (match at.kind {
            Some(NodeKind::Array { element, count }) => walked(
                v,
                root,
                path.push(PathSeg::Elem(e)),
            ) matches Some(next) && next.owner == at.owner && next.kind == Some(*element),
            _ => walked(v, root, path.push(PathSeg::Elem(e))) is None,
        }),
{
    assert(path.push(PathSeg::Elem(e)).drop_last() =~= path);
}

/// Once a way down leads nowhere, no way further down leads anywhere.
pub proof fn law_lost_path_stays_lost(
    v: RegistryV,
    root: ClassId,
    path: Seq<PathSeg>,
    more: Seq<PathSeg>,
)
    requires
        walked(v, root, path) is None,
    ensures
        walked(v, root, path + more) is None,
{
    assert((path + more).take(path.len() as int) =~= path);
    lemma_walk_stays_lost(v, root, path + more, path.len() as int);
}

/// A row two steps down: behind field `n` of class `c`, where that is a pointer
/// to class `t` or an instance of it, row `i` is field `i` of `t`.
pub proof fn law_row_behind_a_pointer(v: RegistryV, c: ClassId, n: usize, t: ClassId, i: usize)
    requires
        v.has(c),
        n < v.nodes(c).len(),
        v.nodes(c)[n as int].kind == (NodeKind::ClassPtr { class_id: t }) || v.nodes(
            c,
        )[n as int].kind == (NodeKind::ClassInstance { class_id: t }),
        v.has(t),
        i < v.nodes(t).len(),
    ensures
        walked(v, c, seq![PathSeg::Node(n), PathSeg::Node(i)]) matches Some(at) && at.owner == (
            t,
            i,
        ),
{
    let one = seq![PathSeg::Node(n)];
    lemma_first_step(v, c, n);
    law_path_goes_on_in_the_target(v, c, one, t, i);
    assert(one.push(PathSeg::Node(i)) =~= seq![PathSeg::Node(n), PathSeg::Node(i)]);
}

/// A row behind an element: where field `n` of class `c` is an array of pointers
/// to class `t` or of instances of it, row `i` behind any element is field `i`
/// of `t`.
pub proof fn law_row_behind_an_element(
    v: RegistryV,
    c: ClassId,
    n: usize,
    e: usize,
    t: ClassId,
    i: usize,
)
    requires
        v.has(c),
        n < v.nodes(c).len(),
        v.nodes(c)[n as int].kind matches NodeKind::Array { element, count } && (*element == (
        NodeKind::ClassPtr { class_id: t }) || *element == (NodeKind::ClassInstance {
            class_id: t,
        })),
        v.has(t),
        i < v.nodes(t).len(),
    ensures
        walked(v, c, seq![PathSeg::Node(n), PathSeg::Elem(e)]) matches Some(at) && at.owner == (
            c,
            n,
        ),
        walked(v, c, seq![PathSeg::Node(n), PathSeg::Elem(e), PathSeg::Node(i)]) matches Some(at)
            && at.owner == (t, i),
{
    let one = seq![PathSeg::Node(n)];
    let two = one.push(PathSeg::Elem(e));
    lemma_first_step(v, c, n);
    law_elements_belong_to_their_array(v, c, one, e);
    law_path_goes_on_in_the_target(v, c, two, t, i);
    assert(two =~= seq![PathSeg::Node(n), PathSeg::Elem(e)]);
    assert(two.push(PathSeg::Node(i)) =~= seq![
        PathSeg::Node(n),
        PathSeg::Elem(e),
        PathSeg::Node(i),
    ]);
}

/// Behind a field or an element that leads to no class nothing changes: a row
/// further down that is named by a number is looked for in the same class.
pub proof fn law_plain_field_leads_nowhere_else(
    v: RegistryV,
    root: ClassId,
    path: Seq<PathSeg>,
    i: usize,
)
    requires
        path.len() > 0,
        path.last() is Node,
        walked(v, root, path) matches Some(at) && (at.kind matches Some(k) && !(k is ClassPtr)
            && !(k is ClassInstance)),
    ensures
        walked(v, root, path.push(PathSeg::Node(i))) matches Some(next) ==> next.owner == (
            (walked(v, root, path)->0).owner.0,
            i,
        ),
{
    assert(path.push(PathSeg::Node(i)).drop_last() =~= path);
}

/// The first step down comes to the field named.
proof fn lemma_first_step(v: RegistryV, c: ClassId, n: usize)
    requires
        v.has(c),
        n < v.nodes(c).len(),
    ensures
        walked(v, c, seq![PathSeg::Node(n)]) matches Some(at) && at.owner == (c, n) && at.kind
            == Some(v.nodes(c)[n as int].kind),
{
    let p = seq![PathSeg::Node(n)];
    assert(p.drop_last() =~= Seq::<PathSeg>::empty());
    reveal_with_fuel(walked, 2);
}

/// Where the last field or element leads to a class, the fields of that class
/// come next.
proof fn lemma_stand_kind(v: RegistryV, root: ClassId, path: Seq<PathSeg>)
    ensures
        walked(v, root, path) matches Some(at) ==> (match at.kind {
            Some(NodeKind::ClassPtr { class_id }) => at.class == class_id,
            Some(NodeKind::ClassInstance { class_id }) => at.class == class_id,
            _ => true,
        }),
{
}

// ---------------------------------------------------------------------------
// Which rows can be opened up
// ---------------------------------------------------------------------------

/// Rows found on a walk, in the order in which they were met.
pub struct Found {
    /// Arrays and inline instances.
    pub aggs: Seq<Seq<PathSeg>>,
    /// Pointers to classes.
    pub ptrs: Seq<Seq<PathSeg>>,
}

impl Found {
    /// Nothing.
    pub open spec fn none() -> Found {
        Found { aggs: Seq::empty(), ptrs: Seq::empty() }
    }

    /// These, then `more`.
    pub open spec fn then_also(self, more: Found) -> Found {
        Found { aggs: self.aggs + more.aggs, ptrs: self.ptrs + more.ptrs }
    }
}

/// How many classes deep a walk goes.
pub const MAX_DEPTH: usize = 16;

/// What a walk is about: the classes, whether pointers are followed, and how
/// many elements of an array count.
pub struct Terrain {
    pub classes: Seq<ClassV>,
    pub follow: bool,
    pub cap: nat,
}

/// Whether elements of this kind can be opened up.
pub open spec fn opens_up(kind: NodeKind) -> bool {
    kind is ClassInstance || kind is ClassPtr || kind is Array
}

/// The rows below a field of kind `kind` at `path`, itself counted. `visited`
/// are the classes on the way, none of which is entered again.
pub open spec fn below_kind(
    t: Terrain,
    visited: Set<ClassId>,
    kind: NodeKind,
    path: Seq<PathSeg>,
    depth: nat,
) -> Found
    decreases 2 * (MAX_DEPTH - depth), array_depth(kind), 0nat,
{
    match kind {
        NodeKind::ClassInstance { class_id } => {
            let me = Found { aggs: seq![path], ptrs: Seq::empty() };
            if depth < MAX_DEPTH && !visited.contains(class_id) {
                me.then_also(below_class(t, visited.insert(class_id), class_id, path, depth + 1))
            } else {
                me
            }
        },
        NodeKind::ClassPtr { class_id } => {
            let me = Found { aggs: Seq::empty(), ptrs: seq![path] };
            if t.follow && depth < MAX_DEPTH && !visited.contains(class_id) {
                me.then_also(below_class(t, visited.insert(class_id), class_id, path, depth + 1))
            } else {
                me
            }
        },
        NodeKind::Array { element, count } => {
            let me = Found { aggs: seq![path], ptrs: Seq::empty() };
            if opens_up(*element) {
                let n = if count <= t.cap {
                    count as nat
                } else {
                    t.cap
                };
                me.then_also(below_elems(t, visited, *element, path, depth, n))
            } else {
                me
            }
        },
        _ => Found::none(),
    }
}

/// The rows below the first `n` elements of an array at `path`.
pub open spec fn below_elems(
    t: Terrain,
    visited: Set<ClassId>,
    element: NodeKind,
    path: Seq<PathSeg>,
    depth: nat,
    n: nat,
) -> Found
    decreases 2 * (MAX_DEPTH - depth), array_depth(element), n + 1,
{
    if n == 0 {
        Found::none()
    } else {
        below_elems(t, visited, element, path, depth, (n - 1) as nat).then_also(
            below_kind(t, visited, element, path.push(PathSeg::Elem((n - 1) as usize)), depth),
        )
    }
}

/// The rows below class `class`, met at `path`.
pub open spec fn below_class(
    t: Terrain,
    visited: Set<ClassId>,
    class: ClassId,
    path: Seq<PathSeg>,
    depth: nat,
) -> Found
    decreases 2 * (MAX_DEPTH - depth) + 1, 1nat, 0nat,
{
    if depth <= MAX_DEPTH && known(t.classes, class) {
        below_nodes(t, visited, class_at(t.classes, class).nodes, path, depth)
    } else {
        Found::none()
    }
}

/// The rows below the fields `nodes` of a class met at `path`.
pub open spec fn below_nodes(
    t: Terrain,
    visited: Set<ClassId>,
    nodes: Seq<NodeV>,
    path: Seq<PathSeg>,
    depth: nat,
) -> Found
    decreases 2 * (MAX_DEPTH - depth) + 1, 0nat, nodes.len(),
{
    if nodes.len() == 0 || depth > MAX_DEPTH {
        Found::none()
    } else {
        let n = (nodes.len() - 1) as nat;
        below_nodes(t, visited, nodes.drop_last(), path, depth).then_also(
            below_kind(t, visited, nodes.last().kind, path.push(PathSeg::Node(n as usize)), depth),
        )
    }
}

/// The paths that a list of paths holds.
pub open spec fn paths_view(s: Seq<Vec<PathSeg>>) -> Seq<Seq<PathSeg>> {
    Seq::new(s.len(), |i: int| s[i]@)
}

/// The classes on the way.
pub open spec fn on_way(s: Seq<ClassId>) -> Set<ClassId> {
    Set::new(|x: ClassId| s.contains(x))
}

/// Bounded static walker that enumerates the aggregate and pointer rows of a
/// class without live reads.
pub struct Walk<'a> {
    pub reg: &'a ClassRegistry,
    pub follow_ptrs: bool,
    pub visited: Vec<ClassId>,
    pub aggs: Vec<Vec<PathSeg>>,
    pub ptrs: Vec<Vec<PathSeg>>,
    /// Element cap for arrays, the one that rendering has, so that
    /// expand/collapse-all covers exactly the elements that get rendered.
    pub elem_cap: usize,
}

impl<'a> Walk<'a> {
    /// What the walk is about.
    pub open spec fn terrain(self) -> Terrain {
        Terrain { classes: self.reg@.classes, follow: self.follow_ptrs, cap: self.elem_cap as nat }
    }

    /// What has been found so far.
    pub open spec fn found(self) -> Found {
        Found { aggs: paths_view(self.aggs@), ptrs: paths_view(self.ptrs@) }
    }

    /// Whether the walk stands where it stood before, with `more` found.
    pub open spec fn came_back(self, before: Walk<'a>, more: Found) -> bool {
        &&& self.reg == before.reg
        &&& self.follow_ptrs == before.follow_ptrs
        &&& self.elem_cap == before.elem_cap
        &&& self.visited@ == before.visited@
        &&& self.found() == before.found().then_also(more)
    }

    /// Whether class `id` is on the way.
    fn has_visited(&self, id: ClassId) -> (r: bool)
        ensures
            r == on_way(self.visited@).contains(id),
    {
        let mut i: usize = 0;
        while i < self.visited.len()
            invariant
                i <= self.visited@.len(),
                forall|k: int| 0 <= k < i ==> self.visited@[k] != id,
            decreases self.visited@.len() - i,
        {
            if self.visited[i] == id {
                return true;
            }
            i = i + 1;
        }
        false
    }

    /// Collect the rows below class `class`.
    pub fn class(&mut self, class: ClassId, base: &Vec<PathSeg>, depth: usize)
        requires
            old(self).reg@.wf(),
            depth <= MAX_DEPTH,
        ensures
            final(self).came_back(
                *old(self),
                below_class(
                    old(self).terrain(),
                    on_way(old(self).visited@),
                    class,
                    base@,
                    depth as nat,
                ),
            ),
        decreases 2 * (MAX_DEPTH - depth) + 1, 1nat, 0nat,
    {
        let ghost t = self.terrain();
        let ghost seen = on_way(self.visited@);
        let reg = self.reg;
        let at: usize = match reg.find(class) {
            Some(i) => i,
            None => {
                proof {
                    assert(self.found().aggs + Seq::<Seq<PathSeg>>::empty() =~= self.found().aggs);
                    assert(self.found().ptrs + Seq::<Seq<PathSeg>>::empty() =~= self.found().ptrs);
                }
                return;
            },
        };
        let nodes: &Vec<Node> = &reg.classes[at].nodes;
        let ghost all = nodes_view(nodes@);
        let ghost start = *self;
        let mut i: usize = 0;
        proof {
            assert(all.take(0) =~= Seq::<NodeV>::empty());
            assert(self.found().aggs + Seq::<Seq<PathSeg>>::empty() =~= self.found().aggs);
            assert(self.found().ptrs + Seq::<Seq<PathSeg>>::empty() =~= self.found().ptrs);
        }
        while i < nodes.len()
            invariant
                depth <= MAX_DEPTH,
                self.reg@.wf(),
                self.reg == reg,
                t == start.terrain(),
                seen == on_way(start.visited@),
                i <= nodes@.len(),
                all == nodes_view(nodes@),
                start == *old(self),
                self.came_back(
                    start,
                    below_nodes(t, seen, all.take(i as int), base@, depth as nat),
                ),
            decreases nodes@.len() - i,
        {
            let mut p = dup_path(base);
            p.push(PathSeg::Node(i));
            let ghost before = *self;
            proof {
                let k = all.take(i as int + 1);
                assert(k.drop_last() =~= all.take(i as int));
                assert(k.last() == all[i as int]);
                assert(p@ =~= base@.push(PathSeg::Node(i)));
            }
            self.kind(&nodes[i].kind, &p, depth);
            proof {
                let a = start.found();
                let b = below_nodes(t, seen, all.take(i as int), base@, depth as nat);
                let c = below_kind(t, seen, all[i as int].kind, p@, depth as nat);
                lemma_then_also(a, b, c);
            }
            i = i + 1;
        }
        proof {
            assert(all.take(i as int) =~= all);
        }
    }

    /// Collect the rows below a field.
    pub fn kind(&mut self, kind: &NodeKind, path: &Vec<PathSeg>, depth: usize)
        requires
            old(self).reg@.wf(),
            depth <= MAX_DEPTH,
        ensures
            final(self).came_back(
                *old(self),
                below_kind(
                    old(self).terrain(),
                    on_way(old(self).visited@),
                    *kind,
                    path@,
                    depth as nat,
                ),
            ),
        decreases 2 * (MAX_DEPTH - depth), array_depth(*kind), 0nat,
    {
        let ghost t = self.terrain();
        let ghost seen = on_way(self.visited@);
        let ghost start = *self;
        match kind {
            NodeKind::ClassInstance { class_id } => {
                let ghost me = Found { aggs: seq![path@], ptrs: Seq::<Seq<PathSeg>>::empty() };
                self.aggs.push(dup_path(path));
                proof {
                    assert(self.found().aggs =~= start.found().then_also(me).aggs);
                    assert(self.found().ptrs =~= start.found().then_also(me).ptrs);
                }
                if depth < MAX_DEPTH && !self.has_visited(*class_id) {
                    self.enter(*class_id, path, depth);
                    proof {
                        lemma_then_also(
                            start.found(),
                            me,
                            below_class(
                                t,
                                seen.insert(*class_id),
                                *class_id,
                                path@,
                                depth as nat + 1,
                            ),
                        );
                    }
                }
            },
            NodeKind::ClassPtr { class_id } => {
                let ghost me = Found { aggs: Seq::<Seq<PathSeg>>::empty(), ptrs: seq![path@] };
                self.ptrs.push(dup_path(path));
                proof {
                    assert(self.found().aggs =~= start.found().then_also(me).aggs);
                    assert(self.found().ptrs =~= start.found().then_also(me).ptrs);
                }
                if self.follow_ptrs && depth < MAX_DEPTH && !self.has_visited(*class_id) {
                    self.enter(*class_id, path, depth);
                    proof {
                        lemma_then_also(
                            start.found(),
                            me,
                            below_class(
                                t,
                                seen.insert(*class_id),
                                *class_id,
                                path@,
                                depth as nat + 1,
                            ),
                        );
                    }
                }
            },
            NodeKind::Array { element, count } => {
                let ghost me = Found { aggs: seq![path@], ptrs: Seq::<Seq<PathSeg>>::empty() };
                self.aggs.push(dup_path(path));
                proof {
                    assert(self.found().aggs =~= start.found().then_also(me).aggs);
                    assert(self.found().ptrs =~= start.found().then_also(me).ptrs);
                }
                let open: bool = match &**element {
                    NodeKind::ClassInstance { .. } => true,
                    NodeKind::ClassPtr { .. } => true,
                    NodeKind::Array { .. } => true,
                    _ => false,
                };
                if open {
                    let n: usize = if *count <= self.elem_cap {
                        *count
                    } else {
                        self.elem_cap
                    };
                    self.elems(element, path, depth, n);
                    proof {
                        lemma_then_also(
                            start.found(),
                            me,
                            below_elems(t, seen, **element, path@, depth as nat, n as nat),
                        );
                    }
                }
            },
            _ => {
                proof {
                    assert(self.found().aggs + Seq::<Seq<PathSeg>>::empty() =~= self.found().aggs);
                    assert(self.found().ptrs + Seq::<Seq<PathSeg>>::empty() =~= self.found().ptrs);
                }
            },
        }
    }

    /// Collect the rows below class `id`, which is not on the way yet.
    fn enter(&mut self, id: ClassId, path: &Vec<PathSeg>, depth: usize)
        requires
            old(self).reg@.wf(),
            depth < MAX_DEPTH,
        ensures
            final(self).came_back(
                *old(self),
                below_class(
                    old(self).terrain(),
                    on_way(old(self).visited@).insert(id),
                    id,
                    path@,
                    depth as nat + 1,
                ),
            ),
        decreases 2 * (MAX_DEPTH - depth) - 1, 2nat, 0nat,
    {
        let ghost way = self.visited@;
        self.visited.push(id);
        proof {
            assert(on_way(self.visited@) =~= on_way(way).insert(id)) by {
                assert forall|x: ClassId| on_way(way.push(id)).contains(x) == on_way(way).insert(
                    id,
                ).contains(x) by {
                    if way.contains(x) {
                        let k = choose|k: int| 0 <= k < way.len() && way[k] == x;
                        assert(way.push(id)[k] == x);
                    }
                    if x == id {
                        assert(way.push(id)[way.len() as int] == id);
                    }
                }
            }
        }
        self.class(id, path, depth + 1);
        let _ = self.visited.pop();
        proof {
            assert(self.visited@ =~= way);
        }
    }

    /// Collect the rows below the first `n` elements of an array.
    fn elems(&mut self, element: &NodeKind, path: &Vec<PathSeg>, depth: usize, n: usize)
        requires
            old(self).reg@.wf(),
            depth <= MAX_DEPTH,
        ensures
            final(self).came_back(
                *old(self),
                below_elems(
                    old(self).terrain(),
                    on_way(old(self).visited@),
                    *element,
                    path@,
                    depth as nat,
                    n as nat,
                ),
            ),
        decreases 2 * (MAX_DEPTH - depth), array_depth(*element), n + 1,
    {
        let ghost t = self.terrain();
        let ghost seen = on_way(self.visited@);
        let ghost start = *self;
        let mut e: usize = 0;
        proof {
            assert(self.found().aggs + Seq::<Seq<PathSeg>>::empty() =~= self.found().aggs);
            assert(self.found().ptrs + Seq::<Seq<PathSeg>>::empty() =~= self.found().ptrs);
        }
        while e < n
            invariant
                depth <= MAX_DEPTH,
                self.reg@.wf(),
                start == *old(self),
                t == start.terrain(),
                seen == on_way(start.visited@),
                e <= n,
                self.came_back(
                    start,
                    below_elems(t, seen, *element, path@, depth as nat, e as nat),
                ),
            decreases n - e,
        {
            let mut ep = dup_path(path);
            ep.push(PathSeg::Elem(e));
            proof {
                assert(ep@ =~= path@.push(PathSeg::Elem(e)));
            }
            self.kind(element, &ep, depth);
            proof {
                lemma_then_also(
                    start.found(),
                    below_elems(t, seen, *element, path@, depth as nat, e as nat),
                    below_kind(t, seen, *element, ep@, depth as nat),
                );
            }
            e = e + 1;
        }
    }
}

/// What is found in parts is found together.
proof fn lemma_then_also(a: Found, b: Found, c: Found)
    ensures
        a.then_also(b).then_also(c) == a.then_also(b.then_also(c)),
{
    assert(a.aggs + b.aggs + c.aggs =~= a.aggs + (b.aggs + c.aggs));
    assert(a.ptrs + b.ptrs + c.ptrs =~= a.ptrs + (b.ptrs + c.ptrs));
}

/// `s` with the rows `paths` of view `root`.
pub open spec fn with_rows(s: Set<Spot>, root: int, paths: Seq<Seq<PathSeg>>) -> Set<Spot> {
    Set::new(|e: Spot| s.contains(e) || (e.0 == root && paths.contains(e.1)))
}

/// Everything that can be opened up in the selected view.
pub open spec fn openable(s: AppV, class: ClassId, follow: bool) -> Found {
    below_class(
        Terrain { classes: s.project.registry.classes, follow, cap: s.array_limit },
        set![class],
        class,
        Seq::empty(),
        0,
    )
}

/// With every aggregate of the selected view open and every pointer followed.
pub open spec fn all_expanded(s: AppV) -> AppV {
    match s.selected_class() {
        Some(class) => {
            let e = s.expand.clear_root(s.selected_view);
            AppV {
                expand: ExpandV {
                    expanded: with_rows(
                        e.expanded,
                        s.selected_view,
                        openable(s, class, true).ptrs,
                    ),
                    ..e
                },
                ..s
            }
        },
        None => s,
    }
}

/// With every aggregate of the selected view collapsed and no pointer followed.
pub open spec fn all_collapsed(s: AppV) -> AppV {
    match s.selected_class() {
        Some(class) => {
            let e = s.expand.clear_root(s.selected_view);
            AppV {
                expand: ExpandV {
                    collapsed: with_rows(
                        e.collapsed,
                        s.selected_view,
                        openable(s, class, false).aggs,
                    ),
                    ..e
                },
                ..s
            }
        },
        None => s,
    }
}

impl AppState {
    /// Statically walk a class collecting aggregate paths and pointer paths.
    /// `follow_ptrs` descends into pointer targets too.
    fn collect_expandables(&self, class: ClassId, follow_ptrs: bool) -> (r: (
        Vec<Vec<PathSeg>>,
        Vec<Vec<PathSeg>>,
    ))
        requires
            self.wf(),
        ensures
            (Found { aggs: paths_view(r.0@), ptrs: paths_view(r.1@) }) == openable(
                self@,
                class,
                follow_ptrs,
            ),
    {
        let mut visited: Vec<ClassId> = Vec::new();
        visited.push(class);
        let mut w = Walk {
            reg: &self.project.registry,
            follow_ptrs,
            visited,
            aggs: Vec::new(),
            ptrs: Vec::new(),
            elem_cap: self.array_limit,
        };
        proof {
            assert(on_way(w.visited@) =~= set![class]) by {
                assert(w.visited@[0] == class);
            }
        }
        let ghost start = w;
        let base: Vec<PathSeg> = Vec::new();
        w.class(class, &base, 0);
        proof {
            let f = openable(self@, class, follow_ptrs);
            assert(base@ =~= Seq::<PathSeg>::empty());
            assert(paths_view(Seq::<Vec<PathSeg>>::empty()) + f.aggs =~= f.aggs);
            assert(paths_view(Seq::<Vec<PathSeg>>::empty()) + f.ptrs =~= f.ptrs);
        }
        (w.aggs, w.ptrs)
    }

    /// Expand every aggregate and follow every pointer in the selected view
    /// (bounded by depth and a per-branch guard against cycles).
    pub fn expand_all(&mut self)
        requires
            old(self).wf(),
        ensures
            final(self).wf(),
            final(self)@ == all_expanded(old(self)@),
    {
        let class: ClassId = match self.selected_class() {
            Some(c) => c,
            None => {
                return;
            },
        };
        let root: usize = self.selected_view;
        let (_aggs, ptrs) = self.collect_expandables(class, true);
        let ghost s = self@;
        let ghost found = paths_view(ptrs@);
        self.expand.clear_root(root);
        let ghost e = self@.expand;
        let mut i: usize = 0;
        proof {
            assert(with_rows(e.expanded, root as int, found.take(0)) =~= e.expanded);
        }
        while i < ptrs.len()
            invariant
                self.wf(),
                found == paths_view(ptrs@),
                i <= ptrs@.len(),
                self@ == (AppV {
                    expand: ExpandV {
                        expanded: with_rows(e.expanded, root as int, found.take(i as int)),
                        ..e
                    },
                    ..s
                }),
            decreases ptrs@.len() - i,
        {
            self.expand.expand(root, dup_path(&ptrs[i]));
            proof {
                lemma_with_rows(e.expanded, root as int, found, i as int);
            }
            i = i + 1;
        }
        proof {
            assert(found.take(i as int) =~= found);
        }
    }

    /// Collapse every aggregate and un-follow every pointer in the view.
    pub fn collapse_all(&mut self)
        requires
            old(self).wf(),
        ensures
            final(self).wf(),
            final(self)@ == all_collapsed(old(self)@),
    {
        let class: ClassId = match self.selected_class() {
            Some(c) => c,
            None => {
                return;
            },
        };
        let root: usize = self.selected_view;
        let (aggs, _ptrs) = self.collect_expandables(class, false);
        let ghost s = self@;
        let ghost found = paths_view(aggs@);
        self.expand.clear_root(root);
        let ghost e = self@.expand;
        let mut i: usize = 0;
        proof {
            assert(with_rows(e.collapsed, root as int, found.take(0)) =~= e.collapsed);
        }
        while i < aggs.len()
            invariant
                self.wf(),
                found == paths_view(aggs@),
                i <= aggs@.len(),
                self@ == (AppV {
                    expand: ExpandV {
                        collapsed: with_rows(e.collapsed, root as int, found.take(i as int)),
                        ..e
                    },
                    ..s
                }),
            decreases aggs@.len() - i,
        {
            self.expand.mark_collapsed(root, dup_path(&aggs[i]));
            proof {
                lemma_with_rows(e.collapsed, root as int, found, i as int);
            }
            i = i + 1;
        }
        proof {
            assert(found.take(i as int) =~= found);
        }
    }
}

proof fn lemma_with_rows(s: Set<Spot>, root: int, paths: Seq<Seq<PathSeg>>, i: int)
    requires
        0 <= i < paths.len(),
    ensures
        with_rows(s, root, paths.take(i)).insert((root, paths[i])) == with_rows(
            s,
            root,
            paths.take(i + 1),
        ),
{
    let now = paths.take(i);
    let next = paths.take(i + 1);
    let a = with_rows(s, root, now).insert((root, paths[i]));
    let b = with_rows(s, root, next);
    assert forall|e: Spot| a.contains(e) == b.contains(e) by {
        if now.contains(e.1) {
            let k = choose|k: int| 0 <= k < now.len() && now[k] == e.1;
            assert(next[k] == e.1);
        }
        if next.contains(e.1) {
            let k = choose|k: int| 0 <= k < next.len() && next[k] == e.1;
            if k < i {
                assert(now[k] == e.1);
            }
        }
        if e.1 == paths[i] {
            assert(next[i] == e.1);
        }
    }
    assert(a =~= b);
}

// ---------------------------------------------------------------------------
// What is opened up, and what is not
// ---------------------------------------------------------------------------

/// Whether everything that `part` holds is in `whole`.
spec fn is_part(part: Found, whole: Found) -> bool {
    &&& forall|p: Seq<PathSeg>| #[trigger] part.aggs.contains(p) ==> whole.aggs.contains(p)
    &&& forall|p: Seq<PathSeg>| #[trigger] part.ptrs.contains(p) ==> whole.ptrs.contains(p)
}

proof fn lemma_both_are_parts(a: Found, b: Found)
    ensures
        is_part(a, a.then_also(b)),
        is_part(b, a.then_also(b)),
        forall|p: Seq<PathSeg>| #[trigger]
            a.then_also(b).aggs.contains(p) ==> a.aggs.contains(p) || b.aggs.contains(p),
        forall|p: Seq<PathSeg>| #[trigger]
            a.then_also(b).ptrs.contains(p) ==> a.ptrs.contains(p) || b.ptrs.contains(p),
{
    let c = a.then_also(b);
    assert forall|p: Seq<PathSeg>| #[trigger] a.aggs.contains(p) implies c.aggs.contains(p) by {
        let k = choose|k: int| 0 <= k < a.aggs.len() && a.aggs[k] == p;
        assert(c.aggs[k] == p);
    }
    assert forall|p: Seq<PathSeg>| #[trigger] a.ptrs.contains(p) implies c.ptrs.contains(p) by {
        let k = choose|k: int| 0 <= k < a.ptrs.len() && a.ptrs[k] == p;
        assert(c.ptrs[k] == p);
    }
    assert forall|p: Seq<PathSeg>| #[trigger] b.aggs.contains(p) implies c.aggs.contains(p) by {
        let k = choose|k: int| 0 <= k < b.aggs.len() && b.aggs[k] == p;
        assert(c.aggs[a.aggs.len() + k] == p);
    }
    assert forall|p: Seq<PathSeg>| #[trigger] b.ptrs.contains(p) implies c.ptrs.contains(p) by {
        let k = choose|k: int| 0 <= k < b.ptrs.len() && b.ptrs[k] == p;
        assert(c.ptrs[a.ptrs.len() + k] == p);
    }
    assert forall|p: Seq<PathSeg>| #[trigger] c.aggs.contains(p) implies a.aggs.contains(p)
        || b.aggs.contains(p) by {
        let k = choose|k: int| 0 <= k < c.aggs.len() && c.aggs[k] == p;
        if k < a.aggs.len() {
            assert(a.aggs[k] == p);
        } else {
            assert(b.aggs[k - a.aggs.len()] == p);
        }
    }
    assert forall|p: Seq<PathSeg>| #[trigger] c.ptrs.contains(p) implies a.ptrs.contains(p)
        || b.ptrs.contains(p) by {
        let k = choose|k: int| 0 <= k < c.ptrs.len() && c.ptrs[k] == p;
        if k < a.ptrs.len() {
            assert(a.ptrs[k] == p);
        } else {
            assert(b.ptrs[k - a.ptrs.len()] == p);
        }
    }
}

/// What lies below a field is found with the fields of its class.
proof fn lemma_field_is_part(
    t: Terrain,
    visited: Set<ClassId>,
    nodes: Seq<NodeV>,
    path: Seq<PathSeg>,
    depth: nat,
    i: int,
)
    requires
        0 <= i < nodes.len() <= usize::MAX,
        depth <= MAX_DEPTH,
    ensures
        is_part(
            below_kind(t, visited, nodes[i].kind, path.push(PathSeg::Node(i as usize)), depth),
            below_nodes(t, visited, nodes, path, depth),
        ),
    decreases nodes.len(),
{
    let head = nodes.drop_last();
    let n = (nodes.len() - 1) as usize;
    let rest = below_nodes(t, visited, head, path, depth);
    let last = below_kind(t, visited, nodes.last().kind, path.push(PathSeg::Node(n)), depth);
    lemma_both_are_parts(rest, last);
    if i < head.len() {
        lemma_field_is_part(t, visited, head, path, depth, i);
    }
}

/// What lies below an element is found with the elements of its array.
proof fn lemma_element_is_part(
    t: Terrain,
    visited: Set<ClassId>,
    element: NodeKind,
    path: Seq<PathSeg>,
    depth: nat,
    n: nat,
    e: nat,
)
    requires
        e < n,
    ensures
        is_part(
            below_kind(t, visited, element, path.push(PathSeg::Elem(e as usize)), depth),
            below_elems(t, visited, element, path, depth, n),
        ),
    decreases n,
{
    let m = (n - 1) as nat;
    lemma_both_are_parts(
        below_elems(t, visited, element, path, depth, m),
        below_kind(t, visited, element, path.push(PathSeg::Elem(m as usize)), depth),
    );
    if e < m {
        lemma_element_is_part(t, visited, element, path, depth, m, e);
    }
}

/// A field that can be opened up is itself found: a pointer to a class among the
/// pointers, an array or an instance among the rest.
proof fn lemma_opens_up_is_found(
    t: Terrain,
    visited: Set<ClassId>,
    kind: NodeKind,
    path: Seq<PathSeg>,
    depth: nat,
)
    ensures
        kind is ClassPtr ==> below_kind(t, visited, kind, path, depth).ptrs.contains(path),
        kind is ClassInstance || kind is Array ==> below_kind(
            t,
            visited,
            kind,
            path,
            depth,
        ).aggs.contains(path),
{
    let f = below_kind(t, visited, kind, path, depth);
    if kind is ClassPtr {
        assert(f.ptrs[0] == path);
    }
    if kind is ClassInstance || kind is Array {
        assert(f.aggs[0] == path);
    }
}

/// Expanding everything follows every pointer field of the class shown, and the
/// pointers in the classes that these lead to; so it does the pointers that are
/// elements of an array, as many as are shown. Collapsing everything collapses
/// every array and every instance among the fields, and follows nothing.
pub proof fn law_all_rows_are_turned(
    s: AppV,
    class: ClassId,
    i: usize,
    j: usize,
    e: usize,
    to: ClassId,
)
    requires
        s.project.registry.wf(),
        s.selected_class() == Some(class),
        s.project.registry.has(class),
        i < s.project.registry.nodes(class).len() <= usize::MAX,
    ensures
        ({
            let v = s.project.registry;
            let kind = v.nodes(class)[i as int].kind;
            let open = all_expanded(s).expand;
            let shut = all_collapsed(s).expand;
            let here = s.selected_view;
            &&& kind is ClassPtr ==> open.expanded.contains((here, seq![PathSeg::Node(i)]))
            &&& (kind is Array || kind is ClassInstance) ==> shut.collapsed.contains(
                (here, seq![PathSeg::Node(i)]),
            )
            &&& (kind == (NodeKind::ClassPtr { class_id: to }) || kind == (NodeKind::ClassInstance {
                class_id: to,
            })) && to != class && v.has(to) && j < v.nodes(to).len() <= usize::MAX && v.nodes(
                to,
            )[j as int].kind is ClassPtr ==> open.expanded.contains(
                (here, seq![PathSeg::Node(i), PathSeg::Node(j)]),
            )
            &&& kind is Array && *kind->element is ClassPtr && e < kind->count && e < s.array_limit
                ==> open.expanded.contains((here, seq![PathSeg::Node(i), PathSeg::Elem(e)]))
        }),
{
    let v = s.project.registry;
    let kind = v.nodes(class)[i as int].kind;
    let none = Seq::<PathSeg>::empty();
    let one = none.push(PathSeg::Node(i));
    assert(one =~= seq![PathSeg::Node(i)]);
    assert(one.push(PathSeg::Node(j)) =~= seq![PathSeg::Node(i), PathSeg::Node(j)]);
    assert(one.push(PathSeg::Elem(e)) =~= seq![PathSeg::Node(i), PathSeg::Elem(e)]);
    let f = Terrain { classes: v.classes, follow: true, cap: s.array_limit };
    let g = Terrain { classes: v.classes, follow: false, cap: s.array_limit };
    let seen = set![class];
    lemma_field_is_part(f, seen, v.nodes(class), none, 0, i as int);
    lemma_field_is_part(g, seen, v.nodes(class), none, 0, i as int);
    lemma_opens_up_is_found(f, seen, kind, one, 0);
    lemma_opens_up_is_found(g, seen, kind, one, 0);
    if (kind == (NodeKind::ClassPtr { class_id: to }) || kind == (NodeKind::ClassInstance {
        class_id: to,
    })) && to != class && v.has(to) && j < v.nodes(to).len() <= usize::MAX {
        let more = seen.insert(to);
        lemma_field_is_part(f, more, v.nodes(to), one, 1, j as int);
        lemma_opens_up_is_found(f, more, v.nodes(to)[j as int].kind, one.push(PathSeg::Node(j)), 1);
        let me = if kind is ClassPtr {
            Found { aggs: Seq::empty(), ptrs: seq![one] }
        } else {
            Found { aggs: seq![one], ptrs: Seq::empty() }
        };
        lemma_both_are_parts(me, below_class(f, more, to, one, 1));
    }
    if kind is Array && *kind->element is ClassPtr && e < kind->count && e < s.array_limit {
        let n = if kind->count <= s.array_limit {
            kind->count as nat
        } else {
            s.array_limit
        };
        lemma_element_is_part(f, seen, *kind->element, one, 0, n, e as nat);
        lemma_opens_up_is_found(f, seen, *kind->element, one.push(PathSeg::Elem(e)), 0);
        lemma_both_are_parts(
            Found { aggs: seq![one], ptrs: Seq::empty() },
            below_elems(f, seen, *kind->element, one, 0, n),
        );
    }
}

/// Turning all rows of the view that is shown leaves those of the other views as
/// they are, and no row of this one half turned: after expanding nothing of it
/// is collapsed, after collapsing nothing of it is followed. The project stays.
pub proof fn law_other_views_stay_as_they_are(s: AppV, e: Spot)
    ensures
        e.0 != s.selected_view ==> {
            &&& all_expanded(s).expand.expanded.contains(e) == s.expand.expanded.contains(e)
            &&& all_expanded(s).expand.collapsed.contains(e) == s.expand.collapsed.contains(e)
            &&& all_collapsed(s).expand.expanded.contains(e) == s.expand.expanded.contains(e)
            &&& all_collapsed(s).expand.collapsed.contains(e) == s.expand.collapsed.contains(e)
        },
        e.0 == s.selected_view && s.selected_class() is Some ==> {
            &&& !all_expanded(s).expand.collapsed.contains(e)
            &&& !all_collapsed(s).expand.expanded.contains(e)
        },
        s.selected_class() is None ==> all_expanded(s) == s && all_collapsed(s) == s,
        all_expanded(s).project == s.project,
        all_collapsed(s).project == s.project,
{
}

/// Whether a machine can number the fields of every class.
pub open spec fn lists_fit(v: RegistryV) -> bool {
    forall|id: ClassId| v.has(id) ==> (#[trigger] v.nodes(id)).len() <= usize::MAX
}

/// Whether every row found leads to what it was found as: a pointer to a class,
/// or an array or an instance.
spec fn is_sound(v: RegistryV, root: ClassId, f: Found) -> bool {
    &&& forall|p: Seq<PathSeg>| #[trigger]
        f.aggs.contains(p) ==> (walked(v, root, p) matches Some(at) && (at.kind matches Some(k) && (k
            is Array || k is ClassInstance)))
    &&& forall|p: Seq<PathSeg>| #[trigger]
        f.ptrs.contains(p) ==> (walked(v, root, p) matches Some(at) && (at.kind matches Some(k) && k
            is ClassPtr))
}

proof fn lemma_sound_together(v: RegistryV, root: ClassId, a: Found, b: Found)
    requires
        is_sound(v, root, a),
        is_sound(v, root, b),
    ensures
        is_sound(v, root, a.then_also(b)),
{
    lemma_both_are_parts(a, b);
}

proof fn lemma_sound_kind(
    v: RegistryV,
    root: ClassId,
    t: Terrain,
    visited: Set<ClassId>,
    kind: NodeKind,
    path: Seq<PathSeg>,
    depth: nat,
)
    requires
        t.classes == v.classes,
        lists_fit(v),
        walked(v, root, path) matches Some(at) && at.kind == Some(kind),
    ensures
        is_sound(v, root, below_kind(t, visited, kind, path, depth)),
    decreases 2 * (MAX_DEPTH - depth), array_depth(kind), 0nat,
{
    lemma_stand_kind(v, root, path);
    match kind {
        NodeKind::ClassInstance { class_id } => {
            let me = Found { aggs: seq![path], ptrs: Seq::empty() };
            assert(is_sound(v, root, me));
            if depth < MAX_DEPTH && !visited.contains(class_id) {
                lemma_sound_class(v, root, t, visited.insert(class_id), class_id, path, depth + 1);
                lemma_sound_together(
                    v,
                    root,
                    me,
                    below_class(t, visited.insert(class_id), class_id, path, depth + 1),
                );
            }
        },
        NodeKind::ClassPtr { class_id } => {
            let me = Found { aggs: Seq::empty(), ptrs: seq![path] };
            assert(is_sound(v, root, me));
            if t.follow && depth < MAX_DEPTH && !visited.contains(class_id) {
                lemma_sound_class(v, root, t, visited.insert(class_id), class_id, path, depth + 1);
                lemma_sound_together(
                    v,
                    root,
                    me,
                    below_class(t, visited.insert(class_id), class_id, path, depth + 1),
                );
            }
        },
        NodeKind::Array { element, count } => {
            let me = Found { aggs: seq![path], ptrs: Seq::empty() };
            assert(is_sound(v, root, me));
            if opens_up(*element) {
                let n = if count <= t.cap {
                    count as nat
                } else {
                    t.cap
                };
                lemma_sound_elems(v, root, t, visited, *element, count, path, depth, n);
                lemma_sound_together(
                    v,
                    root,
                    me,
                    below_elems(t, visited, *element, path, depth, n),
                );
            }
        },
        _ => {},
    }
}

proof fn lemma_sound_elems(
    v: RegistryV,
    root: ClassId,
    t: Terrain,
    visited: Set<ClassId>,
    element: NodeKind,
    count: usize,
    path: Seq<PathSeg>,
    depth: nat,
    n: nat,
)
    requires
        t.classes == v.classes,
        lists_fit(v),
        walked(v, root, path) matches Some(at) && at.kind == Some(
            NodeKind::Array { element: Box::new(element), count },
        ),
    ensures
        is_sound(v, root, below_elems(t, visited, element, path, depth, n)),
    decreases 2 * (MAX_DEPTH - depth), array_depth(element), n + 1,
{
    if n > 0 {
        let m = (n - 1) as nat;
        lemma_sound_elems(v, root, t, visited, element, count, path, depth, m);
        law_elements_belong_to_their_array(v, root, path, m as usize);
        let p = path.push(PathSeg::Elem(m as usize));
        lemma_sound_kind(v, root, t, visited, element, p, depth);
        lemma_sound_together(
            v,
            root,
            below_elems(t, visited, element, path, depth, m),
            below_kind(t, visited, element, p, depth),
        );
    }
}

proof fn lemma_sound_class(
    v: RegistryV,
    root: ClassId,
    t: Terrain,
    visited: Set<ClassId>,
    class: ClassId,
    path: Seq<PathSeg>,
    depth: nat,
)
    requires
        t.classes == v.classes,
        lists_fit(v),
        walked(v, root, path) matches Some(at) && at.class == class,
    ensures
        is_sound(v, root, below_class(t, visited, class, path, depth)),
    decreases 2 * (MAX_DEPTH - depth) + 1, 1nat, 0nat,
{
    if depth <= MAX_DEPTH && known(t.classes, class) {
        let nodes = class_at(t.classes, class).nodes;
        assert(nodes.take(nodes.len() as int) =~= nodes);
        lemma_sound_nodes(v, root, t, visited, class, path, depth, nodes.len());
    }
}

proof fn lemma_sound_nodes(
    v: RegistryV,
    root: ClassId,
    t: Terrain,
    visited: Set<ClassId>,
    class: ClassId,
    path: Seq<PathSeg>,
    depth: nat,
    n: nat,
)
    requires
        t.classes == v.classes,
        lists_fit(v),
        depth <= MAX_DEPTH,
        v.has(class),
        n <= v.nodes(class).len(),
        walked(v, root, path) matches Some(at) && at.class == class,
    ensures
        is_sound(
            v,
            root,
            below_nodes(t, visited, v.nodes(class).take(n as int), path, depth),
        ),
    decreases 2 * (MAX_DEPTH - depth) + 1, 0nat, n,
{
    let nodes = v.nodes(class).take(n as int);
    if n > 0 {
        let m = (n - 1) as nat;
        assert(nodes.drop_last() =~= v.nodes(class).take(m as int));
        lemma_sound_nodes(v, root, t, visited, class, path, depth, m);
        let p = path.push(PathSeg::Node(m as usize));
        assert(p.drop_last() =~= path);
        lemma_sound_kind(v, root, t, visited, nodes.last().kind, p, depth);
        lemma_sound_together(
            v,
            root,
            below_nodes(t, visited, nodes.drop_last(), path, depth),
            below_kind(t, visited, nodes.last().kind, p, depth),
        );
    }
}

/// Nothing is turned that cannot be: a row of this view that expanding follows
/// is a pointer to a class, one that collapsing collapses an array or an
/// instance, by the way that leads to it.
pub proof fn law_only_openable_rows_are_turned(s: AppV, class: ClassId, p: Seq<PathSeg>)
    requires
        s.selected_class() == Some(class),
        lists_fit(s.project.registry),
    ensures
        all_expanded(s).expand.expanded.contains((s.selected_view, p)) ==> (walked(
            s.project.registry,
            class,
            p,
        ) matches Some(at) && (at.kind matches Some(k) && k is ClassPtr)),
        all_collapsed(s).expand.collapsed.contains((s.selected_view, p)) ==> (walked(
            s.project.registry,
            class,
            p,
        ) matches Some(at) && (at.kind matches Some(k) && (k is Array || k is ClassInstance))),
{
    let v = s.project.registry;
    let f = Terrain { classes: v.classes, follow: true, cap: s.array_limit };
    let g = Terrain { classes: v.classes, follow: false, cap: s.array_limit };
    lemma_sound_class(v, class, f, set![class], class, Seq::empty(), 0);
    lemma_sound_class(v, class, g, set![class], class, Seq::empty(), 0);
}

} // verus!
