//! The class registry: every class by id, their fields, sizes and layout, and
//! the guard that keeps a class from containing itself.

use crate::node::{
    array_depth, capped, dup_nodes, inline_target, leaf_bytes, lemma_capped_product, lemma_capped_sum,
    nodes_view, product_capped, sum_capped, ClassId, Node, NodeKind, NodeV,
};
use vstd::prelude::*;

verus! {

/// A named list of fields, with the expression that says where an instance is.
#[derive(Debug)]
pub struct Class {
    pub id: ClassId,
    pub name: String,
    pub address_expr: String,
    pub nodes: Vec<Node>,
}

/// What a [`Class`] says.
pub struct ClassV {
    pub id: ClassId,
    pub name: Seq<char>,
    pub address_expr: Seq<char>,
    pub nodes: Seq<NodeV>,
}

impl View for Class {
    type V = ClassV;

    open spec fn view(&self) -> ClassV {
        ClassV {
            id: self.id,
            name: self.name@,
            address_expr: self.address_expr@,
            nodes: nodes_view(self.nodes@),
        }
    }
}

/// What a list of classes says.
pub open spec fn classes_view(s: Seq<Class>) -> Seq<ClassV> {
    Seq::new(s.len(), |i: int| s[i]@)
}

/// Every class of a project.
#[derive(Debug)]
pub struct ClassRegistry {
    /// In the order in which they were made.
    pub classes: Vec<Class>,
    /// The id that the next class gets.
    pub next_id: ClassId,
    /// Bytes of an address in the target.
    pub pointer_bytes: usize,
}

/// What a [`ClassRegistry`] says.
pub struct RegistryV {
    pub classes: Seq<ClassV>,
    pub next_id: ClassId,
    pub pointer_bytes: nat,
}

impl View for ClassRegistry {
    type V = RegistryV;

    open spec fn view(&self) -> RegistryV {
        RegistryV {
            classes: classes_view(self.classes@),
            next_id: self.next_id,
            pointer_bytes: self.pointer_bytes as nat,
        }
    }
}

/// Why a registry edit was refused.
#[derive(Clone, Copy, Debug, PartialEq, Eq, Structural)]
pub enum RegistryError {
    /// No such class.
    NotFound(ClassId),
    /// The class has no such field.
    NoSuchNode { class: ClassId, idx: usize },
    /// The field is no array.
    NotAnArray { class: ClassId, idx: usize },
    /// The field refers to a class that does not exist.
    DanglingRef { class: ClassId, idx: usize, target: ClassId },
}

// ---------------------------------------------------------------------------
// The model
// ---------------------------------------------------------------------------

/// Whether class `id` is there.
pub open spec fn known(cs: Seq<ClassV>, id: ClassId) -> bool {
    exists|i: int| 0 <= i < cs.len() && #[trigger] cs[i].id == id
}

/// Where class `id` stands.
pub open spec fn place(cs: Seq<ClassV>, id: ClassId) -> int {
    choose|i: int| 0 <= i < cs.len() && #[trigger] cs[i].id == id
}

/// Class `id`.
pub open spec fn class_at(cs: Seq<ClassV>, id: ClassId) -> ClassV {
    cs[place(cs, id)]
}

/// Whether ids are distinct, ascending, and all below `next`.
pub open spec fn ids_ascend(cs: Seq<ClassV>, next: ClassId) -> bool {
    &&& forall|i: int, j: int|
        0 <= i < j < cs.len() ==> (#[trigger] cs[i]).id < (#[trigger] cs[j]).id
    &&& forall|i: int| 0 <= i < cs.len() ==> (#[trigger] cs[i]).id < next
}

impl RegistryV {
    /// The registry's invariant: ids ascend and an address takes four or eight
    /// bytes.
    pub open spec fn wf(self) -> bool {
        &&& ids_ascend(self.classes, self.next_id)
        &&& self.pointer_bytes == 4 || self.pointer_bytes == 8
    }

    /// Whether class `id` is there.
    pub open spec fn has(self, id: ClassId) -> bool {
        known(self.classes, id)
    }

    /// The fields of class `id`.
    pub open spec fn nodes(self, id: ClassId) -> Seq<NodeV> {
        class_at(self.classes, id).nodes
    }

    /// The registry with class `c.id` replaced by `c`.
    pub open spec fn put(self, c: ClassV) -> RegistryV {
        RegistryV { classes: self.classes.update(place(self.classes, c.id), c), ..self }
    }

    /// The registry in which class `id` has the fields `nodes`.
    pub open spec fn with_nodes(self, id: ClassId, nodes: Seq<NodeV>) -> RegistryV {
        self.put(ClassV { nodes, ..class_at(self.classes, id) })
    }

    /// The registry in which field `idx` of class `id` is `n`.
    pub open spec fn with_node(self, id: ClassId, idx: int, n: NodeV) -> RegistryV {
        self.with_nodes(id, self.nodes(id).update(idx, n))
    }

    /// The registry with one more, empty class, which gets the next id.
    pub open spec fn with_class(self, name: Seq<char>) -> RegistryV {
        RegistryV {
            classes: self.classes.push(
                ClassV {
                    id: self.next_id,
                    name,
                    address_expr: Seq::empty(),
                    nodes: Seq::empty(),
                },
            ),
            next_id: (self.next_id + 1) as ClassId,
            ..self
        }
    }

    /// Exact bytes of class `id`; none where there is no such class.
    pub open spec fn class_bytes(self, id: ClassId) -> nat {
        if self.has(id) {
            list_bytes(self.classes, self.pointer_bytes, self.nodes(id), self.classes.len())
        } else {
            0
        }
    }
}

/// Exact bytes of `kind`, following inline instances `fuel` levels deep; what
/// lies deeper, or is missing, takes none.
pub open spec fn kind_bytes(cs: Seq<ClassV>, ptr: nat, kind: NodeKind, fuel: nat) -> nat
    decreases fuel, 0nat, array_depth(kind),
{
    match kind {
        NodeKind::Array { element, count } => count as nat * kind_bytes(cs, ptr, *element, fuel),
        NodeKind::ClassInstance { class_id } => if fuel > 0 && known(cs, class_id) {
            list_bytes(cs, ptr, class_at(cs, class_id).nodes, (fuel - 1) as nat)
        } else {
            0
        },
        _ => leaf_bytes(kind, ptr),
    }
}

/// Exact bytes of the fields `nodes`, one after the other.
pub open spec fn list_bytes(cs: Seq<ClassV>, ptr: nat, nodes: Seq<NodeV>, fuel: nat) -> nat
    decreases fuel, 1nat, nodes.len(),
{
    if nodes.len() == 0 {
        0
    } else {
        list_bytes(cs, ptr, nodes.drop_last(), fuel) + kind_bytes(cs, ptr, nodes.last().kind, fuel)
    }
}

/// Whether class `a` stores an instance of class `b` in place.
pub open spec fn edge(cs: Seq<ClassV>, a: ClassId, b: ClassId) -> bool {
    known(cs, a) && exists|j: int|
        0 <= j < class_at(cs, a).nodes.len() && inline_target(
            (#[trigger] class_at(cs, a).nodes[j]).kind,
        ) == Some(b)
}

/// Whether each class of `p` stores the next one in place.
pub open spec fn is_path(cs: Seq<ClassV>, p: Seq<ClassId>) -> bool {
    &&& p.len() > 0
    &&& forall|k: int| 0 <= k < p.len() - 1 ==> #[trigger] edge(cs, p[k], p[k + 1])
}

/// Whether `b` is `a` or is stored, however deep, inside `a`.
pub open spec fn reaches(cs: Seq<ClassV>, a: ClassId, b: ClassId) -> bool {
    exists|p: Seq<ClassId>| #[trigger] is_path(cs, p) && p.first() == a && p.last() == b
}

/// Whether a field of `kind` in class `class` would make that class contain
/// itself.
pub open spec fn would_cycle(cs: Seq<ClassV>, class: ClassId, kind: NodeKind) -> bool {
    inline_target(kind) matches Some(t) && reaches(cs, t, class)
}

/// Whether every class ranks above the classes that it stores in place.
pub open spec fn ranked(cs: Seq<ClassV>, rank: spec_fn(ClassId) -> nat) -> bool {
    forall|a: ClassId, b: ClassId| #[trigger] edge(cs, a, b) ==> rank(b) < rank(a)
}

/// Whether no class contains itself: the classes can be ranked.
pub open spec fn acyclic(cs: Seq<ClassV>) -> bool {
    exists|rank: spec_fn(ClassId) -> nat| #[trigger] ranked(cs, rank)
}

/// `kind` once class `id`, of `bytes` bytes, is gone: an inline instance of it
/// becomes as many unknown bytes, a pointer to it a plain pointer.
pub open spec fn detached(kind: NodeKind, id: ClassId, bytes: usize) -> NodeKind
    decreases kind,
{
    match kind {
        NodeKind::ClassInstance { class_id } => if class_id == id {
            NodeKind::Unknown(bytes)
        } else {
            kind
        },
        NodeKind::ClassPtr { class_id } => if class_id == id {
            NodeKind::Pointer
        } else {
            kind
        },
        NodeKind::Array { element, count } => NodeKind::Array {
            element: Box::new(detached(*element, id, bytes)),
            count,
        },
        _ => kind,
    }
}

/// [`detached`] on every field of a list.
pub open spec fn detached_nodes(nodes: Seq<NodeV>, id: ClassId, bytes: usize) -> Seq<NodeV> {
    Seq::new(nodes.len(), |i: int| NodeV { kind: detached(nodes[i].kind, id, bytes), ..nodes[i] })
}

/// [`detached`] on every field of a class.
pub open spec fn detached_class(c: ClassV, id: ClassId, bytes: usize) -> ClassV {
    ClassV { nodes: detached_nodes(c.nodes, id, bytes), ..c }
}

/// [`detached`] on every field of every class.
pub open spec fn detached_classes(cs: Seq<ClassV>, id: ClassId, bytes: usize) -> Seq<ClassV> {
    Seq::new(cs.len(), |i: int| detached_class(cs[i], id, bytes))
}

impl RegistryV {
    /// The registry without class `id`, and without a reference to it.
    pub open spec fn without_class(self, id: ClassId) -> RegistryV {
        if self.has(id) {
            RegistryV {
                classes: detached_classes(
                    self.classes.remove(place(self.classes, id)),
                    id,
                    capped(self.class_bytes(id)),
                ),
                ..self
            }
        } else {
            self
        }
    }
}

/// In an ascending list a class stands in one place only.
pub proof fn lemma_place(cs: Seq<ClassV>, next: ClassId, i: int)
    requires
        ids_ascend(cs, next),
        0 <= i < cs.len(),
    ensures
        known(cs, cs[i].id),
        place(cs, cs[i].id) == i,
{
    let j = place(cs, cs[i].id);
    assert(cs[i].id == cs[i].id);
    assert(0 <= j < cs.len() && cs[j].id == cs[i].id);
    if j < i {
        assert(cs[j].id < cs[i].id);
    } else if i < j {
        assert(cs[i].id < cs[j].id);
    }
}

/// There are no more classes than ids were handed out.
pub proof fn lemma_class_count(cs: Seq<ClassV>, next: ClassId)
    requires
        ids_ascend(cs, next),
    ensures
        cs.len() <= next,
{
    if cs.len() > 0 {
        lemma_id_at_least(cs, next, cs.len() - 1);
    }
}

proof fn lemma_id_at_least(cs: Seq<ClassV>, next: ClassId, i: int)
    requires
        ids_ascend(cs, next),
        0 <= i < cs.len(),
    ensures
        i <= cs[i].id < next,
    decreases i,
{
    if i > 0 {
        lemma_id_at_least(cs, next, i - 1);
        assert(cs[i - 1].id < cs[i].id);
    }
}

// ---------------------------------------------------------------------------
// The registry itself
// ---------------------------------------------------------------------------

impl Class {
    /// A copy of the class.
    pub fn dup(&self) -> (r: Class)
        ensures
            r@ == self@,
            r.nodes@.len() == self.nodes@.len(),
    {
        Class {
            id: self.id,
            name: self.name.clone(),
            address_expr: self.address_expr.clone(),
            nodes: dup_nodes(&self.nodes),
        }
    }
}

impl ClassRegistry {
    /// An empty registry for a target with eight-byte addresses.
    pub fn new() -> (r: ClassRegistry)
        ensures
            r@.wf(),
            r@.classes == Seq::<ClassV>::empty(),
            r@.next_id == 0,
            r@.pointer_bytes == 8,
    {
        let r = ClassRegistry { classes: Vec::new(), next_id: 0, pointer_bytes: 8 };
        proof {
            assert(r@.classes =~= Seq::<ClassV>::empty());
        }
        r
    }

    /// A copy of the registry.
    pub fn dup(&self) -> (r: ClassRegistry)
        ensures
            r@ == self@,
    {
        let mut out: Vec<Class> = Vec::new();
        let mut i: usize = 0;
        while i < self.classes.len()
            invariant
                i <= self.classes@.len(),
                out@.len() == i,
                forall|j: int| 0 <= j < i ==> (#[trigger] out@[j])@ == self.classes@[j]@,
            decreases self.classes@.len() - i,
        {
            out.push(self.classes[i].dup());
            i = i + 1;
        }
        let r = ClassRegistry {
            classes: out,
            next_id: self.next_id,
            pointer_bytes: self.pointer_bytes,
        };
        proof {
            assert(r@.classes =~= self@.classes);
        }
        r
    }

    /// Number of classes.
    pub fn len(&self) -> (r: usize)
        ensures
            r == self@.classes.len(),
    {
        self.classes.len()
    }

    /// Whether there is no class.
    pub fn is_empty(&self) -> (r: bool)
        ensures
            r == (self@.classes.len() == 0),
    {
        self.classes.len() == 0
    }

    /// Bytes of an address in the target.
    pub fn pointer_bytes(&self) -> (r: usize)
        ensures
            r == self@.pointer_bytes,
    {
        self.pointer_bytes
    }

    /// Set the bytes of an address in the target.
    pub fn set_pointer_bytes(&mut self, bytes: usize)
        requires
            old(self)@.wf(),
            bytes == 4 || bytes == 8,
        ensures
            final(self)@ == (RegistryV { pointer_bytes: bytes as nat, ..old(self)@ }),
            final(self)@.wf(),
    {
        self.pointer_bytes = bytes;
    }

    /// Where class `id` stands.
    pub fn find(&self, id: ClassId) -> (r: Option<usize>)
        requires
            self@.wf(),
        ensures
            r is Some == self@.has(id),
            r is Some ==> r->0 < self.classes@.len() && r->0 == place(self@.classes, id)
                && self.classes@[r->0 as int].id == id,
    {
        let ghost cs = self@.classes;
        let mut i: usize = 0;
        while i < self.classes.len()
            invariant
                self@.wf(),
                cs == self@.classes,
                i <= self.classes@.len(),
                forall|j: int| 0 <= j < i ==> (#[trigger] cs[j]).id != id,
            decreases self.classes@.len() - i,
        {
            if self.classes[i].id == id {
                proof {
                    assert(cs[i as int].id == id);
                    lemma_place(cs, self.next_id, i as int);
                }
                return Some(i);
            }
            proof {
                assert(cs[i as int].id != id);
            }
            i = i + 1;
        }
        None
    }

    /// Class `id`.
    pub fn get(&self, id: ClassId) -> (r: Option<&Class>)
        requires
            self@.wf(),
        ensures
            r is Some == self@.has(id),
            r is Some ==> (*r->0)@ == class_at(self@.classes, id),
    {
        match self.find(id) {
            Some(i) => Some(&self.classes[i]),
            None => None,
        }
    }

    /// The name of class `id`.
    pub fn name_of(&self, id: ClassId) -> (r: Option<&str>)
        requires
            self@.wf(),
        ensures
            r is Some == self@.has(id),
            r is Some ==> (r->0)@ == class_at(self@.classes, id).name,
    {
        match self.find(id) {
            Some(i) => Some(self.classes[i].name.as_str()),
            None => None,
        }
    }

    /// Every class id, in order.
    pub fn ids(&self) -> (r: Vec<ClassId>)
        ensures
            r@ == Seq::new(self@.classes.len(), |i: int| self@.classes[i].id),
    {
        let mut out: Vec<ClassId> = Vec::new();
        let mut i: usize = 0;
        while i < self.classes.len()
            invariant
                i <= self.classes@.len(),
                out@.len() == i,
                forall|j: int| 0 <= j < i ==> #[trigger] out@[j] == self.classes@[j].id,
            decreases self.classes@.len() - i,
        {
            out.push(self.classes[i].id);
            i = i + 1;
        }
        proof {
            assert(out@ =~= Seq::new(self@.classes.len(), |i: int| self@.classes[i].id));
        }
        out
    }

    /// Make an empty class.
    pub fn add_class(&mut self, name: &str) -> (id: ClassId)
        requires
            old(self)@.wf(),
            old(self)@.next_id < u32::MAX,
        ensures
            id == old(self)@.next_id,
            final(self)@ == old(self)@.with_class(name@),
            final(self)@.wf(),
    {
        let id: ClassId = self.next_id;
        let ghost before = self@;
        self.classes.push(
            Class {
                id,
                name: name.to_owned(),
                address_expr: String::new(),
                nodes: Vec::new(),
            },
        );
        self.next_id = id + 1;
        proof {
            assert(nodes_view(Seq::<Node>::empty()) =~= Seq::<NodeV>::empty());
            assert(self@.classes =~= before.with_class(name@).classes);
        }
        id
    }

    /// [`kind_bytes`] of `kind`, capped.
    fn kind_size(&self, kind: &NodeKind, fuel: usize) -> (r: usize)
        requires
            self@.wf(),
        ensures
            r == capped(kind_bytes(self@.classes, self@.pointer_bytes, *kind, fuel as nat)),
        decreases fuel, 0nat, array_depth(*kind),
    {
        match kind {
            NodeKind::Array { element, count } => {
                let one: usize = self.kind_size(element, fuel);
                proof {
                    lemma_capped_product(
                        *count as nat,
                        kind_bytes(self@.classes, self@.pointer_bytes, **element, fuel as nat),
                    );
                }
                product_capped(*count, one)
            },
            NodeKind::ClassInstance { class_id } => if fuel > 0 {
                match self.find(*class_id) {
                    Some(i) => self.list_size(&self.classes[i].nodes, fuel - 1),
                    None => 0,
                }
            } else {
                0
            },
            _ => kind.leaf_size(self.pointer_bytes),
        }
    }

    /// [`list_bytes`] of `nodes`, capped.
    fn list_size(&self, nodes: &Vec<Node>, fuel: usize) -> (r: usize)
        requires
            self@.wf(),
        ensures
            r == capped(
                list_bytes(self@.classes, self@.pointer_bytes, nodes_view(nodes@), fuel as nat),
            ),
        decreases fuel, 1nat, nodes@.len(),
    {
        let ghost all = nodes_view(nodes@);
        let mut total: usize = 0;
        let mut i: usize = 0;
        proof {
            assert(all.take(0) =~= Seq::<NodeV>::empty());
        }
        while i < nodes.len()
            invariant
                self@.wf(),
                i <= nodes@.len(),
                all == nodes_view(nodes@),
                total == capped(
                    list_bytes(self@.classes, self@.pointer_bytes, all.take(i as int), fuel as nat),
                ),
            decreases nodes@.len() - i,
        {
            let one: usize = self.kind_size(&nodes[i].kind, fuel);
            proof {
                let k = all.take(i as int + 1);
                assert(k.drop_last() =~= all.take(i as int));
                assert(k.last() == all[i as int]);
                lemma_capped_sum(
                    list_bytes(self@.classes, self@.pointer_bytes, all.take(i as int), fuel as nat),
                    kind_bytes(
                        self@.classes,
                        self@.pointer_bytes,
                        all[i as int].kind,
                        fuel as nat,
                    ),
                );
            }
            total = sum_capped(total, one);
            i = i + 1;
        }
        proof {
            assert(all.take(i as int) =~= all);
        }
        total
    }

    /// Bytes of class `id`; none where there is no such class.
    pub fn size_of(&self, id: ClassId) -> (r: usize)
        requires
            self@.wf(),
        ensures
            r == capped(self@.class_bytes(id)),
    {
        match self.find(id) {
            Some(i) => self.list_size(&self.classes[i].nodes, self.classes.len()),
            None => 0,
        }
    }

    /// The offset of each field of class `id`: the bytes of the fields before
    /// it. Empty where there is no such class.
    pub fn offsets(&self, id: ClassId) -> (r: Vec<usize>)
        requires
            self@.wf(),
        ensures
            self@.has(id) ==> r@.len() == self@.nodes(id).len(),
            self@.has(id) ==> forall|i: int|
                0 <= i < r@.len() ==> #[trigger] r@[i] == capped(
                    list_bytes(
                        self@.classes,
                        self@.pointer_bytes,
                        self@.nodes(id).take(i),
                        self@.classes.len(),
                    ),
                ),
            !self@.has(id) ==> r@.len() == 0,
    {
        let mut out: Vec<usize> = Vec::new();
        let at: usize = match self.find(id) {
            Some(i) => i,
            None => {
                return out;
            },
        };
        let nodes: &Vec<Node> = &self.classes[at].nodes;
        let fuel: usize = self.classes.len();
        let ghost all = nodes_view(nodes@);
        let mut total: usize = 0;
        let mut i: usize = 0;
        proof {
            assert(all == self@.nodes(id));
            assert(all.take(0) =~= Seq::<NodeV>::empty());
        }
        while i < nodes.len()
            invariant
                self@.wf(),
                i <= nodes@.len(),
                all == nodes_view(nodes@),
                out@.len() == i,
                total == capped(
                    list_bytes(self@.classes, self@.pointer_bytes, all.take(i as int), fuel as nat),
                ),
                forall|j: int|
                    0 <= j < i ==> #[trigger] out@[j] == capped(
                        list_bytes(self@.classes, self@.pointer_bytes, all.take(j), fuel as nat),
                    ),
            decreases nodes@.len() - i,
        {
            out.push(total);
            let one: usize = self.kind_size(&nodes[i].kind, fuel);
            proof {
                let k = all.take(i as int + 1);
                assert(k.drop_last() =~= all.take(i as int));
                assert(k.last() == all[i as int]);
                lemma_capped_sum(
                    list_bytes(self@.classes, self@.pointer_bytes, all.take(i as int), fuel as nat),
                    kind_bytes(
                        self@.classes,
                        self@.pointer_bytes,
                        all[i as int].kind,
                        fuel as nat,
                    ),
                );
            }
            total = sum_capped(total, one);
            i = i + 1;
        }
        out
    }
}

/// Replacing a class by one with the same id keeps the invariant.
pub proof fn lemma_put_wf(v: RegistryV, c: ClassV)
    requires
        v.wf(),
        v.has(c.id),
    ensures
        v.put(c).wf(),
        v.put(c).has(c.id),
        class_at(v.put(c).classes, c.id) == c,
        forall|id: ClassId| v.put(c).has(id) == v.has(id),
{
    let i = place(v.classes, c.id);
    let w = v.put(c);
    assert(0 <= i < v.classes.len() && v.classes[i].id == c.id);
    assert forall|a: int, b: int| 0 <= a < b < w.classes.len() implies (#[trigger] w.classes[a]).id
        < (#[trigger] w.classes[b]).id by {
        assert(v.classes[a].id < v.classes[b].id);
    }
    assert forall|a: int| 0 <= a < w.classes.len() implies (#[trigger] w.classes[a]).id
        < w.next_id by {
        assert(v.classes[a].id < v.next_id);
    }
    lemma_place(w.classes, w.next_id, i);
    assert forall|id: ClassId| w.has(id) == v.has(id) by {
        if w.has(id) {
            let j = place(w.classes, id);
            assert(v.classes[j].id == id);
        }
        if v.has(id) {
            let j = place(v.classes, id);
            assert(w.classes[j].id == id);
        }
    }
}

/// Replacing the fields of one class keeps the others as they are.
pub proof fn lemma_with_nodes(v: RegistryV, id: ClassId, nodes: Seq<NodeV>)
    requires
        v.wf(),
        v.has(id),
    ensures
        v.with_nodes(id, nodes).wf(),
        v.with_nodes(id, nodes).nodes(id) == nodes,
        forall|x: ClassId| v.with_nodes(id, nodes).has(x) == v.has(x),
        forall|x: ClassId|
            x != id && v.has(x) ==> #[trigger] v.with_nodes(id, nodes).nodes(x) == v.nodes(x),
        forall|other: Seq<NodeV>| #[trigger]
            v.with_nodes(id, nodes).with_nodes(id, other) == v.with_nodes(id, other),
        v.with_nodes(id, v.nodes(id)) == v,
{
    let c = ClassV { nodes, ..class_at(v.classes, id) };
    let i = place(v.classes, id);
    assert(v.classes[i].id == id);
    lemma_put_wf(v, c);
    let w = v.put(c);
    assert(w == v.with_nodes(id, nodes));
    lemma_place(w.classes, w.next_id, i);
    assert forall|x: ClassId| x != id && v.has(x) implies #[trigger] w.nodes(x) == v.nodes(x) by {
        let j = place(v.classes, x);
        assert(v.classes[j].id == x);
        assert(w.classes[j] == v.classes[j]);
        lemma_place(v.classes, v.next_id, j);
        lemma_place(w.classes, w.next_id, j);
    }
    assert forall|other: Seq<NodeV>| #[trigger] w.with_nodes(id, other) == v.with_nodes(
        id,
        other,
    ) by {
        assert(w.with_nodes(id, other).classes =~= v.with_nodes(id, other).classes);
    }
    assert(v.with_nodes(id, v.nodes(id)).classes =~= v.classes);
}

impl ClassRegistry {
    /// Append fields to a class.
    pub fn push_nodes(&mut self, id: ClassId, nodes: Vec<Node>) -> (r: Result<(), RegistryError>)
        requires
            old(self)@.wf(),
        ensures
            final(self)@.wf(),
            (final(self)@, r) == pushed(old(self)@, id, nodes_view(nodes@)),
    {
        let ghost before = self@;
        let i: usize = match self.find(id) {
            Some(i) => i,
            None => {
                return Err(RegistryError::NotFound(id));
            },
        };
        let mut nodes = nodes;
        let ghost added = nodes_view(nodes@);
        let ghost mine = self.classes@[i as int].nodes@;
        self.classes[i].nodes.append(&mut nodes);
        proof {
            let after = before.with_nodes(id, before.nodes(id) + added);
            assert(nodes_view(self.classes@[i as int].nodes@) =~= nodes_view(mine) + added);
            assert(self@.classes =~= after.classes);
            lemma_put_wf(before, ClassV {
                nodes: before.nodes(id) + added,
                ..class_at(before.classes, id)
            });
        }
        Ok(())
    }

    /// Append a field to a class.
    pub fn push_node(&mut self, id: ClassId, node: Node) -> (r: Result<(), RegistryError>)
        requires
            old(self)@.wf(),
        ensures
            final(self)@.wf(),
            (final(self)@, r) == pushed(old(self)@, id, seq![node@]),
    {
        let ghost before = self@;
        let i: usize = match self.find(id) {
            Some(i) => i,
            None => {
                return Err(RegistryError::NotFound(id));
            },
        };
        let ghost mine = self.classes@[i as int].nodes@;
        self.classes[i].nodes.push(node);
        proof {
            let after = before.with_nodes(id, before.nodes(id) + seq![node@]);
            assert(nodes_view(self.classes@[i as int].nodes@) =~= nodes_view(mine) + seq![node@]);
            assert(self@.classes =~= after.classes);
            lemma_put_wf(before, ClassV {
                nodes: before.nodes(id) + seq![node@],
                ..class_at(before.classes, id)
            });
        }
        Ok(())
    }

    /// Put a field before field `idx` of a class, or at its end.
    pub fn insert_node(&mut self, id: ClassId, idx: usize, node: Node) -> (r: Result<
        (),
        RegistryError,
    >)
        requires
            old(self)@.wf(),
        ensures
            final(self)@.wf(),
            (final(self)@, r) == inserted(old(self)@, id, idx, node@),
    {
        let ghost before = self@;
        let i: usize = match self.find(id) {
            Some(i) => i,
            None => {
                return Err(RegistryError::NotFound(id));
            },
        };
        if idx > self.classes[i].nodes.len() {
            return Err(RegistryError::NoSuchNode { class: id, idx });
        }
        let ghost mine = self.classes@[i as int].nodes@;
        self.classes[i].nodes.insert(idx, node);
        proof {
            let after = before.with_nodes(id, before.nodes(id).insert(idx as int, node@));
            assert(nodes_view(self.classes@[i as int].nodes@) =~= nodes_view(mine).insert(
                idx as int,
                node@,
            ));
            assert(self@.classes =~= after.classes);
            lemma_put_wf(before, ClassV {
                nodes: before.nodes(id).insert(idx as int, node@),
                ..class_at(before.classes, id)
            });
        }
        Ok(())
    }

    /// Take field `idx` out of a class.
    pub fn remove_node(&mut self, id: ClassId, idx: usize) -> (r: Result<Node, RegistryError>)
        requires
            old(self)@.wf(),
        ensures
            final(self)@.wf(),
            r is Ok ==> (r->Ok_0)@ == old(self)@.nodes(id)[idx as int],
            (final(self)@, outcome(r)) == removed(old(self)@, id, idx),
    {
        let ghost before = self@;
        let i: usize = match self.find(id) {
            Some(i) => i,
            None => {
                return Err(RegistryError::NotFound(id));
            },
        };
        if idx >= self.classes[i].nodes.len() {
            return Err(RegistryError::NoSuchNode { class: id, idx });
        }
        let ghost mine = self.classes@[i as int].nodes@;
        let node = self.classes[i].nodes.remove(idx);
        proof {
            let after = before.with_nodes(id, before.nodes(id).remove(idx as int));
            assert(nodes_view(self.classes@[i as int].nodes@) =~= nodes_view(mine).remove(
                idx as int,
            ));
            assert(self@.classes =~= after.classes);
            lemma_put_wf(before, ClassV {
                nodes: before.nodes(id).remove(idx as int),
                ..class_at(before.classes, id)
            });
        }
        Ok(node)
    }

    /// Replace field `idx` of a class by `node`.
    fn set_node(&mut self, i: usize, idx: usize, node: Node)
        requires
            old(self)@.wf(),
            i < old(self).classes@.len(),
            idx < old(self).classes@[i as int].nodes@.len(),
        ensures
            final(self)@.wf(),
            final(self)@ == old(self)@.with_node(
                old(self).classes@[i as int].id,
                idx as int,
                node@,
            ),
    {
        let ghost before = self@;
        let ghost id = self.classes@[i as int].id;
        let ghost mine = self.classes@[i as int].nodes@;
        self.classes[i].nodes[idx] = node;
        proof {
            assert(before.classes[i as int].id == id);
            lemma_place(before.classes, before.next_id, i as int);
            let after = before.with_node(id, idx as int, node@);
            assert(nodes_view(self.classes@[i as int].nodes@) =~= nodes_view(mine).update(
                idx as int,
                node@,
            ));
            assert(self@.classes =~= after.classes);
            lemma_put_wf(before, ClassV {
                nodes: before.nodes(id).update(idx as int, node@),
                ..class_at(before.classes, id)
            });
        }
    }

    /// Where field `idx` of class `id` stands, or why it does not.
    fn locate(&self, id: ClassId, idx: usize) -> (r: Result<usize, RegistryError>)
        requires
            self@.wf(),
        ensures
            self@.has(id) && idx < self@.nodes(id).len() ==> r is Ok && r->Ok_0
                < self.classes@.len() && self.classes@[r->Ok_0 as int].id == id && idx
                < self.classes@[r->Ok_0 as int].nodes@.len()
                && nodes_view(self.classes@[r->Ok_0 as int].nodes@) == self@.nodes(id),
            self@.has(id) && idx >= self@.nodes(id).len() ==> r == Err::<usize, _>(
                RegistryError::NoSuchNode { class: id, idx },
            ),
            !self@.has(id) ==> r == Err::<usize, _>(RegistryError::NotFound(id)),
    {
        match self.find(id) {
            Some(i) => if idx < self.classes[i].nodes.len() {
                Ok(i)
            } else {
                Err(RegistryError::NoSuchNode { class: id, idx })
            },
            None => Err(RegistryError::NotFound(id)),
        }
    }

    /// Give field `idx` of a class another kind.
    pub fn set_kind(&mut self, id: ClassId, idx: usize, kind: NodeKind) -> (r: Result<
        (),
        RegistryError,
    >)
        requires
            old(self)@.wf(),
        ensures
            final(self)@.wf(),
            (final(self)@, r) == node_set(old(self)@, id, idx, (NodeV { kind, ..old(self)@.nodes(id)[idx as int] })),
    {
        match self.locate(id, idx) {
            Ok(i) => {
                let old_node = &self.classes[i].nodes[idx];
                let node = Node {
                    name: old_node.name.clone(),
                    comment: old_node.comment.clone(),
                    kind,
                };
                self.set_node(i, idx, node);
                Ok(())
            },
            Err(e) => Err(e),
        }
    }

    /// Give field `idx` of a class another name.
    pub fn rename_node(&mut self, id: ClassId, idx: usize, name: String) -> (r: Result<
        (),
        RegistryError,
    >)
        requires
            old(self)@.wf(),
        ensures
            final(self)@.wf(),
            (final(self)@, r) == node_set(old(self)@, id, idx, (NodeV { name: name@, ..old(self)@.nodes(id)[idx as int] })),
    {
        match self.locate(id, idx) {
            Ok(i) => {
                let old_node = &self.classes[i].nodes[idx];
                let node = Node {
                    name,
                    comment: old_node.comment.clone(),
                    kind: old_node.kind.dup(),
                };
                self.set_node(i, idx, node);
                Ok(())
            },
            Err(e) => Err(e),
        }
    }

    /// Give field `idx` of a class another comment.
    pub fn set_comment(&mut self, id: ClassId, idx: usize, comment: String) -> (r: Result<
        (),
        RegistryError,
    >)
        requires
            old(self)@.wf(),
        ensures
            final(self)@.wf(),
            (final(self)@, r) == node_set(old(self)@, id, idx, (NodeV { comment: comment@, ..old(self)@.nodes(id)[idx as int] })),
    {
        match self.locate(id, idx) {
            Ok(i) => {
                let old_node = &self.classes[i].nodes[idx];
                let node = Node {
                    name: old_node.name.clone(),
                    comment,
                    kind: old_node.kind.dup(),
                };
                self.set_node(i, idx, node);
                Ok(())
            },
            Err(e) => Err(e),
        }
    }

    /// Give an array field another element count.
    pub fn set_array_count(&mut self, id: ClassId, idx: usize, count: usize) -> (r: Result<
        (),
        RegistryError,
    >)
        requires
            old(self)@.wf(),
        ensures
            final(self)@.wf(),
            (final(self)@, r) == array_counted(old(self)@, id, idx, count),
    {
        match self.locate(id, idx) {
            Ok(i) => {
                let old_node = &self.classes[i].nodes[idx];
                match &old_node.kind {
                    NodeKind::Array { element, .. } => {
                        let node = Node {
                            name: old_node.name.clone(),
                            comment: old_node.comment.clone(),
                            kind: NodeKind::Array { element: Box::new((**element).dup()), count },
                        };
                        self.set_node(i, idx, node);
                        Ok(())
                    },
                    _ => Err(RegistryError::NotAnArray { class: id, idx }),
                }
            },
            Err(e) => Err(e),
        }
    }

    /// Give a class another name.
    pub fn rename_class(&mut self, id: ClassId, name: String) -> (r: Result<(), RegistryError>)
        requires
            old(self)@.wf(),
        ensures
            final(self)@.wf(),
            (final(self)@, r) == class_set(old(self)@, id, (ClassV { name: name@, ..class_at(old(self)@.classes, id) })),
    {
        let ghost before = self@;
        match self.find(id) {
            Some(i) => {
                self.classes[i].name = name;
                proof {
                    let c = ClassV { name: name@, ..class_at(before.classes, id) };
                    assert(self@.classes =~= before.put(c).classes);
                    lemma_put_wf(before, c);
                }
                Ok(())
            },
            None => Err(RegistryError::NotFound(id)),
        }
    }

    /// Give a class another address expression.
    pub fn set_address_expr(&mut self, id: ClassId, expr: String) -> (r: Result<
        (),
        RegistryError,
    >)
        requires
            old(self)@.wf(),
        ensures
            final(self)@.wf(),
            (final(self)@, r) == class_set(old(self)@, id, (ClassV { address_expr: expr@, ..class_at(old(self)@.classes, id) })),
    {
        let ghost before = self@;
        match self.find(id) {
            Some(i) => {
                self.classes[i].address_expr = expr;
                proof {
                    let c = ClassV { address_expr: expr@, ..class_at(before.classes, id) };
                    assert(self@.classes =~= before.put(c).classes);
                    lemma_put_wf(before, c);
                }
                Ok(())
            },
            None => Err(RegistryError::NotFound(id)),
        }
    }
}

/// What an edit leaves and returns.
pub type Edit = (RegistryV, Result<(), RegistryError>);

/// Whether it worked, and if not why.
pub open spec fn outcome<T>(r: Result<T, RegistryError>) -> Result<(), RegistryError> {
    match r {
        Ok(_) => Ok(()),
        Err(e) => Err(e),
    }
}

/// Appending the fields `nodes` to class `id`.
pub open spec fn pushed(v: RegistryV, id: ClassId, nodes: Seq<NodeV>) -> Edit {
    if v.has(id) {
        (v.with_nodes(id, v.nodes(id) + nodes), Ok(()))
    } else {
        (v, Err(RegistryError::NotFound(id)))
    }
}

/// Putting field `n` before field `idx` of class `id`, or at its end.
pub open spec fn inserted(v: RegistryV, id: ClassId, idx: usize, n: NodeV) -> Edit {
    if !v.has(id) {
        (v, Err(RegistryError::NotFound(id)))
    } else if idx > v.nodes(id).len() {
        (v, Err(RegistryError::NoSuchNode { class: id, idx }))
    } else {
        (v.with_nodes(id, v.nodes(id).insert(idx as int, n)), Ok(()))
    }
}

/// Taking field `idx` out of class `id`.
pub open spec fn removed(v: RegistryV, id: ClassId, idx: usize) -> Edit {
    if !v.has(id) {
        (v, Err(RegistryError::NotFound(id)))
    } else if idx >= v.nodes(id).len() {
        (v, Err(RegistryError::NoSuchNode { class: id, idx }))
    } else {
        (v.with_nodes(id, v.nodes(id).remove(idx as int)), Ok(()))
    }
}

/// Putting `n` in place of field `idx` of class `id`.
pub open spec fn node_set(v: RegistryV, id: ClassId, idx: usize, n: NodeV) -> Edit {
    if !v.has(id) {
        (v, Err(RegistryError::NotFound(id)))
    } else if idx >= v.nodes(id).len() {
        (v, Err(RegistryError::NoSuchNode { class: id, idx }))
    } else {
        (v.with_node(id, idx as int, n), Ok(()))
    }
}

/// Setting the element count of field `idx` of class `id`: only an array has
/// one.
pub open spec fn array_counted(v: RegistryV, id: ClassId, idx: usize, count: usize) -> Edit {
    let n = v.nodes(id)[idx as int];
    if v.has(id) && idx < v.nodes(id).len() && !(n.kind is Array) {
        (v, Err(RegistryError::NotAnArray { class: id, idx }))
    } else {
        node_set(
            v,
            id,
            idx,
            NodeV { kind: NodeKind::Array { element: n.kind->element, count }, ..n },
        )
    }
}

/// Putting `c` in place of class `id`.
pub open spec fn class_set(v: RegistryV, id: ClassId, c: ClassV) -> Edit {
    if v.has(id) {
        (v.put(c), Ok(()))
    } else {
        (v, Err(RegistryError::NotFound(id)))
    }
}

} // verus!
