//! The edits of the application state: classes, views and fields. Each edit of
//! the classes is one undo step.

use crate::app_state::{lifted, AppError, AppState, AppV};
use crate::expand::{toggled, ExpandV};
use crate::memory::{regions_view, Region, RegionV};
use crate::node::{
    capped, nodes_view, plain_node, ClassId, IntWidth, Node, NodeKind, NodeV, PathSeg,
};
use crate::registry::{
    array_counted, class_at, class_set, inserted, node_set, pushed, removed, would_cycle, ClassV,
    Edit, RegistryV,
};
use crate::text;
use vstd::prelude::*;

verus! {

/// `field_` and the offset in hexadecimal.
pub open spec fn field_name(offset: nat) -> Seq<char> {
    "field_"@ + text::written(offset, 16, true)
}

/// [`field_name`] of `offset`.
pub fn name_field(offset: u64) -> (r: String)
    ensures
        r@ == field_name(offset as nat),
{
    let mut s = "field_".to_owned();
    s.append(text::hex_upper(offset).as_str());
    s
}

/// `n` bytes of fields from offset `off` on: as many eight-byte fields as fit,
/// then one-byte fields.
pub open spec fn byte_fields(off: nat, n: nat) -> Seq<NodeV> {
    let words = n / 8;
    Seq::new(
        words + n % 8,
        |i: int|
            if i < words {
                plain_node(field_name((off + 8 * i) as nat), NodeKind::Hex(IntWidth::W64))
            } else {
                plain_node(
                    field_name((off + 8 * words + (i - words)) as nat),
                    NodeKind::Hex(IntWidth::W8),
                )
            },
    )
}

/// The fields of a class made for the target of a pointer: sixteen words of
/// the target's address size.
pub open spec fn word_fields(ptr: nat) -> Seq<NodeV> {
    let (word, step) = if ptr == 4 {
        (IntWidth::W32, 4nat)
    } else {
        (IntWidth::W64, 8nat)
    };
    Seq::new(16, |i: int| plain_node(field_name((i * step) as nat), NodeKind::Hex(word)))
}

/// The name of the class made for the target of a pointer, where there are `n`
/// classes already.
pub open spec fn auto_name(n: nat) -> Seq<char> {
    "Auto"@ + text::written(n, 10, false)
}

/// What making a class for the target of the pointer at field `idx` of `owner`
/// leaves and returns.
pub open spec fn pointer_expanded(v: RegistryV, owner: ClassId, idx: usize) -> Edit {
    let made = v.with_class(auto_name(v.classes.len()));
    let filled = made.with_nodes(v.next_id, word_fields(v.pointer_bytes));
    node_set(
        filled,
        owner,
        idx,
        NodeV {
            kind: NodeKind::ClassPtr { class_id: v.next_id },
            ..filled.nodes(owner)[idx as int]
        },
    )
}

/// The name of an array appended at offset `off`.
pub open spec fn array_name(off: nat) -> Seq<char> {
    "arr_"@ + text::written(off, 16, true)
}

/// Whether a region that holds `addr` may be read.
pub open spec fn readable_at(rs: Seq<RegionV>, addr: u64) -> bool {
    exists|i: int| 0 <= i < rs.len() && (#[trigger] rs[i]).contains(addr) && rs[i].perms.read
}

impl AppState {
    // -- target ------------------------------------------------------------

    /// A target was attached; `regions` are its mapped regions, if they could
    /// be read.
    pub fn set_backend(&mut self, regions: Option<Vec<Region>>)
        requires
            old(self).wf(),
        ensures
            final(self).wf(),
            final(self)@ == (AppV {
                attached: true,
                regions: match regions {
                    Some(r) => regions_view(r@),
                    None => Seq::empty(),
                },
                ..old(self)@
            }),
    {
        self.attached = true;
        self.refresh_regions(regions);
    }

    /// Whether a target is attached.
    pub fn attached(&self) -> (r: bool)
        ensures
            r == self@.attached,
    {
        self.attached
    }

    /// Take the target's mapped regions as just read; none where no target is
    /// attached or they could not be read.
    pub fn refresh_regions(&mut self, regions: Option<Vec<Region>>)
        requires
            old(self).wf(),
        ensures
            final(self).wf(),
            final(self)@ == (AppV {
                regions: match regions {
                    Some(r) => if old(self)@.attached {
                        regions_view(r@)
                    } else {
                        Seq::empty()
                    },
                    None => Seq::empty(),
                },
                ..old(self)@
            }),
    {
        self.regions = match regions {
            Some(r) => if self.attached {
                r
            } else {
                Vec::new()
            },
            None => Vec::new(),
        };
        proof {
            assert(regions_view(Seq::<Region>::empty()) =~= Seq::<RegionV>::empty());
        }
    }

    /// The target's mapped regions, as of the last refresh.
    pub fn regions(&self) -> (r: &Vec<Region>)
        ensures
            regions_view(r@) == self@.regions,
    {
        &self.regions
    }

    /// The class registry, read-only.
    pub fn registry(&self) -> (r: &crate::registry::ClassRegistry)
        ensures
            r@ == self@.project.registry,
    {
        &self.project.registry
    }

    /// Whether `addr` lies in a mapped, readable region.
    pub fn addr_is_readable(&self, addr: u64) -> (r: bool)
        ensures
            r == readable_at(self@.regions, addr),
    {
        let ghost rs = self@.regions;
        let mut i: usize = 0;
        while i < self.regions.len()
            invariant
                i <= self.regions@.len(),
                rs == regions_view(self.regions@),
                forall|k: int|
                    0 <= k < i ==> !((#[trigger] rs[k]).contains(addr) && rs[k].perms.read),
            decreases self.regions@.len() - i,
        {
            let r = &self.regions[i];
            proof {
                assert(rs[i as int] == r@);
            }
            if r.contains(addr) && r.perms.read {
                return true;
            }
            i = i + 1;
        }
        false
    }

    // -- classes / views ---------------------------------------------------

    /// The class shown by view `root`, if it exists.
    pub fn view_class(&self, root: usize) -> (r: Option<ClassId>)
        ensures
            r == if root < self@.project.views.len() {
                Some(self@.project.views[root as int])
            } else {
                None
            },
    {
        if root < self.project.views.len() {
            Some(self.project.views[root])
        } else {
            None
        }
    }

    /// The class of the selected view, if any.
    pub fn selected_class(&self) -> (r: Option<ClassId>)
        ensures
            r == self@.selected_class(),
    {
        self.view_class(self.selected_view)
    }

    /// Create a class and open it in a new view; returns its id.
    pub fn add_class(&mut self, name: &str) -> (id: ClassId)
        requires
            old(self).wf(),
            old(self)@.project.registry.next_id < u32::MAX,
        ensures
            final(self).wf(),
            id == old(self)@.project.registry.next_id,
            final(self)@ == old(self)@.snapped().with_registry(
                old(self)@.project.registry.with_class(name@),
            ).opened(id),
    {
        self.snapshot();
        let id: ClassId = self.project.registry.add_class(name);
        self.open_view(id);
        id
    }

    /// Open `class_id` in a view (selecting it). No-op if already open.
    pub fn open_view(&mut self, class_id: ClassId)
        requires
            old(self).wf(),
        ensures
            final(self).wf(),
            final(self)@ == old(self)@.opened(class_id),
    {
        let i: usize = crate::app_state::find_view(&self.project.views, class_id);
        if i == self.project.views.len() {
            self.project.views.push(class_id);
        }
        self.selected_view = i;
        let n: usize = self.project.views.len();
        crate::app_state::resize_statuses(&mut self.view_status, n);
    }

    /// Close a view by index.
    pub fn close_view(&mut self, idx: usize)
        requires
            old(self).wf(),
        ensures
            final(self).wf(),
            final(self)@ == old(self)@.closed_view(idx as int),
    {
        if idx < self.project.views.len() {
            let _ = self.project.views.remove(idx);
            let n: usize = self.project.views.len();
            crate::app_state::resize_statuses(&mut self.view_status, n);
            if self.selected_view >= n {
                self.selected_view = if n > 0 {
                    n - 1
                } else {
                    0
                };
            }
            // expansion is keyed by view position; later views move up
            self.expand.drop_root(idx);
        }
    }

    /// Remove a class and close the view showing it. References to it from
    /// other classes are rewritten in place, so that no layout changes.
    pub fn remove_class(&mut self, id: ClassId)
        requires
            old(self).wf(),
        ensures
            final(self).wf(),
            final(self)@ == old(self)@.without_class(id),
    {
        self.snapshot();
        self.project.registry.remove_class(id);
        let ghost before = self@.cache;
        let _ = self.expr_cache.remove(&id);
        proof {
            assert(self@.cache =~= before.remove(id));
        }
        let i: usize = crate::app_state::find_view(&self.project.views, id);
        self.close_view(i);
    }

    // -- expansion ---------------------------------------------------------

    /// Toggle expansion of a pointer row.
    pub fn toggle_expand(&mut self, root: usize, path: Vec<PathSeg>)
        requires
            old(self).wf(),
        ensures
            final(self).wf(),
            final(self)@ == (AppV {
                expand: ExpandV {
                    expanded: toggled(old(self)@.expand.expanded, (root as int, path@)),
                    ..old(self)@.expand
                },
                ..old(self)@
            }),
    {
        self.expand.toggle(root, path);
    }

    /// Toggle collapse of an aggregate row.
    pub fn toggle_collapse(&mut self, root: usize, path: Vec<PathSeg>)
        requires
            old(self).wf(),
        ensures
            final(self).wf(),
            final(self)@ == (AppV {
                expand: ExpandV {
                    collapsed: toggled(old(self)@.expand.collapsed, (root as int, path@)),
                    ..old(self)@.expand
                },
                ..old(self)@
            }),
    {
        self.expand.toggle_collapse(root, path);
    }

    // -- fields ------------------------------------------------------------

    /// Append a node to a class.
    pub fn push_node(&mut self, class: ClassId, node: Node) -> (r: Result<(), AppError>)
        requires
            old(self).wf(),
        ensures
            final(self).wf(),
            (final(self)@, r) == old(self)@.edited(
                pushed(old(self)@.project.registry, class, seq![node@]),
            ),
    {
        self.snapshot();
        crate::app_state::lift(self.project.registry.push_node(class, node))
    }

    /// Insert a node after `idx` in `class`.
    pub fn insert_after(&mut self, class: ClassId, idx: usize, node: Node) -> (r: Result<
        (),
        AppError,
    >)
        requires
            old(self).wf(),
            idx < usize::MAX,
        ensures
            final(self).wf(),
            (final(self)@, r) == old(self)@.edited(
                inserted(old(self)@.project.registry, class, (idx + 1) as usize, node@),
            ),
    {
        self.snapshot();
        crate::app_state::lift(self.project.registry.insert_node(class, idx + 1, node))
    }

    /// Delete node `idx` from `class`.
    pub fn delete_node(&mut self, class: ClassId, idx: usize) -> (r: Result<(), AppError>)
        requires
            old(self).wf(),
        ensures
            final(self).wf(),
            (final(self)@, r) == old(self)@.edited(
                removed(old(self)@.project.registry, class, idx),
            ),
    {
        self.snapshot();
        match self.project.registry.remove_node(class, idx) {
            Ok(_) => Ok(()),
            Err(e) => Err(AppError::Registry(e)),
        }
    }

    /// Change a node's kind, guarding against inline cycles.
    pub fn change_kind(&mut self, class: ClassId, idx: usize, kind: NodeKind) -> (r: Result<
        (),
        AppError,
    >)
        requires
            old(self).wf(),
        ensures
            final(self).wf(),
            (final(self)@, r) == kind_changed(old(self)@, class, idx, kind),
    {
        if self.project.registry.kind_would_cycle(class, &kind) {
            return Err(AppError::Cycle);
        }
        self.snapshot();
        crate::app_state::lift(self.project.registry.set_kind(class, idx, kind))
    }

    /// Set the element count of an array node.
    pub fn set_array_count(&mut self, class: ClassId, idx: usize, count: usize) -> (r: Result<
        (),
        AppError,
    >)
        requires
            old(self).wf(),
        ensures
            final(self).wf(),
            (final(self)@, r) == old(self)@.edited(
                array_counted(old(self)@.project.registry, class, idx, count),
            ),
    {
        self.snapshot();
        crate::app_state::lift(self.project.registry.set_array_count(class, idx, count))
    }

    /// Rename a node.
    pub fn rename_node(&mut self, class: ClassId, idx: usize, name: String) -> (r: Result<
        (),
        AppError,
    >)
        requires
            old(self).wf(),
        ensures
            final(self).wf(),
            (final(self)@, r) == old(self)@.edited(
                node_set(
                    old(self)@.project.registry,
                    class,
                    idx,
                    NodeV {
                        name: name@,
                        ..old(self)@.project.registry.nodes(class)[idx as int]
                    },
                ),
            ),
    {
        self.snapshot();
        crate::app_state::lift(self.project.registry.rename_node(class, idx, name))
    }

    /// Set a node's comment.
    pub fn set_comment(&mut self, class: ClassId, idx: usize, comment: String) -> (r: Result<
        (),
        AppError,
    >)
        requires
            old(self).wf(),
        ensures
            final(self).wf(),
            (final(self)@, r) == old(self)@.edited(
                node_set(
                    old(self)@.project.registry,
                    class,
                    idx,
                    NodeV {
                        comment: comment@,
                        ..old(self)@.project.registry.nodes(class)[idx as int]
                    },
                ),
            ),
    {
        self.snapshot();
        crate::app_state::lift(self.project.registry.set_comment(class, idx, comment))
    }

    /// Rename a class.
    pub fn rename_class(&mut self, id: ClassId, name: String) -> (r: Result<(), AppError>)
        requires
            old(self).wf(),
        ensures
            final(self).wf(),
            (final(self)@, r) == old(self)@.edited(
                class_set(
                    old(self)@.project.registry,
                    id,
                    ClassV {
                        name: name@,
                        ..class_at(old(self)@.project.registry.classes, id)
                    },
                ),
            ),
    {
        self.snapshot();
        crate::app_state::lift(self.project.registry.rename_class(id, name))
    }

    /// Set the address expression of a class.
    pub fn set_address_expr(&mut self, id: ClassId, expr: String) -> (r: Result<(), AppError>)
        requires
            old(self).wf(),
        ensures
            final(self).wf(),
            (final(self)@, r) == old(self)@.edited(
                class_set(
                    old(self)@.project.registry,
                    id,
                    ClassV {
                        address_expr: expr@,
                        ..class_at(old(self)@.project.registry.classes, id)
                    },
                ),
            ),
    {
        self.snapshot();
        crate::app_state::lift(self.project.registry.set_address_expr(id, expr))
    }

    /// Append an array of `count` elements to a class.
    pub fn add_array(&mut self, class: ClassId, element: NodeKind, count: usize) -> (r: Result<
        (),
        AppError,
    >)
        requires
            old(self).wf(),
        ensures
            final(self).wf(),
            (final(self)@, r) == array_added(old(self)@, class, element, count),
    {
        if self.project.registry.kind_would_cycle(class, &element) {
            return Err(AppError::Cycle);
        }
        self.snapshot();
        let off: usize = self.project.registry.size_of(class);
        let mut name = "arr_".to_owned();
        name.append(text::hex_upper(off as u64).as_str());
        let node = Node {
            name,
            comment: String::new(),
            kind: NodeKind::Array { element: Box::new(element), count },
        };
        // straight to the registry: `push_node` would take a second snapshot
        // and split one user action across two undo steps
        crate::app_state::lift(self.project.registry.push_node(class, node))
    }

    /// Append `n` bytes worth of fields to a class: as many `Hex64` rows as
    /// fit, then `Hex8` rows for any remainder.
    pub fn add_bytes(&mut self, class: ClassId, n: usize) -> (r: Result<(), AppError>)
        requires
            old(self).wf(),
            capped(old(self)@.project.registry.class_bytes(class)) + n <= usize::MAX,
        ensures
            final(self).wf(),
            (final(self)@, r) == old(self)@.edited(
                pushed(
                    old(self)@.project.registry,
                    class,
                    byte_fields(
                        capped(old(self)@.project.registry.class_bytes(class)) as nat,
                        n as nat,
                    ),
                ),
            ),
    {
        self.snapshot();
        let off: usize = self.project.registry.size_of(class);
        let nodes = make_byte_fields(off, n);
        crate::app_state::lift(self.project.registry.push_nodes(class, nodes))
    }

    /// Expand a plain pointer node by creating a backing class (sixteen words)
    /// and converting the node to a pointer to it, then marking it expanded.
    pub fn expand_pointer(
        &mut self,
        owner: ClassId,
        idx: usize,
        root: usize,
        path: Vec<PathSeg>,
    ) -> (r: Result<(), AppError>)
        requires
            old(self).wf(),
            old(self)@.project.registry.next_id < u32::MAX,
        ensures
            final(self).wf(),
            ({
                let e = pointer_expanded(old(self)@.project.registry, owner, idx);
                let s = old(self)@.edited(e).0;
                &&& r == lifted(e.1)
                &&& final(self)@ == if e.1 is Ok {
                    AppV {
                        expand: ExpandV {
                            expanded: s.expand.expanded.insert((root as int, path@)),
                            ..s.expand
                        },
                        ..s
                    }
                } else {
                    s
                }
            }),
    {
        let ghost v = self@.project.registry;
        self.snapshot();
        let mut name = "Auto".to_owned();
        name.append(text::dec(self.project.registry.len() as u64).as_str());
        let target: ClassId = self.project.registry.add_class(name.as_str());
        let ghost made = v.with_class(auto_name(v.classes.len()));
        proof {
            assert(name@ == auto_name(v.classes.len()));
            assert(made.classes[v.classes.len() as int].id == target);
            crate::registry::lemma_place(made.classes, made.next_id, v.classes.len() as int);
            assert(made.has(target));
            assert(made.nodes(target) == Seq::<NodeV>::empty());
        }
        let nodes = make_word_fields(self.project.registry.pointer_bytes());
        let filled = self.project.registry.push_nodes(target, nodes);
        proof {
            assert(made.nodes(target) + word_fields(v.pointer_bytes) =~= word_fields(
                v.pointer_bytes,
            ));
        }
        match filled {
            Ok(_) => {},
            Err(e) => {
                return Err(AppError::Registry(e));
            },
        }
        match self.project.registry.set_kind(owner, idx, NodeKind::ClassPtr { class_id: target }) {
            Ok(_) => {
                self.expand.expand(root, path);
                Ok(())
            },
            Err(e) => Err(AppError::Registry(e)),
        }
    }
}

/// What a guarded change of a field's kind leaves and returns: a refused one
/// takes no undo step.
pub open spec fn kind_changed(s: AppV, class: ClassId, idx: usize, kind: NodeKind) -> (
    AppV,
    Result<(), AppError>,
) {
    if would_cycle(s.project.registry.classes, class, kind) {
        (s, Err(AppError::Cycle))
    } else {
        s.edited(
            node_set(
                s.project.registry,
                class,
                idx,
                NodeV { kind, ..s.project.registry.nodes(class)[idx as int] },
            ),
        )
    }
}

/// What a guarded append of an array leaves and returns.
pub open spec fn array_added(s: AppV, class: ClassId, element: NodeKind, count: usize) -> (
    AppV,
    Result<(), AppError>,
) {
    if would_cycle(s.project.registry.classes, class, element) {
        (s, Err(AppError::Cycle))
    } else {
        s.edited(
            pushed(
                s.project.registry,
                class,
                seq![
                    plain_node(
                        array_name(capped(s.project.registry.class_bytes(class)) as nat),
                        NodeKind::Array { element: Box::new(element), count },
                    ),
                ],
            ),
        )
    }
}

/// [`byte_fields`] from `off` on.
fn make_byte_fields(off: usize, n: usize) -> (r: Vec<Node>)
    requires
        off + n <= usize::MAX,
    ensures
        nodes_view(r@) == byte_fields(off as nat, n as nat),
{
    let ghost want = byte_fields(off as nat, n as nat);
    let words: usize = n / 8;
    let rest: usize = n % 8;
    let mut out: Vec<Node> = Vec::new();
    let mut i: usize = 0;
    while i < words
        invariant
            words == n / 8,
            rest == n % 8,
            off + n <= usize::MAX,
            i <= words,
            out@.len() == i,
            want == byte_fields(off as nat, n as nat),
            forall|j: int| 0 <= j < i ==> (#[trigger] out@[j])@ == want[j],
        decreases words - i,
    {
        let at: usize = off + 8 * i;
        let name = name_field(at as u64);
        out.push(Node { name, comment: String::new(), kind: NodeKind::Hex(IntWidth::W64) });
        i = i + 1;
    }
    let mut j: usize = 0;
    while j < rest
        invariant
            words == n / 8,
            rest == n % 8,
            off + n <= usize::MAX,
            j <= rest,
            out@.len() == words + j,
            want == byte_fields(off as nat, n as nat),
            forall|k: int| 0 <= k < words + j ==> (#[trigger] out@[k])@ == want[k],
        decreases rest - j,
    {
        let at: usize = off + 8 * words + j;
        let name = name_field(at as u64);
        out.push(Node { name, comment: String::new(), kind: NodeKind::Hex(IntWidth::W8) });
        j = j + 1;
    }
    proof {
        assert(nodes_view(out@) =~= want);
    }
    out
}

/// [`word_fields`] for addresses of `ptr` bytes.
fn make_word_fields(ptr: usize) -> (r: Vec<Node>)
    ensures
        nodes_view(r@) == word_fields(ptr as nat),
{
    let ghost want = word_fields(ptr as nat);
    let word: IntWidth = if ptr == 4 {
        IntWidth::W32
    } else {
        IntWidth::W64
    };
    let step: usize = if ptr == 4 {
        4
    } else {
        8
    };
    let mut out: Vec<Node> = Vec::new();
    let mut i: usize = 0;
    while i < 16
        invariant
            i <= 16,
            step == 4 || step == 8,
            want == word_fields(ptr as nat),
            step == (if ptr == 4 {
                4usize
            } else {
                8
            }),
            word == (if ptr == 4 {
                IntWidth::W32
            } else {
                IntWidth::W64
            }),
            out@.len() == i,
            forall|j: int| 0 <= j < i ==> (#[trigger] out@[j])@ == want[j],
        decreases 16 - i,
    {
        let name = name_field((i * step) as u64);
        out.push(Node { name, comment: String::new(), kind: NodeKind::Hex(word) });
        proof {
            assert(out@[i as int]@ == plain_node(field_name((i * step) as nat), NodeKind::Hex(word)));
        }
        i = i + 1;
    }
    proof {
        assert(nodes_view(out@) =~= want);
    }
    out
}

} // verus!
