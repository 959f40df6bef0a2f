//! A project: its classes, the views open on them, and what it attaches to.

use crate::node::{capped, sum_capped, ClassId};
use crate::registry::{ClassRegistry, ClassV, RegistryV};
use crate::text;
use vstd::prelude::*;

verus! {

/// Everything that is saved, loaded and undone as a whole.
#[derive(Debug)]
pub struct Project {
    pub registry: ClassRegistry,
    /// The class that each open view shows.
    pub views: Vec<ClassId>,
    /// Name of the process to attach to again on load.
    pub attach_name: Option<String>,
    /// How often per second the target is read.
    pub refresh_hz: u32,
}

/// What a [`Project`] says.
pub struct ProjectV {
    pub registry: RegistryV,
    pub views: Seq<ClassId>,
    pub attach_name: Option<Seq<char>>,
    pub refresh_hz: u32,
}

impl View for Project {
    type V = ProjectV;

    open spec fn view(&self) -> ProjectV {
        ProjectV {
            registry: self.registry@,
            views: self.views@,
            attach_name: text::opt_view(self.attach_name),
            refresh_hz: self.refresh_hz,
        }
    }
}

/// Fields of all classes together.
pub open spec fn node_total(cs: Seq<ClassV>) -> nat
    decreases cs.len(),
{
    if cs.len() == 0 {
        0
    } else {
        node_total(cs.drop_last()) + cs.last().nodes.len()
    }
}

/// A copy of a list of class ids.
pub fn dup_ids(v: &Vec<ClassId>) -> (r: Vec<ClassId>)
    ensures
        r@ == v@,
{
    let mut out: Vec<ClassId> = Vec::new();
    let mut i: usize = 0;
    while i < v.len()
        invariant
            i <= v@.len(),
            out@ =~= v@.take(i as int),
        decreases v@.len() - i,
    {
        out.push(v[i]);
        i = i + 1;
    }
    out
}

/// A copy of an optional text.
pub fn dup_opt(s: &Option<String>) -> (r: Option<String>)
    ensures
        text::opt_view(r) == text::opt_view(*s),
{
    match s {
        Some(t) => Some(t.clone()),
        None => None,
    }
}

impl Project {
    /// No class, no view, nothing to attach to.
    pub fn new() -> (r: Project)
        ensures
            r@.registry.wf(),
            r@.registry.classes.len() == 0,
            r@.registry.next_id == 0,
            r@.registry.pointer_bytes == 8,
            r@.views == Seq::<ClassId>::empty(),
            r@.attach_name is None,
            r@.refresh_hz == 4,
    {
        Project {
            registry: ClassRegistry::new(),
            views: Vec::new(),
            attach_name: None,
            refresh_hz: 4,
        }
    }

    /// A copy of the project.
    pub fn dup(&self) -> (r: Project)
        ensures
            r@ == self@,
    {
        Project {
            registry: self.registry.dup(),
            views: dup_ids(&self.views),
            attach_name: dup_opt(&self.attach_name),
            refresh_hz: self.refresh_hz,
        }
    }

    /// [`node_total`] of the project, capped.
    pub fn count_nodes(&self) -> (r: usize)
        ensures
            r == capped(node_total(self@.registry.classes)),
    {
        let ghost cs = self@.registry.classes;
        let mut total: usize = 0;
        let mut i: usize = 0;
        proof {
            assert(cs.take(0) =~= Seq::<ClassV>::empty());
        }
        while i < self.registry.classes.len()
            invariant
                cs == self@.registry.classes,
                i <= self.registry.classes@.len(),
                total == capped(node_total(cs.take(i as int))),
            decreases self.registry.classes@.len() - i,
        {
            let n: usize = self.registry.classes[i].nodes.len();
            proof {
                let t = cs.take(i as int + 1);
                assert(t.drop_last() =~= cs.take(i as int));
                assert(t.last() == cs[i as int]);
                assert(cs[i as int].nodes.len() == n);
            }
            total = sum_capped(total, n);
            i = i + 1;
        }
        proof {
            assert(cs.take(i as int) =~= cs);
        }
        total
    }
}

} // verus!
