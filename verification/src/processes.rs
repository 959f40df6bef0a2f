//! The processes that can be attached to, and what the memory backend's own
//! errors and mappings mean here.

use crate::memory::{MemError, Perms, Region, RegionV};
use crate::text;
use vstd::prelude::*;
use vstd::utf8::encode_utf8;

verus! {

/// A discovered process for the picker.
#[derive(Debug, PartialEq, Eq)]
pub struct ProcInfo {
    /// Process id.
    pub pid: i32,
    /// `comm` name (kernel-truncated to 15 bytes).
    pub name: String,
}

/// What a [`ProcInfo`] says.
pub struct ProcInfoV {
    pub pid: i32,
    pub name: Seq<char>,
}

impl View for ProcInfo {
    type V = ProcInfoV;

    open spec fn view(&self) -> ProcInfoV {
        ProcInfoV { pid: self.pid, name: self.name@ }
    }
}

/// What a list of processes says.
pub open spec fn procs_view(s: Seq<ProcInfo>) -> Seq<ProcInfoV> {
    Seq::new(s.len(), |i: int| s[i]@)
}

/// `p` put behind every process of a smaller or the same id.
pub open spec fn by_pid(s: Seq<ProcInfoV>, p: ProcInfoV) -> Seq<ProcInfoV>
    decreases s.len(),
{
    if s.len() == 0 || s.last().pid <= p.pid {
        s.push(p)
    } else {
        by_pid(s.drop_last(), p).push(s.last())
    }
}

/// An entry of the process directory: its name, and what its `comm` file holds
/// if it could be read.
pub struct ProcEntry {
    pub dir: String,
    pub comm: Option<String>,
}

/// What a [`ProcEntry`] says.
pub struct ProcEntryV {
    pub dir: Seq<char>,
    pub comm: Option<Seq<char>>,
}

impl View for ProcEntry {
    type V = ProcEntryV;

    open spec fn view(&self) -> ProcEntryV {
        ProcEntryV { dir: self.dir@, comm: text::opt_view(self.comm) }
    }
}

/// What a list of entries says.
pub open spec fn entries_view(s: Seq<ProcEntry>) -> Seq<ProcEntryV> {
    Seq::new(s.len(), |i: int| s[i]@)
}

/// The processes that the entries stand for: those named by a number, by
/// ascending id.
pub open spec fn processes_in(es: Seq<ProcEntryV>) -> Seq<ProcInfoV>
    decreases es.len(),
{
    if es.len() == 0 {
        Seq::empty()
    } else {
        let head = processes_in(es.drop_last());
        match text::i32_number(es.last().dir) {
            Some(pid) => by_pid(
                head,
                ProcInfoV {
                    pid,
                    name: match es.last().comm {
                        Some(c) => text::trim(c),
                        None => Seq::empty(),
                    },
                },
            ),
            None => head,
        }
    }
}

proof fn lemma_by_pid_at(s: Seq<ProcInfoV>, p: ProcInfoV, i: int)
    requires
        0 <= i <= s.len(),
        i == 0 || s[i - 1].pid <= p.pid,
        forall|k: int| i <= k < s.len() ==> (#[trigger] s[k]).pid > p.pid,
    ensures
        by_pid(s, p) == s.insert(i, p),
    decreases s.len(),
{
    if i == s.len() {
        assert(s.insert(i, p) =~= s.push(p));
    } else {
        assert(s[s.len() - 1].pid > p.pid);
        let head = s.drop_last();
        assert forall|k: int| i <= k < head.len() implies (#[trigger] head[k]).pid > p.pid by {
            assert(head[k] == s[k]);
        }
        lemma_by_pid_at(head, p, i);
        assert(head.insert(i, p).push(s.last()) =~= s.insert(i, p));
    }
}

/// The processes that the entries of the process directory stand for, by
/// ascending id.
pub fn list_processes(entries: &Vec<ProcEntry>) -> (r: Vec<ProcInfo>)
    ensures
        procs_view(r@) == processes_in(entries_view(entries@)),
{
    let ghost es = entries_view(entries@);
    let mut out: Vec<ProcInfo> = Vec::new();
    let mut n: usize = 0;
    proof {
        assert(es.take(0) =~= Seq::<ProcEntryV>::empty());
        assert(procs_view(out@) =~= Seq::<ProcInfoV>::empty());
    }
    while n < entries.len()
        invariant
            n <= entries@.len(),
            es == entries_view(entries@),
            procs_view(out@) == processes_in(es.take(n as int)),
        decreases entries@.len() - n,
    {
        proof {
            let k = es.take(n as int + 1);
            assert(k.drop_last() =~= es.take(n as int));
            assert(k.last() == entries@[n as int]@);
        }
        let e = &entries[n];
        match text::parse_i32(&text::chars_of(e.dir.as_str())) {
            Some(pid) => {
                let name = match &e.comm {
                    Some(c) => text::trimmed(c.as_str()),
                    None => String::new(),
                };
                let p = ProcInfo { pid, name };
                let ghost before = procs_view(out@);
                proof {
                    assert(e@.comm is None ==> name@ =~= Seq::<char>::empty());
                }
                let ghost pv = p@;
                let mut i: usize = out.len();
                while i > 0 && out[i - 1].pid > pid
                    invariant
                        i <= out@.len(),
                        before == procs_view(out@),
                        forall|k: int| i <= k < out@.len() ==> (#[trigger] out@[k]).pid > pid,
                    decreases i,
                {
                    i = i - 1;
                }
                proof {
                    assert forall|k: int| i <= k < before.len() implies (#[trigger] before[k]).pid
                        > pid by {
                        assert(out@[k].pid > pid);
                    }
                    lemma_by_pid_at(before, pv, i as int);
                }
                out.insert(i, p);
                proof {
                    assert(procs_view(out@) =~= before.insert(i as int, pv));
                }
            },
            None => {},
        }
        n = n + 1;
    }
    proof {
        assert(es.take(n as int) =~= es);
    }
    out
}

/// The name that a process's `comm` file holds, if it could be read and is not
/// blank.
pub fn process_name(comm: Option<String>) -> (r: Option<String>)
    ensures
        text::opt_view(r) == match comm {
            Some(c) => if text::trim(c@).len() == 0 {
                None::<Seq<char>>
            } else {
                Some(text::trim(c@))
            },
            None => None,
        },
{
    match comm {
        Some(c) => {
            let t = text::trimmed(c.as_str());
            if text::is_blank(c.as_str()) {
                None
            } else {
                Some(t)
            }
        },
        None => None,
    }
}

/// Processes come out by ascending id.
pub proof fn law_processes_ascend(es: Seq<ProcEntryV>)
    ensures
        forall|i: int, j: int|
            0 <= i < j < processes_in(es).len() ==> (#[trigger] processes_in(es)[i]).pid <= (
            #[trigger] processes_in(es)[j]).pid,
    decreases es.len(),
{
    if es.len() > 0 {
        law_processes_ascend(es.drop_last());
        let head = processes_in(es.drop_last());
        if let Some(pid) = text::i32_number(es.last().dir) {
            lemma_by_pid_ascends(
                head,
                ProcInfoV {
                    pid,
                    name: match es.last().comm {
                        Some(c) => text::trim(c),
                        None => Seq::empty(),
                    },
                },
            );
        }
    }
}

proof fn lemma_by_pid_ascends(s: Seq<ProcInfoV>, p: ProcInfoV)
    requires
        forall|i: int, j: int|
            0 <= i < j < s.len() ==> (#[trigger] s[i]).pid <= (#[trigger] s[j]).pid,
    ensures
        forall|i: int, j: int|
            0 <= i < j < by_pid(s, p).len() ==> (#[trigger] by_pid(s, p)[i]).pid <= (
            #[trigger] by_pid(s, p)[j]).pid,
        forall|i: int|
            0 <= i < by_pid(s, p).len() ==> (#[trigger] by_pid(s, p)[i]).pid <= if s.len() > 0
                && s.last().pid > p.pid {
                s.last().pid
            } else {
                p.pid
            },
    decreases s.len(),
{
    let r = by_pid(s, p);
    if s.len() > 0 && s.last().pid > p.pid {
        let head = s.drop_last();
        lemma_by_pid_ascends(head, p);
        let q = by_pid(head, p);
        if s.len() > 1 {
            assert(s[s.len() - 2].pid <= s[s.len() - 1].pid);
        }
        assert forall|i: int| 0 <= i < r.len() implies (#[trigger] r[i]).pid <= s.last().pid by {
            if i < q.len() {
                assert(r[i] == q[i]);
            }
        }
        assert forall|i: int, j: int| 0 <= i < j < r.len() implies (#[trigger] r[i]).pid <= (
        #[trigger] r[j]).pid by {
            if j < q.len() {
                assert(q[i].pid <= q[j].pid);
            }
        }
    } else {
        assert forall|i: int| 0 <= i < r.len() implies (#[trigger] r[i]).pid <= p.pid by {
            if i < s.len() - 1 {
                assert(s[i].pid <= s[s.len() - 1].pid);
            }
        }
        assert forall|i: int, j: int| 0 <= i < j < r.len() implies (#[trigger] r[i]).pid <= (
        #[trigger] r[j]).pid by {
            if j < s.len() {
                assert(s[i].pid <= s[j].pid);
            }
        }
    }
}

// ---------------------------------------------------------------------------
// The memory backend
// ---------------------------------------------------------------------------

/// What the memory backend reports when an access fails.
#[derive(Debug)]
pub enum BackendError {
    Permission,
    ProcessNotFound,
    Unmapped { addr: usize, len: usize },
    /// Fewer bytes than wanted were there.
    Partial { addr: usize, wanted: usize },
    ModuleNotFound { module: String },
    Other(String),
}

/// What a memory error says.
pub enum MemErrorV {
    Permission,
    NoProcess,
    Unmapped { addr: u64, len: usize },
    Backend(Seq<char>),
}

impl View for MemError {
    type V = MemErrorV;

    open spec fn view(&self) -> MemErrorV {
        match self {
            MemError::Permission => MemErrorV::Permission,
            MemError::NoProcess => MemErrorV::NoProcess,
            MemError::Unmapped { addr, len } => MemErrorV::Unmapped { addr: *addr, len: *len },
            MemError::Backend(s) => MemErrorV::Backend(s@),
        }
    }
}

/// What a report of the memory backend means here. A partial transfer counts as
/// unmapped for all that was wanted.
pub fn map_err(e: BackendError) -> (r: MemError)
    ensures
        r@ == match e {
            BackendError::Permission => MemErrorV::Permission,
            BackendError::ProcessNotFound => MemErrorV::NoProcess,
            BackendError::Unmapped { addr, len } => MemErrorV::Unmapped { addr: addr as u64, len },
            BackendError::Partial { addr, wanted } => MemErrorV::Unmapped {
                addr: addr as u64,
                len: wanted,
            },
            BackendError::ModuleNotFound { module } => MemErrorV::Backend(
                "module '"@ + module@ + "' not found"@,
            ),
            BackendError::Other(s) => MemErrorV::Backend(s@),
        },
{
    match e {
        BackendError::Permission => MemError::Permission,
        BackendError::ProcessNotFound => MemError::NoProcess,
        BackendError::Unmapped { addr, len } => MemError::Unmapped { addr: addr as u64, len },
        BackendError::Partial { addr, wanted } => MemError::Unmapped {
            addr: addr as u64,
            len: wanted,
        },
        BackendError::ModuleNotFound { module } => MemError::Backend(
            text::join3("module '", module.as_str(), "' not found"),
        ),
        BackendError::Other(s) => MemError::Backend(s),
    }
}

/// A mapping as the memory backend lists it: what it may be used for, and its
/// permissions as `/proc/<pid>/maps` writes them.
#[derive(Debug)]
pub struct Mapping {
    pub start: usize,
    pub end: usize,
    pub readable: bool,
    pub writable: bool,
    pub executable: bool,
    pub perms: String,
    pub path: Option<String>,
}

/// Whether the permissions are those of a shared mapping: their fourth byte is
/// an `s`.
pub open spec fn is_shared(perms: Seq<char>) -> bool {
    encode_utf8(perms).len() > 3 && encode_utf8(perms)[3] == 0x73
}

/// The region that a mapping stands for.
pub open spec fn region_in(m: Mapping) -> RegionV {
    RegionV {
        start: m.start as u64,
        end: m.end as u64,
        perms: Perms {
            read: m.readable,
            write: m.writable,
            execute: m.executable,
            shared: is_shared(m.perms@),
        },
        path: text::opt_view(m.path),
    }
}

/// The region that a mapping stands for.
pub fn region_from(m: Mapping) -> (r: Region)
    ensures
        r@ == region_in(m),
{
    let bytes = m.perms.as_str().as_bytes();
    let shared = bytes.len() > 3 && bytes[3] == 0x73;
    let perms = Perms { read: m.readable, write: m.writable, execute: m.executable, shared };
    Region { start: m.start as u64, end: m.end as u64, perms, path: m.path }
}

/// The value of `VMEM_BACKEND` that selects the memory backend: the kernel
/// driver where it is wanted, else the userspace path whether or not the
/// device exists.
pub fn select_backend(use_kernel: bool) -> (r: &'static str)
    ensures
        r@ == if use_kernel {
            "kernel"@
        } else {
            "syscall"@
        },
{
    if use_kernel {
        "kernel"
    } else {
        "syscall"
    }
}

/// Putting a process in its place loses none and adds none but it.
proof fn lemma_by_pid_holds(s: Seq<ProcInfoV>, p: ProcInfoV, x: ProcInfoV)
    ensures
        by_pid(s, p).len() == s.len() + 1,
        by_pid(s, p).contains(x) <==> s.contains(x) || x == p,
    decreases s.len(),
{
    let r = by_pid(s, p);
    if s.len() == 0 || s.last().pid <= p.pid {
        if s.contains(x) {
            let k = choose|k: int| 0 <= k < s.len() && s[k] == x;
            assert(r[k] == x);
        }
        assert(r[s.len() as int] == p);
    } else {
        let head = s.drop_last();
        let q = by_pid(head, p);
        lemma_by_pid_holds(head, p, x);
        if r.contains(x) {
            let k = choose|k: int| 0 <= k < r.len() && r[k] == x;
            if k < q.len() {
                assert(q[k] == x);
                if head.contains(x) {
                    let m = choose|m: int| 0 <= m < head.len() && head[m] == x;
                    assert(s[m] == x);
                }
            } else {
                assert(s[s.len() - 1] == x);
            }
        }
        if s.contains(x) {
            let k = choose|k: int| 0 <= k < s.len() && s[k] == x;
            if k < head.len() {
                assert(head[k] == x);
            } else {
                assert(r[q.len() as int] == x);
            }
        }
        if q.contains(x) {
            let k = choose|k: int| 0 <= k < q.len() && q[k] == x;
            assert(r[k] == x);
        }
    }
}

/// The processes are those that the directory has an entry for, named by a
/// number: each with that number as its id, and its trimmed name where that
/// could be read. No other entry makes one.
pub proof fn law_processes_are_the_numbered_entries(es: Seq<ProcEntryV>, x: ProcInfoV)
    ensures
        processes_in(es).contains(x) <==> exists|k: int|
            0 <= k < es.len() && text::i32_number((#[trigger] es[k]).dir) == Some(x.pid) && x.name
                == (match es[k].comm {
                Some(c) => text::trim(c),
                None => Seq::empty(),
            }),
    decreases es.len(),
{
    if es.len() > 0 {
        let head = es.drop_last();
        let n = es.len() - 1;
        law_processes_are_the_numbered_entries(head, x);
        match text::i32_number(es.last().dir) {
            Some(pid) => {
                let p = ProcInfoV {
                    pid,
                    name: match es.last().comm {
                        Some(c) => text::trim(c),
                        None => Seq::empty(),
                    },
                };
                lemma_by_pid_holds(processes_in(head), p, x);
                if x == p {
                    assert(es[n] == es.last());
                }
            },
            None => {},
        }
        if processes_in(head).contains(x) {
            let k = choose|k: int|
                0 <= k < head.len() && text::i32_number((#[trigger] head[k]).dir) == Some(x.pid)
                    && x.name == (match head[k].comm {
                    Some(c) => text::trim(c),
                    None => Seq::empty(),
                });
            assert(es[k] == head[k]);
        }
        if exists|k: int|
            0 <= k < es.len() && text::i32_number((#[trigger] es[k]).dir) == Some(x.pid) && x.name
                == (match es[k].comm {
                Some(c) => text::trim(c),
                None => Seq::empty(),
            }) {
            let k = choose|k: int|
                0 <= k < es.len() && text::i32_number((#[trigger] es[k]).dir) == Some(x.pid)
                    && x.name == (match es[k].comm {
                    Some(c) => text::trim(c),
                    None => Seq::empty(),
                });
            if k < n {
                assert(head[k] == es[k]);
            } else {
                assert(x == (ProcInfoV {
                    pid: x.pid,
                    name: match es.last().comm {
                        Some(c) => text::trim(c),
                        None => Seq::empty(),
                    },
                }));
            }
        }
    }
}

/// A region lies where its mapping lies and may be read, written and executed as
/// its mapping may; it is shared where the fourth letter of the permissions says
/// so.
pub proof fn law_region_is_as_mapped(m: Mapping, a: char, b: char, c: char, d: char)
    requires
        m.perms@ == seq![a, b, c, d],
        a as u32 <= 0x7f && b as u32 <= 0x7f && c as u32 <= 0x7f && d as u32 <= 0x7f,
    ensures
        region_in(m).start == m.start && region_in(m).end == m.end,
        region_in(m).perms.read == m.readable,
        region_in(m).perms.write == m.writable,
        region_in(m).perms.execute == m.executable,
        region_in(m).perms.shared == (d == 's'),
        m.path matches Some(p) ==> region_in(m).path == Some(p@),
        m.path is None ==> region_in(m).path is None,
{
    vstd::utf8::is_ascii_chars_encode_utf8(m.perms@);
}

} // verus!
