//! The target's mapped regions, how an address is described in their terms,
//! and what can go wrong when memory is read or written.

use crate::project::dup_opt;
use crate::text;
use vstd::prelude::*;

verus! {

/// What a region may be used for.
#[derive(Clone, Copy, Debug, PartialEq, Eq, Structural)]
pub struct Perms {
    pub read: bool,
    pub write: bool,
    pub execute: bool,
    pub shared: bool,
}

/// A mapped stretch of the target's memory, `end` not included.
#[derive(Debug, PartialEq, Eq)]
pub struct Region {
    pub start: u64,
    pub end: u64,
    pub perms: Perms,
    pub path: Option<String>,
}

/// What a [`Region`] says.
pub struct RegionV {
    pub start: u64,
    pub end: u64,
    pub perms: Perms,
    pub path: Option<Seq<char>>,
}

impl View for Region {
    type V = RegionV;

    open spec fn view(&self) -> RegionV {
        RegionV {
            start: self.start,
            end: self.end,
            perms: self.perms,
            path: text::opt_view(self.path),
        }
    }
}

/// What a list of regions says.
pub open spec fn regions_view(s: Seq<Region>) -> Seq<RegionV> {
    Seq::new(s.len(), |i: int| s[i]@)
}

/// `c` where `on`, else a dash.
pub open spec fn flag(on: bool, c: char) -> char {
    if on {
        c
    } else {
        '-'
    }
}

/// Permissions as in `/proc/<pid>/maps`: `rw-p`, `r-xs`.
pub open spec fn perms_text(p: Perms) -> Seq<char> {
    seq![
        flag(p.read, 'r'),
        flag(p.write, 'w'),
        flag(p.execute, 'x'),
        if p.shared {
            's'
        } else {
            'p'
        },
    ]
}

impl RegionV {
    /// Whether `addr` lies in the region.
    pub open spec fn contains(self, addr: u64) -> bool {
        self.start <= addr < self.end
    }

    /// `addr` in terms of the region: file and offset where it maps a file,
    /// else permissions and address.
    pub open spec fn label(self, addr: u64) -> Seq<char> {
        match self.path {
            Some(p) => text::after_last(p, '/') + seq!['+', '0', 'x'] + text::written(
                (addr - self.start) as nat,
                16,
                true,
            ),
            None => perms_text(self.perms) + seq![' ', '0', 'x'] + text::written(
                addr as nat,
                16,
                true,
            ),
        }
    }
}

/// The first region that holds `addr`.
pub open spec fn region_of(rs: Seq<RegionV>, addr: u64) -> Option<RegionV>
    decreases rs.len(),
{
    if rs.len() == 0 {
        None
    } else if rs[0].contains(addr) {
        Some(rs[0])
    } else {
        region_of(rs.skip(1), addr)
    }
}

impl Perms {
    /// The permissions as text.
    pub fn text(self) -> (r: String)
        ensures
            r@ == perms_text(self),
    {
        let mut s = String::new();
        s.push(if self.read {
            'r'
        } else {
            '-'
        });
        s.push(if self.write {
            'w'
        } else {
            '-'
        });
        s.push(if self.execute {
            'x'
        } else {
            '-'
        });
        s.push(if self.shared {
            's'
        } else {
            'p'
        });
        proof {
            assert(s@ =~= perms_text(self));
        }
        s
    }
}

impl Region {
    /// Whether `addr` lies in the region.
    pub fn contains(&self, addr: u64) -> (r: bool)
        ensures
            r == self@.contains(addr),
    {
        self.start <= addr && addr < self.end
    }

    /// A copy of the region.
    pub fn dup(&self) -> (r: Region)
        ensures
            r@ == self@,
    {
        Region { start: self.start, end: self.end, perms: self.perms, path: dup_opt(&self.path) }
    }
}

/// Resolves an address to a `module+offset` / region label for pointer display.
pub struct AddrResolver<'a> {
    pub regions: &'a Vec<Region>,
}

impl<'a> AddrResolver<'a> {
    /// The label of `addr` in the first region that holds it.
    pub fn describe(&self, addr: u64) -> (r: Option<String>)
        ensures
            text::opt_view(r) == match region_of(regions_view(self.regions@), addr) {
                Some(reg) => Some(reg.label(addr)),
                None => None,
            },
    {
        let ghost all = regions_view(self.regions@);
        let mut i: usize = 0;
        proof {
            assert(all.skip(0) =~= all);
        }
        while i < self.regions.len()
            invariant
                i <= self.regions@.len(),
                all == regions_view(self.regions@),
                region_of(all.skip(i as int), addr) == region_of(all, addr),
            decreases self.regions@.len() - i,
        {
            let r = &self.regions[i];
            proof {
                assert(all.skip(i as int)[0] == r@);
                assert(all.skip(i as int).skip(1) =~= all.skip(i + 1));
            }
            if r.contains(addr) {
                let s = match &r.path {
                    Some(p) => {
                        let base = text::tail_after(&text::chars_of(p.as_str()), '/');
                        let mut s = text::string_of(&base);
                        s.push('+');
                        s.push('0');
                        s.push('x');
                        s.append(text::hex_upper(addr - r.start).as_str());
                        s
                    },
                    None => {
                        let mut s = r.perms.text();
                        s.push(' ');
                        s.push('0');
                        s.push('x');
                        s.append(text::hex_upper(addr).as_str());
                        s
                    },
                };
                proof {
                    assert(s@ =~= r@.label(addr));
                }
                return Some(s);
            }
            i = i + 1;
        }
        None
    }
}

/// Why memory could not be read or written.
#[derive(Debug, PartialEq, Eq)]
pub enum MemError {
    /// Not allowed to look into the process.
    Permission,
    /// No such process.
    NoProcess,
    /// Not all of the range is mapped.
    Unmapped { addr: u64, len: usize },
    /// Anything else, with a display-ready reason.
    Backend(String),
}

// ---------------------------------------------------------------------------
// Laws
// ---------------------------------------------------------------------------

/// The region of an address is the first one that begins at it or before it and
/// ends behind it; there is none exactly when no region does.
pub proof fn law_region_holds_the_address(rs: Seq<RegionV>, addr: u64) -> (at: int)
    ensures
        region_of(rs, addr) matches Some(r) ==> 0 <= at < rs.len() && r == rs[at] && r.start <= addr
            < r.end && forall|k: int|
            0 <= k < at ==> !((#[trigger] rs[k]).start <= addr && addr < rs[k].end),
        region_of(rs, addr) is None ==> forall|k: int|
            0 <= k < rs.len() ==> !((#[trigger] rs[k]).start <= addr && addr < rs[k].end),
    decreases rs.len(),
{
    if rs.len() == 0 || rs[0].contains(addr) {
        0
    } else {
        let rest = rs.skip(1);
        let at = law_region_holds_the_address(rest, addr);
        if region_of(rs, addr) is Some {
            assert forall|k: int| 0 <= k < at + 1 implies !((#[trigger] rs[k]).start <= addr && addr
                < rs[k].end) by {
                if k > 0 {
                    assert(rest[k - 1] == rs[k]);
                }
            }
        } else {
            assert forall|k: int| 0 <= k < rs.len() implies !((#[trigger] rs[k]).start <= addr
                && addr < rs[k].end) by {
                if k > 0 {
                    assert(rest[k - 1] == rs[k]);
                }
            }
        }
        at + 1
    }
}

/// Permissions are written as four characters, one for each: a letter where it
/// is given, a dash where it is not, and at the end whether the memory is shared
/// or private.
pub proof fn law_permissions_are_spelled_out(p: Perms)
    ensures
        perms_text(p).len() == 4,
        perms_text(p)[0] == 'r' <==> p.read,
        perms_text(p)[1] == 'w' <==> p.write,
        perms_text(p)[2] == 'x' <==> p.execute,
        perms_text(p)[3] == 's' <==> p.shared,
        !p.read ==> perms_text(p)[0] == '-',
        !p.write ==> perms_text(p)[1] == '-',
        !p.execute ==> perms_text(p)[2] == '-',
        !p.shared ==> perms_text(p)[3] == 'p',
{
}

/// An address in a mapped file is told by the file's name, without the
/// directories before it, and how far behind the region's start it lies.
pub proof fn law_label_tells_file_and_distance(
    r: RegionV,
    dirs: Seq<char>,
    file: Seq<char>,
    off: u64,
)
    requires
        r.path == Some(dirs + seq!['/'] + file),
        forall|k: int| 0 <= k < file.len() ==> #[trigger] file[k] != '/',
        r.start + off <= u64::MAX,
    ensures
        r.label((r.start + off) as u64) == file + seq!['+', '0', 'x'] + text::written(
            off as nat,
            16,
            true,
        ),
{
    text::law_after_last_is_the_rest(dirs, file, '/');
}

} // verus!
