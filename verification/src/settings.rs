//! User settings, the per-user files that hold them, and the list of recent
//! projects.

use crate::lists;
use crate::node::{IntWidth, NodeKind};
use crate::text;
use vstd::prelude::*;

verus! {

// ---------------------------------------------------------------------------
// Paths
// ---------------------------------------------------------------------------

/// `name` taken relative to directory `dir`: an absolute `name` stands for
/// itself.
pub open spec fn path_in(dir: Seq<char>, name: Seq<char>) -> Seq<char> {
    if name.len() > 0 && name[0] == '/' {
        name
    } else if dir.len() == 0 || dir.last() == '/' {
        dir + name
    } else {
        dir + "/"@ + name
    }
}

/// `name` taken relative to directory `dir`: an absolute `name` stands for
/// itself.
pub fn join_path(dir: &str, name: &str) -> (r: String)
    ensures
        r@ == path_in(dir@, name@),
{
    let d = text::chars_of(dir);
    let n = text::chars_of(name);
    if n.len() > 0 && n[0] == '/' {
        name.to_owned()
    } else if d.len() == 0 || d[d.len() - 1] == '/' {
        text::join2(dir, name)
    } else {
        text::join3(dir, "/", name)
    }
}

/// The per-user configuration directory, given the values of
/// `XDG_CONFIG_HOME` and `HOME`.
pub open spec fn config_home(xdg: Option<Seq<char>>, home: Option<Seq<char>>) -> Seq<char> {
    match xdg {
        Some(x) => path_in(x, "reclass-rs"@),
        None => match home {
            Some(h) => path_in(path_in(h, ".config"@), "reclass-rs"@),
            None => ".reclass-rs"@,
        },
    }
}

/// Per-user configuration directory: `$XDG_CONFIG_HOME/reclass-rs`, else
/// `$HOME/.config/reclass-rs`, else `./.reclass-rs`.
pub fn config_dir(xdg: Option<String>, home: Option<String>) -> (r: String)
    ensures
        r@ == config_home(text::opt_view(xdg), text::opt_view(home)),
{
    match xdg {
        Some(x) => join_path(x.as_str(), "reclass-rs"),
        None => match home {
            Some(h) => {
                let c = join_path(h.as_str(), ".config");
                join_path(c.as_str(), "reclass-rs")
            },
            None => ".reclass-rs".to_owned(),
        },
    }
}

/// The file with the recent projects, in configuration directory `dir`.
pub fn recent_file(dir: &str) -> (r: String)
    ensures
        r@ == path_in(dir@, "recent.txt"@),
{
    join_path(dir, "recent.txt")
}

/// The settings file, in configuration directory `dir`.
pub fn settings_file(dir: &str) -> (r: String)
    ensures
        r@ == path_in(dir@, "settings.ron"@),
{
    join_path(dir, "settings.ron")
}

// ---------------------------------------------------------------------------
// Recent projects
// ---------------------------------------------------------------------------

/// Most recent projects to remember.
pub const MAX_RECENT: usize = 10;

/// The first [`MAX_RECENT`] of `s`.
pub open spec fn first_recent(s: Seq<Seq<char>>) -> Seq<Seq<char>> {
    if s.len() <= MAX_RECENT {
        s
    } else {
        s.take(MAX_RECENT as int)
    }
}

/// The recent projects (most recent first) that the text of the file holds, one
/// path per line; none where the file could not be read.
pub fn load_recent(file: Option<String>) -> (r: Vec<String>)
    ensures
        text::texts(r@) == match file {
            Some(s) => first_recent(lists::lines(s@)),
            None => Seq::empty(),
        },
{
    match file {
        Some(s) => {
            let mut v = lists::trimmed_lines(s.as_str());
            let ghost all = text::texts(v@);
            v.truncate(MAX_RECENT);
            proof {
                assert(text::texts(v@) =~= first_recent(all));
            }
            v
        },
        None => {
            let v: Vec<String> = Vec::new();
            proof {
                assert(text::texts(v@) =~= Seq::<Seq<char>>::empty());
            }
            v
        },
    }
}

/// The text of the file that holds the recent projects.
pub fn save_recent(recent: &Vec<String>) -> (r: String)
    ensures
        r@ == lists::joined(text::texts(recent@), "\n"@),
{
    lists::join(recent, "\n")
}

/// The texts of `s` other than `t`.
pub open spec fn all_but(s: Seq<Seq<char>>, t: Seq<char>) -> Seq<Seq<char>>
    decreases s.len(),
{
    if s.len() == 0 {
        Seq::empty()
    } else {
        let head = all_but(s.drop_last(), t);
        if s.last() == t {
            head
        } else {
            head.push(s.last())
        }
    }
}

/// The recent projects once `path` was used: it comes first, and only once.
pub open spec fn remembered(recent: Seq<Seq<char>>, path: Seq<char>) -> Seq<Seq<char>> {
    first_recent(seq![path] + all_but(recent, path))
}

/// Push `path` to the front of the recent list, without a second entry of it
/// and without more than [`MAX_RECENT`].
pub fn remember_path(recent: &mut Vec<String>, path: &str)
    ensures
        text::texts(final(recent)@) == remembered(text::texts(old(recent)@), path@),
{
    let ghost all = text::texts(recent@);
    let mut out: Vec<String> = Vec::new();
    text::push_text(&mut out, path);
    let mut i: usize = 0;
    proof {
        assert(all.take(0) =~= Seq::<Seq<char>>::empty());
        assert(text::texts(out@) =~= seq![path@] + all_but(all.take(0), path@));
    }
    while i < recent.len()
        invariant
            i <= recent@.len(),
            all == text::texts(recent@),
            text::texts(out@) == seq![path@] + all_but(all.take(i as int), path@),
        decreases recent@.len() - i,
    {
        proof {
            let k = all.take(i as int + 1);
            assert(k.drop_last() =~= all.take(i as int));
            assert(k.last() == recent@[i as int]@);
        }
        let ghost before = text::texts(out@);
        if !text::str_eq(recent[i].as_str(), path) {
            text::push_text(&mut out, recent[i].as_str());
            proof {
                assert(before.push(recent@[i as int]@) =~= seq![path@] + all_but(
                    all.take(i as int + 1),
                    path@,
                ));
            }
        }
        i = i + 1;
    }
    let ghost whole = text::texts(out@);
    out.truncate(MAX_RECENT);
    proof {
        assert(all.take(i as int) =~= all);
        assert(text::texts(out@) =~= first_recent(whole));
    }
    *recent = out;
}

proof fn lemma_all_but(s: Seq<Seq<char>>, t: Seq<char>, i: int)
    requires
        0 <= i < all_but(s, t).len(),
    ensures
        all_but(s, t)[i] != t,
        s.contains(all_but(s, t)[i]),
    decreases s.len(),
{
    if s.len() > 0 {
        let head = all_but(s.drop_last(), t);
        if i < head.len() {
            lemma_all_but(s.drop_last(), t, i);
            let k = choose|k: int| 0 <= k < s.drop_last().len() && s.drop_last()[k] == head[i];
            assert(s[k] == head[i]);
        } else {
            assert(s[s.len() - 1] == s.last());
        }
    }
}

/// The project just used is the first recent one, nowhere else in the list,
/// and the list never grows beyond its limit.
pub proof fn law_remembered(recent: Seq<Seq<char>>, path: Seq<char>)
    ensures
        remembered(recent, path).len() > 0,
        remembered(recent, path)[0] == path,
        remembered(recent, path).len() <= MAX_RECENT,
        forall|i: int|
            0 < i < remembered(recent, path).len() ==> #[trigger] remembered(recent, path)[i]
                != path && recent.contains(remembered(recent, path)[i]),
{
    assert forall|i: int| 0 < i < remembered(recent, path).len() implies #[trigger] remembered(
        recent,
        path,
    )[i] != path && recent.contains(remembered(recent, path)[i]) by {
        lemma_all_but(recent, path, i - 1);
    }
}

proof fn lemma_split_joined(a: Seq<char>, b: Seq<char>)
    requires
        !b.contains('\n'),
    ensures
        text::split(a + seq!['\n'] + b, '\n') == text::split(a, '\n').push(b),
    decreases a.len(),
{
    let s = a + seq!['\n'] + b;
    let i = text::first_of(a, '\n');
    text::lemma_first_of(a, '\n');
    text::lemma_first_of(b, '\n');
    if i < a.len() {
        text::lemma_first_of_unique(s, '\n', i);
        assert(s.take(i) =~= a.take(i));
        assert(s.skip(i + 1) =~= a.skip(i + 1) + seq!['\n'] + b);
        lemma_split_joined(a.skip(i + 1), b);
        assert(text::split(s, '\n') =~= text::split(a, '\n').push(b));
    } else {
        assert(s[a.len() as int] == '\n');
        assert forall|k: int| 0 <= k < a.len() implies s[k] != '\n' by {
            assert(s[k] == a[k]);
        }
        text::lemma_first_of_unique(s, '\n', a.len() as int);
        assert(s.take(a.len() as int) =~= a);
        assert(s.skip(a.len() as int + 1) =~= b);
        let j = text::first_of(b, '\n');
        assert(text::split(b, '\n') =~= seq![b]) by {
            if j < b.len() {
                assert(b.contains(b[j]));
            }
        }
        assert(text::split(s, '\n') =~= text::split(a, '\n').push(b));
    }
}

/// Whether `t` is a line of its own: not blank, trimmed, and without a line
/// break.
pub open spec fn is_line(t: Seq<char>) -> bool {
    t.len() > 0 && text::trim(t) == t && !t.contains('\n')
}

proof fn lemma_lines_of_joined(s: Seq<Seq<char>>)
    requires
        forall|i: int| 0 <= i < s.len() ==> is_line(#[trigger] s[i]),
    ensures
        lists::lines(lists::joined(s, "\n"@)) == s,
    decreases s.len(),
{
    reveal_strlit("\n");
    assert("\n"@ =~= seq!['\n']);
    let t = lists::joined(s, "\n"@);
    let parts = text::split(t, '\n');
    if s.len() == 0 {
        text::lemma_first_of(t, '\n');
        assert(parts =~= seq![t]);
        assert(parts.drop_last() =~= Seq::<Seq<char>>::empty());
        assert(parts.last() == t);
        assert(lists::trimmed_all(parts.drop_last()) =~= Seq::<Seq<char>>::empty());
        assert(text::trim_start(t) == t);
        assert(text::trim(t).len() == 0);
        assert(lists::lines(t) =~= s);
    } else if s.len() == 1 {
        assert(is_line(s[0]));
        text::lemma_first_of(t, '\n');
        let j = text::first_of(t, '\n');
        if j < t.len() {
            assert(t.contains(t[j]));
        }
        assert(parts =~= seq![t]);
        assert(parts.drop_last() =~= Seq::<Seq<char>>::empty());
        assert(parts.last() == t);
        assert(lists::trimmed_all(parts.drop_last()) =~= Seq::<Seq<char>>::empty());
        assert(lists::lines(t) =~= s);
    } else {
        assert(is_line(s[s.len() - 1]));
        let head = s.drop_last();
        assert forall|i: int| 0 <= i < head.len() implies is_line(#[trigger] head[i]) by {
            assert(is_line(s[i]));
        }
        lemma_lines_of_joined(head);
        lemma_split_joined(lists::joined(head, "\n"@), s.last());
        let before = text::split(lists::joined(head, "\n"@), '\n');
        assert(parts == before.push(s.last()));
        assert(parts.drop_last() =~= before);
        assert(lists::lines(t) =~= head.push(s.last()));
        assert(head.push(s.last()) =~= s);
    }
}

/// The recent projects come back as they were saved.
pub proof fn law_recent_round_trip(s: Seq<Seq<char>>)
    requires
        s.len() <= MAX_RECENT,
        forall|i: int| 0 <= i < s.len() ==> is_line(#[trigger] s[i]),
    ensures
        first_recent(lists::lines(lists::joined(s, "\n"@))) == s,
{
    lemma_lines_of_joined(s);
}

// ---------------------------------------------------------------------------
// Settings
// ---------------------------------------------------------------------------

/// User configuration.
#[derive(Debug)]
pub struct Settings {
    /// Whether value-change highlighting is on at all.
    pub flash_enabled: bool,
    /// Value-change highlight color (sRGB).
    pub flash_color: (u8, u8, u8),
    /// Highlight fade duration in seconds: the bits of a 32-bit float.
    pub flash_secs: u32,
    /// Default node type for newly-seeded fields (e.g. Hex64 vs Int64).
    pub default_kind: NodeKind,
    /// Number of `default_kind` rows a fresh class is seeded with.
    pub seed_rows: usize,
    /// Max array elements rendered per array node.
    pub array_cap: usize,
    /// Whether the control server for agents runs.
    pub mcp_enabled: bool,
    /// The loopback port that it listens on.
    pub mcp_port: u16,
    /// Whether memory is read through the kernel driver.
    pub use_kernel: bool,
}

/// The bits of the default fade duration, six tenths of a second.
pub const DEFAULT_FADE: u32 = 0x3F19999A;

/// The settings of a user who has set nothing.
pub open spec fn default_settings() -> Settings {
    Settings {
        flash_enabled: true,
        flash_color: (0xFF, 0x40, 0x40),
        flash_secs: DEFAULT_FADE,
        default_kind: NodeKind::Hex(IntWidth::W64),
        seed_rows: 16,
        array_cap: 256,
        mcp_enabled: false,
        mcp_port: 4000,
        use_kernel: false,
    }
}

impl Default for Settings {
    fn default() -> (r: Settings)
        ensures
            r == default_settings(),
    {
        Settings {
            flash_enabled: true,
            flash_color: (0xFF, 0x40, 0x40),
            flash_secs: DEFAULT_FADE,
            default_kind: NodeKind::Hex(IntWidth::W64),
            seed_rows: 16,
            array_cap: 256,
            mcp_enabled: false,
            mcp_port: 4000,
            use_kernel: false,
        }
    }
}

/// `n` brought into `lo..=hi`.
pub open spec fn within(n: usize, lo: usize, hi: usize) -> usize {
    if n < lo {
        lo
    } else if n > hi {
        hi
    } else {
        n
    }
}

/// [`within`] of `n`.
pub fn clamp_to(n: usize, lo: usize, hi: usize) -> (r: usize)
    ensures
        r == within(n, lo, hi),
{
    if n < lo {
        lo
    } else if n > hi {
        hi
    } else {
        n
    }
}

/// One change made in the settings window.
#[derive(Debug)]
pub enum Change {
    FlashEnabled(bool),
    FlashColor((u8, u8, u8)),
    /// The bits of the new duration, which lies within its limits.
    FlashSecs(u32),
    DefaultKind(NodeKind),
    SeedRows(usize),
    ArrayCap(usize),
    McpEnabled(bool),
    McpPort(u16),
    Reset,
}

/// The settings after a change. The color can be changed only while
/// highlighting is on, and the port only while the server is.
pub open spec fn changed(s: Settings, c: Change) -> Settings {
    match c {
        Change::FlashEnabled(b) => Settings { flash_enabled: b, ..s },
        Change::FlashColor(rgb) => if s.flash_enabled {
            Settings { flash_color: rgb, ..s }
        } else {
            s
        },
        Change::FlashSecs(bits) => Settings { flash_secs: bits, ..s },
        Change::DefaultKind(kind) => Settings { default_kind: kind, ..s },
        Change::SeedRows(n) => Settings { seed_rows: within(n, 0, 256), ..s },
        Change::ArrayCap(n) => Settings { array_cap: within(n, 16, 8192), ..s },
        Change::McpEnabled(b) => Settings { mcp_enabled: b, ..s },
        Change::McpPort(p) => if s.mcp_enabled {
            Settings { mcp_port: if p == 0 { 1 } else { p }, ..s }
        } else {
            s
        },
        Change::Reset => default_settings(),
    }
}

impl Settings {
    /// Make a change.
    pub fn change(&mut self, c: Change)
        ensures
            *final(self) == changed(*old(self), c),
    {
        match c {
            Change::FlashEnabled(b) => {
                self.flash_enabled = b;
            },
            Change::FlashColor(rgb) => {
                if self.flash_enabled {
                    self.flash_color = rgb;
                }
            },
            Change::FlashSecs(bits) => {
                self.flash_secs = bits;
            },
            Change::DefaultKind(kind) => {
                self.default_kind = kind;
            },
            Change::SeedRows(n) => {
                self.seed_rows = clamp_to(n, 0, 256);
            },
            Change::ArrayCap(n) => {
                self.array_cap = clamp_to(n, 16, 8192);
            },
            Change::McpEnabled(b) => {
                self.mcp_enabled = b;
            },
            Change::McpPort(p) => {
                if self.mcp_enabled {
                    self.mcp_port = if p == 0 {
                        1
                    } else {
                        p
                    };
                }
            },
            Change::Reset => {
                *self = Settings::default();
            },
        }
    }

    /// A copy.
    pub fn dup(&self) -> (r: Settings)
        ensures
            r == *self,
    {
        Settings {
            flash_enabled: self.flash_enabled,
            flash_color: self.flash_color,
            flash_secs: self.flash_secs,
            default_kind: self.default_kind.dup(),
            seed_rows: self.seed_rows,
            array_cap: self.array_cap,
            mcp_enabled: self.mcp_enabled,
            mcp_port: self.mcp_port,
            use_kernel: self.use_kernel,
        }
    }

    /// The settings as read from disk: the defaults where they could not be
    /// read.
    pub fn load(read: Option<Settings>) -> (r: Settings)
        ensures
            r == match read {
                Some(s) => s,
                None => default_settings(),
            },
    {
        match read {
            Some(s) => s,
            None => Settings::default(),
        }
    }
}

/// A change sets what it names, brought within what is allowed, and leaves every
/// other setting as it is; a reset gives back the defaults.
pub proof fn law_change_sets_one_thing(
    s: Settings,
    on: bool,
    rgb: (u8, u8, u8),
    bits: u32,
    k: NodeKind,
    n: usize,
    p: u16,
)
    ensures
        changed(s, Change::FlashSecs(bits)) == (Settings { flash_secs: bits, ..s }),
        s.flash_enabled ==> changed(s, Change::FlashColor(rgb)) == (Settings {
            flash_color: rgb,
            ..s
        }),
        !s.flash_enabled ==> changed(s, Change::FlashColor(rgb)) == s,
        changed(s, Change::FlashEnabled(on)) == (Settings { flash_enabled: on, ..s }),
        changed(s, Change::McpEnabled(on)) == (Settings { mcp_enabled: on, ..s }),
        changed(s, Change::DefaultKind(k)) == (Settings { default_kind: k, ..s }),
        ({
            let t = changed(s, Change::SeedRows(n));
            &&& t == (Settings { seed_rows: t.seed_rows, ..s })
            &&& t.seed_rows <= 256
            &&& n <= 256 ==> t.seed_rows == n
            &&& n > 256 ==> t.seed_rows == 256
        }),
        ({
            let t = changed(s, Change::ArrayCap(n));
            &&& t == (Settings { array_cap: t.array_cap, ..s })
            &&& 16 <= t.array_cap <= 8192
            &&& 16 <= n <= 8192 ==> t.array_cap == n
            &&& n < 16 ==> t.array_cap == 16
            &&& n > 8192 ==> t.array_cap == 8192
        }),
        ({
            let t = changed(s, Change::McpPort(p));
            &&& t == (Settings { mcp_port: t.mcp_port, ..s })
            &&& s.mcp_enabled && p > 0 ==> t.mcp_port == p
            &&& s.mcp_enabled ==> t.mcp_port > 0
            &&& !s.mcp_enabled ==> t.mcp_port == s.mcp_port
        }),
        changed(s, Change::Reset) == changed(changed(s, Change::SeedRows(n)), Change::Reset),
        !changed(s, Change::Reset).mcp_enabled,
        changed(s, Change::Reset).flash_enabled,
{
}

/// A name is looked for in its directory, with one slash between the two; a name
/// that begins at the root stands for itself.
pub proof fn law_paths_are_joined(dir: Seq<char>, name: Seq<char>)
    ensures
        name.len() > 0 && name[0] == '/' ==> path_in(dir, name) == name,
        !(name.len() > 0 && name[0] == '/') ==> {
            &&& path_in(dir, name).len() >= dir.len() + name.len()
            &&& path_in(dir, name).take(dir.len() as int) == dir
            &&& path_in(dir, name).skip(path_in(dir, name).len() - name.len()) == name
            &&& dir.len() > 0 ==> path_in(dir, name)[path_in(dir, name).len() - name.len() - 1]
                == '/'
            &&& path_in(dir, name).len() <= dir.len() + 1 + name.len()
        },
{
    reveal_strlit("/");
    let p = path_in(dir, name);
    if !(name.len() > 0 && name[0] == '/') {
        assert(p.take(dir.len() as int) =~= dir);
        assert(p.skip(p.len() - name.len()) =~= name);
    }
}

/// The other recent projects stay behind the one just used, in their order, as
/// many as the list holds; none of them is lost before it is full. `at` says
/// where they stood.
pub proof fn law_recent_projects_keep_their_order(recent: Seq<Seq<char>>, path: Seq<char>) -> (at:
    Seq<int>)
    ensures
        at.len() + 1 == remembered(recent, path).len(),
        forall|a: int|
            0 <= a < at.len() ==> 0 <= #[trigger] at[a] < recent.len() && remembered(
                recent,
                path,
            )[a + 1] == recent[at[a]],
        forall|a: int, b: int| 0 <= a < b < at.len() ==> #[trigger] at[a] < #[trigger] at[b],
        recent.len() < MAX_RECENT ==> forall|i: int|
            0 <= i < recent.len() && #[trigger] recent[i] != path ==> at.contains(i),
{
    let whole = lemma_all_but_at(recent, path);
    let n = remembered(recent, path).len() - 1;
    let at = whole.take(n);
    assert(recent.len() < MAX_RECENT ==> at =~= whole);
    at
}

proof fn lemma_all_but_at(s: Seq<Seq<char>>, t: Seq<char>) -> (at: Seq<int>)
    ensures
        at.len() == all_but(s, t).len() <= s.len(),
        forall|a: int|
            0 <= a < at.len() ==> 0 <= #[trigger] at[a] < s.len() && all_but(s, t)[a] == s[at[a]],
        forall|a: int, b: int| 0 <= a < b < at.len() ==> #[trigger] at[a] < #[trigger] at[b],
        forall|i: int| 0 <= i < s.len() && #[trigger] s[i] != t ==> at.contains(i),
    decreases s.len(),
{
    if s.len() == 0 {
        Seq::empty()
    } else {
        let head = s.drop_last();
        let before = lemma_all_but_at(head, t);
        let at = if s.last() == t {
            before
        } else {
            before.push(s.len() - 1)
        };
        assert forall|i: int| 0 <= i < s.len() && #[trigger] s[i] != t implies at.contains(i) by {
            if i < head.len() {
                assert(head[i] == s[i]);
                assert(before.contains(i));
                let k = choose|k: int| 0 <= k < before.len() && before[k] == i;
                assert(at[k] == i);
            } else {
                assert(at[before.len() as int] == i);
            }
        }
        at
    }
}

/// The settings are looked for where the user keeps configuration: in the
/// directory set for it, else in `.config` of the home directory.
pub proof fn law_configuration_has_its_place(xdg: Seq<char>, home: Option<Seq<char>>)
    ensures
        config_home(Some(xdg), home) == path_in(xdg, "reclass-rs"@),
        home matches Some(h) ==> config_home(None, home) == path_in(
            path_in(h, ".config"@),
            "reclass-rs"@,
        ),
        config_home(None, None) == ".reclass-rs"@,
{
}

/// A number brought within bounds lies within them, and is as it was where it
/// lay there.
pub proof fn law_numbers_are_brought_within_bounds(n: usize, lo: usize, hi: usize)
    requires
        lo <= hi,
    ensures
        lo <= within(n, lo, hi) <= hi,
        lo <= n <= hi ==> within(n, lo, hi) == n,
        n < lo ==> within(n, lo, hi) == lo,
        n > hi ==> within(n, lo, hi) == hi,
{
}

} // verus!
