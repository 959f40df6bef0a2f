//! Self-update: what a published release is, which version is newer, and what
//! the update check and the install do to the status that the user sees.

use crate::json::{items_view, json_parsed, parse_json, Json, JsonV};
use crate::text;
use vstd::prelude::*;

verus! {

/// `owner/repo` the releases are published under.
pub const REPO: &'static str = "Jirubizu/reclass-rs";

/// The release asset that can be installed.
pub const ASSET: &'static str = "reclass-linux-x86_64.tar.gz";

/// The version of this crate.
pub const PKG_VERSION: &'static str = "0.9.1";

/// Semantic version triple; any pre-release or build suffix is discarded.
pub type Version = (u32, u32, u32);

/// `s` without its leading `v`s.
pub open spec fn without_v(s: Seq<char>) -> Seq<char>
    decreases s.len(),
{
    if s.len() > 0 && s[0] == 'v' {
        without_v(s.skip(1))
    } else {
        s
    }
}

/// `s` up to its first `-` or `+`.
pub open spec fn without_suffix(s: Seq<char>) -> Seq<char> {
    s.take(text::first_of(s.take(text::first_of(s, '-')), '+'))
}

/// The number in the `i`-th of the dotted parts; a missing part counts as 0.
pub open spec fn version_part(parts: Seq<Seq<char>>, i: int) -> Option<u32> {
    if i < parts.len() {
        text::u32_number(parts[i])
    } else {
        Some(0)
    }
}

/// The version that `s` writes: white space around it, `v`s before it and a
/// suffix behind it do not count; one to three dotted numbers remain.
pub open spec fn version_of(s: Seq<char>) -> Option<Version> {
    let parts = text::split(without_suffix(without_v(text::trim(s))), '.');
    match (version_part(parts, 0), version_part(parts, 1), version_part(parts, 2)) {
        (Some(a), Some(b), Some(c)) => if parts.len() <= 3 {
            Some((a, b, c))
        } else {
            None
        },
        _ => None,
    }
}

/// Whether `a` is a later version than `b`.
pub open spec fn newer(a: Version, b: Version) -> bool {
    a.0 > b.0 || (a.0 == b.0 && (a.1 > b.1 || (a.1 == b.1 && a.2 > b.2)))
}

/// How a version is written in a tag.
pub open spec fn version_text(v: Version) -> Seq<char> {
    seq!['v'] + text::written(v.0 as nat, 10, false) + seq!['.'] + text::written(
        v.1 as nat,
        10,
        false,
    ) + seq!['.'] + text::written(v.2 as nat, 10, false)
}

/// Render a [`Version`] the way tags are written.
pub fn format_version(v: Version) -> (r: String)
    ensures
        r@ == version_text(v),
{
    let mut s = String::new();
    s.push('v');
    s.append(text::dec(v.0 as u64).as_str());
    s.push('.');
    s.append(text::dec(v.1 as u64).as_str());
    s.push('.');
    s.append(text::dec(v.2 as u64).as_str());
    proof {
        assert(s@ =~= version_text(v));
    }
    s
}

/// Parse `v1.2.3`, `1.2.3-beta` or `1.2` into a comparable triple.
///
/// Missing components default to `0`; a pre-release (`-`) or build (`+`) suffix
/// is ignored, so `v0.1.0-beta` and `v0.1.0` compare equal.
pub fn parse_version(s: &str) -> (r: Option<Version>)
    ensures
        r == version_of(s@),
{
    let whole = text::trim_chars(&text::chars_of(s));
    let core = drop_v(&whole);
    let head = text::part(&core, 0, text::find_char(&core, '-'));
    let head2 = text::part(&head, 0, text::find_char(&head, '+'));
    proof {
        assert(head@ =~= core@.take(text::first_of(core@, '-')));
        text::lemma_first_of(core@, '-');
        text::lemma_first_of(head@, '+');
        assert(head2@ =~= without_suffix(core@));
    }
    let parts = text::split_chars(&head2, '.');
    let ghost p = text::split(head2@, '.');
    proof {
        assert(text::pieces(parts@) == p);
        assert(p.len() >= 1);
        assert forall|i: int| 0 <= i < parts@.len() implies #[trigger] parts@[i]@ == p[i] by {}
    }
    let major = part_number(&parts, 0);
    let minor = part_number(&parts, 1);
    let patch = part_number(&parts, 2);
    match (major, minor, patch) {
        (Some(a), Some(b), Some(c)) => if parts.len() <= 3 {
            Some((a, b, c))
        } else {
            None
        },
        _ => None,
    }
}

/// [`version_part`] of `parts`.
fn part_number(parts: &Vec<Vec<char>>, i: usize) -> (r: Option<u32>)
    ensures
        r == version_part(text::pieces(parts@), i as int),
{
    if i < parts.len() {
        text::parse_u32(&parts[i])
    } else {
        Some(0)
    }
}

/// [`without_v`] of `s`.
fn drop_v(s: &Vec<char>) -> (r: Vec<char>)
    ensures
        r@ == without_v(s@),
{
    let mut i: usize = 0;
    proof {
        assert(s@.skip(0) =~= s@);
    }
    while i < s.len() && s[i] == 'v'
        invariant
            i <= s@.len(),
            without_v(s@.skip(i as int)) == without_v(s@),
        decreases s@.len() - i,
    {
        proof {
            assert(s@.skip(i as int).skip(1) =~= s@.skip(i + 1));
        }
        i = i + 1;
    }
    let r = text::part(s, i, s.len());
    proof {
        assert(r@ =~= s@.skip(i as int));
    }
    r
}

/// Whether `a` is a later version than `b`.
pub fn is_newer(a: Version, b: Version) -> (r: bool)
    ensures
        r == newer(a, b),
{
    a.0 > b.0 || (a.0 == b.0 && (a.1 > b.1 || (a.1 == b.1 && a.2 > b.2)))
}

/// Three dotted numbers.
pub open spec fn dotted(v: Version) -> Seq<char> {
    text::written(v.0 as nat, 10, false) + seq!['.'] + text::written(v.1 as nat, 10, false) + seq![
        '.',
    ] + text::written(v.2 as nat, 10, false)
}

/// Decimal digits are neither white space, nor `v`, nor part of a separator.
proof fn lemma_digits_are_plain(s: Seq<char>)
    requires
        text::all_digits(s, 10),
    ensures
        forall|i: int|
            0 <= i < s.len() ==> {
                let c = #[trigger] s[i];
                &&& !text::is_white(c)
                &&& c != 'v'
                &&& c != '.'
                &&& c != '-'
                &&& c != '+'
            },
{
    assert forall|i: int| 0 <= i < s.len() implies {
        let c = #[trigger] s[i];
        &&& !text::is_white(c)
        &&& c != 'v'
        &&& c != '.'
        &&& c != '-'
        &&& c != '+'
    } by {
        assert(text::is_digit(s[i], 10));
    }
}

/// Cutting at the first dot after `head`.
proof fn lemma_split_head(head: Seq<char>, tail: Seq<char>)
    requires
        forall|i: int| 0 <= i < head.len() ==> #[trigger] head[i] != '.',
    ensures
        text::split(head + seq!['.'] + tail, '.') == seq![head] + text::split(tail, '.'),
{
    let s = head + seq!['.'] + tail;
    assert forall|k: int| 0 <= k < head.len() implies s[k] != '.' by {
        assert(s[k] == head[k]);
    }
    text::lemma_first_of_unique(s, '.', head.len() as int);
    assert(s.take(head.len() as int) =~= head);
    assert(s.skip(head.len() as int + 1) =~= tail);
}

/// Three dotted numbers are read as the version they write.
proof fn lemma_dotted(v: Version)
    ensures
        dotted(v).len() > 0,
        dotted(v)[0] != 'v',
        !text::is_white(dotted(v)[0]),
        !text::is_white(dotted(v).last()),
        without_suffix(dotted(v)) == dotted(v),
        version_of(dotted(v)) == Some(v),
{
    let a = text::written(v.0 as nat, 10, false);
    let b = text::written(v.1 as nat, 10, false);
    let c = text::written(v.2 as nat, 10, false);
    text::lemma_written_reads_back(v.0 as nat, 10, false);
    text::lemma_written_reads_back(v.1 as nat, 10, false);
    text::lemma_written_reads_back(v.2 as nat, 10, false);
    lemma_digits_are_plain(a);
    lemma_digits_are_plain(b);
    lemma_digits_are_plain(c);
    let s = dotted(v);
    assert(s[0] == a[0]);
    assert(s.last() == c.last());
    assert(c.last() == c[c.len() - 1]);
    assert forall|i: int| 0 <= i < s.len() implies s[i] != '-' && s[i] != '+' by {
        if i < a.len() {
            assert(s[i] == a[i]);
        } else if a.len() < i < a.len() + 1 + b.len() {
            assert(s[i] == b[i - a.len() - 1]);
        } else if i > a.len() + 1 + b.len() {
            assert(s[i] == c[i - a.len() - b.len() - 2]);
        }
    }
    text::lemma_first_of_unique(s, '-', s.len() as int);
    text::lemma_first_of_unique(s, '+', s.len() as int);
    assert(s.take(s.len() as int) =~= s);
    assert(text::trim(s) == s);
    let bc = b + seq!['.'] + c;
    assert(s =~= a + seq!['.'] + bc);
    lemma_split_head(a, bc);
    lemma_split_head(b, c);
    text::lemma_first_of_unique(c, '.', c.len() as int);
    let parts = text::split(s, '.');
    assert(parts =~= seq![a, b, c]);
    assert(text::u32_number(a) == Some(v.0));
    assert(text::u32_number(b) == Some(v.1));
    assert(text::u32_number(c) == Some(v.2));
}

/// A version written as a tag is read back as itself.
pub proof fn law_version_round_trip(v: Version)
    ensures
        version_of(version_text(v)) == Some(v),
{
    lemma_dotted(v);
    let s = version_text(v);
    let d = dotted(v);
    assert(s =~= seq!['v'] + d);
    assert(s.last() == d.last());
    assert(text::trim(s) == s);
    assert(s.skip(1) =~= d);
    assert(without_v(d) == d);
    assert(text::trim(d) == d);
}

/// Cutting at the first mark: nothing before it is one.
proof fn lemma_without_suffix(s: Seq<char>, at: int)
    requires
        0 <= at <= s.len(),
        forall|k: int| 0 <= k < at ==> #[trigger] s[k] != '-' && s[k] != '+',
        at < s.len() ==> s[at] == '-' || s[at] == '+',
    ensures
        without_suffix(s) == s.take(at),
{
    let f = text::first_of(s, '-');
    text::lemma_first_of(s, '-');
    assert(at <= f);
    let u = s.take(f);
    if at < f {
        assert(s[at] == '+');
        assert(u[at] == '+');
    }
    assert forall|k: int| 0 <= k < at implies u[k] != '+' by {
        assert(u[k] == s[k]);
    }
    text::lemma_first_of_unique(u, '+', at);
}

/// The place of the first mark in `s`, or the length of `s`.
proof fn lemma_first_mark(s: Seq<char>) -> (at: int)
    ensures
        0 <= at <= s.len(),
        forall|k: int| 0 <= k < at ==> #[trigger] s[k] != '-' && s[k] != '+',
        at < s.len() ==> s[at] == '-' || s[at] == '+',
{
    text::lemma_first_of(s, '-');
    text::lemma_first_of(s, '+');
    if text::first_of(s, '-') < text::first_of(s, '+') {
        text::first_of(s, '-')
    } else {
        text::first_of(s, '+')
    }
}

/// What stands behind a mark does not count.
proof fn lemma_suffix_cut(s: Seq<char>, mark: char, rest: Seq<char>)
    requires
        mark == '-' || mark == '+',
    ensures
        without_suffix(s + seq![mark] + rest) == without_suffix(s),
{
    let t = s + seq![mark] + rest;
    let at = lemma_first_mark(s);
    assert forall|k: int| 0 <= k < at implies #[trigger] t[k] != '-' && t[k] != '+' by {
        assert(t[k] == s[k]);
    }
    if at < s.len() {
        assert(t[at] == s[at]);
    } else {
        assert(t[at] == mark);
    }
    lemma_without_suffix(s, at);
    lemma_without_suffix(t, at);
    assert(t.take(at) =~= s.take(at));
}

/// Leading `v`s are dropped from what stands before a mark.
proof fn lemma_without_v_before(s: Seq<char>, mark: char, rest: Seq<char>)
    requires
        mark != 'v',
    ensures
        without_v(s + seq![mark] + rest) == without_v(s) + seq![mark] + rest,
    decreases s.len(),
{
    let t = s + seq![mark] + rest;
    if s.len() == 0 {
        assert(t[0] == mark);
    } else {
        assert(t[0] == s[0]);
        if s[0] == 'v' {
            assert(t.skip(1) =~= s.skip(1) + seq![mark] + rest);
            lemma_without_v_before(s.skip(1), mark, rest);
        }
    }
}

/// Leading white space is trimmed off what stands before a mark.
proof fn lemma_trim_start_before(s: Seq<char>, mark: char, rest: Seq<char>)
    requires
        !text::is_white(mark),
    ensures
        text::trim_start(s + seq![mark] + rest) == text::trim_start(s) + seq![mark] + rest,
    decreases s.len(),
{
    let t = s + seq![mark] + rest;
    if s.len() == 0 {
        assert(t[0] == mark);
    } else {
        assert(t[0] == s[0]);
        if text::is_white(s[0]) {
            assert(t.skip(1) =~= s.skip(1) + seq![mark] + rest);
            lemma_trim_start_before(s.skip(1), mark, rest);
        }
    }
}

/// Trailing white space is trimmed off what stands behind a mark.
proof fn lemma_trim_end_behind(s: Seq<char>, mark: char, rest: Seq<char>)
    requires
        !text::is_white(mark),
    ensures
        text::trim_end(s + seq![mark] + rest) == s + seq![mark] + text::trim_end(rest),
    decreases rest.len(),
{
    let t = s + seq![mark] + rest;
    if rest.len() == 0 {
        assert(t.last() == mark);
    } else {
        assert(t.last() == rest.last());
        if text::is_white(rest.last()) {
            assert(t.drop_last() =~= s + seq![mark] + rest.drop_last());
            lemma_trim_end_behind(s, mark, rest.drop_last());
        }
    }
}

/// A text that does not end in white space has none after its start is trimmed.
proof fn lemma_trim_start_keeps_end(s: Seq<char>)
    requires
        s.len() == 0 || !text::is_white(s.last()),
    ensures
        text::trim(s) == text::trim_start(s),
    decreases s.len(),
{
    if s.len() > 0 && text::is_white(s[0]) {
        lemma_trim_start_keeps_end(s.skip(1));
    }
}

/// A pre-release or build suffix does not change what a text is read as,
/// version or not.
pub proof fn law_suffix_is_ignored(s: Seq<char>, mark: char, rest: Seq<char>)
    requires
        mark == '-' || mark == '+',
        s.len() == 0 || !text::is_white(s.last()),
    ensures
        version_of(s + seq![mark] + rest) == version_of(s),
{
    let start = text::trim_start(s);
    lemma_trim_start_keeps_end(s);
    lemma_trim_start_before(s, mark, rest);
    lemma_trim_end_behind(start, mark, rest);
    let tail = text::trim_end(rest);
    lemma_without_v_before(start, mark, tail);
    lemma_suffix_cut(without_v(start), mark, tail);
}

/// The version this crate was compiled as.
pub fn current() -> (r: Version)
    ensures
        version_of(PKG_VERSION@) == Some(r),
        r == (0u32, 9u32, 1u32),
{
    proof {
        reveal_strlit("0.9.1");
        let v: Version = (0u32, 9u32, 1u32);
        lemma_dotted(v);
        assert(PKG_VERSION@ =~= dotted(v));
    }
    match parse_version(PKG_VERSION) {
        Some(v) => v,
        None => (0, 0, 0),
    }
}

/// A published release worth offering to the user.
#[derive(Debug, PartialEq, Eq)]
pub struct Release {
    /// Git tag, as published (e.g. `v0.4.0`).
    pub tag: String,
    /// The tag, parsed for comparison.
    pub version: Version,
    /// Release body: the generated changelog.
    pub notes: String,
    /// Direct download URL of the release tarball, when the release ships one.
    /// Older releases predate the packaged build and can only be installed by
    /// hand.
    pub asset_url: Option<String>,
}

/// What a [`Release`] says.
pub struct ReleaseV {
    pub tag: Seq<char>,
    pub version: Version,
    pub notes: Seq<char>,
    pub asset_url: Option<Seq<char>>,
}

impl View for Release {
    type V = ReleaseV;

    open spec fn view(&self) -> ReleaseV {
        ReleaseV {
            tag: self.tag@,
            version: self.version,
            notes: self.notes@,
            asset_url: text::opt_view(self.asset_url),
        }
    }
}

impl Release {
    /// A copy of the release.
    pub fn dup(&self) -> (r: Release)
        ensures
            r@ == self@,
    {
        Release {
            tag: self.tag.clone(),
            version: self.version,
            notes: self.notes.clone(),
            asset_url: match &self.asset_url {
                Some(u) => Some(u.clone()),
                None => None,
            },
        }
    }
}

/// What the update UI should currently show.
#[derive(Debug, PartialEq, Eq)]
pub enum Status {
    /// Nothing requested yet.
    Idle,
    /// A check is in flight.
    Checking,
    /// The newest release is not newer than [`current`].
    UpToDate,
    /// A newer release exists.
    Available(Release),
    /// A download/swap is in flight.
    Installing,
    /// Installed; the new binary takes effect on restart.
    Installed(Version),
    /// The last operation failed, with a display-ready reason.
    Failed(String),
}

/// What a [`Status`] says.
pub enum StatusV {
    Idle,
    Checking,
    UpToDate,
    Available(ReleaseV),
    Installing,
    Installed(Version),
    Failed(Seq<char>),
}

impl View for Status {
    type V = StatusV;

    open spec fn view(&self) -> StatusV {
        match self {
            Status::Idle => StatusV::Idle,
            Status::Checking => StatusV::Checking,
            Status::UpToDate => StatusV::UpToDate,
            Status::Available(r) => StatusV::Available(r@),
            Status::Installing => StatusV::Installing,
            Status::Installed(v) => StatusV::Installed(*v),
            Status::Failed(e) => StatusV::Failed(e@),
        }
    }
}

impl Status {
    /// A copy of the status.
    pub fn dup(&self) -> (r: Status)
        ensures
            r@ == self@,
    {
        match self {
            Status::Idle => Status::Idle,
            Status::Checking => Status::Checking,
            Status::UpToDate => Status::UpToDate,
            Status::Available(r) => Status::Available(r.dup()),
            Status::Installing => Status::Installing,
            Status::Installed(v) => Status::Installed(*v),
            Status::Failed(e) => Status::Failed(e.clone()),
        }
    }
}

/// What the status becomes when a check ends: the newest release is offered
/// only where it is newer than `mine`.
pub open spec fn after_check(outcome: Result<ReleaseV, Seq<char>>, mine: Version) -> StatusV {
    match outcome {
        Ok(r) => if newer(r.version, mine) {
            StatusV::Available(r)
        } else {
            StatusV::UpToDate
        },
        Err(e) => StatusV::Failed(e),
    }
}

/// What a fetched release, or the reason why there is none, says.
pub open spec fn fetched_view(r: Result<Release, String>) -> Result<ReleaseV, Seq<char>> {
    match r {
        Ok(r) => Ok(r@),
        Err(e) => Err(e@),
    }
}

/// A step of an updater.
pub enum StepV {
    Check,
    Checked(Result<ReleaseV, Seq<char>>),
    Install,
    Installed(Version, Result<(), Seq<char>>),
    Reset,
}

/// What a step makes of the status, where this version runs.
pub open spec fn status_after(s: StatusV, step: StepV) -> StatusV {
    match step {
        StepV::Check => if s is Checking || s is Installing {
            s
        } else {
            StatusV::Checking
        },
        StepV::Checked(outcome) => after_check(outcome, (0u32, 9u32, 1u32)),
        StepV::Install => if s is Available {
            StatusV::Installing
        } else {
            s
        },
        StepV::Installed(version, outcome) => match outcome {
            Ok(_) => StatusV::Installed(version),
            Err(e) => StatusV::Failed(e),
        },
        StepV::Reset => StatusV::Idle,
    }
}

/// What the outcome of an install says.
pub open spec fn swapped_view(r: Result<(), String>) -> Result<(), Seq<char>> {
    match r {
        Ok(_) => Ok(()),
        Err(e) => Err(e@),
    }
}

/// The update state that the user sees, and the steps between its states.
///
/// The work itself (the download, the swap) happens elsewhere: a step says
/// whether it is to be started, another takes its outcome.
#[derive(Debug)]
pub struct Updater {
    pub status: Status,
}

impl Updater {
    /// Nothing requested yet.
    pub fn new() -> (r: Updater)
        ensures
            r.status@ is Idle,
    {
        Updater { status: Status::Idle }
    }

    /// Current status snapshot.
    pub fn status(&self) -> (r: Status)
        ensures
            r@ == self.status@,
    {
        self.status.dup()
    }

    /// Start a release check unless one, or an install, is already running.
    /// Returns whether to fetch the newest release.
    pub fn check(&mut self) -> (start: bool)
        ensures
            start == !(old(self).status@ is Checking || old(self).status@ is Installing),
            final(self).status@ == status_after(old(self).status@, StepV::Check),
    {
        match self.status {
            Status::Checking => false,
            Status::Installing => false,
            _ => {
                self.status = Status::Checking;
                true
            },
        }
    }

    /// Take the outcome of a check.
    pub fn checked(&mut self, outcome: Result<Release, String>)
        ensures
            final(self).status@ == status_after(
                old(self).status@,
                StepV::Checked(fetched_view(outcome)),
            ),
    {
        self.status = match outcome {
            Ok(rel) => if is_newer(rel.version, current()) {
                Status::Available(rel)
            } else {
                Status::UpToDate
            },
            Err(e) => Status::Failed(e),
        };
    }

    /// Start the install of the release currently offered. Returns it; does
    /// nothing in any other state.
    pub fn install(&mut self) -> (r: Option<Release>)
        ensures
            r is Some == old(self).status@ is Available,
            r is Some ==> old(self).status@ == StatusV::Available((r->0)@),
            final(self).status@ == status_after(old(self).status@, StepV::Install),
    {
        let rel = match &self.status {
            Status::Available(rel) => rel.dup(),
            _ => {
                return None;
            },
        };
        self.status = Status::Installing;
        Some(rel)
    }

    /// Take the outcome of an install of `version`.
    pub fn installed(&mut self, version: Version, outcome: Result<(), String>)
        ensures
            final(self).status@ == status_after(
                old(self).status@,
                StepV::Installed(version, swapped_view(outcome)),
            ),
    {
        self.status = match outcome {
            Ok(_) => Status::Installed(version),
            Err(e) => Status::Failed(e),
        };
    }

    /// Return to [`Status::Idle`], e.g. when the user dismisses an error.
    pub fn reset(&mut self)
        ensures
            final(self).status@ == status_after(old(self).status@, StepV::Reset),
    {
        self.status = Status::Idle;
    }
}

// ---------------------------------------------------------------------------
// What is asked of the network, and what the answer means
// ---------------------------------------------------------------------------

/// The flags of every `curl` call, before those of the call itself.
pub open spec fn curl_flags() -> Seq<Seq<char>> {
    seq![
        "--fail"@,
        "--silent"@,
        "--show-error"@,
        "--location"@,
        "--proto"@,
        "=https"@,
        "--max-time"@,
        "300"@,
        "--user-agent"@,
        "reclass-rs/"@ + PKG_VERSION@,
    ]
}

/// The arguments of a `curl` call: the shared hardening flags, then `args`.
pub fn curl(args: Vec<String>) -> (r: Vec<String>)
    ensures
        text::texts(r@) == curl_flags() + text::texts(args@),
{
    let mut v: Vec<String> = Vec::new();
    text::push_text(&mut v, "--fail");
    text::push_text(&mut v, "--silent");
    text::push_text(&mut v, "--show-error");
    text::push_text(&mut v, "--location");
    text::push_text(&mut v, "--proto");
    text::push_text(&mut v, "=https");
    text::push_text(&mut v, "--max-time");
    text::push_text(&mut v, "300");
    text::push_text(&mut v, "--user-agent");
    text::push_text(&mut v, text::join2("reclass-rs/", PKG_VERSION).as_str());
    proof {
        assert(text::texts(Seq::<String>::empty()) =~= Seq::<Seq<char>>::empty());
        assert(text::texts(v@) =~= curl_flags());
    }
    let ghost head = v@;
    let mut args = args;
    let ghost tail = args@;
    v.append(&mut args);
    proof {
        assert(text::texts(v@) =~= text::texts(head) + text::texts(tail));
    }
    v
}

/// What a `curl` call that ran comes to: its output, where it succeeded and the
/// output is text (`Err` holds why it is not).
pub fn curl_outcome(success: bool, stdout: Result<String, String>, stderr: &str) -> (r: Result<
    String,
    String,
>)
    ensures
        !success ==> r is Err && (r->Err_0)@ == "curl failed: "@ + text::trim(stderr@),
        success ==> match stdout {
            Ok(s) => r == Ok::<String, String>(s),
            Err(e) => r is Err && (r->Err_0)@ == "curl returned non-UTF-8 output: "@ + e@,
        },
{
    if !success {
        return Err(text::join2("curl failed: ", text::trimmed(stderr).as_str()));
    }
    match stdout {
        Ok(s) => Ok(s),
        Err(e) => Err(text::join2("curl returned non-UTF-8 output: ", e.as_str())),
    }
}

/// Where the newest release is described.
pub open spec fn latest_url() -> Seq<char> {
    "https://api.github.com/repos/"@ + REPO@ + "/releases/latest"@
}

/// The arguments that ask for the newest release.
pub fn latest_args() -> (r: Vec<String>)
    ensures
        text::texts(r@) == curl_flags() + seq![
            "-H"@,
            "Accept: application/vnd.github+json"@,
            latest_url(),
        ],
{
    let mut v: Vec<String> = Vec::new();
    text::push_text(&mut v, "-H");
    text::push_text(&mut v, "Accept: application/vnd.github+json");
    let url = text::join3("https://api.github.com/repos/", REPO, "/releases/latest");
    text::push_text(&mut v, url.as_str());
    proof {
        assert(text::texts(Seq::<String>::empty()) =~= Seq::<Seq<char>>::empty());
        assert(text::texts(v@) =~= seq![
            "-H"@,
            "Accept: application/vnd.github+json"@,
            latest_url(),
        ]);
    }
    curl(v)
}

/// The download URL of the first asset that is ours, if it has one.
pub open spec fn asset_of(items: Seq<JsonV>) -> Option<Seq<char>>
    decreases items.len(),
{
    if items.len() == 0 {
        None
    } else if items[0].str_at("name"@) == Some(ASSET@) {
        items[0].str_at("browser_download_url"@)
    } else {
        asset_of(items.skip(1))
    }
}

/// The release that a GitHub `releases/latest` payload describes.
///
/// A missing asset is no failure: releases published before the packaged build
/// exist, and the user still deserves an "up to date" answer.
pub open spec fn release_of(j: JsonV) -> Result<ReleaseV, Seq<char>> {
    match j.str_at("tag_name"@) {
        None => Err("release JSON has no `tag_name`"@),
        Some(tag) => match version_of(tag) {
            None => Err("release tag `"@ + tag + "` is not a version"@),
            Some(version) => Ok(
                ReleaseV {
                    tag,
                    version,
                    notes: match j.str_at("body"@) {
                        Some(b) => text::trim(b),
                        None => Seq::empty(),
                    },
                    asset_url: match j.get("assets"@) {
                        Some(a) => match a.as_array() {
                            Some(items) => asset_of(items),
                            None => None,
                        },
                        None => None,
                    },
                },
            ),
        },
    }
}

/// [`asset_of`] of `items`.
fn find_asset(items: &Vec<Json>) -> (r: Option<String>)
    ensures
        text::opt_view(r) == asset_of(items_view(items@)),
{
    let ghost all = items_view(items@);
    let mut i: usize = 0;
    proof {
        assert(all.skip(0) =~= all);
    }
    while i < items.len()
        invariant
            i <= items@.len(),
            all == items_view(items@),
            asset_of(all.skip(i as int)) == asset_of(all),
        decreases items@.len() - i,
    {
        proof {
            assert(all.skip(i as int)[0] == items@[i as int]@);
            assert(all.skip(i as int).skip(1) =~= all.skip(i as int + 1));
        }
        match items[i].str_at("name") {
            Some(n) => {
                if text::str_eq(n, ASSET) {
                    return match items[i].str_at("browser_download_url") {
                        Some(u) => Some(u.to_owned()),
                        None => None,
                    };
                }
            },
            None => {},
        }
        i = i + 1;
    }
    None
}

/// Extract the fields we need from a parsed GitHub `releases/latest` payload.
pub fn release_from(v: &Json) -> (r: Result<Release, String>)
    ensures
        fetched_view(r) == release_of(v@),
{
    let tag = match v.str_at("tag_name") {
        Some(t) => t,
        None => {
            return Err("release JSON has no `tag_name`".to_owned());
        },
    };
    let version: Version = match parse_version(tag) {
        Some(x) => x,
        None => {
            return Err(text::join3("release tag `", tag, "` is not a version"));
        },
    };
    let asset_url = match v.get("assets") {
        Some(a) => match a.as_array() {
            Some(items) => find_asset(items),
            None => None,
        },
        None => None,
    };
    let notes = match v.str_at("body") {
        Some(b) => text::trimmed(b),
        None => String::new(),
    };
    proof {
        assert(v@.str_at("body"@) is None ==> notes@ =~= Seq::<char>::empty());
    }
    Ok(Release { tag: tag.to_owned(), version, notes, asset_url })
}

/// The release that the text of a payload describes.
pub open spec fn release_in(body: Seq<char>) -> Result<ReleaseV, Seq<char>> {
    match json_parsed(body) {
        Ok(j) => release_of(j),
        Err(e) => Err("parsing the GitHub release JSON: "@ + e),
    }
}

/// Extract the fields we need from a GitHub `releases/latest` payload.
pub fn parse_release(json: &str) -> (r: Result<Release, String>)
    ensures
        fetched_view(r) == release_in(json@),
{
    match parse_json(json) {
        Ok(v) => release_from(&v),
        Err(e) => Err(text::join2("parsing the GitHub release JSON: ", e.as_str())),
    }
}

/// The newest published release, from the GitHub API's reply (or why there was
/// none).
pub fn fetch_latest(reply: Result<String, String>) -> (r: Result<Release, String>)
    ensures
        fetched_view(r) == match reply {
            Ok(body) => release_in(body@),
            Err(e) => Err("querying the GitHub releases API: "@ + e@),
        },
{
    match reply {
        Ok(body) => parse_release(body.as_str()),
        Err(e) => Err(text::join2("querying the GitHub releases API: ", e.as_str())),
    }
}

/// Where the tarball of `rel` is downloaded from. Installing is what actually
/// needs it.
pub fn install(rel: &Release) -> (r: Result<String, String>)
    ensures
        match rel@.asset_url {
            Some(u) => r is Ok && (r->Ok_0)@ == u,
            None => r is Err && (r->Err_0)@ == "release "@ + rel@.tag + " publishes no `"@ + ASSET@
                + "`"@,
        },
{
    match &rel.asset_url {
        Some(u) => Ok(u.clone()),
        None => {
            let head = text::join3("release ", rel.tag.as_str(), " publishes no `");
            Err(text::join3(head.as_str(), ASSET, "`"))
        },
    }
}

/// The name under which the replacement of a file is staged beside it, so that
/// the final step is a rename within one directory.
pub fn staged_name(name: &str) -> (r: String)
    ensures
        r@ == "."@ + name@ + ".new"@,
{
    text::join3(".", name, ".new")
}

// ---------------------------------------------------------------------------
// Laws
// ---------------------------------------------------------------------------

/// An offered release is always newer than the running version.
pub proof fn law_offer_is_newer(outcome: Result<ReleaseV, Seq<char>>, mine: Version)
    ensures
        after_check(outcome, mine) matches StatusV::Available(r) ==> newer(r.version, mine),
{
}

/// Versions are ordered like triples of numbers: of two different ones exactly
/// one is newer, and newer than newer is newer.
pub proof fn law_newer_is_an_order(a: Version, b: Version, c: Version)
    ensures
        !newer(a, a),
        a != b ==> newer(a, b) != newer(b, a),
        newer(a, b) && newer(b, c) ==> newer(a, c),
{
}

/// Versions are compared like triples of numbers: the major number decides
/// first, whatever follows; the minor one among equals of it; the patch number
/// last. In no other case is a version newer.
pub proof fn law_major_then_minor_then_patch(a: u32, b: u32, c: u32, x: u32, y: u32, z: u32)
    ensures
        a > x ==> newer((a, b, c), (x, y, z)),
        a == x && b > y ==> newer((a, b, c), (x, y, z)),
        a == x && b == y && c > z ==> newer((a, b, c), (x, y, z)),
        a < x ==> !newer((a, b, c), (x, y, z)),
        a == x && b < y ==> !newer((a, b, c), (x, y, z)),
        a == x && b == y && c <= z ==> !newer((a, b, c), (x, y, z)),
{
}

/// A check ends with what it found: the very release, where its major, minor or
/// patch number, in this order, is past those of `mine`; that there is nothing
/// new, where it is not; the reason, where the check failed.
pub proof fn law_check_offers_what_is_newer(r: ReleaseV, mine: Version, why: Seq<char>)
    ensures
        r.version.0 > mine.0 || (r.version.0 == mine.0 && r.version.1 > mine.1) || (r.version.0
            == mine.0 && r.version.1 == mine.1 && r.version.2 > mine.2) ==> after_check(
            Ok(r),
            mine,
        ) == StatusV::Available(r),
        r.version == mine ==> after_check(Ok(r), mine) == StatusV::UpToDate,
        r.version.0 < mine.0 || (r.version.0 == mine.0 && r.version.1 < mine.1) || (r.version.0
            == mine.0 && r.version.1 == mine.1 && r.version.2 < mine.2) ==> after_check(
            Ok(r),
            mine,
        ) == StatusV::UpToDate,
        after_check(Err(why), mine) == StatusV::Failed(why),
{
}

/// From a check to a restart: a check that was not running starts, its outcome
/// replaces whatever was shown, an offer can be installed, and the install ends
/// with the version installed or the reason why it was not.
pub proof fn law_update_runs_its_course(s: StatusV, r: ReleaseV, v: Version, why: Seq<char>)
    requires
        newer(r.version, (0u32, 9u32, 1u32)),
    ensures
        !(s is Checking) && !(s is Installing) ==> status_after(s, StepV::Check)
            == StatusV::Checking,
        status_after(s, StepV::Checked(Ok(r))) == StatusV::Available(r),
        status_after(s, StepV::Checked(Err(why))) == StatusV::Failed(why),
        status_after(StatusV::Available(r), StepV::Install) == StatusV::Installing,
        status_after(s, StepV::Installed(v, Ok(()))) == StatusV::Installed(v),
        status_after(s, StepV::Installed(v, Err(why))) == StatusV::Failed(why),
        status_after(s, StepV::Reset) == StatusV::Idle,
{
}

/// Nothing interrupts work in flight: while a check or an install runs no other
/// check starts, and without an offer no install does.
pub proof fn law_work_in_flight_goes_on(s: StatusV)
    ensures
        status_after(StatusV::Checking, StepV::Check) == StatusV::Checking,
        status_after(StatusV::Installing, StepV::Check) == StatusV::Installing,
        !(s is Available) ==> status_after(s, StepV::Install) == s,
{
}

/// Parts that a version leaves out count as zero.
pub proof fn law_missing_parts_are_zero(a: u32, b: u32)
    ensures
        version_of(text::written(a as nat, 10, false)) == Some((a, 0u32, 0u32)),
        version_of(
            text::written(a as nat, 10, false) + seq!['.'] + text::written(b as nat, 10, false),
        ) == Some((a, b, 0u32)),
{
    let p = text::written(a as nat, 10, false);
    let q = text::written(b as nat, 10, false);
    let s = p + seq!['.'] + q;
    text::lemma_written_reads_back(a as nat, 10, false);
    text::lemma_written_reads_back(b as nat, 10, false);
    lemma_digits_are_plain(p);
    lemma_digits_are_plain(q);
    assert(p.last() == p[p.len() - 1]);
    assert(q.last() == q[q.len() - 1]);
    assert(s[0] == p[0]);
    assert(s.last() == q.last());
    assert forall|i: int| 0 <= i < s.len() implies #[trigger] s[i] != '-' && s[i] != '+' by {
        if i < p.len() {
            assert(s[i] == p[i]);
        } else if i > p.len() {
            assert(s[i] == q[i - p.len() - 1]);
        }
    }
    lemma_without_suffix(p, p.len() as int);
    lemma_without_suffix(s, s.len() as int);
    assert(p.take(p.len() as int) =~= p);
    assert(s.take(s.len() as int) =~= s);
    assert(text::trim(p) == p);
    assert(text::trim(s) == s);
    text::lemma_first_of_unique(p, '.', p.len() as int);
    text::lemma_first_of_unique(q, '.', q.len() as int);
    lemma_split_head(p, q);
    assert(text::split(p, '.') =~= seq![p]);
    assert(text::split(s, '.') =~= seq![p, q]);
    assert(text::u32_number(p) == Some(a));
    assert(text::u32_number(q) == Some(b));
}

/// The asset that is downloaded is the first one under the name that can be
/// installed; without one there is nothing to download.
pub proof fn law_asset_goes_by_name(items: Seq<JsonV>, i: int)
    ensures
        0 <= i < items.len() && items[i].str_at("name"@) == Some(ASSET@) && (forall|k: int|
            0 <= k < i ==> (#[trigger] items[k]).str_at("name"@) != Some(ASSET@)) ==> asset_of(
            items,
        ) == items[i].str_at("browser_download_url"@),
        (forall|k: int|
            0 <= k < items.len() ==> (#[trigger] items[k]).str_at("name"@) != Some(ASSET@))
            ==> asset_of(items) is None,
    decreases items.len(),
{
    if items.len() > 0 && items[0].str_at("name"@) != Some(ASSET@) {
        let rest = items.skip(1);
        law_asset_goes_by_name(rest, i - 1);
        if 0 <= i < items.len() && items[i].str_at("name"@) == Some(ASSET@) && (forall|k: int|
            0 <= k < i ==> (#[trigger] items[k]).str_at("name"@) != Some(ASSET@)) {
            assert(i > 0);
            assert(rest[i - 1] == items[i]);
            assert forall|k: int| 0 <= k < i - 1 implies (#[trigger] rest[k]).str_at("name"@)
                != Some(ASSET@) by {
                assert(rest[k] == items[k + 1]);
            }
        }
        if forall|k: int|
            0 <= k < items.len() ==> (#[trigger] items[k]).str_at("name"@) != Some(ASSET@) {
            assert forall|k: int| 0 <= k < rest.len() implies (#[trigger] rest[k]).str_at("name"@)
                != Some(ASSET@) by {
                assert(rest[k] == items[k + 1]);
            }
        }
    }
}

/// A release is what its payload says: its tag is the payload's, its version is
/// the one that the tag writes, and its notes are the payload's body without
/// the white space around it. Without a tag that writes a version there is no
/// release, whatever else the payload holds.
pub proof fn law_release_goes_by_its_tag(j: JsonV, tag: Seq<char>, version: Version)
    ensures
        j.str_at("tag_name"@) == Some(tag) && version_of(tag) == Some(version) ==> (release_of(
            j,
        ) matches Ok(r) && r.tag == tag && r.version == version && r.notes == (match j.str_at(
            "body"@,
        ) {
            Some(body) => text::trim(body),
            None => Seq::empty(),
        })),
        j.str_at("tag_name"@) is None ==> release_of(j) is Err,
        j.str_at("tag_name"@) == Some(tag) && version_of(tag) is None ==> release_of(j) is Err,
{
}

// ---------------------------------------------------------------------------
// Handles
// ---------------------------------------------------------------------------

/// Updaters and the handles on them: handle `h` works on updater `on[h]`, and a
/// clone of a handle works on the same one.
#[verifier::ext_equal]
pub struct Desk {
    pub statuses: Seq<StatusV>,
    pub on: Seq<int>,
}

impl Desk {
    /// Every handle works on an updater.
    pub open spec fn wf(self) -> bool {
        forall|h: int|
            0 <= h < self.on.len() ==> 0 <= #[trigger] self.on[h] < self.statuses.len()
    }

    /// The status that handle `h` reads.
    pub open spec fn read(self, h: int) -> StatusV {
        self.statuses[self.on[h]]
    }

    /// With one more handle, a clone of handle `h`.
    pub open spec fn cloned(self, h: int) -> Desk {
        Desk { on: self.on.push(self.on[h]), ..self }
    }

    /// After a step taken through handle `h`.
    pub open spec fn took(self, h: int, step: StepV) -> Desk {
        Desk {
            statuses: self.statuses.update(self.on[h], status_after(self.read(h), step)),
            ..self
        }
    }

    /// After steps, each taken through the handle given with it.
    pub open spec fn ran(self, steps: Seq<(int, StepV)>) -> Desk
        decreases steps.len(),
    {
        if steps.len() == 0 {
            self
        } else {
            self.took(steps[0].0, steps[0].1).ran(steps.skip(1))
        }
    }
}

/// Steps move no handle to another updater.
proof fn lemma_handles_stay(d: Desk, steps: Seq<(int, StepV)>)
    ensures
        d.ran(steps).on == d.on,
    decreases steps.len(),
{
    if steps.len() > 0 {
        lemma_handles_stay(d.took(steps[0].0, steps[0].1), steps.skip(1));
    }
}

/// Clones share one status: whatever steps are taken, and through whichever
/// handles, a handle and its clone read the same.
pub proof fn law_clones_share_one_status(d: Desk, h: int, steps: Seq<(int, StepV)>)
    requires
        d.wf(),
        0 <= h < d.on.len(),
    ensures
        d.cloned(h).wf(),
        d.cloned(h).read(d.on.len() as int) == d.read(h),
        d.cloned(h).ran(steps).read(d.on.len() as int) == d.cloned(h).ran(steps).read(h),
{
    lemma_handles_stay(d.cloned(h), steps);
}

/// Every handle on an updater reads the status that the last step on it left; a
/// step on one updater does not touch the others.
pub proof fn law_every_handle_reads_the_last_step(d: Desk, h: int, k: int, step: StepV)
    requires
        d.wf(),
        0 <= h < d.on.len(),
        0 <= k < d.on.len(),
    ensures
        d.took(h, step).wf(),
        d.on[k] == d.on[h] ==> d.took(h, step).read(k) == status_after(d.read(h), step),
        d.on[k] != d.on[h] ==> d.took(h, step).read(k) == d.read(k),
{
    assert(0 <= d.on[h] < d.statuses.len());
    assert(0 <= d.on[k] < d.statuses.len());
}

/// After a reset every handle on the updater reads that nothing is requested,
/// and a second reset, through any of them, changes nothing.
pub proof fn law_reset_settles(d: Desk, h: int, k: int)
    requires
        d.wf(),
        0 <= h < d.on.len(),
        0 <= k < d.on.len(),
        d.on[k] == d.on[h],
    ensures
        d.took(h, StepV::Reset).read(h) == StatusV::Idle,
        d.took(h, StepV::Reset).read(k) == StatusV::Idle,
        d.took(h, StepV::Reset).took(k, StepV::Reset) == d.took(h, StepV::Reset),
{
    law_every_handle_reads_the_last_step(d, h, k, StepV::Reset);
    law_every_handle_reads_the_last_step(d, h, h, StepV::Reset);
    let once = d.took(h, StepV::Reset);
    assert(once.took(k, StepV::Reset) =~= once);
}

/// A `v` before a version, or several, changes nothing of it.
pub proof fn law_leading_v_is_ignored(s: Seq<char>)
    requires
        text::trim(s) == s,
    ensures
        version_of(seq!['v'] + s) == version_of(s),
{
    let t = seq!['v'] + s;
    text::lemma_trim_ends(s);
    if s.len() == 0 {
        assert(t.last() == 'v');
    } else {
        assert(t.last() == s.last());
    }
    let none = Seq::<char>::empty();
    assert(none + t + none =~= t);
    text::lemma_trim_padded(none, t, none);
    assert(t.skip(1) =~= s);
    assert(without_v(t) == without_v(s));
}

} // verus!
