//! The terminal front-end's state and its keys.
//!
//! Keys: `q` quit · `↑/↓` move · `←/→` switch class tab · `space` expand/collapse
//! a row · `e` edit the selected value · `a` edit the address expression · `m`
//! toggle the memory map · `r` refresh regions.

use crate::app_state::{AppError, AppState, AppV};
use crate::effects::{
    lemma_class_set, lemma_other_fields, same_but_class, same_but_classes, same_but_fields,
};
use crate::expand::{dup_path, toggled, ExpandV};
use crate::live::expr_of;
use crate::memory::{regions_view, Region};
use crate::messages::error_text;
use crate::node::{plain_node, ClassId, IntWidth, Node, NodeKind};
use crate::panels::{hex_label, hex_text};
use crate::registry::{class_at, class_set, pushed, ClassV};
use crate::rows::Row;
use crate::text;
use vstd::arithmetic::div_mod::{lemma_add_mod_noop_right, lemma_mod_bound, lemma_small_mod};
use vstd::prelude::*;

verus! {

/// What is being typed.
#[derive(Clone, Copy, Debug, PartialEq, Eq, Structural)]
pub enum Input {
    /// Nothing: keys move around.
    Idle,
    /// A value for the selected row.
    Value,
    /// An address expression for the selected class.
    Expr,
}

/// A key.
#[derive(Clone, Copy, Debug, PartialEq, Eq, Structural)]
pub enum Key {
    Char(char),
    Esc,
    Enter,
    Backspace,
    Tab,
    Up,
    Down,
    Left,
    Right,
    Other,
}

/// What the shell has to do next.
#[derive(Debug)]
pub enum TuiEffect {
    Nothing,
    /// Read the target's regions.
    Refresh,
    /// Write this text to this address, as a value of this kind.
    Write { addr: u64, kind: NodeKind, text: String },
}

/// What a [`TuiEffect`] says.
pub enum TuiEffectV {
    Nothing,
    Refresh,
    Write { addr: u64, kind: NodeKind, text: Seq<char> },
}

impl View for TuiEffect {
    type V = TuiEffectV;

    open spec fn view(&self) -> TuiEffectV {
        match self {
            TuiEffect::Nothing => TuiEffectV::Nothing,
            TuiEffect::Refresh => TuiEffectV::Refresh,
            TuiEffect::Write { addr, kind, text } => TuiEffectV::Write {
                addr: *addr,
                kind: *kind,
                text: text@,
            },
        }
    }
}

/// The terminal front-end.
pub struct Tui {
    pub state: AppState,
    pub selected: usize,
    pub input: Input,
    pub buffer: String,
    pub show_map: bool,
    pub quit: bool,
}

/// What a [`Tui`] says.
pub struct TuiV {
    pub state: AppV,
    pub selected: int,
    pub input: Input,
    pub buffer: Seq<char>,
    pub show_map: bool,
    pub quit: bool,
}

impl View for Tui {
    type V = TuiV;

    open spec fn view(&self) -> TuiV {
        TuiV {
            state: self.state@,
            selected: self.selected as int,
            input: self.input,
            buffer: self.buffer@,
            show_map: self.show_map,
            quit: self.quit,
        }
    }
}

// ---------------------------------------------------------------------------
// Start
// ---------------------------------------------------------------------------

/// The state with `n` words appended to class `c`, one after the other.
pub open spec fn words_pushed(s: AppV, c: ClassId, n: nat) -> AppV
    decreases n,
{
    if n == 0 {
        s
    } else {
        let before = words_pushed(s, c, (n - 1) as nat);
        before.edited(
            pushed(
                before.project.registry,
                c,
                seq![
                    plain_node(
                        "field_"@ + text::written(((n - 1) * 8) as nat, 16, true),
                        NodeKind::Hex(IntWidth::W64),
                    ),
                ],
            ),
        ).0
    }
}

/// The project that the terminal front-end starts with.
pub open spec fn first_words(addr: Option<Seq<char>>) -> AppV {
    let empty = crate::app_state::empty_state();
    let made = empty.snapped().with_registry(
        empty.project.registry.with_class("Class1"@),
    ).opened(0);
    let s = words_pushed(made, 0, 16);
    match addr {
        Some(e) => {
            let v = s.project.registry;
            s.edited(class_set(v, 0, ClassV { address_expr: e, ..class_at(v.classes, 0) })).0
        },
        None => s,
    }
}

/// With the outcome of attaching to `pid`: the target's regions, if they could
/// be read, or why it failed.
pub open spec fn attach_told(
    s: AppV,
    pid: i32,
    outcome: Result<Option<Vec<Region>>, String>,
) -> AppV {
    match outcome {
        Ok(regions) => AppV {
            attached: true,
            regions: match regions {
                Some(r) => regions_view(r@),
                None => Seq::empty(),
            },
            status: "attached pid "@ + text::written_signed(pid as int),
            ..s
        },
        Err(e) => AppV { status: "attach failed: "@ + e@, ..s },
    }
}

impl Tui {
    /// The project state is well formed.
    pub open spec fn wf(self) -> bool {
        self.state.wf()
    }

    /// Start with one class of sixteen words, at the address given.
    pub fn new(addr: Option<String>) -> (r: Tui)
        ensures
            r.wf(),
            r@ == (TuiV {
                state: first_words(text::opt_view(addr)),
                selected: 0,
                input: Input::Idle,
                buffer: Seq::empty(),
                show_map: false,
                quit: false,
            }),
    {
        let mut state = AppState::new();
        let c1: ClassId = state.add_class("Class1");
        let ghost made = state@;
        let mut i: u64 = 0;
        while i < 16
            invariant
                i <= 16,
                state.wf(),
                c1 == 0,
                state@ == words_pushed(made, 0, i as nat),
            decreases 16 - i,
        {
            let name = text::join2("field_", text::hex_upper(i * 8).as_str());
            let _ = state.push_node(c1, Node::new(name.as_str(), NodeKind::Hex(IntWidth::W64)));
            i = i + 1;
        }
        match addr {
            Some(e) => {
                let _ = state.set_address_expr(c1, e);
            },
            None => {},
        }
        let buffer = String::new();
        proof {
            assert(buffer@ =~= Seq::<char>::empty());
        }
        Tui { state, selected: 0, input: Input::Idle, buffer, show_map: false, quit: false }
    }

    /// Take the outcome of attaching to `pid`.
    pub fn after_attach(&mut self, pid: i32, outcome: Result<Option<Vec<Region>>, String>)
        requires
            old(self).wf(),
        ensures
            final(self).wf(),
            final(self)@ == (TuiV {
                state: attach_told(old(self)@.state, pid, outcome),
                ..old(self)@
            }),
    {
        match outcome {
            Ok(regions) => {
                self.state.set_backend(regions);
                self.state.status = text::join2(
                    "attached pid ",
                    text::dec_signed(pid as i64).as_str(),
                );
            },
            Err(e) => {
                self.state.status = text::join2("attach failed: ", e.as_str());
            },
        }
    }

    /// Keep the cursor on one of `n` rows.
    pub fn keep_on_rows(&mut self, n: usize)
        requires
            old(self).wf(),
        ensures
            final(self).wf(),
            final(self)@ == (TuiV {
                selected: crate::app_state::clamped(old(self)@.selected, n as int),
                ..old(self)@
            }),
    {
        if self.selected >= n {
            self.selected = if n > 0 {
                n - 1
            } else {
                0
            };
        }
    }
}

// ---------------------------------------------------------------------------
// Keys
// ---------------------------------------------------------------------------

/// The view that is `step` to the right of the selected one, round the corner.
pub open spec fn view_beside(s: AppV, step: int) -> int {
    (s.selected_view + step) % (s.project.views.len() as int)
}

/// What a key does while nothing is typed. `editable` says whether the selected
/// row's value can be edited.
pub open spec fn navigated(t: TuiV, key: Key, rows: Seq<&Row>, editable: bool) -> (
    TuiV,
    TuiEffectV,
) {
    let n = t.state.project.views.len();
    if key == Key::Char('q') || key == Key::Esc {
        (TuiV { quit: true, ..t }, TuiEffectV::Nothing)
    } else if key == Key::Down || key == Key::Char('j') {
        if t.selected + 1 < rows.len() {
            (TuiV { selected: t.selected + 1, ..t }, TuiEffectV::Nothing)
        } else {
            (t, TuiEffectV::Nothing)
        }
    } else if key == Key::Up || key == Key::Char('k') {
        (
            TuiV {
                selected: if t.selected > 0 {
                    t.selected - 1
                } else {
                    0
                },
                ..t
            },
            TuiEffectV::Nothing,
        )
    } else if key == Key::Right || key == Key::Tab {
        if n > 0 {
            (
                TuiV {
                    state: AppV { selected_view: view_beside(t.state, 1), ..t.state },
                    selected: 0,
                    ..t
                },
                TuiEffectV::Nothing,
            )
        } else {
            (t, TuiEffectV::Nothing)
        }
    } else if key == Key::Left {
        if n > 0 {
            (
                TuiV {
                    state: AppV { selected_view: view_beside(t.state, n - 1), ..t.state },
                    selected: 0,
                    ..t
                },
                TuiEffectV::Nothing,
            )
        } else {
            (t, TuiEffectV::Nothing)
        }
    } else if key == Key::Char(' ') || key == Key::Enter {
        if t.selected < rows.len() && rows[t.selected].expandable {
            let row = rows[t.selected];
            (
                TuiV {
                    state: AppV {
                        expand: ExpandV {
                            expanded: toggled(
                                t.state.expand.expanded,
                                (row.root as int, row.path@),
                            ),
                            ..t.state.expand
                        },
                        ..t.state
                    },
                    ..t
                },
                TuiEffectV::Nothing,
            )
        } else {
            (t, TuiEffectV::Nothing)
        }
    } else if key == Key::Char('e') {
        if t.selected < rows.len() && editable {
            (TuiV { buffer: Seq::empty(), input: Input::Value, ..t }, TuiEffectV::Nothing)
        } else {
            (t, TuiEffectV::Nothing)
        }
    } else if key == Key::Char('a') {
        match t.state.selected_class() {
            Some(c) => (
                TuiV { buffer: expr_of(t.state, c), input: Input::Expr, ..t },
                TuiEffectV::Nothing,
            ),
            None => (t, TuiEffectV::Nothing),
        }
    } else if key == Key::Char('m') {
        (TuiV { show_map: !t.show_map, ..t }, TuiEffectV::Nothing)
    } else if key == Key::Char('r') {
        (t, TuiEffectV::Refresh)
    } else {
        (t, TuiEffectV::Nothing)
    }
}

/// What a key does while something is typed.
pub open spec fn typed(t: TuiV, key: Key, rows: Seq<&Row>) -> (TuiV, TuiEffectV) {
    match key {
        Key::Esc => (
            TuiV { input: Input::Idle, buffer: Seq::empty(), ..t },
            TuiEffectV::Nothing,
        ),
        Key::Char(c) => (TuiV { buffer: t.buffer.push(c), ..t }, TuiEffectV::Nothing),
        Key::Backspace => (
            TuiV {
                buffer: if t.buffer.len() > 0 {
                    t.buffer.drop_last()
                } else {
                    t.buffer
                },
                ..t
            },
            TuiEffectV::Nothing,
        ),
        Key::Enter => {
            let done = TuiV { input: Input::Idle, buffer: Seq::empty(), ..t };
            match t.input {
                Input::Value => if t.selected < rows.len() {
                    let row = rows[t.selected];
                    (
                        done,
                        TuiEffectV::Write { addr: row.address, kind: row.kind, text: t.buffer },
                    )
                } else {
                    (done, TuiEffectV::Nothing)
                },
                Input::Expr => match t.state.selected_class() {
                    Some(c) => {
                        let v = t.state.project.registry;
                        (
                            TuiV {
                                state: t.state.edited(
                                    class_set(
                                        v,
                                        c,
                                        ClassV {
                                            address_expr: t.buffer,
                                            ..class_at(v.classes, c)
                                        },
                                    ),
                                ).0,
                                ..done
                            },
                            TuiEffectV::Nothing,
                        )
                    },
                    None => (done, TuiEffectV::Nothing),
                },
                Input::Idle => (done, TuiEffectV::Nothing),
            }
        },
        _ => (t, TuiEffectV::Nothing),
    }
}

impl Tui {
    /// A key was pressed. `editable` says whether the selected row's value can
    /// be edited.
    pub fn handle_key(&mut self, key: Key, rows: &Vec<&Row>, editable: bool) -> (r: TuiEffect)
        requires
            old(self).wf(),
        ensures
            final(self).wf(),
            (final(self)@, r@) == if old(self)@.input == Input::Idle {
                navigated(old(self)@, key, rows@, editable)
            } else {
                typed(old(self)@, key, rows@)
            },
    {
        match self.input {
            Input::Idle => self.handle_nav_key(key, rows, editable),
            _ => self.handle_input_key(key, rows),
        }
    }

    /// Show the view to the right of the selected one.
    fn next_view(&mut self)
        requires
            old(self).wf(),
        ensures
            final(self).wf(),
            final(self)@ == if old(self)@.state.project.views.len() > 0 {
                TuiV {
                    state: AppV {
                        selected_view: view_beside(old(self)@.state, 1),
                        ..old(self)@.state
                    },
                    selected: 0,
                    ..old(self)@
                }
            } else {
                old(self)@
            },
    {
        let n: usize = self.state.project.views.len();
        if n > 0 {
            let at: usize = self.state.selected_view;
            let here: usize = at % n;
            proof {
                lemma_mod_bound(at as int, n as int);
                lemma_add_mod_noop_right(1, at as int, n as int);
            }
            self.state.selected_view = (here + 1) % n;
            self.selected = 0;
        }
    }

    /// Show the view to the left of the selected one.
    fn previous_view(&mut self)
        requires
            old(self).wf(),
        ensures
            final(self).wf(),
            final(self)@ == if old(self)@.state.project.views.len() > 0 {
                TuiV {
                    state: AppV {
                        selected_view: view_beside(
                            old(self)@.state,
                            old(self)@.state.project.views.len() - 1,
                        ),
                        ..old(self)@.state
                    },
                    selected: 0,
                    ..old(self)@
                }
            } else {
                old(self)@
            },
    {
        let n: usize = self.state.project.views.len();
        if n > 0 {
            let at: usize = self.state.selected_view;
            let here: usize = at % n;
            proof {
                lemma_mod_bound(at as int, n as int);
                lemma_add_mod_noop_right(n - 1, at as int, n as int);
                if here == 0 {
                    lemma_small_mod((n - 1) as nat, n as nat);
                } else {
                    assert((n - 1) + here == (here - 1) + n);
                    vstd::arithmetic::div_mod::lemma_mod_add_multiples_vanish(
                        here - 1,
                        n as int,
                    );
                    lemma_small_mod((here - 1) as nat, n as nat);
                }
            }
            self.state.selected_view = if here == 0 {
                n - 1
            } else {
                here - 1
            };
            self.selected = 0;
        }
    }

    /// A key was pressed while nothing is typed.
    fn handle_nav_key(&mut self, key: Key, rows: &Vec<&Row>, editable: bool) -> (r: TuiEffect)
        requires
            old(self).wf(),
        ensures
            final(self).wf(),
            (final(self)@, r@) == navigated(old(self)@, key, rows@, editable),
    {
        match key {
            Key::Char('q') | Key::Esc => {
                self.quit = true;
            },
            Key::Down | Key::Char('j') => {
                if self.selected < rows.len() && self.selected + 1 < rows.len() {
                    self.selected = self.selected + 1;
                }
            },
            Key::Up | Key::Char('k') => {
                if self.selected > 0 {
                    self.selected = self.selected - 1;
                }
            },
            Key::Right | Key::Tab => {
                self.next_view();
            },
            Key::Left => {
                self.previous_view();
            },
            Key::Char(' ') | Key::Enter => {
                if self.selected < rows.len() {
                    let row: &Row = rows[self.selected];
                    if row.expandable {
                        self.state.toggle_expand(row.root, dup_path(&row.path));
                    }
                }
            },
            Key::Char('e') => {
                if self.selected < rows.len() && editable {
                    self.buffer = String::new();
                    proof {
                        assert(self.buffer@ =~= Seq::<char>::empty());
                    }
                    self.input = Input::Value;
                }
            },
            Key::Char('a') => {
                match self.state.selected_class() {
                    Some(c) => {
                        self.buffer = self.expr_text(c);
                        self.input = Input::Expr;
                    },
                    None => {},
                }
            },
            Key::Char('m') => {
                self.show_map = !self.show_map;
            },
            Key::Char('r') => {
                return TuiEffect::Refresh;
            },
            _ => {},
        }
        TuiEffect::Nothing
    }

    /// The address expression of class `c`; empty where there is no such class.
    fn expr_text(&self, c: ClassId) -> (r: String)
        requires
            self.wf(),
        ensures
            r@ == expr_of(self@.state, c),
    {
        match self.state.project.registry.get(c) {
            Some(class) => class.address_expr.clone(),
            None => {
                let none = String::new();
                proof {
                    assert(none@ =~= Seq::<char>::empty());
                }
                none
            },
        }
    }

    /// A key was pressed while something is typed.
    fn handle_input_key(&mut self, key: Key, rows: &Vec<&Row>) -> (r: TuiEffect)
        requires
            old(self).wf(),
        ensures
            final(self).wf(),
            (final(self)@, r@) == typed(old(self)@, key, rows@),
    {
        match key {
            Key::Esc => {
                self.input = Input::Idle;
                self.buffer = String::new();
                proof {
                    assert(self.buffer@ =~= Seq::<char>::empty());
                }
                TuiEffect::Nothing
            },
            Key::Char(c) => {
                self.buffer.push(c);
                TuiEffect::Nothing
            },
            Key::Backspace => {
                let v = text::chars_of(self.buffer.as_str());
                if v.len() > 0 {
                    let cut = text::part(&v, 0, v.len() - 1);
                    proof {
                        assert(cut@ =~= v@.drop_last());
                    }
                    self.buffer = text::string_of(&cut);
                }
                TuiEffect::Nothing
            },
            Key::Enter => {
                let buf = self.buffer.clone();
                let was: Input = self.input;
                self.buffer = String::new();
                proof {
                    assert(self.buffer@ =~= Seq::<char>::empty());
                }
                self.input = Input::Idle;
                match was {
                    Input::Value => {
                        if self.selected < rows.len() {
                            let row: &Row = rows[self.selected];
                            TuiEffect::Write {
                                addr: row.address,
                                kind: row.kind.dup(),
                                text: buf,
                            }
                        } else {
                            TuiEffect::Nothing
                        }
                    },
                    Input::Expr => {
                        match self.state.selected_class() {
                            Some(c) => {
                                let _ = self.state.set_address_expr(c, buf);
                            },
                            None => {},
                        }
                        TuiEffect::Nothing
                    },
                    Input::Idle => TuiEffect::Nothing,
                }
            },
            _ => TuiEffect::Nothing,
        }
    }

    /// Take the outcome of writing a value.
    pub fn after_write(&mut self, outcome: Result<(), AppError>)
        requires
            old(self).wf(),
        ensures
            final(self).wf(),
            final(self)@ == (TuiV {
                state: AppV {
                    status: match outcome {
                        Ok(_) => "wrote value"@,
                        Err(e) => "edit error: "@ + error_text(e),
                    },
                    ..old(self)@.state
                },
                ..old(self)@
            }),
    {
        self.state.status = match outcome {
            Ok(_) => "wrote value".to_owned(),
            Err(e) => text::join2("edit error: ", e.message().as_str()),
        };
    }
}

// ---------------------------------------------------------------------------
// What is shown
// ---------------------------------------------------------------------------

/// The name in the header.
pub open spec fn header_name(s: AppV) -> Seq<char> {
    match s.selected_class() {
        Some(c) => if s.project.registry.has(c) {
            " "@ + class_at(s.project.registry.classes, c).name + " "@
        } else {
            " <none> "@
        },
        None => " <none> "@,
    }
}

/// The address in the header.
pub open spec fn header_address(s: AppV) -> Seq<char> {
    let expr = match s.selected_class() {
        Some(c) => expr_of(s, c),
        None => Seq::empty(),
    };
    let base = if s.selected_view < s.view_status.len() {
        s.view_status[s.selected_view].base
    } else {
        0
    };
    "expr=["@ + expr + "] base="@ + hex_label(base as nat)
}

/// `n` times two spaces.
pub open spec fn indent(n: nat) -> Seq<char> {
    Seq::new(2 * n, |i: int| ' ')
}

/// The type cell of a row: indented by its depth, with a triangle where the row
/// can be opened or closed.
pub open spec fn type_cell(row: Row) -> Seq<char> {
    indent(row.depth as nat) + (if row.expandable {
        if row.expanded {
            "▼ "@
        } else {
            "▶ "@
        }
    } else {
        Seq::empty()
    }) + row.type_label@
}

/// The type cell of a row.
pub fn type_text(row: &Row) -> (r: String)
    ensures
        r@ == type_cell(*row),
{
    let mut out = String::new();
    let mut i: u32 = 0;
    while i < row.depth
        invariant
            i <= row.depth,
            out@ =~= indent(i as nat),
        decreases row.depth - i,
    {
        out.push(' ');
        out.push(' ');
        i = i + 1;
    }
    if row.expandable {
        out.append(
            if row.expanded {
                "▼ "
            } else {
                "▶ "
            },
        );
    }
    let ghost before = out@;
    out.append(row.type_label.as_str());
    proof {
        assert(out@ =~= type_cell(*row));
    }
    out
}

/// The line at the bottom.
pub open spec fn status_shown(t: TuiV) -> Seq<char> {
    match t.input {
        Input::Value => "edit value > "@ + t.buffer + "_"@,
        Input::Expr => "edit expr > "@ + t.buffer + "_"@,
        Input::Idle => t.state.status
            + "  |  q quit  ↑↓ move  ←→ tab  space expand  e edit  a addr  m map  r refresh"@,
    }
}

impl Tui {
    /// The header: the class's name, and its address.
    pub fn header(&self) -> (r: (String, String))
        requires
            self.wf(),
        ensures
            r.0@ == header_name(self@.state),
            r.1@ == header_address(self@.state),
    {
        let mut name = " <none> ".to_owned();
        let mut expr = String::new();
        proof {
            assert(expr@ =~= Seq::<char>::empty());
        }
        match self.state.selected_class() {
            Some(c) => {
                match self.state.project.registry.get(c) {
                    Some(class) => {
                        name = text::join3(" ", class.name.as_str(), " ");
                    },
                    None => {},
                }
                expr = self.expr_text(c);
            },
            None => {},
        }
        let i: usize = self.state.selected_view;
        let base: u64 = if i < self.state.view_status.len() {
            self.state.view_status[i].base
        } else {
            0
        };
        let head = text::join3("expr=[", expr.as_str(), "] base=");
        (name, text::join2(head.as_str(), hex_text(base).as_str()))
    }

    /// The line at the bottom.
    pub fn status_text(&self) -> (r: String)
        ensures
            r@ == status_shown(self@),
    {
        match self.input {
            Input::Value => text::join3("edit value > ", self.buffer.as_str(), "_"),
            Input::Expr => text::join3("edit expr > ", self.buffer.as_str(), "_"),
            Input::Idle => text::join2(
                self.state.status.as_str(),
                "  |  q quit  ↑↓ move  ←→ tab  space expand  e edit  a addr  m map  r refresh",
            ),
        }
    }
}

/// Going to the right and then to the left, or the other way round, comes back
/// to the view that was selected.
pub proof fn law_tabs_wrap_around(s: AppV)
    requires
        s.project.views.len() > 0,
        0 <= s.selected_view < s.project.views.len(),
    ensures
        ({
            let n = s.project.views.len();
            let right = AppV { selected_view: view_beside(s, 1), ..s };
            let left = AppV { selected_view: view_beside(s, n - 1), ..s };
            &&& view_beside(right, n - 1) == s.selected_view
            &&& view_beside(left, 1) == s.selected_view
            &&& 0 <= right.selected_view < n
            &&& 0 <= left.selected_view < n
        }),
{
    let n = s.project.views.len() as int;
    let at = s.selected_view;
    lemma_mod_bound(at + 1, n);
    lemma_mod_bound(at + (n - 1), n);
    lemma_add_mod_noop_right(n - 1, at + 1, n);
    lemma_add_mod_noop_right(1, at + (n - 1), n);
    assert((n - 1) + (at + 1) == at + n);
    assert(1 + (at + (n - 1)) == at + n);
    vstd::arithmetic::div_mod::lemma_mod_add_multiples_vanish(at, n);
    lemma_small_mod(at as nat, n as nat);
    assert((n + at) % n == at);
    assert((at + n) % n == at);
}

/// A view to the right is the next one, and behind the last one the first; to the
/// left it is the one before, and before the first one the last. The row
/// selection starts anew and no class changes.
pub proof fn law_arrows_change_the_view(t: TuiV, rows: Seq<&Row>, editable: bool)
    requires
        t.state.project.views.len() > 0,
        0 <= t.state.selected_view < t.state.project.views.len(),
    ensures
        ({
            let n = t.state.project.views.len() as int;
            let at = t.state.selected_view;
            let (r, e) = navigated(t, Key::Right, rows, editable);
            &&& e is Nothing
            &&& r.state == (AppV { selected_view: r.state.selected_view, ..t.state })
            &&& at + 1 < n ==> r.state.selected_view == at + 1
            &&& at + 1 == n ==> r.state.selected_view == 0
            &&& r.selected == 0
        }),
        navigated(t, Key::Tab, rows, editable) == navigated(t, Key::Right, rows, editable),
        ({
            let n = t.state.project.views.len() as int;
            let at = t.state.selected_view;
            let (r, e) = navigated(t, Key::Left, rows, editable);
            &&& e is Nothing
            &&& r.state == (AppV { selected_view: r.state.selected_view, ..t.state })
            &&& at > 0 ==> r.state.selected_view == at - 1
            &&& at == 0 ==> r.state.selected_view == n - 1
            &&& r.selected == 0
        }),
{
    let n = t.state.project.views.len() as int;
    let at = t.state.selected_view;
    if at + 1 < n {
        lemma_small_mod((at + 1) as nat, n as nat);
    } else {
        vstd::arithmetic::div_mod::lemma_mod_self_0(n);
    }
    if at > 0 {
        vstd::arithmetic::div_mod::lemma_mod_add_multiples_vanish(at - 1, n);
        lemma_small_mod((at - 1) as nat, n as nat);
        assert(at + (n - 1) == n + (at - 1));
    } else {
        lemma_small_mod((n - 1) as nat, n as nat);
    }
}

/// The row keys move by one row and stop at the ends.
pub proof fn law_row_keys_move_by_one(t: TuiV, rows: Seq<&Row>, editable: bool)
    requires
        0 <= t.selected < rows.len(),
    ensures
        t.selected + 1 < rows.len() ==> navigated(t, Key::Down, rows, editable).0 == (TuiV {
            selected: t.selected + 1,
            ..t
        }),
        t.selected + 1 == rows.len() ==> navigated(t, Key::Down, rows, editable).0 == t,
        t.selected > 0 ==> navigated(t, Key::Up, rows, editable).0 == (TuiV {
            selected: t.selected - 1,
            ..t
        }),
        t.selected == 0 ==> navigated(t, Key::Up, rows, editable).0 == t,
        navigated(t, Key::Char('j'), rows, editable) == navigated(t, Key::Down, rows, editable),
        navigated(t, Key::Char('k'), rows, editable) == navigated(t, Key::Up, rows, editable),
{
}

/// The keys of the main screen do what the status line says of them: leave, open
/// or shut the row selected, edit its value or the view's address, show the map,
/// refresh.
pub proof fn law_keys_do_as_the_status_line_says(
    t: TuiV,
    rows: Seq<&Row>,
    editable: bool,
    c: ClassId,
)
    ensures
        navigated(t, Key::Char('q'), rows, editable).0.quit,
        navigated(t, Key::Esc, rows, editable).0.quit,
        navigated(t, Key::Char('m'), rows, editable).0 == (TuiV { show_map: !t.show_map, ..t }),
        navigated(t, Key::Char('r'), rows, editable) == (t, TuiEffectV::Refresh),
        0 <= t.selected < rows.len() && editable ==> navigated(t, Key::Char('e'), rows, editable).0
            == (TuiV { buffer: Seq::empty(), input: Input::Value, ..t }),
        !editable ==> navigated(t, Key::Char('e'), rows, editable).0 == t,
        t.state.selected_class() == Some(c) ==> navigated(t, Key::Char('a'), rows, editable).0 == (
        TuiV { buffer: expr_of(t.state, c), input: Input::Expr, ..t }),
        0 <= t.selected < rows.len() && rows[t.selected].expandable ==> ({
            let spot = (rows[t.selected].root as int, rows[t.selected].path@);
            let r = navigated(t, Key::Char(' '), rows, editable).0;
            &&& r.state.expand.expanded.contains(spot) == !t.state.expand.expanded.contains(spot)
            &&& r.state.project == t.state.project
            &&& navigated(t, Key::Enter, rows, editable).0 == r
        }),
        0 <= t.selected < rows.len() && !rows[t.selected].expandable ==> navigated(
            t,
            Key::Enter,
            rows,
            editable,
        ).0 == t,
{
}

/// What is typed is collected, one character after the other; Backspace takes
/// back the last one; Escape leaves it all.
pub proof fn law_typing_collects_characters(t: TuiV, c: char, rows: Seq<&Row>)
    ensures
        typed(t, Key::Char(c), rows).0 == (TuiV { buffer: t.buffer.push(c), ..t }),
        typed(typed(t, Key::Char(c), rows).0, Key::Backspace, rows).0.buffer == t.buffer,
        t.buffer.len() == 0 ==> typed(t, Key::Backspace, rows).0 == t,
        typed(t, Key::Esc, rows).0.input == Input::Idle,
        typed(t, Key::Esc, rows).0.buffer.len() == 0,
        typed(t, Key::Esc, rows).0.state == t.state,
{
    assert(t.buffer.push(c).drop_last() =~= t.buffer);
}

/// Enter sends off what was typed: as the value of the row selected, to where it
/// lies, or as the address expression of the class shown and of no other.
pub proof fn law_enter_sends_what_was_typed(t: TuiV, rows: Seq<&Row>, c: ClassId)
    requires
        t.state.wf(),
        0 <= t.selected < rows.len(),
        t.state.selected_class() == Some(c),
        t.state.project.registry.has(c),
    ensures
        typed(t, Key::Enter, rows).0.input == Input::Idle,
        typed(t, Key::Enter, rows).0.buffer.len() == 0,
        t.input == Input::Value ==> typed(t, Key::Enter, rows).1 == (TuiEffectV::Write {
            addr: rows[t.selected].address,
            kind: rows[t.selected].kind,
            text: t.buffer,
        }) && typed(t, Key::Enter, rows).0.state == t.state,
        t.input == Input::Expr ==> ({
            let v = t.state.project.registry;
            let (r, e) = typed(t, Key::Enter, rows);
            let w = r.state.project.registry;
            &&& e is Nothing
            &&& same_but_classes(t.state, r.state)
            &&& same_but_class(v, w, c)
            &&& class_at(w.classes, c).address_expr == t.buffer
            &&& class_at(w.classes, c).name == class_at(v.classes, c).name
            &&& w.nodes(c) == v.nodes(c)
        }),
{
    let v = t.state.project.registry;
    let k = crate::registry::place(v.classes, c);
    assert(v.classes[k].id == c);
    lemma_class_set(v, c, ClassV { address_expr: t.buffer, ..class_at(v.classes, c) });
}

/// Words are appended one behind the other: the class has as many more fields,
/// each of eight bytes and named by where it lies, and the rest is as it was.
proof fn lemma_words_pushed(s: AppV, c: ClassId, n: nat)
    requires
        s.project.registry.wf(),
        s.project.registry.has(c),
    ensures
        ({
            let t = words_pushed(s, c, n);
            let v = s.project.registry;
            let w = t.project.registry;
            &&& w.wf() && w.has(c)
            &&& same_but_fields(v, w, c)
            &&& w.nodes(c).len() == v.nodes(c).len() + n
            &&& forall|i: int|
                0 <= i < n ==> {
                    let f = #[trigger] w.nodes(c)[v.nodes(c).len() + i];
                    &&& f.kind == NodeKind::Hex(IntWidth::W64)
                    &&& f.name == "field_"@ + text::written((i * 8) as nat, 16, true)
                }
            &&& t.project.views == s.project.views
            &&& t.selected_view == s.selected_view
            &&& t.attached == s.attached
        }),
    decreases n,
{
    if n > 0 {
        let m = (n - 1) as nat;
        lemma_words_pushed(s, c, m);
        let before = words_pushed(s, c, m).project.registry;
        let node = plain_node(
            "field_"@ + text::written(((n - 1) * 8) as nat, 16, true),
            NodeKind::Hex(IntWidth::W64),
        );
        let nodes = before.nodes(c) + seq![node];
        lemma_other_fields(before, c, nodes);
        let v = s.project.registry;
        let w = words_pushed(s, c, n).project.registry;
        assert(w == before.with_nodes(c, nodes));
        let at = crate::registry::place(before.classes, c);
        assert(w.classes[at].id == before.classes[at].id);
        crate::registry::lemma_place(w.classes, w.next_id, at);
        assert forall|i: int| 0 <= i < n implies {
            let f = #[trigger] w.nodes(c)[v.nodes(c).len() + i];
            &&& f.kind == NodeKind::Hex(IntWidth::W64)
            &&& f.name == "field_"@ + text::written((i * 8) as nat, 16, true)
        } by {
            if i < m {
                assert(w.nodes(c)[v.nodes(c).len() + i] == before.nodes(c)[v.nodes(c).len() + i]);
            }
        }
    }
}

/// The terminal front-end starts with one class of words, shown, at the address
/// given on the command line; nothing is attached.
pub proof fn law_terminal_starts_with_words(addr: Option<Seq<char>>)
    ensures
        ({
            let s = first_words(addr);
            let c = s.project.registry.classes[0];
            &&& s.project.registry.classes.len() == 1
            &&& c.name == "Class1"@
            &&& c.nodes.len() == 16
            &&& forall|i: int|
                0 <= i < 16 ==> {
                    let f = #[trigger] c.nodes[i];
                    &&& f.kind == NodeKind::Hex(IntWidth::W64)
                    &&& f.name == "field_"@ + text::written((i * 8) as nat, 16, true)
                }
            &&& addr matches Some(e) ==> c.address_expr == e
            &&& addr is None ==> c.address_expr.len() == 0
            &&& s.selected_class() == Some(c.id)
            &&& !s.attached
        }),
{
    let empty = crate::app_state::empty_state();
    let v1 = empty.project.registry.with_class("Class1"@);
    let made = empty.snapped().with_registry(v1).opened(0);
    crate::app_state::law_opened_class_is_shown(empty.snapped().with_registry(v1), 0);
    assert(v1.classes[0].id == 0);
    crate::registry::lemma_place(v1.classes, v1.next_id, 0);
    lemma_words_pushed(made, 0, 16);
    let v2 = words_pushed(made, 0, 16).project.registry;
    assert(v1.nodes(0).len() == 0);
    assert(v2.classes[0].id == 0);
    crate::registry::lemma_place(v2.classes, v2.next_id, 0);
    assert forall|i: int| 0 <= i < 16 implies {
        let f = #[trigger] v2.classes[0].nodes[i];
        &&& f.kind == NodeKind::Hex(IntWidth::W64)
        &&& f.name == "field_"@ + text::written((i * 8) as nat, 16, true)
    } by {
        assert(v2.nodes(0)[v1.nodes(0).len() + i] == v2.classes[0].nodes[i]);
    }
    match addr {
        Some(e) => {
            let c = ClassV { address_expr: e, ..class_at(v2.classes, 0) };
            lemma_class_set(v2, 0, c);
            assert(v2.put(c).classes[0] == c);
        },
        None => {},
    }
}

/// Attaching at the start brings the target's regions and says which process it
/// is; a failure says why. The project is as it was either way.
pub proof fn law_attaching_is_told(s: AppV, pid: i32, r: Vec<Region>, why: String)
    ensures
        ({
            let t = attach_told(s, pid, Ok(Some(r)));
            &&& t.attached && t.regions.len() == r@.len()
            &&& forall|i: int| 0 <= i < r@.len() ==> #[trigger] t.regions[i] == r@[i]@
            &&& t.project == s.project
        }),
        attach_told(s, pid, Ok(None)).attached && attach_told(s, pid, Ok(None)).regions.len() == 0,
        ({
            let t = attach_told(s, pid, Err(why));
            &&& t.attached == s.attached && t.regions == s.regions && t.project == s.project
            &&& t.status.skip("attach failed: "@.len() as int) == why@
        }),
{
}

/// The header tells the name, the address and the base of the class that is
/// shown. A row's type is told behind two spaces for each level, with a mark
/// exactly where the row can be opened. The bottom line tells what is typed, or
/// the status.
pub proof fn law_screen_tells_what_is_shown(t: TuiV, c: ClassId, row: Row)
    ensures
        t.state.selected_class() == Some(c) && t.state.project.registry.has(c) ==> header_name(
            t.state,
        ) == " "@ + class_at(t.state.project.registry.classes, c).name + " "@,
        t.state.selected_class() == Some(c) && t.state.selected_view < t.state.view_status.len()
            && 0 <= t.state.selected_view ==> header_address(t.state) == "expr=["@ + expr_of(
            t.state,
            c,
        ) + "] base="@ + hex_label(t.state.view_status[t.state.selected_view].base as nat),
        !row.expandable ==> type_cell(row).len() == 2 * row.depth + row.type_label@.len(),
        row.expandable ==> type_cell(row).len() == 2 * row.depth + 2 + row.type_label@.len(),
        forall|i: int| 0 <= i < 2 * row.depth ==> #[trigger] type_cell(row)[i] == ' ',
        row.expandable ==> type_cell(row)[2 * row.depth] == (if row.expanded {
            '▼'
        } else {
            '▶'
        }),
        type_cell(row).skip(type_cell(row).len() - row.type_label@.len()) == row.type_label@,
        t.input == Input::Idle ==> status_shown(t).take(t.state.status.len() as int)
            == t.state.status,
        t.input == Input::Value ==> status_shown(t) == "edit value > "@ + t.buffer + "_"@,
        t.input == Input::Expr ==> status_shown(t) == "edit expr > "@ + t.buffer + "_"@,
{
    reveal_strlit("▼ ");
    reveal_strlit("▶ ");
    assert(type_cell(row).skip(type_cell(row).len() - row.type_label@.len()) =~= row.type_label@);
    if t.input == Input::Idle {
        assert(status_shown(t).take(t.state.status.len() as int) =~= t.state.status);
    }
}

} // verus!
