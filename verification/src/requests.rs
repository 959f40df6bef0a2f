//! What plugins ask of the host, applied to the project. A request that needs
//! the outside world comes back as an [`Errand`] for the shell.

use crate::app_state::{AppError, AppState, AppV};
use crate::edits::kind_changed;
use crate::node::{plain_node, Node, NodeKind, NodeV};
use crate::plugin::PluginAction;
use crate::registry::{
    array_counted, class_at, class_set, inserted, node_set, pushed, removed, ClassV,
};
use crate::timeline::law_undo_reverses_edit;
use vstd::prelude::*;

verus! {

/// What the shell has to do for a request.
#[derive(Debug)]
pub enum Errand {
    Nothing,
    Attach(i32),
    /// Write what the text says of this kind.
    Write { addr: u64, kind: NodeKind, text: String },
    Save(String),
    Load(String),
    /// Put a text on the system clipboard.
    Copy(String),
}

/// What an [`Errand`] says.
pub enum ErrandV {
    Nothing,
    Attach(i32),
    Write { addr: u64, kind: NodeKind, text: Seq<char> },
    Save(Seq<char>),
    Load(Seq<char>),
    Copy(Seq<char>),
}

impl View for Errand {
    type V = ErrandV;

    open spec fn view(&self) -> ErrandV {
        match self {
            Errand::Nothing => ErrandV::Nothing,
            Errand::Attach(pid) => ErrandV::Attach(*pid),
            Errand::Write { addr, kind, text } => ErrandV::Write {
                addr: *addr,
                kind: *kind,
                text: text@,
            },
            Errand::Save(path) => ErrandV::Save(path@),
            Errand::Load(path) => ErrandV::Load(path@),
            Errand::Copy(text) => ErrandV::Copy(text@),
        }
    }
}

/// Whether a request can be applied: a class id is left, and the position fits.
pub open spec fn grantable(s: AppV, a: PluginAction) -> bool {
    match a {
        PluginAction::AddClass { name } => s.project.registry.next_id < u32::MAX,
        PluginAction::InsertNode { class, after_idx, kind, name } => after_idx < usize::MAX,
        _ => true,
    }
}

/// What a request makes of the project, and whether it failed.
pub open spec fn granted(s: AppV, a: PluginAction) -> (AppV, Result<(), AppError>) {
    let v = s.project.registry;
    match a {
        PluginAction::AddClass { name } => (
            s.snapped().with_registry(v.with_class(name@)).opened(v.next_id),
            Ok(()),
        ),
        PluginAction::PushNode { class, kind, name } => s.edited(
            pushed(v, class, seq![plain_node(name@, kind)]),
        ),
        PluginAction::InsertNode { class, after_idx, kind, name } => s.edited(
            inserted(v, class, (after_idx + 1) as usize, plain_node(name@, kind)),
        ),
        PluginAction::RemoveNode { class, idx } => s.edited(removed(v, class, idx)),
        PluginAction::SetKind { class, idx, kind } => kind_changed(s, class, idx, kind),
        PluginAction::SetArrayCount { class, idx, count } => s.edited(
            array_counted(v, class, idx, count),
        ),
        PluginAction::RenameNode { class, idx, name } => s.edited(
            node_set(v, class, idx, NodeV { name: name@, ..v.nodes(class)[idx as int] }),
        ),
        PluginAction::SetComment { class, idx, comment } => s.edited(
            node_set(v, class, idx, NodeV { comment: comment@, ..v.nodes(class)[idx as int] }),
        ),
        PluginAction::SetAddressExpr { class, expr } => s.edited(
            class_set(v, class, ClassV { address_expr: expr@, ..class_at(v.classes, class) }),
        ),
        _ => (s, Ok(())),
    }
}

/// What the shell has to do for a request.
pub open spec fn errand_of(a: PluginAction) -> ErrandV {
    match a {
        PluginAction::AttachPid(pid) => ErrandV::Attach(pid),
        PluginAction::WriteValue { addr, kind, text } => ErrandV::Write {
            addr,
            kind,
            text: text@,
        },
        PluginAction::SaveProject { path } => ErrandV::Save(path@),
        PluginAction::LoadProject { path } => ErrandV::Load(path@),
        PluginAction::SetClipboard(text) => ErrandV::Copy(text@),
        _ => ErrandV::Nothing,
    }
}

/// Whether a request can be applied.
pub fn can_grant(state: &AppState, a: &PluginAction) -> (r: bool)
    ensures
        r == grantable(state@, *a),
{
    match a {
        PluginAction::AddClass { name: _ } => state.project.registry.next_id < u32::MAX,
        PluginAction::InsertNode { class: _, after_idx, kind: _, name: _ } => *after_idx
            < usize::MAX,
        _ => true,
    }
}

/// Apply what a plugin asks for.
pub fn grant(state: &mut AppState, a: PluginAction) -> (r: Result<Errand, AppError>)
    requires
        old(state).wf(),
        grantable(old(state)@, a),
    ensures
        final(state).wf(),
        final(state)@ == granted(old(state)@, a).0,
        match granted(old(state)@, a).1 {
            Ok(_) => r is Ok && (r->Ok_0)@ == errand_of(a),
            Err(e) => r is Err && r->Err_0 == e,
        },
{
    let done = match a {
        PluginAction::AddClass { name } => {
            let _ = state.add_class(name.as_str());
            Ok(())
        },
        PluginAction::PushNode { class, kind, name } => state.push_node(
            class,
            Node::new(name.as_str(), kind),
        ),
        PluginAction::InsertNode { class, after_idx, kind, name } => state.insert_after(
            class,
            after_idx,
            Node::new(name.as_str(), kind),
        ),
        PluginAction::RemoveNode { class, idx } => state.delete_node(class, idx),
        PluginAction::SetKind { class, idx, kind } => state.change_kind(class, idx, kind),
        PluginAction::SetArrayCount { class, idx, count } => state.set_array_count(
            class,
            idx,
            count,
        ),
        PluginAction::RenameNode { class, idx, name } => state.rename_node(class, idx, name),
        PluginAction::SetComment { class, idx, comment } => state.set_comment(class, idx, comment),
        PluginAction::SetAddressExpr { class, expr } => state.set_address_expr(class, expr),
        PluginAction::AttachPid(pid) => {
            return Ok(Errand::Attach(pid));
        },
        PluginAction::WriteValue { addr, kind, text } => {
            return Ok(Errand::Write { addr, kind, text });
        },
        PluginAction::SaveProject { path } => {
            return Ok(Errand::Save(path));
        },
        PluginAction::LoadProject { path } => {
            return Ok(Errand::Load(path));
        },
        PluginAction::SetClipboard(text) => {
            return Ok(Errand::Copy(text));
        },
    };
    match done {
        Ok(_) => Ok(Errand::Nothing),
        Err(e) => Err(e),
    }
}

/// What a plugin edits can be undone: where a request changed the project, undo
/// brings it back.
pub proof fn law_plugin_edits_can_be_undone(s: AppV, a: PluginAction)
    requires
        granted(s, a).0.project != s.project,
    ensures
        granted(s, a).0.undone().project == s.project,
{
    let after = granted(s, a).0;
    assert(after.history == s.snapped().history);
    law_undo_reverses_edit(s, after);
}

} // verus!
