//! What each tick reads: the base address of every view, from its class's
//! address expression, and the classes that are read there. Parsing and
//! evaluating an expression happen elsewhere; the steps here say when, and
//! what becomes of the outcome.

use crate::app_state::{
    attempt_view, unresolved, AppError, AppState, AppV, CachedExpr, CachedExprV, ViewStatus,
    ViewStatusV,
};
use crate::node::ClassId;
use crate::registry::class_at;
use crate::text;
use vstd::prelude::*;

verus! {

broadcast use vstd::std_specs::hash::group_hash_axioms;

/// What to do next to resolve a view's base address.
#[derive(Debug)]
pub enum Resolve {
    /// Nothing more: this is the outcome.
    Done(ViewStatus),
    /// Parse the expression and hand the outcome back.
    Parse,
    /// Evaluate the syntax tree with this handle.
    Eval(u64),
}

/// What a [`Resolve`] says.
pub enum ResolveV {
    Done(ViewStatusV),
    Parse,
    Eval(u64),
}

impl View for Resolve {
    type V = ResolveV;

    open spec fn view(&self) -> ResolveV {
        match self {
            Resolve::Done(s) => ResolveV::Done(s@),
            Resolve::Parse => ResolveV::Parse,
            Resolve::Eval(h) => ResolveV::Eval(*h),
        }
    }
}

/// The address expression of class `id`; empty where there is no such class.
pub open spec fn expr_of(s: AppV, id: ClassId) -> Seq<char> {
    if s.project.registry.has(id) {
        class_at(s.project.registry.classes, id).address_expr
    } else {
        Seq::empty()
    }
}

/// The state and the next step when class `id`'s expression `expr` is to be
/// resolved: a blank one resolves to nothing and is forgotten; one that is
/// not cached as it stands is parsed first; a parsed one is evaluated where a
/// target is attached.
pub open spec fn resolving(s: AppV, id: ClassId, expr: Seq<char>) -> (AppV, ResolveV) {
    if text::trim(expr).len() == 0 {
        (AppV { cache: s.cache.remove(id), ..s }, ResolveV::Done(unresolved()))
    } else if !(s.cache.dom().contains(id) && s.cache[id].src == expr) {
        (s, ResolveV::Parse)
    } else if !s.attached {
        (s, ResolveV::Done(ViewStatusV { base: 0, error: Some("not attached"@) }))
    } else {
        match s.cache[id].parsed {
            Ok(h) => (s, ResolveV::Eval(h)),
            Err(e) => (s, ResolveV::Done(ViewStatusV { base: 0, error: Some(e) })),
        }
    }
}

/// What a view's status is once its expression was evaluated.
pub open spec fn evaluated(r: Result<u64, Seq<char>>) -> ViewStatusV {
    match r {
        Ok(base) => ViewStatusV { base, error: None },
        Err(e) => ViewStatusV { base: 0, error: Some(e) },
    }
}

/// A class to be read, and where.
#[derive(Clone, Copy, Debug, PartialEq, Eq, Structural)]
pub struct Root {
    pub class_id: ClassId,
    pub base: u64,
}

/// With the outcome of parsing a class's address expression kept.
pub open spec fn parse_kept(
    s: AppV,
    id: ClassId,
    expr: Seq<char>,
    parsed: Result<u64, Seq<char>>,
) -> AppV {
    AppV { cache: s.cache.insert(id, CachedExprV { src: expr, parsed }), ..s }
}

/// With what view `i` resolved to kept.
pub open spec fn status_kept(s: AppV, i: int, status: ViewStatusV) -> AppV {
    AppV { view_status: s.view_status.update(i, status), ..s }
}

/// What is to be read: each view's class at its base address.
pub open spec fn roots_of(s: AppV) -> Seq<Root> {
    Seq::new(
        s.project.views.len(),
        |i: int| Root { class_id: s.project.views[i], base: s.view_status[i].base },
    )
}

/// What a list of classes with their expressions says.
pub open spec fn jobs_view(s: Seq<(ClassId, String)>) -> Seq<(ClassId, Seq<char>)> {
    Seq::new(s.len(), |i: int| (s[i].0, s[i].1@))
}

impl AppState {
    /// Start a tick: one status per view, and for each view its class and that
    /// class's address expression.
    pub fn begin_rows(&mut self) -> (r: Vec<(ClassId, String)>)
        requires
            old(self).wf(),
        ensures
            final(self).wf(),
            final(self)@ == old(self)@,
            jobs_view(r@) == Seq::new(
                old(self)@.project.views.len(),
                |i: int|
                    (
                        old(self)@.project.views[i],
                        expr_of(old(self)@, old(self)@.project.views[i]),
                    ),
            ),
    {
        let n: usize = self.project.views.len();
        crate::app_state::resize_statuses(&mut self.view_status, n);
        proof {
            assert(self@.view_status =~= old(self)@.view_status);
        }
        let mut out: Vec<(ClassId, String)> = Vec::new();
        let mut i: usize = 0;
        while i < n
            invariant
                self.wf(),
                self@ == old(self)@,
                n == self.project.views@.len(),
                i <= n,
                out@.len() == i,
                forall|j: int|
                    0 <= j < i ==> (#[trigger] out@[j]).0 == self@.project.views[j] && out@[j].1@
                        == expr_of(self@, self@.project.views[j]),
            decreases n - i,
        {
            let id: ClassId = self.project.views[i];
            let expr = match self.project.registry.get(id) {
                Some(c) => c.address_expr.clone(),
                None => String::new(),
            };
            proof {
                assert(expr@ =~= expr_of(self@, id));
            }
            out.push((id, expr));
            i = i + 1;
        }
        proof {
            assert(jobs_view(out@) =~= Seq::new(
                self@.project.views.len(),
                |i: int| (self@.project.views[i], expr_of(self@, self@.project.views[i])),
            ));
        }
        out
    }

    /// The next step to resolve a class's address expression. The parsed tree
    /// is cached per class, so only evaluation runs each tick; the parse
    /// happens once per expression edit.
    pub fn resolve_cached(&mut self, class_id: ClassId, expr: &str) -> (r: Resolve)
        requires
            old(self).wf(),
        ensures
            final(self).wf(),
            (final(self)@, r@) == resolving(old(self)@, class_id, expr@),
    {
        if text::is_blank(expr) {
            let ghost before = self@.cache;
            let _ = self.expr_cache.remove(&class_id);
            proof {
                assert(self@.cache =~= before.remove(class_id));
            }
            return Resolve::Done(ViewStatus::new());
        }
        match self.expr_cache.get(&class_id) {
            Some(entry) => {
                if !text::str_eq(entry.src.as_str(), expr) {
                    return Resolve::Parse;
                }
                if !self.attached {
                    return Resolve::Done(
                        ViewStatus { base: 0, error: Some("not attached".to_owned()) },
                    );
                }
                match &entry.parsed {
                    Ok(h) => Resolve::Eval(*h),
                    Err(e) => Resolve::Done(ViewStatus { base: 0, error: Some(e.clone()) }),
                }
            },
            None => Resolve::Parse,
        }
    }

    /// Keep the outcome of parsing a class's address expression.
    pub fn remember_parse(&mut self, class_id: ClassId, expr: &str, parsed: Result<u64, String>)
        requires
            old(self).wf(),
        ensures
            final(self).wf(),
            final(self)@ == parse_kept(old(self)@, class_id, expr@, attempt_view(parsed)),
    {
        let ghost before = self@.cache;
        let entry = CachedExpr { src: expr.to_owned(), parsed };
        let _ = self.expr_cache.insert(class_id, entry);
        proof {
            assert(self@.cache =~= before.insert(class_id, entry@));
        }
    }

    /// Keep what view `i` resolved to.
    pub fn set_view_status(&mut self, i: usize, status: ViewStatus)
        requires
            old(self).wf(),
            i < old(self)@.view_status.len(),
        ensures
            final(self).wf(),
            final(self)@ == status_kept(old(self)@, i as int, status@),
    {
        let ghost before = self@.view_status;
        self.view_status[i] = status;
        proof {
            assert(self@.view_status =~= before.update(i as int, status@));
        }
    }

    /// What is to be read, once every view is resolved: each view's class at
    /// its base address. Nothing where no target is attached.
    pub fn roots(&self) -> (r: Option<Vec<Root>>)
        requires
            self.wf(),
        ensures
            r is Some == self@.attached,
            r is Some ==> (r->0)@ == roots_of(self@),
    {
        if !self.attached {
            return None;
        }
        let n: usize = self.project.views.len();
        let mut out: Vec<Root> = Vec::new();
        let mut i: usize = 0;
        while i < n
            invariant
                self.wf(),
                n == self.project.views@.len(),
                n == self.view_status@.len(),
                i <= n,
                out@.len() == i,
                forall|j: int|
                    0 <= j < i ==> #[trigger] out@[j] == (Root {
                        class_id: self@.project.views[j],
                        base: self@.view_status[j].base,
                    }),
            decreases n - i,
        {
            out.push(Root { class_id: self.project.views[i], base: self.view_status[i].base });
            i = i + 1;
        }
        proof {
            assert(out@ =~= roots_of(self@));
        }
        Some(out)
    }

    /// The bytes to write for a value that was typed in: those that it parsed
    /// to, where a target is attached.
    pub fn write_value(&self, parsed: Result<Vec<u8>, String>) -> (r: Result<Vec<u8>, AppError>)
        ensures
            r == written_if(self@.attached, parsed),
    {
        match parsed {
            Ok(bytes) => if self.attached {
                Ok(bytes)
            } else {
                Err(AppError::NotAttached)
            },
            Err(e) => Err(AppError::Edit(e)),
        }
    }
}

/// The status of a view whose expression was evaluated.
pub fn evaluated_status(r: Result<u64, String>) -> (s: ViewStatus)
    ensures
        s@ == evaluated(attempt_view(r)),
{
    match r {
        Ok(base) => ViewStatus { base, error: None },
        Err(e) => ViewStatus { base: 0, error: Some(e) },
    }
}

/// The name of a generated crate: the directory's, unless that is missing or
/// blank.
pub fn crate_name(file_name: Option<String>) -> (r: String)
    ensures
        r@ == match file_name {
            Some(n) => if text::trim(n@).len() == 0 {
                "reclass_project"@
            } else {
                n@
            },
            None => "reclass_project"@,
        },
{
    match file_name {
        Some(n) => if text::is_blank(n.as_str()) {
            "reclass_project".to_owned()
        } else {
            n
        },
        None => "reclass_project".to_owned(),
    }
}

/// An expression is parsed anew exactly when its text changed: after the
/// outcome of a parse was kept, the same text is not parsed again, and any
/// other one is.
pub proof fn law_edit_reparses(
    s: AppV,
    id: ClassId,
    expr: Seq<char>,
    other: Seq<char>,
    parsed: Result<u64, Seq<char>>,
)
    requires
        text::trim(expr).len() > 0,
        text::trim(other).len() > 0,
    ensures
        ({
            let kept = AppV {
                cache: s.cache.insert(id, CachedExprV { src: expr, parsed }),
                ..s
            };
            &&& !(resolving(kept, id, expr).1 is Parse)
            &&& other != expr ==> resolving(kept, id, other).1 is Parse
        }),
{
}

/// What becomes of a view's address expression: a blank one gives no address and
/// no error; one whose text is not the one parsed last is parsed; without a
/// target, or where the text is no expression, the view shows why; else the
/// parsed expression is evaluated, and its value is the view's base. Nothing but
/// the memory of parsed expressions changes.
pub proof fn law_expressions_are_resolved(
    s: AppV,
    id: ClassId,
    expr: Seq<char>,
    h: u64,
    e: Seq<char>,
)
    ensures
        text::trim(expr).len() == 0 ==> resolving(s, id, expr).1 == ResolveV::Done(
            ViewStatusV { base: 0, error: None },
        ),
        text::trim(expr).len() > 0 && !s.cache.dom().contains(id) ==> resolving(s, id, expr).1
            == ResolveV::Parse,
        text::trim(expr).len() > 0 && s.cache.dom().contains(id) && s.cache[id].src != expr
            ==> resolving(s, id, expr).1 == ResolveV::Parse,
        text::trim(expr).len() > 0 && s.cache.dom().contains(id) && s.cache[id].src == expr ==> {
            &&& s.attached && s.cache[id].parsed == Ok::<u64, Seq<char>>(h) ==> resolving(
                s,
                id,
                expr,
            ).1 == ResolveV::Eval(h)
            &&& s.attached && s.cache[id].parsed == Err::<u64, Seq<char>>(e) ==> resolving(
                s,
                id,
                expr,
            ).1 == ResolveV::Done(ViewStatusV { base: 0, error: Some(e) })
            &&& !s.attached ==> resolving(s, id, expr).1 == ResolveV::Done(
                ViewStatusV { base: 0, error: Some("not attached"@) },
            )
        },
        evaluated(Ok(h)).base == h && evaluated(Ok(h)).error is None,
        evaluated(Err(e)).base == 0 && evaluated(Err(e)).error == Some(e),
        resolving(s, id, expr).0.project == s.project,
        resolving(s, id, expr).0.view_status == s.view_status,
        forall|x: ClassId|
            x != id ==> (#[trigger] resolving(s, id, expr).0.cache.dom().contains(x)
                == s.cache.dom().contains(x)),
{
}

/// What an expression came to is where its view is read: once it was parsed and
/// evaluated, the class that the view shows is read at that address, and every
/// other view at its own. The project stays.
pub proof fn law_views_are_read_at_their_base(
    s: AppV,
    id: ClassId,
    expr: Seq<char>,
    h: u64,
    i: int,
    k: int,
    base: u64,
)
    requires
        s.wf(),
        s.attached,
        text::trim(expr).len() > 0,
        0 <= i < s.project.views.len(),
        0 <= k < s.project.views.len(),
    ensures
        resolving(parse_kept(s, id, expr, Ok(h)), id, expr).1 == ResolveV::Eval(h),
        ({
            let t = status_kept(s, i, evaluated(Ok(base)));
            &&& roots_of(t).len() == s.project.views.len()
            &&& roots_of(t)[i].class_id == s.project.views[i]
            &&& roots_of(t)[i].base == base
            &&& k != i ==> roots_of(t)[k] == roots_of(s)[k]
            &&& t.project == s.project
        }),
        parse_kept(s, id, expr, Ok(h)).project == s.project,
        parse_kept(s, id, expr, Ok(h)).view_status == s.view_status,
{
}

/// The bytes that are written for a value typed in: those that it reads as, where
/// there is a target.
pub open spec fn written_if(attached: bool, parsed: Result<Vec<u8>, String>) -> Result<
    Vec<u8>,
    AppError,
> {
    match parsed {
        Ok(bytes) => if attached {
            Ok(bytes)
        } else {
            Err(AppError::NotAttached)
        },
        Err(e) => Err(AppError::Edit(e)),
    }
}

/// A value is written to a target only, and only where it could be read; what is
/// written is what it reads as. What is wrong with the value is told before the
/// target is missed.
pub proof fn law_value_is_written_to_a_target(attached: bool, bytes: Vec<u8>, why: String)
    ensures
        written_if(true, Ok(bytes)) == Ok::<Vec<u8>, AppError>(bytes),
        written_if(false, Ok(bytes)) == Err::<Vec<u8>, AppError>(AppError::NotAttached),
        written_if(attached, Err(why)) == Err::<Vec<u8>, AppError>(AppError::Edit(why)),
{
}

} // verus!
