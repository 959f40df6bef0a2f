//! The messages that errors are shown as.

use crate::app_state::AppError;
use crate::memory::MemError;
use crate::registry::RegistryError;
use crate::text;
use vstd::prelude::*;

verus! {

/// A number in decimal.
pub open spec fn dec_text(n: nat) -> Seq<char> {
    text::written(n, 10, false)
}

/// How a refused registry edit is shown.
pub open spec fn registry_text(e: RegistryError) -> Seq<char> {
    match e {
        RegistryError::NotFound(id) => "no class "@ + dec_text(id as nat),
        RegistryError::NoSuchNode { class, idx } => "class "@ + dec_text(class as nat)
            + " has no field "@ + dec_text(idx as nat),
        RegistryError::NotAnArray { class, idx } => "class "@ + dec_text(class as nat)
            + ": not an array: field "@ + dec_text(idx as nat),
        RegistryError::DanglingRef { class, idx, target } => "class "@ + dec_text(class as nat)
            + " field "@ + dec_text(idx as nat) + " references missing class "@ + dec_text(
            target as nat,
        ),
    }
}

/// How a failed memory access is shown.
pub open spec fn mem_text(e: MemError) -> Seq<char> {
    match e {
        MemError::Permission => "permission denied"@,
        MemError::NoProcess => "no such process"@,
        MemError::Unmapped { addr, len } => "unmapped: "@ + dec_text(len as nat) + " bytes at 0x"@
            + text::written(addr as nat, 16, false),
        MemError::Backend(s) => s@,
    }
}

/// How a failed operation is shown.
pub open spec fn error_text(e: AppError) -> Seq<char> {
    match e {
        AppError::Registry(r) => registry_text(r),
        AppError::Edit(s) => s@,
        AppError::Mem(m) => mem_text(m),
        AppError::Project(s) => s@,
        AppError::Cycle => "would create an inline class cycle"@,
        AppError::NotAttached => "not attached"@,
        AppError::Io { path, source } => path@ + ": "@ + source@,
    }
}

impl RegistryError {
    /// The message.
    pub fn message(&self) -> (r: String)
        ensures
            r@ == registry_text(*self),
    {
        match self {
            RegistryError::NotFound(id) => text::join2(
                "no class ",
                text::dec(*id as u64).as_str(),
            ),
            RegistryError::NoSuchNode { class, idx } => {
                let head = text::join3(
                    "class ",
                    text::dec(*class as u64).as_str(),
                    " has no field ",
                );
                text::join2(head.as_str(), text::dec(*idx as u64).as_str())
            },
            RegistryError::NotAnArray { class, idx } => {
                let head = text::join3(
                    "class ",
                    text::dec(*class as u64).as_str(),
                    ": not an array: field ",
                );
                text::join2(head.as_str(), text::dec(*idx as u64).as_str())
            },
            RegistryError::DanglingRef { class, idx, target } => {
                let head = text::join3("class ", text::dec(*class as u64).as_str(), " field ");
                let more = text::join3(
                    head.as_str(),
                    text::dec(*idx as u64).as_str(),
                    " references missing class ",
                );
                text::join2(more.as_str(), text::dec(*target as u64).as_str())
            },
        }
    }
}

impl MemError {
    /// The message.
    pub fn message(&self) -> (r: String)
        ensures
            r@ == mem_text(*self),
    {
        match self {
            MemError::Permission => "permission denied".to_owned(),
            MemError::NoProcess => "no such process".to_owned(),
            MemError::Unmapped { addr, len } => {
                let head = text::join3("unmapped: ", text::dec(*len as u64).as_str(), " bytes at 0x");
                text::join2(head.as_str(), text::hex_lower(*addr).as_str())
            },
            MemError::Backend(s) => s.clone(),
        }
    }
}

impl AppError {
    /// The message.
    pub fn message(&self) -> (r: String)
        ensures
            r@ == error_text(*self),
    {
        match self {
            AppError::Registry(e) => e.message(),
            AppError::Edit(s) => s.clone(),
            AppError::Mem(m) => m.message(),
            AppError::Project(s) => s.clone(),
            AppError::Cycle => "would create an inline class cycle".to_owned(),
            AppError::NotAttached => "not attached".to_owned(),
            AppError::Io { path, source } => text::join3(path.as_str(), ": ", source.as_str()),
        }
    }
}

} // verus!
