//! What a Starlark evaluation runs in: a `.bzl` file, a GN scope (macro),
//! or a rule implementation, and what each allows.
use vstd::prelude::*;

use crate::types::Label;

verus! {

/// The kind of an evaluation. GN-side objects are named by handles: `scope`
/// for the GN scope and `err` for the error slot that GN reads.
#[derive(PartialEq, Eq, Debug)]
pub enum EvalContextKind {
    BzlFile,
    Macro { scope: u64, err: u64, toolchain: Label },
    RuleImpl { target: Label, toolchain: Label, err: u64 },
}

/// Errors of calling a function in the wrong kind of evaluation.
#[derive(PartialEq, Eq, Debug)]
pub enum Error {
    RequiresMacro,
    RequiresBzlFile,
    RequiresRuleImpl,
}

/// An evaluation: the build session it belongs to (a handle of GN's), the
/// package it runs in, and its kind.
pub struct EvalContext {
    pub session: u64,
    pub package: String,
    pub kind: EvalContextKind,
}

impl EvalContext {
    /// The evaluation of a `.bzl` file of the package `package`, in the
    /// session `session`.
    pub fn new_bzl_file(session: u64, package: &str) -> (r: EvalContext)
        ensures
            r.session == session,
            r.package@ == package@,
            r.kind == EvalContextKind::BzlFile,
    {
        EvalContext { session, package: String::from_str(package), kind: EvalContextKind::BzlFile }
    }

    /// The evaluation of a macro in the GN scope `scope` (of the package
    /// `package`, whose toolchain is `toolchain`), reporting errors to `err`,
    /// in the session `session`.
    pub fn new_macro(session: u64, package: &str, scope: u64, err: u64, toolchain: Label) -> (r: EvalContext)
        ensures
            r.session == session,
            r.package@ == package@,
            r.kind == (EvalContextKind::Macro { scope, err, toolchain }),
    {
        EvalContext {
            session,
            package: String::from_str(package),
            kind: EvalContextKind::Macro { scope, err, toolchain },
        }
    }

    /// The evaluation of the implementation of the target `target` (built
    /// for `toolchain`), reporting errors to `err`; it runs in the target's
    /// package, in the session `session`.
    pub fn new_rule_impl(session: u64, target: Label, toolchain: Label, err: u64) -> (r: EvalContext)
        ensures
            r.session == session,
            r.package@ == target.package@,
            r.kind == (EvalContextKind::RuleImpl { target, toolchain, err }),
    {
        let package = target.package.clone();
        EvalContext { session, package, kind: EvalContextKind::RuleImpl { target, toolchain, err } }
    }

    /// The session the evaluation belongs to.
    pub fn session(&self) -> (r: u64)
        ensures
            r == self.session,
    {
        self.session
    }

    /// The error slot of a macro or rule implementation evaluation.
    pub fn err(&self) -> (r: Option<u64>)
        ensures
            r == match self.kind {
                EvalContextKind::BzlFile => None,
                EvalContextKind::Macro { err, .. } => Some(err),
                EvalContextKind::RuleImpl { err, .. } => Some(err),
            },
    {
        match &self.kind {
            EvalContextKind::Macro { err, .. } => Some(*err),
            EvalContextKind::RuleImpl { err, .. } => Some(*err),
            EvalContextKind::BzlFile => None,
        }
    }

    /// The package the evaluation runs in.
    pub fn current_package(&self) -> (r: &str)
        ensures
            r@ == self.package@,
    {
        self.package.as_str()
    }

    /// The toolchain of the evaluation: the scope's in a macro, the target's
    /// in a rule implementation. A `.bzl` file has none.
    pub fn current_toolchain(&self) -> (r: &Label)
        requires
            !(self.kind is BzlFile),
        ensures
            match self.kind {
                EvalContextKind::Macro { toolchain, .. } => *r == toolchain,
                EvalContextKind::RuleImpl { toolchain, .. } => *r == toolchain,
                EvalContextKind::BzlFile => false,
            },
    {
        match &self.kind {
            EvalContextKind::Macro { toolchain, .. } => toolchain,
            EvalContextKind::RuleImpl { toolchain, .. } => toolchain,
            EvalContextKind::BzlFile => vstd::pervasive::unreached(),
        }
    }

    /// The GN scope, where the evaluation is a macro.
    pub fn require_macro(&self) -> (r: Result<u64, Error>)
        ensures
            match self.kind {
                EvalContextKind::Macro { scope, .. } => r == Ok::<u64, Error>(scope),
                _ => r == Err::<u64, Error>(Error::RequiresMacro),
            },
    {
        match &self.kind {
            EvalContextKind::Macro { scope, .. } => Ok(*scope),
            _ => Err(Error::RequiresMacro),
        }
    }

    /// Succeeds where the evaluation is of a `.bzl` file.
    pub fn require_bzl(&self) -> (r: Result<(), Error>)
        ensures
            r == (if self.kind is BzlFile {
                Ok::<(), Error>(())
            } else {
                Err::<(), Error>(Error::RequiresBzlFile)
            }),
    {
        match &self.kind {
            EvalContextKind::BzlFile => Ok(()),
            _ => Err(Error::RequiresBzlFile),
        }
    }

    /// The target whose implementation runs, where the evaluation is one.
    pub fn require_rule_impl(&self) -> (r: Result<&Label, Error>)
        ensures
            match self.kind {
                EvalContextKind::RuleImpl { target, .. } => r matches Ok(t) && *t == target,
                _ => r matches Err(Error::RequiresRuleImpl),
            },
    {
        match &self.kind {
            EvalContextKind::RuleImpl { target, .. } => Ok(target),
            _ => Err(Error::RequiresRuleImpl),
        }
    }
}

} // verus!
