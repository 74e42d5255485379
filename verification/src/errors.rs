//! Structured compilation errors. Every failure of the compiler carries the
//! names, elevations or text region needed to diagnose it; human-readable
//! message text is formatted only at the reporting boundary, outside the
//! library.

use vstd::prelude::*;

verus! {

/// Mathematical model of a `CompileError`: the same structure over `Seq`,
/// `nat` and `int`.
pub enum ErrModel {
    /// The document text does not match the grammar; carries the (1-based)
    /// line number and the offending line's trimmed text.
    Syntax { line: nat, text: Seq<char> },
    /// A before/after list of `task` names `missing`, which no declaration
    /// introduced.
    Reference { task: Seq<char>, missing: Seq<char> },
    /// The tier-elevation invariant fails between `task` and `other`.
    /// When `other_is_successor` is true, `other` was declared (via an
    /// after-list of `task`) as depending on `task`, so `task_elevation`
    /// had to be strictly greater than `other_elevation`; otherwise `other`
    /// is a precursor of `task` and `task_elevation` had to be strictly
    /// less.
    Ordering {
        task: Seq<char>,
        task_elevation: int,
        other: Seq<char>,
        other_elevation: int,
        other_is_successor: bool,
    },
}

/// A fatal compilation error. Compilation never returns a partial graph:
/// any of these aborts the whole run.
#[derive(Debug)]
pub enum CompileError {
    /// The document text does not match the grammar.
    Syntax { line: usize, text: String },
    /// A before/after list names a task that no declaration introduced.
    Reference { task: String, missing: String },
    /// The tier-elevation invariant fails between two related tasks.
    Ordering {
        task: String,
        task_elevation: isize,
        other: String,
        other_elevation: isize,
        other_is_successor: bool,
    },
}

impl View for CompileError {
    type V = ErrModel;

    open spec fn view(&self) -> ErrModel {
        match self {
            CompileError::Syntax { line, text } => ErrModel::Syntax {
                line: *line as nat,
                text: text@,
            },
            CompileError::Reference { task, missing } => ErrModel::Reference {
                task: task@,
                missing: missing@,
            },
            CompileError::Ordering { task, task_elevation, other, other_elevation, other_is_successor } => ErrModel::Ordering {
                task: task@,
                task_elevation: *task_elevation as int,
                other: other@,
                other_elevation: *other_elevation as int,
                other_is_successor: *other_is_successor,
            },
        }
    }
}

} // verus!
