//! The order in which a directory is processed: its subdirectories are
//! processed first, then its files are encrypted and renamed, and last its
//! subdirectories are renamed.

use vstd::prelude::*;

verus! {

/// The three passes over the children of a directory, in order.
#[derive(PartialEq, Eq, Structural, Clone, Copy, Debug)]
pub enum DirPass {
    /// Process each subdirectory, recursively.
    Subdirs,
    /// Encrypt and rename each file.
    Files,
    /// Rename each subdirectory.
    RenameSubdirs,
}

/// What a child of a directory is.
#[derive(PartialEq, Eq, Structural, Clone, Copy, Debug)]
pub enum EntryKind {
    Dir,
    File,
    Other,
}

/// What a pass does with one child.
#[derive(PartialEq, Eq, Structural, Clone, Copy, Debug)]
pub enum ChildAction {
    /// Process the child directory, recursively.
    Descend,
    /// Encrypt the child file's contents and rename it.
    XorFile,
    /// Rename the child directory.
    Rename,
    /// Leave the child alone in this pass.
    Skip,
}

pub open spec fn spec_child_action(pass: DirPass, kind: EntryKind) -> ChildAction {
    match (pass, kind) {
        (DirPass::Subdirs, EntryKind::Dir) => ChildAction::Descend,
        (DirPass::Files, EntryKind::File) => ChildAction::XorFile,
        (DirPass::RenameSubdirs, EntryKind::Dir) => ChildAction::Rename,
        _ => ChildAction::Skip,
    }
}

pub open spec fn spec_next_pass(pass: DirPass) -> Option<DirPass> {
    match pass {
        DirPass::Subdirs => Some(DirPass::Files),
        DirPass::Files => Some(DirPass::RenameSubdirs),
        DirPass::RenameSubdirs => None,
    }
}

/// What the given pass does with a child of the given kind.
pub fn child_action(pass: DirPass, kind: EntryKind) -> (action: ChildAction)
    ensures
        action == spec_child_action(pass, kind),
{
    match (pass, kind) {
        (DirPass::Subdirs, EntryKind::Dir) => ChildAction::Descend,
        (DirPass::Files, EntryKind::File) => ChildAction::XorFile,
        (DirPass::RenameSubdirs, EntryKind::Dir) => ChildAction::Rename,
        _ => ChildAction::Skip,
    }
}

/// The pass after the given one; `None` after the last.
pub fn next_pass(pass: DirPass) -> (next: Option<DirPass>)
    ensures
        next == spec_next_pass(pass),
{
    match pass {
        DirPass::Subdirs => Some(DirPass::Files),
        DirPass::Files => Some(DirPass::RenameSubdirs),
        DirPass::RenameSubdirs => None,
    }
}

/// Over the three passes, starting at `Subdirs`, a directory child is
/// descended into and then renamed, in that order; a file child is encrypted
/// exactly once; any other child is left alone.
pub proof fn passes_handle_each_child(kind: EntryKind)
    ensures
        spec_next_pass(DirPass::Subdirs) == Some(DirPass::Files),
        spec_next_pass(DirPass::Files) == Some(DirPass::RenameSubdirs),
        spec_next_pass(DirPass::RenameSubdirs) is None,
        kind == EntryKind::Dir ==> {
            &&& spec_child_action(DirPass::Subdirs, kind) == ChildAction::Descend
            &&& spec_child_action(DirPass::Files, kind) == ChildAction::Skip
            &&& spec_child_action(DirPass::RenameSubdirs, kind) == ChildAction::Rename
        },
        kind == EntryKind::File ==> {
            &&& spec_child_action(DirPass::Subdirs, kind) == ChildAction::Skip
            &&& spec_child_action(DirPass::Files, kind) == ChildAction::XorFile
            &&& spec_child_action(DirPass::RenameSubdirs, kind) == ChildAction::Skip
        },
        kind == EntryKind::Other ==> {
            &&& spec_child_action(DirPass::Subdirs, kind) == ChildAction::Skip
            &&& spec_child_action(DirPass::Files, kind) == ChildAction::Skip
            &&& spec_child_action(DirPass::RenameSubdirs, kind) == ChildAction::Skip
        },
{
}

} // verus!
