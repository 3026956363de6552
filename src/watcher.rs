//! Which filesystem events call for a rebuild.

use vstd::prelude::*;

verus! {

/// A debounced filesystem event under a watched directory.
#[derive(Clone, Copy, Debug, PartialEq, Eq, Structural)]
pub enum FsEvent {
    Create,
    Write,
    Rename,
    Remove,
    /// Anything else: notices, permission changes, rescans, watch errors.
    Other,
}

/// Whether an event changes the sources, and so calls for a rebuild.
pub open spec fn changes_sources(e: FsEvent) -> bool {
    e != FsEvent::Other
}

pub fn triggers_rebuild(e: FsEvent) -> (r: bool)
    ensures
        r == changes_sources(e),
{
    match e {
        FsEvent::Create | FsEvent::Write | FsEvent::Rename | FsEvent::Remove => true,
        FsEvent::Other => false,
    }
}

} // verus!
