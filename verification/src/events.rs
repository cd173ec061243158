//! The refresh trigger: which window-manager events cause the mark pipeline
//! to run again.
//!
//! The process subscribes to three event categories. A workspace or output
//! event always triggers a refresh; a window event triggers one only for the
//! sub-kinds that change which windows are on screen (new, close, move). All
//! other window sub-kinds — focus changes, title changes, and the rest — are
//! discarded without running the pipeline.

use vstd::prelude::*;

verus! {

/// The sub-kind carried by a window event.
#[derive(Clone, Copy, Debug, PartialEq, Eq, Structural)]
pub enum WindowChange {
    New,
    Close,
    Focus,
    Title,
    FullscreenMode,
    Move,
    Floating,
    Urgent,
    Mark,
    Other,
}

/// One event from the subscription stream, restricted to the categories the
/// process subscribes to. Anything outside these categories is a protocol
/// violation handled by the caller, not an event of this type.
#[derive(Clone, Copy, Debug, PartialEq, Eq, Structural)]
pub enum WmEvent {
    Workspace,
    Output,
    Window(WindowChange),
}

/// Exactly the events that change the visible layout: every workspace and
/// output event, and window events of sub-kind new, close or move.
pub open spec fn spec_should_refresh(e: WmEvent) -> bool {
    match e {
        WmEvent::Workspace => true,
        WmEvent::Output => true,
        WmEvent::Window(c) => c is New || c is Close || c is Move,
    }
}

/// Decides whether an incoming event triggers a refresh of all marks.
pub fn should_refresh(e: &WmEvent) -> (r: bool)
    ensures
        r == spec_should_refresh(*e),
{
    match e {
        WmEvent::Workspace => true,
        WmEvent::Output => true,
        WmEvent::Window(c) => match c {
            WindowChange::New => true,
            WindowChange::Close => true,
            WindowChange::Move => true,
            _ => false,
        },
    }
}

} // verus!
