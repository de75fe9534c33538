//! Canvas-to-chat bridging types.

use vstd::prelude::*;

verus! {

/// Kinds of canvases the system drives.
#[derive(Clone, Copy, Debug, PartialEq, Eq, Structural)]
pub enum CanvasType {
    Main,
    Repl,
    Whiteboard,
    Workflow,
    Debug,
}

/// Counters describing one bridge.
#[derive(Clone, Copy, Debug, PartialEq, Eq, Structural)]
pub struct BridgeStats {
    pub canvas_count: usize,
    pub chat_pane_count: usize,
    pub binding_count: usize,
    pub queued_messages: usize,
    pub total_messages: usize,
}

} // verus!
