//! What the engine reports toward the UI.
use vstd::prelude::*;

use crate::model::status::{LogLine, TunnelStatus};

verus! {

/// Events the engine emits toward the UI (or a test consumer).
#[derive(Debug, Clone)]
pub enum EngineEvent {
    Status(TunnelStatus),
    Log(LogLine),
}

} // verus!
