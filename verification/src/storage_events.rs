//! What the background task that watches the store does with each command.

use vstd::prelude::*;

verus! {

/// Commands that can be sent to the storage.
#[derive(Debug, Clone, Copy, PartialEq, Eq, Structural)]
pub enum StorageCommand {
    Updated,
}

/// What the watching task does next.
#[derive(Debug, Clone, Copy, PartialEq, Eq, Structural)]
pub struct Reaction {
    /// How long to wait first, in milliseconds.
    pub wait_millis: u64,
    /// Whether to announce afterwards that the store was updated.
    pub announce_update: bool,
}

/// The reaction to what came from the command channel: `None` stands for a
/// closed channel.
pub open spec fn reaction_to(command: Option<StorageCommand>) -> Reaction {
    match command {
        Some(StorageCommand::Updated) => Reaction { wait_millis: 50, announce_update: true },
        None => Reaction { wait_millis: 1000, announce_update: false },
    }
}

/// Decides what the watching task does with what came from the command
/// channel.
pub fn react(command: Option<StorageCommand>) -> (reaction: Reaction)
    ensures
        reaction == reaction_to(command),
{
    match command {
        Some(StorageCommand::Updated) => Reaction { wait_millis: 50, announce_update: true },
        None => Reaction { wait_millis: 1000, announce_update: false },
    }
}

} // verus!
