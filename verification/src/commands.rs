//! Commands bound to keys: which command a key runs, and the commands that
//! only flip game state.

use vstd::prelude::*;
use crate::input::{Key, ResolvedInput};

verus! {

/// Quit the game.
pub struct ExitCommand;

/// Pause or resume the simulation.
pub struct TogglePauseCommand;

/// Save the game.
pub struct SaveGameCommand;

/// Load the saved game.
pub struct LoadGameCommand;

impl TogglePauseCommand {
    /// Flip the pause flag.
    pub fn apply(&self, paused: &mut bool)
        ensures
            *final(paused) == !*old(paused),
    {
        *paused = !*paused;
    }
}

/// The commands that can be bound to a key.
#[derive(Clone, Copy, Debug, PartialEq, Eq, Structural)]
pub enum CommandId {
    MoveUp,
    MoveDown,
    MoveLeft,
    MoveRight,
    ZoomOut,
    ZoomIn,
    TogglePause,
    TaxUp,
    TaxDown,
    SaveGame,
    LoadGame,
}

/// The command a key runs under the bindings. Bindings are registered in
/// the order below and a later one replaces an earlier one on the same key,
/// so the last binding of the key wins.
pub open spec fn bound_command(input: ResolvedInput, key: Key) -> Option<CommandId> {
    if key == input.load_game {
        Some(CommandId::LoadGame)
    } else if key == input.save_game {
        Some(CommandId::SaveGame)
    } else if key == input.tax_down {
        Some(CommandId::TaxDown)
    } else if key == input.tax_up {
        Some(CommandId::TaxUp)
    } else if key == input.toggle_pause {
        Some(CommandId::TogglePause)
    } else if key == input.zoom_in {
        Some(CommandId::ZoomIn)
    } else if key == input.zoom_out {
        Some(CommandId::ZoomOut)
    } else if key == input.move_right {
        Some(CommandId::MoveRight)
    } else if key == input.move_left {
        Some(CommandId::MoveLeft)
    } else if key == input.move_down {
        Some(CommandId::MoveDown)
    } else if key == input.move_up {
        Some(CommandId::MoveUp)
    } else {
        None
    }
}

/// The command bound to `key`, if any.
pub fn command_for(input: &ResolvedInput, key: Key) -> (r: Option<CommandId>)
    ensures
        r == bound_command(*input, key),
{
    let order: [(Key, CommandId); 11] = [
        (input.move_up, CommandId::MoveUp),
        (input.move_down, CommandId::MoveDown),
        (input.move_left, CommandId::MoveLeft),
        (input.move_right, CommandId::MoveRight),
        (input.zoom_out, CommandId::ZoomOut),
        (input.zoom_in, CommandId::ZoomIn),
        (input.toggle_pause, CommandId::TogglePause),
        (input.tax_up, CommandId::TaxUp),
        (input.tax_down, CommandId::TaxDown),
        (input.save_game, CommandId::SaveGame),
        (input.load_game, CommandId::LoadGame),
    ];
    let mut found: Option<CommandId> = None;
    let mut i: usize = 0;
    while i < 11
        invariant
            i <= 11,
            order@ == seq![
                (input.move_up, CommandId::MoveUp),
                (input.move_down, CommandId::MoveDown),
                (input.move_left, CommandId::MoveLeft),
                (input.move_right, CommandId::MoveRight),
                (input.zoom_out, CommandId::ZoomOut),
                (input.zoom_in, CommandId::ZoomIn),
                (input.toggle_pause, CommandId::TogglePause),
                (input.tax_up, CommandId::TaxUp),
                (input.tax_down, CommandId::TaxDown),
                (input.save_game, CommandId::SaveGame),
                (input.load_game, CommandId::LoadGame),
            ],
            found == last_binding(order@, key, i as int),
        decreases 11 - i,
    {
        if order[i].0 == key {
            found = Some(order[i].1);
        }
        i += 1;
    }
    proof {
        reveal_with_fuel(last_binding, 12);
    }
    found
}

/// The command of the last of the first `n` bindings on `key`.
pub open spec fn last_binding(bindings: Seq<(Key, CommandId)>, key: Key, n: int) -> Option<CommandId>
    decreases n,
{
    if n <= 0 {
        None
    } else if bindings[n - 1].0 == key {
        Some(bindings[n - 1].1)
    } else {
        last_binding(bindings, key, n - 1)
    }
}

} // verus!
