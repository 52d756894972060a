use vstd::prelude::*;
use crate::components::EntityId;

verus! {

/// The turn controller's states.
#[derive(Clone, Copy, Debug, PartialEq, Eq, Structural)]
pub enum RunState {
    AwaitingInput,
    PreRun,
    PlayerTurn,
    MonsterTurn,
    ShowInventory,
    ShowDropItem,
}

/// A recognised key press, already translated.
#[derive(Clone, Copy, Debug, PartialEq, Eq, Structural)]
pub enum Command {
    /// Move (or attack) one tile in a direction.
    Move { delta_x: i32, delta_y: i32 },
    /// Pick up the item under the player.
    PickUp,
    /// Open the inventory to drink from it.
    OpenInventory,
    /// Open the inventory to drop from it.
    OpenDrop,
}

/// What an item menu answered this tick.
#[derive(Clone, Copy, Debug, PartialEq, Eq, Structural)]
pub enum MenuResult {
    Cancel,
    NoResponse,
    Selected(EntityId),
}

/// The work the controller asks for this tick.
#[derive(Clone, Copy, Debug, PartialEq, Eq, Structural)]
pub enum TurnAction {
    /// Nothing to do.
    Wait,
    /// Run the system pipeline once.
    RunSystems,
    /// Carry out the player's command.
    Perform(Command),
    /// Queue the player's intent to drink this potion.
    Drink(EntityId),
    /// Queue the player's intent to drop this item.
    Drop(EntityId),
}

/// The state a key press leads to while awaiting input.
pub open spec fn spec_player_input(key: Option<Command>) -> RunState {
    match key {
        None => RunState::AwaitingInput,
        Some(Command::OpenInventory) => RunState::ShowInventory,
        Some(Command::OpenDrop) => RunState::ShowDropItem,
        Some(_) => RunState::PlayerTurn,
    }
}

/// The transition table: the pipeline states run the systems and move on in turn;
/// awaiting input waits without a key, hands the turn to the player on a move or a
/// pickup, and opens a menu on a menu key; a menu waits without an answer, goes
/// back on cancel, and queues the chosen item's intent on a selection.
pub open spec fn spec_next_state(state: RunState, key: Option<Command>, menu: MenuResult) -> (RunState, TurnAction) {
    match state {
        RunState::PreRun => (RunState::AwaitingInput, TurnAction::RunSystems),
        RunState::PlayerTurn => (RunState::MonsterTurn, TurnAction::RunSystems),
        RunState::MonsterTurn => (RunState::AwaitingInput, TurnAction::RunSystems),
        RunState::AwaitingInput => match key {
            Some(Command::Move { delta_x, delta_y }) => (
                RunState::PlayerTurn,
                TurnAction::Perform(Command::Move { delta_x, delta_y }),
            ),
            Some(Command::PickUp) => (RunState::PlayerTurn, TurnAction::Perform(Command::PickUp)),
            _ => (spec_player_input(key), TurnAction::Wait),
        },
        RunState::ShowInventory => match menu {
            MenuResult::Cancel => (RunState::AwaitingInput, TurnAction::Wait),
            MenuResult::NoResponse => (RunState::ShowInventory, TurnAction::Wait),
            MenuResult::Selected(item) => (RunState::PlayerTurn, TurnAction::Drink(item)),
        },
        RunState::ShowDropItem => match menu {
            MenuResult::Cancel => (RunState::AwaitingInput, TurnAction::Wait),
            MenuResult::NoResponse => (RunState::ShowDropItem, TurnAction::Wait),
            MenuResult::Selected(item) => (RunState::PlayerTurn, TurnAction::Drop(item)),
        },
    }
}

/// The state that a key press leads to while awaiting input: no key waits on, a
/// menu key opens its menu, and any other command hands the turn to the player.
pub fn player_input(key: Option<Command>) -> (r: RunState)
    ensures
        r == spec_player_input(key),
{
    match key {
        None => RunState::AwaitingInput,
        Some(Command::OpenInventory) => RunState::ShowInventory,
        Some(Command::OpenDrop) => RunState::ShowDropItem,
        Some(_) => RunState::PlayerTurn,
    }
}

/// One tick of the turn controller: from the current state, the key pressed (if
/// any) and the open menu's answer, the next state and the work to do now.
pub fn next_state(state: RunState, key: Option<Command>, menu: MenuResult) -> (r: (RunState, TurnAction))
    ensures
        r == spec_next_state(state, key, menu),
{
    match state {
        RunState::PreRun => (RunState::AwaitingInput, TurnAction::RunSystems),
        RunState::PlayerTurn => (RunState::MonsterTurn, TurnAction::RunSystems),
        RunState::MonsterTurn => (RunState::AwaitingInput, TurnAction::RunSystems),
        RunState::AwaitingInput => {
            let next = player_input(key);
            match key {
                Some(Command::Move { delta_x, delta_y }) => (next, TurnAction::Perform(Command::Move { delta_x, delta_y })),
                Some(Command::PickUp) => (next, TurnAction::Perform(Command::PickUp)),
                _ => (next, TurnAction::Wait),
            }
        },
        RunState::ShowInventory => match menu {
            MenuResult::Cancel => (RunState::AwaitingInput, TurnAction::Wait),
            MenuResult::NoResponse => (RunState::ShowInventory, TurnAction::Wait),
            MenuResult::Selected(item) => (RunState::PlayerTurn, TurnAction::Drink(item)),
        },
        RunState::ShowDropItem => match menu {
            MenuResult::Cancel => (RunState::AwaitingInput, TurnAction::Wait),
            MenuResult::NoResponse => (RunState::ShowDropItem, TurnAction::Wait),
            MenuResult::Selected(item) => (RunState::PlayerTurn, TurnAction::Drop(item)),
        },
    }
}

} // verus!
