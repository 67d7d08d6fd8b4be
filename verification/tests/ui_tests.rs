use grid_combat::combat::Delay;
use grid_combat::grid::Coordinate;
use grid_combat::maps::EntityGridMap;
use grid_combat::physics::movement;
use grid_combat::physics::MoveLock;
use grid_combat::sprites::FaceDirection;
use grid_combat::sprites::Facing;
use grid_combat::state::move_lock_system;
use grid_combat::state::move_unlock_system;
use grid_combat::state::AppState;
use grid_combat::state::StatePlugin;
use grid_combat::ui::close_npc_console;
use grid_combat::ui::interact_with_npc;
use grid_combat::ui::open_npc_console;
use grid_combat::ui::push_message_events_to_console;
use grid_combat::ui::ConsoleData;
use grid_combat::ui::CurrentInteractingNPC;
use grid_combat::ui::PrintConsoleEvent;

fn facing(direction: FaceDirection) -> Facing {
    Facing { direction }
}

#[test]
fn interact_opens_console_on_npc_in_range() {
    let mut map = EntityGridMap::new();
    let player = 1;
    let npc = 2;
    map.insert((2, 1), npc);
    let npcs = vec![npc];
    let bbox = Coordinate::new(2, 2, 2, 2);
    let mut interacting = CurrentInteractingNPC(None);
    let next = interact_with_npc(
        &map,
        &npcs,
        player,
        &facing(FaceDirection::Down),
        &bbox,
        &mut interacting,
        true,
        false,
        AppState::MainGame,
    );
    assert_eq!(next, Some(AppState::ConsoleOpenedState));
    assert_eq!(interacting.0, Some(npc));
}

#[test]
fn interact_needs_press_and_main_game() {
    let mut map = EntityGridMap::new();
    let player = 1;
    let npc = 2;
    map.insert((2, 1), npc);
    let npcs = vec![npc];
    let bbox = Coordinate::new(2, 2, 2, 2);
    let mut interacting = CurrentInteractingNPC(None);
    // No press: nothing happens.
    let next = interact_with_npc(
        &map,
        &npcs,
        player,
        &facing(FaceDirection::Down),
        &bbox,
        &mut interacting,
        false,
        false,
        AppState::MainGame,
    );
    assert_eq!(next, None);
    assert_eq!(interacting.0, None);
    // Pressing outside MainGame does not open either.
    let next = interact_with_npc(
        &map,
        &npcs,
        player,
        &facing(FaceDirection::Down),
        &bbox,
        &mut interacting,
        true,
        false,
        AppState::GamePausedState,
    );
    assert_eq!(next, None);
    assert_eq!(interacting.0, None);
}

#[test]
fn interact_ignores_entities_that_are_not_npcs() {
    let mut map = EntityGridMap::new();
    let player = 1;
    let crate_entity = 5;
    map.insert((2, 1), crate_entity);
    let npcs: Vec<u64> = Vec::new();
    let bbox = Coordinate::new(2, 2, 2, 2);
    let mut interacting = CurrentInteractingNPC(None);
    let next = interact_with_npc(
        &map,
        &npcs,
        player,
        &facing(FaceDirection::Down),
        &bbox,
        &mut interacting,
        true,
        false,
        AppState::MainGame,
    );
    assert_eq!(next, None);
    assert_eq!(interacting.0, None);
}

#[test]
fn escape_requests_main_game_back() {
    let map = EntityGridMap::new();
    let npcs: Vec<u64> = Vec::new();
    let bbox = Coordinate::new(0, 0, 0, 0);
    let mut interacting = CurrentInteractingNPC(Some(9));
    let next = interact_with_npc(
        &map,
        &npcs,
        1,
        &facing(FaceDirection::Down),
        &bbox,
        &mut interacting,
        false,
        true,
        AppState::ConsoleOpenedState,
    );
    assert_eq!(next, Some(AppState::MainGame));
    // The partner reference is cleared by close_npc_console, not here.
    assert_eq!(interacting.0, Some(9));
}

#[test]
fn console_opens_for_partner_and_closes_fully() {
    let mut data = ConsoleData::new();
    let interacting = CurrentInteractingNPC(Some(3));
    open_npc_console(&interacting, 4, &mut data);
    assert!(!data.is_opening, "a different NPC's console stays closed");
    open_npc_console(&interacting, 3, &mut data);
    assert!(data.is_opening);

    data.fully_opened = true;
    let mut interacting = interacting;
    close_npc_console(&mut interacting, &mut data);
    assert!(!data.is_opening);
    assert!(!data.fully_opened);
    assert_eq!(interacting.0, None);

    // Without a partner, closing changes nothing.
    let mut idle = CurrentInteractingNPC(None);
    let mut other = ConsoleData::new();
    other.is_opening = true;
    close_npc_console(&mut idle, &mut other);
    assert!(other.is_opening);
}

#[test]
fn console_log_receives_only_its_own_lines() {
    let mut data = ConsoleData::new();
    let events = vec![
        PrintConsoleEvent { npc: 3, message: String::from("hello") },
        PrintConsoleEvent { npc: 4, message: String::from("not yours") },
        PrintConsoleEvent { npc: 3, message: String::from("goodbye") },
    ];
    push_message_events_to_console(&events, 3, &mut data);
    assert_eq!(data.messages.len(), 2);
    assert_eq!(data.messages[0], "hello");
    assert_eq!(data.messages[1], "goodbye");
}

#[test]
fn lock_systems_hold_and_release() {
    let mut lock = MoveLock(true);
    let finished = Delay::new(0);
    move_unlock_system(&mut lock, &finished);
    assert!(!lock.0);

    let mut lock = MoveLock(true);
    let running = Delay::new(1_000_000);
    move_unlock_system(&mut lock, &running);
    assert!(lock.0);

    let mut lock = MoveLock(false);
    move_lock_system(&mut lock);
    assert!(lock.0);
}

#[test]
fn state_plugin_step_follows_app_state() {
    let running = Delay::new(1_000_000);
    let finished = Delay::new(0);

    let mut lock = MoveLock(true);
    StatePlugin::step(&mut lock, &finished, AppState::MainGame, false);
    assert!(!lock.0);

    let mut lock = MoveLock(true);
    StatePlugin::step(&mut lock, &running, AppState::MainGame, false);
    assert!(lock.0);

    let mut lock = MoveLock(false);
    StatePlugin::step(&mut lock, &finished, AppState::ConsoleOpenedState, true);
    assert!(lock.0, "leaving the game holds the lock");

    let mut lock = MoveLock(true);
    StatePlugin::step(&mut lock, &finished, AppState::ConsoleOpenedState, false);
    assert!(lock.0, "outside MainGame the lock stays as it is");
}

#[test]
fn movement_obeys_the_lock() {
    let unlocked = MoveLock(false);
    let locked = MoveLock(true);
    assert_eq!(movement(&unlocked, true, false, false, false), (100, 0));
    assert_eq!(movement(&unlocked, false, true, true, false), (-100, 100));
    assert_eq!(movement(&unlocked, true, true, false, true), (0, -100));
    assert_eq!(movement(&locked, true, false, true, false), (0, 0));
}
