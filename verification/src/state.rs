//! Top-level application state and the systems that hold or release the
//! movement lock around it.

use vstd::prelude::*;

use crate::combat::Delay;
use crate::physics::MoveLock;

verus! {

/// Which top-level mode the game is in; combat and movement run only in
/// `MainGame`, the dialogue console owns `ConsoleOpenedState`.
#[derive(Clone, Copy, Debug, PartialEq, Eq, Hash, Structural)]
pub enum AppState {
    MainGame,
    ConsoleOpenedState,
    GamePausedState,
    MainMenu,
    ControlMenu,
}

impl Default for AppState {
    fn default() -> (r: AppState)
        ensures
            r == AppState::MainGame,
    {
        AppState::MainGame
    }
}

/// The application-state subsystem: applies the movement-lock rules
/// that follow the current top-level state each tick.
pub struct StatePlugin;

impl StatePlugin {
    /// One tick of lock upkeep: while the game runs, a finished
    /// recovery timer releases the lock; the instant the game leaves
    /// `MainGame`, the lock is held instead.
    pub fn step(move_lock: &mut MoveLock, delay: &Delay, app_state: AppState, leaving_main_game: bool)
        ensures
            leaving_main_game ==> final(move_lock).0 == true,
            !leaving_main_game && app_state == AppState::MainGame ==> final(move_lock).0 == (old(
                move_lock,
            ).0 && !delay.spec_finished()),
            !leaving_main_game && app_state != AppState::MainGame ==> *final(move_lock) == *old(
                move_lock,
            ),
    {
        if leaving_main_game {
            move_lock_system(move_lock);
        } else if matches!(app_state, AppState::MainGame) {
            move_unlock_system(move_lock, delay);
        }
    }
}

/// Holds the movement lock; run when the game leaves `MainGame`, so a
/// fighter cannot move while a menu or the console is open.
pub fn move_lock_system(move_lock: &mut MoveLock)
    ensures
        final(move_lock).0 == true,
{
    move_lock.0 = true;
}

/// Releases the movement lock once the recovery timer has finished: the
/// lock opens on exactly the tick whose accumulated time reaches the
/// timer's duration, and never earlier.
pub fn move_unlock_system(move_lock: &mut MoveLock, delay: &Delay)
    ensures
        final(move_lock).0 == (old(move_lock).0 && !delay.spec_finished()),
{
    if delay.finished() && move_lock.0 {
        move_lock.0 = false;
    }
}

} // verus!
