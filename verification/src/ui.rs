//! The NPC dialogue console's game-facing state: who the player is
//! talking to, the per-NPC console record, and the decisions that open
//! and close a conversation.  Text rendering, keyboard capture and the
//! language-model call live outside this crate.

use vstd::prelude::*;

use crate::grid::Coordinate;
use crate::combat::in_probe_strip;
use crate::maps::EntityGridMap;
use crate::maps::contains_entity;
use crate::combat::find_entities_in_range;
use crate::sprites::FaceDirection;
use crate::sprites::Facing;
use crate::state::AppState;

verus! {

/// The NPC the player is currently talking to, if any.
#[derive(Clone, Copy, Debug, PartialEq, Eq, Structural)]
pub struct CurrentInteractingNPC(pub Option<u64>);

impl Default for CurrentInteractingNPC {
    fn default() -> (r: CurrentInteractingNPC)
        ensures
            r == CurrentInteractingNPC(None),
    {
        CurrentInteractingNPC(None)
    }
}

/// Per-NPC console record: what the player has typed so far, whether the
/// console is open, and the conversation log.
pub struct ConsoleData {
    pub typed_command: String,
    pub is_opening: bool,
    pub fully_opened: bool,
    pub messages: Vec<String>,
}

impl ConsoleData {
    /// A closed console with an empty log.
    pub fn new() -> (r: ConsoleData)
        ensures
            r.typed_command@ == Seq::<char>::empty(),
            r.is_opening == false,
            r.fully_opened == false,
            r.messages@ == Seq::<String>::empty(),
    {
        ConsoleData {
            typed_command: String::new(),
            is_opening: false,
            fully_opened: false,
            messages: Vec::new(),
        }
    }
}

/// A line destined for one NPC's console log.
pub struct PrintConsoleEvent {
    pub npc: u64,
    pub message: String,
}

/// An NPC the player's interaction probe can reach: tagged as NPC,
/// not the player itself, and occupying a cell of the probe strip.
pub open spec fn npc_in_interact_range(
    entity_map: EntityGridMap,
    npcs: Seq<u64>,
    facing: FaceDirection,
    c: Coordinate,
    player: u64,
    f: u64,
) -> bool {
    npcs.contains(f) && f != player && exists|x: int, y: int| #[trigger]
        entity_map.occupies_cell(x, y, f) && in_probe_strip(facing, c, x, y)
}

/// One frame of the interaction state machine.  In `MainGame`, pressing
/// interact while an NPC stands in the player's probe strip records that
/// NPC as the conversation partner and requests the console-opened
/// state.  In `ConsoleOpenedState`, pressing escape requests `MainGame`
/// back; the recorded partner is cleared later by `close_npc_console`.
pub fn interact_with_npc(
    entity_map: &EntityGridMap,
    npcs: &Vec<u64>,
    player_entity: u64,
    facing: &Facing,
    coordinate: &Coordinate,
    interacting_npc: &mut CurrentInteractingNPC,
    interact_pressed: bool,
    escape_pressed: bool,
    app_state: AppState,
) -> (next_state: Option<AppState>)
    requires
        entity_map.wf(),
        coordinate.bounded(),
    ensures
        ({
            let opened = interact_pressed && app_state == AppState::MainGame && exists|f: u64|
                #[trigger] npc_in_interact_range(
                    *entity_map,
                    npcs@,
                    facing.direction,
                    *coordinate,
                    player_entity,
                    f,
                );
            &&& next_state == if opened {
                Some(AppState::ConsoleOpenedState)
            } else if app_state == AppState::ConsoleOpenedState && escape_pressed {
                Some(AppState::MainGame)
            } else {
                None::<AppState>
            }
            &&& opened ==> final(interacting_npc).0 is Some && npc_in_interact_range(
                *entity_map,
                npcs@,
                facing.direction,
                *coordinate,
                player_entity,
                final(interacting_npc).0->Some_0,
            )
            &&& !opened ==> *final(interacting_npc) == *old(interacting_npc)
        }),
{
    let candidates = find_entities_in_range(entity_map, facing, coordinate, player_entity);
    let mut chosen: Option<u64> = None;
    let mut i: usize = 0;
    while i < candidates.len()
        invariant
            i <= candidates@.len(),
            chosen is None ==> forall|j: int|
                0 <= j < i ==> !npcs@.contains(#[trigger] candidates@[j]),
            chosen is Some ==> candidates@.contains(chosen->Some_0) && npcs@.contains(
                chosen->Some_0,
            ),
        decreases candidates@.len() - i,
    {
        if chosen.is_none() && contains_entity(npcs, candidates[i]) {
            chosen = Some(candidates[i]);
            proof {
                assert(candidates@.contains(candidates@[i as int]));
            }
        }
        i += 1;
    }
    proof {
        assert(chosen is Some <==> exists|f: u64| #[trigger] npc_in_interact_range(
            *entity_map,
            npcs@,
            facing.direction,
            *coordinate,
            player_entity,
            f,
        )) by {
            if chosen is Some {
                let n = chosen->Some_0;
                assert(candidates@.contains(n));
                let (x, y) = choose|x: int, y: int| #[trigger]
                    entity_map.occupies_cell(x, y, n) && in_probe_strip(
                        facing.direction,
                        *coordinate,
                        x,
                        y,
                    );
                assert(npc_in_interact_range(
                    *entity_map,
                    npcs@,
                    facing.direction,
                    *coordinate,
                    player_entity,
                    n,
                ));
            } else {
                if exists|f: u64| #[trigger] npc_in_interact_range(
                    *entity_map,
                    npcs@,
                    facing.direction,
                    *coordinate,
                    player_entity,
                    f,
                ) {
                    let f = choose|f: u64| #[trigger] npc_in_interact_range(
                        *entity_map,
                        npcs@,
                        facing.direction,
                        *coordinate,
                        player_entity,
                        f,
                    );
                    assert(candidates@.contains(f));
                    let j = choose|j: int| 0 <= j < candidates@.len() && candidates@[j] == f;
                    assert(!npcs@.contains(candidates@[j]));
                }
            }
        }
    }
    if interact_pressed && matches!(app_state, AppState::MainGame) {
        if let Some(npc_entity) = chosen {
            interacting_npc.0 = Some(npc_entity);
            proof {
                let n = npc_entity;
                assert(candidates@.contains(n));
                let (x, y) = choose|x: int, y: int| #[trigger]
                    entity_map.occupies_cell(x, y, n) && in_probe_strip(
                        facing.direction,
                        *coordinate,
                        x,
                        y,
                    );
            }
            return Some(AppState::ConsoleOpenedState);
        }
    }
    if matches!(app_state, AppState::ConsoleOpenedState) && escape_pressed {
        return Some(AppState::MainGame);
    }
    None
}

/// Marks the conversation partner's console as opening; consoles of
/// other NPCs are left alone.
pub fn open_npc_console(interacting_npc: &CurrentInteractingNPC, npc: u64, data: &mut ConsoleData)
    ensures
        interacting_npc.0 == Some(npc) ==> final(data).is_opening == true,
        interacting_npc.0 != Some(npc) ==> final(data).is_opening == old(data).is_opening,
        final(data).fully_opened == old(data).fully_opened,
        final(data).typed_command == old(data).typed_command,
        final(data).messages == old(data).messages,
{
    let matches_npc = match interacting_npc.0 {
        Some(current) => current == npc,
        None => false,
    };
    if matches_npc {
        data.is_opening = true;
    }
}

/// Ends the current conversation: the partner's console is no longer
/// open nor opening, and the partner reference is cleared.  Without a
/// partner nothing happens.
pub fn close_npc_console(interacting_npc: &mut CurrentInteractingNPC, data: &mut ConsoleData)
    ensures
        (old(interacting_npc).0 is Some) ==> {
            &&& final(data).is_opening == false
            &&& final(data).fully_opened == false
            &&& final(interacting_npc).0 is None
        },
        (old(interacting_npc).0 is None) ==> {
            &&& *final(data) == *old(data)
            &&& *final(interacting_npc) == *old(interacting_npc)
        },
        final(data).typed_command == old(data).typed_command,
        final(data).messages == old(data).messages,
{
    if interacting_npc.0.is_some() {
        data.fully_opened = false;
        data.is_opening = false;
        interacting_npc.0 = None;
    }
}

/// The text of each log line, as a sequence of character sequences.
pub open spec fn log_views(messages: Seq<String>) -> Seq<Seq<char>> {
    messages.map_values(|m: String| m@)
}

/// The text of the lines among `events` addressed to `npc`, in order.
pub open spec fn lines_for(events: Seq<PrintConsoleEvent>, npc: u64) -> Seq<Seq<char>> {
    events.filter(|e: PrintConsoleEvent| e.npc == npc).map_values(
        |e: PrintConsoleEvent| e.message@,
    )
}

/// Appends to one NPC's log every pending console line addressed to it,
/// in arrival order; lines for other NPCs leave it untouched.
pub fn push_message_events_to_console(
    events: &Vec<PrintConsoleEvent>,
    npc: u64,
    data: &mut ConsoleData,
)
    ensures
        final(data).typed_command == old(data).typed_command,
        final(data).is_opening == old(data).is_opening,
        final(data).fully_opened == old(data).fully_opened,
        log_views(final(data).messages@) == log_views(old(data).messages@) + lines_for(
            events@,
            npc,
        ),
{
    let mut j: usize = 0;
    while j < events.len()
        invariant
            j <= events@.len(),
            data.typed_command == old(data).typed_command,
            data.is_opening == old(data).is_opening,
            data.fully_opened == old(data).fully_opened,
            log_views(data.messages@) == log_views(old(data).messages@) + lines_for(
                events@.take(j as int),
                npc,
            ),
        decreases events@.len() - j,
    {
        let ghost taken = events@.take(j as int);
        let ghost pred = |e: PrintConsoleEvent| e.npc == npc;
        proof {
            assert(events@.take(j + 1) == taken.push(events@[j as int]));
            taken.lemma_filter_push(events@[j as int], pred);
        }
        if events[j].npc == npc {
            let line = events[j].message.clone();
            let ghost prevm = data.messages@;
            data.messages.push(line);
            proof {
                assert(log_views(data.messages@) == log_views(prevm).push(line@));
                assert(lines_for(events@.take(j + 1), npc) == lines_for(taken, npc).push(
                    events@[j as int].message@,
                )) by {
                    assert(taken.push(events@[j as int]).filter(pred) == taken.filter(pred).push(
                        events@[j as int],
                    ));
                    assert(taken.filter(pred).push(events@[j as int]).map_values(
                        |e: PrintConsoleEvent| e.message@,
                    ) == taken.filter(pred).map_values(|e: PrintConsoleEvent| e.message@).push(
                        events@[j as int].message@,
                    ));
                }
                assert(log_views(data.messages@) == log_views(old(data).messages@) + lines_for(
                    events@.take(j + 1),
                    npc,
                ));
            }
        } else {
            proof {
                assert(lines_for(events@.take(j + 1), npc) == lines_for(taken, npc)) by {
                    assert(taken.push(events@[j as int]).filter(pred) == taken.filter(pred));
                }
            }
        }
        j += 1;
    }
    proof {
        assert(events@.take(events@.len() as int) == events@);
    }
}

} // verus!
