use grid_combat::combat::collect_hit;
use grid_combat::combat::deactivate_attack;
use grid_combat::combat::find_entities_in_range;
use grid_combat::combat::melee_attack;
use grid_combat::combat::melee_attack_system;
use grid_combat::combat::probe_cells;
use grid_combat::combat::projectile_attack_system;
use grid_combat::combat::filter_repeat_hits;
use grid_combat::combat::resolve_attacker_hits;
use grid_combat::combat::HitPolicy;
use grid_combat::combat::InvariantViolation;
use grid_combat::combat::Attack;
use grid_combat::combat::CombatPlugin;
use grid_combat::combat::DamageEvent;
use grid_combat::combat::Delay;
use grid_combat::combat::UnitState;
use grid_combat::combat::Visibility;
use grid_combat::combat::ATTACK_RECOVERY_MICROS;
use grid_combat::combat::MELEE_DAMAGE;
use grid_combat::combat::MELEE_HITSTUN_MICROS;
use grid_combat::grid::Coordinate;
use grid_combat::maps::EntityGridMap;
use grid_combat::physics::MoveLock;
use grid_combat::physics::Vec2i;
use grid_combat::sprites::AnimationIndices;
use grid_combat::sprites::AnimationState;
use grid_combat::sprites::FaceDirection;
use grid_combat::sprites::Facing;
use grid_combat::state::move_unlock_system;

fn facing(direction: FaceDirection) -> Facing {
    Facing { direction }
}

#[test]
fn directional_probe_determinism() {
    let bbox = Coordinate::new(2, 2, 4, 4);
    let r = probe_cells(&facing(FaceDirection::Down), &bbox);
    assert_eq!(r, ((2, 4), (1, 1)));
}

#[test]
fn directional_probe_all_sides() {
    let bbox = Coordinate::new(2, 2, 4, 4);
    assert_eq!(probe_cells(&facing(FaceDirection::Up), &bbox), ((2, 4), (5, 5)));
    assert_eq!(probe_cells(&facing(FaceDirection::Left), &bbox), ((1, 1), (2, 4)));
    assert_eq!(probe_cells(&facing(FaceDirection::Right), &bbox), ((5, 5), (2, 4)));
}

#[test]
fn range_query_excludes_self() {
    let mut map = EntityGridMap::new();
    let attacker = 1;
    let target = 2;
    // The attacker somehow occupies the very cell its probe reaches into,
    // next to the actual target.
    map.insert((2, 1), attacker);
    map.insert((2, 1), target);
    let bbox = Coordinate::new(2, 2, 2, 2);
    let found = find_entities_in_range(&map, &facing(FaceDirection::Down), &bbox, attacker);
    assert_eq!(found.as_slice(), &[target]);
}

#[test]
fn range_query_deduplicates_across_cells() {
    let mut map = EntityGridMap::new();
    let attacker = 1;
    let wide = 3;
    map.insert((2, 1), wide);
    map.insert((3, 1), wide);
    map.insert((4, 1), wide);
    let bbox = Coordinate::new(2, 2, 4, 4);
    let found = find_entities_in_range(&map, &facing(FaceDirection::Down), &bbox, attacker);
    assert_eq!(found.as_slice(), &[wide]);
}

#[test]
fn melee_hit_registers_damage() {
    let mut map = EntityGridMap::new();
    let attacker = 10;
    let target = 20;
    map.insert((2, 1), target);
    let bbox = Coordinate::new(2, 2, 2, 2);
    let attack = Attack {
        damage: MELEE_DAMAGE,
        pushback: Vec2i { x: 0, y: 0 },
        hitstun_duration: MELEE_HITSTUN_MICROS,
    };
    let events = melee_attack_system(&map, attacker, &facing(FaceDirection::Down), &bbox, &attack);
    assert_eq!(events.len(), 1);
    assert_eq!(events[0].damaged_entity, target);
    assert_eq!(events[0].damaging_entity, attacker);
    assert_eq!(events[0].damage, MELEE_DAMAGE);
}

#[test]
fn melee_misses_when_facing_away() {
    let mut map = EntityGridMap::new();
    let attacker = 10;
    let target = 20;
    map.insert((2, 1), target);
    let bbox = Coordinate::new(2, 2, 2, 2);
    let attack = Attack {
        damage: 1,
        pushback: Vec2i { x: 0, y: 0 },
        hitstun_duration: 0,
    };
    let events = melee_attack_system(&map, attacker, &facing(FaceDirection::Up), &bbox, &attack);
    assert!(events.is_empty());
}

#[test]
fn attack_spawns_only_while_unlocked() {
    let mut indices = AnimationIndices::default();
    let mut move_lock = MoveLock(false);
    let mut delay = Delay::default();
    let spawned = melee_attack(&mut indices, &mut move_lock, &mut delay, true, 16_667);
    assert!(spawned.is_some());
    assert!(move_lock.0);
    assert_eq!(indices.animation_state, AnimationState::Attack);
    assert_eq!(delay.duration, ATTACK_RECOVERY_MICROS);
    assert_eq!(delay.elapsed, 0);
    // Locked now: pressing again spawns nothing.
    let again = melee_attack(&mut indices, &mut move_lock, &mut delay, true, 16_667);
    assert!(again.is_none());
}

#[test]
fn attack_lifecycle_timing() {
    // Recovery delay of 1.0 s with a fixed tick of 1/60 s: the lock opens
    // exactly on the tick where the accumulated time reaches 1.0 s.
    let tick: u64 = 16_667; // microseconds, 1/60 s rounded up
    let mut indices = AnimationIndices::default();
    let mut move_lock = MoveLock(false);
    let mut delay = Delay::default();
    let spawned = melee_attack(&mut indices, &mut move_lock, &mut delay, true, tick);
    let mut attack = spawned;
    assert!(attack.is_some());

    let mut accumulated: u64 = 0;
    let mut unlock_tick = 0;
    for frame in 1..=70 {
        accumulated += tick;
        deactivate_attack(&mut delay, &mut attack, tick);
        move_unlock_system(&mut move_lock, &delay);
        if accumulated < ATTACK_RECOVERY_MICROS {
            assert!(move_lock.0, "lock opened early on frame {}", frame);
            assert!(attack.is_some());
        } else if unlock_tick == 0 {
            unlock_tick = frame;
            assert!(!move_lock.0, "lock should open once the delay is reached");
            assert!(attack.is_none(), "the attack instance should be destroyed");
        }
    }
    // 59 * 16667 = 983,353 < 1,000,000 <= 60 * 16667.
    assert_eq!(unlock_tick, 60);
}

#[test]
fn projectile_hits_the_other_side_of_a_collision() {
    let attack = Attack {
        damage: 2,
        pushback: Vec2i { x: 1, y: 0 },
        hitstun_duration: 5,
    };
    let hit = projectile_attack_system((7, 8), 7, &attack).expect("owner is one side");
    assert_eq!(hit.damaged_entity, 8);
    assert_eq!(hit.damaging_entity, 7);
    assert_eq!(hit.damage, 2);
    let hit = projectile_attack_system((8, 7), 7, &attack).expect("owner is the other side");
    assert_eq!(hit.damaged_entity, 8);
    assert!(projectile_attack_system((8, 9), 7, &attack).is_none());
}

#[test]
fn hit_policy_decides_repeat_damage() {
    let hit = |target: u64| DamageEvent {
        damage_velocity: Vec2i { x: 0, y: 0 },
        damaging_entity: 1,
        damaged_entity: target,
        damage: 1,
        hitstun_duration: 0,
    };
    // Two resolution ticks of the same swing against the same target.
    let mut swing_memory: Vec<u64> = Vec::new();
    let first = filter_repeat_hits(
        vec![hit(5), hit(6)],
        HitPolicy::SingleHitPerSwing,
        &mut swing_memory,
    );
    assert_eq!(first.len(), 2);
    let second = filter_repeat_hits(
        vec![hit(5), hit(7)],
        HitPolicy::SingleHitPerSwing,
        &mut swing_memory,
    );
    assert_eq!(second.len(), 1, "target 5 was already hit this swing");
    assert_eq!(second[0].damaged_entity, 7);

    // The continuous policy lets every tick's hits through, untracked.
    let mut untouched: Vec<u64> = Vec::new();
    let ticks = filter_repeat_hits(
        vec![hit(5)],
        HitPolicy::ContinuousWhileOverlapping,
        &mut untouched,
    );
    assert_eq!(ticks.len(), 1);
    let again = filter_repeat_hits(
        vec![hit(5)],
        HitPolicy::ContinuousWhileOverlapping,
        &mut untouched,
    );
    assert_eq!(again.len(), 1);
    assert!(untouched.is_empty());
}

#[test]
fn half_built_attacker_is_skipped_not_fatal() {
    let mut map = EntityGridMap::new();
    let attacker = 10;
    let target = 20;
    map.insert((2, 1), target);
    let bbox = Coordinate::new(2, 2, 2, 2);
    let down = facing(FaceDirection::Down);
    let attack = Attack {
        damage: 1,
        pushback: Vec2i { x: 0, y: 0 },
        hitstun_duration: 0,
    };
    assert_eq!(
        resolve_attacker_hits(&map, attacker, None, Some(&bbox), &attack),
        Err(InvariantViolation::MissingFacing)
    );
    assert_eq!(
        resolve_attacker_hits(&map, attacker, Some(&down), None, &attack),
        Err(InvariantViolation::MissingCoordinate)
    );
    let events =
        resolve_attacker_hits(&map, attacker, Some(&down), Some(&bbox), &attack).expect("complete");
    assert_eq!(events.len(), 1);
    assert_eq!(events[0].damaged_entity, target);
}

#[test]
fn collect_hit_hides_damaged_units() {
    let mut units = vec![
        UnitState { entity: 1, visibility: Visibility::Visible },
        UnitState { entity: 2, visibility: Visibility::Visible },
        UnitState { entity: 3, visibility: Visibility::Hidden },
    ];
    let events = vec![DamageEvent {
        damage_velocity: Vec2i { x: 0, y: 0 },
        damaging_entity: 9,
        damaged_entity: 2,
        damage: 1,
        hitstun_duration: 0,
    }];
    collect_hit(&events, &mut units);
    assert_eq!(units[0].visibility, Visibility::Visible);
    assert_eq!(units[1].visibility, Visibility::Hidden);
    assert_eq!(units[2].visibility, Visibility::Hidden);
    // Hiding an already hidden unit is harmless.
    collect_hit(&events, &mut units);
    assert_eq!(units[1].visibility, Visibility::Hidden);
}

#[test]
fn combat_step_hits_strip_target_once_per_tick() {
    let mut map = EntityGridMap::new();
    let attacker = 1;
    let target = 2;
    let far = 3;
    map.insert((2, 1), target);
    map.insert((9, 9), far);
    let bbox = Coordinate::new(2, 2, 2, 2);
    let mut indices = AnimationIndices::default();
    let mut move_lock = MoveLock(false);
    let mut delay = Delay::default();
    let mut attack: Option<Attack> = None;
    let mut units = vec![
        UnitState { entity: target, visibility: Visibility::Visible },
        UnitState { entity: far, visibility: Visibility::Visible },
    ];
    let events = CombatPlugin::step(
        &map,
        attacker,
        &facing(FaceDirection::Down),
        &bbox,
        &mut indices,
        &mut move_lock,
        &mut delay,
        &mut attack,
        &mut units,
        true,
        16_667,
    );
    assert_eq!(events.len(), 1);
    assert_eq!(events[0].damaged_entity, target);
    assert_eq!(units[0].visibility, Visibility::Hidden);
    assert_eq!(units[1].visibility, Visibility::Visible);
    assert!(move_lock.0);
    assert!(attack.is_some());
}
