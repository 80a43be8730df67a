use d2fps::tracker::{EntityKind, EntityTracker, FixedI16, FixedU16, LinearPos, Position, UnitId};

fn at(x: u32, y: u32) -> LinearPos<FixedU16> {
    LinearPos::new(FixedU16::from_repr(x), FixedU16::from_repr(y))
}

#[test]
fn test_entity_tracker() {
    let mut tracker = EntityTracker::new();
    tracker.insert_or_update(
        UnitId { kind: EntityKind::pc(), id: 0 },
        LinearPos::new(FixedU16::default(), FixedU16::default()),
        LinearPos::new(0, 0),
    );
    tracker.clear_unused();
    assert!(tracker.get(UnitId::new(EntityKind::pc(), 0)).is_some());
    tracker.clear_unused();
    assert!(tracker.get(UnitId::new(EntityKind::pc(), 0)).is_none());
}

#[test]
fn new_unit_is_fresh() {
    let mut t = EntityTracker::new();
    let id = UnitId::new(EntityKind::npc(), 77);
    t.insert_or_update(id, at(0x50000, 0x60000), LinearPos::new(9, 9));
    let p = *t.get(id).unwrap();
    assert_eq!(p.real, at(0x50000, 0x60000));
    assert_eq!(p.last_rendered, at(0x50000, 0x60000));
    assert_eq!(p.delta.x.repr(), 0);
    assert_eq!(p.delta.y.repr(), 0);
    assert!(t.get(UnitId::new(EntityKind::pc(), 77)).is_none());
}

#[test]
fn update_moves_and_clamps_at_target() {
    let mut t = EntityTracker::new();
    let id = UnitId::new(EntityKind::pc(), 5);
    t.insert_or_update(id, at(0x10_0000, 0x10_0000), LinearPos::new(0x20, 0x10));
    // x moves 0x1_0000 towards tile 0x20, whose centre is far ahead: kept.
    // y moves 0x6000 towards the centre of tile 0x10, 0x2000 ahead: cut.
    t.insert_or_update(id, at(0x11_0000, 0x10_6000), LinearPos::new(0x20, 0x10));
    let p = *t.get(id).unwrap();
    assert_eq!(p.delta.x.repr(), 0x1_0000);
    assert_eq!(p.delta.y.repr(), 0x2000);
    assert_eq!(p.real, at(0x11_0000, 0x10_6000));
    // Steps that stop short of the target centre are kept as they are.
    t.insert_or_update(id, at(0x11_4000, 0x10_0000), LinearPos::new(0x10, 0x0F));
    let p = *t.get(id).unwrap();
    assert_eq!(p.delta.x.repr(), 0x4000);
    assert_eq!(p.delta.y.repr(), -0x6000);
    // y moves down by 0x6000 with the target centre 0x2000 below: cut.
    t.insert_or_update(id, at(0x11_4000, 0x0F_A000), LinearPos::new(0x10, 0x0F));
    let p = *t.get(id).unwrap();
    assert_eq!(p.delta.x.repr(), 0);
    assert_eq!(p.delta.y.repr(), -0x2000);
}

#[test]
fn for_time_interpolates_and_records() {
    let mut p = Position {
        real: at(0x10_0000, 0x10_0000),
        delta: LinearPos::new(FixedI16::from_repr(0x1_0000), FixedI16::from_repr(-0x2_0000)),
        last_rendered: at(0, 0),
    };
    // Half way back along the movement.
    let r = p.for_time(FixedI16::from_repr(-0x8000));
    assert_eq!(r, at(0x10_0000 - 0x8000, 0x10_0000 + 0x1_0000));
    assert_eq!(p.last_rendered, r);
    // Rounding is towards minus infinity.
    let mut q = Position { real: at(0, 0), delta: LinearPos::new(FixedI16::from_repr(1), FixedI16::from_repr(-1)), last_rendered: at(0, 0) };
    let r = q.for_time(FixedI16::from_repr(0x8000));
    assert_eq!(r.x.repr(), 0);
    assert_eq!(r.y.repr(), u32::MAX);
}

#[test]
fn colliding_units_are_all_found() {
    let mut t = EntityTracker::new();
    // Ids 0, 2048 and 4096 of the same kind share a home slot.
    for k in 0..3u32 {
        t.insert_or_update(UnitId::new(EntityKind::pc(), k * 2048), at(k, k), LinearPos::new(0, 0));
    }
    // One homed at the next slot gets pushed along.
    t.insert_or_update(UnitId::new(EntityKind::pc(), 1), at(9, 9), LinearPos::new(0, 0));
    for k in 0..3u32 {
        assert_eq!(t.get(UnitId::new(EntityKind::pc(), k * 2048)).unwrap().real, at(k, k));
    }
    assert_eq!(t.get(UnitId::new(EntityKind::pc(), 1)).unwrap().real, at(9, 9));
    assert!(t.get(UnitId::new(EntityKind::pc(), 3 * 2048)).is_none());
}

#[test]
fn clear_drops_unmarked_and_keeps_marked() {
    let mut t = EntityTracker::new();
    let a = UnitId::new(EntityKind::npc(), 10);
    let b = UnitId::new(EntityKind::npc(), 11);
    t.insert_or_update(a, at(1, 1), LinearPos::new(0, 0));
    t.insert_or_update(b, at(2, 2), LinearPos::new(0, 0));
    t.clear_unused();
    t.insert_or_update(b, at(3, 3), LinearPos::new(0, 0));
    t.clear_unused();
    assert!(t.get(a).is_none());
    assert_eq!(t.get(b).unwrap().real, at(3, 3));
}

#[test]
fn compaction_moves_survivors_home() {
    let mut t = EntityTracker::new();
    let ids: Vec<UnitId> = (0..4u32).map(|k| UnitId::new(EntityKind::missile(), 100 + k * 2048)).collect();
    for (n, id) in ids.iter().enumerate() {
        t.insert_or_update(*id, at(n as u32, 0), LinearPos::new(0, 0));
    }
    t.clear_unused();
    // Only the last two are updated; they move back over the first two.
    t.insert_or_update(ids[2], at(20, 0), LinearPos::new(0, 0));
    t.insert_or_update(ids[3], at(30, 0), LinearPos::new(0, 0));
    t.clear_unused();
    assert!(t.get(ids[0]).is_none());
    assert!(t.get(ids[1]).is_none());
    assert_eq!(t.get(ids[2]).unwrap().real, at(20, 0));
    assert_eq!(t.get(ids[3]).unwrap().real, at(30, 0));
    // They are still found after a further insertion at the same home.
    let e = UnitId::new(EntityKind::missile(), 100 + 9 * 2048);
    t.insert_or_update(e, at(90, 0), LinearPos::new(0, 0));
    assert_eq!(t.get(ids[3]).unwrap().real, at(30, 0));
    assert_eq!(t.get(e).unwrap().real, at(90, 0));
}

#[test]
fn get_allows_changes_in_place() {
    let mut t = EntityTracker::new();
    let id = UnitId::new(EntityKind::pc(), 1);
    t.insert_or_update(id, at(4, 4), LinearPos::new(0, 0));
    t.get(id).unwrap().last_rendered = at(7, 7);
    assert_eq!(t.get(id).unwrap().last_rendered, at(7, 7));
}

#[test]
fn clear_does_not_move_across_the_table_end() {
    let mut t = EntityTracker::new();
    let first = UnitId::new(EntityKind::pc(), 2047);
    let second = UnitId::new(EntityKind::pc(), 4095);
    // Both belong in the last slot; the second wraps round to the first.
    t.insert_or_update(first, at(1, 1), LinearPos::new(0, 0));
    t.insert_or_update(second, at(2, 2), LinearPos::new(0, 0));
    t.clear_unused();
    assert!(t.get(first).is_some());
    assert!(t.get(second).is_some());
    // Only the wrapped unit is updated: clearing frees the last slot and the
    // wrapped unit, though kept, can no longer be found.
    t.insert_or_update(second, at(3, 3), LinearPos::new(0, 0));
    t.clear_unused();
    assert!(t.get(first).is_none());
    assert!(t.get(second).is_none());
}

#[test]
fn marks_move_with_shifted_units() {
    let mut t = EntityTracker::new();
    let a = UnitId::new(EntityKind::pc(), 2);
    let b = UnitId::new(EntityKind::pc(), 1);
    let c = UnitId::new(EntityKind::pc(), 2049);
    t.insert_or_update(a, at(1, 1), LinearPos::new(0, 0));
    t.clear_unused();
    // `a` is updated, then `c` takes its slot and pushes it one slot on.
    t.insert_or_update(a, at(2, 2), LinearPos::new(0, 0));
    t.insert_or_update(b, at(3, 3), LinearPos::new(0, 0));
    t.insert_or_update(c, at(4, 4), LinearPos::new(0, 0));
    t.clear_unused();
    assert_eq!(t.get(a).unwrap().real, at(2, 2));
    assert_eq!(t.get(b).unwrap().real, at(3, 3));
    assert_eq!(t.get(c).unwrap().real, at(4, 4));
    t.clear_unused();
    assert!(t.get(a).is_none() && t.get(b).is_none() && t.get(c).is_none());
}
