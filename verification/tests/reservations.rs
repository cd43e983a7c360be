//! Reservation lifecycle: creation, the end transition, effective finish,
//! the active predicate and listing order.

use clowder::db::models::{Machine, Reservation, ReservationBuilder, User};
use clowder::db::store::Store;
use clowder::error::DbError;

const JAN_10: i64 = 1704844800; // 2024-01-10T00:00:00Z
const JAN_11: i64 = 1704931200; // 2024-01-11T00:00:00Z
const JAN_01: i64 = 1704067200; // 2024-01-01T00:00:00Z
const JAN_02: i64 = 1704153600; // 2024-01-02T00:00:00Z

fn lab() -> Store {
    let mut c = Store::new();
    let arch = c.create_architecture("x86_64");
    let ma = c.create_microarchitecture(arch.id, "Skylake", None).unwrap();
    let p = c.create_processor(ma.id, "Xeon E3-1240 v5", 4, 8, 3500, None).unwrap();
    let mb = clowder::db::models::MachineBuilder::new("crash".to_string())
        .processor(&p)
        .memory_gb(32);
    mb.insert(&mut c).unwrap();
    let mb = clowder::db::models::MachineBuilder::new("burn".to_string())
        .processor(&p)
        .memory_gb(64);
    mb.insert(&mut c).unwrap();
    c.create_user("alice", "Alice A.").unwrap();
    c.create_user("bob", "Bob B.").unwrap();
    c
}

#[test]
fn effective_finish_prefers_scheduled_end() {
    let r = Reservation {
        id: 1,
        user_id: 1,
        machine_id: 1,
        scheduled_start: JAN_01,
        scheduled_end: Some(JAN_02),
        actual_end: Some(JAN_10),
        pxe_path: None,
        nfs_root: None,
    };
    // Both set: the scheduled end wins.
    assert_eq!(r.finish(), Some(JAN_02));
    // Only the actual end set.
    let r2 = Reservation { scheduled_end: None, ..r };
    assert_eq!(r2.finish(), Some(JAN_10));
    // Neither set: unbounded.
    let r3 = Reservation { scheduled_end: None, actual_end: None, ..r2 };
    assert_eq!(r3.finish(), None);
}

#[test]
fn ending_twice_is_terminal_and_monotonic() {
    let mut c = lab();
    let alice = User::with_username("alice", &c).unwrap();
    let m = Machine::with_name("crash", &c).unwrap();
    let res = ReservationBuilder::new(&alice, &m, JAN_01).insert(&mut c).unwrap();

    let first = res.end_at(&mut c, JAN_02).unwrap();
    assert_eq!(first.actual_end, Some(JAN_02));

    // A second end re-stamps the terminal state with a later instant; it
    // never reverts the reservation to a non-terminal state.
    let second = first.end_at(&mut c, JAN_10).unwrap();
    assert_eq!(second.actual_end, Some(JAN_10));
    assert!(second.actual_end.unwrap() >= JAN_02);

    let (row, _, _) = Reservation::get(second.id, &c).unwrap();
    assert_eq!(row.actual_end, Some(JAN_10));
}

#[test]
fn ending_a_deleted_reservation_fails() {
    let mut c = lab();
    let alice = User::with_username("alice", &c).unwrap();
    let m = Machine::with_name("crash", &c).unwrap();
    let res = ReservationBuilder::new(&alice, &m, JAN_01).insert(&mut c).unwrap();
    let ghost_row = Reservation { id: res.id + 100, ..res };
    assert!(matches!(ghost_row.end_at(&mut c, JAN_02), Err(DbError::NotFound)));
}

#[test]
fn active_reservation_is_listed_then_excluded_after_end() {
    let mut c = lab();
    let alice = User::with_username("alice", &c).unwrap();
    let m = Machine::with_name("crash", &c).unwrap();
    // Started on the first of January, no scheduled end.
    let res = ReservationBuilder::new(&alice, &m, JAN_01).insert(&mut c).unwrap();

    assert!(res.currently_active(JAN_02));
    let current = Reservation::all(true, JAN_02, &c).unwrap();
    assert_eq!(current.len(), 1);
    assert_eq!(current[0].0.id, res.id);

    let ended = res.end_at(&mut c, JAN_02).unwrap();
    assert!(!ended.currently_active(JAN_02));
    let current = Reservation::all(true, JAN_02, &c).unwrap();
    assert!(current.is_empty());
    // The full listing still shows it.
    assert_eq!(Reservation::all(false, JAN_10, &c).unwrap().len(), 1);
}

#[test]
fn overlapping_reservations_on_one_machine_both_succeed() {
    // No conflict detection is performed on overlapping time windows; both
    // creations succeed.
    let mut c = lab();
    let alice = User::with_username("alice", &c).unwrap();
    let bob = User::with_username("bob", &c).unwrap();
    let m = Machine::with_name("crash", &c).unwrap();
    let r1 = ReservationBuilder::new(&alice, &m, JAN_01)
        .end(JAN_10)
        .insert(&mut c)
        .unwrap();
    let r2 = ReservationBuilder::new(&bob, &m, JAN_02)
        .end(JAN_11)
        .insert(&mut c)
        .unwrap();
    assert_ne!(r1.id, r2.id);
    assert_eq!(r1.machine_id, r2.machine_id);
    assert_eq!(Reservation::all(false, JAN_10, &c).unwrap().len(), 2);
}

#[test]
fn listing_is_ordered_by_effective_end_descending_then_machine() {
    let mut c = lab();
    let alice = User::with_username("alice", &c).unwrap();
    let crash = Machine::with_name("crash", &c).unwrap();
    let burn = Machine::with_name("burn", &c).unwrap();
    // Open-ended (most urgent), late end, early end.
    let open = ReservationBuilder::new(&alice, &burn, JAN_01).insert(&mut c).unwrap();
    let early = ReservationBuilder::new(&alice, &crash, JAN_01)
        .end(JAN_02)
        .insert(&mut c)
        .unwrap();
    let late = ReservationBuilder::new(&alice, &crash, JAN_01)
        .end(JAN_10)
        .insert(&mut c)
        .unwrap();
    let listed = Reservation::all(false, JAN_10, &c).unwrap();
    let ids: Vec<i32> = listed.iter().map(|t| t.0.id).collect();
    assert_eq!(ids, vec![open.id, late.id, early.id]);
    // The join carries the right machine and user.
    assert_eq!(listed[0].1.name, "burn");
    assert_eq!(listed[0].2.username, "alice");
}

#[test]
fn per_machine_and_per_user_listings_filter_and_join() {
    let mut c = lab();
    let alice = User::with_username("alice", &c).unwrap();
    let bob = User::with_username("bob", &c).unwrap();
    let crash = Machine::with_name("crash", &c).unwrap();
    let burn = Machine::with_name("burn", &c).unwrap();
    ReservationBuilder::new(&alice, &crash, JAN_01).insert(&mut c).unwrap();
    ReservationBuilder::new(&bob, &crash, JAN_02).end(JAN_10).insert(&mut c).unwrap();
    ReservationBuilder::new(&alice, &burn, JAN_02).insert(&mut c).unwrap();

    let on_crash = Reservation::for_machine(&crash, &c).unwrap();
    assert_eq!(on_crash.len(), 2);
    // Unbounded scheduled end sorts first.
    assert_eq!(on_crash[0].1.username, "alice");
    assert_eq!(on_crash[1].1.username, "bob");

    let of_alice = Reservation::for_user(&alice, &c).unwrap();
    assert_eq!(of_alice.len(), 2);
    let machines: Vec<String> = of_alice.iter().map(|t| t.1.name.clone()).collect();
    assert!(machines.contains(&"crash".to_string()));
    assert!(machines.contains(&"burn".to_string()));
}

#[test]
fn machine_builder_enforces_constraints() {
    let mut c = lab();
    let p = clowder::db::models::Processor::all(&c).unwrap().remove(0);
    // Missing processor or memory: not-null violation.
    let mb = clowder::db::models::MachineBuilder::new("new-box".to_string());
    assert!(matches!(mb.insert(&mut c), Err(DbError::NotNullViolation)));
    // Duplicate name: unique violation.
    let mb = clowder::db::models::MachineBuilder::new("crash".to_string())
        .processor(&p)
        .memory_gb(8);
    assert!(matches!(mb.insert(&mut c), Err(DbError::UniqueViolation)));
    // Unknown processor: foreign-key violation.
    let fake = clowder::db::models::Processor { id: 9999, ..p };
    let mb = clowder::db::models::MachineBuilder::new("new-box".to_string())
        .processor(&fake)
        .memory_gb(8);
    assert!(matches!(mb.insert(&mut c), Err(DbError::ForeignKeyViolation)));
}

#[test]
fn full_machine_resolves_the_hierarchy() {
    let c = lab();
    let fm = clowder::db::models::FullMachine::with_name("crash", &c).unwrap();
    assert_eq!(fm.name(), "crash");
    assert_eq!(fm.architecture().name, "x86_64");
    assert_eq!(fm.microarchitecture().name, "Skylake");
    assert_eq!(fm.processor().name, "Xeon E3-1240 v5");
    assert_eq!(fm.cores(), 4);
    assert_eq!(fm.freq_mhz(), 3500);
    assert_eq!(fm.memory_gb(), 32);
    let all = clowder::db::models::FullMachine::all(&c).unwrap();
    assert_eq!(all.len(), 2);
    // Machine-name order.
    assert_eq!(all[0].name(), "burn");
    assert_eq!(all[1].name(), "crash");
}

#[test]
fn machine_attachments_are_filtered_by_machine() {
    let mut c = lab();
    let crash = Machine::with_name("crash", &c).unwrap();
    let burn = Machine::with_name("burn", &c).unwrap();
    c.create_disk(crash.id, Some("Seagate".to_string()), None, 500, false).unwrap();
    c.create_disk(burn.id, None, None, 250, true).unwrap();
    c.create_nic(crash.id, Some("Intel".to_string()), None, "a1b2c3d4e5f6", 10).unwrap();
    assert_eq!(crash.disks(&c).unwrap().len(), 1);
    assert_eq!(burn.disks(&c).unwrap().len(), 1);
    assert_eq!(crash.nics(&c).unwrap().len(), 1);
    assert!(burn.nics(&c).unwrap().is_empty());
    assert_eq!(crash.disks(&c).unwrap()[0].capacity_gb, 500);
}

#[test]
fn short_descriptions_render_the_attachment_data() {
    let mut c = lab();
    let m = Machine::with_name("crash", &c).unwrap();
    let d = c.create_disk(m.id, Some("Seagate".to_string()), None, 500, false).unwrap();
    assert_eq!(d.short_description(), "Seagate 500 GiB (non-SSD)");
    let d2 = c.create_disk(m.id, None, None, 250, true).unwrap();
    assert_eq!(d2.short_description(), "250 GiB (SSD)");
    let n = c
        .create_nic(m.id, Some("Intel".to_string()), Some("X550".to_string()), "a1b2c3d4e5f6", 10)
        .unwrap();
    assert_eq!(n.mac_formatted(), "a1:b2:c3:d4:e5:f6");
    assert_eq!(n.short_description(), "a1:b2:c3:d4:e5:f6 — Intel X550 10 Gbps");
    let bare = c.create_nic(m.id, None, None, "abc", 1).unwrap();
    assert_eq!(bare.mac_formatted(), "ab:c");
    assert_eq!(bare.short_description(), "ab:c — 1 Gbps");
}

#[test]
fn end_stamps_the_current_clock() {
    let mut c = lab();
    let alice = User::with_username("alice", &c).unwrap();
    let m = Machine::with_name("crash", &c).unwrap();
    let res = ReservationBuilder::new(&alice, &m, JAN_01).insert(&mut c).unwrap();
    let ended = res.end(&mut c).unwrap();
    // The recorded end is the wall clock, which is well past the scheduled
    // start used by this test.
    let stamp = ended.actual_end.expect("ending records an instant");
    assert!(stamp > JAN_11);
    let (row, _, _) = Reservation::get(ended.id, &c).unwrap();
    assert_eq!(row.actual_end, Some(stamp));
}

#[test]
fn current_listing_applies_the_active_definition() {
    let mut c = lab();
    let alice = User::with_username("alice", &c).unwrap();
    let m = Machine::with_name("crash", &c).unwrap();
    // Started and open-ended: active.
    let active = ReservationBuilder::new(&alice, &m, JAN_01).insert(&mut c).unwrap();
    // Not yet started: excluded from the current listing.
    ReservationBuilder::new(&alice, &m, JAN_11).insert(&mut c).unwrap();
    // Scheduled end already passed: excluded as well.
    ReservationBuilder::new(&alice, &m, JAN_01).end(JAN_02).insert(&mut c).unwrap();
    let current = Reservation::all(true, JAN_10, &c).unwrap();
    assert_eq!(current.len(), 1);
    assert_eq!(current[0].0.id, active.id);
    // The unfiltered listing shows all three.
    assert_eq!(Reservation::all(false, JAN_10, &c).unwrap().len(), 3);
}
