//! Request-handler logic: authentication, authorization gates, the
//! reservation form, the user-update form and presentation helpers.

use clowder::db::models::{Machine, Reservation, User};
use clowder::db::store::Store;
use clowder::error::DbError;
use clowder::html::auth::{auth_failure_status, authenticate, lookup_user};
use clowder::html::error::Error;
use clowder::html::tables::{row_status, RowStatus, TableHeader};
use clowder::html::{escape, reservation_create, user_update, users_page_data, UserUpdate};
use clowder::error::Error as CoreError;
use clowder::html::forms::{Input, Select, SelectOption, SubmitButton};

const JAN_01: i64 = 1704067200; // 2024-01-01T00:00:00Z
const JAN_10: i64 = 1704844800; // 2024-01-10T00:00:00Z
const JAN_11: i64 = 1704931200; // 2024-01-11T00:00:00Z

fn lab() -> Store {
    let mut c = Store::new();
    let arch = c.create_architecture("x86_64");
    let ma = c.create_microarchitecture(arch.id, "Skylake", None).unwrap();
    let p = c.create_processor(ma.id, "Xeon", 4, 8, 3500, None).unwrap();
    clowder::db::models::MachineBuilder::new("crash".to_string())
        .processor(&p)
        .memory_gb(32)
        .insert(&mut c)
        .unwrap();
    c.create_user("alice", "Alice A.").unwrap();
    c.create_user("bob", "Bob B.").unwrap();
    c.create_role("admin", true, true, true, true, true).unwrap();
    c
}

#[test]
fn reservation_create_parses_the_date_range() {
    let mut c = lab();
    let res = reservation_create(
        "alice",
        "crash",
        "00:00+00:00 10 Jan 2024 - 00:00+00:00 11 Jan 2024",
        "",
        "",
        &mut c,
    )
    .unwrap();
    assert_eq!(res.scheduled_start, JAN_10);
    assert_eq!(res.scheduled_end, Some(JAN_11));
    assert_eq!(res.actual_end, None);
    assert_eq!(res.pxe_path, None);
    assert_eq!(res.nfs_root, None);
    assert_eq!(Reservation::all(false, JAN_10, &c).unwrap().len(), 1);
}

#[test]
fn reservation_create_keeps_provisioning_paths() {
    let mut c = lab();
    let res = reservation_create(
        "alice",
        "crash",
        "00:00+00:00 10 Jan 2024 - 00:00+00:00 11 Jan 2024",
        "pxe/loader",
        "nfs/root",
        &mut c,
    )
    .unwrap();
    assert_eq!(res.pxe_path.as_deref(), Some("pxe/loader"));
    assert_eq!(res.nfs_root.as_deref(), Some("nfs/root"));
}

#[test]
fn malformed_date_range_is_a_bad_request_and_persists_nothing() {
    let mut c = lab();
    // One component: no " - " separator at all.
    let r = reservation_create("alice", "crash", "00:00+00:00 10 Jan 2024", "", "", &mut c);
    assert!(matches!(r, Err(Error::BadRequest(_))));
    // Three components.
    let r = reservation_create("alice", "crash", "a - b - c", "", "", &mut c);
    assert!(matches!(r, Err(Error::BadRequest(_))));
    // Two components that do not parse as dates.
    let r = reservation_create("alice", "crash", "yesterday - tomorrow", "", "", &mut c);
    assert!(matches!(r, Err(Error::BadRequest(_))));
    // Nothing was persisted by any of the failures.
    assert!(Reservation::all(false, JAN_10, &c).unwrap().is_empty());
}

#[test]
fn reservation_create_requires_known_user_and_machine() {
    let mut c = lab();
    let r = reservation_create("carol", "crash", "x - y", "", "", &mut c);
    assert!(matches!(r, Err(Error::DatabaseError(DbError::NotFound))));
    let r = reservation_create("alice", "toaster", "x - y", "", "", &mut c);
    assert!(matches!(r, Err(Error::DatabaseError(DbError::NotFound))));
    assert!(Reservation::all(false, JAN_10, &c).unwrap().is_empty());
}

#[test]
fn operation_requiring_can_alter_users_is_gated_on_the_role() {
    let mut c = lab();
    let alice = User::with_username("alice", &c).unwrap();
    // Alice holds no role assignments: denied.
    assert!(matches!(users_page_data(&alice, &c), Err(Error::NotAuthorized(_))));
    // Grant a role whose can_alter_users flag is set and repeat: permitted.
    alice.set_roles(&vec!["admin".to_string()], &mut c).unwrap();
    let (users, roles) = users_page_data(&alice, &c).unwrap();
    assert_eq!(users.len(), 2);
    assert_eq!(roles.len(), 1);
}

#[test]
fn user_update_lets_a_user_rename_themselves_only() {
    let mut c = lab();
    let alice = User::with_username("alice", &c).unwrap();
    let form = UserUpdate { name: "Alice Prime".to_string(), emails: vec![], roles: vec![] };
    let updated = user_update("alice", &alice, &form, &mut c).unwrap();
    assert_eq!(updated.name, "Alice Prime");
    // A non-administrator may not update someone else.
    let r = user_update("bob", &alice, &form, &mut c);
    assert!(matches!(r, Err(Error::NotAuthorized(_))));
    // An unknown target is a bad request.
    let r = user_update("carol", &alice, &form, &mut c);
    assert!(matches!(r, Err(Error::BadRequest(_))));
}

#[test]
fn user_update_by_an_administrator_replaces_emails_and_roles() {
    let mut c = lab();
    let alice = User::with_username("alice", &c).unwrap();
    alice.set_roles(&vec!["admin".to_string()], &mut c).unwrap();
    let form = UserUpdate {
        name: "Robert".to_string(),
        emails: vec!["bob@example.org".to_string()],
        roles: vec!["admin".to_string()],
    };
    let updated = user_update("bob", &alice, &form, &mut c).unwrap();
    assert_eq!(updated.name, "Robert");
    let bob = User::with_username("bob", &c).unwrap();
    assert_eq!(bob.emails(&c).unwrap(), vec!["bob@example.org".to_string()]);
    let names: Vec<String> = bob.roles(&c).unwrap().into_iter().map(|r| r.name).collect();
    assert_eq!(names, vec!["admin".to_string()]);
}

#[test]
fn user_update_form_accumulates_sets_and_rejects_unknown_fields() {
    let items = vec![
        ("name".to_string(), "A".to_string()),
        ("name".to_string(), "B".to_string()),
        ("emails".to_string(), "x@example.org".to_string()),
        ("emails".to_string(), "x@example.org".to_string()),
        ("roles".to_string(), "admin".to_string()),
    ];
    let u = UserUpdate::from_form(&items).unwrap();
    assert_eq!(u.name, "B");
    assert_eq!(u.emails, vec!["x@example.org".to_string()]);
    assert_eq!(u.roles, vec!["admin".to_string()]);

    let bad = vec![("surprise".to_string(), "x".to_string())];
    assert!(matches!(UserUpdate::from_form(&bad), Err(Error::InvalidData(_))));
}

#[test]
fn authenticate_prefers_the_cookie_and_falls_back_to_the_bypass() {
    let mut c = lab();
    let bob = User::with_username("bob", &c).unwrap();
    c.create_github_account(bob.id, "bob-gh").unwrap();

    // A valid cookie wins.
    let ctx = authenticate(Some("alice"), Some("bob-gh"), &c).unwrap();
    assert_eq!(ctx.user.username, "alice");
    // An invalid cookie falls back to the bypass identity.
    let ctx = authenticate(Some("nobody"), Some("bob-gh"), &c).unwrap();
    assert_eq!(ctx.user.username, "bob");
    // No cookie, no bypass: login is required.
    assert!(matches!(authenticate(None, None, &c), Err(CoreError::AuthRequired)));
    // A bypass naming an unknown GitHub account fails, and creates nothing.
    assert!(matches!(authenticate(None, Some("ghost"), &c), Err(CoreError::AuthError(_))));
    assert_eq!(User::all(&c).unwrap().len(), 2);
}

#[test]
fn lookup_user_never_provisions_an_account() {
    let c = lab();
    assert!(matches!(lookup_user("carol", &c), Err(CoreError::AuthError(_))));
    assert_eq!(User::all(&c).unwrap().len(), 2);
}

#[test]
fn auth_failures_map_to_http_statuses() {
    assert_eq!(auth_failure_status(&CoreError::AuthRequired), 401);
    assert_eq!(auth_failure_status(&CoreError::AuthError("x".to_string())), 403);
    assert_eq!(auth_failure_status(&CoreError::DatabaseError(DbError::NotFound)), 403);
    assert_eq!(auth_failure_status(&CoreError::DatabaseError(DbError::UniqueViolation)), 500);
    assert_eq!(auth_failure_status(&CoreError::BadRequest("x".to_string())), 500);
}

#[test]
fn error_kinds_and_messages() {
    assert_eq!(Error::AuthRequired.kind(), "Authorization required");
    assert_eq!(Error::BadRequest("b".to_string()).kind(), "Bad request");
    assert_eq!(Error::NotAuthorized("n".to_string()).kind(), "Authorization error");
    assert_eq!(Error::DatabaseError(DbError::NotFound).kind(), "Database error");
    assert_eq!(Error::InvalidData("d".to_string()).msg(), "d");
    assert_eq!(Error::DatabaseError(DbError::NotFound).msg(), "record not found");
    assert_eq!(CoreError::AuthError("x".to_string()).kind(), "Authentication error");
    assert_eq!(CoreError::NetError("x".to_string()).kind(), "Network error");
    assert_eq!(CoreError::ConfigError("x".to_string()).kind(), "Configuration error");
}

#[test]
fn escape_replaces_dangerous_characters() {
    assert_eq!(escape("<script>"), "&lt;script&gt;");
    assert_eq!(escape("a&b"), "a&amp;b");
    assert_eq!(escape("x=1"), "x&#61;1");
    assert_eq!(escape("plain text."), "plain text.");
}

#[test]
fn row_status_classifies_reservations() {
    let base = Reservation {
        id: 1,
        user_id: 1,
        machine_id: 1,
        scheduled_start: JAN_01,
        scheduled_end: None,
        actual_end: None,
        pxe_path: None,
        nfs_root: None,
    };
    assert_eq!(row_status(&base, JAN_10), RowStatus::Active);
    let upcoming = Reservation { scheduled_start: JAN_11, ..base.clone() };
    assert_eq!(row_status(&upcoming, JAN_10), RowStatus::Upcoming);
    let overdue = Reservation { scheduled_end: Some(JAN_01 + 1), ..base.clone() };
    assert_eq!(row_status(&overdue, JAN_10), RowStatus::Overdue);
    let ended = Reservation { actual_end: Some(JAN_01 + 1), ..base };
    assert_eq!(row_status(&ended, JAN_10), RowStatus::Ended);
    assert_eq!(RowStatus::Overdue.class_name(), "table-danger");
    assert_eq!(RowStatus::Active.class_name(), "table-active");
    assert_eq!(RowStatus::Upcoming.class_name(), "table-info");
    assert_eq!(RowStatus::Ended.class_name(), "");
}

#[test]
fn table_headers_add_columns_conditionally() {
    let h = TableHeader::new(&["Name"]).add_if(true, "Arch").add_if(false, "Freq");
    assert_eq!(h.0, vec!["Name".to_string(), "Arch".to_string()]);
}

#[test]
fn machine_page_uses_full_machine_and_listings() {
    let mut c = lab();
    let alice = User::with_username("alice", &c).unwrap();
    let m = Machine::with_name("crash", &c).unwrap();
    clowder::db::models::ReservationBuilder::new(&alice, &m, JAN_01)
        .insert(&mut c)
        .unwrap();
    let rows = Reservation::for_machine(&m, &c).unwrap();
    assert_eq!(rows.len(), 1);
    assert_eq!(rows[0].1.username, "alice");
}

#[test]
fn links_carry_prefix_and_decimal_ids() {
    let mut c = lab();
    let alice = User::with_username("alice", &c).unwrap();
    let m = Machine::with_name("crash", &c).unwrap();
    let res = clowder::db::models::ReservationBuilder::new(&alice, &m, JAN_01)
        .insert(&mut c)
        .unwrap();
    let l = clowder::html::link::Link::from_machine(&m, "/lab/");
    assert_eq!(l.url, "/lab/machine/crash");
    assert_eq!(l.text, "crash");
    let l = clowder::html::link::Link::from_user(&alice, "/");
    assert_eq!(l.url, "/user/alice");
    let l = clowder::html::link::Link::from_reservation(&res, "/");
    assert_eq!(l.url, format!("/reservation/{}", res.id));
    assert_eq!(l.text, format!("{}", res.id));
    let p = clowder::db::models::Processor::all(&c).unwrap().remove(0);
    let l = clowder::html::link::Link::from_processor(&p);
    assert_eq!(l.url, "#");
    assert_eq!(l.text, "Xeon");
}

#[test]
fn decimal_rendering_handles_signs_and_zero() {
    assert_eq!(clowder::util::i32_to_dec(0), "0");
    assert_eq!(clowder::util::i32_to_dec(1705), "1705");
    assert_eq!(clowder::util::i32_to_dec(-42), "-42");
    assert_eq!(clowder::util::i32_to_dec(i32::MIN), "-2147483648");
    assert_eq!(clowder::util::u64_to_dec(98765), "98765");
}

#[test]
fn widget_builders_keep_their_state() {
    let i = Input::new("dates").class("daterange").size(45).writable(false);
    assert_eq!(i.name, "dates");
    assert_eq!(i.class.as_deref(), Some("daterange"));
    assert_eq!(i.size, Some(45));
    assert!(!i.writable);
    let s = Select::new("roles")
        .multiple(true)
        .set_options(vec![SelectOption::new("admin", "admin").selected(true)]);
    assert!(s.multiple);
    assert_eq!(s.options.len(), 1);
    assert!(s.options[0].selected);
    assert_eq!(SubmitButton::new().label("Reserve").label, "Reserve");
    let p = clowder::html::bootstrap::Page::new("Clowder")
        .link_prefix("/lab/")
        .user("alice", "Alice A.");
    assert_eq!(p.prefix, "/lab/");
    assert_eq!(p.user, Some(("alice".to_string(), "Alice A.".to_string())));
}

#[test]
fn can_end_requires_a_started_unended_reservation() {
    let base = Reservation {
        id: 1,
        user_id: 1,
        machine_id: 1,
        scheduled_start: JAN_01,
        scheduled_end: None,
        actual_end: None,
        pxe_path: None,
        nfs_root: None,
    };
    assert!(clowder::html::can_end(&base, JAN_10));
    let not_started = Reservation { scheduled_start: JAN_11, ..base.clone() };
    assert!(!clowder::html::can_end(&not_started, JAN_10));
    let ended = Reservation { actual_end: Some(JAN_01), ..base };
    assert!(!clowder::html::can_end(&ended, JAN_10));
}

#[test]
fn vendor_names_fall_back_to_a_placeholder() {
    let mut c = lab();
    let m = Machine::with_name("crash", &c).unwrap();
    let d = c.create_disk(m.id, Some("Seagate".to_string()), None, 500, false).unwrap();
    assert_eq!(d.vendor_name(), "Seagate");
    let n = c.create_nic(m.id, None, None, "a1b2c3d4e5f6", 10).unwrap();
    assert_eq!(n.vendor_name(), "<unknown vendor>");
}

#[test]
fn machine_create_validates_processor_and_name() {
    let mut c = lab();
    let p = clowder::db::models::Processor::all(&c).unwrap().remove(0);
    let m = clowder::html::machine_create("spark", p.id, 16, &mut c).unwrap();
    assert_eq!(m.name, "spark");
    assert_eq!(m.memory_gb, 16);
    // An unknown processor is a not-found error.
    let r = clowder::html::machine_create("zap", 9999, 16, &mut c);
    assert!(matches!(r, Err(Error::DatabaseError(DbError::NotFound))));
    // A taken machine name is a uniqueness violation.
    let r = clowder::html::machine_create("crash", p.id, 16, &mut c);
    assert!(matches!(r, Err(Error::DatabaseError(DbError::UniqueViolation))));
}

#[test]
fn nav_offers_user_administration_only_to_administrators() {
    let mut c = lab();
    let alice = User::with_username("alice", &c).unwrap();
    let links = clowder::html::nav_links(&alice, "/", &c);
    assert_eq!(links.len(), 2);
    alice.set_roles(&vec!["admin".to_string()], &mut c).unwrap();
    let links = clowder::html::nav_links(&alice, "/", &c);
    assert_eq!(links.len(), 3);
    let clowder::html::bootstrap::NavItem::Link { href, text } = &links[2];
    assert_eq!(href, "/users");
    assert_eq!(text, "Users");
}

#[test]
fn select_options_mark_the_preselected_entries() {
    let mut c = lab();
    let users = User::all(&c).unwrap();
    let opts = clowder::html::user_select_options(&users, "bob");
    assert_eq!(opts.len(), 2);
    assert!(!opts[0].selected); // alice
    assert!(opts[1].selected); // bob
    let machines = Machine::all(&c).unwrap();
    let opts = clowder::html::machine_select_options(&machines, Some("crash"));
    assert!(opts[0].selected);
    let opts = clowder::html::machine_select_options(&machines, None);
    assert!(!opts[0].selected);
    let p = clowder::db::models::Processor::all(&c).unwrap();
    let opts = clowder::html::processor_select_options(&p);
    assert_eq!(opts[0].name, format!("{}", p[0].id));
    assert_eq!(opts[0].label, "Xeon");
    let _ = &mut c;
}

#[test]
fn table_builders_choose_columns() {
    let c = lab();
    let machines = clowder::db::models::FullMachine::all(&c).unwrap();
    let table = clowder::html::tables::MachineTable::new(machines)
        .show_arch(false)
        .show_freq(false)
        .show_processor_name(false);
    assert_eq!(
        table.header().0,
        vec![
            "Name".to_string(),
            "Microarch".to_string(),
            "Cores".to_string(),
            "Memory".to_string()
        ]
    );
    let rt = clowder::html::tables::ReservationTable::new(vec![])
        .show_scheduled_start(false)
        .show_actual_end(false);
    assert_eq!(
        rt.header().0,
        vec![
            "#".to_string(),
            "Machine".to_string(),
            "User".to_string(),
            "Scheduled end".to_string()
        ]
    );
}

#[test]
fn role_options_mark_inhabited_roles() {
    let mut c = lab();
    let alice = User::with_username("alice", &c).unwrap();
    alice.set_roles(&vec!["admin".to_string()], &mut c).unwrap();
    let opts = clowder::html::role_select_options(&alice, &c);
    assert_eq!(opts.len(), 1);
    assert_eq!(opts[0].name, "admin");
    assert!(opts[0].selected);
    let bob = User::with_username("bob", &c).unwrap();
    let opts = clowder::html::role_select_options(&bob, &c);
    assert!(!opts[0].selected);
}

#[test]
fn user_update_email_conflict_fails_after_the_name_change() {
    let mut c = lab();
    let alice = User::with_username("alice", &c).unwrap();
    alice.set_roles(&vec!["admin".to_string()], &mut c).unwrap();
    alice.set_emails(&vec!["a@example.org".to_string()], &mut c).unwrap();
    // Give bob an address alice already owns: the reconciliation fails, but
    // the name change - which runs first - has already been applied.
    let form = UserUpdate {
        name: "Robert".to_string(),
        emails: vec!["a@example.org".to_string()],
        roles: vec![],
    };
    let r = user_update("bob", &alice, &form, &mut c);
    assert!(matches!(r, Err(Error::DatabaseError(DbError::UniqueViolation))));
    let bob = User::with_username("bob", &c).unwrap();
    assert_eq!(bob.name, "Robert");
    assert!(bob.emails(&c).unwrap().is_empty());
    assert_eq!(User::with_email("a@example.org", &c).unwrap().username, "alice");
}

#[test]
fn user_update_unknown_role_fails_after_emails_are_applied() {
    let mut c = lab();
    let alice = User::with_username("alice", &c).unwrap();
    alice.set_roles(&vec!["admin".to_string()], &mut c).unwrap();
    let form = UserUpdate {
        name: "Robert".to_string(),
        emails: vec!["bob@example.org".to_string()],
        roles: vec!["ghost".to_string()],
    };
    let r = user_update("bob", &alice, &form, &mut c);
    assert!(matches!(r, Err(Error::DatabaseError(DbError::NotFound))));
    let bob = User::with_username("bob", &c).unwrap();
    // Name and emails were reconciled; the role set was left untouched.
    assert_eq!(bob.name, "Robert");
    assert_eq!(bob.emails(&c).unwrap(), vec!["bob@example.org".to_string()]);
    assert!(bob.roles(&c).unwrap().is_empty());
}
