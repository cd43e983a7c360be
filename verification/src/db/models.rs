//! The entities of the reservation system and their abstract views.
//!
//! Each executable entity has a mathematical view (`id`s as `int`, strings
//! as `Seq<char>`) that the contracts of the store operations speak of.

use vstd::prelude::*;

use crate::db::store::{role_view_in, Store};
use crate::error::DbError;
use crate::util::string_eq_str;

verus! {

/// The view of an optional string.
pub open spec fn opt_str_view(o: Option<String>) -> Option<Seq<char>> {
    match o {
        Option::Some(s) => Option::Some(s@),
        Option::None => Option::None,
    }
}

fn clone_opt_string(o: &Option<String>) -> (r: Option<String>)
    ensures
        opt_str_view(r) == opt_str_view(*o),
{
    match o {
        Option::Some(s) => Option::Some(s.clone()),
        Option::None => Option::None,
    }
}

// ---------------------------------------------------------------------------
// Users, emails, roles
// ---------------------------------------------------------------------------

/// A registered user.
pub struct User {
    pub id: i32,
    pub username: String,
    pub name: String,
}

pub struct UserView {
    pub id: int,
    pub username: Seq<char>,
    pub name: Seq<char>,
}

impl View for User {
    type V = UserView;

    open spec fn view(&self) -> UserView {
        UserView { id: self.id as int, username: self.username@, name: self.name@ }
    }
}

impl Clone for User {
    fn clone(&self) -> (r: Self)
        ensures
            r@ == self@,
    {
        User { id: self.id, username: self.username.clone(), name: self.name.clone() }
    }
}

/// A GitHub identity bound to a user.
pub struct GithubAccount {
    pub id: i32,
    pub user_id: i32,
    pub github_username: String,
}

pub struct GithubAccountView {
    pub id: int,
    pub user_id: int,
    pub github_username: Seq<char>,
}

impl View for GithubAccount {
    type V = GithubAccountView;

    open spec fn view(&self) -> GithubAccountView {
        GithubAccountView {
            id: self.id as int,
            user_id: self.user_id as int,
            github_username: self.github_username@,
        }
    }
}

impl Clone for GithubAccount {
    fn clone(&self) -> (r: Self)
        ensures
            r@ == self@,
    {
        GithubAccount {
            id: self.id,
            user_id: self.user_id,
            github_username: self.github_username.clone(),
        }
    }
}

/// An email address owned by a user.
pub struct Email {
    pub id: i32,
    pub user_id: i32,
    pub email: String,
}

pub struct EmailView {
    pub id: int,
    pub user_id: int,
    pub email: Seq<char>,
}

impl View for Email {
    type V = EmailView;

    open spec fn view(&self) -> EmailView {
        EmailView { id: self.id as int, user_id: self.user_id as int, email: self.email@ }
    }
}

impl Clone for Email {
    fn clone(&self) -> (r: Self)
        ensures
            r@ == self@,
    {
        Email { id: self.id, user_id: self.user_id, email: self.email.clone() }
    }
}

/// A named permission that a role can grant.
#[derive(Clone, Copy, PartialEq, Eq, Structural)]
pub enum Capability {
    AlterMachines,
    AlterUsers,
    CreateMachines,
    DeleteMachines,
    ViewUsers,
}

/// A role: reference data carrying a fixed set of capability flags.
pub struct Role {
    pub id: i32,
    pub name: String,
    pub can_alter_machines: bool,
    pub can_alter_users: bool,
    pub can_create_machines: bool,
    pub can_delete_machines: bool,
    pub can_view_users: bool,
}

pub struct RoleView {
    pub id: int,
    pub name: Seq<char>,
    pub can_alter_machines: bool,
    pub can_alter_users: bool,
    pub can_create_machines: bool,
    pub can_delete_machines: bool,
    pub can_view_users: bool,
}

impl View for Role {
    type V = RoleView;

    open spec fn view(&self) -> RoleView {
        RoleView {
            id: self.id as int,
            name: self.name@,
            can_alter_machines: self.can_alter_machines,
            can_alter_users: self.can_alter_users,
            can_create_machines: self.can_create_machines,
            can_delete_machines: self.can_delete_machines,
            can_view_users: self.can_view_users,
        }
    }
}

impl Clone for Role {
    fn clone(&self) -> (r: Self)
        ensures
            r@ == self@,
    {
        Role {
            id: self.id,
            name: self.name.clone(),
            can_alter_machines: self.can_alter_machines,
            can_alter_users: self.can_alter_users,
            can_create_machines: self.can_create_machines,
            can_delete_machines: self.can_delete_machines,
            can_view_users: self.can_view_users,
        }
    }
}

impl RoleView {
    /// Whether this role grants a capability.
    pub open spec fn grants(self, c: Capability) -> bool {
        match c {
            Capability::AlterMachines => self.can_alter_machines,
            Capability::AlterUsers => self.can_alter_users,
            Capability::CreateMachines => self.can_create_machines,
            Capability::DeleteMachines => self.can_delete_machines,
            Capability::ViewUsers => self.can_view_users,
        }
    }
}

impl Role {
    /// Whether this role grants a capability.
    pub fn grants(&self, c: Capability) -> (r: bool)
        ensures
            r == self@.grants(c),
    {
        match c {
            Capability::AlterMachines => self.can_alter_machines,
            Capability::AlterUsers => self.can_alter_users,
            Capability::CreateMachines => self.can_create_machines,
            Capability::DeleteMachines => self.can_delete_machines,
            Capability::ViewUsers => self.can_view_users,
        }
    }
}

/// A join row granting one user all the capabilities of one role.
pub struct RoleAssignment {
    pub id: i32,
    pub user_id: i32,
    pub role_id: i32,
}

pub struct RoleAssignmentView {
    pub id: int,
    pub user_id: int,
    pub role_id: int,
}

impl View for RoleAssignment {
    type V = RoleAssignmentView;

    open spec fn view(&self) -> RoleAssignmentView {
        RoleAssignmentView {
            id: self.id as int,
            user_id: self.user_id as int,
            role_id: self.role_id as int,
        }
    }
}

impl Clone for RoleAssignment {
    fn clone(&self) -> (r: Self)
        ensures
            r@ == self@,
    {
        RoleAssignment { id: self.id, user_id: self.user_id, role_id: self.role_id }
    }
}

// ---------------------------------------------------------------------------
// Machines and their descriptive hierarchy
// ---------------------------------------------------------------------------

/// A processor architecture ("x86_64").
pub struct Architecture {
    pub id: i32,
    pub name: String,
}

pub struct ArchitectureView {
    pub id: int,
    pub name: Seq<char>,
}

impl View for Architecture {
    type V = ArchitectureView;

    open spec fn view(&self) -> ArchitectureView {
        ArchitectureView { id: self.id as int, name: self.name@ }
    }
}

impl Clone for Architecture {
    fn clone(&self) -> (r: Self)
        ensures
            r@ == self@,
    {
        Architecture { id: self.id, name: self.name.clone() }
    }
}

/// A microarchitecture ("Sandy Bridge") within an architecture.
pub struct Microarchitecture {
    pub id: i32,
    pub arch_id: i32,
    pub name: String,
    pub url: Option<String>,
}

pub struct MicroarchitectureView {
    pub id: int,
    pub arch_id: int,
    pub name: Seq<char>,
    pub url: Option<Seq<char>>,
}

impl View for Microarchitecture {
    type V = MicroarchitectureView;

    open spec fn view(&self) -> MicroarchitectureView {
        MicroarchitectureView {
            id: self.id as int,
            arch_id: self.arch_id as int,
            name: self.name@,
            url: opt_str_view(self.url),
        }
    }
}

impl Clone for Microarchitecture {
    fn clone(&self) -> (r: Self)
        ensures
            r@ == self@,
    {
        Microarchitecture {
            id: self.id,
            arch_id: self.arch_id,
            name: self.name.clone(),
            url: clone_opt_string(&self.url),
        }
    }
}

/// A processor model.  The clock frequency is kept in megahertz so that it
/// stays an integer.
pub struct Processor {
    pub id: i32,
    pub microarch_id: i32,
    pub name: String,
    pub cores: i32,
    pub threads: i32,
    pub freq_mhz: i32,
    pub url: Option<String>,
}

pub struct ProcessorView {
    pub id: int,
    pub microarch_id: int,
    pub name: Seq<char>,
    pub cores: int,
    pub threads: int,
    pub freq_mhz: int,
    pub url: Option<Seq<char>>,
}

impl View for Processor {
    type V = ProcessorView;

    open spec fn view(&self) -> ProcessorView {
        ProcessorView {
            id: self.id as int,
            microarch_id: self.microarch_id as int,
            name: self.name@,
            cores: self.cores as int,
            threads: self.threads as int,
            freq_mhz: self.freq_mhz as int,
            url: opt_str_view(self.url),
        }
    }
}

impl Clone for Processor {
    fn clone(&self) -> (r: Self)
        ensures
            r@ == self@,
    {
        Processor {
            id: self.id,
            microarch_id: self.microarch_id,
            name: self.name.clone(),
            cores: self.cores,
            threads: self.threads,
            freq_mhz: self.freq_mhz,
            url: clone_opt_string(&self.url),
        }
    }
}

/// A physical machine in the inventory.
pub struct Machine {
    pub id: i32,
    pub name: String,
    pub processor_id: i32,
    pub memory_gb: i32,
}

pub struct MachineView {
    pub id: int,
    pub name: Seq<char>,
    pub processor_id: int,
    pub memory_gb: int,
}

impl View for Machine {
    type V = MachineView;

    open spec fn view(&self) -> MachineView {
        MachineView {
            id: self.id as int,
            name: self.name@,
            processor_id: self.processor_id as int,
            memory_gb: self.memory_gb as int,
        }
    }
}

impl Clone for Machine {
    fn clone(&self) -> (r: Self)
        ensures
            r@ == self@,
    {
        Machine {
            id: self.id,
            name: self.name.clone(),
            processor_id: self.processor_id,
            memory_gb: self.memory_gb,
        }
    }
}

/// A disk attached to a machine.
pub struct Disk {
    pub id: i32,
    pub machine_id: i32,
    pub vendor: Option<String>,
    pub model: Option<String>,
    pub capacity_gb: i32,
    pub ssd: bool,
}

pub struct DiskView {
    pub id: int,
    pub machine_id: int,
    pub vendor: Option<Seq<char>>,
    pub model: Option<Seq<char>>,
    pub capacity_gb: int,
    pub ssd: bool,
}

impl View for Disk {
    type V = DiskView;

    open spec fn view(&self) -> DiskView {
        DiskView {
            id: self.id as int,
            machine_id: self.machine_id as int,
            vendor: opt_str_view(self.vendor),
            model: opt_str_view(self.model),
            capacity_gb: self.capacity_gb as int,
            ssd: self.ssd,
        }
    }
}

impl Clone for Disk {
    fn clone(&self) -> (r: Self)
        ensures
            r@ == self@,
    {
        Disk {
            id: self.id,
            machine_id: self.machine_id,
            vendor: clone_opt_string(&self.vendor),
            model: clone_opt_string(&self.model),
            capacity_gb: self.capacity_gb,
            ssd: self.ssd,
        }
    }
}

/// A network interface attached to a machine.
pub struct Nic {
    pub id: i32,
    pub machine_id: i32,
    pub vendor: Option<String>,
    pub model: Option<String>,
    pub mac_address: String,
    pub speed_gbps: i32,
}

pub struct NicView {
    pub id: int,
    pub machine_id: int,
    pub vendor: Option<Seq<char>>,
    pub model: Option<Seq<char>>,
    pub mac_address: Seq<char>,
    pub speed_gbps: int,
}

impl View for Nic {
    type V = NicView;

    open spec fn view(&self) -> NicView {
        NicView {
            id: self.id as int,
            machine_id: self.machine_id as int,
            vendor: opt_str_view(self.vendor),
            model: opt_str_view(self.model),
            mac_address: self.mac_address@,
            speed_gbps: self.speed_gbps as int,
        }
    }
}

impl Clone for Nic {
    fn clone(&self) -> (r: Self)
        ensures
            r@ == self@,
    {
        Nic {
            id: self.id,
            machine_id: self.machine_id,
            vendor: clone_opt_string(&self.vendor),
            model: clone_opt_string(&self.model),
            mac_address: self.mac_address.clone(),
            speed_gbps: self.speed_gbps,
        }
    }
}

/// An optional string followed by a space, or nothing.
pub open spec fn labelled_part(o: Option<Seq<char>>) -> Seq<char> {
    match o {
        Option::Some(v) => v + seq![' '],
        Option::None => Seq::empty(),
    }
}

/// What a disk's short description says: its vendor when known, its
/// capacity, and whether it is an SSD.
pub open spec fn disk_description(d: DiskView) -> Seq<char> {
    labelled_part(d.vendor) + crate::util::dec_str(d.capacity_gb) + " GiB ("@ + (if d.ssd {
        "SSD"@
    } else {
        "non-SSD"@
    }) + ")"@
}

impl Disk {
    /// The vendor's name, or a placeholder when it is unknown.
    pub fn vendor_name(&self) -> (r: &str)
        ensures
            self.vendor matches Some(v) ==> r@ == v@,
            self.vendor is None ==> r@ == "<unknown vendor>"@,
    {
        match &self.vendor {
            Option::Some(s) => s.as_str(),
            Option::None => "<unknown vendor>",
        }
    }

    /// A one-line description: vendor (when known), capacity and kind.
    pub fn short_description(&self) -> (r: String)
        ensures
            r@ == disk_description(self@),
    {
        let mut out = String::new();
        match &self.vendor {
            Option::Some(v) => {
                out.append(v.as_str());
                out.append(" ");
                proof {
                    reveal_strlit(" ");
                    assert(out@ =~= labelled_part(opt_str_view(self.vendor)));
                }
            },
            Option::None => {
                proof {
                    assert(out@ =~= labelled_part(opt_str_view(self.vendor)));
                }
            },
        }
        let cap = crate::util::i32_to_dec(self.capacity_gb);
        out.append(cap.as_str());
        out.append(" GiB (");
        if self.ssd {
            out.append("SSD");
        } else {
            out.append("non-SSD");
        }
        out.append(")");
        proof {
            assert(out@ =~= disk_description(self@));
        }
        out
    }
}

/// A MAC address string grouped into colon-separated pairs.
pub open spec fn mac_grouped(s: Seq<char>) -> Seq<char>
    decreases s.len(),
{
    if s.len() <= 2 {
        s
    } else {
        s.take(2) + seq![':'] + mac_grouped(s.skip(2))
    }
}

/// What a network interface's short description says: its grouped MAC
/// address, its vendor and model when known, and its speed.
pub open spec fn nic_description(n: NicView) -> Seq<char> {
    mac_grouped(n.mac_address) + " — "@ + labelled_part(n.vendor) + labelled_part(n.model)
        + crate::util::dec_str(n.speed_gbps) + " Gbps"@
}

impl Nic {
    /// The vendor's name, or a placeholder when it is unknown.
    pub fn vendor_name(&self) -> (r: &str)
        ensures
            self.vendor matches Some(v) ==> r@ == v@,
            self.vendor is None ==> r@ == "<unknown vendor>"@,
    {
        match &self.vendor {
            Option::Some(s) => s.as_str(),
            Option::None => "<unknown vendor>",
        }
    }

    /// The MAC address grouped into colon-separated pairs.
    pub fn mac_formatted(&self) -> (r: String)
        ensures
            r@ == mac_grouped(self.mac_address@),
    {
        group_pairs(self.mac_address.as_str())
    }

    /// A one-line description: grouped MAC, vendor and model (when known),
    /// and speed.
    pub fn short_description(&self) -> (r: String)
        ensures
            r@ == nic_description(self@),
    {
        let mut out = self.mac_formatted();
        out.append(" — ");
        match &self.vendor {
            Option::Some(v) => {
                out.append(v.as_str());
                out.append(" ");
            },
            Option::None => {},
        }
        proof {
            reveal_strlit(" ");
            assert(out@ =~= mac_grouped(self.mac_address@) + " — "@ + labelled_part(
                opt_str_view(self.vendor),
            ));
        }
        match &self.model {
            Option::Some(m) => {
                out.append(m.as_str());
                out.append(" ");
            },
            Option::None => {},
        }
        proof {
            reveal_strlit(" ");
            assert(out@ =~= mac_grouped(self.mac_address@) + " — "@ + labelled_part(
                opt_str_view(self.vendor),
            ) + labelled_part(opt_str_view(self.model)));
        }
        let speed = crate::util::i32_to_dec(self.speed_gbps);
        out.append(speed.as_str());
        out.append(" Gbps");
        proof {
            assert(out@ =~= nic_description(self@));
        }
        out
    }
}

/// Group a string into colon-separated pairs of characters.
fn group_pairs(s: &str) -> (r: String)
    ensures
        r@ == mac_grouped(s@),
{
    let n = s.unicode_len();
    let mut out = String::new();
    let mut i: usize = 0;
    proof {
        assert(s@.skip(0) =~= s@);
        assert(out@ + mac_grouped(s@.skip(0)) =~= mac_grouped(s@));
    }
    while n - i > 2
        invariant
            i <= n,
            n == s@.len(),
            out@ + mac_grouped(s@.skip(i as int)) == mac_grouped(s@),
        decreases n - i,
    {
        let chunk = s.substring_char(i, i + 2);
        let ghost pre = out@;
        out.append(chunk);
        out.append(":");
        proof {
            reveal_strlit(":");
            assert(mac_grouped(s@.skip(i as int)) == s@.skip(i as int).take(2) + seq![':']
                + mac_grouped(s@.skip(i as int).skip(2)));
            assert(s@.skip(i as int).take(2) =~= s@.subrange(i as int, i + 2));
            assert(s@.skip(i as int).skip(2) =~= s@.skip(i + 2));
            assert(out@ =~= pre + s@.subrange(i as int, i + 2) + seq![':']);
            assert(out@ + mac_grouped(s@.skip(i + 2)) =~= mac_grouped(s@));
        }
        i = i + 2;
    }
    let rest = s.substring_char(i, n);
    out.append(rest);
    proof {
        assert(mac_grouped(s@.skip(i as int)) == s@.skip(i as int));
        assert(s@.skip(i as int) =~= s@.subrange(i as int, n as int));
        assert(out@ =~= mac_grouped(s@));
    }
    out
}

// ---------------------------------------------------------------------------
// Reservations
// ---------------------------------------------------------------------------

/// A time-boxed reservation of one machine by one user.
pub struct Reservation {
    pub id: i32,
    pub user_id: i32,
    pub machine_id: i32,
    pub scheduled_start: i64,
    pub scheduled_end: Option<i64>,
    pub actual_end: Option<i64>,
    pub pxe_path: Option<String>,
    pub nfs_root: Option<String>,
}

pub struct ReservationView {
    pub id: int,
    pub user_id: int,
    pub machine_id: int,
    pub scheduled_start: i64,
    pub scheduled_end: Option<i64>,
    pub actual_end: Option<i64>,
    pub pxe_path: Option<Seq<char>>,
    pub nfs_root: Option<Seq<char>>,
}

impl View for Reservation {
    type V = ReservationView;

    open spec fn view(&self) -> ReservationView {
        ReservationView {
            id: self.id as int,
            user_id: self.user_id as int,
            machine_id: self.machine_id as int,
            scheduled_start: self.scheduled_start,
            scheduled_end: self.scheduled_end,
            actual_end: self.actual_end,
            pxe_path: opt_str_view(self.pxe_path),
            nfs_root: opt_str_view(self.nfs_root),
        }
    }
}

impl Clone for Reservation {
    fn clone(&self) -> (r: Self)
        ensures
            r@ == self@,
    {
        Reservation {
            id: self.id,
            user_id: self.user_id,
            machine_id: self.machine_id,
            scheduled_start: self.scheduled_start,
            scheduled_end: self.scheduled_end,
            actual_end: self.actual_end,
            pxe_path: clone_opt_string(&self.pxe_path),
            nfs_root: clone_opt_string(&self.nfs_root),
        }
    }
}

impl ReservationView {
    /// The best-known end of a reservation: the scheduled end when set, else
    /// the recorded actual end, else unbounded.
    pub open spec fn effective_finish(self) -> Option<i64> {
        match self.scheduled_end {
            Option::Some(s) => Option::Some(s),
            Option::None => match self.actual_end {
                Option::Some(a) => Option::Some(a),
                Option::None => Option::None,
            },
        }
    }

    /// A reservation is currently active when it has started, has not been
    /// explicitly ended, and its scheduled end (if any) lies in the future.
    pub open spec fn is_active(self, now: i64) -> bool {
        &&& self.actual_end is None
        &&& self.scheduled_start <= now
        &&& match self.scheduled_end {
            Option::Some(e) => e > now,
            Option::None => true,
        }
    }
}

impl Reservation {
    pub fn id(&self) -> (r: i32)
        ensures
            r == self.id,
    {
        self.id
    }

    pub fn start(&self) -> (r: i64)
        ensures
            r == self.scheduled_start,
    {
        self.scheduled_start
    }

    /// The best-known end of this reservation; `None` means it is still
    /// open / unbounded.
    pub fn finish(&self) -> (r: Option<i64>)
        ensures
            r == self@.effective_finish(),
    {
        match (self.scheduled_end, self.actual_end) {
            (Option::Some(s), _) => Option::Some(s),
            (Option::None, Option::Some(a)) => Option::Some(a),
            (Option::None, Option::None) => Option::None,
        }
    }

    /// Whether this reservation is active at the instant `now`.
    pub fn currently_active(&self, now: i64) -> (r: bool)
        ensures
            r == self@.is_active(now),
    {
        if self.actual_end.is_some() {
            return false;
        }
        if self.scheduled_start > now {
            return false;
        }
        match self.scheduled_end {
            Option::Some(e) => e > now,
            Option::None => true,
        }
    }
}

// ---------------------------------------------------------------------------
// Entity-store queries
// ---------------------------------------------------------------------------

/// The addresses owned by a user among the first `upto` email rows, in
/// store order.
pub open spec fn user_email_seq(c: Store, uid: int, upto: int) -> Seq<Seq<char>>
    decreases upto,
{
    if upto <= 0 {
        Seq::empty()
    } else {
        let rest = user_email_seq(c, uid, upto - 1);
        if c.emails@[upto - 1].user_id == uid {
            rest.push(c.emails@[upto - 1].email@)
        } else {
            rest
        }
    }
}

/// The roles a user holds through the first `upto` assignment rows, in
/// assignment order.
pub open spec fn user_role_seq(c: Store, uid: int, upto: int) -> Seq<RoleView>
    decreases upto,
{
    if upto <= 0 {
        Seq::empty()
    } else {
        let rest = user_role_seq(c, uid, upto - 1);
        if c.role_assignments@[upto - 1].user_id == uid {
            rest.push(c.role_with_id(c.role_assignments@[upto - 1].role_id as int))
        } else {
            rest
        }
    }
}

/// `user_email_seq` over the whole table holds exactly the addresses of the
/// user's email rows.
pub proof fn lemma_user_email_seq_contains(c: Store, uid: int, upto: int, a: Seq<char>)
    requires
        0 <= upto <= c.emails@.len(),
    ensures
        user_email_seq(c, uid, upto).contains(a) <==> exists|j: int|
            0 <= j < upto && c.emails@[j].user_id == uid && #[trigger] c.emails@[j].email@ == a,
    decreases upto,
{
    if upto > 0 {
        lemma_user_email_seq_contains(c, uid, upto - 1, a);
        let s = user_email_seq(c, uid, upto);
        let rest = user_email_seq(c, uid, upto - 1);
        if c.emails@[upto - 1].user_id == uid {
            assert(s == rest.push(c.emails@[upto - 1].email@));
            if s.contains(a) {
                let k = choose|k: int| 0 <= k < s.len() && s[k] == a;
                if k < rest.len() {
                    assert(rest[k] == a);
                }
            }
            if exists|j: int|
                0 <= j < upto && c.emails@[j].user_id == uid && #[trigger] c.emails@[j].email@
                    == a {
                let j = choose|j: int|
                    0 <= j < upto && c.emails@[j].user_id == uid && #[trigger] c.emails@[j].email@
                        == a;
                if j == upto - 1 {
                    assert(s[s.len() - 1] == a);
                } else {
                    assert(rest.contains(a));
                    let k = choose|k: int| 0 <= k < rest.len() && rest[k] == a;
                    assert(s[k] == a);
                }
            }
        } else {
            if s.contains(a) {
                let k = choose|k: int| 0 <= k < s.len() && s[k] == a;
                assert(rest[k] == a);
            }
            if exists|j: int|
                0 <= j < upto && c.emails@[j].user_id == uid && #[trigger] c.emails@[j].email@
                    == a {
                let j = choose|j: int|
                    0 <= j < upto && c.emails@[j].user_id == uid && #[trigger] c.emails@[j].email@
                        == a;
                assert(j < upto - 1);
                let k = choose|k: int| 0 <= k < rest.len() && rest[k] == a;
                assert(s[k] == a);
            }
        }
    }
}

/// `user_role_seq` over the whole table holds exactly the roles the user is
/// assigned to.
pub proof fn lemma_user_role_seq_contains(c: Store, uid: int, upto: int, rv: RoleView)
    requires
        0 <= upto <= c.role_assignments@.len(),
    ensures
        user_role_seq(c, uid, upto).contains(rv) <==> exists|j: int|
            0 <= j < upto && #[trigger] c.role_assignments@[j].user_id == uid && rv
                == c.role_with_id(c.role_assignments@[j].role_id as int),
    decreases upto,
{
    if upto > 0 {
        lemma_user_role_seq_contains(c, uid, upto - 1, rv);
        let s = user_role_seq(c, uid, upto);
        let rest = user_role_seq(c, uid, upto - 1);
        if c.role_assignments@[upto - 1].user_id == uid {
            assert(s == rest.push(c.role_with_id(c.role_assignments@[upto - 1].role_id as int)));
            if s.contains(rv) {
                let k = choose|k: int| 0 <= k < s.len() && s[k] == rv;
                if k < rest.len() {
                    assert(rest[k] == rv);
                }
            }
            if exists|j: int|
                0 <= j < upto && #[trigger] c.role_assignments@[j].user_id == uid && rv
                    == c.role_with_id(c.role_assignments@[j].role_id as int) {
                let j = choose|j: int|
                    0 <= j < upto && #[trigger] c.role_assignments@[j].user_id == uid && rv
                        == c.role_with_id(c.role_assignments@[j].role_id as int);
                if j == upto - 1 {
                    assert(s[s.len() - 1] == rv);
                } else {
                    assert(rest.contains(rv));
                    let k = choose|k: int| 0 <= k < rest.len() && rest[k] == rv;
                    assert(s[k] == rv);
                }
            }
        } else {
            if s.contains(rv) {
                let k = choose|k: int| 0 <= k < s.len() && s[k] == rv;
                assert(rest[k] == rv);
            }
            if exists|j: int|
                0 <= j < upto && #[trigger] c.role_assignments@[j].user_id == uid && rv
                    == c.role_with_id(c.role_assignments@[j].role_id as int) {
                let j = choose|j: int|
                    0 <= j < upto && #[trigger] c.role_assignments@[j].user_id == uid && rv
                        == c.role_with_id(c.role_assignments@[j].role_id as int);
                assert(j < upto - 1);
                let k = choose|k: int| 0 <= k < rest.len() && rest[k] == rv;
                assert(s[k] == rv);
            }
        }
    }
}

impl User {
    /// All users, in username order.
    pub fn all(c: &Store) -> (r: Result<Vec<User>, DbError>)
        requires
            c.wf(),
        ensures
            match r {
                Ok(v) => {
                    &&& v@.len() == c.users@.len()
                    &&& forall|i: int| 0 <= i < v@.len() ==> v@[i]@ == #[trigger] c.users@[i]@
                    &&& forall|i: int, j: int|
                        0 <= i < j < v@.len() ==> crate::util::seq_char_le(
                            v@[i].username@,
                            v@[j].username@,
                        )
                },
                Err(_) => false,
            },
    {
        let n = c.users.len();
        let mut v: Vec<User> = Vec::new();
        let mut i: usize = 0;
        while i < n
            invariant
                i <= n,
                n == c.users@.len(),
                v@.len() == i,
                c.wf(),
                forall|k: int| 0 <= k < i ==> v@[k]@ == #[trigger] c.users@[k]@,
            decreases n - i,
        {
            let row = &c.users[i];
            v.push(row.clone());
            i = i + 1;
        }
        proof {
            assert forall|a: int, b: int|
                0 <= a < b < v@.len() implies crate::util::seq_char_le(
                v@[a].username@,
                v@[b].username@,
            ) by {
                assert(v@[a]@ == c.users@[a]@);
                assert(v@[b]@ == c.users@[b]@);
                assert(crate::util::seq_char_le(c.users@[a].username@, c.users@[b].username@));
            }
        }
        Ok(v)
    }

    /// The user with this id.
    pub fn get(uid: i32, c: &Store) -> (r: Result<User, DbError>)
        requires
            c.wf(),
        ensures
            match r {
                Ok(u) => c.has_user_id(uid as int) && u@ == c.user_with_id(uid as int),
                Err(e) => e == DbError::NotFound && !c.has_user_id(uid as int),
            },
    {
        let n = c.users.len();
        let mut i: usize = 0;
        while i < n
            invariant
                i <= n,
                n == c.users@.len(),
                c.wf(),
                forall|k: int| 0 <= k < i ==> c.users@[k].id != uid,
            decreases n - i,
        {
            if c.users[i].id == uid {
                let u = c.users[i].clone();
                proof {
                    let j = choose|j: int| 0 <= j < c.users@.len() && c.users@[j].id == uid;
                    assert(j == i);
                }
                return Ok(u);
            }
            i = i + 1;
        }
        Err(DbError::NotFound)
    }

    /// The user with this username.
    pub fn with_username(uname: &str, c: &Store) -> (r: Result<User, DbError>)
        requires
            c.wf(),
        ensures
            match r {
                Ok(u) => c.has_username(uname@) && u@ == c.user_with_username(uname@),
                Err(e) => e == DbError::NotFound && !c.has_username(uname@),
            },
    {
        let n = c.users.len();
        let mut i: usize = 0;
        while i < n
            invariant
                i <= n,
                n == c.users@.len(),
                c.wf(),
                forall|k: int| 0 <= k < i ==> c.users@[k].username@ != uname@,
            decreases n - i,
        {
            if string_eq_str(&c.users[i].username, uname) {
                let u = c.users[i].clone();
                proof {
                    let j = choose|j: int|
                        0 <= j < c.users@.len() && c.users@[j].username@ == uname@;
                    assert(j == i);
                }
                return Ok(u);
            }
            i = i + 1;
        }
        Err(DbError::NotFound)
    }

    /// The user owning this email address.
    pub fn with_email(address: &str, c: &Store) -> (r: Result<User, DbError>)
        requires
            c.wf(),
        ensures
            match r {
                Ok(u) => c.has_email_address(address@) && u@ == c.user_with_id(
                    c.email_owner(address@),
                ),
                Err(e) => e == DbError::NotFound && !c.has_email_address(address@),
            },
    {
        let n = c.emails.len();
        let mut i: usize = 0;
        while i < n
            invariant
                i <= n,
                n == c.emails@.len(),
                c.wf(),
                forall|k: int| 0 <= k < i ==> c.emails@[k].email@ != address@,
            decreases n - i,
        {
            if string_eq_str(&c.emails[i].email, address) {
                let uid = c.emails[i].user_id;
                proof {
                    let j = choose|j: int|
                        0 <= j < c.emails@.len() && c.emails@[j].email@ == address@;
                    assert(j == i);
                    assert(c.has_user_id(uid as int));
                }
                return User::get(uid, c);
            }
            i = i + 1;
        }
        Err(DbError::NotFound)
    }

    pub fn username(&self) -> (r: &str)
        ensures
            r@ == self.username@,
    {
        self.username.as_str()
    }

    /// Change this user's display name, consuming the stale record and
    /// returning the updated one.
    pub fn change_name(self, new_name: &str, c: &mut Store) -> (r: Result<User, DbError>)
        requires
            old(c).wf(),
        ensures
            final(c).wf(),
            final(c).users_frame(*old(c)),
            final(c).next_id == old(c).next_id,
            match r {
                Ok(u) => {
                    &&& old(c).has_user_id(self.id as int)
                    &&& u.id == self.id
                    &&& u.username@ == old(c).user_with_id(self.id as int).username
                    &&& u.name@ == new_name@
                    &&& exists|i: int|
                        {
                            &&& 0 <= i < old(c).users@.len()
                            &&& old(c).users@[i].id == self.id
                            &&& final(c).users@ =~= old(c).users@.update(i, final(c).users@[i])
                            &&& final(c).users@[i]@ == u@
                        }
                    &&& forall|x: int| final(c).has_user_id(x) == old(c).has_user_id(x)
                },
                Err(e) => {
                    &&& e == DbError::NotFound
                    &&& !old(c).has_user_id(self.id as int)
                    &&& *final(c) == *old(c)
                },
            },
    {
        let n = c.users.len();
        let mut i: usize = 0;
        while i < n
            invariant
                i <= n,
                n == c.users@.len(),
                *c == *old(c),
                c.wf(),
                forall|k: int| 0 <= k < i ==> c.users@[k].id != self.id,
            decreases n - i,
        {
            if c.users[i].id == self.id {
                let row = &c.users[i];
                let updated = User {
                    id: row.id,
                    username: row.username.clone(),
                    name: new_name.to_owned(),
                };
                let out = updated.clone();
                let ghost prev = *c;
                c.users[i] = updated;
                proof {
                    lemma_user_update_keeps_wf(prev, *c, i as int);
                    assert forall|x: int| c.has_user_id(x) == prev.has_user_id(x) by {
                        if prev.has_user_id(x) {
                            let k = choose|k: int|
                                0 <= k < prev.users@.len() && prev.users@[k].id == x;
                            assert(c.users@[k].id == x);
                        }
                        if c.has_user_id(x) {
                            let k = choose|k: int| 0 <= k < c.users@.len() && c.users@[k].id == x;
                            assert(prev.users@[k].id == x);
                        }
                    }
                    let j = choose|j: int| 0 <= j < prev.users@.len() && prev.users@[j].id
                        == self.id;
                    assert(j == i);
                }
                return Ok(out);
            }
            i = i + 1;
        }
        Err(DbError::NotFound)
    }
}

impl User {
    /// The set of email addresses associated with this user, in store order.
    pub fn emails(&self, c: &Store) -> (r: Result<Vec<String>, DbError>)
        requires
            c.wf(),
        ensures
            match r {
                Ok(v) => v@.map_values(|s: String| s@) == user_email_seq(
                    *c,
                    self.id as int,
                    c.emails@.len() as int,
                ),
                Err(_) => false,
            },
    {
        let n = c.emails.len();
        let mut v: Vec<String> = Vec::new();
        let mut i: usize = 0;
        proof {
            assert(v@.map_values(|s: String| s@) =~= user_email_seq(*c, self.id as int, 0));
        }
        while i < n
            invariant
                i <= n,
                n == c.emails@.len(),
                v@.map_values(|s: String| s@) == user_email_seq(*c, self.id as int, i as int),
            decreases n - i,
        {
            let row = &c.emails[i];
            let ghost prev = v@;
            if row.user_id == self.id {
                v.push(row.email.clone());
                proof {
                    assert(v@.map_values(|s: String| s@) =~= prev.map_values(
                        |s: String| s@,
                    ).push(c.emails@[i as int].email@));
                }
            }
            proof {
                assert(user_email_seq(*c, self.id as int, i + 1) == if c.emails@[i as int].user_id
                    == self.id {
                    user_email_seq(*c, self.id as int, i as int).push(c.emails@[i as int].email@)
                } else {
                    user_email_seq(*c, self.id as int, i as int)
                });
            }
            i = i + 1;
        }
        Ok(v)
    }

    /// The roles assigned to this user (one per assignment row), in
    /// assignment order.
    pub fn roles(&self, c: &Store) -> (r: Result<Vec<Role>, DbError>)
        requires
            c.wf(),
        ensures
            match r {
                Ok(v) => v@.map_values(|x: Role| x@) == user_role_seq(
                    *c,
                    self.id as int,
                    c.role_assignments@.len() as int,
                ),
                Err(_) => false,
            },
    {
        let n = c.role_assignments.len();
        let mut v: Vec<Role> = Vec::new();
        let mut i: usize = 0;
        proof {
            assert(v@.map_values(|x: Role| x@) =~= user_role_seq(*c, self.id as int, 0));
        }
        while i < n
            invariant
                i <= n,
                n == c.role_assignments@.len(),
                c.wf(),
                v@.map_values(|x: Role| x@) == user_role_seq(*c, self.id as int, i as int),
            decreases n - i,
        {
            let a = &c.role_assignments[i];
            let rid = a.role_id;
            let ghost prev = v@;
            if a.user_id == self.id {
                proof {
                    assert(c.has_role_id(c.role_assignments@[i as int].role_id as int));
                }
                let role = role_by_id_known(c, rid);
                v.push(role);
                proof {
                    assert(v@.map_values(|x: Role| x@) =~= prev.map_values(|x: Role| x@).push(
                        c.role_with_id(c.role_assignments@[i as int].role_id as int),
                    ));
                }
            }
            proof {
                assert(user_role_seq(*c, self.id as int, i + 1) == if c.role_assignments@[i as int].user_id
                    == self.id {
                    user_role_seq(*c, self.id as int, i as int).push(
                        c.role_with_id(c.role_assignments@[i as int].role_id as int),
                    )
                } else {
                    user_role_seq(*c, self.id as int, i as int)
                });
            }
            i = i + 1;
        }
        Ok(v)
    }


    /// Whether this user holds the given role.
    pub fn inhabits_role(&self, role: &Role, c: &Store) -> (r: Result<bool, DbError>)
        requires
            c.wf(),
        ensures
            match r {
                Ok(b) => b == c.assignment_for(self.id as int, role.id as int),
                Err(_) => false,
            },
    {
        Ok(has_assignment(c, self.id, role.id))
    }

    /// Whether any of this user's roles grants the capability: the logical
    /// OR of all held roles' flags.
    pub fn has_capability(&self, cap: Capability, c: &Store) -> (r: Result<bool, DbError>)
        requires
            c.wf(),
        ensures
            match r {
                Ok(b) => b == c.user_has_capability_spec(self.id as int, cap),
                Err(_) => false,
            },
    {
        let n = c.roles.len();
        let mut i: usize = 0;
        while i < n
            invariant
                i <= n,
                n == c.roles@.len(),
                c.wf(),
                forall|k: int|
                    0 <= k < i ==> !(#[trigger] c.roles@[k]@.grants(cap) && c.assignment_for(
                        self.id as int,
                        c.roles@[k].id as int,
                    )),
            decreases n - i,
        {
            let role = &c.roles[i];
            if role.grants(cap) && has_assignment(c, self.id, role.id) {
                return Ok(true);
            }
            i = i + 1;
        }
        Ok(false)
    }

    pub fn can_alter_machines(&self, c: &Store) -> (r: Result<bool, DbError>)
        requires
            c.wf(),
        ensures
            r matches Ok(b) && b == c.user_has_capability_spec(
                self.id as int,
                Capability::AlterMachines,
            ),
    {
        self.has_capability(Capability::AlterMachines, c)
    }

    pub fn can_alter_users(&self, c: &Store) -> (r: Result<bool, DbError>)
        requires
            c.wf(),
        ensures
            r matches Ok(b) && b == c.user_has_capability_spec(
                self.id as int,
                Capability::AlterUsers,
            ),
    {
        self.has_capability(Capability::AlterUsers, c)
    }

    pub fn can_create_machines(&self, c: &Store) -> (r: Result<bool, DbError>)
        requires
            c.wf(),
        ensures
            r matches Ok(b) && b == c.user_has_capability_spec(
                self.id as int,
                Capability::CreateMachines,
            ),
    {
        self.has_capability(Capability::CreateMachines, c)
    }

    pub fn can_delete_machines(&self, c: &Store) -> (r: Result<bool, DbError>)
        requires
            c.wf(),
        ensures
            r matches Ok(b) && b == c.user_has_capability_spec(
                self.id as int,
                Capability::DeleteMachines,
            ),
    {
        self.has_capability(Capability::DeleteMachines, c)
    }

    pub fn can_view_users(&self, c: &Store) -> (r: Result<bool, DbError>)
        requires
            c.wf(),
        ensures
            r matches Ok(b) && b == c.user_has_capability_spec(
                self.id as int,
                Capability::ViewUsers,
            ),
    {
        self.has_capability(Capability::ViewUsers, c)
    }
}

/// Whether an assignment row binds the user to the role.
fn has_assignment(c: &Store, uid: i32, rid: i32) -> (r: bool)
    ensures
        r == c.assignment_for(uid as int, rid as int),
{
    let n = c.role_assignments.len();
    let mut i: usize = 0;
    while i < n
        invariant
            i <= n,
            n == c.role_assignments@.len(),
            forall|k: int|
                0 <= k < i ==> !(c.role_assignments@[k].user_id == uid
                    && c.role_assignments@[k].role_id == rid),
        decreases n - i,
    {
        let a = &c.role_assignments[i];
        if a.user_id == uid && a.role_id == rid {
            return true;
        }
        i = i + 1;
    }
    false
}

/// The role with a given id, which is known to exist.
fn role_by_id_known(c: &Store, rid: i32) -> (r: Role)
    requires
        c.role_ids_unique(),
        c.has_role_id(rid as int),
    ensures
        r@ == c.role_with_id(rid as int),
        r.id == rid,
    {
    let n = c.roles.len();
    let mut i: usize = 0;
    while i < n
        invariant
            i <= n,
            n == c.roles@.len(),
            c.role_ids_unique(),
            c.has_role_id(rid as int),
            forall|k: int| 0 <= k < i ==> c.roles@[k].id != rid,
        decreases n - i,
    {
        if c.roles[i].id == rid {
            let r = c.roles[i].clone();
            proof {
                let j = choose|j: int| 0 <= j < c.roles@.len() && c.roles@[j].id == rid;
                assert(j == i);
            }
            return r;
        }
        i = i + 1;
    }
    proof {
        assert(false);
    }
    unreached()
}

impl Role {
    /// All roles, in name order.
    pub fn all(c: &Store) -> (r: Result<Vec<Role>, DbError>)
        requires
            c.wf(),
        ensures
            match r {
                Ok(v) => {
                    &&& v@.len() == c.roles@.len()
                    &&& forall|i: int| 0 <= i < v@.len() ==> v@[i]@ == #[trigger] c.roles@[i]@
                },
                Err(_) => false,
            },
    {
        let n = c.roles.len();
        let mut v: Vec<Role> = Vec::new();
        let mut i: usize = 0;
        while i < n
            invariant
                i <= n,
                n == c.roles@.len(),
                v@.len() == i,
                c.wf(),
                forall|k: int| 0 <= k < i ==> v@[k]@ == #[trigger] c.roles@[k]@,
            decreases n - i,
        {
            let row = &c.roles[i];
            v.push(row.clone());
            i = i + 1;
        }
        Ok(v)
    }

    /// The role with this name.
    pub fn with_name(role_name: &str, c: &Store) -> (r: Result<Role, DbError>)
        requires
            c.wf(),
        ensures
            match r {
                Ok(role) => c.has_role_name(role_name@) && role@ == c.role_with_name(role_name@),
                Err(e) => e == DbError::NotFound && !c.has_role_name(role_name@),
            },
    {
        let n = c.roles.len();
        let mut i: usize = 0;
        while i < n
            invariant
                i <= n,
                n == c.roles@.len(),
                c.wf(),
                forall|k: int| 0 <= k < i ==> c.roles@[k].name@ != role_name@,
            decreases n - i,
        {
            if string_eq_str(&c.roles[i].name, role_name) {
                let role = c.roles[i].clone();
                proof {
                    let j = choose|j: int|
                        0 <= j < c.roles@.len() && c.roles@[j].name@ == role_name@;
                    assert(j == i);
                }
                return Ok(role);
            }
            i = i + 1;
        }
        Err(DbError::NotFound)
    }
}

impl GithubAccount {
    /// The account row bound to a GitHub username, with its user.
    pub fn get(gh_username: &str, c: &Store) -> (r: Result<(GithubAccount, User), DbError>)
        requires
            c.wf(),
        ensures
            match r {
                Ok(p) => {
                    &&& c.has_github_username(gh_username@)
                    &&& p.0.github_username@ == gh_username@
                    &&& p.0.user_id as int == c.github_user_id(gh_username@)
                    &&& p.1@ == c.user_with_id(c.github_user_id(gh_username@))
                    &&& p.1.id == p.0.user_id
                },
                Err(e) => e == DbError::NotFound && !c.has_github_username(gh_username@),
            },
    {
        let n = c.github_accounts.len();
        let mut i: usize = 0;
        while i < n
            invariant
                i <= n,
                n == c.github_accounts@.len(),
                c.wf(),
                forall|k: int| 0 <= k < i ==> c.github_accounts@[k].github_username@ != gh_username@,
            decreases n - i,
        {
            if string_eq_str(&c.github_accounts[i].github_username, gh_username) {
                let account = c.github_accounts[i].clone();
                proof {
                    let j = choose|j: int|
                        0 <= j < c.github_accounts@.len()
                            && c.github_accounts@[j].github_username@ == gh_username@;
                    assert(j == i);
                    assert(c.has_user_id(account.user_id as int));
                    assert(account.user_id as int == c.github_user_id(gh_username@));
                    let ju = choose|ju: int|
                        0 <= ju < c.users@.len() && c.users@[ju].id == account.user_id;
                    assert(c.user_with_id(account.user_id as int).id == account.user_id as int);
                }
                let user = match User::get(account.user_id, c) {
                    Ok(u) => u,
                    Err(_) => {
                        proof {
                            assert(false);
                        }
                        unreached()
                    },
                };
                return Ok((account, user));
            }
            i = i + 1;
        }
        Err(DbError::NotFound)
    }
}

/// Rewriting one user's display name in place preserves well-formedness.
proof fn lemma_user_update_keeps_wf(prev: Store, cur: Store, i: int)
    requires
        prev.wf(),
        0 <= i < prev.users@.len(),
        cur.users@ == prev.users@.update(i, cur.users@[i]),
        cur.users@[i].id == prev.users@[i].id,
        cur.users@[i].username@ == prev.users@[i].username@,
        cur.users_frame(prev),
        cur.next_id == prev.next_id,
    ensures
        cur.wf(),
{
    let u = cur.users@;
    let p = prev.users@;
    assert forall|a: int, b: int| 0 <= a < b < u.len() implies u[a].id != u[b].id && u[a].username@
        != u[b].username@ && crate::util::seq_char_le(u[a].username@, u[b].username@) by {
        assert(u[a].id == p[a].id && u[a].username@ == p[a].username@);
        assert(u[b].id == p[b].id && u[b].username@ == p[b].username@);
    }
    assert forall|x: int| prev.has_user_id(x) implies cur.has_user_id(x) by {
        let k = choose|k: int| 0 <= k < p.len() && p[k].id == x;
        assert(u[k].id == x);
    }
    assert(cur.foreign_keys_ok());
    assert forall|k: int| 0 <= k < u.len() implies #[trigger] u[k].id < cur.next_id by {
        assert(u[k].id == p[k].id);
    }
}

// ---------------------------------------------------------------------------
// Machines and the descriptive hierarchy: queries
// ---------------------------------------------------------------------------

/// The disks attached to a machine among the first `upto` disk rows.
pub open spec fn machine_disk_seq(c: Store, mid: int, upto: int) -> Seq<DiskView>
    decreases upto,
{
    if upto <= 0 {
        Seq::empty()
    } else {
        let rest = machine_disk_seq(c, mid, upto - 1);
        if c.disks@[upto - 1].machine_id == mid {
            rest.push(c.disks@[upto - 1]@)
        } else {
            rest
        }
    }
}

/// The network interfaces attached to a machine among the first `upto` rows.
pub open spec fn machine_nic_seq(c: Store, mid: int, upto: int) -> Seq<NicView>
    decreases upto,
{
    if upto <= 0 {
        Seq::empty()
    } else {
        let rest = machine_nic_seq(c, mid, upto - 1);
        if c.nics@[upto - 1].machine_id == mid {
            rest.push(c.nics@[upto - 1]@)
        } else {
            rest
        }
    }
}

impl Machine {
    /// All machines, in name order.
    pub fn all(c: &Store) -> (r: Result<Vec<Machine>, DbError>)
        requires
            c.wf(),
        ensures
            match r {
                Ok(v) => {
                    &&& v@.len() == c.machines@.len()
                    &&& forall|i: int| 0 <= i < v@.len() ==> v@[i]@ == #[trigger] c.machines@[i]@
                },
                Err(_) => false,
            },
    {
        let n = c.machines.len();
        let mut v: Vec<Machine> = Vec::new();
        let mut i: usize = 0;
        while i < n
            invariant
                i <= n,
                n == c.machines@.len(),
                v@.len() == i,
                forall|k: int| 0 <= k < i ==> v@[k]@ == #[trigger] c.machines@[k]@,
            decreases n - i,
        {
            let row = &c.machines[i];
            v.push(row.clone());
            i = i + 1;
        }
        Ok(v)
    }

    /// The machine with this name.
    pub fn with_name(machine_name: &str, c: &Store) -> (r: Result<Machine, DbError>)
        requires
            c.wf(),
        ensures
            match r {
                Ok(m) => c.has_machine_name(machine_name@) && m@ == c.machine_with_name(
                    machine_name@,
                ),
                Err(e) => e == DbError::NotFound && !c.has_machine_name(machine_name@),
            },
    {
        let n = c.machines.len();
        let mut i: usize = 0;
        while i < n
            invariant
                i <= n,
                n == c.machines@.len(),
                c.wf(),
                forall|k: int| 0 <= k < i ==> c.machines@[k].name@ != machine_name@,
            decreases n - i,
        {
            if string_eq_str(&c.machines[i].name, machine_name) {
                let m = c.machines[i].clone();
                proof {
                    let j = choose|j: int|
                        0 <= j < c.machines@.len() && c.machines@[j].name@ == machine_name@;
                    assert(j == i);
                }
                return Ok(m);
            }
            i = i + 1;
        }
        Err(DbError::NotFound)
    }

    /// The disks attached to this machine.
    pub fn disks(&self, c: &Store) -> (r: Result<Vec<Disk>, DbError>)
        requires
            c.wf(),
        ensures
            match r {
                Ok(v) => v@.map_values(|d: Disk| d@) == machine_disk_seq(
                    *c,
                    self.id as int,
                    c.disks@.len() as int,
                ),
                Err(_) => false,
            },
    {
        let n = c.disks.len();
        let mut v: Vec<Disk> = Vec::new();
        let mut i: usize = 0;
        proof {
            assert(v@.map_values(|d: Disk| d@) =~= machine_disk_seq(*c, self.id as int, 0));
        }
        while i < n
            invariant
                i <= n,
                n == c.disks@.len(),
                v@.map_values(|d: Disk| d@) == machine_disk_seq(*c, self.id as int, i as int),
            decreases n - i,
        {
            let row = &c.disks[i];
            let ghost prev = v@;
            if row.machine_id == self.id {
                v.push(row.clone());
                proof {
                    assert(v@.map_values(|d: Disk| d@) =~= prev.map_values(|d: Disk| d@).push(
                        c.disks@[i as int]@,
                    ));
                }
            }
            i = i + 1;
        }
        Ok(v)
    }

    /// The network interfaces attached to this machine.
    pub fn nics(&self, c: &Store) -> (r: Result<Vec<Nic>, DbError>)
        requires
            c.wf(),
        ensures
            match r {
                Ok(v) => v@.map_values(|d: Nic| d@) == machine_nic_seq(
                    *c,
                    self.id as int,
                    c.nics@.len() as int,
                ),
                Err(_) => false,
            },
    {
        let n = c.nics.len();
        let mut v: Vec<Nic> = Vec::new();
        let mut i: usize = 0;
        proof {
            assert(v@.map_values(|d: Nic| d@) =~= machine_nic_seq(*c, self.id as int, 0));
        }
        while i < n
            invariant
                i <= n,
                n == c.nics@.len(),
                v@.map_values(|d: Nic| d@) == machine_nic_seq(*c, self.id as int, i as int),
            decreases n - i,
        {
            let row = &c.nics[i];
            let ghost prev = v@;
            if row.machine_id == self.id {
                v.push(row.clone());
                proof {
                    assert(v@.map_values(|d: Nic| d@) =~= prev.map_values(|d: Nic| d@).push(
                        c.nics@[i as int]@,
                    ));
                }
            }
            i = i + 1;
        }
        Ok(v)
    }
}

impl Processor {
    /// All processors, in name order.
    pub fn all(c: &Store) -> (r: Result<Vec<Processor>, DbError>)
        requires
            c.wf(),
        ensures
            match r {
                Ok(v) => {
                    &&& v@.len() == c.processors@.len()
                    &&& forall|i: int| 0 <= i < v@.len() ==> v@[i]@ == #[trigger] c.processors@[i]@
                },
                Err(_) => false,
            },
    {
        let n = c.processors.len();
        let mut v: Vec<Processor> = Vec::new();
        let mut i: usize = 0;
        while i < n
            invariant
                i <= n,
                n == c.processors@.len(),
                v@.len() == i,
                forall|k: int| 0 <= k < i ==> v@[k]@ == #[trigger] c.processors@[k]@,
            decreases n - i,
        {
            let row = &c.processors[i];
            v.push(row.clone());
            i = i + 1;
        }
        Ok(v)
    }

    /// The processor with this id.
    pub fn get(processor_id: i32, c: &Store) -> (r: Result<Processor, DbError>)
        requires
            c.wf(),
        ensures
            match r {
                Ok(p) => c.has_processor_id(processor_id as int) && p@ == c.processor_with_id(
                    processor_id as int,
                ),
                Err(e) => e == DbError::NotFound && !c.has_processor_id(processor_id as int),
            },
    {
        let n = c.processors.len();
        let mut i: usize = 0;
        while i < n
            invariant
                i <= n,
                n == c.processors@.len(),
                c.wf(),
                forall|k: int| 0 <= k < i ==> c.processors@[k].id != processor_id,
            decreases n - i,
        {
            if c.processors[i].id == processor_id {
                let p = c.processors[i].clone();
                proof {
                    let j = choose|j: int|
                        0 <= j < c.processors@.len() && c.processors@[j].id == processor_id;
                    assert(j == i);
                }
                return Ok(p);
            }
            i = i + 1;
        }
        Err(DbError::NotFound)
    }
}

impl Microarchitecture {
    /// The architecture this microarchitecture belongs to.
    pub fn arch(&self, c: &Store) -> (r: Result<Architecture, DbError>)
        requires
            c.wf(),
        ensures
            match r {
                Ok(a) => c.has_arch_id(self.arch_id as int) && a@ == c.arch_with_id(
                    self.arch_id as int,
                ),
                Err(e) => e == DbError::NotFound && !c.has_arch_id(self.arch_id as int),
            },
    {
        let n = c.architectures.len();
        let mut i: usize = 0;
        while i < n
            invariant
                i <= n,
                n == c.architectures@.len(),
                c.wf(),
                forall|k: int| 0 <= k < i ==> c.architectures@[k].id != self.arch_id,
            decreases n - i,
        {
            if c.architectures[i].id == self.arch_id {
                let a = c.architectures[i].clone();
                proof {
                    let j = choose|j: int|
                        0 <= j < c.architectures@.len() && c.architectures@[j].id == self.arch_id;
                    assert(j == i);
                }
                return Ok(a);
            }
            i = i + 1;
        }
        Err(DbError::NotFound)
    }
}

/// A pending machine row, built up before insertion.
pub struct MachineBuilder {
    pub name: String,
    pub processor_id: Option<i32>,
    pub memory_gb: Option<i32>,
}

impl MachineBuilder {
    pub fn new(name: String) -> (r: MachineBuilder)
        ensures
            r.name@ == name@,
            r.processor_id is None,
            r.memory_gb is None,
    {
        MachineBuilder { name, processor_id: Option::None, memory_gb: Option::None }
    }

    pub fn memory_gb(self, mem: i32) -> (r: MachineBuilder)
        ensures
            r.name@ == self.name@,
            r.processor_id == self.processor_id,
            r.memory_gb == Option::Some(mem),
    {
        MachineBuilder { memory_gb: Option::Some(mem), ..self }
    }

    pub fn processor(self, p: &Processor) -> (r: MachineBuilder)
        ensures
            r.name@ == self.name@,
            r.processor_id == Option::Some(p.id),
            r.memory_gb == self.memory_gb,
    {
        MachineBuilder { processor_id: Option::Some(p.id), ..self }
    }

    /// Persist the new machine.  The name must be free, the processor must
    /// exist, and both optional columns must have been set.
    pub fn insert(self, c: &mut Store) -> (r: Result<Machine, DbError>)
        requires
            old(c).wf(),
            old(c).next_id < i32::MAX,
        ensures
            final(c).wf(),
            final(c).machines_frame(*old(c)),
            match r {
                Ok(m) => {
                    &&& self.processor_id matches Some(pid) && m.processor_id == pid && old(
                        c,
                    ).has_processor_id(pid as int)
                    &&& self.memory_gb matches Some(gb) && m.memory_gb == gb
                    &&& !old(c).has_machine_name(self.name@)
                    &&& m.name@ == self.name@
                    &&& final(c).has_machine_name(self.name@)
                    &&& m@ == final(c).machine_with_name(self.name@)
                    &&& final(c).has_machine_id(m.id as int)
                    &&& !old(c).has_machine_id(m.id as int)
                    &&& exists|pos: int|
                        0 <= pos <= old(c).machines@.len() && final(c).machines@ =~= old(
                            c,
                        ).machines@.insert(pos, final(c).machines@[pos])
                            && final(c).machines@[pos]@ == m@
                    &&& forall|mid: int|
                        final(c).has_machine_id(mid) <==> old(c).has_machine_id(mid) || mid == m.id
                },
                Err(e) => {
                    &&& *final(c) == *old(c)
                    &&& e == DbError::NotNullViolation ==> (self.processor_id is None
                        || self.memory_gb is None)
                    &&& e == DbError::ForeignKeyViolation ==> (self.processor_id matches Some(pid)
                        && !old(c).has_processor_id(pid as int))
                    &&& e == DbError::UniqueViolation ==> old(c).has_machine_name(self.name@)
                    &&& (e == DbError::NotNullViolation || e == DbError::ForeignKeyViolation || e
                        == DbError::UniqueViolation)
                },
            },
    {
        let pid = match self.processor_id {
            Option::Some(p) => p,
            Option::None => {
                return Err(DbError::NotNullViolation);
            },
        };
        let gb = match self.memory_gb {
            Option::Some(g) => g,
            Option::None => {
                return Err(DbError::NotNullViolation);
            },
        };
        if !c.has_processor_id_exec(pid) {
            return Err(DbError::ForeignKeyViolation);
        }
        let slot = crate::db::store::machine_insert_slot(&c.machines, self.name.as_str());
        let pos = match slot {
            Option::None => {
                return Err(DbError::UniqueViolation);
            },
            Option::Some(p) => p,
        };
        proof {
            crate::util::lemma_seq_char_le_total(self.name@, self.name@);
            assert(!c.has_machine_name(self.name@));
        }
        let id = c.next_id;
        let row = Machine { id, name: self.name, processor_id: pid, memory_gb: gb };
        let m = row.clone();
        let ghost prev = *c;
        c.machines.insert(pos, row);
        c.next_id = id + 1;
        proof {
            crate::db::store::lemma_machine_insert_wf(prev, *c, pos as int, m.name@);
            assert(c.has_machine_name(m.name@)) by {
                assert(c.machines@[pos as int].name@ == m.name@);
            }
            assert(m@ == c.machine_with_name(m.name@)) by {
                let j = choose|i: int|
                    0 <= i < c.machines@.len() && c.machines@[i].name@ == m.name@;
                assert(c.machines@[pos as int].name@ == m.name@);
                if j != pos {
                    assert(c.machines@[j].name@ != c.machines@[pos as int].name@);
                }
            }
            assert(!prev.has_machine_id(m.id as int)) by {
                if prev.has_machine_id(m.id as int) {
                    let j = choose|j: int|
                        0 <= j < prev.machines@.len() && prev.machines@[j].id == m.id;
                    assert(prev.machines@[j].id < prev.next_id);
                }
            }
            assert(c.machines@[pos as int]@ == m@);
        }
        Ok(m)
    }
}

/// A machine with its full descriptive hierarchy resolved.
pub struct FullMachine {
    pub machine: Machine,
    pub processor: Processor,
    pub microarch: Microarchitecture,
    pub arch: Architecture,
}

/// A `FullMachine` agrees with a store when each level of its hierarchy is
/// the row its parent references.
pub open spec fn full_machine_wf(c: Store, fm: FullMachine) -> bool {
    &&& fm.processor@ == c.processor_with_id(fm.machine.processor_id as int)
    &&& fm.microarch@ == c.microarch_with_id(fm.processor.microarch_id as int)
    &&& fm.arch@ == c.arch_with_id(fm.microarch.arch_id as int)
}

impl FullMachine {
    fn from(data: (Machine, (Processor, (Microarchitecture, Architecture)))) -> (r: FullMachine)
        ensures
            r.machine == data.0,
            r.processor == data.1.0,
            r.microarch == data.1.1.0,
            r.arch == data.1.1.1,
    {
        let (machine, (processor, (microarch, arch))) = data;
        FullMachine { machine, processor, microarch, arch }
    }

    /// All machines with their hierarchies, in machine-name order.
    pub fn all(c: &Store) -> (r: Result<Vec<FullMachine>, DbError>)
        requires
            c.wf(),
        ensures
            match r {
                Ok(v) => {
                    &&& v@.len() == c.machines@.len()
                    &&& forall|i: int|
                        0 <= i < v@.len() ==> (#[trigger] v@[i].machine)@ == c.machines@[i]@
                            && full_machine_wf(*c, v@[i])
                },
                Err(_) => false,
            },
    {
        let n = c.machines.len();
        let mut v: Vec<FullMachine> = Vec::new();
        let mut i: usize = 0;
        while i < n
            invariant
                i <= n,
                n == c.machines@.len(),
                c.wf(),
                v@.len() == i,
                forall|k: int|
                    0 <= k < i ==> (#[trigger] v@[k].machine)@ == c.machines@[k]@
                        && full_machine_wf(*c, v@[k]),
            decreases n - i,
        {
            let m = c.machines[i].clone();
            let fm = resolve_hierarchy(c, m);
            v.push(fm);
            i = i + 1;
        }
        Ok(v)
    }

    /// The machine with this name, with its hierarchy.
    pub fn with_name(machine_name: &str, c: &Store) -> (r: Result<FullMachine, DbError>)
        requires
            c.wf(),
        ensures
            match r {
                Ok(fm) => {
                    &&& c.has_machine_name(machine_name@)
                    &&& fm.machine@ == c.machine_with_name(machine_name@)
                    &&& full_machine_wf(*c, fm)
                },
                Err(e) => e == DbError::NotFound && !c.has_machine_name(machine_name@),
            },
    {
        let m = match Machine::with_name(machine_name, c) {
            Ok(m) => m,
            Err(e) => {
                return Err(e);
            },
        };
        proof {
            assert(c.has_machine_id(m.id as int)) by {
                let j = choose|j: int|
                    0 <= j < c.machines@.len() && c.machines@[j].name@ == machine_name@;
                assert(c.machines@[j].id == m.id);
            }
            let j = choose|j: int|
                0 <= j < c.machines@.len() && c.machines@[j].name@ == machine_name@;
            assert(c.has_processor_id(c.machines@[j].processor_id as int));
            assert(m.processor_id == c.machines@[j].processor_id);
        }
        Ok(resolve_hierarchy(c, m))
    }

    pub fn architecture(&self) -> (r: &Architecture)
        ensures
            r == &self.arch,
    {
        &self.arch
    }

    pub fn cores(&self) -> (r: i32)
        ensures
            r == self.processor.cores,
    {
        self.processor.cores
    }

    pub fn freq_mhz(&self) -> (r: i32)
        ensures
            r == self.processor.freq_mhz,
    {
        self.processor.freq_mhz
    }

    pub fn machine(&self) -> (r: &Machine)
        ensures
            r == &self.machine,
    {
        &self.machine
    }

    pub fn memory_gb(&self) -> (r: i32)
        ensures
            r == self.machine.memory_gb,
    {
        self.machine.memory_gb
    }

    pub fn microarchitecture(&self) -> (r: &Microarchitecture)
        ensures
            r == &self.microarch,
    {
        &self.microarch
    }

    pub fn name(&self) -> (r: &str)
        ensures
            r@ == self.machine.name@,
    {
        self.machine.name.as_str()
    }

    pub fn processor(&self) -> (r: &Processor)
        ensures
            r == &self.processor,
    {
        &self.processor
    }
}

/// Resolve the processor, microarchitecture and architecture a machine
/// references, which the store's referential integrity guarantees exist.
fn resolve_hierarchy(c: &Store, m: Machine) -> (r: FullMachine)
    requires
        c.wf(),
        c.has_processor_id(m.processor_id as int),
    ensures
        r.machine == m,
        full_machine_wf(*c, r),
{
    let p = processor_by_id_known(c, m.processor_id);
    proof {
        let j = choose|j: int|
            0 <= j < c.processors@.len() && c.processors@[j].id == m.processor_id;
        assert(c.processors@[j]@ == c.processor_with_id(m.processor_id as int));
        assert(c.has_microarch_id(c.processors@[j].microarch_id as int));
    }
    let ma = microarch_by_id_known(c, p.microarch_id);
    proof {
        let j = choose|j: int|
            0 <= j < c.microarchitectures@.len() && c.microarchitectures@[j].id == p.microarch_id;
        assert(c.microarchitectures@[j]@ == c.microarch_with_id(p.microarch_id as int));
        assert(c.has_arch_id(c.microarchitectures@[j].arch_id as int));
    }
    let a = arch_by_id_known(c, ma.arch_id);
    FullMachine::from((m, (p, (ma, a))))
}

/// The processor with a given id, which is known to exist.
fn processor_by_id_known(c: &Store, pid: i32) -> (r: Processor)
    requires
        c.processor_ids_unique(),
        c.has_processor_id(pid as int),
    ensures
        r@ == c.processor_with_id(pid as int),
        r.id == pid,
{
    let n = c.processors.len();
    let mut i: usize = 0;
    while i < n
        invariant
            i <= n,
            n == c.processors@.len(),
            c.processor_ids_unique(),
            c.has_processor_id(pid as int),
            forall|k: int| 0 <= k < i ==> c.processors@[k].id != pid,
        decreases n - i,
    {
        if c.processors[i].id == pid {
            let r = c.processors[i].clone();
            proof {
                let j = choose|j: int| 0 <= j < c.processors@.len() && c.processors@[j].id == pid;
                assert(j == i);
            }
            return r;
        }
        i = i + 1;
    }
    proof {
        assert(false);
    }
    unreached()
}

/// The microarchitecture with a given id, which is known to exist.
fn microarch_by_id_known(c: &Store, mid: i32) -> (r: Microarchitecture)
    requires
        c.microarch_ids_unique(),
        c.has_microarch_id(mid as int),
    ensures
        r@ == c.microarch_with_id(mid as int),
        r.id == mid,
{
    let n = c.microarchitectures.len();
    let mut i: usize = 0;
    while i < n
        invariant
            i <= n,
            n == c.microarchitectures@.len(),
            c.microarch_ids_unique(),
            c.has_microarch_id(mid as int),
            forall|k: int| 0 <= k < i ==> c.microarchitectures@[k].id != mid,
        decreases n - i,
    {
        if c.microarchitectures[i].id == mid {
            let r = c.microarchitectures[i].clone();
            proof {
                let j = choose|j: int|
                    0 <= j < c.microarchitectures@.len() && c.microarchitectures@[j].id == mid;
                assert(j == i);
            }
            return r;
        }
        i = i + 1;
    }
    proof {
        assert(false);
    }
    unreached()
}

/// The architecture with a given id, which is known to exist.
fn arch_by_id_known(c: &Store, aid: i32) -> (r: Architecture)
    requires
        c.architecture_ids_unique(),
        c.has_arch_id(aid as int),
    ensures
        r@ == c.arch_with_id(aid as int),
        r.id == aid,
{
    let n = c.architectures.len();
    let mut i: usize = 0;
    while i < n
        invariant
            i <= n,
            n == c.architectures@.len(),
            c.architecture_ids_unique(),
            c.has_arch_id(aid as int),
            forall|k: int| 0 <= k < i ==> c.architectures@[k].id != aid,
        decreases n - i,
    {
        if c.architectures[i].id == aid {
            let r = c.architectures[i].clone();
            proof {
                let j = choose|j: int|
                    0 <= j < c.architectures@.len() && c.architectures@[j].id == aid;
                assert(j == i);
            }
            return r;
        }
        i = i + 1;
    }
    proof {
        assert(false);
    }
    unreached()
}

// ---------------------------------------------------------------------------
// Set reconciliation: roles and emails
// ---------------------------------------------------------------------------

/// The set of views of a sequence of strings.
pub open spec fn string_view_set(v: Seq<String>) -> Set<Seq<char>> {
    Set::new(|a: Seq<char>| exists|k: int| 0 <= k < v.len() && #[trigger] v[k]@ == a)
}

/// The names carried by a sequence of role views.
pub open spec fn role_names_of(s: Seq<RoleView>) -> Set<Seq<char>> {
    Set::new(|n: Seq<char>| exists|k: int| 0 <= k < s.len() && #[trigger] s[k].name == n)
}

/// With unique role ids, `role_with_id` of a row's id is that row.
pub proof fn lemma_role_with_id_of_row(c: Store, j: int)
    requires
        c.role_ids_unique(),
        0 <= j < c.roles@.len(),
    ensures
        c.role_with_id(c.roles@[j].id as int) == c.roles@[j]@,
{
    let rid = c.roles@[j].id as int;
    assert(c.has_role_id(rid)) by {
        assert(c.roles@[j].id == rid);
    }
    let k = choose|k: int| 0 <= k < c.roles@.len() && c.roles@[k].id == rid;
    if k != j {
        assert(c.roles@[k].id != c.roles@[j].id);
    }
}

/// The assignment rows that survive reconciling `uid`'s roles to `names`:
/// every other user's rows, and `uid`'s rows whose role name is kept.
pub open spec fn assignments_kept(
    c: Store,
    uid: int,
    names: Seq<Seq<char>>,
    upto: int,
) -> Seq<RoleAssignmentView>
    decreases upto,
{
    if upto <= 0 {
        Seq::empty()
    } else {
        let rest = assignments_kept(c, uid, names, upto - 1);
        let a = c.role_assignments@[upto - 1];
        if a.user_id != uid || string_view_contains(
            names,
            c.role_with_id(a.role_id as int).name,
        ) {
            rest.push(a@)
        } else {
            rest
        }
    }
}

/// Membership in a sequence of character sequences.
pub open spec fn string_view_contains(names: Seq<Seq<char>>, n: Seq<char>) -> bool {
    exists|k: int| 0 <= k < names.len() && names[k] == n
}

/// What `assignments_kept` holds: exactly the surviving rows.
pub proof fn lemma_assignments_kept_contains(
    c: Store,
    uid: int,
    names: Seq<Seq<char>>,
    upto: int,
    av: RoleAssignmentView,
)
    requires
        0 <= upto <= c.role_assignments@.len(),
    ensures
        assignments_kept(c, uid, names, upto).contains(av) <==> exists|j: int|
            0 <= j < upto && #[trigger] c.role_assignments@[j]@ == av && (
            c.role_assignments@[j].user_id != uid || string_view_contains(
                names,
                c.role_with_id(c.role_assignments@[j].role_id as int).name,
            )),
    decreases upto,
{
    if upto > 0 {
        lemma_assignments_kept_contains(c, uid, names, upto - 1, av);
        let s = assignments_kept(c, uid, names, upto);
        let rest = assignments_kept(c, uid, names, upto - 1);
        let a = c.role_assignments@[upto - 1];
        if a.user_id != uid || string_view_contains(names, c.role_with_id(a.role_id as int).name) {
            assert(s == rest.push(a@));
            if s.contains(av) {
                let k = choose|k: int| 0 <= k < s.len() && s[k] == av;
                if k < rest.len() {
                    assert(rest[k] == av);
                } else {
                    assert(c.role_assignments@[upto - 1]@ == av);
                }
            }
            if exists|j: int|
                0 <= j < upto && #[trigger] c.role_assignments@[j]@ == av && (
                c.role_assignments@[j].user_id != uid || string_view_contains(
                    names,
                    c.role_with_id(c.role_assignments@[j].role_id as int).name,
                )) {
                let j = choose|j: int|
                    0 <= j < upto && #[trigger] c.role_assignments@[j]@ == av && (
                    c.role_assignments@[j].user_id != uid || string_view_contains(
                        names,
                        c.role_with_id(c.role_assignments@[j].role_id as int).name,
                    ));
                if j == upto - 1 {
                    assert(s[s.len() - 1] == av);
                } else {
                    let k = choose|k: int| 0 <= k < rest.len() && rest[k] == av;
                    assert(s[k] == av);
                }
            }
        } else {
            if s.contains(av) {
                let k = choose|k: int| 0 <= k < s.len() && s[k] == av;
                assert(rest[k] == av);
            }
            if exists|j: int|
                0 <= j < upto && #[trigger] c.role_assignments@[j]@ == av && (
                c.role_assignments@[j].user_id != uid || string_view_contains(
                    names,
                    c.role_with_id(c.role_assignments@[j].role_id as int).name,
                )) {
                let j = choose|j: int|
                    0 <= j < upto && #[trigger] c.role_assignments@[j]@ == av && (
                    c.role_assignments@[j].user_id != uid || string_view_contains(
                        names,
                        c.role_with_id(c.role_assignments@[j].role_id as int).name,
                    ));
                assert(j != upto - 1);
                let k = choose|k: int| 0 <= k < rest.len() && rest[k] == av;
                assert(s[k] == av);
            }
        }
    }
}

/// The views of a sequence of strings, in order.
pub open spec fn string_views(v: Seq<String>) -> Seq<Seq<char>> {
    v.map_values(|s: String| s@)
}

impl User {
    /// Replace this user's role set: role assignments absent from `new_roles`
    /// are removed, missing ones are added, and every other user's
    /// assignments are untouched.  When a requested role name does not
    /// exist, or this user is not in the store, nothing is changed.
    #[verifier::rlimit(100)]
    pub fn set_roles(&self, new_roles: &Vec<String>, c: &mut Store) -> (r: Result<(), DbError>)
        requires
            old(c).wf(),
            forall|k: int, l: int|
                0 <= k < l < new_roles@.len() ==> new_roles@[k]@ != new_roles@[l]@,
            old(c).next_id as int + new_roles@.len() <= i32::MAX as int,
        ensures
            final(c).wf(),
            final(c).assignments_frame(*old(c)),
            old(c).next_id <= final(c).next_id,
            final(c).next_id as int <= old(c).next_id as int + new_roles@.len(),
            match r {
                Ok(_) => {
                    &&& old(c).has_user_id(self.id as int)
                    &&& forall|k: int|
                        0 <= k < new_roles@.len() ==> old(c).has_role_name(
                            #[trigger] new_roles@[k]@,
                        )
                    &&& final(c).user_role_names(self.id as int) =~= string_view_set(new_roles@)
                    &&& forall|uid2: int, rid: int|
                        uid2 != self.id as int ==> #[trigger] final(c).assignment_for(uid2, rid)
                            == old(c).assignment_for(uid2, rid)
                    &&& forall|av: RoleAssignmentView|
                        #[trigger] assignments_kept(
                            *old(c),
                            self.id as int,
                            string_views(new_roles@),
                            old(c).role_assignments@.len() as int,
                        ).contains(av) ==> exists|i: int|
                            0 <= i < final(c).role_assignments@.len()
                                && final(c).role_assignments@[i]@ == av
                    &&& forall|i: int|
                        #![trigger final(c).role_assignments@[i]]
                        0 <= i < final(c).role_assignments@.len() ==> ((exists|j: int|
                            0 <= j < old(c).role_assignments@.len() && #[trigger] old(
                                c,
                            ).role_assignments@[j]@ == final(c).role_assignments@[i]@) || (
                        final(c).role_assignments@[i].user_id == self.id
                            && final(c).role_assignments@[i].id >= old(c).next_id))
                },
                Err(e) => {
                    &&& *final(c) == *old(c)
                    &&& e == DbError::NotFound ==> exists|k: int|
                        0 <= k < new_roles@.len() && !old(c).has_role_name(
                            #[trigger] new_roles@[k]@,
                        )
                    &&& e == DbError::ForeignKeyViolation ==> !old(c).has_user_id(self.id as int)
                    &&& (e == DbError::NotFound || e == DbError::ForeignKeyViolation)
                },
            },
    {
        let uid = self.id;
        let ghost names = string_views(new_roles@);
        if !c.has_user_id_exec(uid) {
            return Err(DbError::ForeignKeyViolation);
        }
        // Resolve every requested role name first, so that an unknown name
        // leaves the store untouched.
        let m = new_roles.len();
        let mut ids: Vec<i32> = Vec::new();
        let mut k: usize = 0;
        while k < m
            invariant
                k <= m,
                m == new_roles@.len(),
                *c == *old(c),
                c.wf(),
                ids@.len() == k,
                forall|t: int| 0 <= t < k ==> c.has_role_name(#[trigger] new_roles@[t]@),
                forall|t: int|
                    0 <= t < k ==> #[trigger] ids@[t] as int == c.role_with_name(
                        new_roles@[t]@,
                    ).id,
            decreases m - k,
        {
            let name_ref = &new_roles[k];
            match Role::with_name(name_ref.as_str(), c) {
                Ok(role) => {
                    ids.push(role.id);
                },
                Err(_) => {
                    return Err(DbError::NotFound);
                },
            }
            k = k + 1;
        }
        // Remove assignments that are not in the new set.
        let n = c.role_assignments.len();
        let mut kept: Vec<RoleAssignment> = Vec::new();
        let mut i: usize = 0;
        proof {
            assert(kept@.map_values(|a: RoleAssignment| a@) =~= assignments_kept(
                *c,
                uid as int,
                names,
                0,
            ));
        }
        while i < n
            invariant
                i <= n,
                n == c.role_assignments@.len(),
                *c == *old(c),
                c.wf(),
                names == string_views(new_roles@),
                kept@.map_values(|a: RoleAssignment| a@) == assignments_kept(
                    *c,
                    uid as int,
                    names,
                    i as int,
                ),
            decreases n - i,
        {
            let a = &c.role_assignments[i];
            let keep: bool;
            if a.user_id != uid {
                keep = true;
            } else {
                proof {
                    assert(c.has_role_id(c.role_assignments@[i as int].role_id as int));
                }
                let role = role_by_id_known(c, a.role_id);
                keep = crate::util::vec_contains_str(new_roles, role.name.as_str());
                proof {
                    assert(keep == string_view_contains(
                        names,
                        c.role_with_id(c.role_assignments@[i as int].role_id as int).name,
                    )) by {
                        if keep {
                            let t = choose|t: int|
                                0 <= t < new_roles@.len() && #[trigger] new_roles@[t]@
                                    == role.name@;
                            assert(names[t] == role.name@);
                        }
                        if string_view_contains(
                            names,
                            c.role_with_id(c.role_assignments@[i as int].role_id as int).name,
                        ) {
                            let t = choose|t: int|
                                0 <= t < names.len() && names[t] == c.role_with_id(
                                    c.role_assignments@[i as int].role_id as int,
                                ).name;
                            assert(new_roles@[t]@ == role.name@);
                        }
                    }
                }
            }
            let ghost prev = kept@;
            if keep {
                let row = &c.role_assignments[i];
                kept.push(row.clone());
                proof {
                    assert(kept@.map_values(|a: RoleAssignment| a@) =~= prev.map_values(
                        |a: RoleAssignment| a@,
                    ).push(c.role_assignments@[i as int]@));
                }
            }
            proof {
                assert(assignments_kept(*c, uid as int, names, i + 1) == {
                    let rest = assignments_kept(*c, uid as int, names, i as int);
                    let a2 = c.role_assignments@[i as int];
                    if a2.user_id != uid || string_view_contains(
                        names,
                        c.role_with_id(a2.role_id as int).name,
                    ) {
                        rest.push(a2@)
                    } else {
                        rest
                    }
                });
            }
            i = i + 1;
        }
        let ghost keptv = assignments_kept(*old(c), uid as int, names, n as int);
        proof {
            lemma_assignments_kept_distinct(*old(c), uid as int, names, n as int);
        }
        c.role_assignments = kept;
        proof {
            lemma_swap_assignments_wf(*old(c), *c, uid as int, names);
            crate::db::store::lemma_has_user_id_frame(*old(c), *c);
            assert(c.has_user_id(uid as int));
            assert forall|i2: int|
                0 <= i2 < c.role_assignments@.len() implies keptv.contains(
                #[trigger] c.role_assignments@[i2]@,
            ) by {
                assert(keptv[i2] == c.role_assignments@[i2]@);
            }
        }
        // Add assignments that are missing from the current set.
        let mut k: usize = 0;
        while k < m
            invariant
                k <= m,
                m == new_roles@.len(),
                ids@.len() == m,
                names == string_views(new_roles@),
                c.wf(),
                c.assignments_frame(*old(c)),
                c.has_user_id(uid as int),
                old(c).wf(),
                old(c).next_id as int + m <= i32::MAX as int,
                old(c).next_id <= c.next_id,
                c.next_id as int <= old(c).next_id as int + k,
                forall|t: int| 0 <= t < m ==> old(c).has_role_name(#[trigger] new_roles@[t]@),
                forall|t: int|
                    0 <= t < m ==> #[trigger] ids@[t] as int == old(c).role_with_name(
                        new_roles@[t]@,
                    ).id,
                forall|t: int|
                    0 <= t < k ==> c.assignment_for(uid as int, #[trigger] ids@[t] as int),
                forall|i2: int|
                    0 <= i2 < c.role_assignments@.len()
                        && #[trigger] c.role_assignments@[i2].user_id == uid
                        ==> string_view_contains(
                        names,
                        role_view_in(old(c).roles@, c.role_assignments@[i2].role_id as int).name,
                    ),
                forall|i2: int|
                    0 <= i2 < c.role_assignments@.len() && c.role_assignments@[i2].user_id != uid
                        ==> keptv.contains(#[trigger] c.role_assignments@[i2]@),
                forall|i2: int|
                    #![trigger c.role_assignments@[i2]]
                    0 <= i2 < c.role_assignments@.len() ==> (keptv.contains(
                        c.role_assignments@[i2]@,
                    ) || (c.role_assignments@[i2].user_id == uid && c.role_assignments@[i2].id
                        >= old(c).next_id)),
                forall|av: RoleAssignmentView|
                    #[trigger] keptv.contains(av) ==> exists|i2: int|
                        0 <= i2 < c.role_assignments@.len() && c.role_assignments@[i2]@ == av,
                keptv == assignments_kept(*old(c), uid as int, names, n as int),
                n == old(c).role_assignments@.len(),
            decreases m - k,
        {
            let rid = ids[k];
            proof {
                let nm = new_roles@[k as int]@;
                let ji = choose|i2: int|
                    0 <= i2 < old(c).roles@.len() && old(c).roles@[i2].name@ == nm;
                assert(c.roles@[ji].id as int == ids@[k as int] as int);
                assert(c.has_role_id(rid as int));
            }
            if !has_assignment(c, uid, rid) {
                let id = c.next_id;
                let row = RoleAssignment { id, user_id: uid, role_id: rid };
                let ghost pre = *c;
                c.role_assignments.push(row);
                c.next_id = id + 1;
                proof {
                    lemma_push_assignment_wf(pre, *c, uid as int, rid as int);
                    crate::db::store::lemma_has_user_id_frame(pre, *c);
                    assert forall|t: int|
                        0 <= t <= k implies c.assignment_for(uid as int, #[trigger] ids@[t] as int)
                        by {
                        if t < k {
                            let w = choose|w: int|
                                0 <= w < pre.role_assignments@.len()
                                    && pre.role_assignments@[w].user_id == uid as int
                                    && pre.role_assignments@[w].role_id == ids@[t] as int;
                            assert(c.role_assignments@[w].user_id == uid as int
                                && c.role_assignments@[w].role_id == ids@[t] as int);
                        } else {
                            let last = c.role_assignments@.len() - 1;
                            assert(c.role_assignments@[last].user_id == uid as int
                                && c.role_assignments@[last].role_id == ids@[t] as int);
                        }
                    }
                    assert forall|av: RoleAssignmentView|
                        #[trigger] keptv.contains(av) implies exists|i2: int|
                        0 <= i2 < c.role_assignments@.len() && c.role_assignments@[i2]@ == av by {
                        let w = choose|w: int|
                            0 <= w < pre.role_assignments@.len() && pre.role_assignments@[w]@
                                == av;
                        assert(c.role_assignments@[w]@ == av);
                    }
                    assert forall|i2: int|
                        0 <= i2 < c.role_assignments@.len()
                            && #[trigger] c.role_assignments@[i2].user_id
                            == uid implies string_view_contains(
                        names,
                        role_view_in(old(c).roles@, c.role_assignments@[i2].role_id as int).name,
                    ) by {
                        if i2 == c.role_assignments@.len() - 1 {
                            assert(c.role_assignments@[i2].role_id == ids@[k as int]);
                            assert(old(c).has_role_name(new_roles@[k as int]@));
                            let jx = choose|jx: int|
                                0 <= jx < old(c).roles@.len() && old(c).roles@[jx].name@
                                    == new_roles@[k as int]@;
                            lemma_role_with_id_of_row(*old(c), jx);
                            assert(old(c).role_with_name(new_roles@[k as int]@) == old(
                                c,
                            ).roles@[jx]@);
                            assert(names[k as int] == new_roles@[k as int]@);
                        }
                    }
                    assert forall|i2: int|
                        #![trigger c.role_assignments@[i2]]
                        0 <= i2 < c.role_assignments@.len() implies (keptv.contains(
                        c.role_assignments@[i2]@,
                    ) || (c.role_assignments@[i2].user_id == uid && c.role_assignments@[i2].id
                        >= old(c).next_id)) by {
                        if i2 < pre.role_assignments@.len() {
                            assert(c.role_assignments@[i2] == pre.role_assignments@[i2]);
                        } else {
                            assert(c.role_assignments@[i2].id == id);
                        }
                    }
                }
            } else {
                proof {
                    assert(c.assignment_for(uid as int, ids@[k as int] as int));
                }
            }
            k = k + 1;
        }
        // The user's role set is now exactly the requested one.
        proof {
            assert forall|nm: Seq<char>|
                final(c).user_role_names(uid as int).contains(nm) == string_view_set(
                new_roles@,
            ).contains(nm) by {
                if c.user_holds_role_named(uid as int, nm) {
                    let j = choose|j: int|
                        0 <= j < c.roles@.len() && c.roles@[j].name@ == nm && c.assignment_for(
                            uid as int,
                            c.roles@[j].id as int,
                        );
                    let w = choose|w: int|
                        0 <= w < c.role_assignments@.len() && c.role_assignments@[w].user_id == uid
                            as int && c.role_assignments@[w].role_id == c.roles@[j].id as int;
                    assert(string_view_contains(
                        names,
                        role_view_in(old(c).roles@, c.role_assignments@[w].role_id as int).name,
                    ));
                    lemma_role_with_id_of_row(*old(c), j);
                    let t = choose|t: int|
                        0 <= t < names.len() && names[t] == role_view_in(
                            old(c).roles@,
                            c.role_assignments@[w].role_id as int,
                        ).name;
                    assert(new_roles@[t]@ == nm);
                }
                if string_view_set(new_roles@).contains(nm) {
                    let t = choose|t: int|
                        0 <= t < new_roles@.len() && #[trigger] new_roles@[t]@ == nm;
                    assert(c.assignment_for(uid as int, ids@[t] as int));
                    assert(old(c).has_role_name(new_roles@[t]@));
                    let jx = choose|jx: int|
                        0 <= jx < old(c).roles@.len() && old(c).roles@[jx].name@ == nm;
                    lemma_role_with_id_of_row(*old(c), jx);
                    assert(old(c).role_with_name(nm) == old(c).roles@[jx]@);
                    assert(c.roles@[jx].name@ == nm && c.roles@[jx].id as int == ids@[t] as int);
                    assert(c.user_holds_role_named(uid as int, nm));
                }
            }
            assert forall|uid2: int, rid: int|
                uid2 != uid as int implies #[trigger] c.assignment_for(uid2, rid) == old(
                c,
            ).assignment_for(uid2, rid) by {
                if c.assignment_for(uid2, rid) {
                    let w = choose|w: int|
                        0 <= w < c.role_assignments@.len() && c.role_assignments@[w].user_id
                            == uid2 && c.role_assignments@[w].role_id == rid;
                    assert(keptv.contains(c.role_assignments@[w]@));
                    lemma_assignments_kept_contains(
                        *old(c),
                        uid as int,
                        names,
                        n as int,
                        c.role_assignments@[w]@,
                    );
                    let j = choose|j: int|
                        0 <= j < n && #[trigger] old(c).role_assignments@[j]@
                            == c.role_assignments@[w]@ && (old(c).role_assignments@[j].user_id
                            != uid as int || string_view_contains(
                            names,
                            role_view_in(
                                old(c).roles@,
                                old(c).role_assignments@[j].role_id as int,
                            ).name,
                        ));
                    assert(old(c).role_assignments@[j].user_id == uid2
                        && old(c).role_assignments@[j].role_id == rid);
                }
                if old(c).assignment_for(uid2, rid) {
                    let j = choose|j: int|
                        0 <= j < old(c).role_assignments@.len()
                            && old(c).role_assignments@[j].user_id == uid2
                            && old(c).role_assignments@[j].role_id == rid;
                    lemma_assignments_kept_contains(
                        *old(c),
                        uid as int,
                        names,
                        n as int,
                        old(c).role_assignments@[j]@,
                    );
                    assert(keptv.contains(old(c).role_assignments@[j]@));
                    let i2 = choose|i2: int|
                        0 <= i2 < c.role_assignments@.len() && c.role_assignments@[i2]@ == old(
                            c,
                        ).role_assignments@[j]@;
                    assert(c.role_assignments@[i2].user_id == uid2
                        && c.role_assignments@[i2].role_id == rid);
                }
            }
            assert forall|i: int|
                #![trigger c.role_assignments@[i]]
                0 <= i < c.role_assignments@.len() implies ((exists|j: int|
                0 <= j < old(c).role_assignments@.len() && #[trigger] old(c).role_assignments@[j]@
                    == c.role_assignments@[i]@) || (c.role_assignments@[i].user_id == self.id
                && c.role_assignments@[i].id >= old(c).next_id)) by {
                if keptv.contains(c.role_assignments@[i]@) {
                    lemma_assignments_kept_contains(
                        *old(c),
                        uid as int,
                        names,
                        n as int,
                        c.role_assignments@[i]@,
                    );
                    let j = choose|j: int|
                        0 <= j < n && #[trigger] old(c).role_assignments@[j]@
                            == c.role_assignments@[i]@ && (old(c).role_assignments@[j].user_id
                            != uid as int || string_view_contains(
                            names,
                            role_view_in(
                                old(c).roles@,
                                old(c).role_assignments@[j].role_id as int,
                            ).name,
                        ));
                    assert(0 <= j < old(c).role_assignments@.len() && old(
                        c,
                    ).role_assignments@[j]@ == c.role_assignments@[i]@);
                }
            }
        }
        Ok(())
    }
}

/// After the removal pass, the store is still well-formed and its assignment
/// table is exactly the surviving rows.
proof fn lemma_swap_assignments_wf(prev: Store, cur: Store, uid: int, names: Seq<Seq<char>>)
    requires
        prev.wf(),
        cur.assignments_frame(prev),
        cur.next_id == prev.next_id,
        cur.role_assignments@.map_values(|a: RoleAssignment| a@) == assignments_kept(
            prev,
            uid,
            names,
            prev.role_assignments@.len() as int,
        ),
    ensures
        cur.wf(),
        forall|i2: int|
            0 <= i2 < cur.role_assignments@.len() && cur.role_assignments@[i2].user_id != uid
                ==> assignments_kept(prev, uid, names, prev.role_assignments@.len() as int).contains(
                #[trigger] cur.role_assignments@[i2]@,
            ),
        forall|i2: int|
            0 <= i2 < cur.role_assignments@.len() && #[trigger] cur.role_assignments@[i2].user_id
                == uid ==> string_view_contains(
                names,
                role_view_in(prev.roles@, cur.role_assignments@[i2].role_id as int).name,
            ),
        forall|av: RoleAssignmentView|
            #[trigger] assignments_kept(prev, uid, names, prev.role_assignments@.len() as int).contains(
                av,
            ) ==> exists|i2: int|
                0 <= i2 < cur.role_assignments@.len() && cur.role_assignments@[i2]@ == av,
    decreases 0int,
{
    let n = prev.role_assignments@.len() as int;
    let keptv = assignments_kept(prev, uid, names, n);
    let cv = cur.role_assignments@;
    assert(cv.map_values(|a: RoleAssignment| a@).len() == cv.len());
    assert forall|i2: int| 0 <= i2 < cv.len() implies keptv.contains(#[trigger] cv[i2]@) by {
        assert(keptv[i2] == cv[i2]@);
    }
    lemma_assignments_kept_distinct(prev, uid, names, n);
    assert forall|a: int, b: int| 0 <= a < b < cv.len() implies cv[a].id != cv[b].id && !(
    cv[a].user_id == cv[b].user_id && cv[a].role_id == cv[b].role_id) by {
        assert(keptv[a] == cv[a]@ && keptv[b] == cv[b]@);
    }
    assert forall|i2: int|
        0 <= i2 < cv.len() implies prev.has_user_id(#[trigger] cv[i2].user_id as int)
        && prev.has_role_id(cv[i2].role_id as int) && cv[i2].id < prev.next_id by {
        lemma_assignments_kept_contains(prev, uid, names, n, cv[i2]@);
        let j = choose|j: int|
            0 <= j < n && #[trigger] prev.role_assignments@[j]@ == cv[i2]@ && (
            prev.role_assignments@[j].user_id != uid || string_view_contains(
                names,
                role_view_in(prev.roles@, prev.role_assignments@[j].role_id as int).name,
            ));
        assert(prev.has_user_id(prev.role_assignments@[j].user_id as int));
        assert(prev.has_role_id(prev.role_assignments@[j].role_id as int));
        assert(prev.role_assignments@[j].id < prev.next_id);
    }
    lemma_has_user_id_same(prev, cur);
    lemma_has_role_id_same(prev, cur);
    crate::db::store::lemma_has_machine_id_frame(prev, cur);
    crate::db::store::lemma_has_processor_id_frame(prev, cur);
    crate::db::store::lemma_has_microarch_id_frame(prev, cur);
    crate::db::store::lemma_has_arch_id_frame(prev, cur);
    assert forall|i2: int|
        0 <= i2 < cur.emails@.len() implies cur.has_user_id(
        #[trigger] cur.emails@[i2].user_id as int,
    ) by {
        assert(prev.has_user_id(prev.emails@[i2].user_id as int));
    }
    assert forall|i2: int|
        0 <= i2 < cur.github_accounts@.len() implies cur.has_user_id(
        #[trigger] cur.github_accounts@[i2].user_id as int,
    ) by {
        assert(prev.has_user_id(prev.github_accounts@[i2].user_id as int));
    }
    assert forall|i2: int|
        0 <= i2 < cur.machines@.len() implies cur.has_processor_id(
        #[trigger] cur.machines@[i2].processor_id as int,
    ) by {
        assert(prev.has_processor_id(prev.machines@[i2].processor_id as int));
    }
    assert forall|i2: int|
        0 <= i2 < cur.processors@.len() implies cur.has_microarch_id(
        #[trigger] cur.processors@[i2].microarch_id as int,
    ) by {
        assert(prev.has_microarch_id(prev.processors@[i2].microarch_id as int));
    }
    assert forall|i2: int|
        0 <= i2 < cur.microarchitectures@.len() implies cur.has_arch_id(
        #[trigger] cur.microarchitectures@[i2].arch_id as int,
    ) by {
        assert(prev.has_arch_id(prev.microarchitectures@[i2].arch_id as int));
    }
    assert forall|i2: int|
        0 <= i2 < cur.disks@.len() implies cur.has_machine_id(
        #[trigger] cur.disks@[i2].machine_id as int,
    ) by {
        assert(prev.has_machine_id(prev.disks@[i2].machine_id as int));
    }
    assert forall|i2: int|
        0 <= i2 < cur.nics@.len() implies cur.has_machine_id(
        #[trigger] cur.nics@[i2].machine_id as int,
    ) by {
        assert(prev.has_machine_id(prev.nics@[i2].machine_id as int));
    }
    assert forall|i2: int|
        0 <= i2 < cur.reservations@.len() implies cur.has_user_id(
        #[trigger] cur.reservations@[i2].user_id as int,
    ) by {
        assert(prev.has_user_id(prev.reservations@[i2].user_id as int));
    }
    assert forall|i2: int|
        0 <= i2 < cur.reservations@.len() implies cur.has_machine_id(
        #[trigger] cur.reservations@[i2].machine_id as int,
    ) by {
        assert(prev.has_machine_id(prev.reservations@[i2].machine_id as int));
    }
    assert forall|i2: int|
        0 <= i2 < cur.role_assignments@.len() implies cur.has_user_id(
        #[trigger] cur.role_assignments@[i2].user_id as int,
    ) by {
        assert(prev.has_user_id(cv[i2].user_id as int));
    }
    assert forall|i2: int|
        0 <= i2 < cur.role_assignments@.len() implies cur.has_role_id(
        #[trigger] cur.role_assignments@[i2].role_id as int,
    ) by {
        assert(prev.has_user_id(cv[i2].user_id as int));
        assert(prev.has_role_id(cv[i2].role_id as int));
    }
    assert forall|i2: int|
        0 <= i2 < cur.role_assignments@.len() implies #[trigger] cur.role_assignments@[i2].id
        < cur.next_id by {
        assert(prev.has_user_id(cv[i2].user_id as int));
    }
    assert(cur.foreign_keys_ok());
    assert forall|i2: int|
        0 <= i2 < cv.len() && #[trigger] cv[i2].user_id == uid implies string_view_contains(
        names,
        role_view_in(prev.roles@, cv[i2].role_id as int).name,
    ) by {
        lemma_assignments_kept_contains(prev, uid, names, n, cv[i2]@);
        let j = choose|j: int|
            0 <= j < n && #[trigger] prev.role_assignments@[j]@ == cv[i2]@ && (
            prev.role_assignments@[j].user_id != uid || string_view_contains(
                names,
                role_view_in(prev.roles@, prev.role_assignments@[j].role_id as int).name,
            ));
        assert(prev.role_assignments@[j].role_id == cv[i2].role_id);
    }
    assert forall|av: RoleAssignmentView| #[trigger] keptv.contains(av) implies exists|i2: int|
        0 <= i2 < cv.len() && cv[i2]@ == av by {
        let k = choose|k: int| 0 <= k < keptv.len() && keptv[k] == av;
        assert(cv[k]@ == av);
    }
}

/// `has_user_id` and `has_role_id` transfer between stores with the same
/// user and role tables.
proof fn lemma_has_user_id_same(prev: Store, cur: Store)
    requires
        cur.users == prev.users,
    ensures
        forall|x: int| #[trigger] cur.has_user_id(x) == prev.has_user_id(x),
{
    crate::db::store::lemma_has_user_id_frame(prev, cur);
}

proof fn lemma_has_role_id_same(prev: Store, cur: Store)
    requires
        cur.roles == prev.roles,
    ensures
        forall|x: int| #[trigger] cur.has_role_id(x) == prev.has_role_id(x),
{
    crate::db::store::lemma_has_role_id_frame(prev, cur);
}

/// Adding a fresh assignment row for an existing user and role keeps the
/// store well-formed.
proof fn lemma_push_assignment_wf(prev: Store, cur: Store, uid: int, rid: int)
    requires
        prev.wf(),
        prev.next_id < i32::MAX,
        prev.has_user_id(uid),
        prev.has_role_id(rid),
        !prev.assignment_for(uid, rid),
        cur.role_assignments@ == prev.role_assignments@.push(
            cur.role_assignments@.last(),
        ),
        cur.role_assignments@.last().id == prev.next_id,
        cur.role_assignments@.last().user_id == uid,
        cur.role_assignments@.last().role_id == rid,
        cur.next_id == prev.next_id + 1,
        cur.assignments_frame(prev),
    ensures
        cur.wf(),
{
    let u = cur.role_assignments@;
    let p = prev.role_assignments@;
    assert forall|a: int, b: int| 0 <= a < b < u.len() implies u[a].id != u[b].id && !(u[a].user_id
        == u[b].user_id && u[a].role_id == u[b].role_id) by {
        assert(u[a] == p[a]);
        if b < p.len() {
            assert(u[b] == p[b]);
        } else {
            assert(u[b].id == prev.next_id);
            if u[a].user_id == uid && u[a].role_id == rid {
                assert(prev.assignment_for(uid, rid));
            }
        }
    }
    lemma_has_user_id_same(prev, cur);
    lemma_has_role_id_same(prev, cur);
    crate::db::store::lemma_has_machine_id_frame(prev, cur);
    crate::db::store::lemma_has_processor_id_frame(prev, cur);
    crate::db::store::lemma_has_microarch_id_frame(prev, cur);
    crate::db::store::lemma_has_arch_id_frame(prev, cur);
    assert forall|i2: int|
        0 <= i2 < u.len() implies prev.has_user_id(#[trigger] u[i2].user_id as int)
        && prev.has_role_id(u[i2].role_id as int) && u[i2].id < cur.next_id by {
        if i2 < p.len() {
            assert(u[i2] == p[i2]);
        }
    }
    assert(cur.foreign_keys_ok());
}

/// The email rows that survive reconciling `uid`'s addresses to `keep`:
/// every other user's rows, and `uid`'s rows whose address is kept.
pub open spec fn emails_kept(c: Store, uid: int, keep: Seq<Seq<char>>, upto: int) -> Seq<EmailView>
    decreases upto,
{
    if upto <= 0 {
        Seq::empty()
    } else {
        let rest = emails_kept(c, uid, keep, upto - 1);
        let e = c.emails@[upto - 1];
        if e.user_id != uid || string_view_contains(keep, e.email@) {
            rest.push(e@)
        } else {
            rest
        }
    }
}

/// What `emails_kept` holds: exactly the surviving rows.
pub proof fn lemma_emails_kept_contains(
    c: Store,
    uid: int,
    keep: Seq<Seq<char>>,
    upto: int,
    ev: EmailView,
)
    requires
        0 <= upto <= c.emails@.len(),
    ensures
        emails_kept(c, uid, keep, upto).contains(ev) <==> exists|j: int|
            0 <= j < upto && #[trigger] c.emails@[j]@ == ev && (c.emails@[j].user_id != uid
                || string_view_contains(keep, c.emails@[j].email@)),
    decreases upto,
{
    if upto > 0 {
        lemma_emails_kept_contains(c, uid, keep, upto - 1, ev);
        let s = emails_kept(c, uid, keep, upto);
        let rest = emails_kept(c, uid, keep, upto - 1);
        let e = c.emails@[upto - 1];
        if e.user_id != uid || string_view_contains(keep, e.email@) {
            assert(s == rest.push(e@));
            if s.contains(ev) {
                let k = choose|k: int| 0 <= k < s.len() && s[k] == ev;
                if k < rest.len() {
                    assert(rest[k] == ev);
                } else {
                    assert(c.emails@[upto - 1]@ == ev);
                }
            }
            if exists|j: int|
                0 <= j < upto && #[trigger] c.emails@[j]@ == ev && (c.emails@[j].user_id != uid
                    || string_view_contains(keep, c.emails@[j].email@)) {
                let j = choose|j: int|
                    0 <= j < upto && #[trigger] c.emails@[j]@ == ev && (c.emails@[j].user_id != uid
                        || string_view_contains(keep, c.emails@[j].email@));
                if j == upto - 1 {
                    assert(s[s.len() - 1] == ev);
                } else {
                    let k = choose|k: int| 0 <= k < rest.len() && rest[k] == ev;
                    assert(s[k] == ev);
                }
            }
        } else {
            if s.contains(ev) {
                let k = choose|k: int| 0 <= k < s.len() && s[k] == ev;
                assert(rest[k] == ev);
            }
            if exists|j: int|
                0 <= j < upto && #[trigger] c.emails@[j]@ == ev && (c.emails@[j].user_id != uid
                    || string_view_contains(keep, c.emails@[j].email@)) {
                let j = choose|j: int|
                    0 <= j < upto && #[trigger] c.emails@[j]@ == ev && (c.emails@[j].user_id != uid
                        || string_view_contains(keep, c.emails@[j].email@));
                assert(j != upto - 1);
                let k = choose|k: int| 0 <= k < rest.len() && rest[k] == ev;
                assert(s[k] == ev);
            }
        }
    }
}

/// Surviving email rows stay pairwise distinct.
pub proof fn lemma_emails_kept_distinct(c: Store, uid: int, keep: Seq<Seq<char>>, upto: int)
    requires
        c.email_ids_unique(),
        c.email_addresses_unique(),
        0 <= upto <= c.emails@.len(),
    ensures
        forall|k: int, l: int|
            0 <= k < l < emails_kept(c, uid, keep, upto).len() ==> emails_kept(
                c,
                uid,
                keep,
                upto,
            )[k].id != emails_kept(c, uid, keep, upto)[l].id && emails_kept(c, uid, keep, upto)[k].email
                != emails_kept(c, uid, keep, upto)[l].email,
    decreases upto,
{
    if upto > 0 {
        lemma_emails_kept_distinct(c, uid, keep, upto - 1);
        let s = emails_kept(c, uid, keep, upto);
        let rest = emails_kept(c, uid, keep, upto - 1);
        let e = c.emails@[upto - 1];
        if e.user_id != uid || string_view_contains(keep, e.email@) {
            assert(s == rest.push(e@));
            assert forall|k: int, l: int|
                0 <= k < l < s.len() implies s[k].id != s[l].id && s[k].email != s[l].email by {
                if l == s.len() - 1 {
                    assert(rest.contains(rest[k]));
                    lemma_emails_kept_contains(c, uid, keep, upto - 1, rest[k]);
                    let j = choose|j: int|
                        0 <= j < upto - 1 && #[trigger] c.emails@[j]@ == rest[k] && (
                        c.emails@[j].user_id != uid || string_view_contains(
                            keep,
                            c.emails@[j].email@,
                        ));
                    assert(c.emails@[j].id != e.id);
                    assert(c.emails@[j].email@ != e.email@);
                } else {
                    assert(s[k] == rest[k] && s[l] == rest[l]);
                }
            }
        }
    }
}

/// A user's address set depends only on the email table.
pub proof fn lemma_emails_of_user_frame(a: Store, b: Store)
    requires
        a.emails == b.emails,
    ensures
        forall|uid: int, ad: Seq<char>|
            #[trigger] a.emails_of_user(uid).contains(ad) == b.emails_of_user(uid).contains(ad),
{
    assert forall|uid: int, ad: Seq<char>|
        #[trigger] a.emails_of_user(uid).contains(ad) == b.emails_of_user(uid).contains(ad) by {
        if a.emails_of_user(uid).contains(ad) {
            let j = choose|j: int|
                0 <= j < a.emails@.len() && a.emails@[j].user_id == uid && a.emails@[j].email@
                    == ad;
            assert(b.emails@[j].user_id == uid && b.emails@[j].email@ == ad);
        }
        if b.emails_of_user(uid).contains(ad) {
            let j = choose|j: int|
                0 <= j < b.emails@.len() && b.emails@[j].user_id == uid && b.emails@[j].email@
                    == ad;
            assert(a.emails@[j].user_id == uid && a.emails@[j].email@ == ad);
        }
    }
}

/// Role-name existence depends only on the role table.
pub proof fn lemma_has_role_name_frame(a: Store, b: Store)
    requires
        a.roles == b.roles,
    ensures
        forall|nm: Seq<char>| #[trigger] a.has_role_name(nm) == b.has_role_name(nm),
{
    assert forall|nm: Seq<char>| #[trigger] a.has_role_name(nm) == b.has_role_name(nm) by {
        if a.has_role_name(nm) {
            let j = choose|j: int| 0 <= j < a.roles@.len() && a.roles@[j].name@ == nm;
            assert(b.roles@[j].name@ == nm);
        }
        if b.has_role_name(nm) {
            let j = choose|j: int| 0 <= j < b.roles@.len() && b.roles@[j].name@ == nm;
            assert(a.roles@[j].name@ == nm);
        }
    }
}

/// An address conflict depends only on the email table.
pub proof fn lemma_email_conflict_frame(a: Store, b: Store, uid: int, v: Seq<String>)
    requires
        a.emails == b.emails,
    ensures
        email_conflict(a, uid, v) == email_conflict(b, uid, v),
{
    if email_conflict(a, uid, v) {
        let (k, j) = choose|k: int, j: int|
            #![trigger v[k], a.emails@[j]]
            0 <= k < v.len() && 0 <= j < a.emails@.len() && a.emails@[j].email@ == v[k]@
                && a.emails@[j].user_id != uid;
        assert(b.emails@[j].email@ == v[k]@ && b.emails@[j].user_id != uid);
    }
    if email_conflict(b, uid, v) {
        let (k, j) = choose|k: int, j: int|
            #![trigger v[k], b.emails@[j]]
            0 <= k < v.len() && 0 <= j < b.emails@.len() && b.emails@[j].email@ == v[k]@
                && b.emails@[j].user_id != uid;
        assert(a.emails@[j].email@ == v[k]@ && a.emails@[j].user_id != uid);
    }
}

/// Some requested address is already owned by a different user.
pub open spec fn email_conflict(c: Store, uid: int, new_emails: Seq<String>) -> bool {
    exists|k: int, j: int|
        #![trigger new_emails[k], c.emails@[j]]
        0 <= k < new_emails.len() && 0 <= j < c.emails@.len() && c.emails@[j].email@
            == new_emails[k]@ && c.emails@[j].user_id != uid
}

impl User {
    /// Replace this user's set of email addresses: addresses absent from
    /// `new_emails` are removed, missing ones are added, and every other
    /// user's addresses are untouched.  An address already owned by another
    /// user makes the whole operation fail without changing anything.
    #[verifier::rlimit(100)]
    pub fn set_emails(&self, new_emails: &Vec<String>, c: &mut Store) -> (r: Result<(), DbError>)
        requires
            old(c).wf(),
            forall|k: int, l: int|
                0 <= k < l < new_emails@.len() ==> new_emails@[k]@ != new_emails@[l]@,
            old(c).next_id as int + new_emails@.len() <= i32::MAX as int,
        ensures
            final(c).wf(),
            final(c).emails_frame(*old(c)),
            old(c).next_id <= final(c).next_id,
            final(c).next_id as int <= old(c).next_id as int + new_emails@.len(),
            match r {
                Ok(_) => {
                    &&& old(c).has_user_id(self.id as int)
                    &&& !email_conflict(*old(c), self.id as int, new_emails@)
                    &&& forall|a: Seq<char>|
                        final(c).emails_of_user(self.id as int).contains(a) == string_view_set(
                            new_emails@,
                        ).contains(a)
                    &&& forall|uid2: int, a: Seq<char>|
                        uid2 != self.id as int ==> final(c).emails_of_user(uid2).contains(a) == old(
                            c,
                        ).emails_of_user(uid2).contains(a)
                    &&& forall|ev: EmailView|
                        #[trigger] emails_kept(
                            *old(c),
                            self.id as int,
                            string_views(new_emails@),
                            old(c).emails@.len() as int,
                        ).contains(ev) ==> exists|i: int|
                            0 <= i < final(c).emails@.len() && final(c).emails@[i]@ == ev
                    &&& forall|i: int|
                        #![trigger final(c).emails@[i]]
                        0 <= i < final(c).emails@.len() ==> ((exists|j: int|
                            0 <= j < old(c).emails@.len() && #[trigger] old(c).emails@[j]@
                                == final(c).emails@[i]@) || (final(c).emails@[i].user_id == self.id
                            && final(c).emails@[i].id >= old(c).next_id))
                },
                Err(e) => {
                    &&& *final(c) == *old(c)
                    &&& e == DbError::UniqueViolation ==> email_conflict(
                        *old(c),
                        self.id as int,
                        new_emails@,
                    )
                    &&& e == DbError::ForeignKeyViolation ==> !old(c).has_user_id(self.id as int)
                    &&& (e == DbError::UniqueViolation || e == DbError::ForeignKeyViolation)
                },
            },
    {
        let uid = self.id;
        let ghost keep = string_views(new_emails@);
        if !c.has_user_id_exec(uid) {
            return Err(DbError::ForeignKeyViolation);
        }
        // An address owned by another user blocks the whole update.
        let m = new_emails.len();
        let mut k: usize = 0;
        while k < m
            invariant
                k <= m,
                m == new_emails@.len(),
                *c == *old(c),
                c.wf(),
                uid == self.id,
                forall|t: int, j: int|
                    #![trigger new_emails@[t], c.emails@[j]]
                    0 <= t < k && 0 <= j < c.emails@.len() && c.emails@[j].email@
                        == new_emails@[t]@ ==> c.emails@[j].user_id == uid,
            decreases m - k,
        {
            let address = &new_emails[k];
            let n0 = c.emails.len();
            let mut j: usize = 0;
            while j < n0
                invariant
                    j <= n0,
                    k < m,
                    m == new_emails@.len(),
                    n0 == c.emails@.len(),
                    *c == *old(c),
                    c.wf(),
                    uid == self.id,
                    address == new_emails@[k as int],
                    forall|x: int|
                        0 <= x < j && #[trigger] c.emails@[x].email@ == new_emails@[k as int]@
                            ==> c.emails@[x].user_id == uid,
                decreases n0 - j,
            {
                if c.emails[j].user_id != uid && string_eq_str(&c.emails[j].email, address.as_str())
                {
                    proof {
                        assert(exists|k2: int, j2: int|
                            #![trigger new_emails@[k2], old(c).emails@[j2]]
                            0 <= k2 < new_emails@.len() && 0 <= j2 < old(c).emails@.len() && old(
                                c,
                            ).emails@[j2].email@ == new_emails@[k2]@ && old(c).emails@[j2].user_id
                                != self.id) by {
                            assert((k as int) < new_emails@.len());
                            assert((j as int) < old(c).emails@.len());
                            assert(old(c).emails@[j as int].email@ == new_emails@[k as int]@);
                            assert(old(c).emails@[j as int].user_id != self.id);
                        }
                    }
                    return Err(DbError::UniqueViolation);
                }
                j = j + 1;
            }
            k = k + 1;
        }
        proof {
            assert(!email_conflict(*old(c), uid as int, new_emails@)) by {
                if email_conflict(*old(c), uid as int, new_emails@) {
                    let (k2, j2) = choose|k2: int, j2: int|
                        #![trigger new_emails@[k2], old(c).emails@[j2]]
                        0 <= k2 < new_emails@.len() && 0 <= j2 < old(c).emails@.len() && old(
                            c,
                        ).emails@[j2].email@ == new_emails@[k2]@ && old(c).emails@[j2].user_id
                            != self.id;
                    assert(c.emails@[j2].email@ == new_emails@[k2]@);
                }
            }
        }
        // Remove addresses that are not in the new set.
        let n = c.emails.len();
        let mut kept: Vec<Email> = Vec::new();
        let mut i: usize = 0;
        proof {
            assert(kept@.map_values(|e: Email| e@) =~= emails_kept(*c, uid as int, keep, 0));
        }
        while i < n
            invariant
                i <= n,
                n == c.emails@.len(),
                *c == *old(c),
                c.wf(),
                keep == string_views(new_emails@),
                kept@.map_values(|e: Email| e@) == emails_kept(*c, uid as int, keep, i as int),
            decreases n - i,
        {
            let e = &c.emails[i];
            let keep_row: bool;
            if e.user_id != uid {
                keep_row = true;
            } else {
                keep_row = crate::util::vec_contains_str(new_emails, e.email.as_str());
                proof {
                    assert(keep_row == string_view_contains(keep, c.emails@[i as int].email@)) by {
                        if keep_row {
                            let t = choose|t: int|
                                0 <= t < new_emails@.len() && #[trigger] new_emails@[t]@
                                    == c.emails@[i as int].email@;
                            assert(keep[t] == c.emails@[i as int].email@);
                        }
                        if string_view_contains(keep, c.emails@[i as int].email@) {
                            let t = choose|t: int|
                                0 <= t < keep.len() && keep[t] == c.emails@[i as int].email@;
                            assert(new_emails@[t]@ == c.emails@[i as int].email@);
                        }
                    }
                }
            }
            let ghost prev = kept@;
            if keep_row {
                let row = &c.emails[i];
                kept.push(row.clone());
                proof {
                    assert(kept@.map_values(|e: Email| e@) =~= prev.map_values(
                        |e: Email| e@,
                    ).push(c.emails@[i as int]@));
                }
            }
            proof {
                assert(emails_kept(*c, uid as int, keep, i + 1) == {
                    let rest = emails_kept(*c, uid as int, keep, i as int);
                    let e2 = c.emails@[i as int];
                    if e2.user_id != uid || string_view_contains(keep, e2.email@) {
                        rest.push(e2@)
                    } else {
                        rest
                    }
                });
            }
            i = i + 1;
        }
        let ghost keptv = emails_kept(*old(c), uid as int, keep, n as int);
        proof {
            lemma_emails_kept_distinct(*old(c), uid as int, keep, n as int);
        }
        c.emails = kept;
        proof {
            lemma_swap_emails_wf(*old(c), *c, uid as int, keep);
            crate::db::store::lemma_has_user_id_frame(*old(c), *c);
            assert(c.has_user_id(uid as int));
            assert forall|i2: int|
                0 <= i2 < c.emails@.len() implies keptv.contains(#[trigger] c.emails@[i2]@) by {
                assert(keptv[i2] == c.emails@[i2]@);
            }
        }
        // Add addresses that are missing from the current set.
        let mut k: usize = 0;
        while k < m
            invariant
                k <= m,
                m == new_emails@.len(),
                keep == string_views(new_emails@),
                c.wf(),
                c.emails_frame(*old(c)),
                c.has_user_id(uid as int),
                old(c).wf(),
                old(c).next_id as int + m <= i32::MAX as int,
                old(c).next_id <= c.next_id,
                c.next_id as int <= old(c).next_id as int + k,
                forall|k2: int, l: int|
                    0 <= k2 < l < new_emails@.len() ==> new_emails@[k2]@ != new_emails@[l]@,
                forall|t: int, j: int|
                    #![trigger new_emails@[t], old(c).emails@[j]]
                    0 <= t < m && 0 <= j < old(c).emails@.len() && old(c).emails@[j].email@
                        == new_emails@[t]@ ==> old(c).emails@[j].user_id == uid,
                forall|t: int|
                    #![trigger new_emails@[t]]
                    0 <= t < k ==> exists|j: int|
                        0 <= j < c.emails@.len() && #[trigger] c.emails@[j].user_id == uid
                            && c.emails@[j].email@ == new_emails@[t]@,
                forall|i2: int|
                    0 <= i2 < c.emails@.len() && #[trigger] c.emails@[i2].user_id == uid
                        ==> string_view_contains(keep, c.emails@[i2].email@),
                forall|i2: int|
                    0 <= i2 < c.emails@.len() && c.emails@[i2].user_id != uid ==> keptv.contains(
                        #[trigger] c.emails@[i2]@,
                    ),
                forall|i2: int|
                    #![trigger c.emails@[i2]]
                    0 <= i2 < c.emails@.len() ==> (keptv.contains(c.emails@[i2]@) || (
                    c.emails@[i2].user_id == uid && c.emails@[i2].id >= old(c).next_id)),
                forall|ev: EmailView|
                    #[trigger] keptv.contains(ev) ==> exists|i2: int|
                        0 <= i2 < c.emails@.len() && c.emails@[i2]@ == ev,
                keptv == emails_kept(*old(c), uid as int, keep, n as int),
                n == old(c).emails@.len(),
            decreases m - k,
        {
            let address = &new_emails[k];
            if !has_email_address_exec(c, address.as_str()) {
                let id = c.next_id;
                let row = Email { id, user_id: uid, email: address.clone() };
                let ghost pre = *c;
                c.emails.push(row);
                c.next_id = id + 1;
                proof {
                    lemma_push_email_wf(pre, *c, uid as int, new_emails@[k as int]@);
                    crate::db::store::lemma_has_user_id_frame(pre, *c);
                    assert forall|t: int| #![trigger new_emails@[t]]
                        0 <= t <= k implies exists|j: int|
                        0 <= j < c.emails@.len() && #[trigger] c.emails@[j].user_id == uid
                            && c.emails@[j].email@ == new_emails@[t]@ by {
                        if t < k {
                            let w = choose|w: int|
                                0 <= w < pre.emails@.len() && #[trigger] pre.emails@[w].user_id
                                    == uid && pre.emails@[w].email@ == new_emails@[t]@;
                            assert(c.emails@[w].user_id == uid && c.emails@[w].email@
                                == new_emails@[t]@);
                        } else {
                            let last = c.emails@.len() - 1;
                            assert(c.emails@[last].user_id == uid && c.emails@[last].email@
                                == new_emails@[t]@);
                        }
                    }
                    assert forall|ev: EmailView| #[trigger] keptv.contains(ev) implies exists|
                        i2: int,
                    |
                        0 <= i2 < c.emails@.len() && c.emails@[i2]@ == ev by {
                        let w = choose|w: int|
                            0 <= w < pre.emails@.len() && pre.emails@[w]@ == ev;
                        assert(c.emails@[w]@ == ev);
                    }
                    assert forall|i2: int|
                        0 <= i2 < c.emails@.len() && #[trigger] c.emails@[i2].user_id
                            == uid implies string_view_contains(keep, c.emails@[i2].email@) by {
                        if i2 == c.emails@.len() - 1 {
                            assert(keep[k as int] == new_emails@[k as int]@);
                        }
                    }
                    assert forall|i2: int|
                        #![trigger c.emails@[i2]]
                        0 <= i2 < c.emails@.len() implies (keptv.contains(c.emails@[i2]@) || (
                    c.emails@[i2].user_id == uid && c.emails@[i2].id >= old(c).next_id)) by {
                        if i2 < pre.emails@.len() {
                            assert(c.emails@[i2] == pre.emails@[i2]);
                        } else {
                            assert(c.emails@[i2].id == id);
                        }
                    }
                }
            } else {
                proof {
                    let j = choose|j: int|
                        0 <= j < c.emails@.len() && #[trigger] c.emails@[j].email@
                            == new_emails@[k as int]@;
                    if c.emails@[j].user_id != uid {
                        assert(keptv.contains(c.emails@[j]@));
                        lemma_emails_kept_contains(
                            *old(c),
                            uid as int,
                            keep,
                            n as int,
                            c.emails@[j]@,
                        );
                        let j2 = choose|j2: int|
                            0 <= j2 < n && #[trigger] old(c).emails@[j2]@ == c.emails@[j]@ && (old(
                                c,
                            ).emails@[j2].user_id != uid as int || string_view_contains(
                                keep,
                                old(c).emails@[j2].email@,
                            ));
                        assert(old(c).emails@[j2].email@ == new_emails@[k as int]@);
                        assert(false);
                    }
                    assert(c.emails@[j].user_id == uid);
                }
            }
            k = k + 1;
        }
        // The user's address set is now exactly the requested one.
        proof {
            assert forall|a: Seq<char>|
                final(c).emails_of_user(uid as int).contains(a) == string_view_set(
                new_emails@,
            ).contains(a) by {
                if c.emails_of_user(uid as int).contains(a) {
                    let j = choose|j: int|
                        0 <= j < c.emails@.len() && c.emails@[j].user_id == uid as int
                            && c.emails@[j].email@ == a;
                    assert(string_view_contains(keep, a));
                    let t = choose|t: int| 0 <= t < keep.len() && keep[t] == a;
                    assert(new_emails@[t]@ == a);
                }
                if string_view_set(new_emails@).contains(a) {
                    let t = choose|t: int|
                        0 <= t < new_emails@.len() && #[trigger] new_emails@[t]@ == a;
                    let j = choose|j: int|
                        0 <= j < c.emails@.len() && #[trigger] c.emails@[j].user_id == uid
                            && c.emails@[j].email@ == new_emails@[t]@;
                    assert(c.emails_of_user(uid as int).contains(a));
                }
            }
            assert forall|uid2: int, a: Seq<char>|
                uid2 != uid as int implies final(c).emails_of_user(uid2).contains(a) == old(
                c,
            ).emails_of_user(uid2).contains(a) by {
                if c.emails_of_user(uid2).contains(a) {
                    let w = choose|w: int|
                        0 <= w < c.emails@.len() && c.emails@[w].user_id == uid2
                            && c.emails@[w].email@ == a;
                    assert(keptv.contains(c.emails@[w]@));
                    lemma_emails_kept_contains(*old(c), uid as int, keep, n as int, c.emails@[w]@);
                    let j = choose|j: int|
                        0 <= j < n && #[trigger] old(c).emails@[j]@ == c.emails@[w]@ && (old(
                            c,
                        ).emails@[j].user_id != uid as int || string_view_contains(
                            keep,
                            old(c).emails@[j].email@,
                        ));
                    assert(old(c).emails@[j].user_id == uid2 && old(c).emails@[j].email@ == a);
                }
                if old(c).emails_of_user(uid2).contains(a) {
                    let j = choose|j: int|
                        0 <= j < old(c).emails@.len() && old(c).emails@[j].user_id == uid2 && old(
                            c,
                        ).emails@[j].email@ == a;
                    lemma_emails_kept_contains(
                        *old(c),
                        uid as int,
                        keep,
                        n as int,
                        old(c).emails@[j]@,
                    );
                    assert(keptv.contains(old(c).emails@[j]@));
                    let i2 = choose|i2: int|
                        0 <= i2 < c.emails@.len() && c.emails@[i2]@ == old(c).emails@[j]@;
                    assert(c.emails@[i2].user_id == uid2 && c.emails@[i2].email@ == a);
                }
            }
            assert forall|i: int|
                #![trigger c.emails@[i]]
                0 <= i < c.emails@.len() implies ((exists|j: int|
                0 <= j < old(c).emails@.len() && #[trigger] old(c).emails@[j]@ == c.emails@[i]@)
                || (c.emails@[i].user_id == self.id && c.emails@[i].id >= old(c).next_id)) by {
                if keptv.contains(c.emails@[i]@) {
                    lemma_emails_kept_contains(*old(c), uid as int, keep, n as int, c.emails@[i]@);
                    let j = choose|j: int|
                        0 <= j < n && #[trigger] old(c).emails@[j]@ == c.emails@[i]@ && (old(
                            c,
                        ).emails@[j].user_id != uid as int || string_view_contains(
                            keep,
                            old(c).emails@[j].email@,
                        ));
                    assert(0 <= j < old(c).emails@.len() && old(c).emails@[j]@ == c.emails@[i]@);
                }
            }
        }
        Ok(())
    }
}

impl Email {
    /// Attach an email address to a user.  The address must be free and the
    /// user must exist.
    pub fn insert(user: &User, email: &str, c: &mut Store) -> (r: Result<Email, DbError>)
        requires
            old(c).wf(),
            old(c).next_id < i32::MAX,
        ensures
            final(c).wf(),
            final(c).emails_frame(*old(c)),
            match r {
                Ok(e) => {
                    &&& old(c).has_user_id(user.id as int)
                    &&& !old(c).has_email_address(email@)
                    &&& e.user_id == user.id
                    &&& e.email@ == email@
                    &&& final(c).emails@ == old(c).emails@.push(final(c).emails@.last())
                    &&& final(c).emails@.last()@ == e@
                    &&& final(c).has_email_address(email@)
                },
                Err(e) => {
                    &&& *final(c) == *old(c)
                    &&& e == DbError::ForeignKeyViolation ==> !old(c).has_user_id(user.id as int)
                    &&& e == DbError::UniqueViolation ==> old(c).has_email_address(email@)
                    &&& (e == DbError::ForeignKeyViolation || e == DbError::UniqueViolation)
                },
            },
    {
        if !c.has_user_id_exec(user.id) {
            return Err(DbError::ForeignKeyViolation);
        }
        if has_email_address_exec(c, email) {
            return Err(DbError::UniqueViolation);
        }
        let id = c.next_id;
        let row = Email { id, user_id: user.id, email: email.to_owned() };
        let out = row.clone();
        let ghost pre = *c;
        c.emails.push(row);
        c.next_id = id + 1;
        proof {
            lemma_push_email_wf(pre, *c, user.id as int, email@);
            assert(c.has_email_address(email@)) by {
                assert(c.emails@[c.emails@.len() - 1].email@ == email@);
            }
        }
        Ok(out)
    }
}

impl RoleAssignment {
    /// Grant a role to a user.  Both must exist, and the grant must not
    /// already be present.
    pub fn insert(user: &User, role: &Role, c: &mut Store) -> (r: Result<RoleAssignment, DbError>)
        requires
            old(c).wf(),
            old(c).next_id < i32::MAX,
        ensures
            final(c).wf(),
            final(c).assignments_frame(*old(c)),
            match r {
                Ok(a) => {
                    &&& old(c).has_user_id(user.id as int)
                    &&& old(c).has_role_id(role.id as int)
                    &&& !old(c).assignment_for(user.id as int, role.id as int)
                    &&& a.user_id == user.id
                    &&& a.role_id == role.id
                    &&& final(c).role_assignments@ == old(c).role_assignments@.push(
                        final(c).role_assignments@.last(),
                    )
                    &&& final(c).role_assignments@.last()@ == a@
                    &&& final(c).assignment_for(user.id as int, role.id as int)
                },
                Err(e) => {
                    &&& *final(c) == *old(c)
                    &&& e == DbError::ForeignKeyViolation ==> (!old(c).has_user_id(user.id as int)
                        || !old(c).has_role_id(role.id as int))
                    &&& e == DbError::UniqueViolation ==> old(c).assignment_for(
                        user.id as int,
                        role.id as int,
                    )
                    &&& (e == DbError::ForeignKeyViolation || e == DbError::UniqueViolation)
                },
            },
    {
        if !c.has_user_id_exec(user.id) {
            return Err(DbError::ForeignKeyViolation);
        }
        if !has_role_id_exec(c, role.id) {
            return Err(DbError::ForeignKeyViolation);
        }
        if has_assignment(c, user.id, role.id) {
            return Err(DbError::UniqueViolation);
        }
        let id = c.next_id;
        let row = RoleAssignment { id, user_id: user.id, role_id: role.id };
        let out = row.clone();
        let ghost pre = *c;
        c.role_assignments.push(row);
        c.next_id = id + 1;
        proof {
            lemma_push_assignment_wf(pre, *c, user.id as int, role.id as int);
            assert(c.assignment_for(user.id as int, role.id as int)) by {
                let last = c.role_assignments@.len() - 1;
                assert(c.role_assignments@[last].user_id == user.id
                    && c.role_assignments@[last].role_id == role.id);
            }
        }
        Ok(out)
    }
}

/// Whether a role row with this id exists.
fn has_role_id_exec(c: &Store, rid: i32) -> (r: bool)
    ensures
        r == c.has_role_id(rid as int),
{
    let n = c.roles.len();
    let mut i: usize = 0;
    while i < n
        invariant
            i <= n,
            n == c.roles@.len(),
            forall|k: int| 0 <= k < i ==> c.roles@[k].id != rid,
        decreases n - i,
    {
        if c.roles[i].id == rid {
            return true;
        }
        i = i + 1;
    }
    false
}

/// Whether any email row carries this address.
fn has_email_address_exec(c: &Store, address: &str) -> (r: bool)
    ensures
        r == c.has_email_address(address@),
{
    let n = c.emails.len();
    let mut i: usize = 0;
    while i < n
        invariant
            i <= n,
            n == c.emails@.len(),
            forall|k: int| 0 <= k < i ==> #[trigger] c.emails@[k].email@ != address@,
        decreases n - i,
    {
        if string_eq_str(&c.emails[i].email, address) {
            return true;
        }
        i = i + 1;
    }
    false
}

/// After the removal pass, the store is still well-formed and its email
/// table is exactly the surviving rows.
proof fn lemma_swap_emails_wf(prev: Store, cur: Store, uid: int, keep: Seq<Seq<char>>)
    requires
        prev.wf(),
        cur.emails_frame(prev),
        cur.next_id == prev.next_id,
        cur.emails@.map_values(|e: Email| e@) == emails_kept(
            prev,
            uid,
            keep,
            prev.emails@.len() as int,
        ),
    ensures
        cur.wf(),
        forall|i2: int|
            0 <= i2 < cur.emails@.len() && cur.emails@[i2].user_id != uid ==> emails_kept(
                prev,
                uid,
                keep,
                prev.emails@.len() as int,
            ).contains(#[trigger] cur.emails@[i2]@),
        forall|i2: int|
            0 <= i2 < cur.emails@.len() && #[trigger] cur.emails@[i2].user_id == uid
                ==> string_view_contains(keep, cur.emails@[i2].email@),
        forall|ev: EmailView|
            #[trigger] emails_kept(prev, uid, keep, prev.emails@.len() as int).contains(ev)
                ==> exists|i2: int| 0 <= i2 < cur.emails@.len() && cur.emails@[i2]@ == ev,
{
    let n = prev.emails@.len() as int;
    let keptv = emails_kept(prev, uid, keep, n);
    let cv = cur.emails@;
    assert(cv.map_values(|e: Email| e@).len() == cv.len());
    assert forall|i2: int| 0 <= i2 < cv.len() implies keptv.contains(#[trigger] cv[i2]@) by {
        assert(keptv[i2] == cv[i2]@);
    }
    lemma_emails_kept_distinct(prev, uid, keep, n);
    assert forall|a: int, b: int| 0 <= a < b < cv.len() implies cv[a].id != cv[b].id && cv[a].email@
        != cv[b].email@ by {
        assert(keptv[a] == cv[a]@ && keptv[b] == cv[b]@);
    }
    assert forall|i2: int|
        0 <= i2 < cv.len() implies prev.has_user_id(#[trigger] cv[i2].user_id as int) && cv[i2].id
        < prev.next_id by {
        lemma_emails_kept_contains(prev, uid, keep, n, cv[i2]@);
        let j = choose|j: int|
            0 <= j < n && #[trigger] prev.emails@[j]@ == cv[i2]@ && (prev.emails@[j].user_id != uid
                || string_view_contains(keep, prev.emails@[j].email@));
        assert(prev.has_user_id(prev.emails@[j].user_id as int));
        assert(prev.emails@[j].id < prev.next_id);
    }
    lemma_has_user_id_same(prev, cur);
    lemma_has_role_id_same(prev, cur);
    crate::db::store::lemma_has_machine_id_frame(prev, cur);
    crate::db::store::lemma_has_processor_id_frame(prev, cur);
    crate::db::store::lemma_has_microarch_id_frame(prev, cur);
    crate::db::store::lemma_has_arch_id_frame(prev, cur);
    assert forall|i2: int|
        0 <= i2 < cur.emails@.len() implies cur.has_user_id(
        #[trigger] cur.emails@[i2].user_id as int,
    ) by {
        assert(prev.has_user_id(cv[i2].user_id as int));
    }
    assert forall|i2: int|
        0 <= i2 < cur.emails@.len() implies #[trigger] cur.emails@[i2].id < cur.next_id by {
        assert(prev.has_user_id(cv[i2].user_id as int));
    }
    assert(cur.foreign_keys_ok());
    assert forall|i2: int|
        0 <= i2 < cv.len() && #[trigger] cv[i2].user_id == uid implies string_view_contains(
        keep,
        cv[i2].email@,
    ) by {
        lemma_emails_kept_contains(prev, uid, keep, n, cv[i2]@);
        let j = choose|j: int|
            0 <= j < n && #[trigger] prev.emails@[j]@ == cv[i2]@ && (prev.emails@[j].user_id != uid
                || string_view_contains(keep, prev.emails@[j].email@));
        assert(prev.emails@[j].email@ == cv[i2].email@);
    }
    assert forall|ev: EmailView| #[trigger] keptv.contains(ev) implies exists|i2: int|
        0 <= i2 < cv.len() && cv[i2]@ == ev by {
        let k = choose|k: int| 0 <= k < keptv.len() && keptv[k] == ev;
        assert(cv[k]@ == ev);
    }
}

/// Adding a fresh email row for an existing user, with an address nobody
/// holds, keeps the store well-formed.
proof fn lemma_push_email_wf(prev: Store, cur: Store, uid: int, address: Seq<char>)
    requires
        prev.wf(),
        prev.next_id < i32::MAX,
        prev.has_user_id(uid),
        !prev.has_email_address(address),
        cur.emails@ == prev.emails@.push(cur.emails@.last()),
        cur.emails@.last().id == prev.next_id,
        cur.emails@.last().user_id == uid,
        cur.emails@.last().email@ == address,
        cur.next_id == prev.next_id + 1,
        cur.emails_frame(prev),
    ensures
        cur.wf(),
{
    let u = cur.emails@;
    let p = prev.emails@;
    assert forall|a: int, b: int| 0 <= a < b < u.len() implies u[a].id != u[b].id && u[a].email@
        != u[b].email@ by {
        assert(u[a] == p[a]);
        if b < p.len() {
            assert(u[b] == p[b]);
        } else {
            assert(u[b].id == prev.next_id);
            if u[a].email@ == address {
                assert(prev.has_email_address(address));
            }
        }
    }
    lemma_has_user_id_same(prev, cur);
    lemma_has_role_id_same(prev, cur);
    crate::db::store::lemma_has_machine_id_frame(prev, cur);
    crate::db::store::lemma_has_processor_id_frame(prev, cur);
    crate::db::store::lemma_has_microarch_id_frame(prev, cur);
    crate::db::store::lemma_has_arch_id_frame(prev, cur);
    assert forall|i2: int|
        0 <= i2 < u.len() implies cur.has_user_id(#[trigger] u[i2].user_id as int) && u[i2].id
        < cur.next_id by {
        if i2 < p.len() {
            assert(u[i2] == p[i2]);
            assert(prev.has_user_id(p[i2].user_id as int));
        }
    }
    assert(cur.foreign_keys_ok());
}

/// Surviving rows stay pairwise distinct.
pub proof fn lemma_assignments_kept_distinct(c: Store, uid: int, names: Seq<Seq<char>>, upto: int)
    requires
        c.assignment_ids_unique(),
        c.assignments_unique(),
        0 <= upto <= c.role_assignments@.len(),
    ensures
        forall|k: int, l: int|
            0 <= k < l < assignments_kept(c, uid, names, upto).len()
                ==> assignments_kept(c, uid, names, upto)[k].id != assignments_kept(
                c,
                uid,
                names,
                upto,
            )[l].id && !(assignments_kept(c, uid, names, upto)[k].user_id == assignments_kept(
                c,
                uid,
                names,
                upto,
            )[l].user_id && assignments_kept(c, uid, names, upto)[k].role_id == assignments_kept(
                c,
                uid,
                names,
                upto,
            )[l].role_id),
    decreases upto,
{
    if upto > 0 {
        lemma_assignments_kept_distinct(c, uid, names, upto - 1);
        let s = assignments_kept(c, uid, names, upto);
        let rest = assignments_kept(c, uid, names, upto - 1);
        let a = c.role_assignments@[upto - 1];
        if a.user_id != uid || string_view_contains(names, c.role_with_id(a.role_id as int).name) {
            assert(s == rest.push(a@));
            assert forall|k: int, l: int|
                0 <= k < l < s.len() implies s[k].id != s[l].id && !(s[k].user_id == s[l].user_id
                && s[k].role_id == s[l].role_id) by {
                if l == s.len() - 1 {
                    assert(rest.contains(rest[k]));
                    lemma_assignments_kept_contains(c, uid, names, upto - 1, rest[k]);
                    let j = choose|j: int|
                        0 <= j < upto - 1 && #[trigger] c.role_assignments@[j]@ == rest[k] && (
                        c.role_assignments@[j].user_id != uid || string_view_contains(
                            names,
                            c.role_with_id(c.role_assignments@[j].role_id as int).name,
                        ));
                    assert(c.role_assignments@[j].id != a.id);
                } else {
                    assert(s[k] == rest[k] && s[l] == rest[l]);
                }
            }
        }
    }
}

// ---------------------------------------------------------------------------
// Reservation queries and transitions
// ---------------------------------------------------------------------------

/// The reservations selected by `Reservation::all` among the first `upto`
/// rows: all of them, or only those currently active at the instant `now`.
pub open spec fn res_all_seq(c: Store, only_current: bool, now: i64, upto: int) -> Seq<
    ReservationView,
>
    decreases upto,
{
    if upto <= 0 {
        Seq::empty()
    } else {
        let rest = res_all_seq(c, only_current, now, upto - 1);
        if !only_current || c.reservations@[upto - 1]@.is_active(now) {
            rest.push(c.reservations@[upto - 1]@)
        } else {
            rest
        }
    }
}

/// The reservations of one machine among the first `upto` rows.
pub open spec fn res_machine_seq(c: Store, mid: int, upto: int) -> Seq<ReservationView>
    decreases upto,
{
    if upto <= 0 {
        Seq::empty()
    } else {
        let rest = res_machine_seq(c, mid, upto - 1);
        if c.reservations@[upto - 1].machine_id == mid {
            rest.push(c.reservations@[upto - 1]@)
        } else {
            rest
        }
    }
}

/// The reservations of one user among the first `upto` rows.
pub open spec fn res_user_seq(c: Store, uid: int, upto: int) -> Seq<ReservationView>
    decreases upto,
{
    if upto <= 0 {
        Seq::empty()
    } else {
        let rest = res_user_seq(c, uid, upto - 1);
        if c.reservations@[upto - 1].user_id == uid {
            rest.push(c.reservations@[upto - 1]@)
        } else {
            rest
        }
    }
}

/// Every selected reservation view comes from a store row.
pub proof fn lemma_res_all_seq_contains(
    c: Store,
    only_current: bool,
    now: i64,
    upto: int,
    rv: ReservationView,
)
    requires
        0 <= upto <= c.reservations@.len(),
        res_all_seq(c, only_current, now, upto).contains(rv),
    ensures
        exists|j: int| 0 <= j < upto && #[trigger] c.reservations@[j]@ == rv,
    decreases upto,
{
    if upto > 0 {
        let s = res_all_seq(c, only_current, now, upto);
        let rest = res_all_seq(c, only_current, now, upto - 1);
        if !only_current || c.reservations@[upto - 1]@.is_active(now) {
            let k = choose|k: int| 0 <= k < s.len() && s[k] == rv;
            if k < rest.len() {
                assert(rest[k] == rv);
                lemma_res_all_seq_contains(c, only_current, now, upto - 1, rv);
            } else {
                assert(c.reservations@[upto - 1]@ == rv);
            }
        } else {
            lemma_res_all_seq_contains(c, only_current, now, upto - 1, rv);
        }
    }
}

pub proof fn lemma_res_machine_seq_contains(c: Store, mid: int, upto: int, rv: ReservationView)
    requires
        0 <= upto <= c.reservations@.len(),
        res_machine_seq(c, mid, upto).contains(rv),
    ensures
        exists|j: int| 0 <= j < upto && #[trigger] c.reservations@[j]@ == rv,
    decreases upto,
{
    if upto > 0 {
        let s = res_machine_seq(c, mid, upto);
        let rest = res_machine_seq(c, mid, upto - 1);
        if c.reservations@[upto - 1].machine_id == mid {
            let k = choose|k: int| 0 <= k < s.len() && s[k] == rv;
            if k < rest.len() {
                assert(rest[k] == rv);
                lemma_res_machine_seq_contains(c, mid, upto - 1, rv);
            } else {
                assert(c.reservations@[upto - 1]@ == rv);
            }
        } else {
            lemma_res_machine_seq_contains(c, mid, upto - 1, rv);
        }
    }
}

pub proof fn lemma_res_user_seq_contains(c: Store, uid: int, upto: int, rv: ReservationView)
    requires
        0 <= upto <= c.reservations@.len(),
        res_user_seq(c, uid, upto).contains(rv),
    ensures
        exists|j: int| 0 <= j < upto && #[trigger] c.reservations@[j]@ == rv,
    decreases upto,
{
    if upto > 0 {
        let s = res_user_seq(c, uid, upto);
        let rest = res_user_seq(c, uid, upto - 1);
        if c.reservations@[upto - 1].user_id == uid {
            let k = choose|k: int| 0 <= k < s.len() && s[k] == rv;
            if k < rest.len() {
                assert(rest[k] == rv);
                lemma_res_user_seq_contains(c, uid, upto - 1, rv);
            } else {
                assert(c.reservations@[upto - 1]@ == rv);
            }
        } else {
            lemma_res_user_seq_contains(c, uid, upto - 1, rv);
        }
    }
}

/// The reservation views carried by a joined listing.
pub open spec fn triple_res_views(s: Seq<(Reservation, Machine, User)>) -> Seq<ReservationView> {
    s.map_values(|t: (Reservation, Machine, User)| t.0@)
}

/// The reservation views carried by a (reservation, user) listing.
pub open spec fn pair_user_res_views(s: Seq<(Reservation, User)>) -> Seq<ReservationView> {
    s.map_values(|t: (Reservation, User)| t.0@)
}

/// The reservation views carried by a (reservation, machine) listing.
pub open spec fn pair_machine_res_views(s: Seq<(Reservation, Machine)>) -> Seq<ReservationView> {
    s.map_values(|t: (Reservation, Machine)| t.0@)
}

/// The user with a given id, which is known to exist.
fn user_by_id_known(c: &Store, uid: i32) -> (r: User)
    requires
        c.user_ids_unique(),
        c.has_user_id(uid as int),
    ensures
        r@ == c.user_with_id(uid as int),
        r.id == uid,
{
    let n = c.users.len();
    let mut i: usize = 0;
    while i < n
        invariant
            i <= n,
            n == c.users@.len(),
            c.user_ids_unique(),
            c.has_user_id(uid as int),
            forall|k: int| 0 <= k < i ==> c.users@[k].id != uid,
        decreases n - i,
    {
        if c.users[i].id == uid {
            let r = c.users[i].clone();
            proof {
                let j = choose|j: int| 0 <= j < c.users@.len() && c.users@[j].id == uid;
                assert(j == i);
            }
            return r;
        }
        i = i + 1;
    }
    proof {
        assert(false);
    }
    unreached()
}

/// The machine with a given id, which is known to exist.
fn machine_by_id_known(c: &Store, mid: i32) -> (r: Machine)
    requires
        c.machine_ids_unique(),
        c.has_machine_id(mid as int),
    ensures
        r@ == c.machine_with_id(mid as int),
        r.id == mid,
{
    let n = c.machines.len();
    let mut i: usize = 0;
    while i < n
        invariant
            i <= n,
            n == c.machines@.len(),
            c.machine_ids_unique(),
            c.has_machine_id(mid as int),
            forall|k: int| 0 <= k < i ==> c.machines@[k].id != mid,
        decreases n - i,
    {
        if c.machines[i].id == mid {
            let r = c.machines[i].clone();
            proof {
                let j = choose|j: int| 0 <= j < c.machines@.len() && c.machines@[j].id == mid;
                assert(j == i);
            }
            return r;
        }
        i = i + 1;
    }
    proof {
        assert(false);
    }
    unreached()
}

impl Reservation {
    /// All reservations (optionally only the ones currently active at the
    /// instant `now`: started, not explicitly ended, and with no scheduled
    /// end in the past), joined with their machine and user, most urgent
    /// first: effective finish descending (open-ended first), ties broken
    /// by machine id.
    pub fn all(only_current: bool, now: i64, c: &Store) -> (r: Result<
        Vec<(Reservation, Machine, User)>,
        DbError,
    >)
        requires
            c.wf(),
        ensures
            match r {
                Ok(v) => {
                    &&& crate::db::sort::sorted_by_key(
                        crate::db::sort::SortKey::EffectiveEndThenMachine,
                        triple_res_views(v@),
                    )
                    &&& triple_res_views(v@).to_multiset() == res_all_seq(
                        *c,
                        only_current,
                        now,
                        c.reservations@.len() as int,
                    ).to_multiset()
                    &&& forall|i: int|
                        0 <= i < v@.len() ==> (#[trigger] v@[i].1)@ == c.machine_with_id(
                            v@[i].0.machine_id as int,
                        ) && v@[i].2@ == c.user_with_id(v@[i].0.user_id as int)
                },
                Err(_) => false,
            },
    {
        let n = c.reservations.len();
        let mut picked: Vec<Reservation> = Vec::new();
        let mut i: usize = 0;
        proof {
            assert(crate::db::sort::views_of(picked@) =~= res_all_seq(*c, only_current, now, 0));
        }
        while i < n
            invariant
                i <= n,
                n == c.reservations@.len(),
                crate::db::sort::views_of(picked@) == res_all_seq(
                    *c,
                    only_current,
                    now,
                    i as int,
                ),
            decreases n - i,
        {
            let row = &c.reservations[i];
            let ghost prev = picked@;
            if !only_current || row.currently_active(now) {
                picked.push(row.clone());
                proof {
                    assert(crate::db::sort::views_of(picked@) =~= crate::db::sort::views_of(
                        prev,
                    ).push(c.reservations@[i as int]@));
                }
            }
            i = i + 1;
        }
        let ghost pickedv = crate::db::sort::views_of(picked@);
        let sorted = crate::db::sort::sort_reservations(
            crate::db::sort::SortKey::EffectiveEndThenMachine,
            picked,
        );
        proof {
            let ghost sortedv = crate::db::sort::views_of(sorted@);
            let ghost spec_seq = res_all_seq(*c, only_current, now, c.reservations@.len() as int);
            sortedv.to_multiset_ensures();
            spec_seq.to_multiset_ensures();
            assert forall|k: int|
                0 <= k < sorted@.len() implies c.has_machine_id(
                #[trigger] sorted@[k].machine_id as int,
            ) && c.has_user_id(sorted@[k].user_id as int) by {
                let x = sortedv[k];
                assert(sortedv.contains(x));
                assert(sortedv.to_multiset().count(x) > 0);
                assert(spec_seq.contains(x));
                lemma_res_all_seq_contains(
                    *c,
                    only_current,
                    now,
                    c.reservations@.len() as int,
                    x,
                );
                let j = choose|j: int|
                    0 <= j < c.reservations@.len() && #[trigger] c.reservations@[j]@ == x;
                assert(c.has_machine_id(c.reservations@[j].machine_id as int));
                assert(c.has_user_id(c.reservations@[j].user_id as int));
                assert(sorted@[k].machine_id == c.reservations@[j].machine_id);
                assert(sorted@[k].user_id == c.reservations@[j].user_id);
            }
        }
        join_full(c, sorted)
    }

    /// One machine's reservations with their users, scheduled end
    /// descending (open-ended first).
    pub fn for_machine(m: &Machine, c: &Store) -> (r: Result<Vec<(Reservation, User)>, DbError>)
        requires
            c.wf(),
        ensures
            match r {
                Ok(v) => {
                    &&& crate::db::sort::sorted_by_key(
                        crate::db::sort::SortKey::ScheduledEnd,
                        pair_user_res_views(v@),
                    )
                    &&& pair_user_res_views(v@).to_multiset() == res_machine_seq(
                        *c,
                        m.id as int,
                        c.reservations@.len() as int,
                    ).to_multiset()
                    &&& forall|i: int|
                        0 <= i < v@.len() ==> (#[trigger] v@[i].1)@ == c.user_with_id(
                            v@[i].0.user_id as int,
                        )
                },
                Err(_) => false,
            },
    {
        let n = c.reservations.len();
        let mut picked: Vec<Reservation> = Vec::new();
        let mut i: usize = 0;
        proof {
            assert(crate::db::sort::views_of(picked@) =~= res_machine_seq(*c, m.id as int, 0));
        }
        while i < n
            invariant
                i <= n,
                n == c.reservations@.len(),
                crate::db::sort::views_of(picked@) == res_machine_seq(*c, m.id as int, i as int),
            decreases n - i,
        {
            let row = &c.reservations[i];
            let ghost prev = picked@;
            if row.machine_id == m.id {
                picked.push(row.clone());
                proof {
                    assert(crate::db::sort::views_of(picked@) =~= crate::db::sort::views_of(
                        prev,
                    ).push(c.reservations@[i as int]@));
                }
            }
            i = i + 1;
        }
        let sorted = crate::db::sort::sort_reservations(
            crate::db::sort::SortKey::ScheduledEnd,
            picked,
        );
        let ghost sortedv = crate::db::sort::views_of(sorted@);
        let ghost spec_seq = res_machine_seq(*c, m.id as int, n as int);
        let nn = sorted.len();
        let mut out: Vec<(Reservation, User)> = Vec::new();
        let mut i: usize = 0;
        proof {
            assert(pair_user_res_views(out@) =~= sortedv.subrange(0, 0));
        }
        while i < nn
            invariant
                i <= nn,
                nn == sorted@.len(),
                c.wf(),
                sortedv == crate::db::sort::views_of(sorted@),
                sortedv.to_multiset() == spec_seq.to_multiset(),
                spec_seq == res_machine_seq(*c, m.id as int, c.reservations@.len() as int),
                pair_user_res_views(out@) == sortedv.subrange(0, i as int),
                forall|k: int|
                    0 <= k < out@.len() ==> (#[trigger] out@[k].1)@ == c.user_with_id(
                        out@[k].0.user_id as int,
                    ),
            decreases nn - i,
        {
            let row = clone_res_at(&sorted, i);
            proof {
                sortedv.to_multiset_ensures();
                spec_seq.to_multiset_ensures();
                assert(sortedv[i as int] == sorted@[i as int]@);
                assert(sortedv.contains(sortedv[i as int]));
                assert(sortedv.to_multiset().count(sortedv[i as int]) > 0);
                assert(spec_seq.contains(sortedv[i as int]));
                lemma_res_machine_seq_contains(
                    *c,
                    m.id as int,
                    c.reservations@.len() as int,
                    sortedv[i as int],
                );
                let j = choose|j: int|
                    0 <= j < c.reservations@.len() && #[trigger] c.reservations@[j]@
                        == sortedv[i as int];
                assert(c.has_user_id(c.reservations@[j].user_id as int));
                assert(row.user_id == c.reservations@[j].user_id);
            }
            let u = user_by_id_known(c, row.user_id);
            let ghost prev = out@;
            out.push((row, u));
            proof {
                assert(pair_user_res_views(prev).len() == prev.len());
                assert(prev.len() == i as int);
                assert forall|k: int|
                    0 <= k < out@.len() implies #[trigger] pair_user_res_views(out@)[k]
                    == sortedv.subrange(0, i + 1)[k] by {
                    assert(pair_user_res_views(out@)[k] == out@[k].0@);
                    if k < i {
                        assert(out@[k] == prev[k]);
                        assert(pair_user_res_views(prev)[k] == prev[k].0@);
                        assert(pair_user_res_views(prev)[k] == sortedv.subrange(0, i as int)[k]);
                    } else {
                        assert(out@[k].0@ == sortedv[i as int]);
                    }
                }
                assert(pair_user_res_views(out@) =~= sortedv.subrange(0, i + 1));
            }
            i = i + 1;
        }
        proof {
            assert(sortedv.subrange(0, nn as int) =~= sortedv);
        }
        Ok(out)
    }

    /// One user's reservations with their machines, scheduled end
    /// descending (open-ended first).
    pub fn for_user(user: &User, c: &Store) -> (r: Result<Vec<(Reservation, Machine)>, DbError>)
        requires
            c.wf(),
        ensures
            match r {
                Ok(v) => {
                    &&& crate::db::sort::sorted_by_key(
                        crate::db::sort::SortKey::ScheduledEnd,
                        pair_machine_res_views(v@),
                    )
                    &&& pair_machine_res_views(v@).to_multiset() == res_user_seq(
                        *c,
                        user.id as int,
                        c.reservations@.len() as int,
                    ).to_multiset()
                    &&& forall|i: int|
                        0 <= i < v@.len() ==> (#[trigger] v@[i].1)@ == c.machine_with_id(
                            v@[i].0.machine_id as int,
                        )
                },
                Err(_) => false,
            },
    {
        let n = c.reservations.len();
        let mut picked: Vec<Reservation> = Vec::new();
        let mut i: usize = 0;
        proof {
            assert(crate::db::sort::views_of(picked@) =~= res_user_seq(*c, user.id as int, 0));
        }
        while i < n
            invariant
                i <= n,
                n == c.reservations@.len(),
                crate::db::sort::views_of(picked@) == res_user_seq(*c, user.id as int, i as int),
            decreases n - i,
        {
            let row = &c.reservations[i];
            let ghost prev = picked@;
            if row.user_id == user.id {
                picked.push(row.clone());
                proof {
                    assert(crate::db::sort::views_of(picked@) =~= crate::db::sort::views_of(
                        prev,
                    ).push(c.reservations@[i as int]@));
                }
            }
            i = i + 1;
        }
        let sorted = crate::db::sort::sort_reservations(
            crate::db::sort::SortKey::ScheduledEnd,
            picked,
        );
        let ghost sortedv = crate::db::sort::views_of(sorted@);
        let ghost spec_seq = res_user_seq(*c, user.id as int, n as int);
        let nn = sorted.len();
        let mut out: Vec<(Reservation, Machine)> = Vec::new();
        let mut i: usize = 0;
        proof {
            assert(pair_machine_res_views(out@) =~= sortedv.subrange(0, 0));
        }
        while i < nn
            invariant
                i <= nn,
                nn == sorted@.len(),
                c.wf(),
                sortedv == crate::db::sort::views_of(sorted@),
                sortedv.to_multiset() == spec_seq.to_multiset(),
                spec_seq == res_user_seq(*c, user.id as int, c.reservations@.len() as int),
                pair_machine_res_views(out@) == sortedv.subrange(0, i as int),
                forall|k: int|
                    0 <= k < out@.len() ==> (#[trigger] out@[k].1)@ == c.machine_with_id(
                        out@[k].0.machine_id as int,
                    ),
            decreases nn - i,
        {
            let row = clone_res_at(&sorted, i);
            proof {
                sortedv.to_multiset_ensures();
                spec_seq.to_multiset_ensures();
                assert(sortedv[i as int] == sorted@[i as int]@);
                assert(sortedv.contains(sortedv[i as int]));
                assert(sortedv.to_multiset().count(sortedv[i as int]) > 0);
                assert(spec_seq.contains(sortedv[i as int]));
                lemma_res_user_seq_contains(
                    *c,
                    user.id as int,
                    c.reservations@.len() as int,
                    sortedv[i as int],
                );
                let j = choose|j: int|
                    0 <= j < c.reservations@.len() && #[trigger] c.reservations@[j]@
                        == sortedv[i as int];
                assert(c.has_machine_id(c.reservations@[j].machine_id as int));
                assert(row.machine_id == c.reservations@[j].machine_id);
            }
            let mch = machine_by_id_known(c, row.machine_id);
            let ghost prev = out@;
            out.push((row, mch));
            proof {
                assert(pair_machine_res_views(prev).len() == prev.len());
                assert(prev.len() == i as int);
                assert forall|k: int|
                    0 <= k < out@.len() implies #[trigger] pair_machine_res_views(out@)[k]
                    == sortedv.subrange(0, i + 1)[k] by {
                    assert(pair_machine_res_views(out@)[k] == out@[k].0@);
                    if k < i {
                        assert(out@[k] == prev[k]);
                        assert(pair_machine_res_views(prev)[k] == prev[k].0@);
                        assert(pair_machine_res_views(prev)[k] == sortedv.subrange(0, i as int)[k]);
                    } else {
                        assert(out@[k].0@ == sortedv[i as int]);
                    }
                }
                assert(pair_machine_res_views(out@) =~= sortedv.subrange(0, i + 1));
            }
            i = i + 1;
        }
        proof {
            assert(sortedv.subrange(0, nn as int) =~= sortedv);
        }
        Ok(out)
    }

    /// The reservation with this id, with its machine and user.
    pub fn get(res_id: i32, c: &Store) -> (r: Result<(Reservation, Machine, User), DbError>)
        requires
            c.wf(),
        ensures
            match r {
                Ok(t) => {
                    &&& c.has_reservation_id(res_id as int)
                    &&& t.0@ == c.reservation_with_id(res_id as int)
                    &&& t.1@ == c.machine_with_id(t.0.machine_id as int)
                    &&& t.2@ == c.user_with_id(t.0.user_id as int)
                },
                Err(e) => e == DbError::NotFound && !c.has_reservation_id(res_id as int),
            },
    {
        let n = c.reservations.len();
        let mut i: usize = 0;
        while i < n
            invariant
                i <= n,
                n == c.reservations@.len(),
                c.wf(),
                forall|k: int| 0 <= k < i ==> c.reservations@[k].id != res_id,
            decreases n - i,
        {
            if c.reservations[i].id == res_id {
                let row = c.reservations[i].clone();
                proof {
                    let j = choose|j: int|
                        0 <= j < c.reservations@.len() && c.reservations@[j].id == res_id;
                    assert(j == i);
                    assert(c.has_machine_id(c.reservations@[i as int].machine_id as int));
                    assert(c.has_user_id(c.reservations@[i as int].user_id as int));
                }
                let mch = machine_by_id_known(c, row.machine_id);
                let u = user_by_id_known(c, row.user_id);
                return Ok((row, mch, u));
            }
            i = i + 1;
        }
        Err(DbError::NotFound)
    }

    /// Mark this reservation as concluded at the instant `now`.  A second
    /// call simply re-stamps the recorded end.
    pub fn end_at(self, c: &mut Store, now: i64) -> (r: Result<Reservation, DbError>)
        requires
            old(c).wf(),
        ensures
            final(c).wf(),
            final(c).reservations_frame(*old(c)),
            final(c).next_id == old(c).next_id,
            match r {
                Ok(rr) => {
                    &&& old(c).has_reservation_id(self.id as int)
                    &&& rr@ == ended_at(old(c).reservation_with_id(self.id as int), now)
                    &&& final(c).has_reservation_id(self.id as int)
                    &&& final(c).reservation_with_id(self.id as int) == rr@
                    &&& exists|i: int|
                        {
                            &&& 0 <= i < old(c).reservations@.len()
                            &&& old(c).reservations@[i].id == self.id
                            &&& final(c).reservations@ =~= old(c).reservations@.update(
                                i,
                                final(c).reservations@[i],
                            )
                        }
                    &&& forall|x: int|
                        final(c).has_reservation_id(x) == old(c).has_reservation_id(x)
                },
                Err(e) => {
                    &&& e == DbError::NotFound
                    &&& !old(c).has_reservation_id(self.id as int)
                    &&& *final(c) == *old(c)
                },
            },
    {
        let n = c.reservations.len();
        let mut i: usize = 0;
        while i < n
            invariant
                i <= n,
                n == c.reservations@.len(),
                *c == *old(c),
                c.wf(),
                forall|k: int| 0 <= k < i ==> c.reservations@[k].id != self.id,
            decreases n - i,
        {
            if c.reservations[i].id == self.id {
                let row = &c.reservations[i];
                let updated = Reservation {
                    id: row.id,
                    user_id: row.user_id,
                    machine_id: row.machine_id,
                    scheduled_start: row.scheduled_start,
                    scheduled_end: row.scheduled_end,
                    actual_end: Option::Some(now),
                    pxe_path: clone_opt_string(&row.pxe_path),
                    nfs_root: clone_opt_string(&row.nfs_root),
                };
                let out = updated.clone();
                let ghost prev = *c;
                c.reservations[i] = updated;
                proof {
                    lemma_reservation_update_keeps_wf(prev, *c, i as int);
                    assert forall|x: int|
                        c.has_reservation_id(x) == prev.has_reservation_id(x) by {
                        if prev.has_reservation_id(x) {
                            let k = choose|k: int|
                                0 <= k < prev.reservations@.len() && prev.reservations@[k].id == x;
                            assert(c.reservations@[k].id == x);
                        }
                        if c.has_reservation_id(x) {
                            let k = choose|k: int|
                                0 <= k < c.reservations@.len() && c.reservations@[k].id == x;
                            assert(prev.reservations@[k].id == x);
                        }
                    }
                    let j = choose|j: int|
                        0 <= j < prev.reservations@.len() && prev.reservations@[j].id == self.id;
                    assert(j == i);
                    let j2 = choose|j2: int|
                        0 <= j2 < c.reservations@.len() && c.reservations@[j2].id == self.id;
                    assert(j2 == i);
                }
                return Ok(out);
            }
            i = i + 1;
        }
        Err(DbError::NotFound)
    }

    /// Mark this reservation as concluded right now, the only way a
    /// reservation is ever actually ended.
    pub fn end(self, c: &mut Store) -> (r: Result<Reservation, DbError>)
        requires
            old(c).wf(),
        ensures
            final(c).wf(),
            final(c).reservations_frame(*old(c)),
            match r {
                Ok(rr) => {
                    &&& old(c).has_reservation_id(self.id as int)
                    &&& rr.actual_end is Some
                    &&& exists|t: i64|
                        rr@ == ended_at(#[trigger] old(c).reservation_with_id(self.id as int), t)
                            && final(c).reservation_with_id(self.id as int) == rr@
                    &&& final(c).has_reservation_id(self.id as int)
                    &&& exists|i: int|
                        {
                            &&& 0 <= i < old(c).reservations@.len()
                            &&& old(c).reservations@[i].id == self.id
                            &&& final(c).reservations@ =~= old(c).reservations@.update(
                                i,
                                final(c).reservations@[i],
                            )
                        }
                    &&& forall|x: int|
                        final(c).has_reservation_id(x) == old(c).has_reservation_id(x)
                },
                Err(e) => {
                    &&& e == DbError::NotFound
                    &&& !old(c).has_reservation_id(self.id as int)
                    &&& *final(c) == *old(c)
                },
            },
    {
        let now = crate::time::now_utc();
        self.end_at(c, now)
    }
}

/// A reservation view after the "end" transition is stamped at `t`.
pub open spec fn ended_at(rv: ReservationView, t: i64) -> ReservationView {
    ReservationView { actual_end: Option::Some(t), ..rv }
}

/// Ending is terminal, and ending a second (later) time never moves the
/// recorded end backwards.
pub proof fn lemma_end_terminal_monotonic(r: ReservationView, t1: i64, t2: i64)
    requires
        t1 <= t2,
    ensures
        ended_at(r, t1).actual_end == Option::<i64>::Some(t1),
        ended_at(ended_at(r, t1), t2).actual_end == Option::<i64>::Some(t2),
        ended_at(ended_at(r, t1), t2).actual_end matches Some(t) && t >= t1,
{
}

/// Re-stamping one reservation's end in place preserves well-formedness.
proof fn lemma_reservation_update_keeps_wf(prev: Store, cur: Store, i: int)
    requires
        prev.wf(),
        0 <= i < prev.reservations@.len(),
        cur.reservations@ == prev.reservations@.update(i, cur.reservations@[i]),
        cur.reservations@[i].id == prev.reservations@[i].id,
        cur.reservations@[i].user_id == prev.reservations@[i].user_id,
        cur.reservations@[i].machine_id == prev.reservations@[i].machine_id,
        cur.reservations_frame(prev),
        cur.next_id == prev.next_id,
    ensures
        cur.wf(),
{
    let u = cur.reservations@;
    let p = prev.reservations@;
    assert forall|a: int, b: int| 0 <= a < b < u.len() implies u[a].id != u[b].id by {
        assert(u[a].id == p[a].id && u[b].id == p[b].id);
    }
    crate::db::store::lemma_has_user_id_frame(prev, cur);
    crate::db::store::lemma_has_role_id_frame(prev, cur);
    crate::db::store::lemma_has_machine_id_frame(prev, cur);
    crate::db::store::lemma_has_processor_id_frame(prev, cur);
    crate::db::store::lemma_has_microarch_id_frame(prev, cur);
    crate::db::store::lemma_has_arch_id_frame(prev, cur);
    assert forall|k: int|
        0 <= k < u.len() implies cur.has_user_id(#[trigger] u[k].user_id as int) by {
        assert(u[k].user_id == p[k].user_id);
        assert(prev.has_user_id(p[k].user_id as int));
    }
    assert forall|k: int|
        0 <= k < u.len() implies cur.has_machine_id(#[trigger] u[k].machine_id as int) by {
        assert(u[k].machine_id == p[k].machine_id);
        assert(prev.has_machine_id(p[k].machine_id as int));
    }
    assert(cur.foreign_keys_ok());
    assert forall|k: int| 0 <= k < u.len() implies #[trigger] u[k].id < cur.next_id by {
        assert(u[k].id == p[k].id);
    }
}

/// Clone the reservation at an index of a vector.
fn clone_res_at(v: &Vec<Reservation>, i: usize) -> (r: Reservation)
    requires
        i < v@.len(),
    ensures
        r@ == v@[i as int]@,
{
    let slot = &v[i];
    slot.clone()
}

/// Join a sorted reservation listing with its machines and users.
fn join_full(c: &Store, sorted: Vec<Reservation>) -> (r: Result<
    Vec<(Reservation, Machine, User)>,
    DbError,
>)
    requires
        c.wf(),
        forall|k: int|
            0 <= k < sorted@.len() ==> c.has_machine_id(#[trigger] sorted@[k].machine_id as int)
                && c.has_user_id(sorted@[k].user_id as int),
    ensures
        match r {
            Ok(v) => {
                &&& triple_res_views(v@) == crate::db::sort::views_of(sorted@)
                &&& forall|i: int|
                    0 <= i < v@.len() ==> (#[trigger] v@[i].1)@ == c.machine_with_id(
                        v@[i].0.machine_id as int,
                    ) && v@[i].2@ == c.user_with_id(v@[i].0.user_id as int)
            },
            Err(_) => false,
        },
{
    let nn = sorted.len();
    let mut out: Vec<(Reservation, Machine, User)> = Vec::new();
    let mut i: usize = 0;
    proof {
        assert(triple_res_views(out@) =~= crate::db::sort::views_of(sorted@).subrange(0, 0));
    }
    while i < nn
        invariant
            i <= nn,
            nn == sorted@.len(),
            c.wf(),
            forall|k: int|
                0 <= k < sorted@.len() ==> c.has_machine_id(#[trigger] sorted@[k].machine_id as int)
                    && c.has_user_id(sorted@[k].user_id as int),
            triple_res_views(out@) == crate::db::sort::views_of(sorted@).subrange(0, i as int),
            forall|k: int|
                0 <= k < out@.len() ==> (#[trigger] out@[k].1)@ == c.machine_with_id(
                    out@[k].0.machine_id as int,
                ) && out@[k].2@ == c.user_with_id(out@[k].0.user_id as int),
        decreases nn - i,
    {
        let row = clone_res_at(&sorted, i);
        proof {
            assert(c.has_machine_id(sorted@[i as int].machine_id as int));
            assert(row.machine_id == sorted@[i as int].machine_id);
            assert(row.user_id == sorted@[i as int].user_id);
        }
        let mch = machine_by_id_known(c, row.machine_id);
        let u = user_by_id_known(c, row.user_id);
        let ghost prev = out@;
        out.push((row, mch, u));
        proof {
            let ghost sortedv = crate::db::sort::views_of(sorted@);
            assert(triple_res_views(prev).len() == prev.len());
            assert(prev.len() == i as int);
            assert forall|k: int|
                0 <= k < out@.len() implies #[trigger] triple_res_views(out@)[k]
                == sortedv.subrange(0, i + 1)[k] by {
                assert(triple_res_views(out@)[k] == out@[k].0@);
                if k < i {
                    assert(out@[k] == prev[k]);
                    assert(triple_res_views(prev)[k] == prev[k].0@);
                    assert(triple_res_views(prev)[k] == sortedv.subrange(0, i as int)[k]);
                } else {
                    assert(sortedv[i as int] == sorted@[i as int]@);
                    assert(out@[k].0@ == sortedv[i as int]);
                }
            }
            assert(triple_res_views(out@) =~= sortedv.subrange(0, i + 1));
        }
        i = i + 1;
    }
    proof {
        assert(crate::db::sort::views_of(sorted@).subrange(0, nn as int)
            =~= crate::db::sort::views_of(sorted@));
    }
    Ok(out)
}

/// A pending reservation row, built up before insertion.
pub struct ReservationBuilder {
    pub user_id: i32,
    pub machine_id: i32,
    pub scheduled_start: i64,
    pub scheduled_end: Option<i64>,
    pub actual_end: Option<i64>,
    pub pxe_path: Option<String>,
    pub nfs_root: Option<String>,
}

impl ReservationBuilder {
    /// A reservation of `machine` by `user` starting at `start`, with no
    /// end scheduled and no provisioning metadata.
    pub fn new(user: &User, machine: &Machine, start: i64) -> (r: ReservationBuilder)
        ensures
            r.user_id == user.id,
            r.machine_id == machine.id,
            r.scheduled_start == start,
            r.scheduled_end is None,
            r.actual_end is None,
            opt_str_view(r.pxe_path) is None,
            opt_str_view(r.nfs_root) is None,
    {
        ReservationBuilder {
            user_id: user.id,
            machine_id: machine.id,
            scheduled_start: start,
            scheduled_end: Option::None,
            actual_end: Option::None,
            pxe_path: Option::None,
            nfs_root: Option::None,
        }
    }

    /// Schedule the end of the reservation.
    pub fn end(self, time: i64) -> (r: ReservationBuilder)
        ensures
            r == (ReservationBuilder { scheduled_end: Option::Some(time), ..self }),
    {
        ReservationBuilder { scheduled_end: Option::Some(time), ..self }
    }

    /// Set the network-boot path.
    pub fn pxe(self, path: String) -> (r: ReservationBuilder)
        ensures
            opt_str_view(r.pxe_path) == Option::Some(path@),
            r.user_id == self.user_id,
            r.machine_id == self.machine_id,
            r.scheduled_start == self.scheduled_start,
            r.scheduled_end == self.scheduled_end,
            r.actual_end == self.actual_end,
            r.nfs_root == self.nfs_root,
    {
        ReservationBuilder { pxe_path: Option::Some(path), ..self }
    }

    /// Set the filesystem-root path.
    pub fn nfs(self, path: String) -> (r: ReservationBuilder)
        ensures
            opt_str_view(r.nfs_root) == Option::Some(path@),
            r.user_id == self.user_id,
            r.machine_id == self.machine_id,
            r.scheduled_start == self.scheduled_start,
            r.scheduled_end == self.scheduled_end,
            r.actual_end == self.actual_end,
            r.pxe_path == self.pxe_path,
    {
        ReservationBuilder { nfs_root: Option::Some(path), ..self }
    }

    /// Persist the new reservation, in the scheduled state.
    pub fn insert(self, c: &mut Store) -> (r: Result<Reservation, DbError>)
        requires
            old(c).wf(),
            old(c).next_id < i32::MAX,
        ensures
            final(c).wf(),
            final(c).reservations_frame(*old(c)),
            match r {
                Ok(res) => {
                    &&& old(c).has_user_id(self.user_id as int)
                    &&& old(c).has_machine_id(self.machine_id as int)
                    &&& res.user_id == self.user_id
                    &&& res.machine_id == self.machine_id
                    &&& res.scheduled_start == self.scheduled_start
                    &&& res.scheduled_end == self.scheduled_end
                    &&& res.actual_end == self.actual_end
                    &&& opt_str_view(res.pxe_path) == opt_str_view(self.pxe_path)
                    &&& opt_str_view(res.nfs_root) == opt_str_view(self.nfs_root)
                    &&& final(c).reservations@ == old(c).reservations@.push(
                        final(c).reservations@.last(),
                    )
                    &&& final(c).reservations@.last()@ == res@
                    &&& final(c).has_reservation_id(res.id as int)
                    &&& final(c).reservation_with_id(res.id as int) == res@
                    &&& !old(c).has_reservation_id(res.id as int)
                },
                Err(e) => {
                    &&& *final(c) == *old(c)
                    &&& e == DbError::ForeignKeyViolation
                    &&& (!old(c).has_user_id(self.user_id as int) || !old(c).has_machine_id(
                        self.machine_id as int,
                    ))
                },
            },
    {
        if !c.has_user_id_exec(self.user_id) {
            return Err(DbError::ForeignKeyViolation);
        }
        if !c.has_machine_id_exec(self.machine_id) {
            return Err(DbError::ForeignKeyViolation);
        }
        let id = c.next_id;
        let row = Reservation {
            id,
            user_id: self.user_id,
            machine_id: self.machine_id,
            scheduled_start: self.scheduled_start,
            scheduled_end: self.scheduled_end,
            actual_end: self.actual_end,
            pxe_path: self.pxe_path,
            nfs_root: self.nfs_root,
        };
        let res = row.clone();
        let ghost pre = *c;
        c.reservations.push(row);
        c.next_id = id + 1;
        proof {
            assert forall|a: int, b: int|
                0 <= a < b < c.reservations@.len() implies c.reservations@[a].id
                != c.reservations@[b].id by {
                assert(c.reservations@[a] == pre.reservations@[a]);
                if b < pre.reservations@.len() {
                    assert(c.reservations@[b] == pre.reservations@[b]);
                } else {
                    assert(c.reservations@[b].id == id);
                }
            }
            crate::db::store::lemma_has_user_id_frame(pre, *c);
            crate::db::store::lemma_has_role_id_frame(pre, *c);
            crate::db::store::lemma_has_machine_id_frame(pre, *c);
            crate::db::store::lemma_has_processor_id_frame(pre, *c);
            crate::db::store::lemma_has_microarch_id_frame(pre, *c);
            crate::db::store::lemma_has_arch_id_frame(pre, *c);
            let ghost last = c.reservations@.len() - 1;
            assert(c.reservations@[last].user_id == self.user_id);
            assert(c.reservations@[last].machine_id == self.machine_id);
            assert forall|k: int|
                0 <= k < c.reservations@.len() implies c.has_user_id(
                #[trigger] c.reservations@[k].user_id as int,
            ) && c.has_machine_id(c.reservations@[k].machine_id as int) && c.reservations@[k].id
                < c.next_id by {
                if k < pre.reservations@.len() {
                    assert(c.reservations@[k] == pre.reservations@[k]);
                    assert(pre.has_user_id(pre.reservations@[k].user_id as int));
                    assert(pre.has_machine_id(pre.reservations@[k].machine_id as int));
                }
            }
            assert(c.foreign_keys_ok());
            assert(c.has_reservation_id(res.id as int)) by {
                assert(c.reservations@[last].id == res.id);
            }
            assert(c.reservation_with_id(res.id as int) == res@) by {
                let j = choose|j: int|
                    0 <= j < c.reservations@.len() && c.reservations@[j].id == res.id;
                if j != last {
                    assert(c.reservations@[j] == pre.reservations@[j]);
                    assert(pre.reservations@[j].id < pre.next_id);
                }
            }
            assert(!pre.has_reservation_id(res.id as int)) by {
                if pre.has_reservation_id(res.id as int) {
                    let j = choose|j: int|
                        0 <= j < pre.reservations@.len() && pre.reservations@[j].id == res.id;
                    assert(pre.reservations@[j].id < pre.next_id);
                }
            }
        }
        Ok(res)
    }
}

// ---------------------------------------------------------------------------
// Laws
// ---------------------------------------------------------------------------

/// Capability checks are the monotonic OR of the held roles' flags: a user
/// has a capability exactly when at least one role they hold grants it, and
/// never when every role they hold denies it (in particular, when they hold
/// no role at all).
pub proof fn lemma_capability_or(c: Store, uid: int, cap: Capability)
    ensures
        c.user_has_capability_spec(uid, cap) <==> exists|i: int|
            0 <= i < c.roles@.len() && #[trigger] c.roles@[i]@.grants(cap) && c.assignment_for(
                uid,
                c.roles@[i].id as int,
            ),
        (forall|i: int|
            0 <= i < c.roles@.len() && c.assignment_for(uid, #[trigger] c.roles@[i].id as int)
                ==> !c.roles@[i]@.grants(cap)) ==> !c.user_has_capability_spec(uid, cap),
{
}

/// Granting more never revokes: a store that keeps every assignment of
/// another (with the same role table) grants at least the same capabilities,
/// so adding a role assignment never flips a capability from granted to
/// denied.
pub proof fn lemma_capability_monotonic(c1: Store, c2: Store, uid: int, cap: Capability)
    requires
        c2.roles == c1.roles,
        forall|j: int|
            #![trigger c1.role_assignments@[j]]
            0 <= j < c1.role_assignments@.len() ==> exists|k: int|
                0 <= k < c2.role_assignments@.len() && #[trigger] c2.role_assignments@[k]@
                    == c1.role_assignments@[j]@,
    ensures
        c1.user_has_capability_spec(uid, cap) ==> c2.user_has_capability_spec(uid, cap),
{
    if c1.user_has_capability_spec(uid, cap) {
        let i = choose|i: int|
            0 <= i < c1.roles@.len() && #[trigger] c1.roles@[i]@.grants(cap) && c1.assignment_for(
                uid,
                c1.roles@[i].id as int,
            );
        let j = choose|j: int|
            0 <= j < c1.role_assignments@.len() && c1.role_assignments@[j].user_id == uid
                && c1.role_assignments@[j].role_id == c1.roles@[i].id;
        assert(exists|k: int|
            0 <= k < c2.role_assignments@.len() && #[trigger] c2.role_assignments@[k]@
                == c1.role_assignments@[j]@);
        let k = choose|k: int|
            0 <= k < c2.role_assignments@.len() && #[trigger] c2.role_assignments@[k]@
                == c1.role_assignments@[j]@;
        assert(c2.role_assignments@[k].user_id == uid && c2.role_assignments@[k].role_id
            == c1.roles@[i].id);
        assert(c2.roles@[i]@.grants(cap));
        assert(c2.assignment_for(uid, c2.roles@[i].id as int));
    }
}

/// The `roles` query never returns the same role twice: each returned role
/// comes from a distinct assignment row, and a user holds each role at most
/// once.
pub proof fn lemma_user_role_seq_distinct(c: Store, uid: int, upto: int)
    requires
        c.wf(),
        0 <= upto <= c.role_assignments@.len(),
    ensures
        forall|k: int, l: int|
            0 <= k < l < user_role_seq(c, uid, upto).len() ==> user_role_seq(c, uid, upto)[k].id
                != user_role_seq(c, uid, upto)[l].id,
    decreases upto,
{
    if upto > 0 {
        lemma_user_role_seq_distinct(c, uid, upto - 1);
        let s = user_role_seq(c, uid, upto);
        let rest = user_role_seq(c, uid, upto - 1);
        let a = c.role_assignments@[upto - 1];
        if a.user_id == uid {
            assert(s == rest.push(c.role_with_id(a.role_id as int)));
            assert(c.has_role_id(a.role_id as int));
            let jr = choose|jr: int| 0 <= jr < c.roles@.len() && c.roles@[jr].id == a.role_id;
            lemma_role_with_id_of_row(c, jr);
            assert(c.role_with_id(a.role_id as int).id == a.role_id as int);
            assert forall|k: int, l: int|
                0 <= k < l < s.len() implies s[k].id != s[l].id by {
                if l == s.len() - 1 {
                    assert(rest.contains(rest[k]));
                    lemma_user_role_seq_contains(c, uid, upto - 1, rest[k]);
                    let j = choose|j: int|
                        0 <= j < upto - 1 && #[trigger] c.role_assignments@[j].user_id == uid
                            && rest[k] == c.role_with_id(c.role_assignments@[j].role_id as int);
                    assert(c.has_role_id(c.role_assignments@[j].role_id as int));
                    let jr2 = choose|jr2: int|
                        0 <= jr2 < c.roles@.len() && c.roles@[jr2].id
                            == c.role_assignments@[j].role_id;
                    lemma_role_with_id_of_row(c, jr2);
                    assert(rest[k].id == c.role_assignments@[j].role_id as int);
                    assert(c.role_assignments@[j].role_id != a.role_id);
                } else {
                    assert(s[k] == rest[k] && s[l] == rest[l]);
                }
            }
        }
    }
}

/// Role reconciliation round-trips: the names of the roles the `roles` query
/// returns are exactly the user's role-name set, which `set_roles` ensures
/// equals the requested set.
pub proof fn lemma_roles_round_trip(c: Store, uid: int)
    requires
        c.wf(),
    ensures
        role_names_of(user_role_seq(c, uid, c.role_assignments@.len() as int))
            =~= c.user_role_names(uid),
{
    let n = c.role_assignments@.len() as int;
    let s = user_role_seq(c, uid, n);
    assert forall|nm: Seq<char>|
        role_names_of(s).contains(nm) == c.user_role_names(uid).contains(nm) by {
        if role_names_of(s).contains(nm) {
            let k = choose|k: int| 0 <= k < s.len() && #[trigger] s[k].name == nm;
            assert(s.contains(s[k]));
            lemma_user_role_seq_contains(c, uid, n, s[k]);
            let j = choose|j: int|
                0 <= j < n && #[trigger] c.role_assignments@[j].user_id == uid && s[k]
                    == c.role_with_id(c.role_assignments@[j].role_id as int);
            assert(c.has_role_id(c.role_assignments@[j].role_id as int));
            let jr = choose|jr: int|
                0 <= jr < c.roles@.len() && c.roles@[jr].id == c.role_assignments@[j].role_id;
            lemma_role_with_id_of_row(c, jr);
            assert(c.roles@[jr].name@ == nm);
            assert(c.assignment_for(uid, c.roles@[jr].id as int));
            assert(c.user_holds_role_named(uid, nm));
        }
        if c.user_role_names(uid).contains(nm) {
            let jr = choose|jr: int|
                0 <= jr < c.roles@.len() && c.roles@[jr].name@ == nm && c.assignment_for(
                    uid,
                    c.roles@[jr].id as int,
                );
            let a = choose|a: int|
                0 <= a < n && c.role_assignments@[a].user_id == uid && c.role_assignments@[a].role_id
                    == c.roles@[jr].id;
            lemma_role_with_id_of_row(c, jr);
            let rv = c.role_with_id(c.role_assignments@[a].role_id as int);
            lemma_user_role_seq_contains(c, uid, n, rv);
            assert(s.contains(rv));
            let k = choose|k: int| 0 <= k < s.len() && s[k] == rv;
            assert(s[k].name == nm);
            assert(role_names_of(s).contains(nm));
        }
    }
}

/// The set of addresses a sequence of address views carries.
pub open spec fn address_set_of(s: Seq<Seq<char>>) -> Set<Seq<char>> {
    Set::new(|a: Seq<char>| s.contains(a))
}

/// Email reconciliation round-trips: the addresses the `emails` query
/// returns are exactly the user's address set, which `set_emails` ensures
/// equals the requested set.
pub proof fn lemma_emails_round_trip(c: Store, uid: int)
    requires
        c.wf(),
    ensures
        address_set_of(user_email_seq(c, uid, c.emails@.len() as int)) =~= c.emails_of_user(uid),
{
    let n = c.emails@.len() as int;
    let s = user_email_seq(c, uid, n);
    assert forall|a: Seq<char>|
        address_set_of(s).contains(a) == c.emails_of_user(uid).contains(a) by {
        lemma_user_email_seq_contains(c, uid, n, a);
    }
}

/// The effective finish prefers the scheduled end over the actual end, and
/// is unbounded only when neither is set.
pub proof fn lemma_effective_finish_precedence(r: ReservationView)
    ensures
        r.scheduled_end is Some ==> r.effective_finish() == r.scheduled_end,
        r.scheduled_end is None && r.actual_end is Some ==> r.effective_finish() == r.actual_end,
        r.scheduled_end is None && r.actual_end is None ==> r.effective_finish() is None,
{
}

} // verus!
