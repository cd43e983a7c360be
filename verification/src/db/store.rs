//! The in-memory entity store and its well-formedness invariant.

use vstd::prelude::*;

use crate::db::models::{
    Architecture, Disk, Email, GithubAccount, Machine, Microarchitecture, Nic, Processor,
    Reservation, Role, RoleAssignment, User, UserView, RoleView, MachineView,
};
use crate::error::DbError;
use crate::util::{seq_char_le, str_le, string_eq_str, lemma_seq_char_le_total,
    lemma_seq_char_le_trans};

verus! {

/// The (unique, given unique ids) role in a role table with a given id.
pub open spec fn role_view_in(roles: Seq<Role>, rid: int) -> RoleView {
    roles[choose|i: int| 0 <= i < roles.len() && roles[i].id == rid]@
}

/// The whole state of the reservation system: one vector per table, plus a
/// counter from which fresh row identifiers are drawn.
pub struct Store {
    pub users: Vec<User>,
    pub github_accounts: Vec<GithubAccount>,
    pub emails: Vec<Email>,
    pub roles: Vec<Role>,
    pub role_assignments: Vec<RoleAssignment>,
    pub architectures: Vec<Architecture>,
    pub microarchitectures: Vec<Microarchitecture>,
    pub processors: Vec<Processor>,
    pub machines: Vec<Machine>,
    pub disks: Vec<Disk>,
    pub nics: Vec<Nic>,
    pub reservations: Vec<Reservation>,
    pub next_id: i32,
}

impl Store {
    pub open spec fn user_ids_unique(self) -> bool {
        forall|i: int, j: int|
            0 <= i < j < self.users@.len() ==> self.users@[i].id != self.users@[j].id
    }

    pub open spec fn usernames_unique(self) -> bool {
        forall|i: int, j: int|
            0 <= i < j < self.users@.len() ==> self.users@[i].username@ != self.users@[j].username@
    }

    pub open spec fn role_ids_unique(self) -> bool {
        forall|i: int, j: int|
            0 <= i < j < self.roles@.len() ==> self.roles@[i].id != self.roles@[j].id
    }

    pub open spec fn role_names_unique(self) -> bool {
        forall|i: int, j: int|
            0 <= i < j < self.roles@.len() ==> self.roles@[i].name@ != self.roles@[j].name@
    }

    pub open spec fn machine_ids_unique(self) -> bool {
        forall|i: int, j: int|
            0 <= i < j < self.machines@.len() ==> self.machines@[i].id != self.machines@[j].id
    }

    pub open spec fn machine_names_unique(self) -> bool {
        forall|i: int, j: int|
            0 <= i < j < self.machines@.len() ==> self.machines@[i].name@
                != self.machines@[j].name@
    }

    pub open spec fn email_ids_unique(self) -> bool {
        forall|i: int, j: int|
            0 <= i < j < self.emails@.len() ==> self.emails@[i].id != self.emails@[j].id
    }

    pub open spec fn email_addresses_unique(self) -> bool {
        forall|i: int, j: int|
            0 <= i < j < self.emails@.len() ==> self.emails@[i].email@ != self.emails@[j].email@
    }

    pub open spec fn assignment_ids_unique(self) -> bool {
        forall|i: int, j: int|
            0 <= i < j < self.role_assignments@.len() ==> self.role_assignments@[i].id
                != self.role_assignments@[j].id
    }

    /// At most one assignment row per (user, role) pair.
    pub open spec fn assignments_unique(self) -> bool {
        forall|i: int, j: int|
            0 <= i < j < self.role_assignments@.len() ==> !(self.role_assignments@[i].user_id
                == self.role_assignments@[j].user_id && self.role_assignments@[i].role_id
                == self.role_assignments@[j].role_id)
    }

    pub open spec fn reservation_ids_unique(self) -> bool {
        forall|i: int, j: int|
            0 <= i < j < self.reservations@.len() ==> self.reservations@[i].id
                != self.reservations@[j].id
    }

    pub open spec fn architecture_ids_unique(self) -> bool {
        forall|i: int, j: int|
            0 <= i < j < self.architectures@.len() ==> self.architectures@[i].id
                != self.architectures@[j].id
    }

    pub open spec fn microarch_ids_unique(self) -> bool {
        forall|i: int, j: int|
            0 <= i < j < self.microarchitectures@.len() ==> self.microarchitectures@[i].id
                != self.microarchitectures@[j].id
    }

    pub open spec fn processor_ids_unique(self) -> bool {
        forall|i: int, j: int|
            0 <= i < j < self.processors@.len() ==> self.processors@[i].id
                != self.processors@[j].id
    }

    pub open spec fn disk_ids_unique(self) -> bool {
        forall|i: int, j: int|
            0 <= i < j < self.disks@.len() ==> self.disks@[i].id != self.disks@[j].id
    }

    pub open spec fn nic_ids_unique(self) -> bool {
        forall|i: int, j: int|
            0 <= i < j < self.nics@.len() ==> self.nics@[i].id != self.nics@[j].id
    }

    pub open spec fn github_usernames_unique(self) -> bool {
        forall|i: int, j: int|
            0 <= i < j < self.github_accounts@.len() ==> self.github_accounts@[i].github_username@
                != self.github_accounts@[j].github_username@ && self.github_accounts@[i].id
                != self.github_accounts@[j].id
    }

    pub open spec fn has_user_id(self, uid: int) -> bool {
        exists|i: int| 0 <= i < self.users@.len() && self.users@[i].id == uid
    }

    pub open spec fn has_role_id(self, rid: int) -> bool {
        exists|i: int| 0 <= i < self.roles@.len() && self.roles@[i].id == rid
    }

    pub open spec fn has_machine_id(self, mid: int) -> bool {
        exists|i: int| 0 <= i < self.machines@.len() && self.machines@[i].id == mid
    }

    pub open spec fn has_processor_id(self, pid: int) -> bool {
        exists|i: int| 0 <= i < self.processors@.len() && self.processors@[i].id == pid
    }

    pub open spec fn has_microarch_id(self, mid: int) -> bool {
        exists|i: int| 0 <= i < self.microarchitectures@.len() && self.microarchitectures@[i].id
            == mid
    }

    pub open spec fn has_arch_id(self, aid: int) -> bool {
        exists|i: int| 0 <= i < self.architectures@.len() && self.architectures@[i].id == aid
    }

    /// Every foreign key references an existing row.
    pub open spec fn foreign_keys_ok(self) -> bool {
        &&& forall|i: int|
            0 <= i < self.emails@.len() ==> self.has_user_id(#[trigger] self.emails@[i].user_id
                as int)
        &&& forall|i: int|
            0 <= i < self.github_accounts@.len() ==> self.has_user_id(
                #[trigger] self.github_accounts@[i].user_id as int,
            )
        &&& forall|i: int|
            0 <= i < self.role_assignments@.len() ==> self.has_user_id(
                #[trigger] self.role_assignments@[i].user_id as int,
            )
        &&& forall|i: int|
            0 <= i < self.role_assignments@.len() ==> self.has_role_id(
                #[trigger] self.role_assignments@[i].role_id as int,
            )
        &&& forall|i: int|
            0 <= i < self.machines@.len() ==> self.has_processor_id(
                #[trigger] self.machines@[i].processor_id as int,
            )
        &&& forall|i: int|
            0 <= i < self.processors@.len() ==> self.has_microarch_id(
                #[trigger] self.processors@[i].microarch_id as int,
            )
        &&& forall|i: int|
            0 <= i < self.microarchitectures@.len() ==> self.has_arch_id(
                #[trigger] self.microarchitectures@[i].arch_id as int,
            )
        &&& forall|i: int|
            0 <= i < self.disks@.len() ==> self.has_machine_id(
                #[trigger] self.disks@[i].machine_id as int,
            )
        &&& forall|i: int|
            0 <= i < self.nics@.len() ==> self.has_machine_id(
                #[trigger] self.nics@[i].machine_id as int,
            )
        &&& forall|i: int|
            0 <= i < self.reservations@.len() ==> self.has_user_id(
                #[trigger] self.reservations@[i].user_id as int,
            )
        &&& forall|i: int|
            0 <= i < self.reservations@.len() ==> self.has_machine_id(
                #[trigger] self.reservations@[i].machine_id as int,
            )
    }

    /// Every row identifier was drawn from the counter.
    pub open spec fn ids_below_counter(self) -> bool {
        &&& forall|i: int| 0 <= i < self.users@.len() ==> #[trigger] self.users@[i].id < self.next_id
        &&& forall|i: int|
            0 <= i < self.github_accounts@.len() ==> #[trigger] self.github_accounts@[i].id
                < self.next_id
        &&& forall|i: int|
            0 <= i < self.emails@.len() ==> #[trigger] self.emails@[i].id < self.next_id
        &&& forall|i: int| 0 <= i < self.roles@.len() ==> #[trigger] self.roles@[i].id < self.next_id
        &&& forall|i: int|
            0 <= i < self.role_assignments@.len() ==> #[trigger] self.role_assignments@[i].id
                < self.next_id
        &&& forall|i: int|
            0 <= i < self.architectures@.len() ==> #[trigger] self.architectures@[i].id
                < self.next_id
        &&& forall|i: int|
            0 <= i < self.microarchitectures@.len() ==> #[trigger] self.microarchitectures@[i].id
                < self.next_id
        &&& forall|i: int|
            0 <= i < self.processors@.len() ==> #[trigger] self.processors@[i].id < self.next_id
        &&& forall|i: int|
            0 <= i < self.machines@.len() ==> #[trigger] self.machines@[i].id < self.next_id
        &&& forall|i: int|
            0 <= i < self.disks@.len() ==> #[trigger] self.disks@[i].id < self.next_id
        &&& forall|i: int| 0 <= i < self.nics@.len() ==> #[trigger] self.nics@[i].id < self.next_id
        &&& forall|i: int|
            0 <= i < self.reservations@.len() ==> #[trigger] self.reservations@[i].id
                < self.next_id
    }

    /// Listings present users, roles, machines and processors in name order,
    /// so the store keeps those tables sorted.
    pub open spec fn users_sorted(self) -> bool {
        forall|i: int, j: int|
            0 <= i < j < self.users@.len() ==> seq_char_le(
                self.users@[i].username@,
                self.users@[j].username@,
            )
    }

    pub open spec fn roles_sorted(self) -> bool {
        forall|i: int, j: int|
            0 <= i < j < self.roles@.len() ==> seq_char_le(
                self.roles@[i].name@,
                self.roles@[j].name@,
            )
    }

    pub open spec fn machines_sorted(self) -> bool {
        forall|i: int, j: int|
            0 <= i < j < self.machines@.len() ==> seq_char_le(
                self.machines@[i].name@,
                self.machines@[j].name@,
            )
    }

    pub open spec fn processors_sorted(self) -> bool {
        forall|i: int, j: int|
            0 <= i < j < self.processors@.len() ==> seq_char_le(
                self.processors@[i].name@,
                self.processors@[j].name@,
            )
    }

    /// Well-formedness: the uniqueness and referential-integrity guarantees
    /// that the relational schema would enforce.
    pub open spec fn wf(self) -> bool {
        &&& self.user_ids_unique()
        &&& self.usernames_unique()
        &&& self.role_ids_unique()
        &&& self.role_names_unique()
        &&& self.machine_ids_unique()
        &&& self.machine_names_unique()
        &&& self.email_ids_unique()
        &&& self.email_addresses_unique()
        &&& self.assignment_ids_unique()
        &&& self.assignments_unique()
        &&& self.reservation_ids_unique()
        &&& self.architecture_ids_unique()
        &&& self.microarch_ids_unique()
        &&& self.processor_ids_unique()
        &&& self.disk_ids_unique()
        &&& self.nic_ids_unique()
        &&& self.github_usernames_unique()
        &&& self.foreign_keys_ok()
        &&& self.ids_below_counter()
        &&& self.users_sorted()
        &&& self.roles_sorted()
        &&& self.machines_sorted()
        &&& self.processors_sorted()
    }

    // -- lookup predicates used by the operation contracts --

    pub open spec fn has_username(self, uname: Seq<char>) -> bool {
        exists|i: int| 0 <= i < self.users@.len() && self.users@[i].username@ == uname
    }

    /// The (unique, when `wf`) user with a username.
    pub open spec fn user_with_username(self, uname: Seq<char>) -> UserView {
        self.users@[choose|i: int|
            0 <= i < self.users@.len() && self.users@[i].username@ == uname]@
    }

    /// The (unique, when `wf`) user with an id.
    pub open spec fn user_with_id(self, uid: int) -> UserView {
        self.users@[choose|i: int| 0 <= i < self.users@.len() && self.users@[i].id == uid]@
    }

    pub open spec fn has_role_name(self, name: Seq<char>) -> bool {
        exists|i: int| 0 <= i < self.roles@.len() && self.roles@[i].name@ == name
    }

    pub open spec fn role_with_name(self, name: Seq<char>) -> RoleView {
        self.roles@[choose|i: int| 0 <= i < self.roles@.len() && self.roles@[i].name@ == name]@
    }

    pub open spec fn role_with_id(self, rid: int) -> RoleView {
        role_view_in(self.roles@, rid)
    }

    pub open spec fn has_machine_name(self, name: Seq<char>) -> bool {
        exists|i: int| 0 <= i < self.machines@.len() && self.machines@[i].name@ == name
    }

    pub open spec fn machine_with_name(self, name: Seq<char>) -> MachineView {
        self.machines@[choose|i: int|
            0 <= i < self.machines@.len() && self.machines@[i].name@ == name]@
    }

    pub open spec fn machine_with_id(self, mid: int) -> MachineView {
        self.machines@[choose|i: int| 0 <= i < self.machines@.len() && self.machines@[i].id == mid]@
    }

    pub open spec fn processor_with_id(self, pid: int) -> crate::db::models::ProcessorView {
        self.processors@[choose|i: int|
            0 <= i < self.processors@.len() && self.processors@[i].id == pid]@
    }

    pub open spec fn microarch_with_id(self, mid: int) -> crate::db::models::MicroarchitectureView {
        self.microarchitectures@[choose|i: int|
            0 <= i < self.microarchitectures@.len() && self.microarchitectures@[i].id == mid]@
    }

    pub open spec fn arch_with_id(self, aid: int) -> crate::db::models::ArchitectureView {
        self.architectures@[choose|i: int|
            0 <= i < self.architectures@.len() && self.architectures@[i].id == aid]@
    }

    /// An email address row owned by some user.
    pub open spec fn has_email_address(self, address: Seq<char>) -> bool {
        exists|i: int| 0 <= i < self.emails@.len() && self.emails@[i].email@ == address
    }

    /// The owner of an email address (unique when `wf`).
    pub open spec fn email_owner(self, address: Seq<char>) -> int {
        self.emails@[choose|i: int|
            0 <= i < self.emails@.len() && self.emails@[i].email@ == address].user_id as int
    }

    /// The set of email addresses owned by a user.
    pub open spec fn emails_of_user(self, uid: int) -> Set<Seq<char>> {
        Set::new(
            |a: Seq<char>|
                exists|i: int|
                    0 <= i < self.emails@.len() && self.emails@[i].user_id == uid
                        && self.emails@[i].email@ == a,
        )
    }

    pub open spec fn has_github_username(self, gh: Seq<char>) -> bool {
        exists|i: int|
            0 <= i < self.github_accounts@.len() && self.github_accounts@[i].github_username@ == gh
    }

    /// The user id bound to a GitHub username (unique when `wf`).
    pub open spec fn github_user_id(self, gh: Seq<char>) -> int {
        self.github_accounts@[choose|i: int|
            0 <= i < self.github_accounts@.len() && self.github_accounts@[i].github_username@
                == gh].user_id as int
    }

    /// A role assignment row binds the user to the role.
    pub open spec fn assignment_for(self, uid: int, rid: int) -> bool {
        exists|i: int|
            0 <= i < self.role_assignments@.len() && self.role_assignments@[i].user_id == uid
                && self.role_assignments@[i].role_id == rid
    }

    /// The user holds the role named `name`.
    pub open spec fn user_holds_role_named(self, uid: int, name: Seq<char>) -> bool {
        exists|i: int|
            0 <= i < self.roles@.len() && self.roles@[i].name@ == name && self.assignment_for(
                uid,
                self.roles@[i].id as int,
            )
    }

    /// The set of role names held by a user.
    pub open spec fn user_role_names(self, uid: int) -> Set<Seq<char>> {
        Set::new(|n: Seq<char>| self.user_holds_role_named(uid, n))
    }

    /// The user holds at least one role granting the capability:
    /// capability checks are the logical OR of all held roles' flags.
    pub open spec fn user_has_capability_spec(
        self,
        uid: int,
        cap: crate::db::models::Capability,
    ) -> bool {
        exists|i: int|
            0 <= i < self.roles@.len() && #[trigger] self.roles@[i]@.grants(cap)
                && self.assignment_for(uid, self.roles@[i].id as int)
    }

    pub open spec fn has_reservation_id(self, rid: int) -> bool {
        exists|i: int| 0 <= i < self.reservations@.len() && self.reservations@[i].id == rid
    }

    pub open spec fn reservation_with_id(self, rid: int) -> crate::db::models::ReservationView {
        self.reservations@[choose|i: int|
            0 <= i < self.reservations@.len() && self.reservations@[i].id == rid]@
    }

    // -- framing: which tables an operation leaves untouched --

    pub open spec fn users_frame(self, other: Store) -> bool {
        &&& self.github_accounts == other.github_accounts
        &&& self.emails == other.emails
        &&& self.roles == other.roles
        &&& self.role_assignments == other.role_assignments
        &&& self.architectures == other.architectures
        &&& self.microarchitectures == other.microarchitectures
        &&& self.processors == other.processors
        &&& self.machines == other.machines
        &&& self.disks == other.disks
        &&& self.nics == other.nics
        &&& self.reservations == other.reservations
    }

    pub open spec fn roles_frame(self, other: Store) -> bool {
        &&& self.users == other.users
        &&& self.github_accounts == other.github_accounts
        &&& self.emails == other.emails
        &&& self.role_assignments == other.role_assignments
        &&& self.architectures == other.architectures
        &&& self.microarchitectures == other.microarchitectures
        &&& self.processors == other.processors
        &&& self.machines == other.machines
        &&& self.disks == other.disks
        &&& self.nics == other.nics
        &&& self.reservations == other.reservations
    }

    pub open spec fn emails_frame(self, other: Store) -> bool {
        &&& self.users == other.users
        &&& self.github_accounts == other.github_accounts
        &&& self.roles == other.roles
        &&& self.role_assignments == other.role_assignments
        &&& self.architectures == other.architectures
        &&& self.microarchitectures == other.microarchitectures
        &&& self.processors == other.processors
        &&& self.machines == other.machines
        &&& self.disks == other.disks
        &&& self.nics == other.nics
        &&& self.reservations == other.reservations
    }

    pub open spec fn assignments_frame(self, other: Store) -> bool {
        &&& self.users == other.users
        &&& self.github_accounts == other.github_accounts
        &&& self.emails == other.emails
        &&& self.roles == other.roles
        &&& self.architectures == other.architectures
        &&& self.microarchitectures == other.microarchitectures
        &&& self.processors == other.processors
        &&& self.machines == other.machines
        &&& self.disks == other.disks
        &&& self.nics == other.nics
        &&& self.reservations == other.reservations
    }

    pub open spec fn machines_frame(self, other: Store) -> bool {
        &&& self.users == other.users
        &&& self.github_accounts == other.github_accounts
        &&& self.emails == other.emails
        &&& self.roles == other.roles
        &&& self.role_assignments == other.role_assignments
        &&& self.architectures == other.architectures
        &&& self.microarchitectures == other.microarchitectures
        &&& self.processors == other.processors
        &&& self.disks == other.disks
        &&& self.nics == other.nics
        &&& self.reservations == other.reservations
    }

    pub open spec fn reservations_frame(self, other: Store) -> bool {
        &&& self.users == other.users
        &&& self.github_accounts == other.github_accounts
        &&& self.emails == other.emails
        &&& self.roles == other.roles
        &&& self.role_assignments == other.role_assignments
        &&& self.architectures == other.architectures
        &&& self.microarchitectures == other.microarchitectures
        &&& self.processors == other.processors
        &&& self.machines == other.machines
        &&& self.disks == other.disks
        &&& self.nics == other.nics
    }

    /// An empty store.
    pub fn new() -> (s: Store)
        ensures
            s.wf(),
            s.users@.len() == 0,
            s.github_accounts@.len() == 0,
            s.emails@.len() == 0,
            s.roles@.len() == 0,
            s.role_assignments@.len() == 0,
            s.architectures@.len() == 0,
            s.microarchitectures@.len() == 0,
            s.processors@.len() == 0,
            s.machines@.len() == 0,
            s.disks@.len() == 0,
            s.nics@.len() == 0,
            s.reservations@.len() == 0,
    {
        Store {
            users: Vec::new(),
            github_accounts: Vec::new(),
            emails: Vec::new(),
            roles: Vec::new(),
            role_assignments: Vec::new(),
            architectures: Vec::new(),
            microarchitectures: Vec::new(),
            processors: Vec::new(),
            machines: Vec::new(),
            disks: Vec::new(),
            nics: Vec::new(),
            reservations: Vec::new(),
            next_id: 1,
        }
    }

    /// Register a user.  Fails when the username is taken.
    pub fn create_user(&mut self, username: &str, name: &str) -> (r: Result<User, DbError>)
        requires
            old(self).wf(),
            old(self).next_id < i32::MAX,
        ensures
            final(self).wf(),
            match r {
                Ok(u) => {
                    &&& !old(self).has_username(username@)
                    &&& final(self).has_username(username@)
                    &&& u@ == final(self).user_with_username(username@)
                    &&& u.username@ == username@
                    &&& u.name@ == name@
                    &&& exists|pos: int|
                        0 <= pos <= old(self).users@.len() && final(self).users@ =~= old(
                            self,
                        ).users@.insert(pos, final(self).users@[pos])
                    &&& forall|uid: int|
                        final(self).has_user_id(uid) <==> old(self).has_user_id(uid) || uid == u.id
                },
                Err(e) => {
                    &&& e == DbError::UniqueViolation
                    &&& old(self).has_username(username@)
                    &&& *final(self) == *old(self)
                },
            },
            final(self).users_frame(*old(self)),
    {
        let slot = username_insert_slot(&self.users, username);
        let pos = match slot {
            Option::None => {
                return Err(DbError::UniqueViolation);
            },
            Option::Some(p) => p,
        };
        proof {
            lemma_seq_char_le_total(username@, username@);
            assert(!self.has_username(username@));
        }
        let id = self.next_id;
        let row = User { id, username: username.to_owned(), name: name.to_owned() };
        let user = row.clone();
        let ghost prev = *self;
        self.users.insert(pos, row);
        self.next_id = id + 1;
        proof {
            lemma_user_insert_wf(prev, *self, pos as int, username@);
            assert(self.has_username(username@)) by {
                assert(self.users@[pos as int].username@ == username@);
            }
            assert(user@ == self.user_with_username(username@)) by {
                let j = choose|i: int|
                    0 <= i < self.users@.len() && self.users@[i].username@ == username@;
                assert(self.users@[pos as int].username@ == username@);
                if j != pos {
                    assert(self.users@[j].username@ != self.users@[pos as int].username@);
                }
            }
            assert forall|uid: int|
                self.has_user_id(uid) <==> prev.has_user_id(uid) || uid == user.id by {
                if prev.has_user_id(uid) {
                    let k = choose|k: int| 0 <= k < prev.users@.len() && prev.users@[k].id == uid;
                    if k < pos {
                        assert(self.users@[k].id == uid);
                    } else {
                        assert(self.users@[k + 1].id == uid);
                    }
                }
                if self.has_user_id(uid) && uid != user.id {
                    let k = choose|k: int| 0 <= k < self.users@.len() && self.users@[k].id == uid;
                    if k < pos {
                        assert(prev.users@[k].id == uid);
                    } else {
                        assert(prev.users@[k - 1].id == uid);
                    }
                }
            }
        }
        Ok(user)
    }
}

impl Store {
    /// Whether a user row with this id exists.
    pub fn has_user_id_exec(&self, uid: i32) -> (r: bool)
        ensures
            r == self.has_user_id(uid as int),
    {
        let n = self.users.len();
        let mut i: usize = 0;
        while i < n
            invariant
                i <= n,
                n == self.users@.len(),
                forall|k: int| 0 <= k < i ==> self.users@[k].id != uid,
            decreases n - i,
        {
            if self.users[i].id == uid {
                return true;
            }
            i = i + 1;
        }
        false
    }

    /// Whether a machine row with this id exists.
    pub fn has_machine_id_exec(&self, mid: i32) -> (r: bool)
        ensures
            r == self.has_machine_id(mid as int),
    {
        let n = self.machines.len();
        let mut i: usize = 0;
        while i < n
            invariant
                i <= n,
                n == self.machines@.len(),
                forall|k: int| 0 <= k < i ==> self.machines@[k].id != mid,
            decreases n - i,
        {
            if self.machines[i].id == mid {
                return true;
            }
            i = i + 1;
        }
        false
    }

    /// Whether an architecture row with this id exists.
    pub fn has_arch_id_exec(&self, aid: i32) -> (r: bool)
        ensures
            r == self.has_arch_id(aid as int),
    {
        let n = self.architectures.len();
        let mut i: usize = 0;
        while i < n
            invariant
                i <= n,
                n == self.architectures@.len(),
                forall|k: int| 0 <= k < i ==> self.architectures@[k].id != aid,
            decreases n - i,
        {
            if self.architectures[i].id == aid {
                return true;
            }
            i = i + 1;
        }
        false
    }

    /// Whether a microarchitecture row with this id exists.
    pub fn has_microarch_id_exec(&self, mid: i32) -> (r: bool)
        ensures
            r == self.has_microarch_id(mid as int),
    {
        let n = self.microarchitectures.len();
        let mut i: usize = 0;
        while i < n
            invariant
                i <= n,
                n == self.microarchitectures@.len(),
                forall|k: int| 0 <= k < i ==> self.microarchitectures@[k].id != mid,
            decreases n - i,
        {
            if self.microarchitectures[i].id == mid {
                return true;
            }
            i = i + 1;
        }
        false
    }

    /// Whether a processor row with this id exists.
    pub fn has_processor_id_exec(&self, pid: i32) -> (r: bool)
        ensures
            r == self.has_processor_id(pid as int),
    {
        let n = self.processors.len();
        let mut i: usize = 0;
        while i < n
            invariant
                i <= n,
                n == self.processors@.len(),
                forall|k: int| 0 <= k < i ==> self.processors@[k].id != pid,
            decreases n - i,
        {
            if self.processors[i].id == pid {
                return true;
            }
            i = i + 1;
        }
        false
    }

    /// Define a role with its capability flags.  Fails when the role name is
    /// taken.
    pub fn create_role(
        &mut self,
        name: &str,
        can_alter_machines: bool,
        can_alter_users: bool,
        can_create_machines: bool,
        can_delete_machines: bool,
        can_view_users: bool,
    ) -> (r: Result<Role, DbError>)
        requires
            old(self).wf(),
            old(self).next_id < i32::MAX,
        ensures
            final(self).wf(),
            match r {
                Ok(role) => {
                    &&& !old(self).has_role_name(name@)
                    &&& final(self).has_role_name(name@)
                    &&& role@ == final(self).role_with_name(name@)
                    &&& role.name@ == name@
                    &&& role.can_alter_machines == can_alter_machines
                    &&& role.can_alter_users == can_alter_users
                    &&& role.can_create_machines == can_create_machines
                    &&& role.can_delete_machines == can_delete_machines
                    &&& role.can_view_users == can_view_users
                    &&& exists|pos: int|
                        0 <= pos <= old(self).roles@.len() && final(self).roles@ =~= old(
                            self,
                        ).roles@.insert(pos, final(self).roles@[pos])
                    &&& forall|rid: int|
                        final(self).has_role_id(rid) <==> old(self).has_role_id(rid) || rid
                            == role.id
                },
                Err(e) => {
                    &&& e == DbError::UniqueViolation
                    &&& old(self).has_role_name(name@)
                    &&& *final(self) == *old(self)
                },
            },
            final(self).roles_frame(*old(self)),
    {
        let slot = role_insert_slot(&self.roles, name);
        let pos = match slot {
            Option::None => {
                return Err(DbError::UniqueViolation);
            },
            Option::Some(p) => p,
        };
        proof {
            lemma_seq_char_le_total(name@, name@);
            assert(!self.has_role_name(name@));
        }
        let id = self.next_id;
        let row = Role {
            id,
            name: name.to_owned(),
            can_alter_machines,
            can_alter_users,
            can_create_machines,
            can_delete_machines,
            can_view_users,
        };
        let role = row.clone();
        let ghost prev = *self;
        self.roles.insert(pos, row);
        self.next_id = id + 1;
        proof {
            lemma_role_insert_wf(prev, *self, pos as int, name@);
            assert(self.has_role_name(name@)) by {
                assert(self.roles@[pos as int].name@ == name@);
            }
            assert(role@ == self.role_with_name(name@)) by {
                let j = choose|i: int|
                    0 <= i < self.roles@.len() && self.roles@[i].name@ == name@;
                assert(self.roles@[pos as int].name@ == name@);
                if j != pos {
                    assert(self.roles@[j].name@ != self.roles@[pos as int].name@);
                }
            }
            assert forall|rid: int|
                self.has_role_id(rid) <==> prev.has_role_id(rid) || rid == role.id by {
                if prev.has_role_id(rid) {
                    let k = choose|k: int| 0 <= k < prev.roles@.len() && prev.roles@[k].id == rid;
                    if k < pos {
                        assert(self.roles@[k].id == rid);
                    } else {
                        assert(self.roles@[k + 1].id == rid);
                    }
                }
                if self.has_role_id(rid) && rid != role.id {
                    let k = choose|k: int| 0 <= k < self.roles@.len() && self.roles@[k].id == rid;
                    if k < pos {
                        assert(prev.roles@[k].id == rid);
                    } else {
                        assert(prev.roles@[k - 1].id == rid);
                    }
                }
            }
        }
        Ok(role)
    }

    /// Add a processor model under an existing microarchitecture.
    pub fn create_processor(
        &mut self,
        microarch_id: i32,
        name: &str,
        cores: i32,
        threads: i32,
        freq_mhz: i32,
        url: Option<String>,
    ) -> (r: Result<Processor, DbError>)
        requires
            old(self).wf(),
            old(self).next_id < i32::MAX,
        ensures
            final(self).wf(),
            match r {
                Ok(p) => {
                    &&& old(self).has_microarch_id(microarch_id as int)
                    &&& p.name@ == name@
                    &&& p.microarch_id == microarch_id
                    &&& p.cores == cores
                    &&& p.threads == threads
                    &&& p.freq_mhz == freq_mhz
                    &&& exists|pos: int|
                        0 <= pos <= old(self).processors@.len() && final(self).processors@ =~= old(
                            self,
                        ).processors@.insert(pos, final(self).processors@[pos])
                    &&& final(self).has_processor_id(p.id as int)
                    &&& forall|pid: int|
                        final(self).has_processor_id(pid) <==> old(self).has_processor_id(pid)
                            || pid == p.id
                },
                Err(e) => {
                    &&& e == DbError::ForeignKeyViolation
                    &&& !old(self).has_microarch_id(microarch_id as int)
                    &&& *final(self) == *old(self)
                },
            },
            final(self).users == old(self).users,
            final(self).github_accounts == old(self).github_accounts,
            final(self).emails == old(self).emails,
            final(self).roles == old(self).roles,
            final(self).role_assignments == old(self).role_assignments,
            final(self).architectures == old(self).architectures,
            final(self).microarchitectures == old(self).microarchitectures,
            final(self).machines == old(self).machines,
            final(self).disks == old(self).disks,
            final(self).nics == old(self).nics,
            final(self).reservations == old(self).reservations,
    {
        if !self.has_microarch_id_exec(microarch_id) {
            return Err(DbError::ForeignKeyViolation);
        }
        let pos = processor_insert_position(&self.processors, name);
        let id = self.next_id;
        let row = Processor {
            id,
            microarch_id,
            name: name.to_owned(),
            cores,
            threads,
            freq_mhz,
            url,
        };
        let out = row.clone();
        let ghost prev = *self;
        self.processors.insert(pos, row);
        self.next_id = id + 1;
        proof {
            lemma_processor_insert_wf(prev, *self, pos as int, name@, microarch_id as int);
            assert(self.has_processor_id(out.id as int)) by {
                assert(self.processors@[pos as int].id == out.id);
            }
            assert forall|pid: int|
                self.has_processor_id(pid) <==> prev.has_processor_id(pid) || pid == out.id by {
                if prev.has_processor_id(pid) {
                    let k = choose|k: int|
                        0 <= k < prev.processors@.len() && prev.processors@[k].id == pid;
                    if k < pos {
                        assert(self.processors@[k].id == pid);
                    } else {
                        assert(self.processors@[k + 1].id == pid);
                    }
                }
                if self.has_processor_id(pid) && pid != out.id {
                    let k = choose|k: int|
                        0 <= k < self.processors@.len() && self.processors@[k].id == pid;
                    if k < pos {
                        assert(prev.processors@[k].id == pid);
                    } else {
                        assert(prev.processors@[k - 1].id == pid);
                    }
                }
            }
        }
        Ok(out)
    }

    /// Add an architecture to the descriptive hierarchy.
    pub fn create_architecture(&mut self, name: &str) -> (r: Architecture)
        requires
            old(self).wf(),
            old(self).next_id < i32::MAX,
        ensures
            final(self).wf(),
            r.name@ == name@,
            final(self).architectures@ == old(self).architectures@.push(
                final(self).architectures@.last(),
            ),
            final(self).architectures@.last()@ == r@,
            final(self).has_arch_id(r.id as int),
            final(self).users == old(self).users,
            final(self).github_accounts == old(self).github_accounts,
            final(self).emails == old(self).emails,
            final(self).roles == old(self).roles,
            final(self).role_assignments == old(self).role_assignments,
            final(self).microarchitectures == old(self).microarchitectures,
            final(self).processors == old(self).processors,
            final(self).machines == old(self).machines,
            final(self).disks == old(self).disks,
            final(self).nics == old(self).nics,
            final(self).reservations == old(self).reservations,
    {
        let id = self.next_id;
        let row = Architecture { id, name: name.to_owned() };
        let out = row.clone();
        let ghost pre = self.architectures@;
        self.architectures.push(row);
        self.next_id = id + 1;
        proof {
            assert forall|i: int, j: int|
                0 <= i < j < self.architectures@.len() implies self.architectures@[i].id
                != self.architectures@[j].id by {
                assert(self.architectures@[i] == pre[i]);
                if j < pre.len() {
                    assert(self.architectures@[j] == pre[j]);
                } else {
                    assert(self.architectures@[j].id == id);
                }
            }
            assert forall|x: int| old(self).has_arch_id(x) implies self.has_arch_id(x) by {
                let k = choose|k: int| 0 <= k < pre.len() && pre[k].id == x;
                assert(self.architectures@[k].id == x);
            }
            lemma_has_user_id_frame(*old(self), *self);
            lemma_has_role_id_frame(*old(self), *self);
            lemma_has_machine_id_frame(*old(self), *self);
            lemma_has_processor_id_frame(*old(self), *self);
            lemma_has_microarch_id_frame(*old(self), *self);
        }
        out
    }

    /// Add a microarchitecture under an existing architecture.
    #[verifier::rlimit(50)]
    pub fn create_microarchitecture(
        &mut self,
        arch_id: i32,
        name: &str,
        url: Option<String>,
    ) -> (r: Result<Microarchitecture, DbError>)
        requires
            old(self).wf(),
            old(self).next_id < i32::MAX,
        ensures
            final(self).wf(),
            match r {
                Ok(m) => {
                    &&& old(self).has_arch_id(arch_id as int)
                    &&& m.name@ == name@
                    &&& m.arch_id == arch_id
                    &&& final(self).microarchitectures@ == old(self).microarchitectures@.push(
                        final(self).microarchitectures@.last(),
                    )
                    &&& final(self).microarchitectures@.last()@ == m@
                    &&& final(self).has_microarch_id(m.id as int)
                },
                Err(e) => {
                    &&& e == DbError::ForeignKeyViolation
                    &&& !old(self).has_arch_id(arch_id as int)
                    &&& *final(self) == *old(self)
                },
            },
            final(self).users == old(self).users,
            final(self).github_accounts == old(self).github_accounts,
            final(self).emails == old(self).emails,
            final(self).roles == old(self).roles,
            final(self).role_assignments == old(self).role_assignments,
            final(self).architectures == old(self).architectures,
            final(self).processors == old(self).processors,
            final(self).machines == old(self).machines,
            final(self).disks == old(self).disks,
            final(self).nics == old(self).nics,
            final(self).reservations == old(self).reservations,
    {
        if !self.has_arch_id_exec(arch_id) {
            return Err(DbError::ForeignKeyViolation);
        }
        let id = self.next_id;
        let row = Microarchitecture { id, arch_id, name: name.to_owned(), url };
        let out = row.clone();
        let ghost pre = self.microarchitectures@;
        self.microarchitectures.push(row);
        self.next_id = id + 1;
        proof {
            assert forall|i: int, j: int|
                0 <= i < j < self.microarchitectures@.len() implies self.microarchitectures@[i].id
                != self.microarchitectures@[j].id by {
                assert(self.microarchitectures@[i] == pre[i]);
                if j < pre.len() {
                    assert(self.microarchitectures@[j] == pre[j]);
                } else {
                    assert(self.microarchitectures@[j].id == id);
                }
            }
            assert forall|x: int| old(self).has_microarch_id(x) implies self.has_microarch_id(
                x,
            ) by {
                let k = choose|k: int| 0 <= k < pre.len() && pre[k].id == x;
                assert(self.microarchitectures@[k].id == x);
            }
            lemma_has_user_id_frame(*old(self), *self);
            lemma_has_role_id_frame(*old(self), *self);
            lemma_has_machine_id_frame(*old(self), *self);
            lemma_has_processor_id_frame(*old(self), *self);
            lemma_has_arch_id_frame(*old(self), *self);
            assert(self.microarchitectures@[pre.len() as int].arch_id == arch_id);
        }
        Ok(out)
    }

    /// Bind a GitHub username to an existing user.
    pub fn create_github_account(&mut self, user_id: i32, github_username: &str) -> (r: Result<
        GithubAccount,
        DbError,
    >)
        requires
            old(self).wf(),
            old(self).next_id < i32::MAX,
        ensures
            final(self).wf(),
            match r {
                Ok(g) => {
                    &&& old(self).has_user_id(user_id as int)
                    &&& !old(self).has_github_username(github_username@)
                    &&& g.user_id == user_id
                    &&& g.github_username@ == github_username@
                    &&& final(self).github_accounts@ == old(self).github_accounts@.push(
                        final(self).github_accounts@.last(),
                    )
                    &&& final(self).github_accounts@.last()@ == g@
                    &&& final(self).has_github_username(github_username@)
                    &&& final(self).github_user_id(github_username@) == user_id as int
                },
                Err(e) => {
                    &&& *final(self) == *old(self)
                    &&& e == DbError::ForeignKeyViolation ==> !old(self).has_user_id(
                        user_id as int,
                    )
                    &&& e == DbError::UniqueViolation ==> old(self).has_github_username(
                        github_username@,
                    )
                    &&& (e == DbError::ForeignKeyViolation || e == DbError::UniqueViolation)
                },
            },
            final(self).users == old(self).users,
            final(self).emails == old(self).emails,
            final(self).roles == old(self).roles,
            final(self).role_assignments == old(self).role_assignments,
            final(self).architectures == old(self).architectures,
            final(self).microarchitectures == old(self).microarchitectures,
            final(self).processors == old(self).processors,
            final(self).machines == old(self).machines,
            final(self).disks == old(self).disks,
            final(self).nics == old(self).nics,
            final(self).reservations == old(self).reservations,
    {
        if !self.has_user_id_exec(user_id) {
            return Err(DbError::ForeignKeyViolation);
        }
        let n = self.github_accounts.len();
        let mut i: usize = 0;
        while i < n
            invariant
                i <= n,
                n == self.github_accounts@.len(),
                *self == *old(self),
                self.wf(),
                forall|k: int|
                    0 <= k < i ==> self.github_accounts@[k].github_username@ != github_username@,
            decreases n - i,
        {
            if string_eq_str(&self.github_accounts[i].github_username, github_username) {
                return Err(DbError::UniqueViolation);
            }
            i = i + 1;
        }
        let id = self.next_id;
        let row = GithubAccount { id, user_id, github_username: github_username.to_owned() };
        let out = row.clone();
        let ghost pre = self.github_accounts@;
        self.github_accounts.push(row);
        self.next_id = id + 1;
        proof {
            assert forall|a: int, b: int|
                0 <= a < b < self.github_accounts@.len() implies self.github_accounts@[a].id
                != self.github_accounts@[b].id && self.github_accounts@[a].github_username@
                != self.github_accounts@[b].github_username@ by {
                assert(self.github_accounts@[a] == pre[a]);
                if b < pre.len() {
                    assert(self.github_accounts@[b] == pre[b]);
                } else {
                    assert(self.github_accounts@[b].id == id);
                    assert(self.github_accounts@[b].github_username@ == github_username@);
                }
            }
            let ghost gi = self.github_accounts@.len() - 1;
            assert(self.github_accounts@[gi].github_username@ == github_username@);
            let ghost j = choose|j: int|
                0 <= j < self.github_accounts@.len()
                    && self.github_accounts@[j].github_username@ == github_username@;
            assert(j == gi);
            lemma_has_user_id_frame(*old(self), *self);
            lemma_has_role_id_frame(*old(self), *self);
            lemma_has_machine_id_frame(*old(self), *self);
            lemma_has_processor_id_frame(*old(self), *self);
            lemma_has_microarch_id_frame(*old(self), *self);
            lemma_has_arch_id_frame(*old(self), *self);
            assert(self.github_accounts@[gi].user_id == user_id);
        }
        Ok(out)
    }

    /// Attach a disk to an existing machine.
    pub fn create_disk(
        &mut self,
        machine_id: i32,
        vendor: Option<String>,
        model: Option<String>,
        capacity_gb: i32,
        ssd: bool,
    ) -> (r: Result<Disk, DbError>)
        requires
            old(self).wf(),
            old(self).next_id < i32::MAX,
        ensures
            final(self).wf(),
            match r {
                Ok(d) => {
                    &&& old(self).has_machine_id(machine_id as int)
                    &&& d.machine_id == machine_id
                    &&& final(self).disks@ == old(self).disks@.push(final(self).disks@.last())
                    &&& final(self).disks@.last()@ == d@
                },
                Err(e) => {
                    &&& e == DbError::ForeignKeyViolation
                    &&& !old(self).has_machine_id(machine_id as int)
                    &&& *final(self) == *old(self)
                },
            },
            final(self).users == old(self).users,
            final(self).github_accounts == old(self).github_accounts,
            final(self).emails == old(self).emails,
            final(self).roles == old(self).roles,
            final(self).role_assignments == old(self).role_assignments,
            final(self).architectures == old(self).architectures,
            final(self).microarchitectures == old(self).microarchitectures,
            final(self).processors == old(self).processors,
            final(self).machines == old(self).machines,
            final(self).nics == old(self).nics,
            final(self).reservations == old(self).reservations,
    {
        if !self.has_machine_id_exec(machine_id) {
            return Err(DbError::ForeignKeyViolation);
        }
        let id = self.next_id;
        let row = Disk { id, machine_id, vendor, model, capacity_gb, ssd };
        let out = row.clone();
        let ghost pre = self.disks@;
        self.disks.push(row);
        self.next_id = id + 1;
        proof {
            assert forall|a: int, b: int|
                0 <= a < b < self.disks@.len() implies self.disks@[a].id != self.disks@[b].id by {
                assert(self.disks@[a] == pre[a]);
                if b < pre.len() {
                    assert(self.disks@[b] == pre[b]);
                } else {
                    assert(self.disks@[b].id == id);
                }
            }
            lemma_has_user_id_frame(*old(self), *self);
            lemma_has_role_id_frame(*old(self), *self);
            lemma_has_machine_id_frame(*old(self), *self);
            lemma_has_processor_id_frame(*old(self), *self);
            lemma_has_microarch_id_frame(*old(self), *self);
            lemma_has_arch_id_frame(*old(self), *self);
            assert(self.disks@[pre.len() as int].machine_id == machine_id);
        }
        Ok(out)
    }

    /// Attach a network interface to an existing machine.
    pub fn create_nic(
        &mut self,
        machine_id: i32,
        vendor: Option<String>,
        model: Option<String>,
        mac_address: &str,
        speed_gbps: i32,
    ) -> (r: Result<Nic, DbError>)
        requires
            old(self).wf(),
            old(self).next_id < i32::MAX,
        ensures
            final(self).wf(),
            match r {
                Ok(d) => {
                    &&& old(self).has_machine_id(machine_id as int)
                    &&& d.machine_id == machine_id
                    &&& d.mac_address@ == mac_address@
                    &&& final(self).nics@ == old(self).nics@.push(final(self).nics@.last())
                    &&& final(self).nics@.last()@ == d@
                },
                Err(e) => {
                    &&& e == DbError::ForeignKeyViolation
                    &&& !old(self).has_machine_id(machine_id as int)
                    &&& *final(self) == *old(self)
                },
            },
            final(self).users == old(self).users,
            final(self).github_accounts == old(self).github_accounts,
            final(self).emails == old(self).emails,
            final(self).roles == old(self).roles,
            final(self).role_assignments == old(self).role_assignments,
            final(self).architectures == old(self).architectures,
            final(self).microarchitectures == old(self).microarchitectures,
            final(self).processors == old(self).processors,
            final(self).machines == old(self).machines,
            final(self).disks == old(self).disks,
            final(self).reservations == old(self).reservations,
    {
        if !self.has_machine_id_exec(machine_id) {
            return Err(DbError::ForeignKeyViolation);
        }
        let id = self.next_id;
        let row = Nic {
            id,
            machine_id,
            vendor,
            model,
            mac_address: mac_address.to_owned(),
            speed_gbps,
        };
        let out = row.clone();
        let ghost pre = self.nics@;
        self.nics.push(row);
        self.next_id = id + 1;
        proof {
            assert forall|a: int, b: int|
                0 <= a < b < self.nics@.len() implies self.nics@[a].id != self.nics@[b].id by {
                assert(self.nics@[a] == pre[a]);
                if b < pre.len() {
                    assert(self.nics@[b] == pre[b]);
                } else {
                    assert(self.nics@[b].id == id);
                }
            }
            lemma_has_user_id_frame(*old(self), *self);
            lemma_has_role_id_frame(*old(self), *self);
            lemma_has_machine_id_frame(*old(self), *self);
            lemma_has_processor_id_frame(*old(self), *self);
            lemma_has_microarch_id_frame(*old(self), *self);
            lemma_has_arch_id_frame(*old(self), *self);
            assert(self.nics@[pre.len() as int].machine_id == machine_id);
        }
        Ok(out)
    }
}

/// The id-existence predicates depend only on their own table.
pub proof fn lemma_has_user_id_frame(prev: Store, cur: Store)
    requires
        cur.users == prev.users,
    ensures
        forall|x: int| #[trigger] cur.has_user_id(x) == prev.has_user_id(x),
{
    assert forall|x: int| #[trigger] cur.has_user_id(x) == prev.has_user_id(x) by {
        if prev.has_user_id(x) {
            let k = choose|k: int| 0 <= k < prev.users@.len() && prev.users@[k].id == x;
            assert(cur.users@[k].id == x);
        }
        if cur.has_user_id(x) {
            let k = choose|k: int| 0 <= k < cur.users@.len() && cur.users@[k].id == x;
            assert(prev.users@[k].id == x);
        }
    }
}

pub proof fn lemma_has_role_id_frame(prev: Store, cur: Store)
    requires
        cur.roles == prev.roles,
    ensures
        forall|x: int| #[trigger] cur.has_role_id(x) == prev.has_role_id(x),
{
    assert forall|x: int| #[trigger] cur.has_role_id(x) == prev.has_role_id(x) by {
        if prev.has_role_id(x) {
            let k = choose|k: int| 0 <= k < prev.roles@.len() && prev.roles@[k].id == x;
            assert(cur.roles@[k].id == x);
        }
        if cur.has_role_id(x) {
            let k = choose|k: int| 0 <= k < cur.roles@.len() && cur.roles@[k].id == x;
            assert(prev.roles@[k].id == x);
        }
    }
}

pub proof fn lemma_has_machine_id_frame(prev: Store, cur: Store)
    requires
        cur.machines == prev.machines,
    ensures
        forall|x: int| #[trigger] cur.has_machine_id(x) == prev.has_machine_id(x),
{
    assert forall|x: int| #[trigger] cur.has_machine_id(x) == prev.has_machine_id(x) by {
        if prev.has_machine_id(x) {
            let k = choose|k: int| 0 <= k < prev.machines@.len() && prev.machines@[k].id == x;
            assert(cur.machines@[k].id == x);
        }
        if cur.has_machine_id(x) {
            let k = choose|k: int| 0 <= k < cur.machines@.len() && cur.machines@[k].id == x;
            assert(prev.machines@[k].id == x);
        }
    }
}

pub proof fn lemma_has_processor_id_frame(prev: Store, cur: Store)
    requires
        cur.processors == prev.processors,
    ensures
        forall|x: int| #[trigger] cur.has_processor_id(x) == prev.has_processor_id(x),
{
    assert forall|x: int| #[trigger] cur.has_processor_id(x) == prev.has_processor_id(x) by {
        if prev.has_processor_id(x) {
            let k = choose|k: int| 0 <= k < prev.processors@.len() && prev.processors@[k].id == x;
            assert(cur.processors@[k].id == x);
        }
        if cur.has_processor_id(x) {
            let k = choose|k: int| 0 <= k < cur.processors@.len() && cur.processors@[k].id == x;
            assert(prev.processors@[k].id == x);
        }
    }
}

pub proof fn lemma_has_microarch_id_frame(prev: Store, cur: Store)
    requires
        cur.microarchitectures == prev.microarchitectures,
    ensures
        forall|x: int| #[trigger] cur.has_microarch_id(x) == prev.has_microarch_id(x),
{
    assert forall|x: int| #[trigger] cur.has_microarch_id(x) == prev.has_microarch_id(x) by {
        if prev.has_microarch_id(x) {
            let k = choose|k: int|
                0 <= k < prev.microarchitectures@.len() && prev.microarchitectures@[k].id == x;
            assert(cur.microarchitectures@[k].id == x);
        }
        if cur.has_microarch_id(x) {
            let k = choose|k: int|
                0 <= k < cur.microarchitectures@.len() && cur.microarchitectures@[k].id == x;
            assert(prev.microarchitectures@[k].id == x);
        }
    }
}

pub proof fn lemma_has_arch_id_frame(prev: Store, cur: Store)
    requires
        cur.architectures == prev.architectures,
    ensures
        forall|x: int| #[trigger] cur.has_arch_id(x) == prev.has_arch_id(x),
{
    assert forall|x: int| #[trigger] cur.has_arch_id(x) == prev.has_arch_id(x) by {
        if prev.has_arch_id(x) {
            let k = choose|k: int|
                0 <= k < prev.architectures@.len() && prev.architectures@[k].id == x;
            assert(cur.architectures@[k].id == x);
        }
        if cur.has_arch_id(x) {
            let k = choose|k: int|
                0 <= k < cur.architectures@.len() && cur.architectures@[k].id == x;
            assert(prev.architectures@[k].id == x);
        }
    }
}

/// Where a fresh username belongs in the name-sorted user table: `None` when
/// the username is taken, else the first position whose row sorts after it.
fn username_insert_slot(users: &Vec<User>, username: &str) -> (r: Option<usize>)
    requires
        forall|i: int, j: int|
            0 <= i < j < users@.len() ==> seq_char_le(users@[i].username@, users@[j].username@),
    ensures
        match r {
            Option::None => exists|i: int|
                0 <= i < users@.len() && users@[i].username@ == username@,
            Option::Some(pos) => {
                &&& pos <= users@.len()
                &&& forall|k: int|
                    0 <= k < pos ==> seq_char_le(#[trigger] users@[k].username@, username@)
                        && users@[k].username@ != username@
                &&& forall|k: int|
                    pos <= k < users@.len() ==> !seq_char_le(
                        #[trigger] users@[k].username@,
                        username@,
                    )
            },
        },
{
    let n = users.len();
    let mut pos: usize = 0;
    while pos < n
        invariant
            pos <= n,
            n == users@.len(),
            forall|i: int, j: int|
                0 <= i < j < users@.len() ==> seq_char_le(users@[i].username@, users@[j].username@),
            forall|k: int|
                0 <= k < pos ==> seq_char_le(#[trigger] users@[k].username@, username@)
                    && users@[k].username@ != username@,
        decreases n - pos,
    {
        let row_name = &users[pos].username;
        if string_eq_str(row_name, username) {
            return Option::None;
        }
        if !str_le(row_name.as_str(), username) {
            proof {
                lemma_seq_char_le_total(users@[pos as int].username@, username@);
                assert forall|k: int|
                    pos <= k < users@.len() implies !seq_char_le(
                    #[trigger] users@[k].username@,
                    username@,
                ) by {
                    if k > pos {
                        if seq_char_le(users@[k].username@, username@) {
                            lemma_seq_char_le_trans(
                                users@[pos as int].username@,
                                users@[k].username@,
                                username@,
                            );
                        }
                    }
                }
            }
            return Option::Some(pos);
        }
        pos = pos + 1;
    }
    Option::Some(pos)
}

/// Where a fresh role name belongs in the name-sorted role table.
fn role_insert_slot(roles: &Vec<Role>, name: &str) -> (r: Option<usize>)
    requires
        forall|i: int, j: int|
            0 <= i < j < roles@.len() ==> seq_char_le(roles@[i].name@, roles@[j].name@),
    ensures
        match r {
            Option::None => exists|i: int| 0 <= i < roles@.len() && roles@[i].name@ == name@,
            Option::Some(pos) => {
                &&& pos <= roles@.len()
                &&& forall|k: int|
                    0 <= k < pos ==> seq_char_le(#[trigger] roles@[k].name@, name@)
                        && roles@[k].name@ != name@
                &&& forall|k: int|
                    pos <= k < roles@.len() ==> !seq_char_le(#[trigger] roles@[k].name@, name@)
            },
        },
{
    let n = roles.len();
    let mut pos: usize = 0;
    while pos < n
        invariant
            pos <= n,
            n == roles@.len(),
            forall|i: int, j: int|
                0 <= i < j < roles@.len() ==> seq_char_le(roles@[i].name@, roles@[j].name@),
            forall|k: int|
                0 <= k < pos ==> seq_char_le(#[trigger] roles@[k].name@, name@) && roles@[k].name@
                    != name@,
        decreases n - pos,
    {
        let row_name = &roles[pos].name;
        if string_eq_str(row_name, name) {
            return Option::None;
        }
        if !str_le(row_name.as_str(), name) {
            proof {
                lemma_seq_char_le_total(roles@[pos as int].name@, name@);
                assert forall|k: int|
                    pos <= k < roles@.len() implies !seq_char_le(
                    #[trigger] roles@[k].name@,
                    name@,
                ) by {
                    if k > pos {
                        if seq_char_le(roles@[k].name@, name@) {
                            lemma_seq_char_le_trans(
                                roles@[pos as int].name@,
                                roles@[k].name@,
                                name@,
                            );
                        }
                    }
                }
            }
            return Option::Some(pos);
        }
        pos = pos + 1;
    }
    Option::Some(pos)
}

/// Where a fresh machine name belongs in the name-sorted machine table.
pub(crate) fn machine_insert_slot(machines: &Vec<Machine>, name: &str) -> (r: Option<usize>)
    requires
        forall|i: int, j: int|
            0 <= i < j < machines@.len() ==> seq_char_le(machines@[i].name@, machines@[j].name@),
    ensures
        match r {
            Option::None => exists|i: int| 0 <= i < machines@.len() && machines@[i].name@ == name@,
            Option::Some(pos) => {
                &&& pos <= machines@.len()
                &&& forall|k: int|
                    0 <= k < pos ==> seq_char_le(#[trigger] machines@[k].name@, name@)
                        && machines@[k].name@ != name@
                &&& forall|k: int|
                    pos <= k < machines@.len() ==> !seq_char_le(
                        #[trigger] machines@[k].name@,
                        name@,
                    )
            },
        },
{
    let n = machines.len();
    let mut pos: usize = 0;
    while pos < n
        invariant
            pos <= n,
            n == machines@.len(),
            forall|i: int, j: int|
                0 <= i < j < machines@.len() ==> seq_char_le(
                    machines@[i].name@,
                    machines@[j].name@,
                ),
            forall|k: int|
                0 <= k < pos ==> seq_char_le(#[trigger] machines@[k].name@, name@)
                    && machines@[k].name@ != name@,
        decreases n - pos,
    {
        let row_name = &machines[pos].name;
        if string_eq_str(row_name, name) {
            return Option::None;
        }
        if !str_le(row_name.as_str(), name) {
            proof {
                lemma_seq_char_le_total(machines@[pos as int].name@, name@);
                assert forall|k: int|
                    pos <= k < machines@.len() implies !seq_char_le(
                    #[trigger] machines@[k].name@,
                    name@,
                ) by {
                    if k > pos {
                        if seq_char_le(machines@[k].name@, name@) {
                            lemma_seq_char_le_trans(
                                machines@[pos as int].name@,
                                machines@[k].name@,
                                name@,
                            );
                        }
                    }
                }
            }
            return Option::Some(pos);
        }
        pos = pos + 1;
    }
    Option::Some(pos)
}

/// The position where a processor name belongs in the name-sorted processor
/// table (processor names need not be unique).
fn processor_insert_position(processors: &Vec<Processor>, name: &str) -> (pos: usize)
    requires
        forall|i: int, j: int|
            0 <= i < j < processors@.len() ==> seq_char_le(
                processors@[i].name@,
                processors@[j].name@,
            ),
    ensures
        pos <= processors@.len(),
        forall|k: int| 0 <= k < pos ==> seq_char_le(#[trigger] processors@[k].name@, name@),
        forall|k: int|
            pos <= k < processors@.len() ==> !seq_char_le(#[trigger] processors@[k].name@, name@),
{
    let n = processors.len();
    let mut pos: usize = 0;
    while pos < n
        invariant
            pos <= n,
            n == processors@.len(),
            forall|i: int, j: int|
                0 <= i < j < processors@.len() ==> seq_char_le(
                    processors@[i].name@,
                    processors@[j].name@,
                ),
            forall|k: int| 0 <= k < pos ==> seq_char_le(#[trigger] processors@[k].name@, name@),
        decreases n - pos,
    {
        if !str_le(processors[pos].name.as_str(), name) {
            proof {
                lemma_seq_char_le_total(processors@[pos as int].name@, name@);
                assert forall|k: int|
                    pos <= k < processors@.len() implies !seq_char_le(
                    #[trigger] processors@[k].name@,
                    name@,
                ) by {
                    if k > pos {
                        if seq_char_le(processors@[k].name@, name@) {
                            lemma_seq_char_le_trans(
                                processors@[pos as int].name@,
                                processors@[k].name@,
                                name@,
                            );
                        }
                    }
                }
            }
            return pos;
        }
        pos = pos + 1;
    }
    pos
}

/// Inserting a fresh, correctly placed role keeps the store well-formed.
proof fn lemma_role_insert_wf(prev: Store, cur: Store, pos: int, name: Seq<char>)
    requires
        prev.wf(),
        prev.next_id < i32::MAX,
        0 <= pos <= prev.roles@.len(),
        cur.roles@ == prev.roles@.insert(pos, cur.roles@[pos]),
        cur.roles@[pos].id == prev.next_id,
        cur.roles@[pos].name@ == name,
        !prev.has_role_name(name),
        forall|k: int| 0 <= k < pos ==> seq_char_le(prev.roles@[k].name@, name),
        forall|k: int| pos <= k < prev.roles@.len() ==> !seq_char_le(prev.roles@[k].name@, name),
        cur.next_id == prev.next_id + 1,
        cur.roles_frame(prev),
    ensures
        cur.wf(),
{
    let u = cur.roles@;
    let p = prev.roles@;
    assert forall|i: int, j: int| 0 <= i < j < u.len() implies u[i].id != u[j].id && u[i].name@
        != u[j].name@ && seq_char_le(u[i].name@, u[j].name@) by {
        if i < pos && j < pos {
            assert(u[i] == p[i] && u[j] == p[j]);
        } else if i < pos && j == pos {
            assert(u[i] == p[i]);
        } else if i < pos && j > pos {
            assert(u[i] == p[i] && u[j] == p[j - 1]);
        } else if i == pos {
            assert(u[j] == p[j - 1]);
            lemma_seq_char_le_total(name, p[j - 1].name@);
        } else {
            assert(u[i] == p[i - 1] && u[j] == p[j - 1]);
        }
    }
    assert forall|rid: int| prev.has_role_id(rid) implies cur.has_role_id(rid) by {
        let k = choose|k: int| 0 <= k < p.len() && p[k].id == rid;
        if k < pos {
            assert(u[k].id == rid);
        } else {
            assert(u[k + 1].id == rid);
        }
    }
    assert(cur.foreign_keys_ok());
    assert forall|i: int| 0 <= i < u.len() implies #[trigger] u[i].id < cur.next_id by {
        if i < pos {
            assert(u[i] == p[i]);
        } else if i > pos {
            assert(u[i] == p[i - 1]);
        }
    }
}

/// Inserting a fresh, correctly placed machine keeps the store well-formed.
pub(crate) proof fn lemma_machine_insert_wf(prev: Store, cur: Store, pos: int, name: Seq<char>)
    requires
        prev.wf(),
        prev.next_id < i32::MAX,
        0 <= pos <= prev.machines@.len(),
        cur.machines@ == prev.machines@.insert(pos, cur.machines@[pos]),
        cur.machines@[pos].id == prev.next_id,
        cur.machines@[pos].name@ == name,
        prev.has_processor_id(cur.machines@[pos].processor_id as int),
        !prev.has_machine_name(name),
        forall|k: int| 0 <= k < pos ==> seq_char_le(prev.machines@[k].name@, name),
        forall|k: int|
            pos <= k < prev.machines@.len() ==> !seq_char_le(prev.machines@[k].name@, name),
        cur.next_id == prev.next_id + 1,
        cur.machines_frame(prev),
    ensures
        cur.wf(),
        forall|mid: int|
            cur.has_machine_id(mid) <==> prev.has_machine_id(mid) || mid == prev.next_id,
{
    let u = cur.machines@;
    let p = prev.machines@;
    assert forall|i: int, j: int| 0 <= i < j < u.len() implies u[i].id != u[j].id && u[i].name@
        != u[j].name@ && seq_char_le(u[i].name@, u[j].name@) by {
        if i < pos && j < pos {
            assert(u[i] == p[i] && u[j] == p[j]);
        } else if i < pos && j == pos {
            assert(u[i] == p[i]);
        } else if i < pos && j > pos {
            assert(u[i] == p[i] && u[j] == p[j - 1]);
        } else if i == pos {
            assert(u[j] == p[j - 1]);
            lemma_seq_char_le_total(name, p[j - 1].name@);
        } else {
            assert(u[i] == p[i - 1] && u[j] == p[j - 1]);
        }
    }
    assert forall|mid: int|
        cur.has_machine_id(mid) <==> prev.has_machine_id(mid) || mid == prev.next_id by {
        if prev.has_machine_id(mid) {
            let k = choose|k: int| 0 <= k < p.len() && p[k].id == mid;
            if k < pos {
                assert(u[k].id == mid);
            } else {
                assert(u[k + 1].id == mid);
            }
        }
        if cur.has_machine_id(mid) && mid != prev.next_id {
            let k = choose|k: int| 0 <= k < u.len() && u[k].id == mid;
            if k < pos {
                assert(p[k].id == mid);
            } else if k == pos {
            } else {
                assert(p[k - 1].id == mid);
            }
        }
        assert(u[pos].id == prev.next_id);
    }
    assert forall|i: int|
        0 <= i < u.len() implies prev.has_processor_id(#[trigger] u[i].processor_id as int) by {
        if i < pos {
            assert(u[i] == p[i]);
        } else if i > pos {
            assert(u[i] == p[i - 1]);
        }
    }
    assert(cur.foreign_keys_ok());
    assert forall|i: int| 0 <= i < u.len() implies #[trigger] u[i].id < cur.next_id by {
        if i < pos {
            assert(u[i] == p[i]);
        } else if i > pos {
            assert(u[i] == p[i - 1]);
        }
    }
}

/// Inserting a fresh, correctly placed processor keeps the store well-formed.
proof fn lemma_processor_insert_wf(
    prev: Store,
    cur: Store,
    pos: int,
    name: Seq<char>,
    microarch_id: int,
)
    requires
        prev.wf(),
        prev.next_id < i32::MAX,
        0 <= pos <= prev.processors@.len(),
        cur.processors@ == prev.processors@.insert(pos, cur.processors@[pos]),
        cur.processors@[pos].id == prev.next_id,
        cur.processors@[pos].name@ == name,
        cur.processors@[pos].microarch_id == microarch_id,
        prev.has_microarch_id(microarch_id),
        forall|k: int| 0 <= k < pos ==> seq_char_le(prev.processors@[k].name@, name),
        forall|k: int|
            pos <= k < prev.processors@.len() ==> !seq_char_le(prev.processors@[k].name@, name),
        cur.next_id == prev.next_id + 1,
        cur.users == prev.users,
        cur.github_accounts == prev.github_accounts,
        cur.emails == prev.emails,
        cur.roles == prev.roles,
        cur.role_assignments == prev.role_assignments,
        cur.architectures == prev.architectures,
        cur.microarchitectures == prev.microarchitectures,
        cur.machines == prev.machines,
        cur.disks == prev.disks,
        cur.nics == prev.nics,
        cur.reservations == prev.reservations,
    ensures
        cur.wf(),
{
    let u = cur.processors@;
    let p = prev.processors@;
    assert forall|i: int, j: int| 0 <= i < j < u.len() implies u[i].id != u[j].id && seq_char_le(
        u[i].name@,
        u[j].name@,
    ) by {
        if i < pos && j < pos {
            assert(u[i] == p[i] && u[j] == p[j]);
        } else if i < pos && j == pos {
            assert(u[i] == p[i]);
        } else if i < pos && j > pos {
            assert(u[i] == p[i] && u[j] == p[j - 1]);
        } else if i == pos {
            assert(u[j] == p[j - 1]);
            lemma_seq_char_le_total(name, p[j - 1].name@);
        } else {
            assert(u[i] == p[i - 1] && u[j] == p[j - 1]);
        }
    }
    assert forall|x: int| prev.has_processor_id(x) implies cur.has_processor_id(x) by {
        let k = choose|k: int| 0 <= k < p.len() && p[k].id == x;
        if k < pos {
            assert(u[k].id == x);
        } else {
            assert(u[k + 1].id == x);
        }
    }
    assert forall|i: int|
        0 <= i < u.len() implies prev.has_microarch_id(#[trigger] u[i].microarch_id as int) by {
        if i < pos {
            assert(u[i] == p[i]);
        } else if i > pos {
            assert(u[i] == p[i - 1]);
        }
    }
    assert(cur.foreign_keys_ok());
    assert forall|i: int| 0 <= i < u.len() implies #[trigger] u[i].id < cur.next_id by {
        if i < pos {
            assert(u[i] == p[i]);
        } else if i > pos {
            assert(u[i] == p[i - 1]);
        }
    }
}

/// Inserting a fresh, correctly placed user keeps the store well-formed.
proof fn lemma_user_insert_wf(prev: Store, cur: Store, pos: int, uname: Seq<char>)
    requires
        prev.wf(),
        prev.next_id < i32::MAX,
        0 <= pos <= prev.users@.len(),
        cur.users@ == prev.users@.insert(pos, cur.users@[pos]),
        cur.users@[pos].id == prev.next_id,
        cur.users@[pos].username@ == uname,
        !prev.has_username(uname),
        forall|k: int| 0 <= k < pos ==> seq_char_le(prev.users@[k].username@, uname),
        forall|k: int| pos <= k < prev.users@.len() ==> !seq_char_le(prev.users@[k].username@, uname),
        cur.next_id == prev.next_id + 1,
        cur.github_accounts == prev.github_accounts,
        cur.emails == prev.emails,
        cur.roles == prev.roles,
        cur.role_assignments == prev.role_assignments,
        cur.architectures == prev.architectures,
        cur.microarchitectures == prev.microarchitectures,
        cur.processors == prev.processors,
        cur.machines == prev.machines,
        cur.disks == prev.disks,
        cur.nics == prev.nics,
        cur.reservations == prev.reservations,
    ensures
        cur.wf(),
{
    let u = cur.users@;
    let p = prev.users@;
    assert forall|i: int, j: int| 0 <= i < j < u.len() implies u[i].id != u[j].id && u[i].username@
        != u[j].username@ && seq_char_le(u[i].username@, u[j].username@) by {
        if i < pos && j < pos {
            assert(u[i] == p[i] && u[j] == p[j]);
        } else if i < pos && j == pos {
            assert(u[i] == p[i]);
        } else if i < pos && j > pos {
            assert(u[i] == p[i] && u[j] == p[j - 1]);
        } else if i == pos {
            assert(u[j] == p[j - 1]);
            lemma_seq_char_le_total(uname, p[j - 1].username@);
        } else {
            assert(u[i] == p[i - 1] && u[j] == p[j - 1]);
        }
    }
    assert forall|uid: int| prev.has_user_id(uid) implies cur.has_user_id(uid) by {
        let k = choose|k: int| 0 <= k < p.len() && p[k].id == uid;
        if k < pos {
            assert(u[k].id == uid);
        } else {
            assert(u[k + 1].id == uid);
        }
    }
    assert(cur.foreign_keys_ok());
    assert forall|i: int| 0 <= i < u.len() implies #[trigger] u[i].id < cur.next_id by {
        if i < pos {
            assert(u[i] == p[i]);
        } else if i > pos {
            assert(u[i] == p[i - 1]);
        }
    }
}

} // verus!
