//! The decision logic behind the request handlers: validation,
//! authorization gates and the operations they guard.  Rendering, routing
//! and cookie plumbing stay outside the library.

pub mod auth;
pub mod bootstrap;
pub mod error;
pub mod forms;
pub mod github;
pub mod link;
pub mod tables;

use vstd::prelude::*;

use crate::db::models::{
    string_view_set, Capability, Machine, Reservation, ReservationBuilder, User,
};
use crate::db::store::Store;
use crate::error::DbError;
use crate::html::error::Error;
use crate::time::parsed_instant;
use crate::util::{split_once_exact, splits_in_two_at, vec_contains_str};

verus! {

/// What each escaped character becomes: the character set of
/// `marksman_escape`, chosen for XSS protection.
pub open spec fn html_entity(ch: char) -> Seq<char> {
    if ch == '&' {
        "&amp;"@
    } else if ch == '>' {
        "&gt;"@
    } else if ch == '<' {
        "&lt;"@
    } else if ch == '"' {
        "&#34;"@
    } else if ch == '\'' {
        "&#39;"@
    } else if ch == '`' {
        "&#96;"@
    } else if ch == '!' {
        "&#33;"@
    } else if ch == '$' {
        "&#36;"@
    } else if ch == '%' {
        "&#37;"@
    } else if ch == '(' {
        "&#40;"@
    } else if ch == ')' {
        "&#41;"@
    } else if ch == '+' {
        "&#43;"@
    } else if ch == '=' {
        "&#61;"@
    } else if ch == '@' {
        "&#64;"@
    } else if ch == '[' {
        "&#91;"@
    } else if ch == ']' {
        "&#93;"@
    } else if ch == '{' {
        "&#123;"@
    } else if ch == '}' {
        "&#125;"@
    } else {
        seq![ch]
    }
}

/// A string with every dangerous character replaced by its HTML entity.
pub open spec fn html_escaped(s: Seq<char>) -> Seq<char>
    decreases s.len(),
{
    if s.len() == 0 {
        Seq::empty()
    } else {
        html_entity(s[0]) + html_escaped(s.skip(1))
    }
}

/// Escape a string to make it suitable for HTML output.
///
/// Relies on `marksman_escape::Escape`: replaces each byte of the escaped
/// set with its HTML entity and passes every other byte through, so the
/// output is the character-wise escaping of the input.
#[verifier::external_body]
pub fn escape(dangerous: &str) -> (r: String)
    ensures
        r@ == html_escaped(dangerous@),
{
    String::from_utf8(marksman_escape::Escape::new(dangerous.bytes()).collect())
        .unwrap_or(String::from("&lt;error&gt;"))
}

/// The date format a reservation's date-range field is entered in.
pub open spec fn date_format() -> Seq<char> {
    "%H:%M%:z %e %b %Y"@
}

fn date_format_str() -> (r: &'static str)
    ensures
        r@ == date_format(),
{
    "%H:%M%:z %e %b %Y"
}

/// Whether a date-range string is well-formed: exactly two components
/// around one `" - "` separator, each parsing as a date.
pub open spec fn date_range_ok(dates: Seq<char>) -> bool {
    match split_once_exact(dates, " - "@) {
        Option::Some(parts) => parsed_instant(parts.0, date_format()) is Some && parsed_instant(
            parts.1,
            date_format(),
        ) is Some,
        Option::None => false,
    }
}

/// Create a reservation from the form inputs: the reserving user's
/// username, the machine's name, a date-range string, and optional
/// provisioning paths (empty means unset).  A malformed date range is a bad
/// request, and nothing is persisted on any failure.
pub fn reservation_create(
    user: &str,
    machine: &str,
    dates: &str,
    pxe: &str,
    nfs: &str,
    c: &mut Store,
) -> (r: Result<Reservation, Error>)
    requires
        old(c).wf(),
        old(c).next_id < i32::MAX,
    ensures
        final(c).wf(),
        final(c).reservations_frame(*old(c)),
        match r {
            Ok(res) => {
                &&& old(c).has_username(user@)
                &&& old(c).has_machine_name(machine@)
                &&& date_range_ok(dates@)
                &&& res.user_id as int == old(c).user_with_username(user@).id
                &&& res.machine_id as int == old(c).machine_with_name(machine@).id
                &&& (split_once_exact(dates@, " - "@) matches Some(parts) && Option::Some(
                    res.scheduled_start,
                ) == parsed_instant(parts.0, date_format()) && res.scheduled_end == parsed_instant(
                    parts.1,
                    date_format(),
                ))
                &&& res.actual_end is None
                &&& crate::db::models::opt_str_view(res.pxe_path) == (if pxe@.len() > 0 {
                    Option::Some(pxe@)
                } else {
                    Option::<Seq<char>>::None
                })
                &&& crate::db::models::opt_str_view(res.nfs_root) == (if nfs@.len() > 0 {
                    Option::Some(nfs@)
                } else {
                    Option::<Seq<char>>::None
                })
                &&& final(c).reservations@ == old(c).reservations@.push(
                    final(c).reservations@.last(),
                )
                &&& final(c).reservations@.last()@ == res@
            },
            Err(e) => {
                &&& *final(c) == *old(c)
                &&& e matches Error::DatabaseError(d) ==> d == DbError::NotFound && (!old(
                    c,
                ).has_username(user@) || !old(c).has_machine_name(machine@))
                &&& e matches Error::BadRequest(_) ==> old(c).has_username(user@) && old(
                    c,
                ).has_machine_name(machine@) && !date_range_ok(dates@)
                &&& (e matches Error::DatabaseError(_) || e matches Error::BadRequest(_))
            },
        },
        r is Ok <==> old(c).has_username(user@) && old(c).has_machine_name(machine@)
            && date_range_ok(dates@),
{
    let u = match User::with_username(user, c) {
        Ok(u) => u,
        Err(e) => {
            return Err(Error::DatabaseError(e));
        },
    };
    let m = match Machine::with_name(machine, c) {
        Ok(m) => m,
        Err(e) => {
            return Err(Error::DatabaseError(e));
        },
    };
    proof {
        reveal_strlit(" - ");
    }
    let parts = match crate::util::split_two(dates, " - ") {
        Option::Some(p) => p,
        Option::None => {
            proof {
                if split_once_exact(dates@, " - "@) is Some {
                    let i = choose|i: int| splits_in_two_at(dates@, " - "@, i);
                    assert(!splits_in_two_at(dates@, " - "@, i));
                }
            }
            return Err(Error::BadRequest("expected two dates".to_owned()));
        },
    };
    proof {
        let i = choose|i: int| splits_in_two_at(dates@, " - "@, i);
        let iw = choose|iw: int|
            splits_in_two_at(dates@, " - "@, iw) && parts.0@ == dates@.subrange(0, iw) && parts.1@
                == dates@.subrange(iw + " - "@.len(), dates@.len() as int);
        crate::util::lemma_splits_in_two_unique(dates@, " - "@, i, iw);
        assert(split_once_exact(dates@, " - "@) == Option::Some((parts.0@, parts.1@)));
    }
    let fmt = date_format_str();
    let start = match crate::time::parse_instant(parts.0.as_str(), fmt) {
        Option::Some(t) => t,
        Option::None => {
            return Err(Error::BadRequest("unparseable start date".to_owned()));
        },
    };
    let finish = match crate::time::parse_instant(parts.1.as_str(), fmt) {
        Option::Some(t) => t,
        Option::None => {
            return Err(Error::BadRequest("unparseable end date".to_owned()));
        },
    };
    let mut rb = ReservationBuilder::new(&u, &m, start);
    rb = rb.end(finish);
    if pxe.unicode_len() > 0 {
        rb = rb.pxe(pxe.to_owned());
    }
    if nfs.unicode_len() > 0 {
        rb = rb.nfs(nfs.to_owned());
    }
    proof {
        assert(c.has_user_id(u.id as int)) by {
            let j = choose|j: int| 0 <= j < c.users@.len() && c.users@[j].username@ == user@;
            assert(c.users@[j].id == u.id);
        }
        assert(c.has_machine_id(m.id as int)) by {
            let j = choose|j: int|
                0 <= j < c.machines@.len() && c.machines@[j].name@ == machine@;
            assert(c.machines@[j].id == m.id);
        }
    }
    match rb.insert(c) {
        Ok(res) => Ok(res),
        Err(_) => {
            proof {
                assert(false);
            }
            unreached()
        },
    }
}

/// The fields of a user-update form: a display name and the full new sets
/// of email addresses and role names.
pub struct UserUpdate {
    pub name: String,
    pub emails: Vec<String>,
    pub roles: Vec<String>,
}

/// The last value a form gives for the `name` field, empty when none.
pub open spec fn form_name(ps: Seq<(Seq<char>, Seq<char>)>) -> Seq<char>
    decreases ps.len(),
{
    if ps.len() == 0 {
        Seq::empty()
    } else if ps.last().0 == "name"@ {
        ps.last().1
    } else {
        form_name(ps.drop_last())
    }
}

/// The set of values a form gives for a repeated field.
pub open spec fn form_values(ps: Seq<(Seq<char>, Seq<char>)>, key: Seq<char>) -> Set<Seq<char>> {
    Set::new(
        |v: Seq<char>|
            exists|i: int| 0 <= i < ps.len() && #[trigger] ps[i] == (key, v),
    )
}

/// Every field name the form uses is recognized.
pub open spec fn form_keys_ok(ps: Seq<(Seq<char>, Seq<char>)>) -> bool {
    forall|i: int|
        0 <= i < ps.len() ==> (#[trigger] ps[i].0 == "name"@ || ps[i].0 == "emails"@ || ps[i].0
            == "roles"@)
}

impl UserUpdate {
    /// Interpret decoded form fields: one `name`, and `emails` / `roles`
    /// accumulated as sets.  An unrecognized field name is invalid data.
    pub fn from_form(items: &Vec<(String, String)>) -> (r: Result<UserUpdate, Error>)
        ensures
            match r {
                Ok(u) => {
                    &&& form_keys_ok(crate::html::github::pair_views(items@))
                    &&& u.name@ == form_name(crate::html::github::pair_views(items@))
                    &&& string_view_set(u.emails@) =~= form_values(
                        crate::html::github::pair_views(items@),
                        "emails"@,
                    )
                    &&& string_view_set(u.roles@) =~= form_values(
                        crate::html::github::pair_views(items@),
                        "roles"@,
                    )
                    &&& forall|k: int, l: int|
                        0 <= k < l < u.emails@.len() ==> u.emails@[k]@ != u.emails@[l]@
                    &&& forall|k: int, l: int|
                        0 <= k < l < u.roles@.len() ==> u.roles@[k]@ != u.roles@[l]@
                },
                Err(e) => {
                    &&& e matches Error::InvalidData(_)
                    &&& !form_keys_ok(crate::html::github::pair_views(items@))
                },
            },
    {
        let ghost ps = crate::html::github::pair_views(items@);
        let n = items.len();
        let mut name: String = String::new();
        let mut emails: Vec<String> = Vec::new();
        let mut roles: Vec<String> = Vec::new();
        let mut i: usize = 0;
        proof {
            assert(ps.subrange(0, 0) =~= Seq::<(Seq<char>, Seq<char>)>::empty());
            assert(string_view_set(emails@) =~= form_values(ps.subrange(0, 0), "emails"@));
            assert(string_view_set(roles@) =~= form_values(ps.subrange(0, 0), "roles"@));
        }
        while i < n
            invariant
                i <= n,
                n == items@.len(),
                ps == crate::html::github::pair_views(items@),
                form_keys_ok(ps.subrange(0, i as int)),
                name@ == form_name(ps.subrange(0, i as int)),
                string_view_set(emails@) =~= form_values(ps.subrange(0, i as int), "emails"@),
                string_view_set(roles@) =~= form_values(ps.subrange(0, i as int), "roles"@),
                forall|k: int, l: int|
                    0 <= k < l < emails@.len() ==> emails@[k]@ != emails@[l]@,
                forall|k: int, l: int| 0 <= k < l < roles@.len() ==> roles@[k]@ != roles@[l]@,
            decreases n - i,
        {
            proof {
                reveal_strlit("name");
                reveal_strlit("emails");
                reveal_strlit("roles");
                assert(ps[i as int] == (items@[i as int].0@, items@[i as int].1@));
                assert(ps.subrange(0, i + 1).drop_last() =~= ps.subrange(0, i as int));
            }
            let key = &items[i].0;
            if crate::util::string_eq_str(key, "name") {
                name = items[i].1.clone();
                proof {
                    assert(form_values(ps.subrange(0, i + 1), "emails"@) =~= form_values(
                        ps.subrange(0, i as int),
                        "emails"@,
                    )) by {
                        reveal_strlit("name");
                        reveal_strlit("emails");
                        assert("name"@.len() == 4);
                        assert("emails"@.len() == 6);
                        assert(ps[i as int].0 == "name"@);
                        lemma_form_values_step(ps, i as int, "emails"@);
                    }
                    assert(form_values(ps.subrange(0, i + 1), "roles"@) =~= form_values(
                        ps.subrange(0, i as int),
                        "roles"@,
                    )) by {
                        reveal_strlit("name");
                        reveal_strlit("roles");
                        assert("name"@.len() == 4);
                        assert("roles"@.len() == 5);
                        assert(ps[i as int].0 == "name"@);
                        lemma_form_values_step(ps, i as int, "roles"@);
                    }
                }
            } else if crate::util::string_eq_str(key, "emails") {
                let dup = vec_contains_str(&emails, items[i].1.as_str());
                let ghost prev = emails@;
                if !dup {
                    emails.push(items[i].1.clone());
                }
                proof {
                    assert(ps[i as int].0 == "emails"@);
                    lemma_form_values_push(ps, i as int, "emails"@);
                    assert(form_values(ps.subrange(0, i + 1), "roles"@) =~= form_values(
                        ps.subrange(0, i as int),
                        "roles"@,
                    )) by {
                        assert("emails"@.len() == 6);
                        assert("roles"@.len() == 5);
                        lemma_form_values_step(ps, i as int, "roles"@);
                    }
                    lemma_set_after_push(prev, emails@, string_view_set(prev), ps[i as int].1, dup);
                    assert(string_view_set(emails@) =~= form_values(
                        ps.subrange(0, i + 1),
                        "emails"@,
                    ));
                    assert forall|k: int, l: int|
                        0 <= k < l < emails@.len() implies emails@[k]@ != emails@[l]@ by {
                        if !dup && l == emails@.len() - 1 {
                            assert(emails@[k] == prev[k]);
                        } else {
                            assert(emails@[k] == prev[k] && emails@[l] == prev[l]);
                        }
                    }
                }
            } else if crate::util::string_eq_str(key, "roles") {
                let dup = vec_contains_str(&roles, items[i].1.as_str());
                let ghost prev = roles@;
                if !dup {
                    roles.push(items[i].1.clone());
                }
                proof {
                    assert(ps[i as int].0 == "roles"@);
                    lemma_form_values_push(ps, i as int, "roles"@);
                    assert(form_values(ps.subrange(0, i + 1), "emails"@) =~= form_values(
                        ps.subrange(0, i as int),
                        "emails"@,
                    )) by {
                        assert("emails"@.len() == 6);
                        assert("roles"@.len() == 5);
                        lemma_form_values_step(ps, i as int, "emails"@);
                    }
                    lemma_set_after_push(prev, roles@, string_view_set(prev), ps[i as int].1, dup);
                    assert(string_view_set(roles@) =~= form_values(
                        ps.subrange(0, i + 1),
                        "roles"@,
                    ));
                    assert forall|k: int, l: int|
                        0 <= k < l < roles@.len() implies roles@[k]@ != roles@[l]@ by {
                        if !dup && l == roles@.len() - 1 {
                            assert(roles@[k] == prev[k]);
                        } else {
                            assert(roles@[k] == prev[k] && roles@[l] == prev[l]);
                        }
                    }
                }
            } else {
                proof {
                    assert(!form_keys_ok(ps)) by {
                        assert(ps[i as int].0 == items@[i as int].0@);
                    }
                }
                return Err(Error::InvalidData("invalid form data name".to_owned()));
            }
            i = i + 1;
        }
        proof {
            assert(ps.subrange(0, n as int) =~= ps);
        }
        Ok(UserUpdate { name, emails, roles })
    }
}

/// After conditionally appending a value (when it was absent), the set of
/// views is the old set with the value inserted.
proof fn lemma_set_after_push(
    prev: Seq<String>,
    cur: Seq<String>,
    prev_set: Set<Seq<char>>,
    v: Seq<char>,
    dup: bool,
)
    requires
        prev_set == string_view_set(prev),
        dup == exists|k: int| 0 <= k < prev.len() && #[trigger] prev[k]@ == v,
        dup ==> cur == prev,
        !dup ==> cur.len() == prev.len() + 1 && cur == prev.push(cur.last()) && cur.last()@ == v,
    ensures
        string_view_set(cur) =~= prev_set.insert(v),
{
    assert forall|x: Seq<char>|
        string_view_set(cur).contains(x) == prev_set.insert(v).contains(x) by {
        if string_view_set(cur).contains(x) {
            let k = choose|k: int| 0 <= k < cur.len() && #[trigger] cur[k]@ == x;
            if dup {
                assert(prev[k]@ == x);
            } else {
                if k < prev.len() {
                    assert(prev[k]@ == x);
                } else {
                    assert(x == v);
                }
            }
        }
        if prev_set.insert(v).contains(x) {
            if x == v {
                if dup {
                    let k = choose|k: int| 0 <= k < prev.len() && #[trigger] prev[k]@ == v;
                    assert(cur[k]@ == x);
                } else {
                    assert(cur[cur.len() - 1]@ == x);
                }
            } else {
                let k = choose|k: int| 0 <= k < prev.len() && #[trigger] prev[k]@ == x;
                assert(cur[k]@ == x);
            }
        }
    }
}

/// Fields other than `key` do not change a form's value set for `key`.
proof fn lemma_form_values_step(ps: Seq<(Seq<char>, Seq<char>)>, i: int, key: Seq<char>)
    requires
        0 <= i < ps.len(),
        ps[i].0 != key,
    ensures
        form_values(ps.subrange(0, i + 1), key) =~= form_values(ps.subrange(0, i), key),
{
    let a = ps.subrange(0, i + 1);
    let b = ps.subrange(0, i);
    assert forall|v: Seq<char>|
        form_values(a, key).contains(v) == form_values(b, key).contains(v) by {
        if form_values(a, key).contains(v) {
            let j = choose|j: int| 0 <= j < a.len() && #[trigger] a[j] == (key, v);
            assert(j < i);
            assert(b[j] == (key, v));
        }
        if form_values(b, key).contains(v) {
            let j = choose|j: int| 0 <= j < b.len() && #[trigger] b[j] == (key, v);
            assert(a[j] == (key, v));
        }
    }
}

/// A row with `key` extends the value set by exactly its value.
proof fn lemma_form_values_push(ps: Seq<(Seq<char>, Seq<char>)>, i: int, key: Seq<char>)
    requires
        0 <= i < ps.len(),
        ps[i].0 == key,
    ensures
        form_values(ps.subrange(0, i + 1), key) =~= form_values(ps.subrange(0, i), key).insert(
            ps[i].1,
        ),
{
    let a = ps.subrange(0, i + 1);
    let b = ps.subrange(0, i);
    assert forall|v: Seq<char>|
        form_values(a, key).contains(v) == form_values(b, key).insert(ps[i].1).contains(v) by {
        if form_values(a, key).contains(v) {
            let j = choose|j: int| 0 <= j < a.len() && #[trigger] a[j] == (key, v);
            if j < i {
                assert(b[j] == (key, v));
            } else {
                assert(a[j] == ps[i]);
            }
        }
        if form_values(b, key).insert(ps[i].1).contains(v) {
            if v == ps[i].1 {
                assert(a[i] == (key, v));
            } else {
                let j = choose|j: int| 0 <= j < b.len() && #[trigger] b[j] == (key, v);
                assert(a[j] == (key, v));
            }
        }
    }
}

/// One user's display name was rewritten in place: the user table is the
/// old table with exactly the row named `who` updated, its name set to `nm`
/// and its username and id preserved.
pub open spec fn name_applied(c0: Store, c1: Store, who: Seq<char>, nm: Seq<char>) -> bool {
    exists|i: int|
        {
            &&& 0 <= i < c0.users@.len()
            &&& #[trigger] c0.users@[i].username@ == who
            &&& c1.users@ =~= c0.users@.update(i, c1.users@[i])
            &&& c1.users@[i].username@ == who
            &&& c1.users@[i].name@ == nm
            &&& c1.users@[i].id == c0.users@[i].id
        }
}

/// Every requested role name names an existing role.
pub open spec fn all_role_names_exist(c: Store, roles: Seq<String>) -> bool {
    forall|k: int| 0 <= k < roles.len() ==> c.has_role_name(#[trigger] roles[k]@)
}

/// The caller may update `who`: they are that user, or they can alter users.
pub open spec fn may_update(c: Store, who: Seq<char>, auth_id: int) -> bool {
    c.user_with_username(who).id == auth_id || c.user_has_capability_spec(
        auth_id,
        Capability::AlterUsers,
    )
}

/// Apply a user-update form on behalf of `auth_user`: a user may change
/// their own display name; only a user who can alter users may change
/// anyone's name, email set or role set.  Reconciliation runs name, then
/// emails, then roles; a failing step leaves the earlier steps applied and
/// the later ones untouched.
pub fn user_update(
    who: &str,
    auth_user: &User,
    form: &UserUpdate,
    c: &mut Store,
) -> (r: Result<User, Error>)
    requires
        old(c).wf(),
        forall|k: int, l: int|
            0 <= k < l < form.emails@.len() ==> form.emails@[k]@ != form.emails@[l]@,
        forall|k: int, l: int|
            0 <= k < l < form.roles@.len() ==> form.roles@[k]@ != form.roles@[l]@,
        old(c).next_id as int + form.emails@.len() + form.roles@.len() <= i32::MAX as int,
    ensures
        final(c).wf(),
        final(c).github_accounts == old(c).github_accounts,
        final(c).architectures == old(c).architectures,
        final(c).microarchitectures == old(c).microarchitectures,
        final(c).processors == old(c).processors,
        final(c).machines == old(c).machines,
        final(c).disks == old(c).disks,
        final(c).nics == old(c).nics,
        final(c).reservations == old(c).reservations,
        final(c).roles == old(c).roles,
        r is Ok <==> (old(c).has_username(who@) && may_update(*old(c), who@, auth_user.id as int)
            && (old(c).user_has_capability_spec(auth_user.id as int, Capability::AlterUsers) ==> (
        !crate::db::models::email_conflict(
            *old(c),
            old(c).user_with_username(who@).id,
            form.emails@,
        ) && all_role_names_exist(*old(c), form.roles@)))),
        match r {
            Ok(u) => {
                &&& old(c).has_username(who@)
                &&& may_update(*old(c), who@, auth_user.id as int)
                &&& u.username@ == who@
                &&& u.name@ == form.name@
                &&& name_applied(*old(c), *final(c), who@, form.name@)
                &&& final(c).has_username(who@)
                &&& final(c).user_with_username(who@).name == form.name@
                &&& (old(c).user_has_capability_spec(auth_user.id as int, Capability::AlterUsers)
                    ==> {
                    &&& forall|a: Seq<char>|
                        final(c).emails_of_user(old(c).user_with_username(who@).id).contains(a)
                            == string_view_set(form.emails@).contains(a)
                    &&& forall|uid2: int, a: Seq<char>|
                        uid2 != old(c).user_with_username(who@).id ==> final(c).emails_of_user(
                            uid2,
                        ).contains(a) == old(c).emails_of_user(uid2).contains(a)
                    &&& final(c).user_role_names(old(c).user_with_username(who@).id)
                        =~= string_view_set(form.roles@)
                    &&& forall|uid2: int, rid: int|
                        uid2 != old(c).user_with_username(who@).id
                            ==> #[trigger] final(c).assignment_for(uid2, rid) == old(
                            c,
                        ).assignment_for(uid2, rid)
                })
                &&& (!old(c).user_has_capability_spec(auth_user.id as int, Capability::AlterUsers)
                    ==> final(c).emails == old(c).emails && final(c).role_assignments == old(
                    c,
                ).role_assignments)
            },
            Err(e) => {
                &&& (e matches Error::BadRequest(_) ==> (!old(c).has_username(who@) && *final(c)
                    == *old(c)))
                &&& (e matches Error::NotAuthorized(_) ==> (old(c).has_username(who@)
                    && !may_update(*old(c), who@, auth_user.id as int) && *final(c) == *old(c)))
                &&& (e matches Error::DatabaseError(d) ==> {
                    &&& old(c).has_username(who@)
                    &&& may_update(*old(c), who@, auth_user.id as int)
                    &&& old(c).user_has_capability_spec(
                        auth_user.id as int,
                        Capability::AlterUsers,
                    )
                    &&& name_applied(*old(c), *final(c), who@, form.name@)
                    &&& final(c).has_username(who@)
                    &&& final(c).user_with_username(who@).name == form.name@
                    &&& (d == DbError::UniqueViolation ==> crate::db::models::email_conflict(
                        *old(c),
                        old(c).user_with_username(who@).id,
                        form.emails@,
                    ) && final(c).emails == old(c).emails && final(c).role_assignments == old(
                        c,
                    ).role_assignments)
                    &&& (d == DbError::NotFound ==> {
                        &&& !crate::db::models::email_conflict(
                            *old(c),
                            old(c).user_with_username(who@).id,
                            form.emails@,
                        )
                        &&& !all_role_names_exist(*old(c), form.roles@)
                        &&& final(c).role_assignments == old(c).role_assignments
                        &&& forall|a: Seq<char>|
                            final(c).emails_of_user(old(c).user_with_username(who@).id).contains(
                                a,
                            ) == string_view_set(form.emails@).contains(a)
                        &&& forall|uid2: int, a: Seq<char>|
                            uid2 != old(c).user_with_username(who@).id ==> final(c).emails_of_user(
                                uid2,
                            ).contains(a) == old(c).emails_of_user(uid2).contains(a)
                    })
                    &&& (d == DbError::UniqueViolation || d == DbError::NotFound)
                })
                &&& (e matches Error::BadRequest(_) || e matches Error::NotAuthorized(_) || (
                e matches Error::DatabaseError(_)))
            },
        },
{
    let user = match User::with_username(who, c) {
        Ok(u) => u,
        Err(_) => {
            return Err(Error::BadRequest("no such user".to_owned()));
        },
    };
    let ghost uid = old(c).user_with_username(who@).id;
    let superuser = match auth_user.can_alter_users(c) {
        Ok(b) => b,
        Err(_) => {
            proof {
                assert(false);
            }
            unreached()
        },
    };
    if !(user.id == auth_user.id || superuser) {
        return Err(Error::NotAuthorized("update other users' details".to_owned()));
    }
    // Apply the name change (a no-op rewrite when the name is unchanged).
    let user = match user.change_name(form.name.as_str(), c) {
        Ok(u) => u,
        Err(_) => {
            proof {
                assert(false);
            }
            unreached()
        },
    };
    proof {
        let j = choose|j: int|
            {
                &&& 0 <= j < old(c).users@.len()
                &&& old(c).users@[j].id == user.id
                &&& c.users@ =~= old(c).users@.update(j, c.users@[j])
                &&& c.users@[j]@ == user@
            };
        assert(c.users@[j].username@ == who@);
        assert(c.has_username(who@));
        assert(name_applied(*old(c), *c, who@, form.name@)) by {
            assert(old(c).users@[j].username@ == who@);
        }
        assert(c.user_with_username(who@) == user@) by {
            let j2 = choose|j2: int| 0 <= j2 < c.users@.len() && c.users@[j2].username@ == who@;
            if j2 != j {
                assert(c.users@[j2].username@ != c.users@[j].username@);
            }
        }
        assert(c.has_user_id(user.id as int));
    }
    let ghost s1 = *c;
    if superuser {
        // Only administrators may modify email addresses and role sets.
        match user.set_emails(&form.emails, c) {
            Ok(_) => {},
            Err(e) => {
                proof {
                    assert(e == DbError::UniqueViolation);
                    crate::db::models::lemma_email_conflict_frame(
                        s1,
                        *old(c),
                        uid,
                        form.emails@,
                    );
                }
                return Err(Error::DatabaseError(e));
            },
        }
        proof {
            crate::db::models::lemma_email_conflict_frame(s1, *old(c), uid, form.emails@);
            crate::db::models::lemma_emails_of_user_frame(s1, *old(c));
            crate::db::models::lemma_emails_of_user_frame(*old(c), s1);
            crate::db::store::lemma_has_user_id_frame(s1, *c);
            assert(c.has_user_id(user.id as int));
        }
        let ghost s2 = *c;
        match user.set_roles(&form.roles, c) {
            Ok(_) => {},
            Err(e) => {
                proof {
                    assert(e == DbError::NotFound);
                    crate::db::models::lemma_emails_of_user_frame(*old(c), s1);
                    crate::db::models::lemma_emails_of_user_frame(s1, *old(c));
                    let k = choose|k: int|
                        0 <= k < form.roles@.len() && !s2.has_role_name(#[trigger] form.roles@[k]@);
                    crate::db::models::lemma_has_role_name_frame(s2, *old(c));
                    assert(!old(c).has_role_name(form.roles@[k]@));
                    assert(!all_role_names_exist(*old(c), form.roles@));
                    assert(name_applied(*old(c), *c, who@, form.name@)) by {
                        let i = choose|i: int|
                            {
                                &&& 0 <= i < old(c).users@.len()
                                &&& #[trigger] old(c).users@[i].username@ == who@
                                &&& s1.users@ =~= old(c).users@.update(i, s1.users@[i])
                                &&& s1.users@[i].username@ == who@
                                &&& s1.users@[i].name@ == form.name@
                                &&& s1.users@[i].id == old(c).users@[i].id
                            };
                        assert(c.users@[i] == s1.users@[i]);
                    }
                    assert(c.has_username(who@)) by {
                        let j = choose|j: int|
                            0 <= j < s1.users@.len() && s1.users@[j].username@ == who@;
                        assert(c.users@[j].username@ == who@);
                    }
                    assert(c.user_with_username(who@).name == form.name@) by {
                        assert(c.users == s1.users);
                        let j = choose|j: int|
                            0 <= j < s1.users@.len() && s1.users@[j].username@ == who@;
                        assert(c.users@[j]@ == s1.user_with_username(who@));
                        let j2 = choose|j2: int|
                            0 <= j2 < c.users@.len() && c.users@[j2].username@ == who@;
                        if j2 != j {
                            assert(c.users@[j2].username@ != c.users@[j].username@);
                        }
                    }
                }
                return Err(Error::DatabaseError(e));
            },
        }
        proof {
            crate::db::models::lemma_has_role_name_frame(s2, *old(c));
            assert(all_role_names_exist(*old(c), form.roles@)) by {
                assert forall|k: int|
                    0 <= k < form.roles@.len() implies old(c).has_role_name(
                    #[trigger] form.roles@[k]@,
                ) by {
                    assert(s2.has_role_name(form.roles@[k]@));
                }
            }
            crate::db::models::lemma_emails_of_user_frame(s2, *c);
            crate::db::models::lemma_emails_of_user_frame(*c, s2);
            crate::db::models::lemma_emails_of_user_frame(*old(c), s1);
            assert(name_applied(*old(c), *c, who@, form.name@)) by {
                let i = choose|i: int|
                    {
                        &&& 0 <= i < old(c).users@.len()
                        &&& #[trigger] old(c).users@[i].username@ == who@
                        &&& s1.users@ =~= old(c).users@.update(i, s1.users@[i])
                        &&& s1.users@[i].username@ == who@
                        &&& s1.users@[i].name@ == form.name@
                        &&& s1.users@[i].id == old(c).users@[i].id
                    };
                assert(c.users@[i] == s1.users@[i]);
            }
            assert(c.has_username(who@)) by {
                let j = choose|j: int| 0 <= j < s1.users@.len() && s1.users@[j].username@ == who@;
                assert(c.users@[j].username@ == who@);
            }
            assert(c.user_with_username(who@).name == form.name@) by {
                assert(c.users == s1.users);
                let j = choose|j: int| 0 <= j < s1.users@.len() && s1.users@[j].username@ == who@;
                assert(c.users@[j]@ == s1.user_with_username(who@));
                let j2 = choose|j2: int|
                    0 <= j2 < c.users@.len() && c.users@[j2].username@ == who@;
                if j2 != j {
                    assert(c.users@[j2].username@ != c.users@[j].username@);
                }
            }
        }
    }
    Ok(user)
}

/// Add a machine to the inventory from the form inputs: its name, the
/// chosen processor and the memory size.
pub fn machine_create(
    name: &str,
    processor: i32,
    memory_gb: i32,
    c: &mut Store,
) -> (r: Result<crate::db::models::Machine, Error>)
    requires
        old(c).wf(),
        old(c).next_id < i32::MAX,
    ensures
        final(c).wf(),
        final(c).machines_frame(*old(c)),
        match r {
            Ok(m) => {
                &&& old(c).has_processor_id(processor as int)
                &&& !old(c).has_machine_name(name@)
                &&& m.name@ == name@
                &&& m.processor_id == processor
                &&& m.memory_gb == memory_gb
                &&& final(c).has_machine_name(name@)
                &&& m@ == final(c).machine_with_name(name@)
                &&& !old(c).has_machine_id(m.id as int)
                &&& exists|pos: int|
                    0 <= pos <= old(c).machines@.len() && final(c).machines@ =~= old(
                        c,
                    ).machines@.insert(pos, final(c).machines@[pos])
                        && final(c).machines@[pos]@ == m@
                &&& forall|mid: int|
                    final(c).has_machine_id(mid) <==> old(c).has_machine_id(mid) || mid == m.id
            },
            Err(e) => {
                &&& *final(c) == *old(c)
                &&& (e matches Error::DatabaseError(d) && d == DbError::NotFound ==> !old(
                    c,
                ).has_processor_id(processor as int))
                &&& (e matches Error::DatabaseError(d) && d == DbError::UniqueViolation ==> old(
                    c,
                ).has_machine_name(name@))
                &&& (e matches Error::DatabaseError(d) && (d == DbError::NotFound || d
                    == DbError::UniqueViolation))
            },
        },
        r is Ok <==> old(c).has_processor_id(processor as int) && !old(c).has_machine_name(name@),
{
    let p = match crate::db::models::Processor::get(processor, c) {
        Ok(p) => p,
        Err(e) => {
            return Err(Error::DatabaseError(e));
        },
    };
    let builder = crate::db::models::MachineBuilder::new(name.to_owned())
        .processor(&p)
        .memory_gb(memory_gb);
    proof {
        assert(c.has_processor_id(p.id as int)) by {
            let j = choose|j: int|
                0 <= j < c.processors@.len() && c.processors@[j].id == processor;
            assert(c.processors@[j].id == p.id);
        }
    }
    match builder.insert(c) {
        Ok(m) => Ok(m),
        Err(e) => {
            proof {
                assert(e == DbError::UniqueViolation);
            }
            Err(Error::DatabaseError(e))
        },
    }
}

/// The navigation entries a page shows: machines and reservations always,
/// and the user administration page only for a user who may alter users.
pub fn nav_links(auth_user: &User, prefix: &str, c: &Store) -> (r: Vec<
    crate::html::bootstrap::NavItem,
>)
    requires
        c.wf(),
    ensures
        c.user_has_capability_spec(auth_user.id as int, Capability::AlterUsers) ==> r@.len() == 3,
        !c.user_has_capability_spec(auth_user.id as int, Capability::AlterUsers) ==> r@.len() == 2,
        (r@[0] matches crate::html::bootstrap::NavItem::Link { href, text } && href@ == prefix@
            + "machines"@ && text@ == "Machines"@),
        (r@[1] matches crate::html::bootstrap::NavItem::Link { href, text } && href@ == prefix@
            + "reservations"@ && text@ == "Reservations"@),
        r@.len() == 3 ==> (r@[2] matches crate::html::bootstrap::NavItem::Link { href, text }
            && href@ == prefix@ + "users"@ && text@ == "Users"@),
{
    let mut links: Vec<crate::html::bootstrap::NavItem> = Vec::new();
    let mut href = prefix.to_owned();
    href.append("machines");
    links.push(crate::html::bootstrap::NavItem::link(href.as_str(), "Machines"));
    let mut href = prefix.to_owned();
    href.append("reservations");
    links.push(crate::html::bootstrap::NavItem::link(href.as_str(), "Reservations"));
    let admin = match auth_user.can_alter_users(c) {
        Ok(b) => b,
        Err(_) => {
            proof {
                assert(false);
            }
            unreached()
        },
    };
    if admin {
        let mut href = prefix.to_owned();
        href.append("users");
        links.push(crate::html::bootstrap::NavItem::link(href.as_str(), "Users"));
    }
    links
}

/// Whether the reservation page offers the "end reservation" action: the
/// reservation has started and has not already been ended.
pub fn can_end(r: &Reservation, now: i64) -> (b: bool)
    ensures
        b == (r.scheduled_start <= now && r.actual_end is None),
{
    r.scheduled_start <= now && r.actual_end.is_none()
}

/// The user choices of the reservation form, with the signed-in user
/// preselected.
pub fn user_select_options(users: &Vec<User>, auth_username: &str) -> (r: Vec<
    crate::html::forms::SelectOption,
>)
    ensures
        r@.len() == users@.len(),
        forall|i: int|
            0 <= i < r@.len() ==> (#[trigger] r@[i]).name@ == users@[i].username@ && r@[i].label@
                == users@[i].name@ && r@[i].selected == (users@[i].username@ == auth_username@),
{
    let n = users.len();
    let mut r: Vec<crate::html::forms::SelectOption> = Vec::new();
    let mut i: usize = 0;
    while i < n
        invariant
            i <= n,
            n == users@.len(),
            r@.len() == i,
            forall|k: int|
                0 <= k < i ==> (#[trigger] r@[k]).name@ == users@[k].username@ && r@[k].label@
                    == users@[k].name@ && r@[k].selected == (users@[k].username@
                    == auth_username@),
        decreases n - i,
    {
        let u = &users[i];
        let opt = crate::html::forms::SelectOption::new(
            u.username.as_str(),
            u.name.as_str(),
        ).selected(crate::util::string_eq_str(&u.username, auth_username));
        r.push(opt);
        i = i + 1;
    }
    r
}

/// The machine choices of the reservation form, with the requested machine
/// (if any) preselected.
pub fn machine_select_options(machines: &Vec<Machine>, requested: Option<&str>) -> (r: Vec<
    crate::html::forms::SelectOption,
>)
    ensures
        r@.len() == machines@.len(),
        forall|i: int|
            0 <= i < r@.len() ==> (#[trigger] r@[i]).name@ == machines@[i].name@ && r@[i].label@
                == machines@[i].name@ && r@[i].selected == (requested matches Some(n)
                && machines@[i].name@ == n@),
{
    let n = machines.len();
    let mut r: Vec<crate::html::forms::SelectOption> = Vec::new();
    let mut i: usize = 0;
    while i < n
        invariant
            i <= n,
            n == machines@.len(),
            r@.len() == i,
            forall|k: int|
                0 <= k < i ==> (#[trigger] r@[k]).name@ == machines@[k].name@ && r@[k].label@
                    == machines@[k].name@ && r@[k].selected == (requested matches Some(nm)
                    && machines@[k].name@ == nm@),
        decreases n - i,
    {
        let m = &machines[i];
        let sel = match requested {
            Option::Some(nm) => crate::util::string_eq_str(&m.name, nm),
            Option::None => false,
        };
        let opt = crate::html::forms::SelectOption::new(m.name.as_str(), m.name.as_str()).selected(
            sel,
        );
        r.push(opt);
        i = i + 1;
    }
    r
}

/// The processor choices of the machine-creation form, keyed by their
/// decimal ids.
pub fn processor_select_options(processors: &Vec<crate::db::models::Processor>) -> (r: Vec<
    crate::html::forms::SelectOption,
>)
    ensures
        r@.len() == processors@.len(),
        forall|i: int|
            0 <= i < r@.len() ==> (#[trigger] r@[i]).name@ == crate::util::dec_str(
                processors@[i].id as int,
            ) && r@[i].label@ == processors@[i].name@ && !r@[i].selected,
{
    let n = processors.len();
    let mut r: Vec<crate::html::forms::SelectOption> = Vec::new();
    let mut i: usize = 0;
    while i < n
        invariant
            i <= n,
            n == processors@.len(),
            r@.len() == i,
            forall|k: int|
                0 <= k < i ==> (#[trigger] r@[k]).name@ == crate::util::dec_str(
                    processors@[k].id as int,
                ) && r@[k].label@ == processors@[k].name@ && !r@[k].selected,
        decreases n - i,
    {
        let p = &processors[i];
        let id_text = crate::util::i32_to_dec(p.id);
        let opt = crate::html::forms::SelectOption::new(id_text.as_str(), p.name.as_str());
        r.push(opt);
        i = i + 1;
    }
    r
}

/// The role choices of the user page: every role, with the ones the user
/// inhabits preselected.
pub fn role_select_options(user: &User, c: &Store) -> (r: Vec<crate::html::forms::SelectOption>)
    requires
        c.wf(),
    ensures
        r@.len() == c.roles@.len(),
        forall|i: int|
            0 <= i < r@.len() ==> (#[trigger] r@[i]).name@ == c.roles@[i].name@ && r@[i].label@
                == c.roles@[i].name@ && r@[i].selected == c.assignment_for(
                user.id as int,
                c.roles@[i].id as int,
            ),
{
    let roles = match crate::db::models::Role::all(c) {
        Ok(v) => v,
        Err(_) => {
            proof {
                assert(false);
            }
            unreached()
        },
    };
    let n = roles.len();
    let mut r: Vec<crate::html::forms::SelectOption> = Vec::new();
    let mut i: usize = 0;
    while i < n
        invariant
            i <= n,
            n == roles@.len(),
            c.wf(),
            n == c.roles@.len(),
            forall|k: int| 0 <= k < n ==> roles@[k]@ == #[trigger] c.roles@[k]@,
            r@.len() == i,
            forall|k: int|
                0 <= k < i ==> (#[trigger] r@[k]).name@ == c.roles@[k].name@ && r@[k].label@
                    == c.roles@[k].name@ && r@[k].selected == c.assignment_for(
                    user.id as int,
                    c.roles@[k].id as int,
                ),
        decreases n - i,
    {
        let role = &roles[i];
        let inhabited = match user.inhabits_role(role, c) {
            Ok(b) => b,
            Err(_) => {
                proof {
                    assert(false);
                }
                unreached()
            },
        };
        proof {
            assert(roles@[i as int]@ == c.roles@[i as int]@);
            assert(roles@[i as int].name@ == c.roles@[i as int].name@);
            assert(roles@[i as int].id as int == c.roles@[i as int].id as int);
        }
        let opt = crate::html::forms::SelectOption::new(
            role.name.as_str(),
            role.name.as_str(),
        ).selected(inhabited);
        r.push(opt);
        i = i + 1;
    }
    r
}

/// The data behind the user-administration page: every user and every
/// role, gated on the viewer's right to alter users.
pub fn users_page_data(auth_user: &User, c: &Store) -> (r: Result<
    (Vec<User>, Vec<crate::db::models::Role>),
    Error,
>)
    requires
        c.wf(),
    ensures
        match r {
            Ok(p) => {
                &&& c.user_has_capability_spec(auth_user.id as int, Capability::AlterUsers)
                &&& p.0@.len() == c.users@.len()
                &&& forall|i: int| 0 <= i < p.0@.len() ==> p.0@[i]@ == #[trigger] c.users@[i]@
                &&& p.1@.len() == c.roles@.len()
                &&& forall|i: int| 0 <= i < p.1@.len() ==> p.1@[i]@ == #[trigger] c.roles@[i]@
            },
            Err(e) => {
                &&& e matches Error::NotAuthorized(_)
                &&& !c.user_has_capability_spec(auth_user.id as int, Capability::AlterUsers)
            },
        },
{
    let can_view = match auth_user.can_alter_users(c) {
        Ok(b) => b,
        Err(_) => {
            proof {
                assert(false);
            }
            unreached()
        },
    };
    if !can_view {
        return Err(Error::NotAuthorized("cannot view/alter other users".to_owned()));
    }
    let users = match User::all(c) {
        Ok(v) => v,
        Err(_) => {
            proof {
                assert(false);
            }
            unreached()
        },
    };
    let roles = match crate::db::models::Role::all(c) {
        Ok(v) => v,
        Err(_) => {
            proof {
                assert(false);
            }
            unreached()
        },
    };
    Ok((users, roles))
}

} // verus!
