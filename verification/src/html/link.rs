//! Links to the entities' pages: the URL and the text each link carries.

use vstd::prelude::*;

use crate::db::models::{Machine, Microarchitecture, Processor, Reservation, User};
use crate::util::{dec_str, i32_to_dec};

verus! {

/// A hyperlink.
pub struct Link {
    pub url: String,
    pub text: String,
}

impl Link {
    /// A link to a machine's page under the given route prefix.
    pub fn from_machine(m: &Machine, prefix: &str) -> (r: Link)
        ensures
            r.url@ == prefix@ + "machine/"@ + m.name@,
            r.text@ == m.name@,
    {
        let mut url = prefix.to_owned();
        url.append("machine/");
        url.append(m.name.as_str());
        Link { url, text: m.name.clone() }
    }

    /// A link to a user's page under the given route prefix.
    pub fn from_user(u: &User, prefix: &str) -> (r: Link)
        ensures
            r.url@ == prefix@ + "user/"@ + u.username@,
            r.text@ == u.username@,
    {
        let mut url = prefix.to_owned();
        url.append("user/");
        url.append(u.username.as_str());
        Link { url, text: u.username.clone() }
    }

    /// A link to a reservation's page under the given route prefix.
    pub fn from_reservation(res: &Reservation, prefix: &str) -> (r: Link)
        ensures
            r.url@ == prefix@ + "reservation/"@ + dec_str(res.id as int),
            r.text@ == dec_str(res.id as int),
    {
        let text = i32_to_dec(res.id);
        let mut url = prefix.to_owned();
        url.append("reservation/");
        url.append(text.as_str());
        Link { url, text }
    }

    /// A link to a processor's reference page, or a dead link when it has
    /// none.
    pub fn from_processor(p: &Processor) -> (r: Link)
        ensures
            p.url matches Some(u) ==> r.url@ == u@,
            p.url is None ==> r.url@ == "#"@,
            r.text@ == p.name@,
    {
        let url = match &p.url {
            Option::Some(u) => u.clone(),
            Option::None => "#".to_owned(),
        };
        Link { url, text: p.name.clone() }
    }

    /// A link to a microarchitecture's reference page, or a dead link when
    /// it has none.
    pub fn from_microarchitecture(m: &Microarchitecture) -> (r: Link)
        ensures
            m.url matches Some(u) ==> r.url@ == u@,
            m.url is None ==> r.url@ == "#"@,
            r.text@ == m.name@,
    {
        let url = match &m.url {
            Option::Some(u) => u.clone(),
            Option::None => "#".to_owned(),
        };
        Link { url, text: m.name.clone() }
    }
}

} // verus!
