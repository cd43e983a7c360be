//! Verified ordering of reservation listings.

use vstd::multiset::Multiset;
use vstd::prelude::*;

use crate::db::models::{Reservation, ReservationView};
use crate::time::{opt_time_le, opt_time_le_exec};

verus! {

/// The two presentation orders used by reservation listings.
#[derive(Clone, Copy, PartialEq, Eq, Structural)]
pub enum SortKey {
    /// Effective finish descending (unbounded first), then machine id
    /// ascending: "most urgent first".
    EffectiveEndThenMachine,
    /// Scheduled end descending (unbounded first).
    ScheduledEnd,
}

/// `a` may stand at or before `b` under `key`.
pub open spec fn res_le(key: SortKey, a: ReservationView, b: ReservationView) -> bool {
    match key {
        SortKey::EffectiveEndThenMachine => {
            ||| (opt_time_le(b.effective_finish(), a.effective_finish())
                && !opt_time_le(a.effective_finish(), b.effective_finish()))
            ||| (opt_time_le(b.effective_finish(), a.effective_finish())
                && opt_time_le(a.effective_finish(), b.effective_finish())
                && a.machine_id <= b.machine_id)
        },
        SortKey::ScheduledEnd => opt_time_le(b.scheduled_end, a.scheduled_end),
    }
}

/// `res_le` is total for each key.
pub proof fn lemma_res_le_total(key: SortKey, a: ReservationView, b: ReservationView)
    ensures
        res_le(key, a, b) || res_le(key, b, a),
{
}

/// `res_le` is transitive for each key.
pub proof fn lemma_res_le_trans(
    key: SortKey,
    a: ReservationView,
    b: ReservationView,
    c: ReservationView,
)
    ensures
        res_le(key, a, b) && res_le(key, b, c) ==> res_le(key, a, c),
{
}

/// Executable counterpart of `res_le`.
pub fn res_le_exec(key: SortKey, a: &Reservation, b: &Reservation) -> (r: bool)
    ensures
        r == res_le(key, a@, b@),
{
    match key {
        SortKey::EffectiveEndThenMachine => {
            let fa = a.finish();
            let fb = b.finish();
            let ba = opt_time_le_exec(&fb, &fa);
            let ab = opt_time_le_exec(&fa, &fb);
            (ba && !ab) || (ba && ab && a.machine_id <= b.machine_id)
        },
        SortKey::ScheduledEnd => opt_time_le_exec(&b.scheduled_end, &a.scheduled_end),
    }
}

/// A sequence of reservation views is sorted under `key`.
pub open spec fn sorted_by_key(key: SortKey, s: Seq<ReservationView>) -> bool {
    forall|i: int, j: int| 0 <= i < j < s.len() ==> res_le(key, s[i], s[j])
}

/// The views of a sequence of reservations.
pub open spec fn views_of(s: Seq<Reservation>) -> Seq<ReservationView> {
    s.map_values(|r: Reservation| r@)
}

/// Sort a vector of reservations under `key`.  The result holds exactly the
/// given reservations (as a multiset of views), in sorted order.
pub fn sort_reservations(key: SortKey, v: Vec<Reservation>) -> (r: Vec<Reservation>)
    ensures
        sorted_by_key(key, views_of(r@)),
        views_of(r@).to_multiset() == views_of(v@).to_multiset(),
{
    let input = v;
    let n = input.len();
    let mut out: Vec<Reservation> = Vec::new();
    proof {
        assert(views_of(out@) =~= Seq::<ReservationView>::empty());
        assert(views_of(input@.subrange(0, 0)) =~= Seq::<ReservationView>::empty());
    }
    let mut i: usize = 0;
    while i < n
        invariant
            n == input@.len(),
            i <= n,
            sorted_by_key(key, views_of(out@)),
            views_of(out@).to_multiset() == views_of(input@.subrange(0, i as int)).to_multiset(),
        decreases n - i,
    {
        let x = clone_reservation_at(&input, i);
        let ghost xv = x@;
        let pos = insert_position(key, &out, &x);
        let ghost prev = out@;
        out.insert(pos, x);
        proof {
            assert(views_of(out@) =~= views_of(prev).insert(pos as int, xv)) by {
                assert(out@ =~= prev.insert(pos as int, out@[pos as int]));
                assert forall|k: int| 0 <= k < out@.len() implies views_of(out@)[k] == views_of(
                    prev,
                ).insert(pos as int, xv)[k] by {
                    if k < pos {
                        assert(out@[k] == prev[k]);
                    } else if k == pos {
                        assert(views_of(out@)[k] == xv);
                    } else {
                        assert(out@[k] == prev[k - 1]);
                    }
                }
            }
            lemma_insert_sorted(key, views_of(prev), xv, pos as int);
            lemma_multiset_insert(views_of(prev), xv, pos as int);
            views_of(prev).to_multiset_ensures();
            let ghost done = input@.subrange(0, i as int);
            assert(views_of(input@.subrange(0, i + 1)) =~= views_of(done).push(xv));
            views_of(done).to_multiset_ensures();
        }
        i = i + 1;
    }
    proof {
        assert(input@.subrange(0, n as int) =~= input@);
    }
    out
}

/// Clone the reservation at index `i`.
fn clone_reservation_at(v: &Vec<Reservation>, i: usize) -> (r: Reservation)
    requires
        i < v@.len(),
    ensures
        r@ == v@[i as int]@,
{
    let slot = &v[i];
    slot.clone()
}

/// The first position in the sorted vector `out` where `x` can stand while
/// keeping the order.
fn insert_position(key: SortKey, out: &Vec<Reservation>, x: &Reservation) -> (pos: usize)
    requires
        sorted_by_key(key, views_of(out@)),
    ensures
        pos <= out@.len(),
        forall|k: int| 0 <= k < pos ==> res_le(key, views_of(out@)[k], x@),
        forall|k: int| pos <= k < out@.len() ==> res_le(key, x@, views_of(out@)[k]),
{
    let n = out.len();
    let mut pos: usize = 0;
    while pos < n
        invariant
            pos <= n,
            n == out@.len(),
            sorted_by_key(key, views_of(out@)),
            forall|k: int| 0 <= k < pos ==> res_le(key, views_of(out@)[k], x@),
        decreases n - pos,
    {
        let le = res_le_exec(key, &out[pos], x);
        if !le {
            proof {
                assert forall|k: int| pos <= k < out@.len() implies res_le(
                    key,
                    x@,
                    views_of(out@)[k],
                ) by {
                    lemma_res_le_total(key, views_of(out@)[pos as int], x@);
                    if k > pos {
                        lemma_res_le_trans(key, x@, views_of(out@)[pos as int], views_of(out@)[k]);
                    }
                }
            }
            return pos;
        }
        pos = pos + 1;
    }
    pos
}

/// Inserting `x` at a valid boundary position keeps the sequence sorted.
proof fn lemma_insert_sorted(key: SortKey, s: Seq<ReservationView>, x: ReservationView, pos: int)
    requires
        0 <= pos <= s.len(),
        sorted_by_key(key, s),
        forall|k: int| 0 <= k < pos ==> res_le(key, s[k], x),
        forall|k: int| pos <= k < s.len() ==> res_le(key, x, s[k]),
    ensures
        sorted_by_key(key, s.insert(pos, x)),
{
    let t = s.insert(pos, x);
    assert forall|i: int, j: int| 0 <= i < j < t.len() implies res_le(key, t[i], t[j]) by {
        if i < pos && j < pos {
            assert(t[i] == s[i] && t[j] == s[j]);
        } else if i < pos && j == pos {
            assert(t[i] == s[i] && t[j] == x);
        } else if i < pos && j > pos {
            assert(t[i] == s[i] && t[j] == s[j - 1]);
        } else if i == pos {
            assert(t[i] == x && t[j] == s[j - 1]);
        } else {
            assert(t[i] == s[i - 1] && t[j] == s[j - 1]);
        }
    }
}

/// Inserting into a sequence inserts into its multiset of elements.
proof fn lemma_multiset_insert(s: Seq<ReservationView>, x: ReservationView, pos: int)
    requires
        0 <= pos <= s.len(),
    ensures
        s.insert(pos, x).to_multiset() == s.push(x).to_multiset(),
{
    let t = s.insert(pos, x);
    let left = s.subrange(0, pos);
    let right = s.subrange(pos, s.len() as int);
    assert(t =~= left + (seq![x] + right));
    vstd::seq_lib::lemma_multiset_commutative(left, seq![x] + right);
    vstd::seq_lib::lemma_multiset_commutative(seq![x], right);
    vstd::seq_lib::lemma_multiset_commutative(left, right);
    assert(s =~= left + right);
    (left + right).to_multiset_ensures();
    right.to_multiset_ensures();
    assert(seq![x] =~= Seq::<ReservationView>::empty().push(x));
    Seq::<ReservationView>::empty().to_multiset_ensures();
    assert(s.push(x) =~= (left + right).push(x));
    assert(t.to_multiset() =~= s.push(x).to_multiset()) by {
        assert(t.to_multiset() == left.to_multiset().add(
            seq![x].to_multiset().add(right.to_multiset()),
        ));
        assert(seq![x].to_multiset() == Multiset::<ReservationView>::empty().insert(x));
        assert(s.push(x).to_multiset() == s.to_multiset().insert(x));
        assert(s.to_multiset() == left.to_multiset().add(right.to_multiset()));
    }
}

} // verus!
