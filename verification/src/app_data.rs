//! Changes to the data the browser app keeps: the recent-stops cache, saved
//! trip types and the recents offered in a stop search.

use vstd::prelude::*;
use vstd::string::StringExecFns;
use crate::model::{AppData, Stop, TripType};
use crate::text::{copy_opt_string, copy_string, decimal, push_decimal};

verus! {

/// How many recent stops are kept.
pub const MAX_RECENT_STOPS: usize = 10;

/// The stops of `s` whose id is not `id`, in their order.
pub open spec fn stops_without_id(s: Seq<Stop>, id: Seq<char>) -> Seq<Stop>
    decreases s.len(),
{
    if s.len() == 0 {
        Seq::empty()
    } else {
        let rest = stops_without_id(s.drop_last(), id);
        if s.last().id@ == id {
            rest
        } else {
            rest.push(s.last())
        }
    }
}

/// At most the first `n` items of `s`.
pub open spec fn at_most<T>(s: Seq<T>, n: nat) -> Seq<T> {
    if s.len() > n {
        s.take(n as int)
    } else {
        s
    }
}

/// The recent stops after `stop` was chosen: `stop` first, then the others
/// that were there, without any entry of the same id, cut to the cap.
pub open spec fn recents_after_push(recents: Seq<Stop>, stop: Stop) -> Seq<Stop> {
    at_most(seq![stop] + stops_without_id(recents, stop.id@), MAX_RECENT_STOPS as nat)
}

/// No two stops of `s` share an id.
pub open spec fn unique_stop_ids(s: Seq<Stop>) -> bool {
    forall|i: int, j: int| 0 <= i < j < s.len() ==> s[i].id@ != s[j].id@
}

/// The trip types of `s` whose id is not `id`, in their order.
pub open spec fn trip_types_without_id(s: Seq<TripType>, id: Seq<char>) -> Seq<TripType>
    decreases s.len(),
{
    if s.len() == 0 {
        Seq::empty()
    } else {
        let rest = trip_types_without_id(s.drop_last(), id);
        if s.last().id@ == id {
            rest
        } else {
            rest.push(s.last())
        }
    }
}

/// A copy of a stop.
pub fn copy_stop(s: &Stop) -> (r: Stop)
    ensures
        r == *s,
{
    Stop {
        id: copy_string(&s.id),
        name: copy_string(&s.name),
        lat_bits: s.lat_bits,
        lon_bits: s.lon_bits,
        quay_id: copy_opt_string(&s.quay_id),
        category: copy_opt_string(&s.category),
    }
}

/// The stops of `recents`, in order, whose id differs from `id`.
fn stops_other_than(recents: &Vec<Stop>, id: &String, limit: usize) -> (r: Vec<Stop>)
    ensures
        r@ == at_most(stops_without_id(recents@, id@), limit as nat),
{
    let mut r: Vec<Stop> = Vec::new();
    let mut i: usize = 0;
    while i < recents.len() && r.len() < limit
        invariant
            i <= recents@.len(),
            r@ == stops_without_id(recents@.take(i as int), id@),
            r@.len() <= limit,
        decreases recents@.len() - i,
    {
        assert(recents@.take(i + 1).drop_last() =~= recents@.take(i as int));
        if recents[i].id != *id {
            r.push(copy_stop(&recents[i]));
        }
        i = i + 1;
    }
    proof {
        lemma_stops_without_id_prefix(recents@, id@, i as nat);
        if i < recents@.len() {
            assert(r@.len() == limit);
        } else {
            assert(recents@.take(i as int) =~= recents@);
        }
    }
    r
}

/// Filtering a prefix gives a prefix of the filtered whole.
pub proof fn lemma_stops_without_id_prefix(s: Seq<Stop>, id: Seq<char>, k: nat)
    requires
        k <= s.len(),
    ensures
        stops_without_id(s.take(k as int), id).len() <= stops_without_id(s, id).len(),
        stops_without_id(s, id).take(stops_without_id(s.take(k as int), id).len() as int)
            == stops_without_id(s.take(k as int), id),
    decreases s.len(),
{
    if k == s.len() {
        assert(s.take(k as int) =~= s);
        assert(stops_without_id(s, id).take(stops_without_id(s, id).len() as int) =~= stops_without_id(s, id));
    } else {
        assert(s.drop_last().take(k as int) =~= s.take(k as int));
        lemma_stops_without_id_prefix(s.drop_last(), id, k);
        let a = stops_without_id(s.take(k as int), id);
        let b = stops_without_id(s.drop_last(), id);
        assert(stops_without_id(s, id).take(a.len() as int) =~= b.take(a.len() as int));
    }
}

/// Every stop kept by the filter has an id other than `id` and is one of
/// the stops of `s`.
pub proof fn lemma_stops_without_id_members(s: Seq<Stop>, id: Seq<char>)
    ensures
        stops_without_id(s, id).len() <= s.len(),
        forall|x: Stop| #[trigger] stops_without_id(s, id).contains(x) ==> s.contains(x) && x.id@ != id,
    decreases s.len(),
{
    if s.len() > 0 {
        let d = s.drop_last();
        lemma_stops_without_id_members(d, id);
        let rest = stops_without_id(d, id);
        let r = stops_without_id(s, id);
        assert forall|x: Stop| #[trigger] r.contains(x) implies s.contains(x) && x.id@ != id by {
            let j = choose|j: int| 0 <= j < r.len() && r[j] == x;
            if j < rest.len() {
                assert(rest[j] == x);
                assert(rest.contains(x));
                assert(d.contains(x));
                let k = choose|k: int| 0 <= k < d.len() && d[k] == x;
                assert(s[k] == x);
            } else {
                assert(x == s.last());
                assert(s[s.len() - 1] == x);
            }
        }
    }
}

/// Filtering out an id that no stop of `t` has leaves `t` as it is.
pub proof fn lemma_stops_without_absent_id(t: Seq<Stop>, id: Seq<char>)
    requires
        forall|i: int| 0 <= i < t.len() ==> #[trigger] t[i].id@ != id,
    ensures
        stops_without_id(t, id) == t,
    decreases t.len(),
{
    if t.len() > 0 {
        lemma_stops_without_absent_id(t.drop_last(), id);
        assert(t.drop_last().push(t.last()) =~= t);
    }
}

/// Filtering `stop` followed by `t` by the id of `stop` drops `stop` and
/// keeps the stops of `t` of other ids.
pub proof fn lemma_stops_without_id_cons(stop: Stop, t: Seq<Stop>)
    ensures
        stops_without_id(seq![stop] + t, stop.id@) == stops_without_id(t, stop.id@),
    decreases t.len(),
{
    let id = stop.id@;
    if t.len() == 0 {
        assert(seq![stop] + t =~= seq![stop]);
        assert(seq![stop].drop_last() =~= Seq::<Stop>::empty());
        assert(seq![stop].last() == stop);
        assert(stops_without_id(Seq::<Stop>::empty(), id) == Seq::<Stop>::empty());
        assert(t =~= Seq::<Stop>::empty());
        assert(stops_without_id(seq![stop], id) == stops_without_id(Seq::<Stop>::empty(), id));
    } else {
        lemma_stops_without_id_cons(stop, t.drop_last());
        assert((seq![stop] + t).drop_last() =~= seq![stop] + t.drop_last());
        assert((seq![stop] + t).last() == t.last());
    }
}

/// Filtering keeps the ids of a list apart when they were apart.
pub proof fn lemma_stops_without_id_unique(s: Seq<Stop>, id: Seq<char>)
    requires
        unique_stop_ids(s),
    ensures
        unique_stop_ids(stops_without_id(s, id)),
    decreases s.len(),
{
    if s.len() > 0 {
        let d = s.drop_last();
        assert(unique_stop_ids(d));
        lemma_stops_without_id_unique(d, id);
        lemma_stops_without_id_members(d, id);
        let rest = stops_without_id(d, id);
        if s.last().id@ != id {
            let r = rest.push(s.last());
            assert forall|i: int, j: int| 0 <= i < j < r.len() implies r[i].id@ != r[j].id@ by {
                if j == r.len() - 1 {
                    assert(rest.contains(r[i]));
                    assert(d.contains(r[i]));
                    let k = choose|k: int| 0 <= k < d.len() && d[k] == r[i];
                    assert(s[k] == r[i]);
                    assert(s[s.len() - 1] == s.last());
                } else {
                    assert(r[i] == rest[i] && r[j] == rest[j]);
                }
            }
        }
    }
}

/// Choosing a stop puts it first among the recent stops.
pub proof fn lemma_pushed_stop_comes_first(recents: Seq<Stop>, stop: Stop)
    ensures
        recents_after_push(recents, stop).len() >= 1,
        recents_after_push(recents, stop)[0] == stop,
{
}

/// After a stop is chosen, every other entry of the recent stops has another
/// id and was already among the recent stops: choosing adds only that stop.
pub proof fn lemma_push_adds_only_the_chosen_stop(recents: Seq<Stop>, stop: Stop)
    ensures
        forall|k: int| 1 <= k < recents_after_push(recents, stop).len() ==> {
            let x = #[trigger] recents_after_push(recents, stop)[k];
            &&& x.id@ != stop.id@
            &&& recents.contains(x)
        },
{
    let f = stops_without_id(recents, stop.id@);
    lemma_stops_without_id_members(recents, stop.id@);
    let all = seq![stop] + f;
    assert forall|k: int| 1 <= k < recents_after_push(recents, stop).len() implies {
        let x = #[trigger] recents_after_push(recents, stop)[k];
        &&& x.id@ != stop.id@
        &&& recents.contains(x)
    } by {
        assert(recents_after_push(recents, stop)[k] == all[k]);
        assert(all[k] == f[k - 1]);
        assert(f.contains(f[k - 1]));
    }
}

/// The recent stops never grow beyond ten.
pub proof fn lemma_recents_stay_capped(recents: Seq<Stop>, stop: Stop)
    ensures
        recents_after_push(recents, stop).len() <= MAX_RECENT_STOPS,
{
}

/// A stop is never listed twice among the recent stops: choosing a stop
/// that is already there moves it rather than adding a second entry.
pub proof fn lemma_recents_keep_ids_apart(recents: Seq<Stop>, stop: Stop)
    requires
        unique_stop_ids(recents),
    ensures
        unique_stop_ids(recents_after_push(recents, stop)),
{
    let f = stops_without_id(recents, stop.id@);
    lemma_stops_without_id_unique(recents, stop.id@);
    lemma_stops_without_id_members(recents, stop.id@);
    let all = seq![stop] + f;
    assert forall|i: int, j: int| 0 <= i < j < all.len() implies all[i].id@ != all[j].id@ by {
        if i == 0 {
            assert(all[j] == f[j - 1]);
            assert(f.contains(f[j - 1]));
        } else {
            assert(all[i] == f[i - 1] && all[j] == f[j - 1]);
        }
    }
    let r = recents_after_push(recents, stop);
    assert forall|i: int, j: int| 0 <= i < j < r.len() implies r[i].id@ != r[j].id@ by {
        assert(r[i] == all[i] && r[j] == all[j]);
    }
}

/// Choosing the same stop twice in a row leaves the recent stops as choosing
/// it once did.
pub proof fn lemma_repeated_choice_changes_nothing(recents: Seq<Stop>, stop: Stop)
    ensures
        recents_after_push(recents_after_push(recents, stop), stop) == recents_after_push(recents, stop),
{
    let id = stop.id@;
    let f = stops_without_id(recents, id);
    lemma_stops_without_id_members(recents, id);
    let q = recents_after_push(recents, stop);
    let tail = q.drop_first();
    assert(q =~= seq![stop] + tail);
    assert forall|i: int| 0 <= i < tail.len() implies #[trigger] tail[i].id@ != id by {
        assert(tail[i] == f[i]);
        assert(f.contains(f[i]));
    }
    lemma_stops_without_id_cons(stop, tail);
    lemma_stops_without_absent_id(tail, id);
    assert(seq![stop] + stops_without_id(q, id) =~= q);
}

/// Deleting the trip types with an id keeps exactly the others: a trip
/// type remains if and only if it was there and has another id.
pub proof fn lemma_deleting_keeps_exactly_other_ids(s: Seq<TripType>, id: Seq<char>)
    ensures
        trip_types_without_id(s, id).len() <= s.len(),
        forall|x: TripType| #[trigger] trip_types_without_id(s, id).contains(x) <==> (s.contains(x) && x.id@ != id),
    decreases s.len(),
{
    if s.len() > 0 {
        let d = s.drop_last();
        lemma_deleting_keeps_exactly_other_ids(d, id);
        let rest = trip_types_without_id(d, id);
        let r = trip_types_without_id(s, id);
        assert forall|x: TripType| #[trigger] r.contains(x) <==> (s.contains(x) && x.id@ != id) by {
            if r.contains(x) {
                let j = choose|j: int| 0 <= j < r.len() && r[j] == x;
                if j < rest.len() {
                    assert(rest[j] == x);
                    assert(rest.contains(x));
                    let m = choose|m: int| 0 <= m < d.len() && d[m] == x;
                    assert(s[m] == x);
                } else {
                    assert(x == s.last());
                    assert(s[s.len() - 1] == x);
                }
            }
            if s.contains(x) && x.id@ != id {
                let m = choose|m: int| 0 <= m < s.len() && s[m] == x;
                if m < s.len() - 1 {
                    assert(d[m] == x);
                    assert(d.contains(x));
                    assert(rest.contains(x));
                    let j = choose|j: int| 0 <= j < rest.len() && rest[j] == x;
                    if s.last().id@ != id {
                        assert(r[j] == x);
                    }
                } else {
                    assert(s.last() == x);
                    assert(r[r.len() - 1] == x);
                }
            }
        }
    }
}

/// The recent stops offered in a field are exactly the recent stops other
/// than the one chosen in the other field.
pub proof fn lemma_offered_recents_are_the_others(recents: Seq<Stop>, opposite: Option<Stop>)
    ensures
        forall|x: Stop| #[trigger] offered_recents(recents, opposite).contains(x)
            <==> (recents.contains(x) && (opposite matches Some(o) ==> x.id@ != o.id@)),
{
    if let Some(o) = opposite {
        lemma_stops_without_id_members(recents, o.id@);
        lemma_stops_without_id_complete(recents, o.id@);
    }
}

/// Filtering by id keeps every stop of another id.
proof fn lemma_stops_without_id_complete(s: Seq<Stop>, id: Seq<char>)
    ensures
        forall|x: Stop| s.contains(x) && x.id@ != id ==> #[trigger] stops_without_id(s, id).contains(x),
    decreases s.len(),
{
    if s.len() > 0 {
        let d = s.drop_last();
        lemma_stops_without_id_complete(d, id);
        let rest = stops_without_id(d, id);
        let r = stops_without_id(s, id);
        assert forall|x: Stop| s.contains(x) && x.id@ != id implies #[trigger] r.contains(x) by {
            let m = choose|m: int| 0 <= m < s.len() && s[m] == x;
            if m < s.len() - 1 {
                assert(d[m] == x);
                assert(d.contains(x));
                assert(rest.contains(x));
                let j = choose|j: int| 0 <= j < rest.len() && rest[j] == x;
                if s.last().id@ != id {
                    assert(r[j] == x);
                }
            } else {
                assert(s.last() == x);
                assert(r[r.len() - 1] == x);
            }
        }
    }
}

impl AppData {
    /// Adds a stop to the recent stops cache: it moves to the top if it was
    /// already there, and the cache keeps at most ten stops.
    pub fn push_recent_stop(&mut self, stop: &Stop)
        ensures
            final(self).recent_stops@ == recents_after_push(old(self).recent_stops@, *stop),
            final(self).version == old(self).version,
            final(self).trip_types == old(self).trip_types,
            final(self).time_periods == old(self).time_periods,
            final(self).min_transfer_minutes == old(self).min_transfer_minutes,
    {
        let mut fresh: Vec<Stop> = Vec::new();
        fresh.push(copy_stop(stop));
        let others = stops_other_than(&self.recent_stops, &stop.id, MAX_RECENT_STOPS - 1);
        let mut i: usize = 0;
        while i < others.len()
            invariant
                i <= others@.len(),
                others@.len() <= MAX_RECENT_STOPS - 1,
                fresh@ == seq![*stop] + others@.take(i as int),
            decreases others@.len() - i,
        {
            fresh.push(copy_stop(&others[i]));
            assert(others@.take(i + 1) =~= others@.take(i as int).push(others@[i as int]));
            i = i + 1;
        }
        proof {
            let all = seq![*stop] + stops_without_id(old(self).recent_stops@, stop.id@);
            assert(others@.take(i as int) =~= others@);
            assert(fresh@ =~= at_most(all, MAX_RECENT_STOPS as nat));
        }
        self.recent_stops = fresh;
    }

    /// Deletes the saved trip types with the given id.
    pub fn remove_trip_type(&mut self, id: &str)
        ensures
            final(self).trip_types@ == trip_types_without_id(old(self).trip_types@, id@),
            final(self).version == old(self).version,
            final(self).recent_stops == old(self).recent_stops,
            final(self).time_periods == old(self).time_periods,
            final(self).min_transfer_minutes == old(self).min_transfer_minutes,
    {
        let key = id.to_owned();
        let mut old_types: Vec<TripType> = Vec::new();
        std::mem::swap(&mut old_types, &mut self.trip_types);
        let ghost all = old_types@;
        let mut kept: Vec<TripType> = Vec::new();
        for t in it: old_types
            invariant
                it.seq() == all,
                kept@ == trip_types_without_id(all.take(it.index() as int), key@),
        {
            let ghost i = it.index() as int;
            assert(all.take(i + 1).drop_last() =~= all.take(i));
            assert(all[i] == t);
            if t.id != key {
                kept.push(t);
            }
        }
        assert(all.take(all.len() as int) =~= all);
        self.trip_types = kept;
    }

    /// Adds a saved trip type at the end of the list.
    pub fn add_trip_type(&mut self, trip_type: TripType)
        ensures
            final(self).trip_types@ == old(self).trip_types@.push(trip_type),
            final(self).version == old(self).version,
            final(self).recent_stops == old(self).recent_stops,
            final(self).time_periods == old(self).time_periods,
            final(self).min_transfer_minutes == old(self).min_transfer_minutes,
    {
        self.trip_types.push(trip_type);
    }
}

/// The id given to a trip type saved at `now_ms` milliseconds since the epoch.
pub open spec fn trip_type_id(now_ms: nat) -> Seq<char> {
    "tt-"@ + decimal(now_ms)
}

/// The trip type that saving would create: only when both stops are chosen
/// and the name is not empty.
pub fn new_trip_type(
    name: String,
    icon: String,
    from_stop: Option<Stop>,
    to_stop: Option<Stop>,
    now_ms: u64,
) -> (r: Option<TripType>)
    ensures
        (from_stop is Some && to_stop is Some && name@.len() > 0) <==> r is Some,
        r matches Some(t) ==> {
            &&& t.id@ == trip_type_id(now_ms as nat)
            &&& t.name@ == name@
            &&& t.icon@ == icon@
            &&& t.from_stop == from_stop->0
            &&& t.to_stop == to_stop->0
            &&& t.line_preferences@.len() == 0
        },
{
    match (from_stop, to_stop) {
        (Some(from), Some(to)) => {
            if name.as_str().is_empty() {
                None
            } else {
                let mut id = String::from_str("tt-");
                push_decimal(&mut id, now_ms);
                Some(TripType {
                    id,
                    name,
                    icon,
                    from_stop: from,
                    to_stop: to,
                    line_preferences: Vec::new(),
                })
            }
        },
        _ => None,
    }
}

/// The recent stops to offer, without the stop chosen in the other field.
pub open spec fn offered_recents(recents: Seq<Stop>, opposite: Option<Stop>) -> Seq<Stop> {
    match opposite {
        Some(o) => stops_without_id(recents, o.id@),
        None => recents,
    }
}

/// The recent stops to offer, without the stop chosen in the other field.
pub fn filter_recents(recents: &Vec<Stop>, opposite: &Option<Stop>) -> (r: Vec<Stop>)
    ensures
        r@ == offered_recents(recents@, *opposite),
{
    match opposite {
        Some(o) => {
            proof {
                lemma_stops_without_id_members(recents@, o.id@);
            }
            stops_other_than(recents, &o.id, recents.len())
        },
        None => {
            let mut r: Vec<Stop> = Vec::new();
            let mut i: usize = 0;
            while i < recents.len()
                invariant
                    i <= recents@.len(),
                    r@ == recents@.take(i as int),
                decreases recents@.len() - i,
            {
                r.push(copy_stop(&recents[i]));
                assert(recents@.take(i + 1) =~= recents@.take(i as int).push(recents@[i as int]));
                i = i + 1;
            }
            assert(recents@.take(i as int) =~= recents@);
            r
        },
    }
}

} // verus!
