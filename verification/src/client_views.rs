use vstd::prelude::*;

use std::collections::HashMap;
use vstd::std_specs::hash::group_hash_axioms;

use crate::ids::TimelineId;

verus! {

/// A half-open range of timeline ticks, `start..end`.
#[derive(Clone, Copy, Debug, PartialEq, Eq, Structural)]
pub struct ViewRange {
    pub start: i64,
    pub end: i64,
}

/// A watched range matches the filter: any range when there is none, else
/// one that overlaps it.
pub open spec fn matches_filter(v: ViewRange, filter: Option<ViewRange>) -> bool {
    match filter {
        Some(q) => overlaps(v, q),
        None => true,
    }
}

/// Two ranges share a tick: `a.start < b.end && b.start < a.end`.
pub open spec fn overlaps(a: ViewRange, b: ViewRange) -> bool {
    a.start < b.end && b.start < a.end
}

/// The range of all ticks, `i64::MIN..i64::MAX`, which a client is given for
/// each timeline when it opens a project.
pub fn full_range() -> (r: ViewRange)
    ensures
        r == (ViewRange { start: i64::MIN, end: i64::MAX }),
{
    ViewRange { start: i64::MIN, end: i64::MAX }
}

pub fn ranges_overlap(a: &ViewRange, b: &ViewRange) -> (r: bool)
    ensures
        r == overlaps(*a, *b),
{
    a.start < b.end && b.start < a.end
}

/// For each connected client, the range of each timeline it shows; the
/// server sends a change only to the clients that watch it.
pub struct ClientViews {
    views: HashMap<u32, HashMap<TimelineId, ViewRange>>,
}

impl ClientViews {
    /// The range of timeline `t` that client `c` watches, if any.
    pub closed spec fn range_of(&self, c: u32, t: TimelineId) -> Option<ViewRange> {
        if self.views@.contains_key(c) && self.views@[c]@.contains_key(t) {
            Some(self.views@[c]@[t])
        } else {
            None
        }
    }

    /// Client `c` has an entry (possibly with no timeline in it).
    pub closed spec fn has_client(&self, c: u32) -> bool {
        self.views@.contains_key(c)
    }

    pub fn new() -> (r: Self)
        ensures
            forall|c: u32| !r.has_client(c),
            forall|c: u32, t: TimelineId| r.range_of(c, t) is None,
    {
        ClientViews { views: HashMap::new() }
    }

    /// Records that client `client_id` shows `range` of timeline `timeline_id`.
    pub fn update_client_view(&mut self, client_id: u32, timeline_id: TimelineId, range: ViewRange)
        ensures
            forall|c: u32| #[trigger]
                final(self).has_client(c) <==> (old(self).has_client(c) || c == client_id),
            forall|c: u32, t: TimelineId| #[trigger]
                final(self).range_of(c, t) == if c == client_id && t == timeline_id {
                    Some(range)
                } else {
                    old(self).range_of(c, t)
                },
    {
        broadcast use group_hash_axioms;

        let ghost before = self.views@;
        let mut timelines = match self.views.remove(&client_id) {
            Some(m) => m,
            None => HashMap::new(),
        };
        let ghost inner_before = timelines@;
        timelines.insert(timeline_id, range);
        self.views.insert(client_id, timelines);
        proof {
            assert(self.views@ == before.insert(client_id, timelines));
            assert(before.contains_key(client_id) ==> inner_before == before[client_id]@);
            assert(!before.contains_key(client_id) ==> inner_before == Map::<TimelineId, ViewRange>::empty());
            assert(timelines@ == inner_before.insert(timeline_id, range));
        }
    }

    /// The clients that watch timeline `timeline_id` with a range that
    /// matches `filter`, each once.
    fn collect_clients(&self, timeline_id: TimelineId, filter: Option<ViewRange>) -> (r: Vec<u32>)
        ensures
            r@.no_duplicates(),
            forall|c: u32| #[trigger]
                r@.contains(c) <==> (self.range_of(c, timeline_id) matches Some(v) && matches_filter(v, filter)),
    {
        broadcast use group_hash_axioms;

        let ghost m = self.views@;
        let ghost mut seen: Set<u32> = Set::empty();
        let mut r: Vec<u32> = Vec::new();
        for entry in it: self.views.iter()
            invariant
                m == self.views@,
                m.dom().finite(),
                it.seq().len() == m.dom().len(),
                it.seq().no_duplicates(),
                forall|j: int| 0 <= j < it.seq().len() ==> m.contains_key(*#[trigger] it.seq()[j].0)
                    && m[*it.seq()[j].0] == *it.seq()[j].1,
                seen.finite(),
                seen.len() == it.index(),
                seen.subset_of(m.dom()),
                forall|c: u32| #[trigger] seen.contains(c) ==> exists|j: int|
                    0 <= j < it.index() && *it.seq()[j].0 == c,
                r@.no_duplicates(),
                forall|c: u32| #[trigger] r@.contains(c) <==> (seen.contains(c) && (self.range_of(
                    c,
                    timeline_id,
                ) matches Some(v) && matches_filter(v, filter))),
        {
            let (client_id, timelines) = entry;
            let ghost idx = it.index();
            proof {
                assert(*client_id == *it.seq()[idx].0);
                assert(m.contains_key(*client_id) && m[*client_id] == *timelines);
                assert(!seen.contains(*client_id)) by {
                    if seen.contains(*client_id) {
                        let j = choose|j: int| 0 <= j < idx && *it.seq()[j].0 == *client_id;
                        assert(m[*it.seq()[j].0] == *it.seq()[j].1);
                        assert(it.seq()[j] == it.seq()[idx]);
                    }
                }
            }
            let ghost prev_r = r@;
            match timelines.get(&timeline_id) {
                Some(view_range) => {
                    proof {
                        assert(self.range_of(*client_id, timeline_id) == Some(*view_range));
                    }
                    let keep = match filter {
                        Some(q) => ranges_overlap(view_range, &q),
                        None => true,
                    };
                    proof {
                        assert(keep == matches_filter(*view_range, filter));
                    }
                    if keep {
                        proof {
                            assert(!r@.contains(*client_id));
                        }
                        r.push(*client_id);
                    }
                },
                None => {
                    proof {
                        assert(self.range_of(*client_id, timeline_id) is None);
                    }
                },
            }
            proof {
                let c0 = *client_id;
                let prev = seen;
                seen = seen.insert(c0);
                assert forall|c: u32| #[trigger] r@.contains(c) <==> (seen.contains(c) && (self.range_of(
                    c,
                    timeline_id,
                ) matches Some(v) && matches_filter(v, filter))) by {
                    if c != c0 {
                        if r@.contains(c) {
                            let k = choose|k: int| 0 <= k < r@.len() && r@[k] == c;
                            assert(k < prev_r.len() && prev_r[k] == c);
                        }
                        if prev_r.contains(c) {
                            let k = choose|k: int| 0 <= k < prev_r.len() && prev_r[k] == c;
                            assert(r@[k] == c);
                        }
                    } else if r@.len() > prev_r.len() {
                        assert(r@[prev_r.len() as int] == c);
                    }
                }
                assert forall|c: u32| #[trigger] seen.contains(c) implies exists|j: int|
                    0 <= j < idx + 1 && *it.seq()[j].0 == c by {
                    if c == c0 {
                        assert(*it.seq()[idx].0 == c);
                    } else {
                        assert(prev.contains(c));
                        let j = choose|j: int| 0 <= j < idx && *it.seq()[j].0 == c;
                        assert(0 <= j < idx + 1 && *it.seq()[j].0 == c);
                    }
                }
            }
        }
        proof {
            vstd::set_lib::lemma_subset_equality(seen, m.dom());
        }
        r
    }

    /// The clients whose watched range of timeline `timeline_id` overlaps
    /// `position_range`, each once.
    pub fn clients_watching_in(&self, timeline_id: TimelineId, position_range: &ViewRange) -> (r:
        Vec<u32>)
        ensures
            r@.no_duplicates(),
            forall|c: u32| #[trigger]
                r@.contains(c) <==> (self.range_of(c, timeline_id) matches Some(v) && overlaps(
                    v,
                    *position_range,
                )),
    {
        self.collect_clients(timeline_id, Some(*position_range))
    }

    /// The clients that watch timeline `timeline_id`, whatever the range, each once.
    pub fn clients_watching_timeline(&self, timeline_id: TimelineId) -> (r: Vec<u32>)
        ensures
            r@.no_duplicates(),
            forall|c: u32| #[trigger] r@.contains(c) <==> self.range_of(c, timeline_id) is Some,
    {
        self.collect_clients(timeline_id, None)
    }

    /// Forgets everything client `client_id` watches.
    pub fn remove_client_view(&mut self, client_id: u32)
        ensures
            forall|c: u32| #[trigger]
                final(self).has_client(c) <==> (old(self).has_client(c) && c != client_id),
            forall|c: u32, t: TimelineId| #[trigger]
                final(self).range_of(c, t) == if c == client_id {
                    None
                } else {
                    old(self).range_of(c, t)
                },
    {
        broadcast use group_hash_axioms;

        self.views.remove(&client_id);
    }
}

} // verus!
