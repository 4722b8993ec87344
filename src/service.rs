use vstd::prelude::*;
use crate::backoff::{next_delay, Backoff, MIN_DELAY_SECS};
use crate::buffer::{fresh_states, apply_update, key, TelemetryBuffer, UAVState};
use crate::callsign::{resolves, CallsignService};
use crate::backoff::MAX_DELAY_SECS;
use crate::buffer::keys_unique;
use crate::telemetry::{option_view, projects, Telemetry, UavStatus, DEFAULT_CALL_SIGN};

verus! {

/// Units not updated for this long are dropped before a flush, in
/// milliseconds.
pub const STALE_AFTER_MILLIS: u64 = 30_000;

/// The outcome of one poll of the inbound transport.
pub enum PollEvent {
    /// A position report arrived and was decoded.
    Telemetry(Telemetry),
    /// A payload arrived that could not be decoded; it is discarded.
    Malformed,
    /// Some other transport event arrived.
    Other,
    /// The poll failed.
    Error,
}

/// What the loop that drives the service does next.
#[derive(Debug, PartialEq, Eq, Structural)]
pub enum Action {
    /// Poll again.
    Continue,
    /// Sleep this many seconds, then poll again.
    Sleep(u64),
}

/// `s` is the status that a flush stamped with `wall_millis` produces for
/// state `st`: its course is computed by `course_of` from the previous and
/// current reports, or is the reported heading's magnitude when there is no
/// previous report; its call sign is the unit's entry in `cache`, the cache
/// as the flush left it, or the default call sign when the unit has none.
pub open spec fn flushed_status<C: Fn(&Telemetry, &Telemetry) -> u64>(
    s: UavStatus,
    st: UAVState,
    course_of: C,
    cache: Map<Seq<char>, Seq<char>>,
    wall_millis: i64,
) -> bool {
    &&& s.call_sign@ == if cache.contains_key(key(st)) {
        cache[key(st)]
    } else {
        DEFAULT_CALL_SIGN@
    }
    &&& s.last_update_millis == wall_millis
    &&& match st.previous {
        Some(p) => {
            &&& course_of.ensures((&p, &st.current), s.course)
            &&& projects(s, st.current, Some(s.course), Some(s.call_sign@))
        },
        None => projects(s, st.current, None, Some(s.call_sign@)),
    }
}

/// Identifiers of the units of `s` that `cache` does not hold, in order: the
/// store reads that a flush over `s` makes.
pub open spec fn uncached_keys(s: Seq<UAVState>, cache: Map<Seq<char>, Seq<char>>) -> Seq<Seq<char>>
    decreases s.len(),
{
    if s.len() == 0 {
        Seq::empty()
    } else if cache.contains_key(key(s.last())) {
        uncached_keys(s.drop_last(), cache)
    } else {
        uncached_keys(s.drop_last(), cache).push(key(s.last()))
    }
}

/// Decision state of the ingestion and flush loop: the state store, the
/// call-sign resolver and the reconnect backoff.
pub struct TelemetryService {
    buffer: TelemetryBuffer,
    callsign_service: CallsignService,
    backoff: Backoff,
}

impl TelemetryService {
    pub closed spec fn units(&self) -> Seq<UAVState> {
        self.buffer@
    }

    pub closed spec fn delay(&self) -> nat {
        self.backoff.delay_spec()
    }

    pub closed spec fn callsigns(&self) -> CallsignService {
        self.callsign_service
    }

    pub closed spec fn wf(&self) -> bool {
        self.buffer.wf() && self.backoff.wf()
    }

    pub fn new(callsign_service: CallsignService) -> (r: TelemetryService)
        ensures
            r.wf(),
            r.units() == Seq::<UAVState>::empty(),
            r.delay() == MIN_DELAY_SECS,
            MIN_DELAY_SECS <= r.delay() <= MAX_DELAY_SECS,
            r.callsigns() == callsign_service,
    {
        TelemetryService { buffer: TelemetryBuffer::new(), callsign_service, backoff: Backoff::new() }
    }

    /// Takes one poll outcome observed at `now`: a decoded report updates the
    /// state store; any successful poll resets the backoff; a failed poll
    /// asks for a sleep of the current delay and doubles it up to its ceiling.
    pub fn handle_event(&mut self, event: PollEvent, now: u64) -> (r: Action)
        requires
            old(self).wf(),
        ensures
            final(self).wf(),
            MIN_DELAY_SECS <= final(self).delay() <= MAX_DELAY_SECS,
            final(self).callsigns() == old(self).callsigns(),
            match event {
                PollEvent::Telemetry(t) => {
                    &&& final(self).units() == apply_update(old(self).units(), t, now)
                    &&& final(self).delay() == MIN_DELAY_SECS
                    &&& r == Action::Continue
                },
                PollEvent::Error => {
                    &&& final(self).units() == old(self).units()
                    &&& final(self).delay() == next_delay(old(self).delay())
                    &&& r == Action::Sleep(old(self).delay() as u64)
                },
                _ => {
                    &&& final(self).units() == old(self).units()
                    &&& final(self).delay() == MIN_DELAY_SECS
                    &&& r == Action::Continue
                },
            },
    {
        match event {
            PollEvent::Telemetry(t) => {
                self.buffer.update(t, now);
                self.backoff.on_success();
                Action::Continue
            },
            PollEvent::Error => Action::Sleep(self.backoff.on_failure()),
            _ => {
                self.backoff.on_success();
                Action::Continue
            },
        }
    }

    /// One flush cycle at `now` on the monotonic clock, stamped with
    /// `wall_millis` since the Unix epoch: drops stale units, then projects a
    /// status for each remaining unit, with its course from `course_of` when
    /// it has a previous report and its call sign resolved once. Returns the
    /// batch to dispatch, or none when no unit remains.
    pub fn batch_process<C: Fn(&Telemetry, &Telemetry) -> u64>(
        &mut self,
        now: u64,
        wall_millis: i64,
        course_of: C,
    ) -> (r: Option<Vec<UavStatus>>)
        requires
            old(self).wf(),
            forall|a: &Telemetry, b: &Telemetry| course_of.requires((a, b)),
        ensures
            final(self).wf(),
            final(self).delay() == old(self).delay(),
            final(self).units() == fresh_states(old(self).units(), now, STALE_AFTER_MILLIS),
            old(self).callsigns().cache_view().submap_of(final(self).callsigns().cache_view()),
            final(self).callsigns().store_lookups() == old(self).callsigns().store_lookups()
                + uncached_keys(final(self).units(), old(self).callsigns().cache_view()),
            r is None <==> final(self).units().len() == 0,
            r matches Some(v) ==> {
                &&& v@.len() == final(self).units().len()
                &&& forall|i: int|
                    0 <= i < v@.len() ==> flushed_status(
                        #[trigger] v@[i],
                        final(self).units()[i],
                        course_of,
                        final(self).callsigns().cache_view(),
                        wall_millis,
                    )
            },
    {
        self.buffer.cleanup_stale_uavs(STALE_AFTER_MILLIS, now);
        let states = self.buffer.get_all_uavs();
        let ghost cache0 = self.callsign_service.cache_view();
        let ghost lookups0 = self.callsign_service.store_lookups();
        let mut statuses: Vec<UavStatus> = Vec::new();
        let mut i: usize = 0;
        while i < states.len()
            invariant
                i <= states@.len(),
                states@ == self.buffer@,
                self.buffer.wf(),
                self.backoff == old(self).backoff,
                statuses@.len() == i,
                cache0.submap_of(self.callsign_service.cache_view()),
                self.callsign_service.store_lookups() == lookups0 + uncached_keys(
                    states@.subrange(0, i as int),
                    cache0,
                ),
                forall|j: int|
                    i <= j < states@.len() ==> (cache0.contains_key(key(#[trigger] states@[j]))
                        <==> self.callsign_service.cache_view().contains_key(key(states@[j]))),
                forall|a: &Telemetry, b: &Telemetry| course_of.requires((a, b)),
                forall|j: int|
                    0 <= j < i ==> flushed_status(
                        #[trigger] statuses@[j],
                        states@[j],
                        course_of,
                        self.callsign_service.cache_view(),
                        wall_millis,
                    ),
            decreases states@.len() - i,
        {
            let st = &states[i];
            let course = match &st.previous {
                Some(p) => Some(course_of(p, &st.current)),
                None => None,
            };
            let ghost before = self.callsign_service;
            let call_sign = self.callsign_service.get_callsign(st.current.sn.as_str());
            let ghost cs = option_view(call_sign);
            let ghost after = self.callsign_service.cache_view();
            let ghost k = key(*st);
            assert(resolves(before, self.callsign_service, k, cs));
            proof {
                assert(keys_unique(states@));
                assert(states@.subrange(0, i + 1).drop_last() =~= states@.subrange(0, i as int));
                assert(states@.subrange(0, i + 1).last() == states@[i as int]);
                assert forall|x: Seq<char>| x != k implies (#[trigger] after.contains_key(x)
                    <==> before.cache_view().contains_key(x)) && (after.contains_key(x)
                    ==> after[x] == before.cache_view()[x]) by {}
                if !before.cache_view().contains_key(k) && cs is Some {
                    assert forall|x: Seq<char>| #[trigger] cache0.contains_key(x) implies after.contains_key(x)
                        && after[x] == cache0[x] by {
                        assert(before.cache_view().contains_key(x));
                    }
                }
                assert forall|j: int| 0 <= j < i implies flushed_status(
                    #[trigger] statuses@[j],
                    states@[j],
                    course_of,
                    after,
                    wall_millis,
                ) by {
                    assert(key(states@[j]) != key(states@[i as int]));
                }
                assert forall|j: int| i + 1 <= j < states@.len() implies (cache0.contains_key(
                    key(#[trigger] states@[j]),
                ) <==> after.contains_key(key(states@[j]))) by {
                    assert(key(states@[j]) != key(states@[i as int]));
                }
            }
            let status = UavStatus::from_telemetry(&st.current, course, call_sign, wall_millis);
            proof {
                if st.previous is Some {
                    let c = course->Some_0;
                    assert(projects(status, st.current, Some(c), cs));
                    assert(course_of.ensures((&st.previous->Some_0, &st.current), c));
                }
            }
            assert(flushed_status(status, states@[i as int], course_of, after, wall_millis));
            statuses.push(status);
            i = i + 1;
        }
        assert(states@.subrange(0, states@.len() as int) =~= states@);
        if statuses.len() == 0 {
            None
        } else {
            Some(statuses)
        }
    }
}

} // verus!
