//! When a background fetch is started, and what its result means.
//!
//! A fetch runs on a worker and reports through a channel. This module holds
//! the state around it: whether one is in flight, and when the last one ended.
use vstd::prelude::*;
use vstd::string::*;

verus! {

/// What a look at the worker's channel found.
#[derive(Debug)]
pub enum FetchEvent<T> {
    /// The worker is still running.
    Pending,
    /// The worker sent its result.
    Done(Result<T, String>),
    /// The worker ended without sending anything.
    Died,
}

/// A fetch that runs at most once per interval. Times are nanoseconds of a
/// clock that never goes back.
#[derive(Debug, Clone, Copy, PartialEq, Eq, Structural)]
pub struct IntervalFetch {
    interval: u64,
    in_flight: bool,
    last_fetch: Option<u64>,
}

/// The state of a fetch.
pub struct FetchView {
    pub interval: u64,
    pub in_flight: bool,
    /// When the last fetch ended; `None` before the first, or when the next
    /// one is forced.
    pub last_fetch: Option<u64>,
}

impl View for IntervalFetch {
    type V = FetchView;

    closed spec fn view(&self) -> FetchView {
        FetchView { interval: self.interval, in_flight: self.in_flight, last_fetch: self.last_fetch }
    }
}

impl FetchView {
    /// A fetch is due at once the first time, then a full interval after the
    /// last one ended.
    pub open spec fn due(self, now: u64) -> bool {
        match self.last_fetch {
            None => true,
            Some(t) => (if now >= t {
                now - t
            } else {
                0
            }) >= self.interval,
        }
    }

    /// A fetch starts when one is due and none is in flight.
    pub open spec fn starts(self, now: u64) -> bool {
        !self.in_flight && self.due(now)
    }

    /// The state after a fetch was offered to start.
    pub open spec fn offered(self, now: u64) -> FetchView {
        FetchView { in_flight: self.in_flight || self.starts(now), ..self }
    }

    /// The state after the next fetch was forced.
    pub open spec fn forced(self) -> FetchView {
        FetchView { last_fetch: None, ..self }
    }

    /// The state after a look at the worker.
    pub open spec fn polled<T>(self, event: FetchEvent<T>, now: u64) -> FetchView {
        if self.in_flight && !(event is Pending) {
            FetchView { in_flight: false, last_fetch: Some(now), ..self }
        } else {
            self
        }
    }
}

impl IntervalFetch {
    /// A fetch for every `interval`, not started yet.
    pub fn new(interval: u64) -> (f: IntervalFetch)
        ensures
            f@ == (FetchView { interval, in_flight: false, last_fetch: None }),
    {
        IntervalFetch { interval, in_flight: false, last_fetch: None }
    }

    /// Make the next fetch due at once. One in flight is not touched.
    pub fn force(&mut self)
        ensures
            final(self)@ == old(self)@.forced(),
    {
        self.last_fetch = None;
    }

    /// Whether a worker is to be started now.
    pub fn maybe_start(&mut self, now: u64) -> (start: bool)
        ensures
            start == old(self)@.starts(now),
            final(self)@ == old(self)@.offered(now),
    {
        if self.in_flight {
            return false;
        }
        let due = match self.last_fetch {
            None => true,
            Some(t) => if now >= t {
                now - t >= self.interval
            } else {
                self.interval == 0
            },
        };
        if due {
            self.in_flight = true;
        }
        due
    }

    /// The result of a fetch that ended, given what the channel held. A worker
    /// that died counts as an error. Either way the next fetch waits a full
    /// interval.
    pub fn poll<T>(&mut self, event: FetchEvent<T>, now: u64) -> (r: Option<Result<T, String>>)
        ensures
            final(self)@ == old(self)@.polled(event, now),
            !old(self)@.in_flight ==> r is None,
            old(self)@.in_flight ==> match event {
                FetchEvent::Pending => r is None,
                FetchEvent::Done(result) => r == Some(result),
                FetchEvent::Died => r matches Some(Err(e)) && e@ == "fetch worker exited"@,
            },
    {
        if !self.in_flight {
            return None;
        }
        match event {
            FetchEvent::Pending => None,
            FetchEvent::Done(result) => {
                self.in_flight = false;
                self.last_fetch = Some(now);
                Some(result)
            },
            FetchEvent::Died => {
                self.in_flight = false;
                self.last_fetch = Some(now);
                Some(Err("fetch worker exited".to_owned()))
            },
        }
    }
}

/// The first offer starts a fetch.
pub proof fn law_first_fetch_is_immediate(interval: u64, now: u64)
    ensures
        (FetchView { interval, in_flight: false, last_fetch: None }).starts(now),
{
}

/// After a fetch ended, well or badly, no other starts before a full interval
/// has passed.
pub proof fn law_interval_gates_the_next_fetch<T>(f: FetchView, event: FetchEvent<T>, ended: u64, now: u64)
    requires
        f.in_flight,
        !(event is Pending),
        ended <= now,
    ensures
        f.polled(event, ended).starts(now) <==> now - ended >= f.interval,
{
}

/// While a fetch is in flight no other starts, forced or not.
pub proof fn law_one_fetch_in_flight(f: FetchView, now: u64)
    requires
        f.in_flight,
    ensures
        !f.starts(now),
        !f.forced().starts(now),
{
}

/// A forced fetch starts at once, whatever the interval.
pub proof fn law_force_ignores_the_interval(f: FetchView, now: u64)
    requires
        !f.in_flight,
    ensures
        f.forced().starts(now),
{
}

/// When a fetch starts, and what starting, forcing and ending change: starting only
/// that one is in flight, forcing only when the last one ended, and ending both.
pub proof fn law_states_of_a_fetch<T>(f: FetchView, event: FetchEvent<T>, now: u64)
    ensures
        f.in_flight ==> !f.starts(now),
        !f.in_flight && f.last_fetch is None ==> f.starts(now),
        !f.in_flight && f.last_fetch is Some && now >= f.last_fetch->0 ==> (f.starts(now) <==> now - f.last_fetch->0
            >= f.interval),
        f.offered(now).in_flight <==> f.in_flight || f.starts(now),
        f.offered(now).last_fetch == f.last_fetch,
        f.offered(now).interval == f.interval,
        f.forced().last_fetch is None,
        f.forced().in_flight == f.in_flight,
        f.forced().interval == f.interval,
        event is Pending || !f.in_flight ==> f.polled(event, now) == f,
        !(event is Pending) && f.in_flight ==> !f.polled(event, now).in_flight && f.polled(event, now).last_fetch
            == Some(now) && f.polled(event, now).interval == f.interval,
{
}

} // verus!
