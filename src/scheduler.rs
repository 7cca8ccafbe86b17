use vstd::prelude::*;

use crate::config::TimerConfig;

verus! {

/// The longest timer duration, in seconds, whose length in milliseconds fits in an `i64`.
pub const MAX_DURATION_SECS: u64 = 9_223_372_036_854_775;

/// What a timer asks of its caller next. Instants are milliseconds since the Unix epoch.
#[derive(Debug, PartialEq, Eq, Structural)]
pub enum TimerAction {
    /// Wait until the instant, then switch the timer's mode on.
    EnableAt(i64),
    /// Wait until the instant, then switch the timer's mode off.
    DisableAt(i64),
    /// The schedule has no further occurrence.
    Finished,
}

/// Why a timer cannot go on.
#[derive(Debug, PartialEq, Eq, Structural)]
pub enum ScheduleError {
    /// An instant of the schedule lies beyond the range of instants.
    OutOfRange,
}

/// A run that starts at `start` is switched off at its end unless the next run starts no later
/// than that end: overlapping and back-to-back runs merge into one.
pub open spec fn disable_due(start: int, next: Option<i64>, duration: int) -> bool {
    match next {
        Some(n) => start + duration < n,
        None => true,
    }
}

/// What one occurrence asks for, given the occurrence after it.
pub open spec fn occurrence_actions(start: i64, next: Option<i64>, duration: int) -> Seq<TimerAction> {
    if disable_due(start as int, next, duration) {
        seq![TimerAction::EnableAt(start), TimerAction::DisableAt((start + duration) as i64)]
    } else {
        seq![TimerAction::EnableAt(start)]
    }
}

/// The actions for a run of successive occurrences, the last of the schedule last.
pub open spec fn plan(starts: Seq<i64>, duration: int) -> Seq<TimerAction>
    decreases starts.len(),
{
    if starts.len() == 0 {
        seq![]
    } else {
        let next = if starts.len() > 1 {
            Some(starts[1])
        } else {
            None
        };
        occurrence_actions(starts[0], next, duration) + plan(starts.drop_first(), duration)
    }
}

/// How long to wait from `now` until `target`: nothing once `target` has passed.
pub open spec fn wait_ms(target: int, now: int) -> int {
    if target <= now {
        0
    } else {
        target - now
    }
}

/// The latest instant at which a schedule is searched: one second later, read in any time
/// zone, still lies well inside the range of calendar dates.
pub const MAX_INSTANT_MS: i64 = 8_000_000_000_000_000;

/// The earliest instant at which a schedule is searched, with the same margin.
pub const MIN_INSTANT_MS: i64 = -8_000_000_000_000_000;

/// Relies on cron's `Schedule::after` and its iterator's `next`: the first occurrence of
/// `schedule` that lies at least one whole second after the instant `after`, read in the
/// machine's local time zone. What it returns depends on that time zone, so nothing is promised
/// of it. Near the ends of chrono's date range the search panics, hence the bounds.
#[verifier::external_body]
fn occurrence_after(schedule: &cron::Schedule, after: i64) -> (r: Option<i64>)
    requires
        MIN_INSTANT_MS <= after <= MAX_INSTANT_MS,
{
    match chrono::DateTime::from_timestamp_millis(after) {
        Some(t) => match schedule.after(&t.with_timezone(&chrono::Local)).next() {
            Some(n) => Some(n.timestamp_millis()),
            None => None,
        },
        None => None,
    }
}

/// How long to wait, in milliseconds, from `now` until `target`; nothing when `target` has
/// already passed.
pub fn delay_until(target: i64, now: i64) -> (r: u64)
    ensures
        r == wait_ms(target as int, now as int),
{
    if target <= now {
        0
    } else {
        (target as i128 - now as i128) as u64
    }
}

/// A timer: the mode it switches, its schedule and run length, and where it stands in the
/// schedule.
pub struct Timer {
    mode: String,
    schedule: cron::Schedule,
    duration: i64,
    upcoming: Option<i64>,
    pending_stop: Option<i64>,
    /// The instant after which the schedule was last searched.
    queried: Ghost<Option<i64>>,
}

/// The lookback instant of a timer started at `now`: the schedule is searched from one run
/// length earlier, that instant included.
pub open spec fn lookback(now: int, duration: int) -> int {
    now - duration
}

impl Timer {
    pub closed spec fn mode_view(&self) -> Seq<char> {
        self.mode@
    }

    pub closed spec fn schedule_view(&self) -> cron::Schedule {
        self.schedule
    }

    /// The run length in milliseconds.
    pub closed spec fn duration_view(&self) -> int {
        self.duration as int
    }

    /// The next occurrence not yet acted on.
    pub closed spec fn upcoming_view(&self) -> Option<i64> {
        self.upcoming
    }

    /// The end of the current run, when it is still to be switched off.
    pub closed spec fn pending_stop_view(&self) -> Option<i64> {
        self.pending_stop
    }

    /// The instant handed to the schedule search last, if any.
    pub closed spec fn queried_view(&self) -> Option<i64> {
        self.queried@
    }

    /// What is owed before the next occurrence is taken: the switch-off at the end of the
    /// current run, if due.
    pub open spec fn queued(&self) -> Seq<TimerAction> {
        match self.pending_stop_view() {
            Some(t) => seq![TimerAction::DisableAt(t)],
            None => seq![],
        }
    }

    pub closed spec fn wf(&self) -> bool {
        0 <= self.duration
    }

    /// A timer for `config`, not yet started.
    pub fn new(config: TimerConfig) -> (r: Self)
        requires
            config.duration <= MAX_DURATION_SECS,
        ensures
            r.wf(),
            r.mode_view() == config.mode@,
            r.schedule_view() == config.schedule.0,
            r.duration_view() == config.duration * 1000,
            r.upcoming_view() is None,
            r.pending_stop_view() is None,
            r.queried_view() is None,
    {
        let TimerConfig { mode, schedule, duration } = config;
        Timer {
            mode,
            schedule: schedule.0,
            duration: (duration * 1000) as i64,
            upcoming: None,
            pending_stop: None,
            queried: Ghost(None),
        }
    }

    /// The mode this timer switches.
    pub fn mode(&self) -> (r: &String)
        ensures
            r@ == self.mode_view(),
    {
        &self.mode
    }

    /// Starts the schedule at `now`, looking back by one run length (that instant included) so
    /// that a run that began before `now` and has not ended yet is still honoured. The search
    /// starts one millisecond before the lookback instant, since it only finds occurrences at
    /// least a second later. Fails when that instant lies outside the searchable range.
    pub fn start(&mut self, now: i64) -> (r: Result<(), ScheduleError>)
        requires
            old(self).wf(),
        ensures
            final(self).wf(),
            final(self).mode_view() == old(self).mode_view(),
            final(self).schedule_view() == old(self).schedule_view(),
            final(self).duration_view() == old(self).duration_view(),
            r is Ok <==> MIN_INSTANT_MS <= lookback(now as int, old(self).duration_view()) - 1
                <= MAX_INSTANT_MS,
            r is Ok ==> final(self).pending_stop_view() is None && final(self).queried_view()
                == Some((lookback(now as int, old(self).duration_view()) - 1) as i64),
            r is Err ==> r == Err::<(), ScheduleError>(ScheduleError::OutOfRange) && *final(self)
                == *old(self),
    {
        if now < MIN_INSTANT_MS + 1 + self.duration || now - self.duration - 1 > MAX_INSTANT_MS {
            return Err(ScheduleError::OutOfRange);
        }
        let search_from = now - self.duration - 1;
        let first = occurrence_after(&self.schedule, search_from);
        self.queried = Ghost(Some(search_from));
        self.begin(first);
        Ok(())
    }

    /// Starts the schedule at its first occurrence `first` (`None` when there is none).
    pub fn begin(&mut self, first: Option<i64>)
        requires
            old(self).wf(),
        ensures
            final(self).wf(),
            final(self).mode_view() == old(self).mode_view(),
            final(self).schedule_view() == old(self).schedule_view(),
            final(self).duration_view() == old(self).duration_view(),
            final(self).queried_view() == old(self).queried_view(),
            final(self).upcoming_view() == first,
            final(self).pending_stop_view() is None,
    {
        self.upcoming = first;
        self.pending_stop = None;
    }

    /// Acts on the occurrence at `start`, given the occurrence after it: switch on at `start`,
    /// and switch off at the end of the run unless the next run begins by then.
    pub fn take_occurrence(&mut self, start: i64, next: Option<i64>) -> (r: Result<
        TimerAction,
        ScheduleError,
    >)
        requires
            old(self).wf(),
        ensures
            final(self).wf(),
            final(self).mode_view() == old(self).mode_view(),
            final(self).schedule_view() == old(self).schedule_view(),
            final(self).duration_view() == old(self).duration_view(),
            final(self).queried_view() == old(self).queried_view(),
            start + old(self).duration_view() > i64::MAX ==> r == Err::<TimerAction, ScheduleError>(
                ScheduleError::OutOfRange,
            ) && *final(self) == *old(self),
            start + old(self).duration_view() <= i64::MAX ==> {
                &&& r == Ok::<TimerAction, ScheduleError>(TimerAction::EnableAt(start))
                &&& final(self).upcoming_view() == next
                &&& seq![TimerAction::EnableAt(start)] + final(self).queued() == occurrence_actions(
                    start,
                    next,
                    old(self).duration_view(),
                )
                &&& final(self).pending_stop_view() == if disable_due(
                    start as int,
                    next,
                    old(self).duration_view(),
                ) {
                    Some((start + old(self).duration_view()) as i64)
                } else {
                    None
                }
            },
    {
        if start > i64::MAX - self.duration {
            return Err(ScheduleError::OutOfRange);
        }
        let stop = start + self.duration;
        let due = match next {
            Some(n) => stop < n,
            None => true,
        };
        self.upcoming = next;
        self.pending_stop = if due {
            Some(stop)
        } else {
            None
        };
        assert(seq![TimerAction::EnableAt(start)] + self.queued() =~= occurrence_actions(
            start,
            next,
            self.duration as int,
        ));
        Ok(TimerAction::EnableAt(start))
    }

    /// The next thing to do: switch off at the end of the current run if that is owed, else act
    /// on the next occurrence, searching the schedule after it to decide whether its run is
    /// switched off at its end. Fails when that occurrence lies outside the searchable range.
    pub fn next_action(&mut self) -> (r: Result<TimerAction, ScheduleError>)
        requires
            old(self).wf(),
        ensures
            final(self).wf(),
            final(self).mode_view() == old(self).mode_view(),
            final(self).schedule_view() == old(self).schedule_view(),
            final(self).duration_view() == old(self).duration_view(),
            old(self).pending_stop_view() matches Some(t) ==> {
                &&& r == Ok::<TimerAction, ScheduleError>(TimerAction::DisableAt(t))
                &&& final(self).pending_stop_view() is None
                &&& final(self).upcoming_view() == old(self).upcoming_view()
                &&& final(self).queried_view() == old(self).queried_view()
            },
            old(self).pending_stop_view() is None && old(self).upcoming_view() is None ==> r == Ok::<
                TimerAction,
                ScheduleError,
            >(TimerAction::Finished) && *final(self) == *old(self),
            old(self).pending_stop_view() is None ==> (old(self).upcoming_view() matches Some(s)
                ==> {
                &&& (s > MAX_INSTANT_MS || s < MIN_INSTANT_MS || s + old(self).duration_view()
                    > i64::MAX) ==> r == Err::<TimerAction, ScheduleError>(
                    ScheduleError::OutOfRange,
                ) && final(self).upcoming_view() == old(self).upcoming_view()
                    && final(self).pending_stop_view() is None
                &&& MIN_INSTANT_MS <= s <= MAX_INSTANT_MS ==> final(self).queried_view() == Some(s)
                &&& (MIN_INSTANT_MS <= s <= MAX_INSTANT_MS && s + old(self).duration_view()
                    <= i64::MAX) ==> {
                    &&& r == Ok::<TimerAction, ScheduleError>(TimerAction::EnableAt(s))
                    &&& seq![TimerAction::EnableAt(s)] + final(self).queued() == occurrence_actions(
                        s,
                        final(self).upcoming_view(),
                        old(self).duration_view(),
                    )
                    &&& final(self).pending_stop_view() == if disable_due(
                        s as int,
                        final(self).upcoming_view(),
                        old(self).duration_view(),
                    ) {
                        Some((s + old(self).duration_view()) as i64)
                    } else {
                        None
                    }
                }
            }),
    {
        match self.pending_stop {
            Some(t) => {
                self.pending_stop = None;
                Ok(TimerAction::DisableAt(t))
            },
            None => match self.upcoming {
                None => Ok(TimerAction::Finished),
                Some(s) => {
                    if s > MAX_INSTANT_MS || s < MIN_INSTANT_MS {
                        return Err(ScheduleError::OutOfRange);
                    }
                    let next = occurrence_after(&self.schedule, s);
                    self.queried = Ghost(Some(s));
                    self.take_occurrence(s, next)
                },
            },
        }
    }
}

/// Two runs that overlap or touch (the second starts no later than the first ends), with no
/// occurrence after them, are switched on at their starts and switched off once, at the end of
/// the later run, never in between.
pub proof fn lemma_adjacent_runs_merge(first: i64, second: i64, duration: int)
    requires
        0 <= duration,
        first < second,
        second <= first + duration,
        second + duration <= i64::MAX,
    ensures
        plan(seq![first, second], duration) == seq![
            TimerAction::EnableAt(first),
            TimerAction::EnableAt(second),
            TimerAction::DisableAt((second + duration) as i64),
        ],
{
    reveal_with_fuel(plan, 3);
    let starts = seq![first, second];
    assert(starts.drop_first() =~= seq![second]);
    assert(seq![second].drop_first() =~= Seq::<i64>::empty());
    assert(plan(starts, duration) =~= seq![
        TimerAction::EnableAt(first),
        TimerAction::EnableAt(second),
        TimerAction::DisableAt((second + duration) as i64),
    ]);
}

/// When `now` falls strictly inside the run of an occurrence found by looking back one run
/// length, the mode is switched on without waiting, and switched off at the end of that run,
/// which is still ahead.
pub proof fn lemma_catch_up(start: i64, next: Option<i64>, now: i64, duration: int)
    requires
        0 <= duration,
        now - duration < start < now < start + duration,
        start + duration <= i64::MAX,
        disable_due(start as int, next, duration),
    ensures
        occurrence_actions(start, next, duration) == seq![
            TimerAction::EnableAt(start),
            TimerAction::DisableAt((start + duration) as i64),
        ],
        wait_ms(start as int, now as int) == 0,
        wait_ms(start + duration, now as int) == start + duration - now,
        wait_ms(start + duration, now as int) > 0,
{
}

} // verus!
