//! What the command layer asks of the scheduler: scheduling for users,
//! listing and clearing pending jobs, the timezone of a guild, the guilds
//! that come and go, and the rounds of the dispatcher.

use vstd::prelude::*;
use crate::job::EventType;
use crate::job::Job;
use crate::job::stored_id;
use crate::job::to_column;
use crate::menu::SnipeType;
use crate::resolver::absolute_due;
use crate::resolver::advance_notice;
use crate::resolver::advance_notice_instant;
use crate::resolver::ADVANCE_NOTICE_SECS;
use crate::resolver::clock_in_range;
use crate::resolver::relative_due;
use crate::resolver::resolve_absolute;
use crate::resolver::resolve_relative;
use crate::resolver::valid_components;
use crate::runner::after_round;
use crate::runner::JobRunner;
use crate::runner::RunnerState;
use crate::runner::start;
use crate::settings::SettingError;
use crate::settings::SettingStore;
use crate::store::due_jobs;
use crate::store::guild_jobs;
use crate::store::holds_identity;
use crate::store::JobStore;
use crate::store::later_jobs;
use crate::store::lemma_deleted_guild_is_empty;
use crate::store::lemma_filter_well_formed;
use crate::store::lemma_with_job_holds;
use crate::store::lemma_with_job_well_formed;
use crate::store::ordered_by_due;
use crate::store::well_formed;
use crate::store::without_guild;
use crate::store::without_owner;
use crate::store::with_job;
use crate::timeexpr::parse_time;
use crate::timeexpr::TimeFields;
use crate::timeexpr::time_fields;
use crate::timeexpr::Unrecognised;
use crate::timezone::TimeZone;
use crate::timezone::valid_utc_offset;

verus! {

/// Why a scheduling request was refused.
#[derive(Clone, Copy, Debug, PartialEq, Eq, Structural)]
pub enum SnipeError {
    /// The time expression gives neither an hour nor a minute.
    Unrecognised,
    /// The guild has no setting.
    NotFound,
    /// The hour or minute is not a time of day.
    InvalidTimeComponents,
}

/// A due instant together with the offset of the guild it was resolved for.
#[derive(Clone, Copy, Debug, PartialEq, Eq, Structural)]
pub struct DueInstant {
    /// Seconds since the Unix epoch, UTC.
    pub due_at: i64,
    /// The guild's offset in hours.
    pub utc_offset: i32,
}

/// The jobs that scheduling one disconnect has stored. A job is missing where
/// it was pending already or, for the notice, where it would have come too
/// late.
#[derive(Clone, Copy, Debug, PartialEq, Eq, Structural)]
pub struct Added {
    pub notice: Option<Job>,
    pub disconnect: Option<Job>,
}

/// The answer to a scheduling request that was accepted.
#[derive(Clone, Debug, PartialEq, Eq)]
pub struct Scheduled {
    pub due: DueInstant,
    /// Whether the caller is the one to start the dispatcher loop.
    pub start_loop: bool,
    /// The jobs that the request has added to the pending ones, in the order
    /// in which they were stored.
    pub stored: Vec<Job>,
}

/// The offset of a guild, where it has a setting.
pub open spec fn offset_of(offsets: Map<i64, i32>, guild_id: u64) -> Option<i32> {
    if offsets.contains_key(stored_id(guild_id)) {
        Some(offsets[stored_id(guild_id)])
    } else {
        None
    }
}

/// The field, or zero where it is missing.
pub open spec fn or_zero(field: Option<u32>) -> int {
    match field {
        Some(v) => v as int,
        None => 0,
    }
}

/// The instant at which a request with `fields` falls due.
pub open spec fn due_of(kind: SnipeType, fields: TimeFields, utc_offset: int, now: int) -> Result<
    int,
    SnipeError,
> {
    match kind {
        SnipeType::Relative => Ok(relative_due(or_zero(fields.hour), or_zero(fields.minute), now)),
        SnipeType::Absolute => if valid_components(fields.hour, fields.minute) {
            Ok(absolute_due(fields.hour, fields.minute, utc_offset, now))
        } else {
            Err(SnipeError::InvalidTimeComponents)
        },
    }
}

/// What a scheduling request resolves to: the fields must have been
/// recognised, the guild must have a setting, and the fields must resolve.
pub open spec fn planned(
    fields: Result<TimeFields, Unrecognised>,
    offset: Option<i32>,
    kind: SnipeType,
    now: int,
) -> Result<DueInstant, SnipeError> {
    match (fields, offset) {
        (Err(_), _) => Err(SnipeError::Unrecognised),
        (Ok(_), None) => Err(SnipeError::NotFound),
        (Ok(f), Some(utc_offset)) => match due_of(kind, f, utc_offset as int, now) {
            Ok(due) => Ok(DueInstant { due_at: due as i64, utc_offset }),
            Err(e) => Err(e),
        },
    }
}

/// The job of `event_type` for one subject.
pub open spec fn job_for(
    due_at: int,
    user_id: u64,
    guild_id: u64,
    event_type: EventType,
    utc_offset: i32,
) -> Job {
    Job {
        due_at: due_at as i64,
        user_id: stored_id(user_id),
        guild_id: stored_id(guild_id),
        event_type,
        utc_offset,
    }
}

/// Whether the advance notice of a disconnect due at `due_at` is still worth
/// a job at `now`: its instant must be strictly in the future.
pub open spec fn notice_in_time(due_at: int, now: int) -> bool {
    advance_notice(due_at) > now
}

/// The pending jobs once a disconnect of one subject is scheduled: the
/// advance notice is offered first, if it is still in time, then the
/// disconnect.
pub open spec fn with_schedule(
    jobs: Seq<Job>,
    due: DueInstant,
    user_id: u64,
    guild_id: u64,
    now: int,
) -> Seq<Job> {
    let noticed = if notice_in_time(due.due_at as int, now) {
        with_job(
            jobs,
            job_for(
                advance_notice(due.due_at as int),
                user_id,
                guild_id,
                EventType::Notification3Min,
                due.utc_offset,
            ),
        )
    } else {
        jobs
    };
    with_job(
        noticed,
        job_for(due.due_at as int, user_id, guild_id, EventType::Disconnect, due.utc_offset),
    )
}

/// The pending jobs once a disconnect is scheduled for each of `targets`, in
/// their order.
pub open spec fn with_schedules(
    jobs: Seq<Job>,
    due: DueInstant,
    targets: Seq<u64>,
    guild_id: u64,
    now: int,
) -> Seq<Job>
    decreases targets.len(),
{
    if targets.len() == 0 {
        jobs
    } else {
        with_schedule(
            with_schedules(jobs, due, targets.drop_last(), guild_id, now),
            due,
            targets.last(),
            guild_id,
            now,
        )
    }
}

/// The job, unless a job with its identity is pending.
pub open spec fn if_new(jobs: Seq<Job>, job: Job) -> Option<Job> {
    if holds_identity(jobs, job) {
        None
    } else {
        Some(job)
    }
}

/// The jobs that scheduling a disconnect of one subject stores.
pub open spec fn added_by(
    jobs: Seq<Job>,
    due: DueInstant,
    user_id: u64,
    guild_id: u64,
    now: int,
) -> Added {
    Added {
        notice: if notice_in_time(due.due_at as int, now) {
            if_new(
                jobs,
                job_for(
                    advance_notice(due.due_at as int),
                    user_id,
                    guild_id,
                    EventType::Notification3Min,
                    due.utc_offset,
                ),
            )
        } else {
            None
        },
        disconnect: if_new(
            jobs,
            job_for(due.due_at as int, user_id, guild_id, EventType::Disconnect, due.utc_offset),
        ),
    }
}

/// The jobs that scheduling a disconnect for each of `targets` stores, in
/// the order in which they are stored.
pub open spec fn stored_by(
    jobs: Seq<Job>,
    due: DueInstant,
    targets: Seq<u64>,
    guild_id: u64,
    now: int,
) -> Seq<Job>
    decreases targets.len(),
{
    if targets.len() == 0 {
        Seq::<Job>::empty()
    } else {
        stored_by(jobs, due, targets.drop_last(), guild_id, now) + added_by(
            with_schedules(jobs, due, targets.drop_last(), guild_id, now),
            due,
            targets.last(),
            guild_id,
            now,
        ).jobs()
    }
}

impl Added {
    /// The stored jobs in the order in which they were stored.
    pub open spec fn jobs(self) -> Seq<Job> {
        let notice = match self.notice {
            Some(job) => seq![job],
            None => Seq::<Job>::empty(),
        };
        match self.disconnect {
            Some(job) => notice.push(job),
            None => notice,
        }
    }
}

/// Once a disconnect is scheduled it is pending, and so is its advance
/// notice if that was still in time.
pub proof fn lemma_schedule_is_pending(
    jobs: Seq<Job>,
    due: DueInstant,
    user_id: u64,
    guild_id: u64,
    now: int,
)
    requires
        well_formed(jobs),
    ensures
        well_formed(with_schedule(jobs, due, user_id, guild_id, now)),
        holds_identity(
            with_schedule(jobs, due, user_id, guild_id, now),
            job_for(due.due_at as int, user_id, guild_id, EventType::Disconnect, due.utc_offset),
        ),
        notice_in_time(due.due_at as int, now) ==> holds_identity(
            with_schedule(jobs, due, user_id, guild_id, now),
            job_for(
                advance_notice(due.due_at as int),
                user_id,
                guild_id,
                EventType::Notification3Min,
                due.utc_offset,
            ),
        ),
{
    let notice = job_for(
        advance_notice(due.due_at as int),
        user_id,
        guild_id,
        EventType::Notification3Min,
        due.utc_offset,
    );
    let disconnect = job_for(
        due.due_at as int,
        user_id,
        guild_id,
        EventType::Disconnect,
        due.utc_offset,
    );
    let noticed = if notice_in_time(due.due_at as int, now) {
        with_job(jobs, notice)
    } else {
        jobs
    };
    lemma_with_job_well_formed(jobs, notice);
    lemma_with_job_well_formed(noticed, disconnect);
    lemma_with_job_holds(noticed, disconnect, notice);
}

/// Scheduling is idempotent: a request that is made again, at the same
/// instant or later, stores nothing and leaves the pending jobs as they are.
pub proof fn lemma_schedule_again_changes_nothing(
    jobs: Seq<Job>,
    due: DueInstant,
    user_id: u64,
    guild_id: u64,
    now: int,
    again: int,
)
    requires
        well_formed(jobs),
        now <= again,
    ensures
        with_schedule(
            with_schedule(jobs, due, user_id, guild_id, now),
            due,
            user_id,
            guild_id,
            again,
        ) == with_schedule(jobs, due, user_id, guild_id, now),
        added_by(with_schedule(jobs, due, user_id, guild_id, now), due, user_id, guild_id, again)
            == (Added { notice: None, disconnect: None }),
{
    lemma_schedule_is_pending(jobs, due, user_id, guild_id, now);
}

/// An advance notice is claimed no later than its disconnect: after a claim
/// at an instant at which the disconnect has fallen due, the notice is not
/// pending.
pub proof fn lemma_notice_is_claimed_first(
    jobs: Seq<Job>,
    due: DueInstant,
    user_id: u64,
    guild_id: u64,
    now: int,
)
    requires
        i64::MIN <= advance_notice(due.due_at as int),
        due.due_at <= now,
    ensures
        !holds_identity(
            later_jobs(jobs, now),
            job_for(
                advance_notice(due.due_at as int),
                user_id,
                guild_id,
                EventType::Notification3Min,
                due.utc_offset,
            ),
        ),
{
    let left = later_jobs(jobs, now);
    assert forall|k: int| 0 <= k < left.len() implies (#[trigger] left[k]).due_at > now by {
        jobs.lemma_filter_pred(|job: Job| job.due_at > now, k);
    }
}

/// The settings once each of `guilds` that had none has the default, UTC.
pub open spec fn with_defaults(offsets: Map<i64, i32>, guilds: Seq<u64>) -> Map<i64, i32> {
    Map::new(
        |g: i64|
            offsets.contains_key(g) || exists|i: int|
                0 <= i < guilds.len() && stored_id(#[trigger] guilds[i]) == g,
        |g: i64|
            if offsets.contains_key(g) {
                offsets[g]
            } else {
                0i32
            },
    )
}

/// One guild more gets the default if it had no setting so far, and changes
/// nothing if it had one.
proof fn lemma_defaults_next(offsets: Map<i64, i32>, guilds: Seq<u64>, i: int)
    requires
        0 <= i < guilds.len(),
    ensures
        ({
            let so_far = with_defaults(offsets, guilds.take(i));
            with_defaults(offsets, guilds.take(i + 1)) == if so_far.contains_key(
                stored_id(guilds[i]),
            ) {
                so_far
            } else {
                so_far.insert(stored_id(guilds[i]), 0i32)
            }
        }),
{
    let seen = guilds.take(i);
    let next = guilds.take(i + 1);
    let so_far = with_defaults(offsets, seen);
    let g = stored_id(guilds[i]);
    assert(next[i] == guilds[i]);
    assert forall|k: i64| with_defaults(offsets, next).contains_key(k) <==> (k == g
        || so_far.contains_key(k)) by {
        if with_defaults(offsets, next).contains_key(k) && !offsets.contains_key(k) {
            let j = choose|j: int| 0 <= j < next.len() && stored_id(#[trigger] next[j]) == k;
            if j < i {
                assert(seen[j] == next[j]);
            }
        }
        if so_far.contains_key(k) && !offsets.contains_key(k) {
            let j = choose|j: int| 0 <= j < seen.len() && stored_id(#[trigger] seen[j]) == k;
            assert(next[j] == seen[j]);
        }
    }
    if so_far.contains_key(g) {
        assert(with_defaults(offsets, next) =~= so_far);
    } else {
        assert(with_defaults(offsets, next) =~= so_far.insert(g, 0i32));
    }
}

/// The jobs that are shown to users: the disconnects.
pub open spec fn disconnects(jobs: Seq<Job>) -> Seq<Job> {
    jobs.filter(|job: Job| job.event_type == EventType::Disconnect)
}

/// The scheduler: the pending jobs, the guild settings and the dispatcher's
/// state.
pub struct Handler {
    pub jobs: JobStore,
    pub settings: SettingStore,
    pub runner: JobRunner,
}

impl Handler {
    /// What holds of every scheduler: both tables are well-formed.
    pub open spec fn wf(&self) -> bool {
        self.jobs.wf() && self.settings.wf()
    }

    /// A scheduler without jobs or settings, its dispatcher idle.
    pub fn new() -> (handler: Handler)
        ensures
            handler.wf(),
            handler.jobs@ == Seq::<Job>::empty(),
            handler.settings@ == Map::<i64, i32>::empty(),
            handler.runner@ == RunnerState::Idle,
    {
        Handler { jobs: JobStore::new(), settings: SettingStore::new(), runner: JobRunner::new() }
    }

    /// The offset that `guild_id` is set to.
    pub fn get_timezone(&self, guild_id: u64) -> (res: Result<TimeZone, SettingError>)
        requires
            self.wf(),
        ensures
            match offset_of(self.settings@, guild_id) {
                Some(hours) => res matches Ok(zone) && zone@ == hours && zone.wf(),
                None => res == Err::<TimeZone, SettingError>(SettingError::NotFound),
            },
    {
        match self.settings.get_guild_setting(to_column(guild_id)) {
            Ok(setting) => match TimeZone::from_hours(setting.utc_offset as i64) {
                Some(zone) => Ok(zone),
                None => Err(SettingError::NotFound),
            },
            Err(e) => Err(e),
        }
    }

    /// Sets the offset of `guild_id` to `offset` hours.
    ///
    /// An offset out of range is refused, and so is a guild without a
    /// setting; neither changes anything.
    pub fn set_timezone(&mut self, guild_id: u64, offset: i64) -> (res: Result<
        TimeZone,
        SettingError,
    >)
        requires
            old(self).wf(),
        ensures
            final(self).wf(),
            final(self).jobs@ == old(self).jobs@,
            final(self).runner@ == old(self).runner@,
            if !valid_utc_offset(offset as int) {
                res == Err::<TimeZone, SettingError>(SettingError::InvalidOffset)
            } else if offset_of(old(self).settings@, guild_id) is None {
                res == Err::<TimeZone, SettingError>(SettingError::NotFound)
            } else {
                res matches Ok(zone) && zone@ == offset && zone.wf()
            },
            res is Ok ==> final(self).settings@ == old(self).settings@.insert(
                stored_id(guild_id),
                offset as i32,
            ),
            res is Err ==> final(self).settings@ == old(self).settings@,
    {
        match self.settings.update_guild_setting(to_column(guild_id), offset) {
            Ok(()) => match TimeZone::from_hours(offset) {
                Some(zone) => Ok(zone),
                None => Err(SettingError::InvalidOffset),
            },
            Err(e) => Err(e),
        }
    }

    /// Resolves a relative request of `guild_id`: so many hours and minutes
    /// from `now`, a missing field counting as zero.
    pub fn relative_datetime(&self, guild_id: u64, fields: &TimeFields, now: i64) -> (res: Result<
        DueInstant,
        SnipeError,
    >)
        requires
            self.wf(),
            clock_in_range(now as int),
        ensures
            res == planned(
                Ok(*fields),
                offset_of(self.settings@, guild_id),
                SnipeType::Relative,
                now as int,
            ),
    {
        match self.settings.get_guild_setting(to_column(guild_id)) {
            Err(_) => Err(SnipeError::NotFound),
            Ok(setting) => {
                let hours: u32 = match fields.hour {
                    Some(h) => h,
                    None => 0,
                };
                let minutes: u32 = match fields.minute {
                    Some(m) => m,
                    None => 0,
                };
                Ok(
                    DueInstant {
                        due_at: resolve_relative(hours, minutes, now),
                        utc_offset: setting.utc_offset,
                    },
                )
            },
        }
    }

    /// Resolves an absolute request of `guild_id`: the next time the guild's
    /// clock shows the given hour and minute.
    pub fn absolute_datetime(&self, guild_id: u64, fields: &TimeFields, now: i64) -> (res: Result<
        DueInstant,
        SnipeError,
    >)
        requires
            self.wf(),
            clock_in_range(now as int),
        ensures
            res == planned(
                Ok(*fields),
                offset_of(self.settings@, guild_id),
                SnipeType::Absolute,
                now as int,
            ),
    {
        match self.settings.get_guild_setting(to_column(guild_id)) {
            Err(_) => Err(SnipeError::NotFound),
            Ok(setting) => match resolve_absolute(
                fields.hour,
                fields.minute,
                setting.utc_offset,
                now,
            ) {
                Ok(due_at) => Ok(DueInstant { due_at, utc_offset: setting.utc_offset }),
                Err(_) => Err(SnipeError::InvalidTimeComponents),
            },
        }
    }

    /// Schedules the disconnect of one subject at `due`, and its advance
    /// notice three minutes earlier if that instant is strictly after `now`.
    ///
    /// A job that is already pending is left as it is. The answer holds the
    /// jobs that were stored.
    pub fn add_job(&mut self, due: DueInstant, user_id: u64, guild_id: u64, now: i64) -> (added:
        Added)
        requires
            old(self).wf(),
        ensures
            final(self).wf(),
            final(self).jobs@ == with_schedule(old(self).jobs@, due, user_id, guild_id, now as int),
            final(self).jobs@.len() == old(self).jobs@.len() + added.jobs().len(),
            added == added_by(old(self).jobs@, due, user_id, guild_id, now as int),
            final(self).settings@ == old(self).settings@,
            final(self).runner@ == old(self).runner@,
    {
        let ghost before = self.jobs@;
        let mut notice: Option<Job> = None;
        if due.due_at >= i64::MIN + ADVANCE_NOTICE_SECS && advance_notice_instant(due.due_at) > now {
            let job = Job::new(
                advance_notice_instant(due.due_at),
                user_id,
                guild_id,
                EventType::Notification3Min,
                due.utc_offset,
            );
            proof {
                lemma_with_job_well_formed(before, job);
                lemma_with_job_holds(
                    before,
                    job,
                    job_for(
                        due.due_at as int,
                        user_id,
                        guild_id,
                        EventType::Disconnect,
                        due.utc_offset,
                    ),
                );
            }
            if self.jobs.insert_job(job).is_ok() {
                notice = Some(job);
            }
        }
        let job = Job::new(due.due_at, user_id, guild_id, EventType::Disconnect, due.utc_offset);
        proof {
            lemma_with_job_well_formed(self.jobs@, job);
        }
        let disconnect = if self.jobs.insert_job(job).is_ok() {
            Some(job)
        } else {
            None
        };
        Added { notice, disconnect }
    }

    /// Schedules a disconnect, and its advance notice, for each of `targets`
    /// in `guild_id`, and marks the dispatcher as running.
    ///
    /// A request that is refused changes nothing.
    pub fn schedule(
        &mut self,
        guild_id: u64,
        targets: &Vec<u64>,
        fields: Result<TimeFields, Unrecognised>,
        kind: SnipeType,
        now: i64,
    ) -> (res: Result<Scheduled, SnipeError>)
        requires
            old(self).wf(),
            clock_in_range(now as int),
        ensures
            final(self).wf(),
            final(self).settings@ == old(self).settings@,
            match planned(fields, offset_of(old(self).settings@, guild_id), kind, now as int) {
                Ok(due) => {
                    &&& res matches Ok(answer)
                    &&& answer.due == due
                    &&& (final(self).runner@, answer.start_loop) == start(old(self).runner@)
                    &&& answer.stored@ == stored_by(
                        old(self).jobs@,
                        due,
                        targets@,
                        guild_id,
                        now as int,
                    )
                    &&& final(self).jobs@ == with_schedules(
                        old(self).jobs@,
                        due,
                        targets@,
                        guild_id,
                        now as int,
                    )
                },
                Err(e) => {
                    &&& res matches Err(refused)
                    &&& refused == e
                    &&& final(self).jobs@ == old(self).jobs@
                    &&& final(self).runner@ == old(self).runner@
                },
            },
    {
        let fields = match fields {
            Ok(f) => f,
            Err(_) => {
                return Err(SnipeError::Unrecognised);
            },
        };
        let resolved = match kind {
            SnipeType::Relative => self.relative_datetime(guild_id, &fields, now),
            SnipeType::Absolute => self.absolute_datetime(guild_id, &fields, now),
        };
        let due = match resolved {
            Ok(due) => due,
            Err(e) => {
                return Err(e);
            },
        };
        let ghost before = self.jobs@;
        let mut stored: Vec<Job> = Vec::new();
        let mut i: usize = 0;
        while i < targets.len()
            invariant
                0 <= i <= targets.len(),
                self.wf(),
                self.settings@ == old(self).settings@,
                self.runner@ == old(self).runner@,
                self.jobs@ == with_schedules(before, due, targets@.take(i as int), guild_id, now as int),
                stored@ == stored_by(before, due, targets@.take(i as int), guild_id, now as int),
            decreases targets.len() - i,
        {
            proof {
                assert(targets@.take(i + 1).drop_last() =~= targets@.take(i as int));
            }
            let ghost so_far = stored@;
            let added = self.add_job(due, targets[i], guild_id, now);
            if let Some(job) = added.notice {
                stored.push(job);
            }
            if let Some(job) = added.disconnect {
                stored.push(job);
            }
            proof {
                assert(stored@ =~= so_far + added.jobs());
            }
            i = i + 1;
        }
        proof {
            assert(targets@.take(i as int) =~= targets@);
        }
        let start_loop = self.runner.try_start();
        Ok(Scheduled { due, start_loop, stored })
    }

    /// Reads the time expression `time` and schedules a disconnect, and its
    /// advance notice, for each of `targets` in `guild_id`.
    pub fn snipe(
        &mut self,
        guild_id: u64,
        targets: &Vec<u64>,
        time: &str,
        kind: SnipeType,
        now: i64,
    ) -> (res: Result<Scheduled, SnipeError>)
        requires
            old(self).wf(),
            clock_in_range(now as int),
        ensures
            final(self).wf(),
            final(self).settings@ == old(self).settings@,
            match planned(
                time_fields(time@),
                offset_of(old(self).settings@, guild_id),
                kind,
                now as int,
            ) {
                Ok(due) => {
                    &&& res matches Ok(answer)
                    &&& answer.due == due
                    &&& (final(self).runner@, answer.start_loop) == start(old(self).runner@)
                    &&& answer.stored@ == stored_by(
                        old(self).jobs@,
                        due,
                        targets@,
                        guild_id,
                        now as int,
                    )
                    &&& final(self).jobs@ == with_schedules(
                        old(self).jobs@,
                        due,
                        targets@,
                        guild_id,
                        now as int,
                    )
                },
                Err(e) => {
                    &&& res matches Err(refused)
                    &&& refused == e
                    &&& final(self).jobs@ == old(self).jobs@
                    &&& final(self).runner@ == old(self).runner@
                },
            },
    {
        let fields = parse_time(time);
        self.schedule(guild_id, targets, fields, kind, now)
    }

    /// The pending jobs of `guild_id`, those that fall due first coming first.
    pub fn list_pending(&self, guild_id: u64) -> (jobs: Vec<Job>)
        requires
            self.wf(),
        ensures
            jobs@ == guild_jobs(self.jobs@, stored_id(guild_id)),
            ordered_by_due(jobs@),
    {
        self.jobs.get_guild_jobs(to_column(guild_id))
    }

    /// The pending disconnects of `guild_id`, those that fall due first
    /// coming first: what the schedule of the guild shows.
    pub fn display_jobs(&self, guild_id: u64) -> (jobs: Vec<Job>)
        requires
            self.wf(),
        ensures
            jobs@ == disconnects(guild_jobs(self.jobs@, stored_id(guild_id))),
            ordered_by_due(jobs@),
    {
        let all = self.jobs.get_guild_jobs(to_column(guild_id));
        let mut shown: Vec<Job> = Vec::new();
        let mut i: usize = 0;
        proof {
            reveal(Seq::filter);
            assert(all@.take(0) =~= Seq::<Job>::empty());
        }
        while i < all.len()
            invariant
                0 <= i <= all.len(),
                shown@ == disconnects(all@.take(i as int)),
            decreases all.len() - i,
        {
            proof {
                reveal(Seq::filter);
                assert(all@.take(i + 1).drop_last() =~= all@.take(i as int));
            }
            let job = all[i];
            match job.event_type {
                EventType::Disconnect => {
                    shown.push(job);
                },
                EventType::Notification3Min => {},
            }
            i = i + 1;
        }
        proof {
            assert(all@.take(i as int) =~= all@);
            lemma_filter_well_formed(self.jobs@, |job: Job| job.guild_id == stored_id(guild_id));
            lemma_filter_well_formed(all@, |job: Job| job.event_type == EventType::Disconnect);
        }
        shown
    }

    /// Clears the pending jobs that have `user_id` in `guild_id` as their
    /// subject, and says how many they were.
    pub fn remove_job(&mut self, user_id: u64, guild_id: u64) -> (removed: usize)
        requires
            old(self).wf(),
        ensures
            final(self).wf(),
            final(self).jobs@ == without_owner(
                old(self).jobs@,
                stored_id(user_id),
                stored_id(guild_id),
            ),
            removed == old(self).jobs@.len() - final(self).jobs@.len(),
            final(self).settings@ == old(self).settings@,
            final(self).runner@ == old(self).runner@,
    {
        self.jobs.delete_guild_jobs(to_column(user_id), to_column(guild_id))
    }

    /// Takes note of the guilds that the bot is in when it connects: each one
    /// without a setting gets the default, UTC. Says whether the caller is to
    /// start the dispatcher loop, which it is if jobs are pending and no loop
    /// is active.
    pub fn ready(&mut self, guilds: &Vec<u64>) -> (start_loop: bool)
        requires
            old(self).wf(),
        ensures
            final(self).wf(),
            final(self).settings@ == with_defaults(old(self).settings@, guilds@),
            final(self).jobs@ == old(self).jobs@,
            (final(self).runner@, start_loop) == if old(self).jobs@.len() > 0 {
                start(old(self).runner@)
            } else {
                (old(self).runner@, false)
            },
    {
        let ghost before = self.settings@;
        let mut i: usize = 0;
        proof {
            assert(self.settings@ =~= with_defaults(before, guilds@.take(0)));
        }
        while i < guilds.len()
            invariant
                0 <= i <= guilds.len(),
                self.wf(),
                self.jobs@ == old(self).jobs@,
                self.runner@ == old(self).runner@,
                self.settings@ == with_defaults(before, guilds@.take(i as int)),
            decreases guilds.len() - i,
        {
            proof {
                lemma_defaults_next(before, guilds@, i as int);
            }
            let _ = self.settings.insert_guild_setting(to_column(guilds[i]), 0);
            i = i + 1;
        }
        proof {
            assert(guilds@.take(i as int) =~= guilds@);
        }
        if self.jobs.count_jobs() > 0 {
            self.runner.try_start()
        } else {
            false
        }
    }

    /// Takes note of a guild that has appeared: one that the bot has newly
    /// joined gets the default setting, UTC, unless it has a setting.
    pub fn guild_create(&mut self, guild_id: u64, is_new: bool)
        requires
            old(self).wf(),
        ensures
            final(self).wf(),
            final(self).jobs@ == old(self).jobs@,
            final(self).runner@ == old(self).runner@,
            final(self).settings@ == if is_new && offset_of(old(self).settings@, guild_id) is None {
                old(self).settings@.insert(stored_id(guild_id), 0i32)
            } else {
                old(self).settings@
            },
    {
        if is_new {
            let _ = self.settings.insert_guild_setting(to_column(guild_id), 0);
        }
    }

    /// Takes note of a guild that has gone. One that is merely unavailable
    /// keeps everything; one that the bot was removed from loses its setting
    /// and all of its pending jobs.
    pub fn guild_delete(&mut self, guild_id: u64, unavailable: bool)
        requires
            old(self).wf(),
        ensures
            final(self).wf(),
            final(self).runner@ == old(self).runner@,
            unavailable ==> final(self).jobs@ == old(self).jobs@ && final(self).settings@ == old(self).settings@,
            !unavailable ==> {
                &&& final(self).settings@ == old(self).settings@.remove(stored_id(guild_id))
                &&& final(self).jobs@ == without_guild(old(self).jobs@, stored_id(guild_id))
                &&& guild_jobs(final(self).jobs@, stored_id(guild_id)) == Seq::<Job>::empty()
            },
    {
        if !unavailable {
            proof {
                lemma_deleted_guild_is_empty(self.jobs@, stored_id(guild_id));
            }
            self.settings.delete_guild_setting(to_column(guild_id));
            self.jobs.delete_by_guild(to_column(guild_id));
        }
    }

    /// One round of the dispatcher loop: claims the jobs that have fallen due
    /// at `now` and hands them over for execution. Nothing is claimed while
    /// the dispatcher is idle.
    pub fn run_pending(&mut self, now: i64) -> (claimed: Vec<Job>)
        requires
            old(self).wf(),
        ensures
            final(self).wf(),
            final(self).settings@ == old(self).settings@,
            final(self).runner@ == old(self).runner@,
            old(self).runner@ == RunnerState::Running ==> claimed@ == due_jobs(
                old(self).jobs@,
                now as int,
            ) && final(self).jobs@ == later_jobs(old(self).jobs@, now as int),
            old(self).runner@ == RunnerState::Idle ==> claimed@ == Seq::<Job>::empty() && final(self).jobs@ == old(self).jobs@,
    {
        self.runner.run(&mut self.jobs, now)
    }

    /// Ends a round of the dispatcher loop after its sleep: the dispatcher
    /// becomes idle if no job is pending. Says whether the loop goes on.
    pub fn finish_round(&mut self) -> (again: bool)
        requires
            old(self).wf(),
        ensures
            final(self).wf(),
            final(self).jobs@ == old(self).jobs@,
            final(self).settings@ == old(self).settings@,
            final(self).runner@ == after_round(old(self).runner@, old(self).jobs@.len()),
            again == (final(self).runner@ == RunnerState::Running),
    {
        self.runner.finish_round(&self.jobs)
    }
}

} // verus!
