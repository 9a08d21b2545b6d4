//! The table of pending jobs.
//!
//! A store holds each job identity at most once and keeps its jobs in the
//! order in which they fall due; jobs that fall due at the same instant stay
//! in the order in which they were inserted.

use vstd::prelude::*;
use crate::job::Job;

verus! {

/// A job with the same identity is already pending.
#[derive(Clone, Copy, Debug, PartialEq, Eq, Structural)]
pub struct Conflict;

/// Whether some job of `jobs` has the identity of `job`.
pub open spec fn holds_identity(jobs: Seq<Job>, job: Job) -> bool {
    exists|i: int| 0 <= i < jobs.len() && (#[trigger] jobs[i]).same_identity(job)
}

/// No two jobs of `jobs` have the same identity.
pub open spec fn distinct_identities(jobs: Seq<Job>) -> bool {
    forall|i: int, j: int|
        0 <= i < j < jobs.len() ==> !(#[trigger] jobs[i]).same_identity(#[trigger] jobs[j])
}

/// The jobs of `jobs` come in the order in which they fall due.
pub open spec fn ordered_by_due(jobs: Seq<Job>) -> bool {
    forall|i: int, j: int|
        0 <= i <= j < jobs.len() ==> (#[trigger] jobs[i]).due_at <= (#[trigger] jobs[j]).due_at
}

/// What holds of the contents of every store.
pub open spec fn well_formed(jobs: Seq<Job>) -> bool {
    distinct_identities(jobs) && ordered_by_due(jobs)
}

/// The jobs that have fallen due at `now`.
pub open spec fn due_jobs(jobs: Seq<Job>, now: int) -> Seq<Job> {
    jobs.filter(|job: Job| job.due_at <= now)
}

/// The jobs that fall due after `now`.
pub open spec fn later_jobs(jobs: Seq<Job>, now: int) -> Seq<Job> {
    jobs.filter(|job: Job| job.due_at > now)
}

/// The jobs of one guild.
pub open spec fn guild_jobs(jobs: Seq<Job>, guild_id: i64) -> Seq<Job> {
    jobs.filter(|job: Job| job.guild_id == guild_id)
}

/// The jobs of all other guilds.
pub open spec fn without_guild(jobs: Seq<Job>, guild_id: i64) -> Seq<Job> {
    jobs.filter(|job: Job| job.guild_id != guild_id)
}

/// The jobs that do not have `user_id` in `guild_id` as their subject.
pub open spec fn without_owner(jobs: Seq<Job>, user_id: i64, guild_id: i64) -> Seq<Job> {
    jobs.filter(|job: Job| !(job.user_id == user_id && job.guild_id == guild_id))
}

/// The contents after `job` is offered to a store that holds `jobs`: unchanged
/// where the identity is taken, else with `job` behind the jobs that fall due
/// no later than it and before the others.
pub open spec fn with_job(jobs: Seq<Job>, job: Job) -> Seq<Job> {
    if holds_identity(jobs, job) {
        jobs
    } else {
        due_jobs(jobs, job.due_at as int).push(job) + later_jobs(jobs, job.due_at as int)
    }
}

/// What a scan of the table selects.
enum Selector {
    DueBy(i64),
    InGuild(i64),
    OwnedBy(i64, i64),
}

impl Selector {
    spec fn selects(self, job: Job) -> bool {
        match self {
            Selector::DueBy(now) => job.due_at <= now,
            Selector::InGuild(guild_id) => job.guild_id == guild_id,
            Selector::OwnedBy(user_id, guild_id) => job.user_id == user_id && job.guild_id
                == guild_id,
        }
    }

    fn picks(&self, job: &Job) -> (picked: bool)
        ensures
            picked == self.selects(*job),
    {
        match self {
            Selector::DueBy(now) => job.due_at <= *now,
            Selector::InGuild(guild_id) => job.guild_id == *guild_id,
            Selector::OwnedBy(user_id, guild_id) => job.user_id == *user_id && job.guild_id
                == *guild_id,
        }
    }
}

/// Filtering one element further: the filter of a prefix grows by the next
/// element exactly when the predicate holds of it.
proof fn lemma_filter_next(s: Seq<Job>, pred: spec_fn(Job) -> bool, i: int)
    requires
        0 <= i < s.len(),
    ensures
        s.take(i + 1).filter(pred) == if pred(s[i]) {
            s.take(i).filter(pred).push(s[i])
        } else {
            s.take(i).filter(pred)
        },
{
    reveal(Seq::filter);
    assert(s.take(i + 1).drop_last() =~= s.take(i));
}

/// Two predicates that agree on every element of `s` filter it alike.
proof fn lemma_filter_agree(s: Seq<Job>, p: spec_fn(Job) -> bool, q: spec_fn(Job) -> bool)
    requires
        forall|i: int| 0 <= i < s.len() ==> p(#[trigger] s[i]) == q(s[i]),
    ensures
        s.filter(p) == s.filter(q),
    decreases s.len(),
{
    reveal(Seq::filter);
    if s.len() > 0 {
        let rest = s.drop_last();
        assert forall|i: int| 0 <= i < rest.len() implies p(#[trigger] rest[i]) == q(rest[i]) by {
            assert(rest[i] == s[i]);
        }
        lemma_filter_agree(rest, p, q);
        assert(p(s[s.len() - 1]) == q(s[s.len() - 1]));
    }
}

/// A filter keeps everything where the predicate holds of every element.
proof fn lemma_filter_keeps_all(s: Seq<Job>, pred: spec_fn(Job) -> bool)
    requires
        forall|i: int| 0 <= i < s.len() ==> pred(#[trigger] s[i]),
    ensures
        s.filter(pred) == s,
    decreases s.len(),
{
    reveal(Seq::filter);
    if s.len() > 0 {
        let rest = s.drop_last();
        assert forall|i: int| 0 <= i < rest.len() implies pred(#[trigger] rest[i]) by {
            assert(rest[i] == s[i]);
        }
        lemma_filter_keeps_all(rest, pred);
        assert(pred(s[s.len() - 1]));
        assert(rest.push(s.last()) =~= s);
    } else {
        assert(s.filter(pred) =~= s);
    }
}

/// A filter keeps nothing where the predicate holds of no element.
proof fn lemma_filter_keeps_none(s: Seq<Job>, pred: spec_fn(Job) -> bool)
    requires
        forall|i: int| 0 <= i < s.len() ==> !pred(#[trigger] s[i]),
    ensures
        s.filter(pred) == Seq::<Job>::empty(),
    decreases s.len(),
{
    reveal(Seq::filter);
    if s.len() > 0 {
        let rest = s.drop_last();
        assert forall|i: int| 0 <= i < rest.len() implies !pred(#[trigger] rest[i]) by {
            assert(rest[i] == s[i]);
        }
        lemma_filter_keeps_none(rest, pred);
        assert(!pred(s[s.len() - 1]));
    } else {
        assert(s.filter(pred) =~= Seq::<Job>::empty());
    }
}

/// Every element of a filtered sequence satisfies the predicate and comes
/// from the sequence that was filtered, and the order of the elements is kept.
proof fn lemma_filter_embeds(s: Seq<Job>, pred: spec_fn(Job) -> bool) -> (at: Seq<int>)
    ensures
        at.len() == s.filter(pred).len(),
        forall|k: int|
            0 <= k < at.len() ==> 0 <= #[trigger] at[k] < s.len() && s.filter(pred)[k] == s[at[k]]
                && pred(s[at[k]]),
        forall|k: int, l: int| 0 <= k < l < at.len() ==> #[trigger] at[k] < #[trigger] at[l],
    decreases s.len(),
{
    reveal(Seq::filter);
    if s.len() == 0 {
        Seq::<int>::empty()
    } else {
        let rest = s.drop_last();
        let inner = lemma_filter_embeds(rest, pred);
        assert forall|k: int| 0 <= k < inner.len() implies rest[#[trigger] inner[k]] == s[inner[k]] by {
        }
        if pred(s.last()) {
            inner.push(s.len() - 1)
        } else {
            inner
        }
    }
}

/// Filtering a well-formed table leaves a well-formed table.
pub proof fn lemma_filter_well_formed(jobs: Seq<Job>, pred: spec_fn(Job) -> bool)
    requires
        well_formed(jobs),
    ensures
        well_formed(jobs.filter(pred)),
{
    let at = lemma_filter_embeds(jobs, pred);
    let kept = jobs.filter(pred);
    assert forall|i: int, j: int| 0 <= i < j < kept.len() implies !(#[trigger] kept[i]).same_identity(
        #[trigger] kept[j],
    ) by {
        assert(at[i] < at[j]);
        assert(!jobs[at[i]].same_identity(jobs[at[j]]));
    }
    assert forall|i: int, j: int| 0 <= i <= j < kept.len() implies (#[trigger] kept[i]).due_at <= (
    #[trigger] kept[j]).due_at by {
        if i < j {
            assert(at[i] < at[j]);
        }
        assert(jobs[at[i]].due_at <= jobs[at[j]].due_at);
    }
}

/// Where the jobs before `n` are due by `now` and the others are not, the
/// jobs due by `now` are the first `n` and the later jobs are the rest.
proof fn lemma_due_prefix(jobs: Seq<Job>, now: int, n: int)
    requires
        0 <= n <= jobs.len(),
        forall|i: int| 0 <= i < n ==> (#[trigger] jobs[i]).due_at <= now,
        forall|i: int| n <= i < jobs.len() ==> (#[trigger] jobs[i]).due_at > now,
    ensures
        due_jobs(jobs, now) == jobs.take(n),
        later_jobs(jobs, now) == jobs.skip(n),
{
    let due = |job: Job| job.due_at <= now;
    let later = |job: Job| job.due_at > now;
    let head = jobs.take(n);
    let tail = jobs.skip(n);
    assert(head + tail =~= jobs);
    Seq::filter_distributes_over_add(head, tail, due);
    Seq::filter_distributes_over_add(head, tail, later);
    assert forall|i: int| 0 <= i < head.len() implies due(#[trigger] head[i]) && !later(head[i]) by {
        assert(head[i] == jobs[i]);
    }
    assert forall|i: int| 0 <= i < tail.len() implies later(#[trigger] tail[i]) && !due(tail[i]) by {
        assert(tail[i] == jobs[i + n]);
    }
    lemma_filter_keeps_all(head, due);
    lemma_filter_keeps_none(tail, due);
    lemma_filter_keeps_all(tail, later);
    lemma_filter_keeps_none(head, later);
    assert(head + Seq::<Job>::empty() =~= head);
    assert(Seq::<Job>::empty() + tail =~= tail);
}

/// Where a table ordered by due instant divides into the jobs due by `now`
/// and the later ones.
proof fn lemma_due_boundary(jobs: Seq<Job>, now: int) -> (n: int)
    requires
        ordered_by_due(jobs),
    ensures
        0 <= n <= jobs.len(),
        forall|i: int| 0 <= i < n ==> (#[trigger] jobs[i]).due_at <= now,
        forall|i: int| n <= i < jobs.len() ==> (#[trigger] jobs[i]).due_at > now,
    decreases jobs.len(),
{
    if jobs.len() == 0 {
        0
    } else if jobs.last().due_at <= now {
        assert forall|i: int| 0 <= i < jobs.len() implies (#[trigger] jobs[i]).due_at <= now by {
            assert(jobs[i].due_at <= jobs[jobs.len() - 1].due_at);
        }
        jobs.len() as int
    } else {
        let rest = jobs.drop_last();
        assert forall|i: int, j: int| 0 <= i <= j < rest.len() implies (#[trigger] rest[i]).due_at <= (
        #[trigger] rest[j]).due_at by {
            assert(rest[i] == jobs[i] && rest[j] == jobs[j]);
        }
        let n = lemma_due_boundary(rest, now);
        assert forall|i: int| 0 <= i < n implies (#[trigger] jobs[i]).due_at <= now by {
            assert(rest[i] == jobs[i]);
        }
        assert forall|i: int| n <= i < jobs.len() implies (#[trigger] jobs[i]).due_at > now by {
            if i < rest.len() {
                assert(rest[i] == jobs[i]);
            }
        }
        n
    }
}

/// A sequence is its first `n` elements followed by the others.
proof fn lemma_take_then_skip(s: Seq<Job>, n: int)
    requires
        0 <= n <= s.len(),
    ensures
        s.take(n) + s.skip(n) == s,
        s.take(n).len() == n,
{
    assert(s.take(n) + s.skip(n) =~= s);
}

/// In a table ordered by due instant, the jobs due by `now` are a prefix and
/// the later jobs are the rest.
pub proof fn lemma_due_then_later(jobs: Seq<Job>, now: int)
    requires
        ordered_by_due(jobs),
    ensures
        due_jobs(jobs, now) + later_jobs(jobs, now) == jobs,
        due_jobs(jobs, now) == jobs.take(due_jobs(jobs, now).len() as int),
        later_jobs(jobs, now) == jobs.skip(due_jobs(jobs, now).len() as int),
{
    let n = lemma_due_boundary(jobs, now);
    lemma_due_prefix(jobs, now, n);
    lemma_take_then_skip(jobs, n);
}

/// Putting a job with a new identity between the jobs due no later than it
/// and the later ones leaves a well-formed table.
proof fn lemma_insert_well_formed(jobs: Seq<Job>, n: int, job: Job)
    requires
        well_formed(jobs),
        !holds_identity(jobs, job),
        0 <= n <= jobs.len(),
        forall|i: int| 0 <= i < n ==> (#[trigger] jobs[i]).due_at <= job.due_at,
        forall|i: int| n <= i < jobs.len() ==> (#[trigger] jobs[i]).due_at > job.due_at,
    ensures
        well_formed(jobs.insert(n, job)),
{
    let grown = jobs.insert(n, job);
    assert forall|i: int| 0 <= i < jobs.len() implies !(#[trigger] jobs[i]).same_identity(job) by {
    }
    assert forall|i: int, j: int| 0 <= i < j < grown.len() implies !(#[trigger] grown[i]).same_identity(
        #[trigger] grown[j],
    ) by {
        let k = if i < n {
            i
        } else {
            i - 1
        };
        let l = if j < n {
            j
        } else {
            j - 1
        };
        if i == n {
            assert(!jobs[l].same_identity(job));
        } else if j == n {
            assert(!jobs[k].same_identity(job));
        } else {
            assert(!jobs[k].same_identity(jobs[l]));
        }
    }
    assert forall|i: int, j: int| 0 <= i <= j < grown.len() implies (#[trigger] grown[i]).due_at <= (
    #[trigger] grown[j]).due_at by {
        let k = if i < n {
            i
        } else {
            i - 1
        };
        let l = if j < n {
            j
        } else {
            j - 1
        };
        if i == n && j == n {
        } else if i == n {
            assert(jobs[l].due_at > job.due_at);
        } else if j == n {
            assert(jobs[k].due_at <= job.due_at);
        } else {
            assert(jobs[k].due_at <= jobs[l].due_at);
        }
    }
}

/// Offering a job to a well-formed table leaves a well-formed table that
/// holds the job's identity; it grows by one where the identity was new.
pub proof fn lemma_with_job_well_formed(jobs: Seq<Job>, job: Job)
    requires
        well_formed(jobs),
    ensures
        well_formed(with_job(jobs, job)),
        holds_identity(with_job(jobs, job), job),
        with_job(jobs, job).len() == if holds_identity(jobs, job) {
            jobs.len()
        } else {
            jobs.len() + 1
        },
{
    if !holds_identity(jobs, job) {
        let now = job.due_at as int;
        let n = lemma_due_boundary(jobs, now);
        lemma_due_prefix(jobs, now, n);
        let grown = with_job(jobs, job);
        assert(grown =~= jobs.insert(n, job));
        lemma_insert_well_formed(jobs, n, job);
        assert(grown[n].same_identity(job));
    }
}

/// After a job is offered, the table holds the identities that it held
/// before and that of the job, and no others.
pub proof fn lemma_with_job_holds(jobs: Seq<Job>, job: Job, other: Job)
    requires
        well_formed(jobs),
    ensures
        holds_identity(with_job(jobs, job), other) <==> (holds_identity(jobs, other)
            || job.same_identity(other)),
{
    if holds_identity(jobs, job) {
        if job.same_identity(other) {
            let i = choose|i: int| 0 <= i < jobs.len() && (#[trigger] jobs[i]).same_identity(job);
            assert(jobs[i].same_identity(other));
        }
    } else {
        let now = job.due_at as int;
        let n = lemma_due_boundary(jobs, now);
        lemma_due_prefix(jobs, now, n);
        let grown = with_job(jobs, job);
        assert(grown =~= jobs.insert(n, job));
        if holds_identity(grown, other) {
            let i = choose|i: int| 0 <= i < grown.len() && (#[trigger] grown[i]).same_identity(other);
            if i < n {
                assert(jobs[i].same_identity(other));
            } else if i > n {
                assert(jobs[i - 1].same_identity(other));
            }
        }
        if holds_identity(jobs, other) {
            let i = choose|i: int| 0 <= i < jobs.len() && (#[trigger] jobs[i]).same_identity(other);
            if i < n {
                assert(grown[i].same_identity(other));
            } else {
                assert(grown[i + 1].same_identity(other));
            }
        }
        if job.same_identity(other) {
            assert(grown[n].same_identity(other));
        }
    }
}

/// Offering the same job identity a second time is a conflict and changes
/// nothing: the table, and so the number of its jobs, stays as the first offer
/// left it.
pub proof fn lemma_second_insert_conflicts(jobs: Seq<Job>, job: Job, again: Job)
    requires
        well_formed(jobs),
        job.same_identity(again),
    ensures
        holds_identity(with_job(jobs, job), again),
        with_job(with_job(jobs, job), again) == with_job(jobs, job),
        with_job(with_job(jobs, job), again).len() == with_job(jobs, job).len(),
{
    lemma_with_job_well_formed(jobs, job);
    let first = with_job(jobs, job);
    let i = choose|i: int| 0 <= i < first.len() && (#[trigger] first[i]).same_identity(job);
    assert(first[i].same_identity(again));
}

/// A job that a claim at `now` has handed over is not pending any more: no
/// claim that follows, at `now` or at any other instant, hands over a job with
/// its identity, and a second claim at `now` hands over nothing at all.
pub proof fn lemma_claimed_at_most_once(jobs: Seq<Job>, now: int, claimed: Job, again: int)
    requires
        due_jobs(jobs, now).contains(claimed),
    ensures
        !holds_identity(later_jobs(jobs, now), claimed),
        !holds_identity(due_jobs(later_jobs(jobs, now), again), claimed),
        due_jobs(later_jobs(jobs, now), now) == Seq::<Job>::empty(),
{
    let due = |job: Job| job.due_at <= now;
    let later = |job: Job| job.due_at > now;
    let left = later_jobs(jobs, now);
    let i = choose|i: int| 0 <= i < due_jobs(jobs, now).len() && due_jobs(jobs, now)[i] == claimed;
    jobs.lemma_filter_pred(due, i);
    assert forall|k: int| 0 <= k < left.len() implies !due(#[trigger] left[k]) by {
        jobs.lemma_filter_pred(later, k);
    }
    lemma_filter_keeps_none(left, due);
    let second = due_jobs(left, again);
    let at = lemma_filter_embeds(left, |job: Job| job.due_at <= again);
    assert forall|k: int| 0 <= k < second.len() implies !(#[trigger] second[k]).same_identity(
        claimed,
    ) by {
        assert(second[k] == left[at[k]]);
        assert(!due(left[at[k]]));
    }
}

/// Once the jobs of a guild are deleted, the guild has no pending jobs.
pub proof fn lemma_deleted_guild_is_empty(jobs: Seq<Job>, guild_id: i64)
    ensures
        guild_jobs(without_guild(jobs, guild_id), guild_id) == Seq::<Job>::empty(),
{
    let others = |job: Job| job.guild_id != guild_id;
    let left = without_guild(jobs, guild_id);
    assert forall|k: int| 0 <= k < left.len() implies !(#[trigger] left[k].guild_id == guild_id) by {
        jobs.lemma_filter_pred(others, k);
    }
    lemma_filter_keeps_none(left, |job: Job| job.guild_id == guild_id);
}

/// Once the jobs of a user in a guild are deleted, no pending job has that
/// user in that guild as its subject.
pub proof fn lemma_deleted_owner_is_gone(jobs: Seq<Job>, user_id: i64, guild_id: i64, job: Job)
    requires
        without_owner(jobs, user_id, guild_id).contains(job),
    ensures
        !(job.user_id == user_id && job.guild_id == guild_id),
{
    let left = without_owner(jobs, user_id, guild_id);
    let i = choose|i: int| 0 <= i < left.len() && left[i] == job;
    jobs.lemma_filter_pred(|job: Job| !(job.user_id == user_id && job.guild_id == guild_id), i);
}

/// The jobs that a scan selects.
spec fn picked(jobs: Seq<Job>, selector: Selector) -> Seq<Job> {
    jobs.filter(|job: Job| selector.selects(job))
}

/// The jobs that a scan passes over.
spec fn passed_over(jobs: Seq<Job>, selector: Selector) -> Seq<Job> {
    jobs.filter(|job: Job| !selector.selects(job))
}

/// What each scan selects and passes over, in the terms of the contracts.
proof fn lemma_scans(jobs: Seq<Job>, now: i64, user_id: i64, guild_id: i64)
    ensures
        picked(jobs, Selector::DueBy(now)) == due_jobs(jobs, now as int),
        passed_over(jobs, Selector::DueBy(now)) == later_jobs(jobs, now as int),
        picked(jobs, Selector::InGuild(guild_id)) == guild_jobs(jobs, guild_id),
        passed_over(jobs, Selector::InGuild(guild_id)) == without_guild(jobs, guild_id),
        passed_over(jobs, Selector::OwnedBy(user_id, guild_id)) == without_owner(
            jobs,
            user_id,
            guild_id,
        ),
{
    let due = Selector::DueBy(now);
    let guild = Selector::InGuild(guild_id);
    let owner = Selector::OwnedBy(user_id, guild_id);
    lemma_filter_agree(jobs, |job: Job| due.selects(job), |job: Job| job.due_at <= now as int);
    lemma_filter_agree(jobs, |job: Job| !due.selects(job), |job: Job| job.due_at > now as int);
    lemma_filter_agree(jobs, |job: Job| guild.selects(job), |job: Job| job.guild_id == guild_id);
    lemma_filter_agree(jobs, |job: Job| !guild.selects(job), |job: Job| job.guild_id != guild_id);
    lemma_filter_agree(
        jobs,
        |job: Job| !owner.selects(job),
        |job: Job| !(job.user_id == user_id && job.guild_id == guild_id),
    );
}

/// Divides a table into the jobs that a scan selects and the others, each
/// part in the order of the table.
fn partition(jobs: &Vec<Job>, selector: &Selector) -> (parts: (Vec<Job>, Vec<Job>))
    ensures
        parts.0@ == picked(jobs@, *selector),
        parts.1@ == passed_over(jobs@, *selector),
{
    let mut chosen: Vec<Job> = Vec::new();
    let mut others: Vec<Job> = Vec::new();
    let mut i: usize = 0;
    proof {
        reveal(Seq::filter);
        assert(jobs@.take(0) =~= Seq::<Job>::empty());
    }
    while i < jobs.len()
        invariant
            0 <= i <= jobs.len(),
            chosen@ == picked(jobs@.take(i as int), *selector),
            others@ == passed_over(jobs@.take(i as int), *selector),
        decreases jobs.len() - i,
    {
        let job = jobs[i];
        proof {
            lemma_filter_next(jobs@, |job: Job| selector.selects(job), i as int);
            lemma_filter_next(jobs@, |job: Job| !selector.selects(job), i as int);
        }
        if selector.picks(&job) {
            chosen.push(job);
        } else {
            others.push(job);
        }
        i = i + 1;
    }
    proof {
        assert(jobs@.take(jobs.len() as int) =~= jobs@);
    }
    (chosen, others)
}

/// The table of pending jobs.
pub struct JobStore {
    jobs: Vec<Job>,
}

impl View for JobStore {
    type V = Seq<Job>;

    /// The pending jobs, in the order in which they fall due.
    closed spec fn view(&self) -> Seq<Job> {
        self.jobs@
    }
}

impl JobStore {
    /// What holds of every store: see [`well_formed`].
    pub open spec fn wf(&self) -> bool {
        well_formed(self@)
    }

    /// A store without jobs.
    pub fn new() -> (store: JobStore)
        ensures
            store.wf(),
            store@ == Seq::<Job>::empty(),
    {
        JobStore { jobs: Vec::new() }
    }

    /// The number of pending jobs of all guilds.
    pub fn count_jobs(&self) -> (count: usize)
        ensures
            count == self@.len(),
    {
        self.jobs.len()
    }

    /// Whether a job with the identity of `job` is pending.
    pub fn contains(&self, job: &Job) -> (found: bool)
        ensures
            found == holds_identity(self@, *job),
    {
        let mut i: usize = 0;
        while i < self.jobs.len()
            invariant
                0 <= i <= self.jobs.len(),
                forall|k: int| 0 <= k < i ==> !(#[trigger] self.jobs@[k]).same_identity(*job),
            decreases self.jobs.len() - i,
        {
            if self.jobs[i].is_same(job) {
                return true;
            }
            i = i + 1;
        }
        false
    }

    /// Adds `job` unless a job with its identity is pending, which is a
    /// conflict and leaves the store as it was.
    pub fn insert_job(&mut self, job: Job) -> (res: Result<(), Conflict>)
        requires
            old(self).wf(),
        ensures
            final(self).wf(),
            res is Err <==> holds_identity(old(self)@, job),
            final(self)@ == with_job(old(self)@, job),
    {
        if self.contains(&job) {
            return Err(Conflict);
        }
        let mut at: usize = 0;
        while at < self.jobs.len() && self.jobs[at].due_at <= job.due_at
            invariant
                0 <= at <= self.jobs.len(),
                forall|k: int| 0 <= k < at ==> (#[trigger] self.jobs@[k]).due_at <= job.due_at,
            decreases self.jobs.len() - at,
        {
            at = at + 1;
        }
        proof {
            let before = self.jobs@;
            assert forall|k: int| at <= k < before.len() implies (#[trigger] before[k]).due_at
                > job.due_at by {
                assert(before[at as int].due_at <= before[k].due_at);
            }
            lemma_due_prefix(before, job.due_at as int, at as int);
            lemma_insert_well_formed(before, at as int, job);
            assert(with_job(before, job) =~= before.insert(at as int, job));
        }
        self.jobs.insert(at, job);
        Ok(())
    }

    /// Takes out every job that has fallen due at `now` and hands them over.
    pub fn pop_executables(&mut self, now: i64) -> (due: Vec<Job>)
        requires
            old(self).wf(),
        ensures
            final(self).wf(),
            due@ == due_jobs(old(self)@, now as int),
            final(self)@ == later_jobs(old(self)@, now as int),
    {
        let (due, later) = partition(&self.jobs, &Selector::DueBy(now));
        proof {
            lemma_scans(self.jobs@, now, 0, 0);
            lemma_filter_well_formed(self.jobs@, |job: Job| job.due_at > now as int);
        }
        self.jobs = later;
        due
    }

    /// Removes the jobs that have `user_id` in `guild_id` as their subject
    /// and says how many they were.
    pub fn delete_guild_jobs(&mut self, user_id: i64, guild_id: i64) -> (removed: usize)
        requires
            old(self).wf(),
        ensures
            final(self).wf(),
            final(self)@ == without_owner(old(self)@, user_id, guild_id),
            removed == old(self)@.len() - final(self)@.len(),
    {
        let before: usize = self.jobs.len();
        let (_, kept) = partition(&self.jobs, &Selector::OwnedBy(user_id, guild_id));
        proof {
            lemma_scans(self.jobs@, 0, user_id, guild_id);
            lemma_filter_well_formed(
                self.jobs@,
                |job: Job| !(job.user_id == user_id && job.guild_id == guild_id),
            );
            self.jobs@.lemma_filter_len(
                |job: Job| !(job.user_id == user_id && job.guild_id == guild_id),
            );
        }
        self.jobs = kept;
        before - self.jobs.len()
    }

    /// Removes the jobs of `guild_id` and says how many they were.
    pub fn delete_by_guild(&mut self, guild_id: i64) -> (removed: usize)
        requires
            old(self).wf(),
        ensures
            final(self).wf(),
            final(self)@ == without_guild(old(self)@, guild_id),
            removed == old(self)@.len() - final(self)@.len(),
    {
        let before: usize = self.jobs.len();
        let (_, kept) = partition(&self.jobs, &Selector::InGuild(guild_id));
        proof {
            lemma_scans(self.jobs@, 0, 0, guild_id);
            lemma_filter_well_formed(self.jobs@, |job: Job| job.guild_id != guild_id);
            self.jobs@.lemma_filter_len(|job: Job| job.guild_id != guild_id);
        }
        self.jobs = kept;
        before - self.jobs.len()
    }

    /// The pending jobs of `guild_id`, those that fall due first coming first.
    pub fn get_guild_jobs(&self, guild_id: i64) -> (jobs: Vec<Job>)
        requires
            self.wf(),
        ensures
            jobs@ == guild_jobs(self@, guild_id),
            ordered_by_due(jobs@),
    {
        let (jobs, _) = partition(&self.jobs, &Selector::InGuild(guild_id));
        proof {
            lemma_scans(self.jobs@, 0, 0, guild_id);
            lemma_filter_well_formed(self.jobs@, |job: Job| job.guild_id == guild_id);
        }
        jobs
    }
}

} // verus!
