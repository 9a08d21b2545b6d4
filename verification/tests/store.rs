use snipebot::job::EventType;
use snipebot::job::Job;
use snipebot::store::Conflict;
use snipebot::store::JobStore;

fn disconnect(due_at: i64, user: u64, guild: u64) -> Job {
    Job::new(due_at, user, guild, EventType::Disconnect, 0)
}

fn notice(due_at: i64, user: u64, guild: u64) -> Job {
    Job::new(due_at, user, guild, EventType::Notification3Min, 0)
}

#[test]
fn new_store_is_empty() {
    let mut store = JobStore::new();
    assert_eq!(store.count_jobs(), 0);
    assert_eq!(store.get_guild_jobs(1), vec![]);
    assert_eq!(store.pop_executables(i64::MAX), vec![]);
}

#[test]
fn inserting_the_same_identity_twice_is_a_conflict() {
    let mut store = JobStore::new();
    assert_eq!(store.insert_job(disconnect(100, 1, 2)), Ok(()));
    assert_eq!(store.count_jobs(), 1);
    assert_eq!(store.insert_job(disconnect(100, 1, 2)), Err(Conflict));
    assert_eq!(store.count_jobs(), 1);
    assert_eq!(store.get_guild_jobs(2), vec![disconnect(100, 1, 2)]);
}

#[test]
fn a_different_offset_snapshot_is_still_the_same_job() {
    let mut store = JobStore::new();
    assert_eq!(store.insert_job(Job::new(100, 1, 2, EventType::Disconnect, 0)), Ok(()));
    assert_eq!(store.insert_job(Job::new(100, 1, 2, EventType::Disconnect, 9)), Err(Conflict));
    assert_eq!(store.get_guild_jobs(2), vec![Job::new(100, 1, 2, EventType::Disconnect, 0)]);
}

#[test]
fn jobs_that_differ_in_one_part_of_the_identity_are_all_kept() {
    let mut store = JobStore::new();
    assert_eq!(store.insert_job(disconnect(100, 1, 2)), Ok(()));
    assert_eq!(store.insert_job(notice(100, 1, 2)), Ok(()));
    assert_eq!(store.insert_job(disconnect(101, 1, 2)), Ok(()));
    assert_eq!(store.insert_job(disconnect(100, 3, 2)), Ok(()));
    assert_eq!(store.insert_job(disconnect(100, 1, 4)), Ok(()));
    assert_eq!(store.count_jobs(), 5);
    assert!(store.contains(&notice(100, 1, 2)));
    assert!(!store.contains(&notice(101, 1, 2)));
}

#[test]
fn guild_jobs_come_in_the_order_in_which_they_fall_due() {
    let mut store = JobStore::new();
    for due in [50, 10, 40, 20, 30] {
        assert_eq!(store.insert_job(disconnect(due, 1, 7)), Ok(()));
        assert_eq!(store.insert_job(disconnect(due + 5, 1, 8)), Ok(()));
    }
    assert_eq!(
        store.get_guild_jobs(7),
        vec![
            disconnect(10, 1, 7),
            disconnect(20, 1, 7),
            disconnect(30, 1, 7),
            disconnect(40, 1, 7),
            disconnect(50, 1, 7)
        ]
    );
    assert_eq!(store.count_jobs(), 10);
}

#[test]
fn jobs_due_at_the_same_instant_stay_in_insertion_order() {
    let mut store = JobStore::new();
    assert_eq!(store.insert_job(disconnect(10, 3, 7)), Ok(()));
    assert_eq!(store.insert_job(disconnect(10, 1, 7)), Ok(()));
    assert_eq!(store.insert_job(disconnect(5, 9, 7)), Ok(()));
    assert_eq!(store.insert_job(disconnect(10, 2, 7)), Ok(()));
    assert_eq!(
        store.get_guild_jobs(7),
        vec![disconnect(5, 9, 7), disconnect(10, 3, 7), disconnect(10, 1, 7), disconnect(10, 2, 7)]
    );
}

#[test]
fn claim_takes_every_job_due_by_now_and_leaves_the_rest() {
    let mut store = JobStore::new();
    for job in [disconnect(30, 1, 7), disconnect(10, 1, 7), notice(20, 2, 8), disconnect(21, 2, 9)] {
        assert_eq!(store.insert_job(job), Ok(()));
    }
    assert_eq!(store.pop_executables(9), vec![]);
    assert_eq!(store.count_jobs(), 4);
    // A job due exactly now is due.
    assert_eq!(store.pop_executables(20), vec![disconnect(10, 1, 7), notice(20, 2, 8)]);
    assert_eq!(store.count_jobs(), 2);
    assert_eq!(store.get_guild_jobs(8), vec![]);
    assert_eq!(store.get_guild_jobs(9), vec![disconnect(21, 2, 9)]);
}

#[test]
fn a_second_claim_at_the_same_instant_returns_nothing() {
    let mut store = JobStore::new();
    for due in [1, 2, 3, 10] {
        assert_eq!(store.insert_job(disconnect(due, 1, 7)), Ok(()));
    }
    let first = store.pop_executables(3);
    assert_eq!(first.len(), 3);
    assert_eq!(store.pop_executables(3), vec![]);
    let later = store.pop_executables(100);
    assert_eq!(later, vec![disconnect(10, 1, 7)]);
    for job in first {
        assert!(!later.contains(&job));
        assert!(!store.contains(&job));
    }
    assert_eq!(store.count_jobs(), 0);
}

#[test]
fn a_claimed_job_can_be_scheduled_anew() {
    let mut store = JobStore::new();
    assert_eq!(store.insert_job(disconnect(5, 1, 7)), Ok(()));
    assert_eq!(store.pop_executables(5), vec![disconnect(5, 1, 7)]);
    assert_eq!(store.insert_job(disconnect(5, 1, 7)), Ok(()));
    assert_eq!(store.count_jobs(), 1);
}

#[test]
fn delete_by_owner_removes_the_jobs_of_that_user_in_that_guild() {
    let mut store = JobStore::new();
    for job in [
        disconnect(10, 1, 7),
        notice(7, 1, 7),
        disconnect(10, 2, 7),
        disconnect(10, 1, 8),
        disconnect(20, 1, 7),
    ] {
        assert_eq!(store.insert_job(job), Ok(()));
    }
    assert_eq!(store.delete_guild_jobs(1, 7), 3);
    assert_eq!(store.count_jobs(), 2);
    assert_eq!(store.get_guild_jobs(7), vec![disconnect(10, 2, 7)]);
    assert_eq!(store.get_guild_jobs(8), vec![disconnect(10, 1, 8)]);
    assert_eq!(store.delete_guild_jobs(1, 7), 0);
    assert_eq!(store.delete_guild_jobs(5, 5), 0);
}

#[test]
fn delete_by_guild_leaves_the_guild_without_jobs() {
    let mut store = JobStore::new();
    for job in [disconnect(10, 1, 7), notice(7, 1, 7), disconnect(10, 2, 7), disconnect(10, 1, 8)] {
        assert_eq!(store.insert_job(job), Ok(()));
    }
    assert_eq!(store.delete_by_guild(7), 3);
    assert_eq!(store.get_guild_jobs(7), vec![]);
    assert_eq!(store.count_jobs(), 1);
    assert_eq!(store.delete_by_guild(7), 0);
    assert_eq!(store.get_guild_jobs(8), vec![disconnect(10, 1, 8)]);
}

#[test]
fn negative_column_values_are_guilds_like_any_other() {
    let mut store = JobStore::new();
    let job = Job { due_at: -5, user_id: -1, guild_id: i64::MIN, event_type: EventType::Disconnect, utc_offset: 0 };
    assert_eq!(store.insert_job(job), Ok(()));
    assert_eq!(store.get_guild_jobs(i64::MIN), vec![job]);
    assert_eq!(store.pop_executables(-6), vec![]);
    assert_eq!(store.pop_executables(-5), vec![job]);
}
