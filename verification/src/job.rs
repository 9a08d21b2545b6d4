//! The rows of the two tables: pending jobs and guild settings.

use vstd::prelude::*;

verus! {

/// What happens when a job falls due.
#[derive(Clone, Copy, Debug, PartialEq, Eq, Structural, Hash)]
pub enum EventType {
    /// Remove the subject from voice chat.
    Disconnect,
    /// Warn the subject that the disconnect is imminent.
    Notification3Min,
}

/// The stored UTC offset of one guild, in whole hours.
#[derive(Clone, Copy, Debug, PartialEq, Eq, Structural)]
pub struct GuildSetting {
    pub guild_id: i64,
    pub utc_offset: i32,
}

/// One pending job. Jobs are immutable once created.
#[derive(Clone, Copy, Debug, PartialEq, Eq, Structural, Hash)]
pub struct Job {
    /// Seconds since the Unix epoch, UTC.
    pub due_at: i64,
    pub user_id: i64,
    pub guild_id: i64,
    pub event_type: EventType,
    /// The guild's offset, in hours, at the time the job was created.
    pub utc_offset: i32,
}

/// The signed 64-bit column value that stores an unsigned identifier: the same
/// 64 bits, read as two's complement.
pub open spec fn stored_id(id: u64) -> i64 {
    id as i64
}

/// The identifier that a column value stores.
pub open spec fn loaded_id(column: i64) -> u64 {
    column as u64
}

/// Storing an identifier and loading it again gives the identifier back.
pub proof fn lemma_stored_id_round_trip(id: u64)
    ensures
        loaded_id(stored_id(id)) == id,
{
    assert((id as i64) as u64 == id) by (bit_vector);
}

/// Distinct identifiers are stored as distinct column values.
pub proof fn lemma_stored_id_injective(a: u64, b: u64)
    requires
        stored_id(a) == stored_id(b),
    ensures
        a == b,
{
    lemma_stored_id_round_trip(a);
    lemma_stored_id_round_trip(b);
}

/// Converts an identifier to its column value.
pub fn to_column(id: u64) -> (column: i64)
    ensures
        column == stored_id(id),
{
    #[verifier::truncate]
    (id as i64)
}

impl Job {
    /// Two jobs are the same job when they agree on everything but the
    /// offset snapshot.
    pub open spec fn same_identity(self, other: Job) -> bool {
        &&& self.due_at == other.due_at
        &&& self.user_id == other.user_id
        &&& self.guild_id == other.guild_id
        &&& self.event_type == other.event_type
    }

    pub fn new(
        due_at: i64,
        user_id: u64,
        guild_id: u64,
        event_type: EventType,
        utc_offset: i32,
    ) -> (job: Job)
        ensures
            job == (Job {
                due_at,
                user_id: stored_id(user_id),
                guild_id: stored_id(guild_id),
                event_type,
                utc_offset,
            }),
    {
        Job { due_at, user_id: to_column(user_id), guild_id: to_column(guild_id), event_type, utc_offset }
    }

    /// The subject of the job.
    pub fn userid(&self) -> (id: u64)
        ensures
            id == loaded_id(self.user_id),
    {
        #[verifier::truncate]
        (self.user_id as u64)
    }

    /// The guild that the job belongs to.
    pub fn guildid(&self) -> (id: u64)
        ensures
            id == loaded_id(self.guild_id),
    {
        #[verifier::truncate]
        (self.guild_id as u64)
    }

    /// The due instant in seconds since the Unix epoch.
    pub fn timestamp(&self) -> (secs: i64)
        ensures
            secs == self.due_at,
    {
        self.due_at
    }

    /// Whether `other` is the same job as this one.
    pub fn is_same(&self, other: &Job) -> (same: bool)
        ensures
            same == self.same_identity(*other),
    {
        self.due_at == other.due_at && self.user_id == other.user_id && self.guild_id
            == other.guild_id && self.event_type == other.event_type
    }
}

} // verus!
