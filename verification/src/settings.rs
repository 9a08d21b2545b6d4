//! The table of guild settings: one UTC offset per guild.

use vstd::prelude::*;
use crate::job::GuildSetting;
use crate::timezone::is_valid_utc_offset;
use crate::timezone::valid_utc_offset;

verus! {

/// Why a setting could not be read or written.
#[derive(Clone, Copy, Debug, PartialEq, Eq, Structural)]
pub enum SettingError {
    /// The guild already has a setting.
    AlreadyExists,
    /// The guild has no setting.
    NotFound,
    /// The offset is outside the range that a guild may be set to.
    InvalidOffset,
}

/// Whether `rows` holds a row of `guild_id`.
pub open spec fn has_row(rows: Seq<GuildSetting>, guild_id: i64) -> bool {
    exists|i: int| 0 <= i < rows.len() && (#[trigger] rows[i]).guild_id == guild_id
}

/// The place of a row of `guild_id` in `rows`, where there is one.
pub open spec fn row_index(rows: Seq<GuildSetting>, guild_id: i64) -> int {
    choose|i: int| 0 <= i < rows.len() && (#[trigger] rows[i]).guild_id == guild_id
}

/// No two rows belong to the same guild.
pub open spec fn distinct_guilds(rows: Seq<GuildSetting>) -> bool {
    forall|i: int, j: int|
        0 <= i < j < rows.len() ==> (#[trigger] rows[i]).guild_id != (#[trigger] rows[j]).guild_id
}

/// The offset of each guild that has a row.
pub open spec fn offsets_of(rows: Seq<GuildSetting>) -> Map<i64, i32> {
    Map::new(
        |guild_id: i64| has_row(rows, guild_id),
        |guild_id: i64| rows[row_index(rows, guild_id)].utc_offset,
    )
}

/// Every offset of `offsets` is one that a guild may be set to.
pub open spec fn valid_offsets(offsets: Map<i64, i32>) -> bool {
    forall|guild_id: i64|
        (#[trigger] offsets.contains_key(guild_id)) ==> valid_utc_offset(offsets[guild_id] as int)
}

/// Among rows of distinct guilds, each row gives the offset of its guild.
proof fn lemma_row_gives_offset(rows: Seq<GuildSetting>, i: int)
    requires
        distinct_guilds(rows),
        0 <= i < rows.len(),
    ensures
        has_row(rows, rows[i].guild_id),
        offsets_of(rows)[rows[i].guild_id] == rows[i].utc_offset,
        row_index(rows, rows[i].guild_id) == i,
{
    let j = row_index(rows, rows[i].guild_id);
    if j < i {
        assert(rows[j].guild_id != rows[i].guild_id);
    } else if i < j {
        assert(rows[i].guild_id != rows[j].guild_id);
    }
}

/// A row of a guild that had none adds that guild's offset to the table.
proof fn lemma_row_pushed(rows: Seq<GuildSetting>, row: GuildSetting)
    requires
        distinct_guilds(rows),
        !has_row(rows, row.guild_id),
    ensures
        distinct_guilds(rows.push(row)),
        offsets_of(rows.push(row)) == offsets_of(rows).insert(row.guild_id, row.utc_offset),
{
    let after = rows.push(row);
    assert(after[rows.len() as int] == row);
    assert forall|g: i64| has_row(after, g) <==> (g == row.guild_id || has_row(rows, g)) by {
        if has_row(after, g) {
            let k = row_index(after, g);
            if k < rows.len() {
                assert(rows[k] == after[k]);
            }
        }
        if has_row(rows, g) {
            let k = row_index(rows, g);
            assert(after[k] == rows[k]);
        }
    }
    assert forall|g: i64| has_row(after, g) && g != row.guild_id implies offsets_of(after)[g]
        == offsets_of(rows)[g] by {
        let k = row_index(after, g);
        assert(rows[k] == after[k]);
        lemma_row_gives_offset(rows, k);
    }
    assert(offsets_of(after) =~= offsets_of(rows).insert(row.guild_id, row.utc_offset));
}

/// A new offset in the row of a guild changes that guild's offset in the
/// table.
proof fn lemma_row_updated(rows: Seq<GuildSetting>, i: int, utc_offset: i32)
    requires
        distinct_guilds(rows),
        0 <= i < rows.len(),
    ensures
        ({
            let row = GuildSetting { guild_id: rows[i].guild_id, utc_offset };
            &&& distinct_guilds(rows.update(i, row))
            &&& offsets_of(rows.update(i, row)) == offsets_of(rows).insert(
                rows[i].guild_id,
                utc_offset,
            )
        }),
{
    let row = GuildSetting { guild_id: rows[i].guild_id, utc_offset };
    let after = rows.update(i, row);
    assert forall|k: int| 0 <= k < rows.len() implies (#[trigger] after[k]).guild_id
        == rows[k].guild_id by {
    }
    assert forall|g: i64| has_row(after, g) <==> has_row(rows, g) by {
        if has_row(after, g) {
            let k = row_index(after, g);
            assert(rows[k].guild_id == after[k].guild_id);
        }
        if has_row(rows, g) {
            let k = row_index(rows, g);
            assert(after[k].guild_id == rows[k].guild_id);
        }
    }
    lemma_row_gives_offset(rows, i);
    assert forall|g: i64| has_row(after, g) implies offsets_of(after)[g] == (if g
        == rows[i].guild_id {
        utc_offset
    } else {
        offsets_of(rows)[g]
    }) by {
        let k = row_index(after, g);
        lemma_row_gives_offset(after, k);
        lemma_row_gives_offset(rows, k);
    }
    assert(offsets_of(after) =~= offsets_of(rows).insert(rows[i].guild_id, utc_offset));
}

/// Taking out the row of a guild takes that guild out of the table.
proof fn lemma_row_removed(rows: Seq<GuildSetting>, i: int)
    requires
        distinct_guilds(rows),
        0 <= i < rows.len(),
    ensures
        distinct_guilds(rows.remove(i)),
        offsets_of(rows.remove(i)) == offsets_of(rows).remove(rows[i].guild_id),
{
    let after = rows.remove(i);
    let origin = |k: int|
        if k < i {
            k
        } else {
            k + 1
        };
    assert forall|k: int| 0 <= k < after.len() implies #[trigger] after[k] == rows[origin(k)] by {
    }
    assert forall|k: int, l: int| 0 <= k < l < after.len() implies (#[trigger] after[k]).guild_id
        != (#[trigger] after[l]).guild_id by {
        assert(rows[origin(k)].guild_id != rows[origin(l)].guild_id);
    }
    lemma_row_gives_offset(rows, i);
    assert forall|g: i64| has_row(after, g) <==> (g != rows[i].guild_id && has_row(rows, g)) by {
        if has_row(after, g) {
            let k = row_index(after, g);
            assert(rows[origin(k)].guild_id == g);
            lemma_row_gives_offset(rows, origin(k));
        }
        if g != rows[i].guild_id && has_row(rows, g) {
            let k = row_index(rows, g);
            let moved = if k < i {
                k
            } else {
                k - 1
            };
            assert(after[moved].guild_id == g);
        }
    }
    assert forall|g: i64| has_row(after, g) implies offsets_of(after)[g] == offsets_of(rows)[g] by {
        let k = row_index(after, g);
        lemma_row_gives_offset(after, k);
        lemma_row_gives_offset(rows, origin(k));
    }
    assert(offsets_of(after) =~= offsets_of(rows).remove(rows[i].guild_id));
}

/// Settings of different guilds do not touch each other: writing them in
/// either order leaves the same table.
pub proof fn lemma_distinct_guilds_are_independent(
    offsets: Map<i64, i32>,
    first: i64,
    first_offset: i32,
    second: i64,
    second_offset: i32,
)
    requires
        first != second,
    ensures
        offsets.insert(first, first_offset).insert(second, second_offset) == offsets.insert(
            second,
            second_offset,
        ).insert(first, first_offset),
        offsets.insert(first, first_offset).insert(second, second_offset)[first] == first_offset,
{
    assert(offsets.insert(first, first_offset).insert(second, second_offset) =~= offsets.insert(
        second,
        second_offset,
    ).insert(first, first_offset));
}

/// The table of guild settings.
pub struct SettingStore {
    rows: Vec<GuildSetting>,
}

impl View for SettingStore {
    type V = Map<i64, i32>;

    /// The offset, in hours, of each guild that has a setting.
    closed spec fn view(&self) -> Map<i64, i32> {
        offsets_of(self.rows@)
    }
}

impl SettingStore {
    /// What holds of every store: each guild has at most one row, and every
    /// offset is one that a guild may be set to.
    pub closed spec fn wf(&self) -> bool {
        distinct_guilds(self.rows@) && valid_offsets(self@)
    }

    /// Every offset of a well-formed store is in range.
    pub proof fn lemma_offsets_in_range(&self)
        requires
            self.wf(),
        ensures
            valid_offsets(self@),
    {
    }

    /// A store without settings.
    pub fn new() -> (store: SettingStore)
        ensures
            store.wf(),
            store@ == Map::<i64, i32>::empty(),
    {
        let store = SettingStore { rows: Vec::new() };
        assert(store@ =~= Map::<i64, i32>::empty());
        store
    }

    /// Where the row of `guild_id` stands.
    fn find(&self, guild_id: i64) -> (at: Option<usize>)
        ensures
            at is Some <==> has_row(self.rows@, guild_id),
            at matches Some(i) ==> i < self.rows@.len() && self.rows@[i as int].guild_id == guild_id,
    {
        let mut i: usize = 0;
        while i < self.rows.len()
            invariant
                0 <= i <= self.rows.len(),
                forall|k: int| 0 <= k < i ==> (#[trigger] self.rows@[k]).guild_id != guild_id,
            decreases self.rows.len() - i,
        {
            if self.rows[i].guild_id == guild_id {
                return Some(i);
            }
            i = i + 1;
        }
        None
    }

    /// The setting of `guild_id`.
    pub fn get_guild_setting(&self, guild_id: i64) -> (res: Result<GuildSetting, SettingError>)
        requires
            self.wf(),
        ensures
            res is Ok <==> self@.contains_key(guild_id),
            res matches Ok(setting) ==> setting == (GuildSetting {
                guild_id,
                utc_offset: self@[guild_id],
            }) && valid_utc_offset(setting.utc_offset as int),
            res matches Err(e) ==> e == SettingError::NotFound,
    {
        match self.find(guild_id) {
            Some(i) => {
                proof {
                    lemma_row_gives_offset(self.rows@, i as int);
                    assert(self@.contains_key(guild_id));
                }
                Ok(self.rows[i])
            },
            None => Err(SettingError::NotFound),
        }
    }

    /// Gives `guild_id` its first setting.
    ///
    /// An offset out of range is refused; so is a guild that has a setting.
    pub fn insert_guild_setting(&mut self, guild_id: i64, utc_offset: i64) -> (res: Result<
        (),
        SettingError,
    >)
        requires
            old(self).wf(),
        ensures
            final(self).wf(),
            res == (if !valid_utc_offset(utc_offset as int) {
                Err(SettingError::InvalidOffset)
            } else if old(self)@.contains_key(guild_id) {
                Err(SettingError::AlreadyExists)
            } else {
                Ok(())
            }),
            res is Ok ==> final(self)@ == old(self)@.insert(guild_id, utc_offset as i32),
            res is Err ==> final(self)@ == old(self)@,
    {
        if !is_valid_utc_offset(utc_offset) {
            return Err(SettingError::InvalidOffset);
        }
        if self.find(guild_id).is_some() {
            return Err(SettingError::AlreadyExists);
        }
        let row = GuildSetting { guild_id, utc_offset: utc_offset as i32 };
        proof {
            lemma_row_pushed(self.rows@, row);
        }
        self.rows.push(row);
        Ok(())
    }

    /// Changes the offset of `guild_id`.
    ///
    /// An offset out of range is refused; so is a guild without a setting.
    pub fn update_guild_setting(&mut self, guild_id: i64, utc_offset: i64) -> (res: Result<
        (),
        SettingError,
    >)
        requires
            old(self).wf(),
        ensures
            final(self).wf(),
            res == (if !valid_utc_offset(utc_offset as int) {
                Err(SettingError::InvalidOffset)
            } else if !old(self)@.contains_key(guild_id) {
                Err(SettingError::NotFound)
            } else {
                Ok(())
            }),
            res is Ok ==> final(self)@ == old(self)@.insert(guild_id, utc_offset as i32),
            res is Err ==> final(self)@ == old(self)@,
    {
        if !is_valid_utc_offset(utc_offset) {
            return Err(SettingError::InvalidOffset);
        }
        match self.find(guild_id) {
            None => Err(SettingError::NotFound),
            Some(i) => {
                proof {
                    lemma_row_updated(self.rows@, i as int, utc_offset as i32);
                }
                self.rows[i] = GuildSetting { guild_id, utc_offset: utc_offset as i32 };
                Ok(())
            },
        }
    }

    /// Removes the setting of `guild_id` and says whether there was one.
    pub fn delete_guild_setting(&mut self, guild_id: i64) -> (removed: bool)
        requires
            old(self).wf(),
        ensures
            final(self).wf(),
            removed == old(self)@.contains_key(guild_id),
            final(self)@ == old(self)@.remove(guild_id),
    {
        match self.find(guild_id) {
            None => {
                assert(self@ =~= self@.remove(guild_id));
                false
            },
            Some(i) => {
                proof {
                    lemma_row_removed(self.rows@, i as int);
                }
                self.rows.remove(i);
                true
            },
        }
    }

    /// The settings of all guilds, one row each.
    pub fn get_settings(&self) -> (rows: Vec<GuildSetting>)
        requires
            self.wf(),
        ensures
            distinct_guilds(rows@),
            offsets_of(rows@) == self@,
    {
        self.rows.clone()
    }
}

} // verus!
