//! Reading what a slash command carries: its name, its options, and the
//! users that it is aimed at.

use vstd::prelude::*;
use crate::text::same_text;

verus! {

/// The value of a command option.
#[derive(Clone, Debug, PartialEq, Eq)]
pub enum CommandDataOptionValue {
    String(String),
    Integer(i64),
    Boolean(bool),
    /// A user, by identifier.
    User(u64),
    /// A role, by identifier.
    Role(u64),
    /// A value of a kind that no command of this bot takes.
    Other,
}

/// One option of a command, as the user filled it in.
#[derive(Clone, Debug, PartialEq, Eq)]
pub struct CommandDataOption {
    pub name: String,
    pub resolved: Option<CommandDataOptionValue>,
}

/// Whether the option at `i` is the first one called `name`.
pub open spec fn is_first_named(options: Seq<CommandDataOption>, name: Seq<char>, i: int) -> bool {
    &&& 0 <= i < options.len()
    &&& options[i].name@ == name
    &&& forall|j: int| 0 <= j < i ==> (#[trigger] options[j]).name@ != name
}

/// The first option called `name`, if there is one.
pub open spec fn first_named(options: Seq<CommandDataOption>, name: Seq<char>) -> Option<
    CommandDataOption,
> {
    if exists|i: int| is_first_named(options, name, i) {
        Some(options[choose|i: int| is_first_named(options, name, i)])
    } else {
        None
    }
}

/// The text that an option holds, if it holds a text.
pub open spec fn text_of(option: Option<CommandDataOption>) -> Option<String> {
    match option {
        Some(CommandDataOption { resolved: Some(CommandDataOptionValue::String(s)), .. }) => Some(
            s,
        ),
        _ => None,
    }
}

/// The integer that an option holds, if it holds an integer.
pub open spec fn integer_of(option: Option<CommandDataOption>) -> Option<i64> {
    match option {
        Some(CommandDataOption { resolved: Some(CommandDataOptionValue::Integer(i)), .. }) => Some(
            i,
        ),
        _ => None,
    }
}

/// Finds the first option called `name`.
fn find_option<'a>(options: &'a Vec<CommandDataOption>, name: &str) -> (found: Option<
    &'a CommandDataOption,
>)
    ensures
        match found {
            Some(option) => first_named(options@, name@) == Some(*option),
            None => first_named(options@, name@) is None,
        },
{
    let mut i: usize = 0;
    while i < options.len()
        invariant
            0 <= i <= options.len(),
            forall|j: int| 0 <= j < i ==> (#[trigger] options@[j]).name@ != name@,
        decreases options.len() - i,
    {
        if same_text(options[i].name.as_str(), name) {
            proof {
                assert(is_first_named(options@, name@, i as int));
                let k = choose|k: int| is_first_named(options@, name@, k);
                if k < i {
                    assert(options@[k].name@ != name@);
                } else if i < k {
                    assert(options@[i as int].name@ != name@);
                }
            }
            return Some(&options[i]);
        }
        i = i + 1;
    }
    None
}

/// The text of the first option called `name`; `None` where there is no such
/// option, or where it holds no value or a value that is no text.
pub fn string_option_ref<'a>(options: &'a Vec<CommandDataOption>, name: &str) -> (value: Option<
    &'a String,
>)
    ensures
        match value {
            Some(s) => text_of(first_named(options@, name@)) == Some(*s),
            None => text_of(first_named(options@, name@)) is None,
        },
{
    match find_option(options, name) {
        Some(option) => match &option.resolved {
            Some(CommandDataOptionValue::String(s)) => Some(s),
            _ => None,
        },
        None => None,
    }
}

/// The integer of the first option called `name`; `None` where there is no
/// such option, or where it holds no value or a value that is no integer.
pub fn int_option_ref<'a>(options: &'a Vec<CommandDataOption>, name: &str) -> (value: Option<
    &'a i64,
>)
    ensures
        match value {
            Some(i) => integer_of(first_named(options@, name@)) == Some(*i),
            None => integer_of(first_named(options@, name@)) is None,
        },
{
    match find_option(options, name) {
        Some(option) => match &option.resolved {
            Some(CommandDataOptionValue::Integer(i)) => Some(i),
            _ => None,
        },
        None => None,
    }
}

/// The commands of the bot.
#[derive(Clone, Copy, Debug, PartialEq, Eq, Structural)]
pub enum CommandKind {
    /// Set or show the offset of the guild.
    Timezone,
    /// Schedule a disconnect.
    Snipe,
    /// Show the pending disconnects of the guild.
    Show,
    /// Clear the pending jobs of the caller.
    Clear,
}

/// The command that a name stands for.
pub open spec fn kind_of_name(name: Seq<char>) -> Option<CommandKind> {
    if name == "timezone"@ {
        Some(CommandKind::Timezone)
    } else if name == "snipe"@ {
        Some(CommandKind::Snipe)
    } else if name == "show"@ {
        Some(CommandKind::Show)
    } else if name == "clear"@ {
        Some(CommandKind::Clear)
    } else {
        None
    }
}

impl CommandKind {
    /// The command called `name`, if the bot has one.
    pub fn from_name(name: &str) -> (kind: Option<CommandKind>)
        ensures
            kind == kind_of_name(name@),
    {
        if same_text(name, "timezone") {
            Some(CommandKind::Timezone)
        } else if same_text(name, "snipe") {
            Some(CommandKind::Snipe)
        } else if same_text(name, "show") {
            Some(CommandKind::Show)
        } else if same_text(name, "clear") {
            Some(CommandKind::Clear)
        } else {
            None
        }
    }
}

/// A member of a guild with the roles that the member holds.
#[derive(Clone, Debug, PartialEq, Eq)]
pub struct Member {
    pub user_id: u64,
    pub roles: Vec<u64>,
}

/// Whether a request names `id`: as its user, or as a member that holds its
/// role.
pub open spec fn is_named(user: Option<u64>, role: Option<u64>, members: Seq<Member>, id: u64) -> bool {
    ||| user == Some(id)
    ||| role matches Some(r) && exists|i: int|
        0 <= i < members.len() && (#[trigger] members[i]).user_id == id && members[i].roles@.contains(
            r,
        )
}

/// Whether a request is aimed at `id`: at everyone it names and, where it
/// names nobody, at the user who made it.
pub open spec fn is_target(
    user: Option<u64>,
    role: Option<u64>,
    members: Seq<Member>,
    invoker: u64,
    id: u64,
) -> bool {
    ||| is_named(user, role, members, id)
    ||| id == invoker && forall|other: u64| !is_named(user, role, members, other)
}

/// Looking at one member more names whoever was named before, and that
/// member if it holds the role.
proof fn lemma_named_next(
    user: Option<u64>,
    role: Option<u64>,
    members: Seq<Member>,
    i: int,
    id: u64,
)
    requires
        0 <= i < members.len(),
    ensures
        is_named(user, role, members.take(i + 1), id) <==> (is_named(
            user,
            role,
            members.take(i),
            id,
        ) || (role matches Some(r) && members[i].user_id == id && members[i].roles@.contains(r))),
{
    let seen = members.take(i);
    let next = members.take(i + 1);
    assert(next[i] == members[i]);
    if user != Some(id) && role is Some {
        let r = role->Some_0;
        if is_named(user, role, next, id) {
            let j = choose|j: int|
                0 <= j < next.len() && (#[trigger] next[j]).user_id == id && next[j].roles@.contains(
                    r,
                );
            if j < i {
                assert(seen[j] == next[j]);
            }
        }
        if is_named(user, role, seen, id) {
            let j = choose|j: int|
                0 <= j < seen.len() && (#[trigger] seen[j]).user_id == id && seen[j].roles@.contains(
                    r,
                );
            assert(next[j] == seen[j]);
        }
    }
}

/// Whether `ids` holds `id`.
fn holds(ids: &Vec<u64>, id: u64) -> (found: bool)
    ensures
        found == ids@.contains(id),
{
    let mut i: usize = 0;
    while i < ids.len()
        invariant
            0 <= i <= ids.len(),
            forall|k: int| 0 <= k < i ==> ids@[k] != id,
        decreases ids.len() - i,
    {
        if ids[i] == id {
            return true;
        }
        i = i + 1;
    }
    false
}

/// The users that a request is aimed at, each of them once: the user that it
/// names and the members that hold the role that it names, or the user who
/// made the request where there is nobody else.
pub fn target_users(user: Option<u64>, role: Option<u64>, members: &Vec<Member>, invoker: u64) -> (targets:
    Vec<u64>)
    ensures
        targets@.no_duplicates(),
        forall|id: u64| targets@.contains(id) <==> is_target(user, role, members@, invoker, id),
{
    let mut targets: Vec<u64> = Vec::new();
    if let Some(u) = user {
        targets.push(u);
        assert(targets@[0] == u);
    }
    if let Some(r) = role {
        let mut i: usize = 0;
        while i < members.len()
            invariant
                0 <= i <= members.len(),
                role == Some(r),
                targets@.no_duplicates(),
                forall|id: u64|
                    targets@.contains(id) <==> is_named(user, role, members@.take(i as int), id),
            decreases members.len() - i,
        {
            let ghost before = targets@;
            let member = &members[i];
            let mut added = false;
            if holds(&member.roles, r) && !holds(&targets, member.user_id) {
                targets.push(member.user_id);
                added = true;
            }
            proof {
                assert forall|id: u64| targets@.contains(id) <==> is_named(
                    user,
                    role,
                    members@.take(i + 1),
                    id,
                ) by {
                    lemma_named_next(user, role, members@, i as int, id);
                    if added {
                        assert(targets@ =~= before.push(member.user_id));
                        assert(targets@[before.len() as int] == member.user_id);
                    }
                    if before.contains(id) {
                        let k = choose|k: int| 0 <= k < before.len() && before[k] == id;
                        assert(targets@[k] == id);
                    }
                    if targets@.contains(id) && !before.contains(id) {
                        let k = choose|k: int| 0 <= k < targets@.len() && targets@[k] == id;
                        if k < before.len() {
                            assert(before[k] == id);
                        }
                    }
                }
            }
            i = i + 1;
        }
        proof {
            assert(members@.take(i as int) =~= members@);
        }
    }
    if targets.len() == 0 {
        assert forall|other: u64| !is_named(user, role, members@, other) by {
            assert(!targets@.contains(other));
        }
        targets.push(invoker);
        assert(targets@[0] == invoker);
    } else {
        assert(targets@.contains(targets@[0]));
        assert(is_named(user, role, members@, targets@[0]));
    }
    targets
}

} // verus!
