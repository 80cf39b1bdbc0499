//! The event reconciler: from one voice-membership transition to the work it calls for.
use vstd::prelude::*;
use crate::registry::{WatchRegistry, trigger_in};

verus! {

/// One reported change of a user's voice channel.
pub struct VoiceTransition {
    pub guild_id: Option<u64>,
    pub user_id: u64,
    pub member_display_name: String,
    pub previous_channel_id: Option<u64>,
    pub new_channel_id: Option<u64>,
}

/// A piece of work that a transition calls for.
#[derive(PartialEq, Eq, Structural, Clone, Copy, Debug)]
pub enum Action {
    /// Prune the rooms beside this trigger, and finish before the next event.
    PruneNow { trigger: u64 },
    /// Prune the rooms beside this trigger in a detached task.
    SpawnPrune { trigger: u64 },
    /// Create a room for `user` beside `trigger` and move the user into it.
    CreateRoom { guild: u64, trigger: u64, user: u64 },
}

/// The detached prune that a move between two channels calls for, if any.
pub open spec fn switch_part(t: VoiceTransition, trigger: u64, new: u64) -> Seq<Action> {
    match t.previous_channel_id {
        Some(p) => if p != trigger && p != new {
            seq![Action::SpawnPrune { trigger }]
        } else {
            Seq::empty()
        },
        None => Seq::empty(),
    }
}

/// The creation that entering the trigger calls for, if any.
pub open spec fn create_part(t: VoiceTransition, guild: u64, trigger: u64, new: u64) -> Seq<Action> {
    if new == trigger {
        seq![Action::CreateRoom { guild, trigger, user: t.user_id }]
    } else {
        Seq::empty()
    }
}

/// The actions for transition `t` under the registry entries `reg`, in the
/// order in which they are to be started.
pub open spec fn plan_of(reg: Seq<(u64, u64)>, t: VoiceTransition) -> Seq<Action> {
    match t.guild_id {
        None => Seq::empty(),
        Some(g) => match trigger_in(reg, g) {
            None => Seq::empty(),
            Some(trigger) => match t.new_channel_id {
                None => seq![Action::PruneNow { trigger }],
                Some(n) => switch_part(t, trigger, n) + create_part(t, g, trigger, n),
            },
        },
    }
}

/// Classifies one transition against the registry.
pub fn reconcile(registry: &WatchRegistry, t: &VoiceTransition) -> (r: Vec<Action>)
    ensures
        r@ == plan_of(registry@, *t),
{
    let mut r: Vec<Action> = Vec::new();
    let g = match t.guild_id {
        None => return r,
        Some(g) => g,
    };
    let trigger = match registry.lookup(g) {
        None => return r,
        Some(c) => c,
    };
    let n = match t.new_channel_id {
        None => {
            r.push(Action::PruneNow { trigger });
            assert(r@ =~= seq![Action::PruneNow { trigger }]);
            return r;
        },
        Some(n) => n,
    };
    if let Some(p) = t.previous_channel_id {
        if p != trigger && p != n {
            r.push(Action::SpawnPrune { trigger });
        }
    }
    assert(r@ =~= switch_part(*t, trigger, n));
    if n == trigger {
        r.push(Action::CreateRoom { guild: g, trigger, user: t.user_id });
    }
    assert(r@ =~= switch_part(*t, trigger, n) + create_part(*t, g, trigger, n));
    r
}

/// Entering a registered trigger asks for exactly one room, as the last
/// action, for that user beside that trigger, and for no blocking prune.
pub proof fn lemma_trigger_entry_creates_once(registry: &WatchRegistry, t: VoiceTransition, g: u64, trigger: u64)
    requires
        t.guild_id == Some(g),
        registry.trigger_of(g) == Some(trigger),
        t.new_channel_id == Some(trigger),
    ensures
        plan_of(registry@, t).len() >= 1,
        plan_of(registry@, t).last() == (Action::CreateRoom { guild: g, trigger, user: t.user_id }),
        forall|i: int| 0 <= i < plan_of(registry@, t).len() - 1
            ==> !(#[trigger] plan_of(registry@, t)[i] is CreateRoom),
        forall|i: int| 0 <= i < plan_of(registry@, t).len()
            ==> !(#[trigger] plan_of(registry@, t)[i] is PruneNow),
{
    let p = plan_of(registry@, t);
    let a = switch_part(t, trigger, trigger);
    assert(p =~= a + seq![Action::CreateRoom { guild: g, trigger, user: t.user_id }]);
    assert forall|i: int| 0 <= i < p.len() - 1 implies !(#[trigger] p[i] is CreateRoom) by {
        assert(p[i] == a[i]);
    }
    assert forall|i: int| 0 <= i < p.len() implies !(#[trigger] p[i] is PruneNow) by {
        if i < a.len() {
            assert(p[i] == a[i]);
        }
    }
}

/// A disconnect from a watched guild asks for exactly one thing: a prune of
/// that guild's trigger that finishes before the next event is taken.
pub proof fn lemma_disconnect_prunes_first(registry: &WatchRegistry, t: VoiceTransition, g: u64, trigger: u64)
    requires
        t.guild_id == Some(g),
        registry.trigger_of(g) == Some(trigger),
        t.new_channel_id is None,
    ensures
        plan_of(registry@, t) == seq![Action::PruneNow { trigger }],
{
}

/// A transition in a guild that is not watched, or in no guild, asks for nothing.
pub proof fn lemma_unwatched_guild_ignored(registry: &WatchRegistry, t: VoiceTransition)
    requires
        t.guild_id is None || registry.trigger_of(t.guild_id->Some_0) is None,
    ensures
        plan_of(registry@, t).len() == 0,
{
}

} // verus!
