//! The room creator: the steps that give a user a room of their own beside the trigger.
use vstd::prelude::*;
use vstd::string::*;
use crate::prune::ChannelInfo;

verus! {

/// Why a room could not be made.
#[derive(PartialEq, Eq, Structural, Clone, Copy, Debug)]
pub enum CreateError {
    /// The user is no longer in the trigger channel.
    NotInTrigger,
    GuildNotFound,
    TriggerFetchFailed,
    /// The trigger channel belongs to no category.
    NoCategory,
    CreateFailed,
    /// The room was made but the user could not be moved into it; the empty
    /// room is left for the pruner.
    MoveFailed,
}

/// What the creator has just learned.
#[derive(PartialEq, Eq, Structural, Clone, Copy, Debug)]
pub enum CreateEvent {
    /// A creation begins; `current` is the user's channel as last reported.
    Start { current: Option<u64> },
    GuildFetched { found: bool },
    /// The trigger channel as fetched, or `None` where the fetch failed.
    TriggerFetched { channel: Option<ChannelInfo> },
    /// The new room, or `None` where it could not be made.
    ChannelCreated { channel: Option<u64> },
    MemberMoved { room: u64, moved: bool },
}

/// What the creator does next.
#[derive(PartialEq, Eq, Structural, Clone, Copy, Debug)]
pub enum CreateStep {
    FetchGuild,
    FetchTrigger,
    /// Create a voice channel in this category.
    CreateChannel { category: u64 },
    MoveMember { channel: u64 },
    Finished { room: u64 },
    Failed { error: CreateError },
}

/// The step that follows event `e` when a room is made beside `trigger`.
pub open spec fn create_step_of(trigger: u64, e: CreateEvent) -> CreateStep {
    match e {
        CreateEvent::Start { current } => if current == Some(trigger) {
            CreateStep::FetchGuild
        } else {
            CreateStep::Failed { error: CreateError::NotInTrigger }
        },
        CreateEvent::GuildFetched { found } => if found {
            CreateStep::FetchTrigger
        } else {
            CreateStep::Failed { error: CreateError::GuildNotFound }
        },
        CreateEvent::TriggerFetched { channel } => match channel {
            None => CreateStep::Failed { error: CreateError::TriggerFetchFailed },
            Some(c) => match c.parent_id {
                None => CreateStep::Failed { error: CreateError::NoCategory },
                Some(p) => CreateStep::CreateChannel { category: p },
            },
        },
        CreateEvent::ChannelCreated { channel } => match channel {
            None => CreateStep::Failed { error: CreateError::CreateFailed },
            Some(id) => CreateStep::MoveMember { channel: id },
        },
        CreateEvent::MemberMoved { room, moved } => if moved {
            CreateStep::Finished { room }
        } else {
            CreateStep::Failed { error: CreateError::MoveFailed }
        },
    }
}

/// Decides the creator's next step.
pub fn next_create_step(trigger: u64, e: CreateEvent) -> (r: CreateStep)
    ensures
        r == create_step_of(trigger, e),
{
    match e {
        CreateEvent::Start { current } => if current == Some(trigger) {
            CreateStep::FetchGuild
        } else {
            CreateStep::Failed { error: CreateError::NotInTrigger }
        },
        CreateEvent::GuildFetched { found } => if found {
            CreateStep::FetchTrigger
        } else {
            CreateStep::Failed { error: CreateError::GuildNotFound }
        },
        CreateEvent::TriggerFetched { channel } => match channel {
            None => CreateStep::Failed { error: CreateError::TriggerFetchFailed },
            Some(c) => match c.parent_id {
                None => CreateStep::Failed { error: CreateError::NoCategory },
                Some(p) => CreateStep::CreateChannel { category: p },
            },
        },
        CreateEvent::ChannelCreated { channel } => match channel {
            None => CreateStep::Failed { error: CreateError::CreateFailed },
            Some(id) => CreateStep::MoveMember { channel: id },
        },
        CreateEvent::MemberMoved { room, moved } => if moved {
            CreateStep::Finished { room }
        } else {
            CreateStep::Failed { error: CreateError::MoveFailed }
        },
    }
}

/// A room is only ever created in the category of the trigger channel as it
/// was fetched, and a user is only moved into the room that was just made.
pub proof fn lemma_room_beside_trigger(trigger: u64, e: CreateEvent)
    ensures
        create_step_of(trigger, e) is CreateChannel ==> (e is TriggerFetched
            && e->TriggerFetched_channel is Some
            && e->TriggerFetched_channel->Some_0.parent_id
                == Some(create_step_of(trigger, e)->CreateChannel_category)),
        create_step_of(trigger, e) is MoveMember ==> e == (CreateEvent::ChannelCreated {
            channel: Some(create_step_of(trigger, e)->MoveMember_channel),
        }),
{
}

/// The name of the room made for a member shown as `display`.
pub open spec fn room_name_of(display: Seq<char>) -> Seq<char> {
    display + "'s room"@
}

/// Names the room of a member shown as `display`.
pub fn room_name(display: &str) -> (r: String)
    ensures
        r@ == room_name_of(display@),
{
    let s = String::from_str(display);
    s.concat("'s room")
}

} // verus!
