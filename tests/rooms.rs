use voice_rooms::prune::{
    category_of_trigger, prune_candidates, should_delete, ChannelInfo, DeleteOutcome, PruneError,
    PruneReport,
};
use voice_rooms::reconcile::{reconcile, Action, VoiceTransition};
use voice_rooms::registry::{parse_decimal, parse_entry, ConfigError, WatchRegistry};
use voice_rooms::room::{next_create_step, room_name, CreateError, CreateEvent, CreateStep};

fn registry_1_100() -> WatchRegistry {
    WatchRegistry::from_entries(vec![(1, 100)])
}

fn transition(guild: Option<u64>, user: u64, prev: Option<u64>, new: Option<u64>) -> VoiceTransition {
    VoiceTransition {
        guild_id: guild,
        user_id: user,
        member_display_name: "Ana".to_string(),
        previous_channel_id: prev,
        new_channel_id: new,
    }
}

/// Runs one sweep over `counts` in which every deletion succeeds.
fn sweep(counts: &[(u64, usize)]) -> PruneReport {
    let mut report = PruneReport::new();
    for &(id, n) in counts {
        if report.observe(id, n) {
            report.record(DeleteOutcome::Deleted);
        }
    }
    report
}

fn voice(id: u64, parent: u64) -> ChannelInfo {
    ChannelInfo { id, is_voice: true, parent_id: Some(parent) }
}

#[test]
fn prune_deletes_only_empty_non_trigger() {
    let channels = vec![voice(100, 7), voice(101, 7), voice(102, 7)];
    let cands = prune_candidates(100, 7, &channels);
    assert_eq!(cands, vec![101, 102]);
    let occupants = |id: u64| if id == 102 { 1 } else { 0 };
    let counts: Vec<(u64, usize)> = cands.iter().map(|&c| (c, occupants(c))).collect();
    assert_eq!(sweep(&counts).deleted, vec![101]);
}

#[test]
fn entering_trigger_creates_room_and_moves_user() {
    let plan = reconcile(&registry_1_100(), &transition(Some(1), 5, None, Some(100)));
    assert_eq!(plan, vec![Action::CreateRoom { guild: 1, trigger: 100, user: 5 }]);
    assert_eq!(next_create_step(100, CreateEvent::Start { current: Some(100) }), CreateStep::FetchGuild);
    assert_eq!(next_create_step(100, CreateEvent::GuildFetched { found: true }), CreateStep::FetchTrigger);
    let trig = CreateEvent::TriggerFetched { channel: Some(voice(100, 7)) };
    assert_eq!(next_create_step(100, trig), CreateStep::CreateChannel { category: 7 });
    let made = CreateEvent::ChannelCreated { channel: Some(555) };
    assert_eq!(next_create_step(100, made), CreateStep::MoveMember { channel: 555 });
    let moved = CreateEvent::MemberMoved { room: 555, moved: true };
    assert_eq!(next_create_step(100, moved), CreateStep::Finished { room: 555 });
}

#[test]
fn leaving_for_nowhere_prunes_now() {
    let plan = reconcile(&registry_1_100(), &transition(Some(1), 5, Some(100), None));
    assert_eq!(plan, vec![Action::PruneNow { trigger: 100 }]);
}

#[test]
fn unregistered_guild_is_ignored() {
    let reg = registry_1_100();
    assert!(reconcile(&reg, &transition(Some(9), 5, None, Some(100))).is_empty());
    assert!(reconcile(&reg, &transition(Some(9), 5, Some(100), None)).is_empty());
    assert!(reconcile(&reg, &transition(Some(9), 5, Some(3), Some(4))).is_empty());
    assert!(reconcile(&reg, &transition(None, 5, None, Some(100))).is_empty());
}

#[test]
fn switching_channels_spawns_prune() {
    let plan = reconcile(&registry_1_100(), &transition(Some(1), 5, Some(101), Some(102)));
    assert_eq!(plan, vec![Action::SpawnPrune { trigger: 100 }]);
}

#[test]
fn switching_into_trigger_prunes_then_creates() {
    let plan = reconcile(&registry_1_100(), &transition(Some(1), 5, Some(101), Some(100)));
    assert_eq!(
        plan,
        vec![
            Action::SpawnPrune { trigger: 100 },
            Action::CreateRoom { guild: 1, trigger: 100, user: 5 }
        ]
    );
}

#[test]
fn leaving_trigger_for_room_does_nothing() {
    assert!(reconcile(&registry_1_100(), &transition(Some(1), 5, Some(100), Some(101))).is_empty());
    assert!(reconcile(&registry_1_100(), &transition(Some(1), 5, Some(101), Some(101))).is_empty());
}

#[test]
fn second_sweep_deletes_nothing() {
    let counts = vec![(101, 0), (102, 2), (103, 0), (104, 1)];
    let first = sweep(&counts);
    assert_eq!(first.deleted, vec![101, 103]);
    let left: Vec<(u64, usize)> = vec![(102, 2), (104, 1)];
    let second = sweep(&left);
    assert!(second.deleted.is_empty());
    assert!(second.failed.is_empty());
    assert_eq!(second.observed, left);
}

#[test]
fn trigger_and_foreign_channels_are_not_candidates() {
    let channels = vec![
        voice(100, 7),
        ChannelInfo { id: 101, is_voice: false, parent_id: Some(7) },
        voice(102, 8),
        ChannelInfo { id: 103, is_voice: true, parent_id: None },
        voice(104, 7),
    ];
    assert_eq!(prune_candidates(100, 7, &channels), vec![104]);
    assert!(prune_candidates(100, 7, &vec![]).is_empty());
}

#[test]
fn occupied_channel_is_kept() {
    assert!(should_delete(0));
    assert!(!should_delete(1));
    let mut report = PruneReport::new();
    assert!(!report.observe(101, 3));
    assert_eq!(report.pending, None);
    report.record(DeleteOutcome::Deleted);
    assert!(report.deleted.is_empty());
    assert_eq!(report.observed, vec![(101, 3)]);
}

#[test]
fn prune_category_errors() {
    assert_eq!(category_of_trigger(None), Err(PruneError::TriggerNotFound));
    let loose = ChannelInfo { id: 100, is_voice: true, parent_id: None };
    assert_eq!(category_of_trigger(Some(loose)), Err(PruneError::NoCategory));
    assert_eq!(category_of_trigger(Some(voice(100, 7))), Ok(7));
}

#[test]
fn report_isolates_failures() {
    let mut report = PruneReport::new();
    assert!(report.observe(101, 0));
    assert_eq!(report.pending, Some(101));
    report.record(DeleteOutcome::Failed);
    assert_eq!(report.pending, None);
    assert!(report.observe(102, 0));
    report.record(DeleteOutcome::AlreadyGone);
    assert!(report.observe(103, 0));
    report.record(DeleteOutcome::Deleted);
    assert_eq!(report.deleted, vec![103]);
    assert_eq!(report.failed, vec![101]);
}

#[test]
fn create_errors() {
    let fail = |e| CreateStep::Failed { error: e };
    assert_eq!(next_create_step(100, CreateEvent::Start { current: Some(101) }), fail(CreateError::NotInTrigger));
    assert_eq!(next_create_step(100, CreateEvent::Start { current: None }), fail(CreateError::NotInTrigger));
    assert_eq!(next_create_step(100, CreateEvent::GuildFetched { found: false }), fail(CreateError::GuildNotFound));
    assert_eq!(
        next_create_step(100, CreateEvent::TriggerFetched { channel: None }),
        fail(CreateError::TriggerFetchFailed)
    );
    let loose = ChannelInfo { id: 100, is_voice: true, parent_id: None };
    assert_eq!(
        next_create_step(100, CreateEvent::TriggerFetched { channel: Some(loose) }),
        fail(CreateError::NoCategory)
    );
    assert_eq!(
        next_create_step(100, CreateEvent::ChannelCreated { channel: None }),
        fail(CreateError::CreateFailed)
    );
    assert_eq!(
        next_create_step(100, CreateEvent::MemberMoved { room: 5, moved: false }),
        fail(CreateError::MoveFailed)
    );
}

#[test]
fn room_is_named_after_member() {
    assert_eq!(room_name("Ana"), "Ana's room");
    assert_eq!(room_name(""), "'s room");
}

#[test]
fn entries_parse() {
    assert_eq!(parse_entry("1:100"), Ok((1, 100)));
    assert_eq!(parse_entry("18446744073709551615:0"), Ok((u64::MAX, 0)));
    assert_eq!(parse_entry("1100"), Err(ConfigError::MissingSeparator));
    assert_eq!(parse_entry(":100"), Err(ConfigError::BadGuildId));
    assert_eq!(parse_entry("x:100"), Err(ConfigError::BadGuildId));
    assert_eq!(parse_entry("18446744073709551616:1"), Err(ConfigError::BadGuildId));
    assert_eq!(parse_entry("1:"), Err(ConfigError::BadChannelId));
    assert_eq!(parse_entry("1:2:3"), Err(ConfigError::BadChannelId));
    assert_eq!(parse_decimal("a42b", 1, 3), Some(42));
}

#[test]
fn registry_from_vars() {
    let vars = vec![
        ("HOME".to_string(), "/root".to_string()),
        ("WATCH_CHANNEL_A".to_string(), "1:100".to_string()),
        ("WATCH_CHANNEL_B".to_string(), "2:200".to_string()),
        ("WATCH_CHANNEL_C".to_string(), "1:150".to_string()),
    ];
    let reg = WatchRegistry::from_vars(&vars).unwrap();
    assert_eq!(reg.lookup(1), Some(150));
    assert_eq!(reg.lookup(2), Some(200));
    assert_eq!(reg.lookup(9), None);
    assert_eq!(reg.entries(), vec![(1, 100), (2, 200), (1, 150)]);
    assert_eq!(reg.sweep_targets(), vec![200, 150]);
    let dup = vec![
        ("WATCH_CHANNEL_A".to_string(), "1:100".to_string()),
        ("WATCH_CHANNEL_B".to_string(), "1:100".to_string()),
        ("WATCH_CHANNEL_C".to_string(), "2:200".to_string()),
    ];
    let dup_reg = WatchRegistry::from_vars(&dup).unwrap();
    assert_eq!(dup_reg.lookup(1), Some(100));
    assert_eq!(dup_reg.sweep_targets(), vec![100, 200]);
    let bad = vec![("WATCH_CHANNELS".to_string(), "oops".to_string())];
    assert_eq!(WatchRegistry::from_vars(&bad).err(), Some(ConfigError::MissingSeparator));
    let ignored = vec![("WATCH".to_string(), "oops".to_string())];
    assert!(WatchRegistry::from_vars(&ignored).unwrap().entries().is_empty());
}
