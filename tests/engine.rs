use joinme::compose::{latest_own_message, trigger_text};
use joinme::ingest::{activity_events, activity_names, Decision, PresenceActivity};
use joinme::silence::{silence_target, SilenceForOption};
use joinme::state::{remove_scope, GuildChannel, State};
use joinme::tables::{StoreError, Tables};
use joinme::watcher::{check_eligibility, ActivityWatcher, Eligibility, SilencedUntil, DEBOUNCE_MILLIS};

const GUILD: u64 = 10;
const USER: u64 = 20;
const CHANNEL: u64 = 30;
const MINUTE: u64 = 60_000;

fn channel() -> GuildChannel {
    GuildChannel { guild_id: GUILD, id: CHANNEL }
}

fn event(name: &str, started_at: u64) -> joinme::ingest::ActivityEvent {
    joinme::ingest::ActivityEvent { user_id: USER, guild_id: GUILD, activity_name: name.to_string(), started_at }
}

fn watcher_named(state: &State, name: &str) -> ActivityWatcher {
    let ws = state.get_watchers(USER, GUILD, name);
    assert_eq!(ws.len(), 1);
    ws[0].duplicate()
}

/// Plans the event and records every planned send; returns the texts sent.
fn dispatch(state: &mut State, name: &str, started_at: u64, now: u64, choice: u64) -> Vec<String> {
    let plans = state.plan_dispatches(&event(name, started_at), now, choice);
    let mut sent = Vec::new();
    for plan in plans {
        if let Decision::Send(m) = plan.decision {
            let mut w = plan.watcher;
            if state.record_dispatch(&mut w, started_at, now) {
                sent.push(m.message);
            }
        }
    }
    sent
}

#[test]
fn add_trigger_creates_watcher_once() {
    let mut state = State::new();
    let a = state.add_triggered_message(channel(), USER, "Chess", "hello").unwrap();
    let b = state.add_triggered_message(channel(), USER, "Chess", "again").unwrap();
    assert_eq!(state.tables.watchers.len(), 1);
    assert_eq!(state.tables.messages.len(), 2);
    assert_eq!(a.activity_watcher, b.activity_watcher);
    assert_ne!(a.id, b.id);
    assert_eq!(a.message, "hello");
    let other = GuildChannel { guild_id: GUILD, id: CHANNEL + 1 };
    let c = state.add_triggered_message(other, USER, "Chess", "elsewhere").unwrap();
    assert_ne!(c.activity_watcher, a.activity_watcher);
    assert_eq!(state.get_watchers(USER, GUILD, "Chess").len(), 2);
}

#[test]
fn add_trigger_fails_whole_when_ids_run_out() {
    let mut state = State::new();
    state.tables.next_message_id = u64::MAX;
    let r = state.add_triggered_message(channel(), USER, "Chess", "hello");
    assert!(matches!(r, Err(StoreError::IdsExhausted)));
    assert_eq!(state.tables.watchers.len(), 0);
    assert_eq!(state.tables.messages.len(), 0);
}

#[test]
fn first_event_dispatches_and_records() {
    let mut state = State::new();
    state.add_triggered_message(channel(), USER, "Chess", "go").unwrap();
    let sent = dispatch(&mut state, "Chess", 1_000, 2_000, 0);
    assert_eq!(sent, vec!["go".to_string()]);
    let w = watcher_named(&state, "Chess");
    assert_eq!(w.last_triggered, Some(2_000));
    assert_eq!(w.silenced_until, Some(SilencedUntil::At(2_000 + DEBOUNCE_MILLIS)));
}

#[test]
fn no_duplicate_for_earlier_or_equal_start() {
    let mut state = State::new();
    state.add_triggered_message(channel(), USER, "Chess", "go").unwrap();
    assert_eq!(dispatch(&mut state, "Chess", 1_000, 2_000, 0).len(), 1);
    let later = 2_000 + 10 * MINUTE;
    assert!(dispatch(&mut state, "Chess", 1_000, later, 0).is_empty());
    assert!(dispatch(&mut state, "Chess", 1_500, later, 0).is_empty());
    assert!(dispatch(&mut state, "Chess", 2_000, later, 0).is_empty());
    let plans = state.plan_dispatches(&event("Chess", 1_500), later, 0);
    assert!(matches!(plans[0].decision, Decision::AlreadyTriggered));
}

#[test]
fn racing_writes_for_one_start_record_once() {
    let mut state = State::new();
    state.add_triggered_message(channel(), USER, "Chess", "go").unwrap();
    let plans: Vec<_> = (0..5).map(|_| state.plan_dispatches(&event("Chess", 1_000), 2_000, 0)).collect();
    let mut wins = 0;
    for (i, plan) in plans.into_iter().enumerate() {
        assert!(matches!(plan[0].decision, Decision::Send(_)));
        let mut w = plan[0].watcher.duplicate();
        if state.record_dispatch(&mut w, 1_000, 2_000 + i as u64) {
            wins += 1;
        }
    }
    assert_eq!(wins, 1);
}

#[test]
fn debounce_window_silences_then_releases() {
    let mut state = State::new();
    state.add_triggered_message(channel(), USER, "Chess", "go").unwrap();
    let t = 100 * MINUTE;
    assert_eq!(dispatch(&mut state, "Chess", t - MINUTE, t, 0).len(), 1);
    let plans = state.plan_dispatches(&event("Chess", t + MINUTE), t + 4 * MINUTE, 0);
    assert!(matches!(plans[0].decision, Decision::Silenced));
    assert!(dispatch(&mut state, "Chess", t + MINUTE, t + 4 * MINUTE, 0).is_empty());
    let sent = dispatch(&mut state, "Chess", t + 5 * MINUTE + 1, t + 6 * MINUTE, 0);
    assert_eq!(sent, vec!["go".to_string()]);
}

#[test]
fn silenced_skip_keeps_eligibility_clock() {
    let mut state = State::new();
    state.add_triggered_message(channel(), USER, "Chess", "go").unwrap();
    state.silence_triggers(channel(), USER, None, SilencedUntil::At(10_000));
    assert!(dispatch(&mut state, "Chess", 1_000, 5_000, 0).is_empty());
    let w = watcher_named(&state, "Chess");
    assert_eq!(w.last_triggered, None);
    assert_eq!(dispatch(&mut state, "Chess", 1_000, 10_000, 0).len(), 1);
}

#[test]
fn watcher_without_messages_skips() {
    let mut state = State::new();
    let m = state.add_triggered_message(channel(), USER, "Chess", "go").unwrap();
    let mut tx = state.begin();
    joinme::message::ActivityMessage::delete_all_by_activity_watcher(&mut tx.staged, m.activity_watcher);
    state.commit(tx);
    let plans = state.plan_dispatches(&event("Chess", 1_000), 2_000, 0);
    assert_eq!(plans.len(), 1);
    assert!(matches!(plans[0].decision, Decision::NoMessages));
}

#[test]
fn remove_all_triggers_clears_watcher_and_messages() {
    let mut state = State::new();
    for text in ["A", "B", "C"] {
        state.add_triggered_message(channel(), USER, "Chess", text).unwrap();
    }
    state.add_triggered_message(channel(), USER, "Go", "keep").unwrap();
    let removed = state.remove_all_triggered_messages(channel(), USER, Some("Chess"));
    let texts: Vec<_> = removed.iter().map(|m| m.message.clone()).collect();
    assert_eq!(texts, vec!["A", "B", "C"]);
    assert_eq!(state.tables.watchers.len(), 1);
    assert_eq!(state.tables.messages.len(), 1);
    assert_eq!(state.tables.messages[0].message, "keep");
    assert!(state.get_watchers(USER, GUILD, "Chess").is_empty());
}

#[test]
fn abandoned_cleanup_leaves_rows_intact() {
    let mut state = State::new();
    for text in ["A", "B", "C"] {
        state.add_triggered_message(channel(), USER, "Chess", text).unwrap();
    }
    let mut tx = state.begin();
    let removed = remove_scope(&mut tx.staged, channel(), USER, None);
    assert_eq!(removed.len(), 3);
    assert_eq!(tx.staged.messages.len(), 0);
    assert_eq!(tx.staged.watchers.len(), 0);
    drop(tx);
    assert_eq!(state.tables.messages.len(), 3);
    assert_eq!(state.tables.watchers.len(), 1);
}

#[test]
fn remove_all_without_filter_spares_other_channels() {
    let mut state = State::new();
    state.add_triggered_message(channel(), USER, "Chess", "A").unwrap();
    state.add_triggered_message(channel(), USER, "Go", "B").unwrap();
    let other = GuildChannel { guild_id: GUILD, id: CHANNEL + 1 };
    state.add_triggered_message(other, USER, "Chess", "C").unwrap();
    let removed = state.remove_all_triggered_messages(channel(), USER, None);
    assert_eq!(removed.len(), 2);
    assert_eq!(state.tables.watchers.len(), 1);
    assert_eq!(state.tables.messages[0].message, "C");
}

#[test]
fn uniform_selection_over_three_messages() {
    let mut state = State::new();
    for text in ["A", "B", "C"] {
        state.add_triggered_message(channel(), USER, "Chess", text).unwrap();
    }
    let w = watcher_named(&state, "Chess");
    let mut counts = std::collections::HashMap::new();
    for choice in 0..3000u64 {
        let m = state.query_random_message_for_watcher(&w, choice).unwrap();
        *counts.entry(m.message).or_insert(0) += 1;
    }
    assert_eq!(counts.len(), 3);
    for text in ["A", "B", "C"] {
        assert_eq!(counts[text], 1000);
    }
    let mut seed: u64 = 0x2545_f491_4f6c_dd1d;
    let mut sampled = std::collections::HashMap::new();
    for _ in 0..3000 {
        seed ^= seed << 13;
        seed ^= seed >> 7;
        seed ^= seed << 17;
        let m = state.query_random_message_for_watcher(&w, seed).unwrap();
        *sampled.entry(m.message).or_insert(0) += 1;
    }
    for text in ["A", "B", "C"] {
        let n = sampled[text];
        assert!(n > 850 && n < 1150, "{} picked {} times", text, n);
    }
}

#[test]
fn selection_on_empty_watcher_is_none() {
    let state = State::new();
    let w = ActivityWatcher {
        id: 7,
        guild_id: GUILD,
        user_id: USER,
        activity_name: "Chess".to_string(),
        channel_id: CHANNEL,
        last_triggered: None,
        silenced_until: None,
    };
    assert!(state.query_random_message_for_watcher(&w, 3).is_none());
}

#[test]
fn manual_silence_overrides_automatic_and_unsilence_clears() {
    let mut state = State::new();
    state.add_triggered_message(channel(), USER, "Chess", "go").unwrap();
    let t = 100 * MINUTE;
    assert_eq!(dispatch(&mut state, "Chess", t - MINUTE, t, 0).len(), 1);
    let hour_later = silence_target(Some(SilenceForOption::Hour), t);
    assert_eq!(hour_later, SilencedUntil::At(t + 60 * MINUTE));
    let silenced = state.silence_triggers(channel(), USER, Some("Chess"), hour_later);
    assert_eq!(silenced.len(), 1);
    assert_eq!(silenced[0].silenced_until, Some(SilencedUntil::At(t + 60 * MINUTE)));
    let plans = state.plan_dispatches(&event("Chess", t + 10 * MINUTE), t + 30 * MINUTE, 0);
    assert!(matches!(plans[0].decision, Decision::Silenced));
    let cleared = state.unsilence_triggers(channel(), USER, Some("Chess"));
    assert_eq!(cleared[0].silenced_until, None);
    let sent = dispatch(&mut state, "Chess", t + 10 * MINUTE, t + 30 * MINUTE, 0);
    assert_eq!(sent, vec!["go".to_string()]);
}

#[test]
fn indefinite_silence_holds_until_cleared() {
    let mut state = State::new();
    state.add_triggered_message(channel(), USER, "Chess", "go").unwrap();
    let forever = silence_target(None, 0);
    assert_eq!(forever, SilencedUntil::Indefinitely);
    state.silence_triggers(channel(), USER, None, forever);
    assert!(dispatch(&mut state, "Chess", 1, u64::MAX - DEBOUNCE_MILLIS, 0).is_empty());
    state.unsilence_triggers(channel(), USER, None);
    assert_eq!(dispatch(&mut state, "Chess", 1, 2, 0).len(), 1);
}

#[test]
fn silence_other_activity_leaves_watcher_alone() {
    let mut state = State::new();
    state.add_triggered_message(channel(), USER, "Chess", "go").unwrap();
    let silenced = state.silence_triggers(channel(), USER, Some("Go"), SilencedUntil::Indefinitely);
    assert!(silenced.is_empty());
    assert_eq!(watcher_named(&state, "Chess").silenced_until, None);
}

#[test]
fn silence_option_lengths() {
    assert_eq!(SilenceForOption::Hour.seconds(), 3600);
    assert_eq!(SilenceForOption::ThreeHours.seconds(), 10800);
    assert_eq!(SilenceForOption::Day.seconds(), 86400);
    assert_eq!(SilenceForOption::Week.seconds(), 604800);
    assert_eq!(SilenceForOption::Week.millis(), 604_800_000);
    assert_eq!(silence_target(Some(SilenceForOption::Day), 5), SilencedUntil::At(5 + 86_400_000));
}

#[test]
fn eligibility_rules() {
    let mut w = ActivityWatcher {
        id: 1,
        guild_id: GUILD,
        user_id: USER,
        activity_name: "Chess".to_string(),
        channel_id: CHANNEL,
        last_triggered: None,
        silenced_until: None,
    };
    assert_eq!(check_eligibility(&w, 0, 0), Eligibility::Eligible);
    w.last_triggered = Some(50);
    assert_eq!(check_eligibility(&w, 50, 100), Eligibility::AlreadyTriggered);
    assert_eq!(check_eligibility(&w, 51, 100), Eligibility::Eligible);
    w.silenced_until = Some(SilencedUntil::At(100));
    assert_eq!(check_eligibility(&w, 51, 99), Eligibility::Silenced);
    assert_eq!(check_eligibility(&w, 51, 100), Eligibility::Eligible);
    assert_eq!(check_eligibility(&w, 40, 99), Eligibility::AlreadyTriggered);
}

#[test]
fn remove_single_message_checks_owner() {
    let mut state = State::new();
    let m = state.add_triggered_message(channel(), USER, "Chess", "go").unwrap();
    assert!(!state.remove_triggered_message(channel(), USER + 1, m.id));
    let other = GuildChannel { guild_id: GUILD, id: CHANNEL + 1 };
    assert!(!state.remove_triggered_message(other, USER, m.id));
    assert!(state.get_triggered_message(channel(), USER, m.id).is_some());
    assert!(state.get_triggered_message(channel(), USER + 1, m.id).is_none());
    assert!(state.remove_triggered_message(channel(), USER, m.id));
    assert!(state.tables.messages.is_empty());
    assert!(!state.remove_triggered_message(channel(), USER, m.id));
}

#[test]
fn remove_single_message_needs_its_own_watcher() {
    let mut state = State::new();
    state.add_triggered_message(channel(), USER, "Chess", "mine").unwrap();
    let theirs = state.add_triggered_message(channel(), USER + 1, "Chess", "theirs").unwrap();
    assert!(!state.remove_triggered_message(channel(), USER, theirs.id));
    assert_eq!(state.tables.messages.len(), 2);
}

#[test]
fn list_and_channel_queries() {
    let mut state = State::new();
    state.add_triggered_message(channel(), USER, "Chess", "A").unwrap();
    state.add_triggered_message(channel(), USER, "Go", "B").unwrap();
    state.add_triggered_message(channel(), USER + 1, "Chess", "C").unwrap();
    let (ws, ms) = state.get_watchers_and_messages(channel(), USER);
    assert_eq!(ws.len(), 2);
    assert_eq!(ms.len(), 2);
    let (ws, ms) = state.list_triggers(channel(), USER, Some("Go"));
    assert_eq!(ws.len(), 1);
    assert_eq!(ws[0].activity_name, "Go");
    assert_eq!(ms.len(), 1);
    assert_eq!(ms[0].message, "B");
}

#[test]
fn watcher_delete_needs_messages_gone() {
    let mut state = State::new();
    let m = state.add_triggered_message(channel(), USER, "Chess", "go").unwrap();
    let w = watcher_named(&state, "Chess");
    assert_eq!(w.duplicate().delete(&mut state.tables), Err(StoreError::WatcherInUse));
    let removed = w.delete_messages(&mut state.tables);
    assert_eq!(removed.len(), 1);
    assert_eq!(removed[0].id, m.id);
    assert_eq!(w.duplicate().delete(&mut state.tables), Ok(()));
    assert_eq!(w.delete(&mut state.tables), Err(StoreError::MissingWatcher));
}

#[test]
fn message_for_missing_watcher_is_refused() {
    let mut state = State::new();
    let r = joinme::message::ActivityMessage::create(&mut state.tables, 99, "orphan");
    assert!(matches!(r, Err(StoreError::MissingWatcher)));
    assert!(state.tables.messages.is_empty());
}

#[test]
fn presence_events_skip_blank_names() {
    let activities = vec![
        PresenceActivity { name: "".to_string(), started_at: Some(5) },
        PresenceActivity { name: "Chess".to_string(), started_at: Some(7) },
        PresenceActivity { name: "Go".to_string(), started_at: None },
        PresenceActivity { name: "   ".to_string(), started_at: Some(9) },
        PresenceActivity { name: "\t\u{3000}\n".to_string(), started_at: Some(9) },
    ];
    let events = activity_events(USER, GUILD, &activities);
    assert_eq!(events.len(), 2);
    assert_eq!(events[0].activity_name, "Chess");
    assert_eq!(events[0].started_at, 7);
    assert_eq!(events[1].activity_name, "Go");
    assert_eq!(events[1].started_at, 0);
    assert_eq!(events[1].user_id, USER);
    assert_eq!(events[1].guild_id, GUILD);
}

#[test]
fn recorded_activities_are_deduplicated_and_capped() {
    let mut state = State::new();
    state.record_activity(USER, "Chess");
    state.record_activity(USER, "Chess");
    state.record_activity(USER + 1, "Go");
    assert_eq!(state.tables.recorded.len(), 2);
    for i in 0..30 {
        state.record_activity(USER, &format!("game {}", i));
    }
    let listed = state.get_recorded_activites(USER);
    assert_eq!(listed.len(), 25);
    assert_eq!(listed[0].activity_name, "Chess");
    assert!(listed.iter().all(|r| r.user_id == USER));
    assert_eq!(state.get_recorded_activites(USER + 1).len(), 1);
}

#[test]
fn activity_names_by_silence() {
    let mut state = State::new();
    state.add_triggered_message(channel(), USER, "Chess", "A").unwrap();
    state.add_triggered_message(channel(), USER, "Go", "B").unwrap();
    state.silence_triggers(channel(), USER, Some("Go"), SilencedUntil::At(100));
    let (ws, _) = state.get_watchers_and_messages(channel(), USER);
    assert_eq!(activity_names(&ws, None, 50), vec!["Chess", "Go"]);
    assert_eq!(activity_names(&ws, Some(true), 50), vec!["Go"]);
    assert_eq!(activity_names(&ws, Some(false), 50), vec!["Chess"]);
    assert_eq!(activity_names(&ws, Some(true), 100), Vec::<String>::new());
}

#[test]
fn lost_race_changes_nothing() {
    let mut state = State::new();
    state.add_triggered_message(channel(), USER, "Chess", "go").unwrap();
    let mut w = watcher_named(&state, "Chess");
    assert!(state.update_last_triggered_for_watcher(&mut w, 2_000));
    assert_eq!(w.last_triggered, Some(2_000));
    let mut stale = watcher_named(&state, "Chess");
    stale.last_triggered = None;
    assert!(!state.record_dispatch(&mut stale, 1_000, 3_000));
    assert_eq!(stale.last_triggered, None);
    assert_eq!(watcher_named(&state, "Chess").silenced_until, None);
}

fn chat(author_id: u64, content: &str, urls: &[&str]) -> joinme::compose::ChatMessage {
    joinme::compose::ChatMessage {
        author_id,
        content: content.to_string(),
        attachment_urls: urls.iter().map(|u| u.to_string()).collect(),
    }
}

#[test]
fn trigger_text_appends_attachment_lines() {
    assert_eq!(trigger_text(&chat(USER, "hi", &[])), "hi");
    assert_eq!(trigger_text(&chat(USER, "hi", &["u1", "u2"])), "hi\n\nu1\nu2");
}

#[test]
fn latest_own_message_skips_others_and_empty() {
    let history = vec![chat(USER + 1, "theirs", &[]), chat(USER, "", &["img"]), chat(USER, "mine", &[]), chat(USER, "older", &[])];
    assert_eq!(latest_own_message(&history, USER), Some(2));
    assert_eq!(latest_own_message(&history, USER + 2), None);
}

#[test]
fn whitespace_named_activity_is_kept_whole() {
    let activities = vec![PresenceActivity { name: " Chess ".to_string(), started_at: Some(3) }];
    let events = activity_events(USER, GUILD, &activities);
    assert_eq!(events.len(), 1);
    assert_eq!(events[0].activity_name, " Chess ");
}

#[test]
fn blank_only_presence_does_no_work() {
    let mut state = State::new();
    state.add_triggered_message(channel(), USER, " ", "go").unwrap();
    let activities = vec![PresenceActivity { name: " ".to_string(), started_at: Some(3) }];
    assert!(activity_events(USER, GUILD, &activities).is_empty());
}

#[test]
fn recorder_writes_when_stored_trigger_is_before_now() {
    let mut state = State::new();
    state.add_triggered_message(channel(), USER, "Chess", "go").unwrap();
    let mut w = watcher_named(&state, "Chess");
    assert!(state.update_last_triggered_for_watcher(&mut w, 5));
    assert!(state.update_last_triggered_for_watcher(&mut w, 10));
    assert_eq!(w.last_triggered, Some(10));
    assert!(!state.update_last_triggered_for_watcher(&mut w, 10));
    assert_eq!(watcher_named(&state, "Chess").last_triggered, Some(10));
}

#[test]
fn dispatch_for_start_already_covered_is_refused() {
    let mut state = State::new();
    state.add_triggered_message(channel(), USER, "Chess", "go").unwrap();
    let mut w = watcher_named(&state, "Chess");
    assert!(state.update_last_triggered_for_watcher(&mut w, 5));
    let mut stale = watcher_named(&state, "Chess");
    assert!(!state.record_dispatch(&mut stale, 5, 10));
    assert_eq!(watcher_named(&state, "Chess").last_triggered, Some(5));
    assert!(state.record_dispatch(&mut stale, 6, 10));
    assert_eq!(stale.last_triggered, Some(10));
    assert_eq!(stale.silenced_until, Some(SilencedUntil::At(10 + DEBOUNCE_MILLIS)));
}

#[test]
fn indefinite_silence_needs_no_clock_bound() {
    assert_eq!(silence_target(None, u64::MAX), SilencedUntil::Indefinitely);
}

fn row(id: u64, name: &str) -> ActivityWatcher {
    ActivityWatcher {
        id,
        guild_id: GUILD,
        user_id: USER,
        activity_name: name.to_string(),
        channel_id: CHANNEL,
        last_triggered: None,
        silenced_until: None,
    }
}

fn text(id: u64, watcher: u64) -> joinme::message::ActivityMessage {
    joinme::message::ActivityMessage { id, activity_watcher: watcher, message: "m".to_string() }
}

#[test]
fn stored_rows_reload_with_fresh_ids_after_them() {
    let t = Tables::from_rows(vec![row(4, "Chess"), row(9, "Go")], vec![text(7, 9), text(2, 4)], vec![]).unwrap();
    assert_eq!(t.next_watcher_id, 10);
    assert_eq!(t.next_message_id, 8);
    let mut state = State { tables: t };
    let m = state.add_triggered_message(channel(), USER, "Chess", "new").unwrap();
    assert_eq!(m.id, 8);
    assert_eq!(m.activity_watcher, 4);
    let empty = Tables::from_rows(vec![], vec![], vec![]).unwrap();
    assert_eq!(empty.next_watcher_id, 1);
}

#[test]
fn inconsistent_stored_rows_are_refused() {
    assert!(Tables::from_rows(vec![row(1, "Chess"), row(1, "Go")], vec![], vec![]).is_none());
    assert!(Tables::from_rows(vec![row(1, "Chess"), row(2, "Chess")], vec![], vec![]).is_none());
    assert!(Tables::from_rows(vec![row(1, "Chess")], vec![text(1, 2)], vec![]).is_none());
    assert!(Tables::from_rows(vec![row(1, "Chess")], vec![text(3, 1), text(3, 1)], vec![]).is_none());
    assert!(Tables::from_rows(vec![row(u64::MAX, "Chess")], vec![], vec![]).is_none());
    let seen = || joinme::recorded::RecordedActivity { user_id: USER, activity_name: "Chess".to_string() };
    assert!(Tables::from_rows(vec![], vec![], vec![seen(), seen()]).is_none());
}
