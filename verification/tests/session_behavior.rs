use voicebot::session::{
    pause_apply, watchdog_should_leave, GuildSession, PauseAction, PauseStep, TrackRequest,
    WatchdogStep,
};

const BOT: u64 = 920990750030848030;

#[test]
fn leave_then_pause_reports_no_track() {
    let mut s = GuildSession::new();
    s.join_succeeded();
    let stop_first = s.attach_track(7);
    assert!(!stop_first);
    s.leave();
    assert_eq!(s.pause_step(), PauseStep::NoTrack);
}

#[test]
fn pause_without_any_track_reports_no_track() {
    let s = GuildSession::new();
    assert_eq!(s.pause_step(), PauseStep::NoTrack);
}

#[test]
fn pause_toggle_follows_play_state() {
    assert_eq!(pause_apply(true), PauseAction::Pause);
    assert_eq!(pause_apply(false), PauseAction::Resume);
}

#[test]
fn attach_stops_the_old_track_first() {
    let mut s = GuildSession::new();
    s.join_succeeded();
    assert!(!s.attach_track(1));
    assert!(s.attach_track(2));
    assert_eq!(s.handle, Some(2));
}

#[test]
fn stop_keeps_the_handle_and_metadata() {
    let mut s = GuildSession::new();
    s.join_succeeded();
    s.attach_track(5);
    s.info.set_current_song_length(Some(120));
    let told_transport = s.stop_playback();
    assert!(told_transport);
    assert!(!s.info.is_playing);
    assert_eq!(s.handle, Some(5));
    assert_eq!(s.info.current_song_length, Some(120));
    assert_eq!(s.pause_step(), PauseStep::Query);
}

#[test]
fn queue_head_takes_priority_over_resolved_source() {
    let mut s = GuildSession::new();
    s.join_succeeded();
    s.enqueue(TrackRequest { query: "first".to_string() });
    s.enqueue(TrackRequest { query: "second".to_string() });
    let src = s.next_source("resolved".to_string());
    assert_eq!(src, "first");
    let src = s.next_source("resolved".to_string());
    assert_eq!(src, "second");
    let src = s.next_source("resolved".to_string());
    assert_eq!(src, "resolved");
}

#[test]
fn remove_fist_on_empty_queue_is_harmless() {
    let mut s = GuildSession::new();
    s.queue.remove_fist();
    assert_eq!(s.queue.queue.len(), 0);
}

#[test]
fn watchdog_leaves_when_bot_is_alone() {
    let occupants = vec![BOT];
    assert!(watchdog_should_leave(&occupants, BOT));
    let mut s = GuildSession::new();
    s.join_succeeded();
    let gen = s.watchdog_generation();
    let step = s.watchdog_tick(gen, &occupants, BOT);
    assert_eq!(step, WatchdogStep::ForceLeave);
    assert!(!s.info.is_joined);
    assert_eq!(s.handle, None);
}

#[test]
fn watchdog_stays_with_company() {
    let occupants = vec![BOT, 42];
    assert!(!watchdog_should_leave(&occupants, BOT));
    let mut s = GuildSession::new();
    s.join_succeeded();
    let gen = s.watchdog_generation();
    let step = s.watchdog_tick(gen, &occupants, BOT);
    assert_eq!(step, WatchdogStep::Keep);
    assert!(s.info.is_joined);
}

#[test]
fn watchdog_stands_down_after_explicit_leave() {
    let mut s = GuildSession::new();
    s.join_succeeded();
    let gen = s.watchdog_generation();
    s.leave();
    let step = s.watchdog_tick(gen, &vec![BOT], BOT);
    assert_eq!(step, WatchdogStep::Stale);
}

#[test]
fn empty_occupant_list_without_bot_does_not_leave() {
    assert!(!watchdog_should_leave(&vec![], BOT));
    assert!(!watchdog_should_leave(&vec![42], BOT));
}

#[test]
fn state_setters_update_single_fields() {
    let mut s = GuildSession::new();
    s.info.set_is_joined(true);
    s.info.set_current_song_link("http://x".to_string());
    s.info.set_current_song_desc("d".to_string());
    s.info.set_current_song_length(Some(9));
    s.info.set_is_playing(false);
    assert!(s.info.is_joined);
    assert_eq!(s.info.current_song_link, "http://x");
    assert_eq!(s.info.current_song_desc, "d");
    assert_eq!(s.info.current_song_length, Some(9));
    assert!(!s.info.is_playing);
}
