use claude_usage_meter::limits::LimitsError;
use claude_usage_meter::local_stats::file_cache::{FileStamp, Reading, ScannedFile};
use claude_usage_meter::local_stats::{collect_local_stats, load_recent_entries, FileCache};
use claude_usage_meter::popup::{
    autostart_change, autostart_state, menu_action, settings_event, AutostartChange, HoverState,
    MenuAction, PopupAction, PopupEvent, SettingsAction, SettingsEvent,
};
use claude_usage_meter::scheduler::{
    apply_spend, publish, refresh_limits, refresh_local, refresh_spend, take_file_cache, AppState,
};
use claude_usage_meter::snapshot::{DollarBits, Limits, Percent, UsageSnapshot};
use claude_usage_meter::text::{comes_before, contains_text, chars_of, trim};

fn limits(session: f32) -> Limits {
    Limits {
        session_pct: Percent { bits: session.to_bits() },
        session_resets_at: Some("soon".to_string()),
        weekly_pct: Percent { bits: 34.0f32.to_bits() },
        weekly_resets_at: None,
        fetched_at: "then".to_string(),
        stale: false,
    }
}

#[test]
fn failed_limits_stay_and_are_stale() {
    let mut snap = UsageSnapshot::default();
    refresh_limits(&mut snap, Err(LimitsError::Forbidden));
    assert!(snap.limits.is_none());
    refresh_limits(&mut snap, Ok(limits(62.0)));
    assert!(!snap.limits.as_ref().unwrap().stale);
    refresh_limits(&mut snap, Err(LimitsError::Forbidden));
    let l = snap.limits.as_ref().unwrap();
    assert!(l.stale);
    assert_eq!(f32::from_bits(l.session_pct.bits), 62.0);
    assert_eq!(l.fetched_at, "then");
    refresh_limits(&mut snap, Ok(limits(63.0)));
    assert!(!snap.limits.unwrap().stale);
}

#[test]
fn failed_spend_stays_and_is_stale() {
    let mut snap = UsageSnapshot::default();
    let failed = || Some(Err("down".to_string()));
    refresh_spend(&mut snap, failed());
    assert!(snap.api_spend.is_none());
    let usd = DollarBits { bits: 13.4006f64.to_bits() };
    apply_spend(&mut snap, Some(Ok(usd)), "then".to_string());
    refresh_spend(&mut snap, failed());
    let s = snap.api_spend.as_ref().unwrap();
    assert!(s.stale);
    assert_eq!(s.month_to_date_usd, usd);
    assert_eq!(s.fetched_at, "then");
    refresh_spend(&mut snap, Some(Ok(usd)));
    let s = snap.api_spend.as_ref().unwrap();
    assert!(!s.stale);
    assert!(chrono::DateTime::parse_from_rfc3339(&s.fetched_at).is_ok());
    refresh_spend(&mut snap, None);
    assert!(snap.api_spend.is_none());
}

#[test]
fn cache_comes_back_from_a_collection() {
    let mut state = AppState::new();
    let file = || ScannedFile {
        path: "a".to_string(),
        stamp: FileStamp { mtime_nanos: 0, len: 0 },
        reading: Reading::Read(None),
    };
    load_recent_entries(&vec![file()], &mut state.file_cache);
    let mut used = take_file_cache(&mut state.file_cache);
    assert_eq!(used.file_count(), 1);
    assert_eq!(state.file_cache.file_count(), 0);
    let stats = collect_local_stats("2026-06-10", &vec![file()], None, &mut used).unwrap();
    refresh_local(&mut state.snapshot, &mut state.file_cache, Some((stats, used)));
    assert_eq!(state.file_cache.file_count(), 1);
    assert_eq!(state.snapshot.local.as_ref().unwrap().days.len(), 7);
    refresh_local(&mut state.snapshot, &mut state.file_cache, None);
    assert!(state.snapshot.local.is_some());
    let lost = take_file_cache(&mut state.file_cache);
    assert_eq!(lost.file_count(), 1);
}

#[test]
fn icon_is_drawn_only_when_it_changes() {
    let mut state = AppState::new();
    let first = publish(&state.snapshot, "Meter", &mut state.last_tray);
    let drawn = first.tray.unwrap();
    assert!(drawn.pct.is_none());
    assert_eq!(drawn.tooltip, "Meter");
    assert!(first.event.limits.is_none());
    assert_eq!(state.last_tray.pct_key, -1);
    let again = publish(&state.snapshot, "Meter", &mut state.last_tray);
    assert!(again.tray.is_none());
    assert!(again.event.limits.is_none());

    refresh_limits(&mut state.snapshot, Ok(limits(61.6)));
    let drawn = publish(&state.snapshot, "Meter", &mut state.last_tray).tray.unwrap();
    assert_eq!(drawn.pct, Some(Percent { bits: 61.6f32.to_bits() }));
    assert_eq!(drawn.tooltip, "Session 62% · Weekly 34%");
    assert_eq!(state.last_tray.pct_key, 62);

    refresh_limits(&mut state.snapshot, Ok(limits(62.3)));
    let kept = publish(&state.snapshot, "Meter", &mut state.last_tray);
    assert!(kept.tray.is_none());
    assert_eq!(f32::from_bits(kept.event.limits.unwrap().session_pct.bits), 62.3);
    refresh_limits(&mut state.snapshot, Err(LimitsError::Forbidden));
    let stale = publish(&state.snapshot, "Meter", &mut state.last_tray);
    assert!(stale.tray.is_none());
    assert!(stale.event.limits.unwrap().stale);
    let mut higher = limits(62.3);
    higher.weekly_pct = Percent { bits: 35.0f32.to_bits() };
    refresh_limits(&mut state.snapshot, Ok(higher));
    let drawn = publish(&state.snapshot, "Meter", &mut state.last_tray).tray.unwrap();
    assert_eq!(drawn.tooltip, "Session 62% · Weekly 35%");
}

#[test]
fn halves_are_rounded_in_two_ways() {
    let mut state = AppState::new();
    refresh_limits(&mut state.snapshot, Ok(limits(62.5)));
    let drawn = publish(&state.snapshot, "Meter", &mut state.last_tray).tray.unwrap();
    assert_eq!(state.last_tray.pct_key, 63);
    assert_eq!(drawn.tooltip, format!("Session {:.0}% · Weekly 34%", 62.5f32));
}

#[test]
fn state_starts_empty() {
    let state = AppState::new();
    assert!(state.snapshot.limits.is_none());
    assert!(state.snapshot.local.is_none());
    assert!(state.snapshot.api_spend.is_none());
    assert_eq!(state.last_tray.pct_key, -1);
    assert_eq!(state.last_tray.tooltip, "");
    let cache: FileCache = state.file_cache;
    assert_eq!(cache.file_count(), 0);
}

#[test]
fn cursor_travels_from_the_tray_to_the_popup() {
    let mut h = HoverState::default();
    assert_eq!(h.handle(PopupEvent::TrayEnter), PopupAction::Show);
    assert_eq!(h.handle(PopupEvent::TrayLeave), PopupAction::HideAfterGrace);
    assert_eq!(h.handle(PopupEvent::PopupHover { inside: true }), PopupAction::Nothing);
    assert_eq!(h.handle(PopupEvent::GraceOver), PopupAction::Nothing);
    assert_eq!(h.handle(PopupEvent::PopupHover { inside: false }), PopupAction::HideAfterGrace);
    assert_eq!(h.handle(PopupEvent::GraceOver), PopupAction::Hide);
    assert_eq!(h, HoverState::default());
}

#[test]
fn pinned_popup_stays_until_let_go() {
    let mut h = HoverState::default();
    h.handle(PopupEvent::TrayEnter);
    assert_eq!(h.handle(PopupEvent::TrayClick), PopupAction::ShowAndFocus);
    h.handle(PopupEvent::TrayLeave);
    assert_eq!(h.handle(PopupEvent::GraceOver), PopupAction::Nothing);
    h.handle(PopupEvent::TrayEnter);
    assert_eq!(h.handle(PopupEvent::FocusLost), PopupAction::Nothing);
    assert_eq!(h.handle(PopupEvent::TrayClick), PopupAction::Hide);
    assert!(!h.pinned);
    h.handle(PopupEvent::TrayLeave);
    h.handle(PopupEvent::SetPinned { pinned: true });
    assert_eq!(h.handle(PopupEvent::FocusLost), PopupAction::Hide);
    assert_eq!(h.handle(PopupEvent::FocusLost), PopupAction::Nothing);
    assert_eq!(h.handle(PopupEvent::SetPinned { pinned: true }), PopupAction::Nothing);
    assert_eq!(h.handle(PopupEvent::SetPinned { pinned: false }), PopupAction::HideAfterGrace);
    assert_eq!(h.handle(PopupEvent::Dismiss), PopupAction::Hide);
}

#[test]
fn menu_items() {
    assert_eq!(menu_action("refresh"), MenuAction::Refresh);
    assert_eq!(menu_action("settings"), MenuAction::Settings);
    assert_eq!(menu_action("autostart"), MenuAction::ToggleAutostart);
    assert_eq!(menu_action("quit"), MenuAction::Quit);
    assert_eq!(menu_action("other"), MenuAction::Nothing);
    assert!(autostart_state(Some(true)));
    assert!(!autostart_state(Some(false)));
    assert!(!autostart_state(None));
    assert_eq!(autostart_change(Some(true)), AutostartChange::Disable);
    assert_eq!(autostart_change(Some(false)), AutostartChange::Enable);
    assert_eq!(autostart_change(None), AutostartChange::Enable);
}

#[test]
fn settings_window_is_hidden_instead_of_closed() {
    assert_eq!(settings_event(SettingsEvent::CloseRequested), SettingsAction::HideInstead);
    assert_eq!(settings_event(SettingsEvent::Other), SettingsAction::Nothing);
}

#[test]
fn texts_behave_as_the_standard_ones() {
    let samples = ["", " ", "a", "ab", "b", "a\u{3000}", "\u{85}x\u{a0}", "Ä", "\u{10000}", "\u{ffff}"];
    for a in samples {
        assert_eq!(trim(a), a.trim());
        for b in samples {
            assert_eq!(comes_before(a, b), a < b);
            assert_eq!(contains_text(&chars_of(a), b), a.contains(b));
        }
    }
}

#[test]
fn white_space_is_that_of_the_standard() {
    for c in '\u{0}'..='\u{10ffff}' {
        assert_eq!(claude_usage_meter::text::is_white_space(c), c.is_whitespace());
    }
}
