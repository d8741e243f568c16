use tui_bot::continuation::SkipTally;
use tui_bot::dec::Dec;
use tui_bot::desk_orchestrator::{
    check_double_book, check_heat, desk_orchestrator_enabled, filter_enter, manages_long, status_line,
    HeatLimits, SkipReason,
};
use tui_bot::desk_schedule::{
    desk_owner, desk_schedule_enabled, hour_in_s3_arm, hour_in_s4_open, hour_owner_table, may_enter_long,
    DeskSid,
};
use tui_bot::engine::tick::tick_decisions;
use tui_bot::models::{Decision, EngineState, MarketSnapshot, Position};
use tui_bot::openmeta::OpenMeta;

fn tick(
    state: &EngineState,
    snap: &MarketSnapshot,
    now: i64,
    meta: &mut OpenMeta,
    orchestrated: bool,
) -> (EngineState, Vec<Decision>) {
    let mut tally = SkipTally::new();
    let (s, d, _) = tick_decisions(
        state,
        snap,
        now,
        None,
        None,
        None,
        None,
        meta,
        &mut tally,
        None,
        orchestrated,
        HeatLimits::default(),
    )
    .unwrap();
    (s, d)
}

#[test]
fn owner_reuses_desk_schedule_clock() {
    assert_eq!(desk_owner(0), DeskSid::Continuation);
    assert_eq!(desk_owner(3), DeskSid::Scalp);
    assert_eq!(desk_owner(22), DeskSid::Trend);
    assert_eq!(desk_owner(14).as_i32(), 4);
    assert_eq!(desk_owner(11).as_i32(), 2);
}

#[test]
fn flag_off_by_default() {
    assert!(!desk_orchestrator_enabled(None));
    assert!(desk_orchestrator_enabled(Some("1")));
}

#[test]
fn double_book_fail_closed() {
    let open: Vec<String> = vec!["BTCUSDT".into(), "ETHUSDT".into()];
    assert!(check_double_book("SOLUSDT", &open).is_ok());
    assert!(matches!(check_double_book("btcusdt", &open), Err(SkipReason::DoubleBook(_))));
}

#[test]
fn heat_desk_and_per_sid() {
    let heat = HeatLimits::default();
    assert!(check_heat(4, &[2, 3], heat).is_ok());
    assert!(matches!(check_heat(4, &[2, 3, 4], heat), Err(SkipReason::HeatDesk { .. })));
    assert!(matches!(check_heat(4, &[4, 4], heat), Err(SkipReason::HeatSid { sid: 4, .. })));
}

#[test]
fn status_shows_owner() {
    let now = 1_704_078_000_000_i64;
    let s = status_line(now, None);
    assert!(s.contains("owner S2"), "{s}");
    let s2 = status_line(now, Some("heat 3/3"));
    assert!(s2.contains("heat 3/3"), "{s2}");
}

#[test]
fn manages_long_desk_sids_only_when_tagged() {
    assert!(manages_long(&OpenMeta::new(), "ZZZUSDT"));
}

#[test]
fn orchestrator_owner_switch_changes_strategy_id() {
    let mut meta = OpenMeta::new();
    let state = EngineState::new(4);
    let snap = MarketSnapshot::empty(Dec::from_int(10000));
    let now = 1_704_078_000_000_i64;
    let (new_state, decisions) = tick(&state, &snap, now, &mut meta, true);
    assert_eq!(new_state.strategy_id, 2, "owner switch to S2");
    let reason = decisions.first().map(|d| d.reason().to_string()).unwrap_or_default();
    assert!(
        reason.contains("desk orch: owner S2") || reason.contains("owner S2"),
        "visible owner in hold: {reason}"
    );
    let now_s4 = 1_704_067_800_000_i64;
    let (st2, d2) = tick(&new_state, &snap, now_s4, &mut meta, true);
    assert_eq!(st2.strategy_id, 4, "owner switch to S4");
    let r2 = d2.first().map(|d| d.reason().to_string()).unwrap_or_default();
    assert!(r2.contains("owner S4") || r2.contains("S4"), "visible S4: {r2}");
}

#[test]
fn flag_off_leaves_strategy_id_unchanged() {
    let mut meta = OpenMeta::new();
    let state = EngineState::new(4);
    let snap = MarketSnapshot::empty(Dec::from_int(10000));
    let now = 1_704_078_000_000_i64;
    let (new_state, decisions) = tick(&state, &snap, now, &mut meta, false);
    assert_eq!(new_state.strategy_id, 4);
    let reason = decisions.first().map(|d| d.reason().to_string()).unwrap_or_default();
    assert!(!reason.contains("desk orch:"), "flag off must not emit orch status: {reason}");
}

#[test]
fn manage_stays_on_opening_sid_across_owner_hour() {
    let mut meta = OpenMeta::new();
    meta.on_open(
        4,
        "ETHUSDT",
        Dec::from_int(2000),
        Dec::from_int(1900),
        Dec::from_int(1),
        1_704_070_000_000,
        None,
    );
    let mut state = EngineState::new(2);
    let pos = Position::long(
        "ETHUSDT",
        Dec::from_int(1),
        Dec::from_int(2000),
        Some(Dec::from_int(1900)),
        Some(Dec::from_int(2200)),
    );
    state.positions = vec![pos.clone()];
    state.position = Some(pos.clone());
    let mut snap = MarketSnapshot::empty(Dec::from_int(10000));
    snap.position = Some(pos.clone());
    snap.open_positions = vec![pos];
    let now = 1_704_078_000_000_i64;
    let (new_state, decisions) = tick(&state, &snap, now, &mut meta, true);
    assert_eq!(new_state.strategy_id, 2);
    assert!(
        new_state.positions.iter().any(|p| p.symbol.eq_ignore_ascii_case("ETHUSDT")),
        "S4 position must survive S2 owner hour"
    );
    assert!(
        !decisions.iter().any(
            |d| matches!(d, Decision::ExitPosition { symbol, .. } if symbol.eq_ignore_ascii_case("ETHUSDT"))
        ),
        "hour switch must not exit opening-sid position: {decisions:?}"
    );
}

#[test]
fn filter_enter_rejects_double_book() {
    let open: Vec<String> = vec!["ETHUSDT".into()];
    let decs = vec![Decision::EnterLong {
        symbol: "ETHUSDT".into(),
        reason: "x".into(),
        take_profit: Dec::from_int(1),
        stop_loss: Dec::from_int(1),
    }];
    let (kept, skip) = filter_enter(decs, 4, &open, &[2], HeatLimits::default());
    assert!(kept.is_empty());
    assert!(skip.unwrap().contains("double-book"));
}

#[test]
fn s4_windows_match_default_entry_hours() {
    assert!(hour_in_s4_open(0));
    assert!(hour_in_s4_open(1));
    assert!(!hour_in_s4_open(2));
    assert!(hour_in_s4_open(7));
    assert!(hour_in_s4_open(9));
    assert!(!hour_in_s4_open(10));
    assert!(hour_in_s4_open(13));
    assert!(hour_in_s4_open(15));
    assert!(!hour_in_s4_open(16));
}

#[test]
fn s3_arm_22_23_only() {
    assert!(!hour_in_s3_arm(21));
    assert!(hour_in_s3_arm(22));
    assert!(hour_in_s3_arm(23));
    assert!(!hour_in_s3_arm(0));
}

#[test]
fn desk_owner_s4_wins_0_2() {
    assert_eq!(desk_owner(0), DeskSid::Continuation);
    assert_eq!(desk_owner(1), DeskSid::Continuation);
}

#[test]
fn desk_owner_s3_arm_and_s2_gaps() {
    assert_eq!(desk_owner(22), DeskSid::Trend);
    assert_eq!(desk_owner(23), DeskSid::Trend);
    assert_eq!(desk_owner(3), DeskSid::Scalp);
    assert_eq!(desk_owner(11), DeskSid::Scalp);
    assert_eq!(desk_owner(17), DeskSid::Scalp);
    assert_eq!(desk_owner(8), DeskSid::Continuation);
    assert_eq!(desk_owner(14), DeskSid::Continuation);
}

#[test]
fn full_day_table_no_overlap_ambiguity() {
    let t = hour_owner_table();
    assert_eq!(t[0].1, DeskSid::Continuation);
    assert_eq!(t[2].1, DeskSid::Scalp);
    assert_eq!(t[7].1, DeskSid::Continuation);
    assert_eq!(t[10].1, DeskSid::Scalp);
    assert_eq!(t[13].1, DeskSid::Continuation);
    assert_eq!(t[16].1, DeskSid::Scalp);
    assert_eq!(t[22].1, DeskSid::Trend);
    for h in 0..24u8 {
        let o = desk_owner(h);
        assert!(matches!(o, DeskSid::Scalp | DeskSid::Trend | DeskSid::Continuation));
    }
}

#[test]
fn may_enter_flag_off_and_on() {
    let off = desk_schedule_enabled(None);
    assert!(may_enter_long(off, 1, 3));
    assert!(may_enter_long(off, 2, 0));
    assert!(may_enter_long(off, 4, 22));
    let on = desk_schedule_enabled(Some("1"));
    assert!(may_enter_long(on, 4, 0));
    assert!(!may_enter_long(on, 2, 0));
    assert!(!may_enter_long(on, 3, 0));
    assert!(may_enter_long(on, 2, 3));
    assert!(!may_enter_long(on, 4, 3));
    assert!(may_enter_long(on, 3, 22));
    assert!(!may_enter_long(on, 2, 22));
}
