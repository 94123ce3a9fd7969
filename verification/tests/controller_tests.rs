use app_focus::controller::{apply_round, run_discovery, ROUND_BUDGET};
use app_focus::registry::{Registry, ToplevelEvent};

fn announced(foreign: u64, cosmic: u64) -> ToplevelEvent {
    ToplevelEvent::ForeignAnnounced { foreign, cosmic: Some(cosmic) }
}

fn rich_id(cosmic: u64, app_id: &str) -> ToplevelEvent {
    ToplevelEvent::CosmicAppId { cosmic, app_id: app_id.to_string() }
}

#[test]
fn match_on_first_round_stops_after_one() {
    let mut reg = Registry::new("firefox".to_string());
    let rounds = vec![
        vec![announced(1, 10), rich_id(10, "firefox")],
        vec![announced(2, 20)],
    ];
    let used = run_discovery(&mut reg, &rounds);
    assert_eq!(used, 1);
    assert_eq!(reg.match_handle, Some(10));
    // the second round was never dispatched
    assert_eq!(reg.toplevels.len(), 1);
}

#[test]
fn match_on_round_two_stops_after_two() {
    let mut reg = Registry::new("org.mozilla.firefox".to_string());
    let rounds = vec![
        vec![announced(1, 10)],
        vec![rich_id(10, "firefox")],
        vec![announced(2, 20)],
        vec![],
        vec![],
    ];
    let used = run_discovery(&mut reg, &rounds);
    assert_eq!(used, 2);
    assert_eq!(reg.match_handle, Some(10));
    assert_eq!(reg.toplevels.len(), 1);
}

#[test]
fn no_match_exhausts_the_budget() {
    let mut reg = Registry::new("com.example.Foo".to_string());
    let rounds = vec![
        vec![announced(1, 10)],
        vec![rich_id(10, "org.gnome.Nautilus")],
        vec![],
        vec![],
        vec![],
        vec![rich_id(10, "com.example.Foo")],
    ];
    let used = run_discovery(&mut reg, &rounds);
    assert_eq!(used, ROUND_BUDGET);
    // the sixth round lay beyond the budget, so nothing matched
    assert_eq!(reg.match_handle, None);
}

#[test]
fn short_script_without_match_uses_every_round() {
    let mut reg = Registry::new("firefox".to_string());
    let rounds = vec![vec![announced(1, 10)], vec![]];
    let used = run_discovery(&mut reg, &rounds);
    assert_eq!(used, 2);
    assert_eq!(reg.match_handle, None);
}

#[test]
fn empty_script_performs_no_rounds() {
    let mut reg = Registry::new("firefox".to_string());
    let rounds: Vec<Vec<ToplevelEvent>> = Vec::new();
    let used = run_discovery(&mut reg, &rounds);
    assert_eq!(used, 0);
    assert_eq!(reg.match_handle, None);
}

#[test]
fn trailing_drain_can_still_pick_up_metadata() {
    let mut reg = Registry::new("firefox".to_string());
    let rounds = vec![vec![announced(1, 10)]];
    let used = run_discovery(&mut reg, &rounds);
    assert_eq!(used, 1);
    assert_eq!(reg.match_handle, None);
    // identifier metadata still queued after the loop drains without
    // spending another round
    apply_round(&mut reg, &vec![rich_id(10, "firefox")]);
    assert_eq!(reg.match_handle, Some(10));
}

#[test]
fn match_lost_to_a_close_keeps_the_loop_running() {
    let mut reg = Registry::new("firefox".to_string());
    let rounds = vec![
        vec![announced(1, 10), rich_id(10, "firefox"), ToplevelEvent::CosmicClosed { cosmic: 10 }],
        vec![announced(2, 20)],
        vec![rich_id(20, "firefox")],
    ];
    let used = run_discovery(&mut reg, &rounds);
    assert_eq!(used, 3);
    assert_eq!(reg.match_handle, Some(20));
}
