use app_focus::binder::{check_required_globals, supports_child_link, BindFailure, GlobalBindings};
use app_focus::executor::{decide_action, log_level_name, resolve_launch_command, FinalAction};
use app_focus::registry::ToplevelEvent;
use app_focus::session::run_session;

fn bindings(seat: bool, info_version: Option<u32>, mgr: bool, foreign_list: bool) -> GlobalBindings {
    GlobalBindings { seat, info_version, mgr, foreign_list }
}

#[test]
fn required_globals_present_is_ok() {
    assert!(check_required_globals(&bindings(true, Some(2), true, true)).is_ok());
    // the seat and the generic list are optional
    assert!(check_required_globals(&bindings(false, Some(1), true, false)).is_ok());
}

#[test]
fn missing_info_global_is_fatal() {
    let r = check_required_globals(&bindings(true, None, true, true));
    assert_eq!(r, Err(BindFailure::MissingToplevelInfo));
}

#[test]
fn missing_manager_global_is_fatal() {
    let r = check_required_globals(&bindings(true, Some(3), false, true));
    assert_eq!(r, Err(BindFailure::MissingToplevelManager));
}

#[test]
fn child_links_need_info_version_two() {
    assert!(!supports_child_link(&bindings(true, Some(1), true, true)));
    assert!(supports_child_link(&bindings(true, Some(2), true, true)));
    assert!(supports_child_link(&bindings(true, Some(3), true, true)));
    assert!(!supports_child_link(&bindings(true, None, true, true)));
}

#[test]
fn activation_needs_match_seat_and_manager() {
    assert_eq!(decide_action(Some(10), true, true), FinalAction::Activate(10));
    assert_eq!(decide_action(Some(10), false, true), FinalAction::Launch);
    assert_eq!(decide_action(Some(10), true, false), FinalAction::Launch);
    assert_eq!(decide_action(None, true, true), FinalAction::Launch);
}

#[test]
fn launch_command_defaults_to_desktop_helper() {
    let cmd = resolve_launch_command(None, "com.example.Foo");
    assert_eq!(cmd, "gtk-launch com.example.Foo");
}

#[test]
fn launch_command_override_is_kept() {
    let cmd = resolve_launch_command(Some("flatpak run com.example.Foo".to_string()), "com.example.Foo");
    assert_eq!(cmd, "flatpak run com.example.Foo");
}

#[test]
fn verbosity_selects_log_level() {
    assert_eq!(log_level_name(0), "warn");
    assert_eq!(log_level_name(1), "info");
    assert_eq!(log_level_name(2), "debug");
    assert_eq!(log_level_name(7), "debug");
}

#[test]
fn scenario_matching_window_is_activated() {
    // target "org.mozilla.firefox"; one toplevel announced on the generic
    // channel with a linked rich handle whose identifier arrives on round two
    let rounds = vec![
        vec![ToplevelEvent::ForeignAnnounced { foreign: 1, cosmic: Some(10) }],
        vec![ToplevelEvent::CosmicAppId { cosmic: 10, app_id: "firefox".to_string() }],
    ];
    let b = bindings(true, Some(2), true, true);
    let r = run_session("org.mozilla.firefox".to_string(), &b, &rounds);
    assert_eq!(r, Ok(FinalAction::Activate(10)));
}

#[test]
fn scenario_no_match_falls_back_to_launch() {
    // target "com.example.Foo"; nothing matching ever reports in five rounds
    let rounds = vec![
        vec![ToplevelEvent::ForeignAnnounced { foreign: 1, cosmic: Some(10) }],
        vec![ToplevelEvent::CosmicAppId { cosmic: 10, app_id: "org.gnome.Nautilus".to_string() }],
        vec![],
        vec![],
        vec![],
        vec![ToplevelEvent::CosmicAppId { cosmic: 10, app_id: "com.example.Foo".to_string() }],
    ];
    let b = bindings(true, Some(2), true, true);
    let r = run_session("com.example.Foo".to_string(), &b, &rounds);
    assert_eq!(r, Ok(FinalAction::Launch));
    assert_eq!(resolve_launch_command(None, "com.example.Foo"), "gtk-launch com.example.Foo");
}

#[test]
fn scenario_missing_required_global_aborts_before_dispatch() {
    // a session whose rich-channel bind failed never reaches discovery
    let b = bindings(true, None, true, true);
    assert_eq!(check_required_globals(&b), Err(BindFailure::MissingToplevelInfo));
    let rounds = vec![vec![ToplevelEvent::CosmicAppId { cosmic: 1, app_id: "x".to_string() }]];
    let r = run_session("x".to_string(), &b, &rounds);
    assert_eq!(r, Err(BindFailure::MissingToplevelInfo));
}

#[test]
fn scenario_missing_seat_skips_activation() {
    // discovery still finds the window, but without a seat the session falls
    // back to launching rather than activating
    let rounds = vec![vec![ToplevelEvent::CosmicAppId { cosmic: 3, app_id: "firefox".to_string() }]];
    let b = bindings(false, Some(2), true, true);
    let r = run_session("firefox".to_string(), &b, &rounds);
    assert_eq!(r, Ok(FinalAction::Launch));
}
