use app_focus::registry::{Registry, ToplevelEvent};

fn fresh(target: &str) -> Registry {
    Registry::new(target.to_string())
}

#[test]
fn announce_then_identifier_sets_match() {
    let mut reg = fresh("firefox");
    reg.announce_foreign(1, Some(10));
    assert_eq!(reg.toplevels.len(), 1);
    assert_eq!(reg.match_handle, None);
    reg.foreign_app_id(1, "org.mozilla.firefox".to_string());
    assert_eq!(reg.toplevels.len(), 1);
    assert_eq!(reg.match_handle, Some(10));
}

#[test]
fn announcing_same_pair_twice_keeps_one_record() {
    let mut reg = fresh("firefox");
    reg.announce_foreign(1, Some(10));
    reg.announce_foreign(1, Some(10));
    assert_eq!(reg.toplevels.len(), 1);
}

#[test]
fn identifier_on_linked_rich_handle_updates_in_place() {
    let mut reg = fresh("firefox");
    reg.announce_foreign(1, Some(10));
    reg.cosmic_app_id(10, "firefox".to_string());
    assert_eq!(reg.toplevels.len(), 1);
    assert_eq!(reg.match_handle, Some(10));
}

#[test]
fn standalone_rich_handle_creates_unlinked_record() {
    let mut reg = fresh("firefox");
    reg.cosmic_app_id(7, "firefox".to_string());
    assert_eq!(reg.toplevels.len(), 1);
    assert_eq!(reg.toplevels[0].foreign, None);
    assert_eq!(reg.toplevels[0].cosmic, Some(7));
    assert_eq!(reg.match_handle, Some(7));
}

#[test]
fn record_without_rich_handle_never_becomes_the_match() {
    let mut reg = fresh("firefox");
    reg.announce_foreign(1, None);
    reg.foreign_app_id(1, "firefox".to_string());
    assert_eq!(reg.toplevels.len(), 1);
    assert_eq!(reg.match_handle, None);
}

#[test]
fn closed_removes_record_and_clears_match() {
    let mut reg = fresh("firefox");
    reg.announce_foreign(1, Some(10));
    reg.foreign_app_id(1, "firefox".to_string());
    assert_eq!(reg.match_handle, Some(10));
    reg.remove_by_foreign(1);
    assert_eq!(reg.toplevels.len(), 0);
    assert_eq!(reg.match_handle, None);
}

#[test]
fn closing_an_unrelated_record_keeps_the_match() {
    let mut reg = fresh("firefox");
    reg.announce_foreign(1, Some(10));
    reg.announce_foreign(2, Some(20));
    reg.foreign_app_id(1, "firefox".to_string());
    assert_eq!(reg.match_handle, Some(10));
    reg.remove_by_foreign(2);
    assert_eq!(reg.toplevels.len(), 1);
    assert_eq!(reg.match_handle, Some(10));
}

#[test]
fn rich_channel_close_clears_match_of_its_owner() {
    let mut reg = fresh("firefox");
    reg.cosmic_app_id(7, "firefox".to_string());
    assert_eq!(reg.match_handle, Some(7));
    reg.remove_by_cosmic(7);
    assert_eq!(reg.toplevels.len(), 0);
    assert_eq!(reg.match_handle, None);
}

#[test]
fn first_satisfying_record_wins() {
    let mut reg = fresh("firefox");
    reg.cosmic_app_id(1, "firefox".to_string());
    assert_eq!(reg.match_handle, Some(1));
    reg.cosmic_app_id(2, "org.mozilla.firefox".to_string());
    assert_eq!(reg.toplevels.len(), 2);
    assert_eq!(reg.match_handle, Some(1));
}

#[test]
fn match_can_be_set_again_after_owner_closes() {
    let mut reg = fresh("firefox");
    reg.cosmic_app_id(1, "firefox".to_string());
    reg.remove_by_cosmic(1);
    assert_eq!(reg.match_handle, None);
    reg.cosmic_app_id(2, "firefox".to_string());
    assert_eq!(reg.match_handle, Some(2));
}

#[test]
fn events_for_unknown_handles_are_tolerated() {
    let mut reg = fresh("firefox");
    reg.foreign_app_id(9, "firefox".to_string());
    assert_eq!(reg.toplevels.len(), 0);
    assert_eq!(reg.match_handle, None);
    reg.remove_by_foreign(9);
    reg.remove_by_cosmic(9);
    assert_eq!(reg.toplevels.len(), 0);
}

#[test]
fn empty_target_never_matches() {
    let mut reg = fresh("");
    reg.cosmic_app_id(1, "firefox".to_string());
    assert_eq!(reg.toplevels.len(), 1);
    assert_eq!(reg.match_handle, None);
}

#[test]
fn empty_identifier_never_matches() {
    let mut reg = fresh("firefox");
    reg.announce_foreign(1, Some(10));
    reg.foreign_app_id(1, "".to_string());
    assert_eq!(reg.match_handle, None);
}

#[test]
fn non_matching_identifier_leaves_match_unset() {
    let mut reg = fresh("firefox");
    reg.announce_foreign(1, Some(10));
    reg.foreign_app_id(1, "org.gnome.Nautilus".to_string());
    assert_eq!(reg.toplevels.len(), 1);
    assert_eq!(reg.match_handle, None);
}

#[test]
fn event_switch_dispatches_each_kind() {
    let mut reg = fresh("firefox");
    reg.event(&ToplevelEvent::ForeignAnnounced { foreign: 1, cosmic: Some(10) });
    reg.event(&ToplevelEvent::ForeignAppId { foreign: 1, app_id: "firefox".to_string() });
    assert_eq!(reg.match_handle, Some(10));
    reg.event(&ToplevelEvent::CosmicAppId { cosmic: 10, app_id: "firefox".to_string() });
    assert_eq!(reg.toplevels.len(), 1);
    reg.event(&ToplevelEvent::CosmicClosed { cosmic: 10 });
    assert_eq!(reg.toplevels.len(), 0);
    assert_eq!(reg.match_handle, None);
    reg.event(&ToplevelEvent::ForeignClosed { foreign: 1 });
    assert_eq!(reg.toplevels.len(), 0);
}

#[test]
fn identifier_can_be_reannounced() {
    let mut reg = fresh("firefox");
    reg.announce_foreign(1, Some(10));
    reg.foreign_app_id(1, "org.gnome.Nautilus".to_string());
    assert_eq!(reg.match_handle, None);
    reg.foreign_app_id(1, "firefox".to_string());
    assert_eq!(reg.toplevels.len(), 1);
    assert_eq!(reg.match_handle, Some(10));
}
