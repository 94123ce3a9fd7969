use app_focus::config::{AppListConfig, TopLevelFilter};

#[test]
fn default_config_has_drag_source_and_no_favorites() {
    let c = AppListConfig::default();
    assert!(c.favorites.is_empty());
    assert!(c.enable_drag_source);
    assert!(c.filter_top_levels.is_none());
}

#[test]
fn default_filter_is_the_active_workspace() {
    assert_eq!(TopLevelFilter::default(), TopLevelFilter::ActiveWorkspace);
}
