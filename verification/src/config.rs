use vstd::prelude::*;

verus! {

/// Selects which toplevels an app-list front-end displays.
#[derive(Debug, Clone, Copy, PartialEq, Eq, Structural)]
pub enum TopLevelFilter {
    ActiveWorkspace,
    ConfiguredOutput,
}

/// Configuration consumed by app-list front-ends: pinned favorites and
/// display options.
#[derive(Debug, Clone)]
pub struct AppListConfig {
    pub filter_top_levels: Option<TopLevelFilter>,
    pub favorites: Vec<String>,
    pub enable_drag_source: bool,
}

impl Default for TopLevelFilter {
    fn default() -> (r: Self)
        ensures
            r == TopLevelFilter::ActiveWorkspace,
    {
        TopLevelFilter::ActiveWorkspace
    }
}

impl Default for AppListConfig {
    fn default() -> (r: Self)
        ensures
            r.filter_top_levels is None,
            r.favorites@.len() == 0,
            r.enable_drag_source == true,
    {
        AppListConfig { filter_top_levels: None, favorites: Vec::new(), enable_drag_source: true }
    }
}

} // verus!
