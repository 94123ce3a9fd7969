use vstd::prelude::*;
use vstd::string::StringExecFns;

verus! {

/// The terminal action of a session: exactly one of the two, never both.
#[derive(Debug, Clone, Copy, PartialEq, Eq, Structural)]
pub enum FinalAction {
    /// Issue one activation request for this rich handle.
    Activate(u64),
    /// Spawn the fallback launch command.
    Launch,
}

/// Decide the terminal action: activate exactly when a matched rich handle,
/// a seat and the activation manager are all present after discovery;
/// otherwise fall back to launching.
pub fn decide_action(match_handle: Option<u64>, have_seat: bool, have_mgr: bool) -> (r:
    FinalAction)
    ensures
        (match_handle is Some && have_seat && have_mgr) ==> r == FinalAction::Activate(
            match_handle->0,
        ),
        !(match_handle is Some && have_seat && have_mgr) ==> r == FinalAction::Launch,
{
    match match_handle {
        Some(h) => if have_seat && have_mgr {
            FinalAction::Activate(h)
        } else {
            FinalAction::Launch
        },
        None => FinalAction::Launch,
    }
}

/// The fallback launch command: the configured override when one is given,
/// and otherwise the conventional desktop-launch helper applied to the
/// target identifier.
pub fn resolve_launch_command(override_cmd: Option<String>, app_id: &str) -> (r: String)
    ensures
        override_cmd matches Some(c) ==> r == c,
        override_cmd is None ==> r@ == "gtk-launch "@ + app_id@,
{
    match override_cmd {
        Some(c) => c,
        None => {
            let mut cmd = "gtk-launch ".to_owned();
            cmd.append(app_id);
            cmd
        },
    }
}

/// The log level selected by the verbosity counter: warnings only by
/// default, informational at one, debug from two up.
pub fn log_level_name(verbosity: u8) -> (r: &'static str)
    ensures
        verbosity == 0 ==> r@ == "warn"@,
        verbosity == 1 ==> r@ == "info"@,
        verbosity >= 2 ==> r@ == "debug"@,
{
    match verbosity {
        0 => "warn",
        1 => "info",
        _ => "debug",
    }
}

} // verus!
