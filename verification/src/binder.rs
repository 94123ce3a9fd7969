use vstd::prelude::*;

verus! {

/// The global protocol objects a session managed to bind, reduced to what
/// the decision logic reads: presence of each, and the rich info channel's
/// bound version.
pub struct GlobalBindings {
    /// An input seat was bound.
    pub seat: bool,
    /// Version of the rich toplevel-info global, if it was bound.
    pub info_version: Option<u32>,
    /// The toplevel-activation manager was bound.
    pub mgr: bool,
    /// The generic foreign-toplevel-list global was bound.
    pub foreign_list: bool,
}

/// A missing required capability.  The seat and the generic list are
/// optional and their absence only degrades the session.
#[derive(Debug, Clone, Copy, PartialEq, Eq, Structural)]
pub enum BindFailure {
    /// The rich toplevel-info global is absent.
    MissingToplevelInfo,
    /// The toplevel-activation manager is absent.
    MissingToplevelManager,
}

/// Whether a session may begin tracking: the rich info channel and the
/// activation manager are required, and either missing is fatal — reported
/// before any dispatch round runs.
pub fn check_required_globals(b: &GlobalBindings) -> (r: Result<(), BindFailure>)
    ensures
        r is Ok <==> (b.info_version is Some && b.mgr),
        b.info_version is None ==> r == Result::<(), BindFailure>::Err(
            BindFailure::MissingToplevelInfo,
        ),
        b.info_version is Some && !b.mgr ==> r == Result::<(), BindFailure>::Err(
            BindFailure::MissingToplevelManager,
        ),
{
    if b.info_version.is_none() {
        return Err(BindFailure::MissingToplevelInfo);
    }
    if !b.mgr {
        return Err(BindFailure::MissingToplevelManager);
    }
    Ok(())
}

/// Whether the rich info channel supports creating a rich handle as a child
/// of a generic announcement: protocol version two and later.
pub fn supports_child_link(b: &GlobalBindings) -> (r: bool)
    ensures
        r == (b.info_version matches Some(x) && x >= 2),
{
    match b.info_version {
        Some(x) => x >= 2,
        None => false,
    }
}

} // verus!
