use vstd::prelude::*;
use crate::binder::{check_required_globals, BindFailure, GlobalBindings};
use crate::controller::{after_rounds, budgeted, rounds_performed, rounds_view, run_discovery};
use crate::executor::{decide_action, FinalAction};
use crate::registry::{Registry, RegistryView, ToplevelEvent};

verus! {

/// The view of a registry freshly created for a target.
pub open spec fn initial_view(target: Seq<char>) -> RegistryView {
    RegistryView { target, toplevels: Seq::empty(), match_handle: None }
}

/// The registry view a session ends in after driving the bounded discovery
/// loop over a script.
pub open spec fn discovered_view(target: Seq<char>, rounds: Seq<Vec<ToplevelEvent>>)
    -> RegistryView {
    let v0 = initial_view(target);
    let rs = budgeted(rounds_view(rounds));
    after_rounds(v0, rs, rounds_performed(v0, rs) as int)
}

/// One session's decision pipeline, on a scripted compositor: refuse when a
/// required global is missing — before any dispatch round — and otherwise
/// drive the bounded discovery loop and decide the terminal action: activate
/// the matched handle exactly when a match, a seat and the manager are all
/// present, and fall back to launching otherwise.
pub fn run_session(target: String, bindings: &GlobalBindings, rounds: &Vec<Vec<ToplevelEvent>>)
    -> (r: Result<FinalAction, BindFailure>)
    ensures
        r is Err <==> !(bindings.info_version is Some && bindings.mgr),
        bindings.info_version is None ==> r == Result::<FinalAction, BindFailure>::Err(
            BindFailure::MissingToplevelInfo,
        ),
        bindings.info_version is Some && !bindings.mgr ==> r == Result::<
            FinalAction,
            BindFailure,
        >::Err(BindFailure::MissingToplevelManager),
        ({
            let vfin = discovered_view(target@, rounds@);
            &&& (r is Ok && vfin.match_handle is Some && bindings.seat && bindings.mgr) ==> r
                == Result::<FinalAction, BindFailure>::Ok(
                FinalAction::Activate(vfin.match_handle->0),
            )
            &&& (r is Ok && !(vfin.match_handle is Some && bindings.seat)) ==> r == Result::<
                FinalAction,
                BindFailure,
            >::Ok(FinalAction::Launch)
        }),
{
    match check_required_globals(bindings) {
        Err(failure) => Err(failure),
        Ok(()) => {
            let mut reg = Registry::new(target);
            proof {
                assert(reg@.toplevels =~= Seq::<crate::registry::TrackedView>::empty());
            }
            run_discovery(&mut reg, rounds);
            Ok(decide_action(reg.match_handle, bindings.seat, bindings.mgr))
        },
    }
}

} // verus!
