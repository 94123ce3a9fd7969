use vstd::prelude::*;
use crate::registry::{EventView, Registry, RegistryView, ToplevelEvent, step};

verus! {

/// Number of blocking dispatch rounds the discovery loop performs before
/// concluding that no running window matches.  Identifier metadata may
/// arrive in a later round than the announcement itself, so one round risks
/// false negatives; the fixed budget guarantees termination when genuinely
/// nothing matches.
pub const ROUND_BUDGET: usize = 5;

/// The registry after one round's events, applied in order.
pub open spec fn apply_events(v: RegistryView, evs: Seq<EventView>) -> RegistryView
    decreases evs.len(),
{
    if evs.len() == 0 {
        v
    } else {
        apply_events(step(v, evs[0]), evs.skip(1))
    }
}

/// The registry after the first `n` rounds of a script.
pub open spec fn after_rounds(v: RegistryView, rounds: Seq<Seq<EventView>>, n: int) -> RegistryView
    decreases n,
{
    if n <= 0 {
        v
    } else {
        apply_events(after_rounds(v, rounds, n - 1), rounds[n - 1])
    }
}

/// How many rounds of a script the bounded loop performs: it stops after the
/// first round that leaves the match slot set, and otherwise performs them
/// all.
pub open spec fn rounds_performed(v: RegistryView, rounds: Seq<Seq<EventView>>) -> nat
    decreases rounds.len(),
{
    if rounds.len() == 0 {
        0
    } else {
        let v1 = apply_events(v, rounds[0]);
        if v1.match_handle is Some {
            1
        } else {
            (1 + rounds_performed(v1, rounds.skip(1))) as nat
        }
    }
}

/// Ghost image of one round of events.
pub open spec fn events_view(evs: Seq<ToplevelEvent>) -> Seq<EventView> {
    evs.map_values(|e: ToplevelEvent| e@)
}

/// Ghost image of a script of rounds.
pub open spec fn rounds_view(rounds: Seq<Vec<ToplevelEvent>>) -> Seq<Seq<EventView>> {
    rounds.map_values(|r: Vec<ToplevelEvent>| events_view(r@))
}

/// The prefix of a script the budget admits.
pub open spec fn budgeted(rounds: Seq<Seq<EventView>>) -> Seq<Seq<EventView>> {
    if rounds.len() <= ROUND_BUDGET {
        rounds
    } else {
        rounds.take(ROUND_BUDGET as int)
    }
}

/// Feed one dispatch round's events to the registry, in order.
pub fn apply_round(reg: &mut Registry, events: &Vec<ToplevelEvent>)
    requires
        old(reg).wf(),
    ensures
        final(reg).wf(),
        final(reg)@ == apply_events(old(reg)@, events_view(events@)),
{
    let ghost evs = events_view(events@);
    proof {
        assert(evs.skip(0) =~= evs);
    }
    let n = events.len();
    let mut i: usize = 0;
    while i < n
        invariant
            i <= n,
            n == events@.len(),
            evs == events_view(events@),
            reg.wf(),
            apply_events(old(reg)@, evs) == apply_events(reg@, evs.skip(i as int)),
        decreases n - i,
    {
        let ghost pre = reg@;
        reg.event(&events[i]);
        proof {
            assert(evs.skip(i as int)[0] == evs[i as int]);
            assert(evs.skip(i as int).skip(1) =~= evs.skip(i as int + 1));
            assert(apply_events(pre, evs.skip(i as int)) == apply_events(
                reg@,
                evs.skip(i as int + 1),
            ));
        }
        i += 1;
    }
    proof {
        assert(evs.skip(n as int).len() == 0);
    }
}

/// Drive up to `ROUND_BUDGET` scripted dispatch rounds against the registry,
/// stopping after the first round that produces a match; the result is the
/// number of rounds performed.
pub fn run_discovery(reg: &mut Registry, rounds: &Vec<Vec<ToplevelEvent>>) -> (used: usize)
    requires
        old(reg).wf(),
    ensures
        final(reg).wf(),
        ({
            let rs = budgeted(rounds_view(rounds@));
            &&& used == rounds_performed(old(reg)@, rs)
            &&& final(reg)@ == after_rounds(old(reg)@, rs, used as int)
        }),
{
    let ghost v0 = old(reg)@;
    let ghost rs = budgeted(rounds_view(rounds@));
    let n = if rounds.len() < ROUND_BUDGET {
        rounds.len()
    } else {
        ROUND_BUDGET
    };
    proof {
        assert(rs.len() == n);
    }
    let mut i: usize = 0;
    let mut done = false;
    while i < n && !done
        invariant
            i <= n,
            n <= rounds@.len(),
            rs == budgeted(rounds_view(rounds@)),
            rs.len() == n,
            reg.wf(),
            reg@ == after_rounds(v0, rs, i as int),
            forall|j: int| 1 <= j < i ==> (#[trigger] after_rounds(v0, rs, j)).match_handle is None,
            done ==> 0 < i && after_rounds(v0, rs, i as int).match_handle is Some,
            !done && 0 < i ==> after_rounds(v0, rs, i as int).match_handle is None,
        decreases n - i,
    {
        proof {
            assert(rs[i as int] == events_view(rounds@[i as int]@));
        }
        apply_round(reg, &rounds[i]);
        i += 1;
        if reg.has_match() {
            done = true;
        }
    }
    proof {
        lemma_rounds_performed_characterize(v0, rs, i as int);
    }
    i
}

proof fn lemma_after_rounds_shift(v: RegistryView, rs: Seq<Seq<EventView>>, j: int)
    requires
        rs.len() > 0,
        0 <= j,
        j + 1 <= rs.len(),
    ensures
        after_rounds(apply_events(v, rs[0]), rs.skip(1), j) == after_rounds(v, rs, j + 1),
    decreases j,
{
    if j == 0 {
        assert(after_rounds(v, rs, 0) == v);
        assert(after_rounds(apply_events(v, rs[0]), rs.skip(1), 0) == apply_events(v, rs[0]));
    } else {
        lemma_after_rounds_shift(v, rs, j - 1);
        assert(rs.skip(1)[j - 1] == rs[j]);
    }
}

proof fn lemma_rounds_performed_characterize(v: RegistryView, rs: Seq<Seq<EventView>>, i: int)
    requires
        0 <= i <= rs.len(),
        forall|j: int| 1 <= j < i ==> (#[trigger] after_rounds(v, rs, j)).match_handle is None,
        i == rs.len() || (0 < i && after_rounds(v, rs, i).match_handle is Some),
    ensures
        rounds_performed(v, rs) == i,
    decreases rs.len(),
{
    if rs.len() == 0 {
    } else {
        let v1 = apply_events(v, rs[0]);
        assert(after_rounds(v, rs, 0) == v);
        assert(after_rounds(v, rs, 1) == v1);
        if i == 0 {
            assert(false);
        } else if i == 1 {
            if v1.match_handle is Some {
                assert(rounds_performed(v, rs) == 1);
            } else {
                assert(rs.len() == 1);
                assert(rs.skip(1).len() == 0);
                assert(rounds_performed(v1, rs.skip(1)) == 0);
                assert(rounds_performed(v, rs) == 1);
            }
        } else {
            assert(after_rounds(v, rs, 1).match_handle is None);
            let rs1 = rs.skip(1);
            assert forall|j: int| 1 <= j < i - 1 implies (#[trigger] after_rounds(
                v1,
                rs1,
                j,
            )).match_handle is None by {
                lemma_after_rounds_shift(v, rs, j);
                assert(after_rounds(v, rs, j + 1).match_handle is None);
            }
            if i < rs.len() {
                lemma_after_rounds_shift(v, rs, i - 1);
            }
            lemma_rounds_performed_characterize(v1, rs1, i - 1);
            assert(rounds_performed(v1, rs1) == i - 1);
            assert(rounds_performed(v, rs) == 1 + rounds_performed(v1, rs1));
        }
    }
}

/// The loop never performs more rounds than the script holds.
pub proof fn lemma_rounds_budget(v: RegistryView, rs: Seq<Seq<EventView>>)
    ensures
        rounds_performed(v, rs) <= rs.len(),
    decreases rs.len(),
{
    if rs.len() > 0 {
        let v1 = apply_events(v, rs[0]);
        if !(v1.match_handle is Some) {
            lemma_rounds_budget(v1, rs.skip(1));
        }
    }
}

/// The loop never performs more rounds than the budget admits.
pub proof fn lemma_budget_cap(v: RegistryView, rounds: Seq<Seq<EventView>>)
    ensures
        rounds_performed(v, budgeted(rounds)) <= ROUND_BUDGET,
{
    lemma_rounds_budget(v, budgeted(rounds));
}

/// Convergence bound: when the `k`-th round of a script is the first to
/// leave the match slot set, the loop performs exactly `k` rounds — no
/// further rounds — and ends in the state reached after round `k`.
pub proof fn lemma_convergence_bound(v: RegistryView, rs: Seq<Seq<EventView>>, k: int)
    requires
        1 <= k <= rs.len(),
        forall|j: int| 1 <= j < k ==> (#[trigger] after_rounds(v, rs, j)).match_handle is None,
        after_rounds(v, rs, k).match_handle is Some,
    ensures
        rounds_performed(v, rs) == k,
        after_rounds(v, rs, rounds_performed(v, rs) as int) == after_rounds(v, rs, k),
{
    lemma_rounds_performed_characterize(v, rs, k);
}

} // verus!
