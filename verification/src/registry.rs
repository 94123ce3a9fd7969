use vstd::prelude::*;
use crate::matcher::{fold_case, id_matches, lower_of, matches_folded};

verus! {

/// One window known to the client.  A real window may be announced on both
/// protocol channels; it is represented by at most one record, whose handles
/// are the per-channel protocol object identities.
pub struct TrackedToplevel {
    /// Handle on the generic foreign-toplevel-list channel, if announced there.
    pub foreign: Option<u64>,
    /// Handle on the rich vendor channel, if announced or linked there.
    pub cosmic: Option<u64>,
    /// Identifier metadata, once either channel has reported it.
    pub app_id: Option<String>,
}

/// Ghost image of a tracked record, with the identifier as a character
/// sequence.
pub struct TrackedView {
    pub foreign: Option<u64>,
    pub cosmic: Option<u64>,
    pub app_id: Option<Seq<char>>,
}

impl View for TrackedToplevel {
    type V = TrackedView;

    open spec fn view(&self) -> TrackedView {
        TrackedView { foreign: self.foreign, cosmic: self.cosmic, app_id: self.app_id.deep_view() }
    }
}

/// One protocol occurrence, as the event-dispatch edge hands it to the
/// registry.
pub enum ToplevelEvent {
    /// The generic channel announced a new toplevel; `cosmic` carries the
    /// rich child handle when the session requested one at creation time.
    ForeignAnnounced { foreign: u64, cosmic: Option<u64> },
    /// The generic channel reported an identifier for one of its handles.
    ForeignAppId { foreign: u64, app_id: String },
    /// The generic channel closed one of its handles.
    ForeignClosed { foreign: u64 },
    /// The rich channel reported an identifier for one of its handles.
    CosmicAppId { cosmic: u64, app_id: String },
    /// The rich channel closed one of its handles.
    CosmicClosed { cosmic: u64 },
}

/// Ghost image of an event.
pub enum EventView {
    ForeignAnnounced { foreign: u64, cosmic: Option<u64> },
    ForeignAppId { foreign: u64, app_id: Seq<char> },
    ForeignClosed { foreign: u64 },
    CosmicAppId { cosmic: u64, app_id: Seq<char> },
    CosmicClosed { cosmic: u64 },
}

impl View for ToplevelEvent {
    type V = EventView;

    open spec fn view(&self) -> EventView {
        match self {
            ToplevelEvent::ForeignAnnounced { foreign, cosmic } => EventView::ForeignAnnounced {
                foreign: *foreign,
                cosmic: *cosmic,
            },
            ToplevelEvent::ForeignAppId { foreign, app_id } => EventView::ForeignAppId {
                foreign: *foreign,
                app_id: app_id@,
            },
            ToplevelEvent::ForeignClosed { foreign } => EventView::ForeignClosed {
                foreign: *foreign,
            },
            ToplevelEvent::CosmicAppId { cosmic, app_id } => EventView::CosmicAppId {
                cosmic: *cosmic,
                app_id: app_id@,
            },
            ToplevelEvent::CosmicClosed { cosmic } => EventView::CosmicClosed { cosmic: *cosmic },
        }
    }
}

/// The ghost images of a sequence of records.
pub open spec fn views_of(s: Seq<TrackedToplevel>) -> Seq<TrackedView> {
    s.map_values(|t: TrackedToplevel| t@)
}

/// Some record holds the given generic-channel handle.
pub open spec fn has_foreign(s: Seq<TrackedView>, id: u64) -> bool {
    exists|i: int| 0 <= i < s.len() && s[i].foreign == Some(id)
}

/// The index of the record holding the given generic-channel handle.
pub open spec fn foreign_index(s: Seq<TrackedView>, id: u64) -> int {
    choose|i: int| 0 <= i < s.len() && s[i].foreign == Some(id)
}

/// Some record holds the given rich-channel handle.
pub open spec fn has_cosmic(s: Seq<TrackedView>, id: u64) -> bool {
    exists|i: int| 0 <= i < s.len() && s[i].cosmic == Some(id)
}

/// The index of the record holding the given rich-channel handle.
pub open spec fn cosmic_index(s: Seq<TrackedView>, id: u64) -> int {
    choose|i: int| 0 <= i < s.len() && s[i].cosmic == Some(id)
}

/// Records are well formed: each holds at least one handle, and no handle is
/// held by two records.
pub open spec fn wf_records(s: Seq<TrackedView>) -> bool {
    &&& forall|i: int|
        0 <= i < s.len() ==> (#[trigger] s[i]).foreign is Some || s[i].cosmic is Some
    &&& forall|i: int, j: int|
        #![trigger s[i], s[j]]
        (0 <= i < s.len() && 0 <= j < s.len() && i != j) ==> {
            &&& (s[i].foreign is Some ==> s[i].foreign != s[j].foreign)
            &&& (s[i].cosmic is Some ==> s[i].cosmic != s[j].cosmic)
        }
}

/// Whether a record's identifier satisfies the matching policy.
pub open spec fn rec_matches(target: Seq<char>, r: TrackedView) -> bool {
    match r.app_id {
        Some(a) => id_matches(target, a),
        None => false,
    }
}

/// Ghost image of the registry.
pub struct RegistryView {
    pub target: Seq<char>,
    pub toplevels: Seq<TrackedView>,
    pub match_handle: Option<u64>,
}

/// A well-formed registry: well-formed records, and a match slot that always
/// points at the rich handle of some live record.
pub open spec fn wf_view(v: RegistryView) -> bool {
    &&& wf_records(v.toplevels)
    &&& match v.match_handle {
        Some(m) => has_cosmic(v.toplevels, m),
        None => true,
    }
}

/// The in-memory set of tracked windows, merged from the two protocol
/// channels, plus the match slot holding the rich handle of the first record
/// that satisfied the matching policy.
pub struct Registry {
    pub target: String,
    pub target_folded: String,
    pub toplevels: Vec<TrackedToplevel>,
    pub match_handle: Option<u64>,
}

impl View for Registry {
    type V = RegistryView;

    open spec fn view(&self) -> RegistryView {
        RegistryView {
            target: self.target@,
            toplevels: views_of(self.toplevels@),
            match_handle: self.match_handle,
        }
    }
}

/// The match slot after a record gained an identifier: set to that record's
/// rich handle the first time a record with a rich handle satisfies the
/// policy; an existing match is never overridden.
pub open spec fn new_match(target: Seq<char>, cur: Option<u64>, rec: TrackedView) -> Option<u64> {
    if cur is None && rec.cosmic is Some && rec_matches(target, rec) {
        rec.cosmic
    } else {
        cur
    }
}

/// The match slot after removals: cleared exactly when no remaining record
/// holds the matched rich handle.
pub open spec fn retained_match(cur: Option<u64>, s: Seq<TrackedView>) -> Option<u64> {
    match cur {
        Some(m) => if has_cosmic(s, m) {
            cur
        } else {
            None
        },
        None => None,
    }
}

/// The registry's transition function: how one protocol event changes the
/// tracked records and the match slot.
pub open spec fn step(v: RegistryView, e: EventView) -> RegistryView {
    match e {
        EventView::ForeignAnnounced { foreign, cosmic } => {
            let dup = has_foreign(v.toplevels, foreign) || (cosmic matches Some(c)
                && has_cosmic(v.toplevels, c));
            if dup {
                v
            } else {
                RegistryView {
                    toplevels: v.toplevels.push(
                        TrackedView { foreign: Some(foreign), cosmic, app_id: None },
                    ),
                    ..v
                }
            }
        },
        EventView::ForeignAppId { foreign, app_id } => {
            if has_foreign(v.toplevels, foreign) {
                let i = foreign_index(v.toplevels, foreign);
                let rec = TrackedView { app_id: Some(app_id), ..v.toplevels[i] };
                RegistryView {
                    toplevels: v.toplevels.update(i, rec),
                    match_handle: new_match(v.target, v.match_handle, rec),
                    ..v
                }
            } else {
                v
            }
        },
        EventView::ForeignClosed { foreign } => {
            if has_foreign(v.toplevels, foreign) {
                let rest = v.toplevels.remove(foreign_index(v.toplevels, foreign));
                RegistryView {
                    toplevels: rest,
                    match_handle: retained_match(v.match_handle, rest),
                    ..v
                }
            } else {
                v
            }
        },
        EventView::CosmicAppId { cosmic, app_id } => {
            if has_cosmic(v.toplevels, cosmic) {
                let i = cosmic_index(v.toplevels, cosmic);
                let rec = TrackedView { app_id: Some(app_id), ..v.toplevels[i] };
                RegistryView {
                    toplevels: v.toplevels.update(i, rec),
                    match_handle: new_match(v.target, v.match_handle, rec),
                    ..v
                }
            } else {
                let rec = TrackedView { foreign: None, cosmic: Some(cosmic), app_id: Some(app_id) };
                RegistryView {
                    toplevels: v.toplevels.push(rec),
                    match_handle: new_match(v.target, v.match_handle, rec),
                    ..v
                }
            }
        },
        EventView::CosmicClosed { cosmic } => {
            if has_cosmic(v.toplevels, cosmic) {
                let rest = v.toplevels.remove(cosmic_index(v.toplevels, cosmic));
                RegistryView {
                    toplevels: rest,
                    match_handle: retained_match(v.match_handle, rest),
                    ..v
                }
            } else {
                v
            }
        },
    }
}

impl TrackedToplevel {
    /// Whether this record holds the given generic-channel handle.
    pub fn matches_foreign(&self, id: u64) -> (r: bool)
        ensures
            r == (self@.foreign == Some(id)),
    {
        match self.foreign {
            Some(f) => f == id,
            None => false,
        }
    }

    /// Whether this record holds the given rich-channel handle.
    pub fn matches_cosmic(&self, id: u64) -> (r: bool)
        ensures
            r == (self@.cosmic == Some(id)),
    {
        match self.cosmic {
            Some(c) => c == id,
            None => false,
        }
    }
}

impl Registry {
    /// A well-formed registry: a well-formed view, and a cached folded
    /// target that is indeed the target's folded form.
    pub open spec fn wf(&self) -> bool {
        &&& wf_view(self@)
        &&& self.folded_ok()
    }

    /// A fresh registry for the given target identifier: no tracked windows
    /// and no match.
    pub fn new(target: String) -> (r: Registry)
        ensures
            r.wf(),
            r@.target == target@,
            r@.toplevels.len() == 0,
            r@.match_handle is None,
    {
        let target_folded = fold_case(target.as_str());
        Registry { target, target_folded, toplevels: Vec::new(), match_handle: None }
    }

    /// Whether a reported identifier satisfies the matching policy against
    /// this registry's target.
    pub fn app_matches(&self, app_id: &str) -> (r: bool)
        requires
            self.folded_ok(),
        ensures
            r == id_matches(self@.target, app_id@),
    {
        if self.target.as_str().is_empty() || app_id.is_empty() {
            return false;
        }
        let cf = fold_case(app_id);
        matches_folded(self.target_folded.as_str(), cf.as_str())
    }

    /// Whether the match slot is set.
    pub fn has_match(&self) -> (r: bool)
        ensures
            r == (self@.match_handle is Some),
    {
        self.match_handle.is_some()
    }

    /// The first record holding the given generic-channel handle, if any.
    fn find_foreign(&self, id: u64) -> (r: Option<usize>)
        ensures
            match r {
                Some(i) => i < self@.toplevels.len() && self@.toplevels[i as int].foreign == Some(
                    id,
                ),
                None => !has_foreign(self@.toplevels, id),
            },
    {
        let n = self.toplevels.len();
        let mut i: usize = 0;
        while i < n
            invariant
                i <= n,
                n == self@.toplevels.len(),
                forall|j: int| 0 <= j < i ==> (#[trigger] self@.toplevels[j]).foreign != Some(id),
            decreases n - i,
        {
            if self.toplevels[i].matches_foreign(id) {
                return Some(i);
            }
            i += 1;
        }
        None
    }

    /// The first record holding the given rich-channel handle, if any.
    fn find_cosmic(&self, id: u64) -> (r: Option<usize>)
        ensures
            match r {
                Some(i) => i < self@.toplevels.len() && self@.toplevels[i as int].cosmic == Some(
                    id,
                ),
                None => !has_cosmic(self@.toplevels, id),
            },
    {
        let n = self.toplevels.len();
        let mut i: usize = 0;
        while i < n
            invariant
                i <= n,
                n == self@.toplevels.len(),
                forall|j: int| 0 <= j < i ==> (#[trigger] self@.toplevels[j]).cosmic != Some(id),
            decreases n - i,
        {
            if self.toplevels[i].matches_cosmic(id) {
                return Some(i);
            }
            i += 1;
        }
        None
    }
}

proof fn lemma_views_push(s: Seq<TrackedToplevel>, x: TrackedToplevel)
    ensures
        views_of(s.push(x)) =~= views_of(s).push(x@),
{
}

proof fn lemma_views_update(s: Seq<TrackedToplevel>, i: int, x: TrackedToplevel)
    requires
        0 <= i < s.len(),
    ensures
        views_of(s.update(i, x)) =~= views_of(s).update(i, x@),
{
}

proof fn lemma_views_remove(s: Seq<TrackedToplevel>, i: int)
    requires
        0 <= i < s.len(),
    ensures
        views_of(s.remove(i)) =~= views_of(s).remove(i),
{
    assert forall|j: int| 0 <= j < s.len() - 1 implies views_of(s.remove(i))[j] == views_of(
        s,
    ).remove(i)[j] by {
        if j < i {
            assert(s.remove(i)[j] == s[j]);
            assert(views_of(s).remove(i)[j] == views_of(s)[j]);
        } else {
            assert(s.remove(i)[j] == s[j + 1]);
            assert(views_of(s).remove(i)[j] == views_of(s)[j + 1]);
        }
    }
}

/// In a well-formed registry each handle is held by at most one record: any
/// index holding a given generic-channel handle is the record index for it.
pub proof fn lemma_foreign_index_is(s: Seq<TrackedView>, id: u64, i: int)
    requires
        wf_records(s),
        0 <= i < s.len(),
        s[i].foreign == Some(id),
    ensures
        has_foreign(s, id),
        foreign_index(s, id) == i,
{
    assert(has_foreign(s, id));
    let j = foreign_index(s, id);
    assert(0 <= j < s.len() && s[j].foreign == Some(id));
    if i != j {
        assert(s[i].foreign != s[j].foreign);
    }
}

/// The rich-channel twin of `lemma_foreign_index_is`.
pub proof fn lemma_cosmic_index_is(s: Seq<TrackedView>, id: u64, i: int)
    requires
        wf_records(s),
        0 <= i < s.len(),
        s[i].cosmic == Some(id),
    ensures
        has_cosmic(s, id),
        cosmic_index(s, id) == i,
{
    assert(has_cosmic(s, id));
    let j = cosmic_index(s, id);
    assert(0 <= j < s.len() && s[j].cosmic == Some(id));
    if i != j {
        assert(s[i].cosmic != s[j].cosmic);
    }
}

proof fn lemma_records_push_wf(s: Seq<TrackedView>, rec: TrackedView)
    requires
        wf_records(s),
        rec.foreign is Some || rec.cosmic is Some,
        rec.foreign matches Some(f) ==> !has_foreign(s, f),
        rec.cosmic matches Some(c) ==> !has_cosmic(s, c),
    ensures
        wf_records(s.push(rec)),
{
    let s2 = s.push(rec);
    assert forall|i: int, j: int|
        #![trigger s2[i], s2[j]]
        (0 <= i < s2.len() && 0 <= j < s2.len() && i != j) implies {
        &&& (s2[i].foreign is Some ==> s2[i].foreign != s2[j].foreign)
        &&& (s2[i].cosmic is Some ==> s2[i].cosmic != s2[j].cosmic)
    } by {
        if i < s.len() && j < s.len() {
            assert(s2[i] == s[i] && s2[j] == s[j]);
        } else if i < s.len() {
            // j is the new record
            assert(s2[j] == rec && s2[i] == s[i]);
            if s2[i].foreign is Some && s2[i].foreign == rec.foreign {
                assert(has_foreign(s, rec.foreign->0));
            }
            if s2[i].cosmic is Some && s2[i].cosmic == rec.cosmic {
                assert(has_cosmic(s, rec.cosmic->0));
            }
        } else {
            assert(s2[i] == rec && s2[j] == s[j]);
            if rec.foreign is Some && rec.foreign == s2[j].foreign {
                assert(has_foreign(s, rec.foreign->0));
            }
            if rec.cosmic is Some && rec.cosmic == s2[j].cosmic {
                assert(has_cosmic(s, rec.cosmic->0));
            }
        }
    }
}

proof fn lemma_records_remove_wf(s: Seq<TrackedView>, i: int)
    requires
        wf_records(s),
        0 <= i < s.len(),
    ensures
        wf_records(s.remove(i)),
{
    let s2 = s.remove(i);
    assert forall|k: int| 0 <= k < s2.len() implies (#[trigger] s2[k]).foreign is Some
        || s2[k].cosmic is Some by {
        if k < i {
            assert(s2[k] == s[k]);
        } else {
            assert(s2[k] == s[k + 1]);
        }
    }
    assert forall|k: int, l: int|
        #![trigger s2[k], s2[l]]
        (0 <= k < s2.len() && 0 <= l < s2.len() && k != l) implies {
        &&& (s2[k].foreign is Some ==> s2[k].foreign != s2[l].foreign)
        &&& (s2[k].cosmic is Some ==> s2[k].cosmic != s2[l].cosmic)
    } by {
        let k0 = if k < i {
            k
        } else {
            k + 1
        };
        let l0 = if l < i {
            l
        } else {
            l + 1
        };
        assert(s2[k] == s[k0]);
        assert(s2[l] == s[l0]);
        assert(k0 != l0);
    }
}

/// One event step keeps the registry well formed.
pub proof fn lemma_step_preserves_wf(v: RegistryView, e: EventView)
    requires
        wf_view(v),
    ensures
        wf_view(step(v, e)),
{
    let s = v.toplevels;
    match e {
        EventView::ForeignAnnounced { foreign, cosmic } => {
            let dup = has_foreign(s, foreign) || (cosmic matches Some(c) && has_cosmic(s, c));
            if !dup {
                let rec = TrackedView { foreign: Some(foreign), cosmic, app_id: None };
                lemma_records_push_wf(s, rec);
                match v.match_handle {
                    Some(m) => {
                        let w = choose|w: int| 0 <= w < s.len() && s[w].cosmic == Some(m);
                        assert(s.push(rec)[w].cosmic == Some(m));
                    },
                    None => {},
                }
            }
        },
        EventView::ForeignAppId { foreign, app_id } => {
            if has_foreign(s, foreign) {
                let i = foreign_index(s, foreign);
                let rec = TrackedView { app_id: Some(app_id), ..s[i] };
                let s2 = s.update(i, rec);
                assert(0 <= i < s.len() && s[i].foreign == Some(foreign));
                assert forall|k: int, l: int|
                    #![trigger s2[k], s2[l]]
                    (0 <= k < s2.len() && 0 <= l < s2.len() && k != l) implies {
                    &&& (s2[k].foreign is Some ==> s2[k].foreign != s2[l].foreign)
                    &&& (s2[k].cosmic is Some ==> s2[k].cosmic != s2[l].cosmic)
                } by {
                    assert(s2[k].foreign == s[k].foreign && s2[k].cosmic == s[k].cosmic);
                    assert(s2[l].foreign == s[l].foreign && s2[l].cosmic == s[l].cosmic);
                }
                assert forall|k: int| 0 <= k < s2.len() implies (#[trigger] s2[k]).foreign is Some
                    || s2[k].cosmic is Some by {
                    assert(s2[k].foreign == s[k].foreign && s2[k].cosmic == s[k].cosmic);
                }
                let m2 = new_match(v.target, v.match_handle, rec);
                match m2 {
                    Some(m) => {
                        if v.match_handle is Some {
                            let w = choose|w: int| 0 <= w < s.len() && s[w].cosmic == Some(m);
                            assert(s2[w].cosmic == Some(m));
                        } else {
                            assert(s2[i].cosmic == Some(m));
                        }
                    },
                    None => {},
                }
            }
        },
        EventView::ForeignClosed { foreign } => {
            if has_foreign(s, foreign) {
                lemma_records_remove_wf(s, foreign_index(s, foreign));
            }
        },
        EventView::CosmicAppId { cosmic, app_id } => {
            if has_cosmic(s, cosmic) {
                let i = cosmic_index(s, cosmic);
                let rec = TrackedView { app_id: Some(app_id), ..s[i] };
                let s2 = s.update(i, rec);
                assert(0 <= i < s.len() && s[i].cosmic == Some(cosmic));
                assert forall|k: int, l: int|
                    #![trigger s2[k], s2[l]]
                    (0 <= k < s2.len() && 0 <= l < s2.len() && k != l) implies {
                    &&& (s2[k].foreign is Some ==> s2[k].foreign != s2[l].foreign)
                    &&& (s2[k].cosmic is Some ==> s2[k].cosmic != s2[l].cosmic)
                } by {
                    assert(s2[k].foreign == s[k].foreign && s2[k].cosmic == s[k].cosmic);
                    assert(s2[l].foreign == s[l].foreign && s2[l].cosmic == s[l].cosmic);
                }
                assert forall|k: int| 0 <= k < s2.len() implies (#[trigger] s2[k]).foreign is Some
                    || s2[k].cosmic is Some by {
                    assert(s2[k].foreign == s[k].foreign && s2[k].cosmic == s[k].cosmic);
                }
                let m2 = new_match(v.target, v.match_handle, rec);
                match m2 {
                    Some(m) => {
                        if v.match_handle is Some {
                            let w = choose|w: int| 0 <= w < s.len() && s[w].cosmic == Some(m);
                            assert(s2[w].cosmic == Some(m));
                        } else {
                            assert(s2[i].cosmic == Some(m));
                        }
                    },
                    None => {},
                }
            } else {
                let rec = TrackedView { foreign: None, cosmic: Some(cosmic), app_id: Some(app_id) };
                lemma_records_push_wf(s, rec);
                let s2 = s.push(rec);
                let m2 = new_match(v.target, v.match_handle, rec);
                match m2 {
                    Some(m) => {
                        if v.match_handle is Some {
                            let w = choose|w: int| 0 <= w < s.len() && s[w].cosmic == Some(m);
                            assert(s2[w].cosmic == Some(m));
                        } else {
                            assert(s2[s.len() as int].cosmic == Some(m));
                        }
                    },
                    None => {},
                }
            }
        },
        EventView::CosmicClosed { cosmic } => {
            if has_cosmic(s, cosmic) {
                lemma_records_remove_wf(s, cosmic_index(s, cosmic));
            }
        },
    }
}

/// A well-formed registry represents one real window by at most one record:
/// two records never share a handle.
pub proof fn lemma_at_most_one_record(s: Seq<TrackedView>, i: int, j: int)
    requires
        wf_records(s),
        0 <= i < s.len(),
        0 <= j < s.len(),
        i != j,
    ensures
        s[i].foreign is Some ==> s[i].foreign != s[j].foreign,
        s[i].cosmic is Some ==> s[i].cosmic != s[j].cosmic,
{
}

/// Announcing the same linked pair a second time never produces a second
/// record: the repeated announcement leaves the registry unchanged.
pub proof fn lemma_announce_idempotent(v: RegistryView, foreign: u64, cosmic: Option<u64>)
    ensures
        ({
            let v1 = step(v, EventView::ForeignAnnounced { foreign, cosmic });
            step(v1, EventView::ForeignAnnounced { foreign, cosmic }) == v1
        }),
{
    let e = EventView::ForeignAnnounced { foreign, cosmic };
    let v1 = step(v, e);
    let dup = has_foreign(v.toplevels, foreign) || (cosmic matches Some(c) && has_cosmic(
        v.toplevels,
        c,
    ));
    if !dup {
        let n = v.toplevels.len() as int;
        assert(v1.toplevels[n].foreign == Some(foreign));
        assert(has_foreign(v1.toplevels, foreign));
    }
}

/// A closed event on the generic channel removes exactly the record owning
/// the handle — the others stay — and clears the match slot if and only if
/// the removed record held the matched rich handle.
pub proof fn lemma_closed_removes_exactly_foreign(v: RegistryView, foreign: u64)
    requires
        wf_view(v),
        has_foreign(v.toplevels, foreign),
    ensures
        ({
            let i = foreign_index(v.toplevels, foreign);
            let v2 = step(v, EventView::ForeignClosed { foreign });
            &&& v2.toplevels == v.toplevels.remove(i)
            &&& v2.match_handle == (match v.match_handle {
                Some(m) => if v.toplevels[i].cosmic == Some(m) {
                    None
                } else {
                    Some(m)
                },
                None => None,
            })
            &&& v2.target == v.target
        }),
{
    let i = foreign_index(v.toplevels, foreign);
    lemma_match_after_remove(v, i);
}

/// A closed event on the rich channel removes exactly the record owning the
/// handle; the twin of `lemma_closed_removes_exactly_foreign`.
pub proof fn lemma_closed_removes_exactly_cosmic(v: RegistryView, cosmic: u64)
    requires
        wf_view(v),
        has_cosmic(v.toplevels, cosmic),
    ensures
        ({
            let i = cosmic_index(v.toplevels, cosmic);
            let v2 = step(v, EventView::CosmicClosed { cosmic });
            &&& v2.toplevels == v.toplevels.remove(i)
            &&& v2.match_handle == (match v.match_handle {
                Some(m) => if v.toplevels[i].cosmic == Some(m) {
                    None
                } else {
                    Some(m)
                },
                None => None,
            })
            &&& v2.target == v.target
        }),
{
    let i = cosmic_index(v.toplevels, cosmic);
    lemma_match_after_remove(v, i);
}

/// Removing record `i` keeps the match slot exactly when a record other than
/// `i` holds the matched rich handle — under well-formedness, exactly when
/// record `i` did not hold it.
proof fn lemma_match_after_remove(v: RegistryView, i: int)
    requires
        wf_view(v),
        0 <= i < v.toplevels.len(),
    ensures
        ({
            let rest = v.toplevels.remove(i);
            retained_match(v.match_handle, rest) == (match v.match_handle {
                Some(m) => if v.toplevels[i].cosmic == Some(m) {
                    None
                } else {
                    Some(m)
                },
                None => None,
            })
        }),
{
    let s = v.toplevels;
    let rest = s.remove(i);
    match v.match_handle {
        Some(m) => {
            let w = choose|w: int| 0 <= w < s.len() && s[w].cosmic == Some(m);
            assert(0 <= w < s.len() && s[w].cosmic == Some(m));
            if s[i].cosmic == Some(m) {
                assert(!has_cosmic(rest, m)) by {
                    if has_cosmic(rest, m) {
                        let k = choose|k: int| 0 <= k < rest.len() && rest[k].cosmic == Some(m);
                        let k0 = if k < i {
                            k
                        } else {
                            k + 1
                        };
                        assert(rest[k] == s[k0]);
                        assert(s[k0].cosmic is Some ==> s[k0].cosmic != s[i].cosmic);
                    }
                }
            } else {
                assert(w != i);
                let k = if w < i {
                    w
                } else {
                    w - 1
                };
                assert(rest[k] == s[w]);
                assert(has_cosmic(rest, m));
            }
        },
        None => {},
    }
}

impl Registry {
    /// The cached folded form of the target is indeed its folded form.
    pub open spec fn folded_ok(&self) -> bool {
        self.target_folded@ == lower_of(self.target@)
    }

    /// Re-evaluate the matching policy for the record at `idx`, setting the
    /// match slot to its rich handle if the record satisfies the policy and
    /// no match is held yet.  An existing match is never overridden.
    pub fn update_match_for_index(&mut self, idx: usize)
        requires
            idx < old(self)@.toplevels.len(),
            old(self).folded_ok(),
        ensures
            final(self).target == old(self).target,
            final(self).target_folded == old(self).target_folded,
            final(self).toplevels == old(self).toplevels,
            final(self).match_handle == new_match(
                old(self)@.target,
                old(self)@.match_handle,
                old(self)@.toplevels[idx as int],
            ),
    {
        if self.match_handle.is_none() {
            let cosmic = self.toplevels[idx].cosmic;
            if let Some(c) = cosmic {
                let matched = match &self.toplevels[idx].app_id {
                    Some(a) => self.app_matches(a.as_str()),
                    None => false,
                };
                if matched {
                    self.match_handle = Some(c);
                }
            }
        }
    }

    /// Drop the match slot when no remaining record holds the matched rich
    /// handle.
    pub fn drop_match_if_stale(&mut self)
        ensures
            final(self).target == old(self).target,
            final(self).target_folded == old(self).target_folded,
            final(self).toplevels == old(self).toplevels,
            final(self).match_handle == retained_match(old(self).match_handle, old(self)@.toplevels),
    {
        match self.match_handle {
            Some(m) => {
                match self.find_cosmic(m) {
                    Some(i) => {
                        proof {
                            assert(self@.toplevels[i as int].cosmic == Some(m));
                            assert(has_cosmic(self@.toplevels, m));
                        }
                    },
                    None => {
                        self.match_handle = None;
                    },
                }
            },
            None => {},
        }
    }

    /// A new toplevel announced on the generic channel, together with the
    /// rich child handle when the session requested one at creation time:
    /// both handles are stored in one record, atomically.  A handle already
    /// tracked is tolerated and changes nothing.
    pub fn announce_foreign(&mut self, foreign: u64, cosmic: Option<u64>)
        requires
            old(self).wf(),
        ensures
            final(self).wf(),
            final(self)@ == step(old(self)@, EventView::ForeignAnnounced { foreign, cosmic }),
    {
        let dup_f = match self.find_foreign(foreign) {
            Some(i) => {
                proof {
                    assert(self@.toplevels[i as int].foreign == Some(foreign));
                    assert(has_foreign(self@.toplevels, foreign));
                }
                true
            },
            None => false,
        };
        let dup_c = match cosmic {
            Some(c) => match self.find_cosmic(c) {
                Some(i) => {
                    proof {
                        assert(self@.toplevels[i as int].cosmic == Some(c));
                        assert(has_cosmic(self@.toplevels, c));
                    }
                    true
                },
                None => false,
            },
            None => false,
        };
        if !dup_f && !dup_c {
            self.toplevels.push(TrackedToplevel { foreign: Some(foreign), cosmic, app_id: None });
            proof {
                lemma_views_push(
                    old(self).toplevels@,
                    TrackedToplevel { foreign: Some(foreign), cosmic, app_id: None },
                );
            }
        }
        proof {
            lemma_step_preserves_wf(
                old(self)@,
                EventView::ForeignAnnounced { foreign, cosmic },
            );
        }
    }

    /// The generic channel reported an identifier: attach it to the owning
    /// record and re-evaluate the matching policy.  Unknown handles are
    /// tolerated and change nothing.
    pub fn foreign_app_id(&mut self, foreign: u64, app_id: String)
        requires
            old(self).wf(),
        ensures
            final(self).wf(),
            final(self)@ == step(old(self)@, EventView::ForeignAppId { foreign, app_id: app_id@ }),
    {
        match self.find_foreign(foreign) {
            None => {},
            Some(idx) => {
                proof {
                    lemma_foreign_index_is(self@.toplevels, foreign, idx as int);
                }
                let rec_foreign = self.toplevels[idx].foreign;
                let rec_cosmic = self.toplevels[idx].cosmic;
                self.toplevels[idx] = TrackedToplevel {
                    foreign: rec_foreign,
                    cosmic: rec_cosmic,
                    app_id: Some(app_id),
                };
                proof {
                    lemma_views_update(
                        old(self).toplevels@,
                        idx as int,
                        self.toplevels@[idx as int],
                    );
                }
                self.update_match_for_index(idx);
            },
        }
        proof {
            lemma_step_preserves_wf(
                old(self)@,
                EventView::ForeignAppId { foreign, app_id: app_id@ },
            );
        }
    }

    /// The rich channel reported an identifier.  A handle already linked to a
    /// record updates that record in place; a standalone handle creates a new
    /// unlinked record, which immediately participates in matching.
    pub fn cosmic_app_id(&mut self, cosmic: u64, app_id: String)
        requires
            old(self).wf(),
        ensures
            final(self).wf(),
            final(self)@ == step(old(self)@, EventView::CosmicAppId { cosmic, app_id: app_id@ }),
    {
        match self.find_cosmic(cosmic) {
            Some(idx) => {
                proof {
                    lemma_cosmic_index_is(self@.toplevels, cosmic, idx as int);
                }
                let rec_foreign = self.toplevels[idx].foreign;
                let rec_cosmic = self.toplevels[idx].cosmic;
                self.toplevels[idx] = TrackedToplevel {
                    foreign: rec_foreign,
                    cosmic: rec_cosmic,
                    app_id: Some(app_id),
                };
                proof {
                    lemma_views_update(
                        old(self).toplevels@,
                        idx as int,
                        self.toplevels@[idx as int],
                    );
                }
                self.update_match_for_index(idx);
            },
            None => {
                let matched = self.app_matches(app_id.as_str());
                self.toplevels.push(TrackedToplevel {
                    foreign: None,
                    cosmic: Some(cosmic),
                    app_id: Some(app_id),
                });
                proof {
                    lemma_views_push(
                        old(self).toplevels@,
                        self.toplevels@[old(self).toplevels@.len() as int],
                    );
                }
                if matched && self.match_handle.is_none() {
                    self.match_handle = Some(cosmic);
                }
            },
        }
        proof {
            lemma_step_preserves_wf(
                old(self)@,
                EventView::CosmicAppId { cosmic, app_id: app_id@ },
            );
        }
    }

    /// The generic channel closed a toplevel: remove the owning record and
    /// drop the match slot if that record held the matched rich handle.
    /// Unknown handles are tolerated and change nothing.
    pub fn remove_by_foreign(&mut self, foreign: u64)
        requires
            old(self).wf(),
        ensures
            final(self).wf(),
            final(self)@ == step(old(self)@, EventView::ForeignClosed { foreign }),
    {
        match self.find_foreign(foreign) {
            None => {},
            Some(idx) => {
                proof {
                    lemma_foreign_index_is(self@.toplevels, foreign, idx as int);
                }
                self.toplevels.remove(idx);
                proof {
                    lemma_views_remove(old(self).toplevels@, idx as int);
                }
                self.drop_match_if_stale();
            },
        }
        proof {
            lemma_step_preserves_wf(old(self)@, EventView::ForeignClosed { foreign });
        }
    }

    /// The rich channel closed a toplevel; the twin of `remove_by_foreign`.
    pub fn remove_by_cosmic(&mut self, cosmic: u64)
        requires
            old(self).wf(),
        ensures
            final(self).wf(),
            final(self)@ == step(old(self)@, EventView::CosmicClosed { cosmic }),
    {
        match self.find_cosmic(cosmic) {
            None => {},
            Some(idx) => {
                proof {
                    lemma_cosmic_index_is(self@.toplevels, cosmic, idx as int);
                }
                self.toplevels.remove(idx);
                proof {
                    lemma_views_remove(old(self).toplevels@, idx as int);
                }
                self.drop_match_if_stale();
            },
        }
        proof {
            lemma_step_preserves_wf(old(self)@, EventView::CosmicClosed { cosmic });
        }
    }

    /// Process one protocol event: the registry's single reactive entry
    /// point, a plain switch over the event kind.
    pub fn event(&mut self, ev: &ToplevelEvent)
        requires
            old(self).wf(),
        ensures
            final(self).wf(),
            final(self)@ == step(old(self)@, ev@),
    {
        match ev {
            ToplevelEvent::ForeignAnnounced { foreign, cosmic } => {
                self.announce_foreign(*foreign, *cosmic);
            },
            ToplevelEvent::ForeignAppId { foreign, app_id } => {
                self.foreign_app_id(*foreign, app_id.clone());
            },
            ToplevelEvent::ForeignClosed { foreign } => {
                self.remove_by_foreign(*foreign);
            },
            ToplevelEvent::CosmicAppId { cosmic, app_id } => {
                self.cosmic_app_id(*cosmic, app_id.clone());
            },
            ToplevelEvent::CosmicClosed { cosmic } => {
                self.remove_by_cosmic(*cosmic);
            },
        }
    }
}

} // verus!
