//! What app rules do to a window.
use crate::app_rules::decided;
use crate::app_rules::AppRuleDecision;
use crate::app_rules::AppRuleRejection;
use crate::app_rules::AppRuleResult;
use crate::app_rules::RuleDecision;
use crate::desktop::Desktop;
use crate::ids::SpaceId;
use crate::ids::VirtualWorkspaceId;
use crate::ids::WindowId;
use crate::laws::ruling_succeeds;
use crate::order::Ranked;
use crate::selectors::Selection;
use crate::selectors::WorkspaceSelector;
use crate::sequences::lemma_filter_first;
use crate::sequences::lemma_filter_none;
use crate::soundness::listed_is_owned;
use crate::state::named_in;
use crate::state::StoreState;
use crate::windows::WindowRecord;
use crate::windows::WindowState;
use crate::windows::WindowWorkspaceInfo;
use crate::workspace::Failure;
use crate::workspace::WorkspaceState;
use vstd::prelude::*;

verus! {

/// A rule overrides how a window looks, once the window was seen.
pub proof fn rule_overrides_looks(record: WindowRecord, rule_override: Option<bool>)
    ensures
        record.manageable is None ==> record.admission(rule_override) is None,
        record.manageable is Some && rule_override is Some ==> record.admission(rule_override)
            == rule_override,
        rule_override is None ==> record.admission(rule_override) == record.manageable,
{
}

/// A window on a space that lists a workspace is rejected by a rule that says
/// so, whatever is known of the window, and never where a rule says the
/// opposite. Without a word of the rules it is rejected exactly where it was
/// seen and does not look like one to manage.
pub proof fn rules_reject(
    desk: Desktop,
    window: WindowId,
    space: SpaceId,
    decision: RuleDecision,
    preserve: bool,
)
    requires
        desk.store.by_space.contains_key(space.id),
        desk.store.by_space[space.id].len() > 0,
    ensures
        decision.manage == Some(false) ==> desk.ruling(window, space, decision, preserve).1 == Ok::<
            AppRuleResult,
            Failure,
        >(AppRuleResult::Rejected(AppRuleRejection::ExplicitRule)),
        decision.manage == Some(true) ==> !(desk.ruling(window, space, decision, preserve).1 matches Ok(
            AppRuleResult::Rejected(_),
        )),
        decision.manage is None ==> ((desk.ruling(window, space, decision, preserve).1 matches Ok(
            AppRuleResult::Rejected(_),
        )) <==> desk.windows.records.contains_key(window)
            && desk.windows.records[window].manageable == Some(false)),
        decision.manage is None && desk.windows.records.contains_key(window)
            && desk.windows.records[window].manageable == Some(false) ==> desk.ruling(
            window,
            space,
            decision,
            preserve,
        ).1 == Ok::<AppRuleResult, Failure>(AppRuleResult::Rejected(AppRuleRejection::Heuristic)),
{
}

/// What the rules say about managing a known window is noted, and nothing else
/// about it or any other window.
proof fn lemma_noted(windows: WindowState, window: WindowId, manage: Option<bool>)
    ensures
        windows.overridden(window, manage).assignments == windows.assignments,
        windows.overridden(window, manage).rule_floating == windows.rule_floating,
        windows.overridden(window, manage).records.dom() == windows.records.dom(),
        windows.records.contains_key(window) ==> windows.overridden(window, manage).records[window]
            == (WindowRecord {
            manageable: windows.records[window].manageable,
            manage_override: manage,
        }),
        forall|other: WindowId|
            other != window ==> #[trigger] windows.overridden(window, manage).records[other]
                == windows.records[other],
{
    assert(windows.overridden(window, manage).records.dom() =~= windows.records.dom());
}

/// A rejected window no longer floats and keeps its workspace, the rules' word
/// on it is noted, and nothing else changes.
pub proof fn rejection_notes_the_word_alone(
    desk: Desktop,
    window: WindowId,
    space: SpaceId,
    decision: RuleDecision,
    preserve: bool,
)
    requires
        desk.ruling(window, space, decision, preserve).1 matches Ok(AppRuleResult::Rejected(_)),
    ensures
        ({
            let after = desk.ruling(window, space, decision, preserve).0;
            &&& after.store == desk.store
            &&& after.windows.assignments == desk.windows.assignments
            &&& !after.windows.rule_floating.contains(window)
            &&& forall|other: WindowId|
                other != window ==> (#[trigger] after.windows.rule_floating.contains(other)
                    <==> desk.windows.rule_floating.contains(other))
            &&& after.windows.records.dom() == desk.windows.records.dom()
            &&& desk.windows.records.contains_key(window) ==> after.windows.records[window] == (
            WindowRecord {
                manageable: desk.windows.records[window].manageable,
                manage_override: decision.manage,
            })
            &&& forall|other: WindowId|
                other != window ==> #[trigger] after.windows.records[other]
                    == desk.windows.records[other]
        }),
{
    lemma_noted(desk.windows, window, decision.manage);
}

/// A space without workspaces takes no window, and nothing changes.
pub proof fn no_workspace_no_ruling(
    desk: Desktop,
    window: WindowId,
    space: SpaceId,
    decision: RuleDecision,
    preserve: bool,
)
    ensures
        desk.ruling(window, space, decision, preserve).1 == Err::<AppRuleResult, Failure>(
            Failure::NoWorkspacesAvailable,
        ) <==> !desk.store.by_space.contains_key(space.id)
            || desk.store.by_space[space.id].len() == 0,
        desk.ruling(window, space, decision, preserve).1 == Err::<AppRuleResult, Failure>(
            Failure::NoWorkspacesAvailable,
        ) ==> desk.ruling(window, space, decision, preserve).0 == desk,
{
}

/// The first of some workspaces with a name.
pub open spec fn is_first_named(
    store: StoreState,
    ids: Seq<VirtualWorkspaceId>,
    name: Seq<char>,
    id: VirtualWorkspaceId,
) -> bool {
    exists|i: int|
        0 <= i < ids.len() && #[trigger] ids[i] == id && store.entries[id].name == name && forall|
            j: int,
        |
            0 <= j < i ==> store.entries[#[trigger] ids[j]].name != name
}

/// A selection by place picks the workspace at that place, and one by name the
/// first with that name. It picks none only where there is none.
pub proof fn selections_pick(
    store: StoreState,
    ids: Seq<VirtualWorkspaceId>,
    selection: Selection,
)
    ensures
        selection matches Selection::Index(index) ==> store.picked(ids, selection) == (if index
            < ids.len() {
            Some(ids[index as int])
        } else {
            None
        }),
        selection matches Selection::Name(name) ==> match store.picked(ids, selection) {
            Some(id) => is_first_named(store, ids, name, id),
            None => forall|i: int|
                0 <= i < ids.len() ==> store.entries[#[trigger] ids[i]].name != name,
        },
{
    if let Selection::Name(name) = selection {
        let wanted = named_in(store.entries, name);
        if forall|i: int| 0 <= i < ids.len() ==> store.entries[#[trigger] ids[i]].name != name {
            assert forall|i: int| 0 <= i < ids.len() implies !wanted(#[trigger] ids[i]) by {
                assert(store.entries[ids[i]].name != name);
            }
            lemma_filter_none(ids, wanted);
        } else {
            let found = choose|i: int|
                0 <= i < ids.len() && store.entries[#[trigger] ids[i]].name == name;
            let first = lemma_first_such(ids, wanted, found);
            lemma_filter_first(ids, wanted, first);
            assert(ids[first] == store.picked(ids, selection)->0);
            assert forall|j: int| 0 <= j < first implies store.entries[
                #[trigger] ids[j]
            ].name != name by {
                assert(!wanted(ids[j]));
            }
        }
    }
}

/// Where some place is accepted, a first one is.
pub proof fn lemma_first_such<T>(s: Seq<T>, wanted: spec_fn(T) -> bool, i: int) -> (first: int)
    requires
        0 <= i < s.len(),
        wanted(s[i]),
    ensures
        0 <= first <= i,
        wanted(s[first]),
        forall|j: int| 0 <= j < first ==> !wanted(#[trigger] s[j]),
    decreases i,
{
    if exists|j: int| 0 <= j < i && wanted(#[trigger] s[j]) {
        let j = choose|j: int| 0 <= j < i && wanted(#[trigger] s[j]);
        lemma_first_such(s, wanted, j)
    } else {
        i
    }
}

/// A rule picks among the workspaces of the space, or among all where displays
/// share a pool, and then only one that the space has.
pub proof fn rules_select(store: StoreState, space: SpaceId, selection: Selection)
    requires
        store.consistent(),
    ensures
        !store.settings.shared ==> store.rule_selected(space, selection) == store.picked(
            store.owned_ids(space),
            selection,
        ),
        store.settings.shared ==> store.rule_selected(space, selection) == match store.picked(
            store.global_ids(),
            selection,
        ) {
            Some(id) if store.entries[id].space == space => Some(id),
            _ => None,
        },
{
}

/// The workspace that the rules give a window, on any space: the one that the
/// window has, if that is to be kept or no rule selects another; the selected
/// one; or else what the space shows once it has workspaces, or the first of them.
/// The space gets workspaces where they are looked at, and not otherwise.
#[verifier::spinoff_prover]
#[verifier::rlimit(40)]
pub proof fn rules_resolve(
    store: StoreState,
    space: SpaceId,
    selection: Option<Selection>,
    had: Option<VirtualWorkspaceId>,
    preserve: bool,
)
    ensures
        ({
            let (after, result) = store.rule_resolution(space, selection, had, preserve);
            let ready = store.initialized(space);
            let looked_at = selection is Some && !store.settings.shared;
            let selected = match selection {
                Some(selection) => (if looked_at {
                    ready
                } else {
                    store
                }).rule_selected(space, selection),
                None => None,
            };
            let keeps = had is Some && (preserve || selected is None);
            &&& keeps ==> result == Ok::<VirtualWorkspaceId, Failure>(had->0)
            &&& !keeps && selected is Some ==> result == Ok::<VirtualWorkspaceId, Failure>(
                selected->0,
            )
            &&& keeps || selected is Some ==> after == (if looked_at {
                ready
            } else {
                store
            })
            &&& !keeps && selected is None && ready.active_of(space) is Some
                && ready.entries.contains_key(ready.active_of(space)->0) ==> result == Ok::<
                VirtualWorkspaceId,
                Failure,
            >(ready.active_of(space)->0) && after == ready
            &&& !keeps && selected is None && ready.active_of(space) is None
                && ready.owned_ids(space).len() > 0 ==> result == Ok::<VirtualWorkspaceId, Failure>(
                ready.owned_ids(space)[0],
            )
            &&& !keeps && selected is None && ready.active_of(space) is None
                && ready.owned_ids(space).len() == 0 ==> result is Err
        }),
{
}

/// The workspace that a window gets: the one it has on the space, if that is to
/// be kept or no rule selects another there; the selected one; or else what the
/// space shows, or its first workspace.
pub open spec fn is_due(
    desk: Desktop,
    window: WindowId,
    space: SpaceId,
    selected: Option<VirtualWorkspaceId>,
    preserve: bool,
    id: VirtualWorkspaceId,
) -> bool {
    let stays = desk.windows.info_of(window) matches Some(info) && info.space == space;
    if stays && (preserve || selected is None) {
        desk.windows.info_of(window) == Some(WindowWorkspaceInfo { space, workspace_id: id })
    } else if selected is Some {
        selected == Some(id)
    } else if desk.store.active_of(space) is Some {
        desk.store.active_of(space) == Some(id)
    } else {
        desk.store.owns(space, id) && forall|other: VirtualWorkspaceId| #[trigger]
            desk.store.owns(space, other) ==> id.rank() <= other.rank()
    }
}

/// A window that is not rejected is managed as the rules decided: it is in the
/// workspace that is due to it, floats as decided, and the result hands on what
/// was decided. No other window changes.
#[verifier::spinoff_prover]
#[verifier::rlimit(40)]
pub proof fn managed_as_decided(
    desk: Desktop,
    window: WindowId,
    space: SpaceId,
    decision: RuleDecision,
    preserve: bool,
)
    requires
        desk.sound(),
        desk.store.by_space.contains_key(space.id),
        desk.store.by_space[space.id].len() > 0,
        !(desk.ruling(window, space, decision, preserve).1 matches Ok(AppRuleResult::Rejected(_))),
    ensures
        ({
            let after = desk.ruling(window, space, decision, preserve).0;
            let selected = match decision.workspace {
                Some(selection) => desk.store.rule_selected(space, selection),
                None => None,
            };
            &&& desk.ruling(window, space, decision, preserve).1 matches Ok(
                AppRuleResult::Managed(effects),
            )
            &&& effects.floating == decision.floating
            &&& effects.position == decision.position
            &&& effects.size == decision.size
            &&& effects.focus == decision.focus
            &&& effects.was_rule_floating == desk.windows.rule_floating.contains(window)
            &&& is_due(desk, window, space, selected, preserve, effects.workspace_id)
            &&& after.windows.info_of(window) == Some(
                WindowWorkspaceInfo { space, workspace_id: effects.workspace_id },
            )
            &&& forall|other: WindowId|
                other != window ==> #[trigger] after.windows.info_of(other) == desk.windows.info_of(
                    other,
                )
            &&& forall|other: WindowId| #[trigger]
                after.windows.rule_floating.contains(other) <==> (if other == window {
                    decision.floating
                } else {
                    desk.windows.rule_floating.contains(other)
                })
            &&& after.windows.records.dom() == desk.windows.records.dom()
            &&& desk.windows.records.contains_key(window) ==> after.windows.records[window] == (
            WindowRecord {
                manageable: desk.windows.records[window].manageable,
                manage_override: decision.manage,
            })
            &&& forall|other: WindowId|
                other != window ==> #[trigger] after.windows.records[other]
                    == desk.windows.records[other]
        }),
{
    ruling_succeeds(desk, window, space, decision, preserve);
    lemma_noted(desk.windows, window, decision.manage);
    listed_is_owned(desk.store, space);
    let ids = desk.store.owned_ids(space);
    assert(ids.contains(ids[0]));
    assert forall|other: VirtualWorkspaceId| #[trigger]
        desk.store.owns(space, other) implies ids[0].rank() <= other.rank() by {
        assert(ids.contains(other));
        let k = choose|k: int| 0 <= k < ids.len() && ids[k] == other;
        if k > 0 {
            assert(ids[0].rank() < ids[k].rank());
        }
    }
    if let Some(active) = desk.store.active_of(space) {
        assert(desk.store.active.contains_key(space.id));
        assert(desk.store.by_space[space.id].contains(active));
        assert(desk.store.owns(space, active));
    }
}

/// Managing a window changes nothing in the store but this: the workspace that
/// the window leaves no longer remembers it, and a space that showed nothing
/// shows the window's workspace where the window got it for want of another.
#[verifier::spinoff_prover]
#[verifier::rlimit(40)]
pub proof fn managing_keeps_the_rest(
    desk: Desktop,
    window: WindowId,
    space: SpaceId,
    decision: RuleDecision,
    preserve: bool,
)
    requires
        desk.sound(),
        desk.store.by_space.contains_key(space.id),
        desk.store.by_space[space.id].len() > 0,
        !(desk.ruling(window, space, decision, preserve).1 matches Ok(AppRuleResult::Rejected(_))),
    ensures
        ({
            let before = desk.store;
            let after = desk.ruling(window, space, decision, preserve).0.store;
            let selected = match decision.workspace {
                Some(selection) => before.rule_selected(space, selection),
                None => None,
            };
            let had = desk.windows.info_of(window);
            let stays = had matches Some(info) && info.space == space;
            &&& desk.ruling(window, space, decision, preserve).1 matches Ok(
                AppRuleResult::Managed(effects),
            )
            &&& after.by_space == before.by_space
            &&& after.upcoming == before.upcoming
            &&& after.counter == before.counter
            &&& after.last_global == before.last_global
            &&& after.settings == before.settings
            &&& (before.active_of(space) is Some || stays || selected is Some) ==> after.active
                == before.active
            &&& !(before.active_of(space) is Some || stays || selected is Some) ==> after.active
                == before.active.insert(space.id, (None, effects.workspace_id))
            &&& after.entries.dom() == before.entries.dom()
            &&& forall|id: VirtualWorkspaceId| #[trigger]
                before.entries.contains_key(id) ==> after.entries[id] == (if had matches Some(info)
                    && info.workspace_id == id && id != effects.workspace_id
                    && before.entries[id].last_focused == Some(window) {
                    WorkspaceState { last_focused: None, ..before.entries[id] }
                } else {
                    before.entries[id]
                })
        }),
{
    ruling_succeeds(desk, window, space, decision, preserve);
    managed_as_decided(desk, window, space, decision, preserve);
    listed_is_owned(desk.store, space);
    let ids = desk.store.owned_ids(space);
    assert(ids.contains(ids[0]));
    assert(desk.store.owns(space, ids[0]));
    if let Some(active) = desk.store.active_of(space) {
        assert(desk.store.active.contains_key(space.id));
        assert(desk.store.by_space[space.id].contains(active));
        assert(desk.store.owns(space, active));
    }
    if let Some(info) = desk.windows.info_of(window) {
        assert(desk.windows.assignments.values.contains_key(window));
        assert(desk.store.owns(info.space, info.workspace_id));
    }
    let after = desk.ruling(window, space, decision, preserve).0.store;
    assert(after.entries.dom() =~= desk.store.entries.dom());
    if desk.store.active_of(space) is None {
        assert(desk.store.without_active(space).active =~= desk.store.active);
    }
}

/// A decision says what it holds, and none says nothing.
pub proof fn decisions_say_what_they_hold(decision: AppRuleDecision)
    ensures
        decided(Some(decision)).floating == decision.floating,
        decided(Some(decision)).position == decision.position,
        decided(Some(decision)).size == decision.size,
        decided(Some(decision)).focus == decision.focus,
        decided(Some(decision)).manage == decision.manage,
        match decision.workspace {
            None => decided(Some(decision)).workspace is None,
            Some(WorkspaceSelector::Index(index)) => decided(Some(decision)).workspace == Some(
                Selection::Index(index as nat),
            ),
            Some(WorkspaceSelector::Name(name)) => decided(Some(decision)).workspace == Some(
                Selection::Name(name@),
            ),
        },
        !decided(None).floating,
        !decided(None).focus,
        decided(None).position is None,
        decided(None).size is None,
        decided(None).manage is None,
        decided(None).workspace is None,
{
}

} // verus!
