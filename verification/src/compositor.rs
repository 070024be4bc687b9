//! The decisions of the thread that talks to the compositor: which windows
//! are in scope, and what each request asks of the toplevel manager.
//!
//! Wayland objects never reach this module. Workspaces are named by the
//! protocol identifiers of their handles, which the compositor keeps distinct
//! among live objects.
use vstd::prelude::*;
use crate::show_desktop::{window_views, Step, Window, WindowKey};

verus! {

/// Whether a toplevel on the given workspaces is in scope when the given
/// workspaces are active.
///
/// With no active workspace reported (an older compositor, or before the
/// first event) every window is in scope rather than none, so the button still
/// does something sensible.
pub open spec fn in_scope(active: Seq<u32>, workspaces: Seq<u32>) -> bool {
    active.len() == 0 || exists|i: int| 0 <= i < workspaces.len() && active.contains(#[trigger] workspaces[i])
}

/// Whether a toplevel on `workspaces` belongs to the workspace the user is
/// looking at.
///
/// Filtering by workspace is not cosmetic: minimizing windows on the other
/// workspaces would leave those empty when the user switched back.
pub fn on_active_workspace(active: &[u32], workspaces: &[u32]) -> (shown: bool)
    ensures
        shown == in_scope(active@, workspaces@),
        shown == (active@.len() == 0 || exists|i: int, j: int|
            0 <= i < workspaces@.len() && 0 <= j < active@.len() && workspaces@[i] == active@[j]),
{
    proof {
        lemma_in_scope_is_sharing_an_active_workspace(active@, workspaces@);
    }
    if active.len() == 0 {
        return true;
    }
    let mut i: usize = 0;
    while i < workspaces.len()
        invariant
            i <= workspaces@.len(),
            active@.len() > 0,
            forall|k: int| 0 <= k < i ==> !active@.contains(#[trigger] workspaces@[k]),
        decreases workspaces@.len() - i,
    {
        let w = workspaces[i];
        let mut j: usize = 0;
        while j < active.len()
            invariant
                j <= active@.len(),
                i < workspaces@.len(),
                w == workspaces@[i as int],
                forall|m: int| 0 <= m < j ==> active@[m] != w,
            decreases active@.len() - j,
        {
            if active[j] == w {
                proof {
                    assert(active@.contains(workspaces@[i as int]));
                }
                return true;
            }
            j += 1;
        }
        i += 1;
    }
    false
}

/// A toplevel is in scope exactly when no workspace is reported active, or
/// one of its workspaces is among the active ones, wherever in the list of
/// active workspaces (one per output) that one stands.
pub proof fn lemma_in_scope_is_sharing_an_active_workspace(active: Seq<u32>, workspaces: Seq<u32>)
    ensures
        in_scope(active, workspaces) == (active.len() == 0 || exists|i: int, j: int|
            0 <= i < workspaces.len() && 0 <= j < active.len() && workspaces[i] == active[j]),
{
    if exists|i: int, j: int|
        0 <= i < workspaces.len() && 0 <= j < active.len() && workspaces[i] == active[j] {
        let (i, j) = choose|i: int, j: int|
            0 <= i < workspaces.len() && 0 <= j < active.len() && workspaces[i] == active[j];
        assert(active.contains(workspaces[i]));
    }
    if active.len() > 0 && in_scope(active, workspaces) {
        let i = choose|i: int| 0 <= i < workspaces.len() && active.contains(#[trigger] workspaces[i]);
        let j = choose|j: int| 0 <= j < active.len() && active[j] == workspaces[i];
        assert(workspaces[i] == active[j]);
    }
}

/// One request made of the compositor's toplevel manager.
#[derive(Clone, Copy, Debug, PartialEq, Eq)]
pub enum ManagerAction {
    SetMinimized,
    UnsetMinimized,
    /// Raise and focus the window on the seat.
    Activate,
}

/// What the toplevel manager is asked for one step.
pub open spec fn actions_for<Id>(
    step: Step<Id>,
    seat_available: bool,
    toplevel_known: bool,
) -> Seq<ManagerAction> {
    if !seat_available || !toplevel_known {
        Seq::empty()
    } else {
        match step {
            Step::Minimize(_) => seq![ManagerAction::SetMinimized],
            Step::Unminimize(_) => seq![ManagerAction::UnsetMinimized, ManagerAction::Activate],
        }
    }
}

/// Nothing is asked without a seat or for a window the compositor no longer
/// describes; otherwise a minimize asks only to set the window minimized, and
/// a restore asks to unset it and then to activate it, in that order.
pub proof fn lemma_actions_ask_for_what_the_step_says<Id>(
    step: Step<Id>,
    seat_available: bool,
    toplevel_known: bool,
)
    ensures
        !seat_available || !toplevel_known ==> actions_for(step, seat_available, toplevel_known).len()
            == 0,
        seat_available && toplevel_known && step is Minimize ==> {
            &&& actions_for(step, seat_available, toplevel_known).len() == 1
            &&& actions_for(step, seat_available, toplevel_known)[0] == ManagerAction::SetMinimized
        },
        seat_available && toplevel_known && step is Unminimize ==> {
            &&& actions_for(step, seat_available, toplevel_known).len() == 2
            &&& actions_for(step, seat_available, toplevel_known)[0] == ManagerAction::UnsetMinimized
            &&& actions_for(step, seat_available, toplevel_known)[1] == ManagerAction::Activate
        },
{
}

/// The requests to make of the toplevel manager for one step.
///
/// Without a seat, or for a window the compositor no longer describes, nothing
/// is asked. A restored window is also brought to the front: one restored
/// behind everything else looks like nothing happened.
pub fn manager_actions<Id>(step: &Step<Id>, seat_available: bool, toplevel_known: bool) -> (actions:
    Vec<ManagerAction>)
    ensures
        actions@ == actions_for(*step, seat_available, toplevel_known),
{
    let mut actions: Vec<ManagerAction> = Vec::new();
    if !seat_available || !toplevel_known {
        return actions;
    }
    match step {
        Step::Minimize(_) => {
            actions.push(ManagerAction::SetMinimized);
        },
        Step::Unminimize(_) => {
            actions.push(ManagerAction::UnsetMinimized);
            actions.push(ManagerAction::Activate);
        },
    }
    proof {
        assert(actions@ =~= actions_for(*step, seat_available, toplevel_known));
    }
    actions
}

/// Whether a freshly computed window list differs from the one last sent up.
///
/// An event storm that changes nothing the applet cares about must not turn
/// into a stream of identical messages, so only a changed list is sent.
pub fn list_changed<Id: WindowKey>(windows: &[Window<Id>], last_sent: &[Window<Id>]) -> (changed:
    bool)
    ensures
        changed == (window_views(windows@) != window_views(last_sent@)),
{
    let ghost now = window_views(windows@);
    let ghost before = window_views(last_sent@);
    if windows.len() != last_sent.len() {
        proof {
            assert(now.len() != before.len());
        }
        return true;
    }
    let mut i: usize = 0;
    while i < windows.len()
        invariant
            i <= windows@.len(),
            windows@.len() == last_sent@.len(),
            now == window_views(windows@),
            before == window_views(last_sent@),
            forall|k: int| 0 <= k < i ==> now[k] == before[k],
        decreases windows@.len() - i,
    {
        if !windows[i].id.same_key(&last_sent[i].id) || windows[i].minimized != last_sent[i].minimized {
            proof {
                assert(now[i as int] != before[i as int]);
            }
            return true;
        }
        i += 1;
    }
    proof {
        assert(now =~= before);
    }
    false
}

} // verus!
