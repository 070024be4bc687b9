//! What the panel button does with what it hears from the compositor thread.
//!
//! The applet holds the latest window list on the active workspace and the
//! remembered set. The remembered set is shared with the `--toggle`
//! invocation through the state file: each decision here that acts on the set
//! takes the set last saved, and leaves behind the set to save, so whichever
//! of the two acts second uses what the other put away. The user interface,
//! the channel to the compositor thread and the file itself live outside this
//! module; the decisions live here.
use vstd::prelude::*;
use crate::show_desktop::{
    after_minimizing, key_views, minimize_each, on_screen, press_outcome, still_open,
    step_views, unminimize_each, window_views, ShowDesktop, Step, Window, WindowKey,
};
use crate::state_file::{encoded, lemma_written_set_reads_back, parsed, storable};

verus! {

/// The button's view of the desktop.
pub struct Panel<Id> {
    windows: Vec<Window<Id>>,
    desktop: ShowDesktop<Id>,
}

impl<Id: View> View for Panel<Id> {
    /// The latest window list, and the remembered set.
    type V = (Seq<Window<Id::V>>, Seq<Id::V>);

    closed spec fn view(&self) -> (Seq<Window<Id::V>>, Seq<Id::V>) {
        (window_views(self.windows@), self.desktop@)
    }
}

impl<Id: View> Default for Panel<Id> {
    fn default() -> (panel: Self)
        ensures
            panel@.0 == Seq::<Window<Id::V>>::empty(),
            panel@.1 == Seq::<Id::V>::empty(),
    {
        let panel = Panel { windows: Vec::new(), desktop: ShowDesktop::default() };
        proof {
            assert(panel@.0 =~= Seq::<Window<Id::V>>::empty());
        }
        panel
    }
}

impl<Id: WindowKey> Panel<Id> {
    /// No windows known, nothing put away.
    pub fn new() -> (panel: Self)
        ensures
            panel@.0 == Seq::<Window<Id::V>>::empty(),
            panel@.1 == Seq::<Id::V>::empty(),
    {
        Panel::default()
    }

    /// Whether the next press will restore rather than minimize, as far as
    /// the set saved at the last decision goes.
    pub fn is_showing_desktop(&self) -> (showing: bool)
        ensures
            showing == (self@.1.len() > 0),
    {
        self.desktop.is_showing_desktop()
    }

    /// The latest window list.
    pub fn windows(&self) -> (windows: &[Window<Id>])
        ensures
            window_views(windows@) == self@.0,
    {
        self.windows.as_slice()
    }

    /// The remembered set, to be saved after each decision.
    pub fn remembered(&self) -> (ids: &[Id])
        ensures
            key_views(ids@) == self@.1,
    {
        self.desktop.hidden()
    }

    /// A fresh window list arrived; `saved` is the set last saved.
    ///
    /// Windows put away can be closed while the desktop is showing. Once the
    /// last one goes, there is nothing to come back to and the button offers
    /// to minimize again.
    pub fn windows_changed(&mut self, windows: Vec<Window<Id>>, saved: Vec<Id>)
        ensures
            final(self)@.0 == window_views(windows@),
            final(self)@.1 == still_open(key_views(saved@), window_views(windows@)),
    {
        let mut desktop = ShowDesktop::from_hidden(saved);
        desktop.retain_existing(windows.as_slice());
        self.desktop = desktop;
        self.windows = windows;
    }

    /// The compositor thread is gone.
    ///
    /// Nothing can be acted on any more. Forgetting leaves the windows exactly
    /// where they are, and leaves the saved set to the next process that can
    /// act on it; it only resets what the button shows.
    pub fn connection_lost(&mut self)
        ensures
            final(self)@.0 == Seq::<Window<Id::V>>::empty(),
            final(self)@.1 == Seq::<Id::V>::empty(),
    {
        self.windows.clear();
        self.desktop.forget();
        proof {
            assert(self@.0 =~= Seq::<Window<Id::V>>::empty());
        }
    }

    /// The button was pressed; `saved` is the set last saved, by this button
    /// or by a `--toggle` run. The steps to ask of the compositor come back,
    /// and the set to save is left in `remembered`.
    pub fn press(&mut self, saved: Vec<Id>) -> (steps: Vec<Step<Id>>)
        ensures
            final(self)@.0 == old(self)@.0,
            final(self)@.1 == press_outcome(key_views(saved@), old(self)@.0).0,
            step_views(steps@) == press_outcome(key_views(saved@), old(self)@.0).1,
            saved@.len() > 0 ==> final(self)@.1.len() == 0,
            saved@.len() == 0 ==> steps@.len() == final(self)@.1.len(),
    {
        let mut desktop = ShowDesktop::from_hidden(saved);
        let steps = desktop.toggle(self.windows.as_slice());
        self.desktop = desktop;
        steps
    }
}

/// Handing the remembered set to the state file and reading it back changes
/// no later press, whatever the windows are then.
pub proof fn lemma_stored_set_changes_no_press(
    remembered: Seq<Seq<char>>,
    windows: Seq<Window<Seq<char>>>,
)
    requires
        forall|k: int| 0 <= k < remembered.len() ==> storable(#[trigger] remembered[k]),
    ensures
        parsed(encoded(remembered)) == remembered,
        press_outcome(parsed(encoded(remembered)), windows) == press_outcome(remembered, windows),
{
    lemma_written_set_reads_back(remembered);
}

/// The button and the `--toggle` run are interchangeable: both decide a press
/// by `press_outcome` from the set last saved, and the state file hands a set
/// of identifiers over unchanged. So windows put away by one come back with
/// the other: exactly those, in the order they were put away, whatever
/// windows have appeared meanwhile, leaving nothing remembered.
pub proof fn lemma_either_brings_back_what_the_other_put_away(
    windows: Seq<Window<Seq<char>>>,
    appeared: Seq<Window<Seq<char>>>,
)
    requires
        on_screen(windows).len() > 0,
        forall|k: int| 0 <= k < on_screen(windows).len() ==> storable(#[trigger] on_screen(windows)[k]),
    ensures
        ({
            let first = press_outcome(Seq::<Seq<char>>::empty(), windows);
            let saved = parsed(encoded(first.0));
            let second = press_outcome(saved, after_minimizing(windows, first.0) + appeared);
            &&& first.1 == minimize_each(first.0)
            &&& saved == first.0
            &&& second.0 == Seq::<Seq<char>>::empty()
            &&& second.1 == unminimize_each(first.0)
            &&& parsed(encoded(second.0)) == second.0
        }),
{
    let put = on_screen(windows);
    lemma_written_set_reads_back(put);
    lemma_written_set_reads_back(Seq::<Seq<char>>::empty());
    crate::show_desktop::lemma_second_press_brings_back_the_first(windows, appeared);
}

} // verus!
