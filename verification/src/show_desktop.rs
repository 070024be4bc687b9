//! Deciding what "show the desktop" does, with no compositor in sight.
//!
//! The whole feature is one rule: restore exactly what you put away. A window
//! the user minimized themselves must still be minimized when the desktop
//! comes back, and a window that appeared while the desktop was showing must
//! not be swept up by the trip back.
//!
//! Windows are named by keys: integers in tests, the compositor's toplevel
//! identifiers in the program. The contracts speak of the keys' views, so a
//! remembered set means the same in every process that reads it.
use vstd::prelude::*;
use crate::seq_facts::{
    lemma_filter_all, lemma_filter_narrower, lemma_filter_push, lemma_map_values_push, lemma_take_succ,
};

verus! {

/// What names a window: equal views mean the same window.
pub trait WindowKey: Sized + Clone + PartialEq + View {
    /// Whether the two keys name the same window.
    fn same_key(&self, other: &Self) -> (same: bool)
        ensures
            same == (self@ == other@),
    ;

    /// A copy of the key, naming the same window.
    fn copy_key(&self) -> (copy: Self)
        ensures
            copy@ == self@,
    ;
}

impl WindowKey for u32 {
    fn same_key(&self, other: &Self) -> (same: bool) {
        *self == *other
    }

    fn copy_key(&self) -> (copy: Self) {
        *self
    }
}

impl WindowKey for u64 {
    fn same_key(&self, other: &Self) -> (same: bool) {
        *self == *other
    }

    fn copy_key(&self) -> (copy: Self) {
        *self
    }
}

impl WindowKey for usize {
    fn same_key(&self, other: &Self) -> (same: bool) {
        *self == *other
    }

    fn copy_key(&self) -> (copy: Self) {
        *self
    }
}

/// A toplevel identifier, as the compositor hands it out and the state file
/// keeps it.
impl WindowKey for String {
    fn same_key(&self, other: &Self) -> (same: bool) {
        *self == *other
    }

    fn copy_key(&self) -> (copy: Self) {
        self.clone()
    }
}

/// A window, as far as this feature cares.
#[derive(Clone, Debug, PartialEq, Eq)]
pub struct Window<Id> {
    pub id: Id,
    pub minimized: bool,
}

impl<Id: View> View for Window<Id> {
    type V = Window<Id::V>;

    open spec fn view(&self) -> Window<Id::V> {
        Window { id: self.id@, minimized: self.minimized }
    }
}

/// One request to make of the compositor.
#[derive(Clone, Debug, PartialEq, Eq)]
pub enum Step<Id> {
    Minimize(Id),
    Unminimize(Id),
}

impl<Id: View> View for Step<Id> {
    type V = Step<Id::V>;

    open spec fn view(&self) -> Step<Id::V> {
        match self {
            Step::Minimize(id) => Step::Minimize(id@),
            Step::Unminimize(id) => Step::Unminimize(id@),
        }
    }
}

/// Tracks which windows this applet put away, so it can bring back those and
/// only those.
#[derive(Clone, Debug)]
pub struct ShowDesktop<Id> {
    /// Windows minimized by the last press, in the order they were minimized.
    /// Empty means "the desktop is not being shown by us".
    hidden: Vec<Id>,
}

/// The views of the keys.
pub open spec fn key_views<Id: View>(ids: Seq<Id>) -> Seq<Id::V> {
    ids.map_values(|id: Id| id@)
}

/// The views of the windows.
pub open spec fn window_views<Id: View>(windows: Seq<Window<Id>>) -> Seq<Window<Id::V>> {
    windows.map_values(|w: Window<Id>| w@)
}

/// The views of the steps.
pub open spec fn step_views<Id: View>(steps: Seq<Step<Id>>) -> Seq<Step<Id::V>> {
    steps.map_values(|step: Step<Id>| step@)
}

impl<Id: View> View for ShowDesktop<Id> {
    type V = Seq<Id::V>;

    /// The remembered set, in the order its windows were put away.
    closed spec fn view(&self) -> Seq<Id::V> {
        key_views(self.hidden@)
    }
}

/// The windows that are on screen, in the order given.
pub open spec fn on_screen<K>(windows: Seq<Window<K>>) -> Seq<K> {
    windows.filter(|w: Window<K>| !w.minimized).map_values(|w: Window<K>| w.id)
}

/// Some window with this key exists.
pub open spec fn is_open<K>(windows: Seq<Window<K>>, id: K) -> bool {
    exists|j: int| 0 <= j < windows.len() && (#[trigger] windows[j]).id == id
}

/// Some window with this key exists and is minimized.
pub open spec fn is_put_away<K>(windows: Seq<Window<K>>, id: K) -> bool {
    exists|j: int| 0 <= j < windows.len() && (#[trigger] windows[j]).id == id && windows[j].minimized
}

/// Of the remembered windows, those that still exist and are still minimized.
pub open spec fn restorable<K>(hidden: Seq<K>, windows: Seq<Window<K>>) -> Seq<K> {
    hidden.filter(|id: K| is_put_away(windows, id))
}

/// Of the remembered windows, those that still exist.
pub open spec fn still_open<K>(hidden: Seq<K>, windows: Seq<Window<K>>) -> Seq<K> {
    hidden.filter(|id: K| is_open(windows, id))
}

/// A step that minimizes each of the windows, in order.
pub open spec fn minimize_each<K>(ids: Seq<K>) -> Seq<Step<K>> {
    ids.map_values(|id: K| Step::Minimize(id))
}

/// A step that brings back each of the windows, in order.
pub open spec fn unminimize_each<K>(ids: Seq<K>) -> Seq<Step<K>> {
    ids.map_values(|id: K| Step::Unminimize(id))
}

/// What one press does, given the remembered set and the windows: the set
/// remembered afterwards, and the steps to ask of the compositor. With nothing
/// remembered it puts away what is on screen; otherwise it brings back what
/// was put away and is still there to bring back, and forgets it all.
pub open spec fn press_outcome<K>(remembered: Seq<K>, windows: Seq<Window<K>>) -> (Seq<K>, Seq<Step<K>>) {
    if remembered.len() == 0 {
        (on_screen(windows), minimize_each(on_screen(windows)))
    } else {
        (Seq::<K>::empty(), unminimize_each(restorable(remembered, windows)))
    }
}

proof fn lemma_key_views_push<Id: View>(ids: Seq<Id>, id: Id)
    ensures
        key_views(ids.push(id)) == key_views(ids).push(id@),
{
    assert(key_views(ids.push(id)) =~= key_views(ids).push(id@));
}

proof fn lemma_step_views_push<Id: View>(steps: Seq<Step<Id>>, step: Step<Id>)
    ensures
        step_views(steps.push(step)) == step_views(steps).push(step@),
{
    assert(step_views(steps.push(step)) =~= step_views(steps).push(step@));
}

proof fn lemma_on_screen_push<Id>(windows: Seq<Window<Id>>, w: Window<Id>)
    ensures
        on_screen(windows.push(w)) == (if w.minimized {
            on_screen(windows)
        } else {
            on_screen(windows).push(w.id)
        }),
{
    let keep = |x: Window<Id>| !x.minimized;
    let id_of = |x: Window<Id>| x.id;
    lemma_filter_push(windows, w, keep);
    if !w.minimized {
        lemma_map_values_push(windows.filter(keep), w, id_of);
    }
}

proof fn lemma_minimize_each_push<Id>(ids: Seq<Id>, id: Id)
    ensures
        minimize_each(ids.push(id)) == minimize_each(ids).push(Step::Minimize(id)),
{
    assert(minimize_each(ids.push(id)) =~= minimize_each(ids).push(Step::Minimize(id)));
}

proof fn lemma_unminimize_each_push<Id>(ids: Seq<Id>, id: Id)
    ensures
        unminimize_each(ids.push(id)) == unminimize_each(ids).push(Step::Unminimize(id)),
{
    assert(unminimize_each(ids.push(id)) =~= unminimize_each(ids).push(Step::Unminimize(id)));
}

proof fn lemma_restorable_push<Id>(hidden: Seq<Id>, id: Id, windows: Seq<Window<Id>>)
    ensures
        restorable(hidden.push(id), windows) == (if is_put_away(windows, id) {
            restorable(hidden, windows).push(id)
        } else {
            restorable(hidden, windows)
        }),
{
    lemma_filter_push(hidden, id, |x: Id| is_put_away(windows, x));
}

proof fn lemma_still_open_push<Id>(hidden: Seq<Id>, id: Id, windows: Seq<Window<Id>>)
    ensures
        still_open(hidden.push(id), windows) == (if is_open(windows, id) {
            still_open(hidden, windows).push(id)
        } else {
            still_open(hidden, windows)
        }),
{
    lemma_filter_push(hidden, id, |x: Id| is_open(windows, x));
}

/// Whether some window carries `id` and is minimized.
fn any_put_away<Id: WindowKey>(windows: &[Window<Id>], id: &Id) -> (found: bool)
    ensures
        found == is_put_away(window_views(windows@), id@),
{
    let ghost ws = window_views(windows@);
    let mut j: usize = 0;
    while j < windows.len()
        invariant
            j <= windows@.len(),
            ws == window_views(windows@),
            forall|k: int| 0 <= k < j ==> !((#[trigger] ws[k]).id == id@ && ws[k].minimized),
        decreases windows@.len() - j,
    {
        if windows[j].id.same_key(id) && windows[j].minimized {
            proof {
                assert(ws[j as int].id == id@ && ws[j as int].minimized);
            }
            return true;
        }
        j += 1;
    }
    false
}

/// Whether some window carries `id`.
fn any_open<Id: WindowKey>(windows: &[Window<Id>], id: &Id) -> (found: bool)
    ensures
        found == is_open(window_views(windows@), id@),
{
    let ghost ws = window_views(windows@);
    let mut j: usize = 0;
    while j < windows.len()
        invariant
            j <= windows@.len(),
            ws == window_views(windows@),
            forall|k: int| 0 <= k < j ==> (#[trigger] ws[k]).id != id@,
        decreases windows@.len() - j,
    {
        if windows[j].id.same_key(id) {
            proof {
                assert(ws[j as int].id == id@);
            }
            return true;
        }
        j += 1;
    }
    false
}

// Written by hand rather than derived: deriving would demand `Id: Default`,
// and a window handle has no meaningful default.
impl<Id: View> Default for ShowDesktop<Id> {
    fn default() -> (state: Self)
        ensures
            state@ == Seq::<Id::V>::empty(),
    {
        let state = ShowDesktop { hidden: Vec::new() };
        proof {
            assert(state@ =~= Seq::<Id::V>::empty());
        }
        state
    }
}

impl<Id: WindowKey> ShowDesktop<Id> {
    /// Nothing put away.
    pub fn new() -> (state: Self)
        ensures
            state@ == Seq::<Id::V>::empty(),
    {
        ShowDesktop::default()
    }

    /// Resume from a remembered set: the button and the toggle invocation are
    /// different processes and hand this back and forth through a file.
    pub fn from_hidden(hidden: Vec<Id>) -> (state: Self)
        ensures
            state@ == key_views(hidden@),
    {
        ShowDesktop { hidden }
    }

    /// The remembered set, to be handed back to whoever stores it.
    pub fn hidden(&self) -> (ids: &[Id])
        ensures
            key_views(ids@) == self@,
    {
        self.hidden.as_slice()
    }

    /// Whether the next press will restore rather than minimize.
    pub fn is_showing_desktop(&self) -> (showing: bool)
        ensures
            showing == (self@.len() > 0),
    {
        !self.hidden.is_empty()
    }

    /// One press of the button: put away what is on screen when nothing is
    /// remembered, else bring back what was put away.
    pub fn toggle(&mut self, windows: &[Window<Id>]) -> (steps: Vec<Step<Id>>)
        ensures
            final(self)@ == press_outcome(old(self)@, window_views(windows@)).0,
            step_views(steps@) == press_outcome(old(self)@, window_views(windows@)).1,
            old(self)@.len() > 0 ==> final(self)@.len() == 0,
            old(self)@.len() == 0 ==> steps@.len() == final(self)@.len(),
    {
        if self.hidden.is_empty() {
            self.put_away(windows)
        } else {
            self.restore(windows)
        }
    }

    /// Put away what is on screen, and remember it.
    fn put_away(&mut self, windows: &[Window<Id>]) -> (steps: Vec<Step<Id>>)
        ensures
            final(self)@ == on_screen(window_views(windows@)),
            step_views(steps@) == minimize_each(final(self)@),
    {
        // Only what is actually on screen. Sweeping up already-minimized
        // windows would mean restoring them later to a state the user never
        // asked for.
        let ghost ws = window_views(windows@);
        let mut hidden: Vec<Id> = Vec::new();
        let mut i: usize = 0;
        while i < windows.len()
            invariant
                i <= windows@.len(),
                ws == window_views(windows@),
                key_views(hidden@) == on_screen(ws.take(i as int)),
            decreases windows@.len() - i,
        {
            if !windows[i].minimized {
                let id = windows[i].id.copy_key();
                proof {
                    lemma_key_views_push(hidden@, id);
                }
                hidden.push(id);
            }
            proof {
                lemma_take_succ(ws, i as int);
                lemma_on_screen_push(ws.take(i as int), ws[i as int]);
            }
            i += 1;
        }
        proof {
            assert(ws.take(windows@.len() as int) =~= ws);
        }
        let ghost kept = key_views(hidden@);
        let mut steps: Vec<Step<Id>> = Vec::new();
        let mut k: usize = 0;
        while k < hidden.len()
            invariant
                k <= hidden@.len(),
                kept == key_views(hidden@),
                step_views(steps@) == minimize_each(kept.take(k as int)),
            decreases hidden@.len() - k,
        {
            let id = hidden[k].copy_key();
            proof {
                lemma_take_succ(kept, k as int);
                lemma_minimize_each_push(kept.take(k as int), kept[k as int]);
                lemma_step_views_push(steps@, Step::Minimize(id));
            }
            steps.push(Step::Minimize(id));
            k += 1;
        }
        proof {
            assert(kept.take(hidden@.len() as int) =~= kept);
        }
        self.hidden = hidden;
        steps
    }

    /// Bring back what was put away and is still there to bring back, then
    /// forget it all.
    fn restore(&mut self, windows: &[Window<Id>]) -> (steps: Vec<Step<Id>>)
        ensures
            final(self)@ == Seq::<Id::V>::empty(),
            step_views(steps@) == unminimize_each(restorable(old(self)@, window_views(windows@))),
    {
        let ghost ws = window_views(windows@);
        let ghost remembered = old(self)@;
        let mut steps: Vec<Step<Id>> = Vec::new();
        let mut k: usize = 0;
        while k < self.hidden.len()
            invariant
                k <= self.hidden@.len(),
                remembered == key_views(self.hidden@),
                ws == window_views(windows@),
                step_views(steps@) == unminimize_each(restorable(remembered.take(k as int), ws)),
            decreases self.hidden@.len() - k,
        {
            // Skip anything that closed meanwhile, and anything the user
            // already brought back by hand: that one is where they want it.
            let ghost prefix = remembered.take(k as int);
            let ghost id_k = remembered[k as int];
            if any_put_away(windows, &self.hidden[k]) {
                let id = self.hidden[k].copy_key();
                proof {
                    lemma_unminimize_each_push(restorable(prefix, ws), id_k);
                    lemma_step_views_push(steps@, Step::Unminimize(id));
                }
                steps.push(Step::Unminimize(id));
            }
            proof {
                lemma_take_succ(remembered, k as int);
                lemma_restorable_push(prefix, id_k, ws);
            }
            k += 1;
        }
        proof {
            assert(remembered.take(self.hidden@.len() as int) =~= remembered);
        }
        self.hidden.clear();
        proof {
            assert(self@ =~= Seq::<Id::V>::empty());
        }
        steps
    }

    /// Forget the remembered set without touching any window.
    ///
    /// For when the desktop stops being shown by something other than this
    /// button: the user restoring every window by hand, say.
    pub fn forget(&mut self)
        ensures
            final(self)@ == Seq::<Id::V>::empty(),
    {
        self.hidden.clear();
        proof {
            assert(self@ =~= Seq::<Id::V>::empty());
        }
    }

    /// Drop remembered windows that no longer exist.
    ///
    /// If every window put away has since been closed, there is nothing left
    /// to come back to, and the button goes back to offering to minimize.
    pub fn retain_existing(&mut self, windows: &[Window<Id>])
        ensures
            final(self)@ == still_open(old(self)@, window_views(windows@)),
    {
        let ghost ws = window_views(windows@);
        let ghost remembered = old(self)@;
        let mut kept: Vec<Id> = Vec::new();
        let mut k: usize = 0;
        while k < self.hidden.len()
            invariant
                k <= self.hidden@.len(),
                remembered == key_views(self.hidden@),
                ws == window_views(windows@),
                key_views(kept@) == still_open(remembered.take(k as int), ws),
            decreases self.hidden@.len() - k,
        {
            let ghost prefix = remembered.take(k as int);
            let ghost id_k = remembered[k as int];
            if any_open(windows, &self.hidden[k]) {
                let id = self.hidden[k].copy_key();
                proof {
                    lemma_key_views_push(kept@, id);
                }
                kept.push(id);
            }
            proof {
                lemma_take_succ(remembered, k as int);
                lemma_still_open_push(prefix, id_k, ws);
            }
            k += 1;
        }
        proof {
            assert(remembered.take(self.hidden@.len() as int) =~= remembered);
        }
        self.hidden = kept;
    }
}

/// The windows as the compositor leaves them once every window with one of
/// `ids` has been minimized.
pub open spec fn after_minimizing<Id>(windows: Seq<Window<Id>>, ids: Seq<Id>) -> Seq<Window<Id>> {
    windows.map_values(
        |w: Window<Id>| Window { id: w.id, minimized: w.minimized || ids.contains(w.id) },
    )
}

/// No two windows share an identifier.
pub open spec fn distinct_ids<Id>(windows: Seq<Window<Id>>) -> bool {
    forall|i: int, j: int|
        0 <= i < windows.len() && 0 <= j < windows.len() && i != j ==> (#[trigger] windows[i]).id
            != (#[trigger] windows[j]).id
}

proof fn lemma_on_screen_from_window<Id>(windows: Seq<Window<Id>>, k: int)
    requires
        0 <= k < on_screen(windows).len(),
    ensures
        exists|j: int|
            0 <= j < windows.len() && (#[trigger] windows[j]).id == on_screen(windows)[k]
                && !windows[j].minimized,
{
    broadcast use vstd::seq_lib::group_filter_ensures;

    let keep = |w: Window<Id>| !w.minimized;
    let kept = windows.filter(keep);
    assert(keep(kept[k]));
    assert(windows.contains(kept[k])) by {
        kept.lemma_filter_contains_rev(keep, kept[k]);
        windows.lemma_filter_contains_rev(keep, kept[k]);
    }
}

/// Restore exactly what you put away: a press that puts away what is on
/// screen, followed by a press once the compositor has minimized those
/// windows, brings back exactly the windows the first press put away, in the
/// order it put them away, whatever windows have appeared meanwhile, and
/// leaves nothing remembered.
pub proof fn lemma_second_press_brings_back_the_first<K>(
    windows: Seq<Window<K>>,
    appeared: Seq<Window<K>>,
)
    requires
        on_screen(windows).len() > 0,
    ensures
        ({
            let first = press_outcome(Seq::<K>::empty(), windows);
            let second = press_outcome(first.0, after_minimizing(windows, first.0) + appeared);
            &&& first.1 == minimize_each(first.0)
            &&& second.0 == Seq::<K>::empty()
            &&& second.1 == unminimize_each(first.0)
        }),
{
    let put = on_screen(windows);
    let after = after_minimizing(windows, put);
    let later = after + appeared;
    assert forall|k: int| 0 <= k < put.len() implies #[trigger] is_put_away(later, put[k]) by {
        lemma_on_screen_from_window(windows, k);
        let j = choose|j: int|
            0 <= j < windows.len() && (#[trigger] windows[j]).id == put[k] && !windows[j].minimized;
        assert(put.contains(put[k]));
        assert(later[j] == after[j]);
        assert(later[j].id == put[k] && later[j].minimized);
    }
    lemma_filter_all(put, |id: K| is_put_away(later, id));
}

/// A window the user minimized themselves is never put away by a press, so no
/// later press brings it back, whatever the windows look like by then.
pub proof fn lemma_user_minimized_window_stays_minimized<Id>(
    windows: Seq<Window<Id>>,
    later: Seq<Window<Id>>,
    j: int,
)
    requires
        distinct_ids(windows),
        0 <= j < windows.len(),
        windows[j].minimized,
    ensures
        !on_screen(windows).contains(windows[j].id),
        !restorable(on_screen(windows), later).contains(windows[j].id),
        !unminimize_each(restorable(on_screen(windows), later)).contains(
            Step::Unminimize(windows[j].id),
        ),
{
    broadcast use vstd::seq_lib::group_filter_ensures;

    let put = on_screen(windows);
    if put.contains(windows[j].id) {
        let k = choose|k: int| 0 <= k < put.len() && put[k] == windows[j].id;
        lemma_on_screen_from_window(windows, k);
    }
    let back = restorable(put, later);
    if back.contains(windows[j].id) {
        put.lemma_filter_contains_rev(|id: Id| is_put_away(later, id), windows[j].id);
    }
    let steps = unminimize_each(back);
    if steps.contains(Step::Unminimize(windows[j].id)) {
        let k = choose|k: int| 0 <= k < steps.len() && steps[k] == Step::Unminimize(windows[j].id);
        assert(back[k] == windows[j].id);
    }
}

/// The trip back touches only windows that were put away, that still exist,
/// and that are still minimized: a window opened while the desktop showed, one
/// closed meanwhile, and one the user already brought back are all left alone.
pub proof fn lemma_restore_touches_only_what_was_put_away<Id>(
    hidden: Seq<Id>,
    windows: Seq<Window<Id>>,
    id: Id,
)
    ensures
        unminimize_each(restorable(hidden, windows)).contains(Step::Unminimize(id)) ==> {
            &&& hidden.contains(id)
            &&& is_put_away(windows, id)
        },
        hidden.contains(id) && is_put_away(windows, id) ==> unminimize_each(
            restorable(hidden, windows),
        ).contains(Step::Unminimize(id)),
{
    broadcast use vstd::seq_lib::group_filter_ensures;

    let pred = |x: Id| is_put_away(windows, x);
    let back = restorable(hidden, windows);
    let steps = unminimize_each(back);
    if steps.contains(Step::Unminimize(id)) {
        let k = choose|k: int| 0 <= k < steps.len() && steps[k] == Step::Unminimize(id);
        assert(back[k] == id);
        assert(back.contains(id));
        hidden.lemma_filter_contains_rev(pred, id);
        assert(pred(back[k]));
    }
    if hidden.contains(id) && is_put_away(windows, id) {
        let k = choose|k: int| 0 <= k < hidden.len() && hidden[k] == id;
        hidden.lemma_filter_contains(pred, k);
        let m = choose|m: int| 0 <= m < back.len() && back[m] == id;
        assert(steps[m] == Step::Unminimize(id));
    }
}

/// Pressing with nothing on screen puts nothing away and asks for nothing.
pub proof fn lemma_nothing_on_screen_means_nothing_to_do<Id>(windows: Seq<Window<Id>>)
    requires
        forall|j: int| 0 <= j < windows.len() ==> (#[trigger] windows[j]).minimized,
    ensures
        on_screen(windows) == Seq::<Id>::empty(),
        minimize_each(on_screen(windows)) == Seq::<Step<Id>>::empty(),
{
    broadcast use vstd::seq_lib::group_filter_ensures;

    let kept = windows.filter(|w: Window<Id>| !w.minimized);
    if kept.len() > 0 {
        assert(!kept[0].minimized);
        windows.lemma_filter_contains_rev(|w: Window<Id>| !w.minimized, kept[0]);
    }
    assert(on_screen(windows) =~= Seq::<Id>::empty());
    assert(minimize_each(on_screen(windows)) =~= Seq::<Step<Id>>::empty());
}

/// Dropping windows that are gone keeps exactly the remembered windows that
/// are still around, in order; once every one of them has closed, nothing is
/// left and the button offers to minimize again.
pub proof fn lemma_retaining_keeps_exactly_the_survivors<Id>(
    hidden: Seq<Id>,
    windows: Seq<Window<Id>>,
    id: Id,
)
    ensures
        still_open(hidden, windows).contains(id) <==> (hidden.contains(id) && is_open(windows, id)),
        (forall|k: int| 0 <= k < hidden.len() ==> !is_open(windows, #[trigger] hidden[k]))
            ==> still_open(hidden, windows).len() == 0,
{
    broadcast use vstd::seq_lib::group_filter_ensures;

    let pred = |x: Id| is_open(windows, x);
    let kept = still_open(hidden, windows);
    if kept.contains(id) {
        hidden.lemma_filter_contains_rev(pred, id);
        let m = choose|m: int| 0 <= m < kept.len() && kept[m] == id;
        assert(pred(kept[m]));
    }
    if hidden.contains(id) && is_open(windows, id) {
        let k = choose|k: int| 0 <= k < hidden.len() && hidden[k] == id;
        hidden.lemma_filter_contains(pred, k);
    }
    if (forall|k: int| 0 <= k < hidden.len() ==> !is_open(windows, #[trigger] hidden[k]))
        && kept.len() > 0 {
        assert(pred(kept[0]));
        hidden.lemma_filter_contains_rev(pred, kept[0]);
        let k = choose|k: int| 0 <= k < hidden.len() && hidden[k] == kept[0];
        assert(!is_open(windows, hidden[k]));
    }
}

/// Dropping closed windows first never changes what the trip back does: a
/// window that is still minimized is still there.
pub proof fn lemma_retaining_first_changes_no_restore<K>(hidden: Seq<K>, windows: Seq<Window<K>>)
    ensures
        restorable(still_open(hidden, windows), windows) == restorable(hidden, windows),
{
    assert forall|id: K| #[trigger] is_put_away(windows, id) implies is_open(windows, id) by {
        let j = choose|j: int|
            0 <= j < windows.len() && (#[trigger] windows[j]).id == id && windows[j].minimized;
        assert(windows[j].id == id);
    }
    lemma_filter_narrower(hidden, |id: K| is_open(windows, id), |id: K| is_put_away(windows, id));
}

/// Dropping closed windows twice against the same list drops nothing more.
pub proof fn lemma_retaining_twice_is_retaining_once<K>(hidden: Seq<K>, windows: Seq<Window<K>>)
    ensures
        still_open(still_open(hidden, windows), windows) == still_open(hidden, windows),
{
    lemma_filter_narrower(hidden, |id: K| is_open(windows, id), |id: K| is_open(windows, id));
}

/// Windows on screen, from the empty list up: an empty list has none, and a
/// window added at the end joins them, at the end, exactly when it is not
/// minimized.
pub proof fn lemma_on_screen_grows_by_the_window_added<K>(windows: Seq<Window<K>>, w: Window<K>)
    ensures
        on_screen(Seq::<Window<K>>::empty()) == Seq::<K>::empty(),
        !w.minimized ==> on_screen(windows.push(w)) == on_screen(windows).push(w.id),
        w.minimized ==> on_screen(windows.push(w)) == on_screen(windows),
{
    lemma_on_screen_push(windows, w);
    reveal(Seq::filter);
    assert(on_screen(Seq::<Window<K>>::empty()) =~= Seq::<K>::empty());
}

/// What comes back, from the empty set up: nothing for nothing remembered,
/// and a remembered window added at the end comes back, at the end, exactly
/// when some window carries its key and is minimized.
pub proof fn lemma_restorable_grows_by_the_window_added<K>(
    hidden: Seq<K>,
    id: K,
    windows: Seq<Window<K>>,
)
    ensures
        restorable(Seq::<K>::empty(), windows) == Seq::<K>::empty(),
        (exists|j: int| 0 <= j < windows.len() && windows[j].id == id && windows[j].minimized)
            ==> restorable(hidden.push(id), windows) == restorable(hidden, windows).push(id),
        !(exists|j: int| 0 <= j < windows.len() && windows[j].id == id && windows[j].minimized)
            ==> restorable(hidden.push(id), windows) == restorable(hidden, windows),
{
    lemma_restorable_push(hidden, id, windows);
    reveal(Seq::filter);
}

/// What survives, from the empty set up: nothing for nothing remembered, and a
/// remembered window added at the end survives, at the end, exactly when some
/// window carries its key.
pub proof fn lemma_still_open_grows_by_the_window_added<K>(
    hidden: Seq<K>,
    id: K,
    windows: Seq<Window<K>>,
)
    ensures
        still_open(Seq::<K>::empty(), windows) == Seq::<K>::empty(),
        (exists|j: int| 0 <= j < windows.len() && windows[j].id == id)
            ==> still_open(hidden.push(id), windows) == still_open(hidden, windows).push(id),
        !(exists|j: int| 0 <= j < windows.len() && windows[j].id == id)
            ==> still_open(hidden.push(id), windows) == still_open(hidden, windows),
{
    lemma_still_open_push(hidden, id, windows);
    reveal(Seq::filter);
}

/// A press made while nothing is remembered remembers the windows on screen,
/// in order, and asks to minimize each of them, one step per window, in the
/// same order.
pub proof fn lemma_first_press_minimizes_what_it_remembers<K>(windows: Seq<Window<K>>)
    ensures
        press_outcome(Seq::<K>::empty(), windows).0 == on_screen(windows),
        press_outcome(Seq::<K>::empty(), windows).1.len() == on_screen(windows).len(),
        forall|k: int|
            0 <= k < on_screen(windows).len() ==> #[trigger] press_outcome(
                Seq::<K>::empty(),
                windows,
            ).1[k] == Step::Minimize(on_screen(windows)[k]),
{
}

/// A press made while something is remembered forgets it all, whatever the
/// windows are, and asks only to bring back the remembered windows that some
/// window still carries minimized, one step each, in the remembered order.
pub proof fn lemma_press_while_remembering_forgets<K>(remembered: Seq<K>, windows: Seq<Window<K>>)
    requires
        remembered.len() > 0,
    ensures
        press_outcome(remembered, windows).0 == Seq::<K>::empty(),
        press_outcome(remembered, windows).1.len() == restorable(remembered, windows).len(),
        forall|k: int|
            0 <= k < restorable(remembered, windows).len() ==> #[trigger] press_outcome(
                remembered,
                windows,
            ).1[k] == Step::Unminimize(restorable(remembered, windows)[k]),
{
}

} // verus!
