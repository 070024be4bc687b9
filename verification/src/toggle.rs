//! The `--toggle` invocation: one show-or-restore, then exit.
//!
//! It does exactly what pressing the panel button does, and shares the
//! remembered set with it through the state file, where windows are named by
//! their toplevel identifiers. What is left to decide here is which entry of
//! the current window list each step is aimed at.
use vstd::prelude::*;
use crate::show_desktop::Step;
use crate::state_file::texts;

verus! {

/// A step aimed at one entry of the window list.
#[derive(Clone, Copy, Debug, PartialEq, Eq)]
pub struct Aimed {
    /// The position of the entry in the window list.
    pub index: usize,
    /// Minimize it, or else bring it back.
    pub minimize: bool,
}

/// The step aimed at the first entry that carries its identifier, if any
/// does.
pub open spec fn aim(identifiers: Seq<Seq<char>>, step: Step<String>) -> Option<Aimed> {
    let (id, minimize) = match step {
        Step::Minimize(id) => (id, true),
        Step::Unminimize(id) => (id, false),
    };
    match identifiers.index_of_first(id@) {
        Some(i) => Some(Aimed { index: i as usize, minimize }),
        None => None,
    }
}

/// A step is aimed at an entry exactly when some entry carries its identifier;
/// then it is aimed at the first such entry, and it minimizes exactly when the
/// step asks to minimize.
pub proof fn lemma_aim_finds_the_first_entry_with_the_identifier(
    identifiers: Seq<Seq<char>>,
    step: Step<String>,
)
    requires
        identifiers.len() <= usize::MAX,
    ensures
        ({
            let (id, minimize) = match step {
                Step::Minimize(id) => (id@, true),
                Step::Unminimize(id) => (id@, false),
            };
            &&& aim(identifiers, step) is None <==> !(exists|i: int|
                0 <= i < identifiers.len() && identifiers[i] == id)
            &&& aim(identifiers, step) matches Some(aimed) ==> {
                &&& aimed.index < identifiers.len()
                &&& identifiers[aimed.index as int] == id
                &&& forall|m: int| 0 <= m < aimed.index ==> identifiers[m] != id
                &&& aimed.minimize == minimize
            }
        }),
{
    let id = match step {
        Step::Minimize(id) => id@,
        Step::Unminimize(id) => id@,
    };
    identifiers.index_of_first_ensures(id);
    if exists|i: int| 0 <= i < identifiers.len() && identifiers[i] == id {
        let i = choose|i: int| 0 <= i < identifiers.len() && identifiers[i] == id;
        assert(identifiers.contains(id));
    }
}

/// The position of the first identifier equal to `id`.
fn find_entry(identifiers: &[String], id: &String) -> (found: Option<usize>)
    ensures
        found matches Some(i) ==> texts(identifiers@).index_of_first(id@) == Some(i as int),
        found is None ==> texts(identifiers@).index_of_first(id@) is None,
{
    let ghost names = texts(identifiers@);
    proof {
        names.index_of_first_ensures(id@);
    }
    let mut j: usize = 0;
    while j < identifiers.len()
        invariant
            j <= identifiers@.len(),
            names == texts(identifiers@),
            forall|k: int| 0 <= k < j ==> names[k] != id@,
            match names.index_of_first(id@) {
                Some(index) => {
                    &&& 0 <= index < names.len()
                    &&& names[index] == id@
                    &&& forall|m: int| 0 <= m < index ==> names[m] != id@
                },
                None => !names.contains(id@),
            },
        decreases identifiers@.len() - j,
    {
        if identifiers[j] == *id {
            proof {
                assert(names[j as int] == id@);
                assert(names.contains(id@));
                let index = names.index_of_first(id@)->0;
                assert(!(index < j));
                assert(!(j < index));
            }
            return Some(j);
        }
        j += 1;
    }
    proof {
        if names.contains(id@) {
            let k = choose|k: int| 0 <= k < names.len() && names[k] == id@;
            assert(names[k] != id@);
        }
    }
    None
}

/// Aims each step at the entry of the window list that carries its
/// identifier, in order, skipping steps for windows no longer in the list.
pub fn aim_steps(steps: &[Step<String>], identifiers: &[String]) -> (aimed: Vec<Aimed>)
    ensures
        aimed@ == steps@.filter_map(|step: Step<String>| aim(texts(identifiers@), step)),
{
    let ghost names = texts(identifiers@);
    let ghost f = |step: Step<String>| aim(names, step);
    let mut aimed: Vec<Aimed> = Vec::new();
    let mut k: usize = 0;
    while k < steps.len()
        invariant
            k <= steps@.len(),
            names == texts(identifiers@),
            f == (|step: Step<String>| aim(names, step)),
            aimed@ == steps@.take(k as int).filter_map(f),
        decreases steps@.len() - k,
    {
        let (id, minimize) = match &steps[k] {
            Step::Minimize(id) => (id, true),
            Step::Unminimize(id) => (id, false),
        };
        let found = find_entry(identifiers, id);
        proof {
            assert(steps@.take(k + 1).drop_last() =~= steps@.take(k as int));
            assert(steps@.take(k + 1).last() == steps@[k as int]);
        }
        match found {
            Some(index) => {
                aimed.push(Aimed { index, minimize });
                proof {
                    assert(aimed@ =~= steps@.take(k + 1).filter_map(f));
                }
            },
            None => {
            },
        }
        k += 1;
    }
    proof {
        assert(steps@.take(steps@.len() as int) =~= steps@);
    }
    aimed
}

/// What the compositor thread said while the window list is awaited.
#[derive(Clone, Copy, Debug, PartialEq, Eq)]
pub enum Heard {
    /// It described the windows.
    WindowList,
    /// It announced itself.
    Started,
    /// It finished, or the channel closed.
    Closed,
}

/// What to do while the window list is awaited.
#[derive(Clone, Copy, Debug, PartialEq, Eq)]
pub enum ListWait {
    /// Act on the window list just heard.
    Act,
    /// Listen again.
    KeepWaiting,
    /// Give up: the list took too long. A wrong answer is worse than a slow
    /// one, but acting on a half-populated list would be worse still.
    TimedOut,
    /// Give up: the connection is gone.
    ConnectionClosed,
}

/// The decision after each wait for the window list: give up once the
/// deadline has passed, act on a window list, keep listening after the
/// thread's announcement, and give up when it is gone.
pub fn list_wait(timed_out: bool, heard: Heard) -> (next: ListWait)
    ensures
        timed_out ==> next == ListWait::TimedOut,
        !timed_out ==> next == match heard {
            Heard::WindowList => ListWait::Act,
            Heard::Started => ListWait::KeepWaiting,
            Heard::Closed => ListWait::ConnectionClosed,
        },
{
    if timed_out {
        return ListWait::TimedOut;
    }
    match heard {
        Heard::WindowList => ListWait::Act,
        Heard::Started => ListWait::KeepWaiting,
        Heard::Closed => ListWait::ConnectionClosed,
    }
}

} // verus!
