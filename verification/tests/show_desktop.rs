use cosmic_applet_show_desktop::show_desktop::{ShowDesktop, Step, Window};

fn windows(list: &[(u32, bool)]) -> Vec<Window<u32>> {
    list.iter()
        .map(|&(id, minimized)| Window { id, minimized })
        .collect()
}

#[test]
fn a_press_puts_away_what_is_on_screen_and_the_next_brings_it_back() {
    let mut state = ShowDesktop::new();
    let open = windows(&[(1, false), (2, false)]);

    assert_eq!(
        state.toggle(&open),
        vec![Step::Minimize(1), Step::Minimize(2)]
    );
    assert!(state.is_showing_desktop());

    let hidden = windows(&[(1, true), (2, true)]);
    assert_eq!(
        state.toggle(&hidden),
        vec![Step::Unminimize(1), Step::Unminimize(2)]
    );
    assert!(!state.is_showing_desktop());
}

#[test]
fn a_window_the_user_minimized_stays_minimized() {
    let mut state = ShowDesktop::new();
    let open = windows(&[(1, true), (2, false)]);

    assert_eq!(state.toggle(&open), vec![Step::Minimize(2)]);

    let hidden = windows(&[(1, true), (2, true)]);
    assert_eq!(state.toggle(&hidden), vec![Step::Unminimize(2)]);
}

#[test]
fn a_window_opened_while_the_desktop_showed_is_left_alone() {
    let mut state = ShowDesktop::new();
    state.toggle(&windows(&[(1, false)]));

    let now = windows(&[(1, true), (2, false)]);
    assert_eq!(state.toggle(&now), vec![Step::Unminimize(1)]);
}

#[test]
fn a_window_closed_while_hidden_is_simply_skipped() {
    let mut state = ShowDesktop::new();
    state.toggle(&windows(&[(1, false), (2, false)]));

    let now = windows(&[(2, true)]);
    assert_eq!(state.toggle(&now), vec![Step::Unminimize(2)]);
    assert!(!state.is_showing_desktop());
}

#[test]
fn a_window_restored_by_hand_is_not_restored_twice() {
    let mut state = ShowDesktop::new();
    state.toggle(&windows(&[(1, false), (2, false)]));

    let now = windows(&[(1, false), (2, true)]);
    assert_eq!(state.toggle(&now), vec![Step::Unminimize(2)]);
}

#[test]
fn pressing_with_nothing_on_screen_does_nothing() {
    let mut state = ShowDesktop::<u32>::new();
    assert_eq!(state.toggle(&[]), vec![]);
    assert!(!state.is_showing_desktop());

    let mut state = ShowDesktop::new();
    assert_eq!(state.toggle(&windows(&[(1, true)])), vec![]);
    assert!(!state.is_showing_desktop());
}

#[test]
fn closing_every_hidden_window_ends_the_showing_state() {
    let mut state = ShowDesktop::new();
    state.toggle(&windows(&[(1, false)]));
    assert!(state.is_showing_desktop());

    state.retain_existing(&[]);
    assert!(!state.is_showing_desktop());

    assert_eq!(
        state.toggle(&windows(&[(2, false)])),
        vec![Step::Minimize(2)]
    );
}

#[test]
fn retaining_keeps_windows_that_are_still_around() {
    let mut state = ShowDesktop::new();
    state.toggle(&windows(&[(1, false), (2, false)]));

    state.retain_existing(&windows(&[(2, true)]));
    assert!(state.is_showing_desktop());
    assert_eq!(
        state.toggle(&windows(&[(2, true)])),
        vec![Step::Unminimize(2)]
    );
}

#[test]
fn forgetting_leaves_the_windows_where_they_are() {
    let mut state = ShowDesktop::new();
    state.toggle(&windows(&[(1, false)]));

    state.forget();
    assert!(!state.is_showing_desktop());
    assert_eq!(
        state.toggle(&windows(&[(1, true)])),
        vec![],
        "1 is already minimized, so there is nothing on screen to put away"
    );
}
