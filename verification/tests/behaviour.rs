use cosmic_applet_show_desktop::compositor::{manager_actions, on_active_workspace, ManagerAction};
use cosmic_applet_show_desktop::show_desktop::{ShowDesktop, Step, Window};
use cosmic_applet_show_desktop::state_file::{change_for, encode, parse, StateFileChange};
use cosmic_applet_show_desktop::toggle::{aim_steps, Aimed};

fn windows(list: &[(u64, bool)]) -> Vec<Window<u64>> {
    list.iter()
        .map(|&(id, minimized)| Window { id, minimized })
        .collect()
}

fn strings(list: &[&str]) -> Vec<String> {
    list.iter().map(|s| s.to_string()).collect()
}

#[test]
fn a_new_state_remembers_nothing() {
    let state = ShowDesktop::<u64>::new();
    assert!(state.hidden().is_empty());
    assert!(!state.is_showing_desktop());
    let state: ShowDesktop<u64> = Default::default();
    assert!(state.hidden().is_empty());
}

#[test]
fn a_resumed_state_restores_what_the_other_process_put_away() {
    let mut state = ShowDesktop::from_hidden(vec![7u64, 3]);
    assert_eq!(state.hidden(), &[7, 3]);
    assert!(state.is_showing_desktop());
    let now = windows(&[(3, true), (5, true), (7, true)]);
    assert_eq!(
        state.toggle(&now),
        vec![Step::Unminimize(7), Step::Unminimize(3)]
    );
    assert!(state.hidden().is_empty());
}

#[test]
fn the_put_away_set_keeps_the_order_of_the_window_list() {
    let mut state = ShowDesktop::new();
    let open = windows(&[(9, false), (4, true), (6, false), (1, false)]);
    assert_eq!(
        state.toggle(&open),
        vec![Step::Minimize(9), Step::Minimize(6), Step::Minimize(1)]
    );
    assert_eq!(state.hidden(), &[9, 6, 1]);
}

#[test]
fn the_second_press_brings_back_the_first_whatever_was_minimized_before() {
    let mut state = ShowDesktop::new();
    let open = windows(&[(1, false), (2, true), (3, false)]);
    let first = state.toggle(&open);
    assert_eq!(first, vec![Step::Minimize(1), Step::Minimize(3)]);
    let after = windows(&[(1, true), (2, true), (3, true)]);
    let second = state.toggle(&after);
    assert_eq!(second, vec![Step::Unminimize(1), Step::Unminimize(3)]);
    assert!(!state.is_showing_desktop());
}

#[test]
fn after_a_restore_the_next_press_puts_away_again() {
    let mut state = ShowDesktop::new();
    state.toggle(&windows(&[(1, false)]));
    state.toggle(&windows(&[(1, true)]));
    assert_eq!(state.toggle(&windows(&[(1, false)])), vec![Step::Minimize(1)]);
}

#[test]
fn retaining_drops_only_the_closed_windows() {
    let mut state = ShowDesktop::from_hidden(vec![1u64, 2, 3]);
    state.retain_existing(&windows(&[(3, false), (1, true), (8, false)]));
    assert_eq!(state.hidden(), &[1, 3]);
    state.retain_existing(&windows(&[(8, true)]));
    assert!(!state.is_showing_desktop());
}

#[test]
fn string_identifiers_work_the_same() {
    let mut state = ShowDesktop::new();
    let open = vec![
        Window { id: "a".to_string(), minimized: false },
        Window { id: "b".to_string(), minimized: true },
    ];
    assert_eq!(state.toggle(&open), vec![Step::Minimize("a".to_string())]);
}

#[test]
fn an_empty_set_is_written_as_one_newline() {
    assert_eq!(encode(&[]), "\n");
    assert!(parse(&encode(&[])).is_empty());
}

#[test]
fn each_identifier_ends_with_a_newline() {
    assert_eq!(encode(&strings(&["x"])), "x\n");
    assert_eq!(encode(&strings(&["x", "yz", "w"])), "x\nyz\nw\n");
}

#[test]
fn lines_without_a_final_newline_and_windows_line_ends_are_read() {
    assert_eq!(parse("a\r\nb"), strings(&["a", "b"]));
    assert_eq!(parse("\t one two \r\n"), strings(&["one two"]));
}

#[test]
fn unicode_whitespace_is_trimmed_like_str_trim() {
    let text = "\u{3000}x\u{a0}\n\u{2028}\n\u{85}y z\u{200a}";
    assert_eq!(parse(text), strings(&["x", "y z"]));
    let expected: Vec<String> = text
        .lines()
        .map(str::trim)
        .filter(|line| !line.is_empty())
        .map(str::to_string)
        .collect();
    assert_eq!(parse(text), expected);
}

#[test]
fn reading_what_was_read_and_written_gives_the_same_set() {
    let first = parse("  a \n\n b\n c  d \n");
    assert_eq!(first, strings(&["a", "b", "c  d"]));
    assert_eq!(parse(&encode(&first)), first);
}

#[test]
fn saving_an_empty_set_removes_the_file() {
    assert_eq!(change_for(&[]), StateFileChange::Remove);
    assert_eq!(
        change_for(&strings(&["t-1", "t-2"])),
        StateFileChange::Write("t-1\nt-2\n".to_string())
    );
}

#[test]
fn steps_are_aimed_at_the_first_entry_with_their_identifier() {
    let steps = vec![
        Step::Unminimize("b".to_string()),
        Step::Minimize("gone".to_string()),
        Step::Minimize("a".to_string()),
    ];
    let identifiers = strings(&["a", "b", "b"]);
    assert_eq!(
        aim_steps(&steps, &identifiers),
        vec![
            Aimed { index: 1, minimize: false },
            Aimed { index: 0, minimize: true },
        ]
    );
    assert_eq!(aim_steps(&steps, &[]), vec![]);
}

#[test]
fn only_windows_on_an_active_workspace_are_in_scope() {
    assert!(on_active_workspace(&[4], &[2, 4]));
    assert!(!on_active_workspace(&[4], &[2, 3]));
    assert!(!on_active_workspace(&[4], &[]));
}

#[test]
fn with_no_active_workspace_every_window_is_in_scope() {
    assert!(on_active_workspace(&[], &[]));
    assert!(on_active_workspace(&[], &[9]));
}

#[test]
fn a_restored_window_is_also_brought_to_the_front() {
    assert_eq!(
        manager_actions(&Step::Minimize(()), true, true),
        vec![ManagerAction::SetMinimized]
    );
    assert_eq!(
        manager_actions(&Step::Unminimize(()), true, true),
        vec![ManagerAction::UnsetMinimized, ManagerAction::Activate]
    );
}

#[test]
fn without_a_seat_or_a_known_window_nothing_is_asked() {
    assert_eq!(manager_actions(&Step::Unminimize(()), false, true), vec![]);
    assert_eq!(manager_actions(&Step::Minimize(()), true, false), vec![]);
}

use cosmic_applet_show_desktop::compositor::list_changed;
use cosmic_applet_show_desktop::panel::Panel;
use cosmic_applet_show_desktop::toggle::{list_wait, Heard, ListWait};

#[test]
fn the_panel_presses_against_the_latest_window_list() {
    let mut panel = Panel::new();
    let mut saved: Vec<u64> = Vec::new();
    assert_eq!(panel.press(saved.clone()), vec![]);
    saved = panel.remembered().to_vec();
    panel.windows_changed(windows(&[(1, false), (2, true)]), saved.clone());
    saved = panel.remembered().to_vec();
    assert_eq!(panel.windows(), &windows(&[(1, false), (2, true)])[..]);
    assert_eq!(panel.press(saved.clone()), vec![Step::Minimize(1)]);
    saved = panel.remembered().to_vec();
    assert_eq!(saved, vec![1]);
    assert!(panel.is_showing_desktop());
    panel.windows_changed(windows(&[(1, true), (2, true), (3, false)]), saved.clone());
    saved = panel.remembered().to_vec();
    assert!(panel.is_showing_desktop());
    assert_eq!(panel.press(saved), vec![Step::Unminimize(1)]);
    assert!(!panel.is_showing_desktop());
    assert!(panel.remembered().is_empty());
}

#[test]
fn the_panel_stops_showing_when_the_last_hidden_window_closes() {
    let mut panel = Panel::new();
    panel.windows_changed(windows(&[(1, false)]), vec![]);
    panel.press(vec![]);
    let saved = panel.remembered().to_vec();
    panel.windows_changed(windows(&[(5, false)]), saved);
    assert!(!panel.is_showing_desktop());
    let saved = panel.remembered().to_vec();
    assert_eq!(panel.press(saved), vec![Step::Minimize(5)]);
}

#[test]
fn losing_the_connection_forgets_without_touching_windows() {
    let mut panel: Panel<u64> = Default::default();
    panel.windows_changed(windows(&[(1, false)]), vec![]);
    panel.press(vec![]);
    panel.connection_lost();
    assert!(!panel.is_showing_desktop());
    assert!(panel.windows().is_empty());
    assert_eq!(panel.press(vec![]), vec![]);
}

fn named(list: &[(&str, bool)]) -> Vec<Window<String>> {
    list.iter()
        .map(|&(id, minimized)| Window { id: id.to_string(), minimized })
        .collect()
}

#[test]
fn the_button_brings_back_what_a_gesture_put_away() {
    // A `--toggle` run puts window a away and writes the file.
    let mut gesture = ShowDesktop::from_hidden(parse(""));
    let open = named(&[("a", false), ("b", true)]);
    assert_eq!(gesture.toggle(&open), vec![Step::Minimize("a".to_string())]);
    let file = match change_for(gesture.hidden()) {
        StateFileChange::Write(contents) => contents,
        StateFileChange::Remove => String::new(),
    };
    assert_eq!(file, "a\n");

    // The button, which remembers nothing itself, reads the file and brings
    // it back rather than minimizing the window that appeared meanwhile.
    let mut panel = Panel::new();
    panel.windows_changed(named(&[("a", true), ("b", true), ("c", false)]), parse(&file));
    assert!(panel.is_showing_desktop());
    assert_eq!(panel.press(parse(&file)), vec![Step::Unminimize("a".to_string())]);
    assert_eq!(change_for(panel.remembered()), StateFileChange::Remove);
}

#[test]
fn a_gesture_brings_back_what_the_button_put_away() {
    let mut panel = Panel::new();
    panel.windows_changed(named(&[("x", false), ("y", false)]), vec![]);
    panel.press(vec![]);
    let file = encode(panel.remembered());
    let mut gesture = ShowDesktop::from_hidden(parse(&file));
    assert_eq!(
        gesture.toggle(&named(&[("x", true), ("y", true)])),
        vec![Step::Unminimize("x".to_string()), Step::Unminimize("y".to_string())]
    );
}

#[test]
fn only_a_changed_window_list_is_sent_again() {
    let before = windows(&[(1, false), (2, true)]);
    assert!(!list_changed(&before, &windows(&[(1, false), (2, true)])));
    assert!(list_changed(&before, &windows(&[(1, false), (2, false)])));
    assert!(list_changed(&before, &windows(&[(1, false)])));
    assert!(list_changed(&before, &windows(&[(2, true), (1, false)])));
    assert!(!list_changed::<u64>(&[], &[]));
}

#[test]
fn the_toggle_run_acts_on_the_first_window_list_in_time() {
    assert_eq!(list_wait(false, Heard::Started), ListWait::KeepWaiting);
    assert_eq!(list_wait(false, Heard::WindowList), ListWait::Act);
    assert_eq!(list_wait(false, Heard::Closed), ListWait::ConnectionClosed);
    assert_eq!(list_wait(true, Heard::WindowList), ListWait::TimedOut);
}

#[test]
fn dropping_closed_windows_first_changes_no_restore() {
    let now = windows(&[(2, true), (3, false)]);
    let mut direct = ShowDesktop::from_hidden(vec![1u64, 2, 3]);
    let mut pruned = ShowDesktop::from_hidden(vec![1u64, 2, 3]);
    pruned.retain_existing(&now);
    pruned.retain_existing(&now);
    assert_eq!(pruned.hidden(), &[2, 3]);
    assert_eq!(direct.toggle(&now), pruned.toggle(&now));
}
