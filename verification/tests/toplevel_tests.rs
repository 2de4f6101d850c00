use alttab::toplevel::{parse_states, parse_states_from, ToplevelInfo, ToplevelState};

fn titled(st: &mut ToplevelState, handle: u32, title: &str, activated: bool) {
    st.set_title(handle, title.to_string());
    st.set_app_id(handle, format!("app{}", handle));
    st.set_flags(handle, (false, false, activated, false));
    st.commit(handle);
}

fn list(st: &ToplevelState) -> Vec<(u32, String)> {
    st.window_list().iter().map(|(h, info)| (*h, info.title.clone())).collect()
}

#[test]
fn new_windows_go_to_the_back() {
    let mut st = ToplevelState::new();
    assert_eq!(st.add_toplevel(10), 0);
    assert_eq!(st.add_toplevel(11), 1);
    assert_eq!(st.add_toplevel(12), 2);
    assert_eq!(st.mru_order, vec![0, 1, 2]);
    assert_eq!(st.get_id(11), Some(1));
    assert_eq!(st.get_id(99), None);
    assert_eq!(st.handle_for_id(2), Some(12));
    assert_eq!(st.handle_for_id(7), None);
}

#[test]
fn untitled_windows_are_not_listed() {
    let mut st = ToplevelState::new();
    st.add_toplevel(10);
    st.add_toplevel(11);
    titled(&mut st, 11, "editor", false);
    assert_eq!(list(&st), vec![(11, "editor".to_string())]);
    assert_eq!(st.window_count(), 1);
}

#[test]
fn pending_changes_show_only_after_commit() {
    let mut st = ToplevelState::new();
    st.add_toplevel(10);
    st.set_title(10, "draft".to_string());
    assert_eq!(st.window_count(), 0);
    st.commit(10);
    assert_eq!(list(&st), vec![(10, "draft".to_string())]);
}

#[test]
fn activation_moves_window_to_front() {
    let mut st = ToplevelState::new();
    for h in [10u32, 11, 12] {
        st.add_toplevel(h);
        titled(&mut st, h, &format!("w{}", h), false);
    }
    assert_eq!(st.mru_order, vec![0, 1, 2]);
    titled(&mut st, 12, "w12", true);
    assert_eq!(st.mru_order, vec![2, 0, 1]);
    assert_eq!(list(&st)[0], (12, "w12".to_string()));
    // Still activated: committing again does not move it.
    titled(&mut st, 10, "w10", false);
    titled(&mut st, 12, "w12", true);
    assert_eq!(st.mru_order, vec![2, 0, 1]);
    // Deactivate then activate 10.
    titled(&mut st, 12, "w12", false);
    titled(&mut st, 10, "w10", true);
    assert_eq!(st.mru_order, vec![0, 2, 1]);
}

#[test]
fn touch_moves_to_front_once() {
    let mut st = ToplevelState::new();
    st.mru_order = vec![3, 1, 2, 1];
    st.touch_mru_by_id(1);
    assert_eq!(st.mru_order, vec![1, 3, 2]);
    st.touch_mru_by_id(9);
    assert_eq!(st.mru_order, vec![9, 1, 3, 2]);
}

#[test]
fn removing_forgets_everything_about_a_window() {
    let mut st = ToplevelState::new();
    st.add_toplevel(10);
    st.add_toplevel(11);
    titled(&mut st, 10, "a", false);
    titled(&mut st, 11, "b", false);
    st.output_enter(10, 5);
    st.remove(10);
    assert_eq!(st.mru_order, vec![1]);
    assert_eq!(st.handle_ids, vec![(11, 1)]);
    assert_eq!(st.handle_outputs.len(), 1);
    assert_eq!(st.handle_outputs[0].0, 1);
    assert_eq!(st.toplevels.len(), 1);
    assert_eq!(list(&st), vec![(11, "b".to_string())]);
    st.remove(42);
    assert_eq!(st.toplevels.len(), 1);
}

#[test]
fn outputs_are_tracked_once() {
    let mut st = ToplevelState::new();
    st.add_toplevel(10);
    st.output_enter(10, 7);
    st.output_enter(10, 7);
    st.output_enter(10, 8);
    assert_eq!(st.handle_outputs[0].1, vec![7, 8]);
    assert_eq!(st.focused_output(), Some(7));
    st.output_leave(10, 7);
    assert_eq!(st.focused_output(), Some(8));
    st.output_leave(10, 8);
    assert_eq!(st.focused_output(), None);
    st.output_enter(99, 1);
    assert_eq!(st.handle_outputs[0].1, Vec::<u32>::new());
}

#[test]
fn focused_output_follows_mru_front() {
    let mut st = ToplevelState::new();
    assert_eq!(st.focused_output(), None);
    st.add_toplevel(10);
    st.add_toplevel(11);
    st.output_enter(10, 1);
    st.output_enter(11, 2);
    assert_eq!(st.focused_output(), Some(1));
    st.touch_mru_by_id(1);
    assert_eq!(st.focused_output(), Some(2));
}

#[test]
fn initial_sort_puts_active_window_first() {
    let mut st = ToplevelState::new();
    for h in [10u32, 11, 12] {
        st.add_toplevel(h);
    }
    titled(&mut st, 10, "a", false);
    titled(&mut st, 11, "b", false);
    // 12 already committed as active before the MRU bookkeeping saw it
    st.set_title(12, "c".to_string());
    st.set_flags(12, (false, false, true, false));
    st.toplevels[2].2 = st.toplevels[2].1.duplicate();
    assert_eq!(st.mru_order, vec![0, 1, 2]);
    st.sort_initial_mru();
    assert_eq!(st.mru_order, vec![2, 0, 1]);
}

#[test]
fn default_info_is_blank() {
    let info = ToplevelInfo::default();
    assert!(info.title.is_empty() && info.app_id.is_empty());
    assert!(!info.is_activated && !info.is_minimized && !info.is_fullscreen && !info.is_maximized);
}

fn words(vals: &[u32]) -> Vec<u8> {
    let mut out = Vec::new();
    for v in vals {
        out.extend_from_slice(&v.to_ne_bytes());
    }
    out
}

#[test]
fn states_decode() {
    assert_eq!(parse_states(&words(&[])), (false, false, false, false));
    assert_eq!(parse_states(&words(&[2])), (false, false, true, false));
    assert_eq!(parse_states(&words(&[0, 3])), (true, false, false, true));
    assert_eq!(parse_states(&words(&[1, 1, 9])), (false, true, false, false));
    let mut raw = words(&[2]);
    raw.push(0);
    raw.push(0);
    assert_eq!(parse_states(&raw), (false, false, true, false));
}

#[test]
fn states_decode_in_either_byte_order() {
    // Little-endian (probe 1): [2, 0, 0, 0] is the value 2, "activated".
    assert_eq!(parse_states_from(&[2, 0, 0, 0], 1), (false, false, true, false));
    // Big-endian (any other probe): the same bytes make 0x0200_0000, ignored.
    assert_eq!(parse_states_from(&[2, 0, 0, 0], 0x0100_0000), (false, false, false, false));
    assert_eq!(parse_states_from(&[0, 0, 0, 2, 0, 0, 0, 3], 0x0100_0000), (false, false, true, true));
    assert_eq!(parse_states_from(&[0, 0, 0, 0, 1, 0, 0, 0, 9], 1), (true, true, false, false));
    // The probe that the machine itself gives agrees with `parse_states`.
    let probe = u32::from_ne_bytes([1, 0, 0, 0]);
    let raw = words(&[1, 3]);
    assert_eq!(parse_states_from(&raw, probe), parse_states(&raw));
}
