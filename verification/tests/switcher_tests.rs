use alttab::config::Config;
use alttab::switcher::{Action, Activation, Key, ShowRequest, SwitcherState, ToplevelEvent};

fn with_windows(n: u32) -> SwitcherState {
    let mut s = SwitcherState::new(Config::default());
    for h in 0..n {
        let handle = 100 + h;
        s.toplevels.add_toplevel(handle);
        s.handle_toplevel_event(handle, ToplevelEvent::Title(format!("w{}", h)));
        s.handle_toplevel_event(handle, ToplevelEvent::Done);
    }
    s
}

#[test]
fn overlay_needs_two_windows() {
    let mut s = with_windows(1);
    assert_eq!(s.show_overlay(), None);
    assert!(!s.overlay_visible);
}

#[test]
fn showing_selects_the_second_window() {
    let mut s = with_windows(3);
    s.handle_toplevel_event(100, ToplevelEvent::OutputEnter(4));
    let req = s.show_overlay();
    assert_eq!(req, Some(ShowRequest { width: 500, height: 192, output: Some(4) }));
    assert!(s.overlay_visible && s.alt_held && s.needs_redraw && !s.configured);
    assert_eq!(s.selected_index, 1);
    assert_eq!((s.width, s.height), (500, 192));
    // Showing again does nothing.
    assert_eq!(s.show_overlay(), None);
}

#[test]
fn tab_cycles_and_wraps() {
    let mut s = with_windows(3);
    s.show_overlay();
    assert_eq!(s.press_key(1, Key::Tab), Action::Draw);
    assert_eq!(s.selected_index, 2);
    s.press_key(2, Key::Down);
    assert_eq!(s.selected_index, 0);
    s.press_key(3, Key::IsoLeftTab);
    assert_eq!(s.selected_index, 2);
    s.repeat_key(Key::Up);
    assert_eq!(s.selected_index, 1);
    assert_eq!(s.repeat_key(Key::Escape), Action::Nothing);
    assert!(s.overlay_visible);
    assert_eq!(s.keyboard_serial, 3);
}

#[test]
fn forward_then_back_returns() {
    let mut s = with_windows(4);
    s.show_overlay();
    let start = s.selected_index;
    s.cycle_selection(true);
    s.cycle_selection(false);
    assert_eq!(s.selected_index, start);
}

#[test]
fn cycling_an_empty_list_does_nothing() {
    let mut s = with_windows(0);
    s.selected_index = 5;
    s.cycle_selection(true);
    assert_eq!(s.selected_index, 5);
    assert!(!s.needs_redraw);
}

#[test]
fn selection_beyond_the_list_wraps_into_it() {
    let mut s = with_windows(3);
    s.selected_index = 7;
    s.cycle_selection(true);
    assert_eq!(s.selected_index, 2);
    s.selected_index = 7;
    s.cycle_selection(false);
    assert_eq!(s.selected_index, 0);
}

#[test]
fn return_activates_selected_window() {
    let mut s = with_windows(3);
    s.show_overlay();
    let act = s.press_key(5, Key::Return);
    assert_eq!(act, Action::Close { activate: Some(Activation { handle: 101, minimized: false }) });
    assert!(!s.overlay_visible && !s.configured);
    assert_eq!(s.press_key(6, Key::Return), Action::Nothing);
}

#[test]
fn escape_closes_without_activating() {
    let mut s = with_windows(2);
    s.show_overlay();
    assert_eq!(s.press_key(1, Key::Escape), Action::Close { activate: None });
    assert!(!s.overlay_visible);
}

#[test]
fn releasing_alt_confirms() {
    let mut s = with_windows(2);
    s.handle_toplevel_event(101, ToplevelEvent::State(2u32.to_ne_bytes().to_vec()));
    s.handle_toplevel_event(101, ToplevelEvent::Done);
    s.handle_toplevel_event(101, ToplevelEvent::State(vec![]));
    s.handle_toplevel_event(101, ToplevelEvent::Done);
    s.handle_toplevel_event(100, ToplevelEvent::State(1u32.to_ne_bytes().to_vec()));
    s.handle_toplevel_event(100, ToplevelEvent::Done);
    s.show_overlay();
    assert_eq!(s.release_key(9, Key::Tab), Action::Nothing);
    let act = s.release_key(10, Key::AltL);
    assert_eq!(act, Action::Close { activate: Some(Activation { handle: 100, minimized: true }) });
    assert!(!s.alt_held);
}

#[test]
fn modifiers_track_alt() {
    let mut s = with_windows(2);
    s.show_overlay();
    assert_eq!(s.update_modifiers(1, true), Action::Nothing);
    assert!(s.alt_held);
    let act = s.update_modifiers(2, false);
    assert_eq!(act, Action::Close { activate: Some(Activation { handle: 101, minimized: false }) });
    assert!(!s.alt_held && !s.overlay_visible);
    assert_eq!(s.update_modifiers(3, false), Action::Nothing);
}

#[test]
fn keyboard_enter_sees_held_alt() {
    let mut s = with_windows(0);
    s.keyboard_enter(4, &vec![Key::Other, Key::AltR]);
    assert!(s.alt_held);
    assert_eq!(s.keyboard_serial, 4);
    s.keyboard_enter(5, &vec![Key::Tab]);
    assert!(!s.alt_held);
}

#[test]
fn configure_and_draw() {
    let mut s = with_windows(2);
    s.show_overlay();
    assert!(!s.should_draw());
    assert_eq!(s.configure(0, 300), Action::Draw);
    assert_eq!((s.width, s.height), (500, 300));
    assert!(s.should_draw());
    assert_eq!(s.frame(), Action::Draw);
    s.finish_draw();
    assert_eq!(s.frame(), Action::Nothing);
    s.layer_closed();
    assert!(!s.should_draw() && !s.overlay_visible);
}

#[test]
fn closing_windows_adjusts_the_overlay() {
    let mut s = with_windows(3);
    s.show_overlay();
    s.press_key(1, Key::Tab);
    assert_eq!(s.selected_index, 2);
    s.finish_draw();
    assert_eq!(s.handle_toplevel_event(102, ToplevelEvent::Closed), Action::Nothing);
    assert_eq!(s.selected_index, 1);
    assert!(s.needs_redraw);
    assert_eq!(s.handle_toplevel_event(101, ToplevelEvent::Closed), Action::Close { activate: None });
    assert!(!s.overlay_visible);
    assert_eq!(s.toplevels.window_count(), 1);
}

#[test]
fn app_id_and_title_events() {
    let mut s = with_windows(1);
    s.handle_toplevel_event(100, ToplevelEvent::AppId("firefox".to_string()));
    s.handle_toplevel_event(100, ToplevelEvent::Title("Mozilla".to_string()));
    s.handle_toplevel_event(100, ToplevelEvent::Done);
    let list = s.toplevels.window_list();
    assert_eq!(list[0].1.app_id, "firefox");
    assert_eq!(list[0].1.title, "Mozilla");
}
