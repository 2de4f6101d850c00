//! The switcher's decisions: when the overlay is shown, which window is
//! selected, what keys do, and which window is activated when it closes.
//!
//! Each method updates the state and answers with the work that the program
//! around it performs on the display server (create or destroy the overlay
//! surface, draw, activate a window).

use vstd::prelude::*;

use crate::config::{calc_overlay_size, overlay_size, overlay_size_fits, Config};
use crate::toplevel::{
    app_id_set, committed, flags_of, flags_set, native_little_endian, output_entered, output_left,
    parse_states,
    removed, titled, words, ToplevelState,
};

verus! {

/// The keys that the switcher reacts to.
#[derive(Debug, Clone, Copy, PartialEq, Eq, Structural)]
pub enum Key {
    Tab,
    Down,
    Right,
    IsoLeftTab,
    Up,
    Left,
    Escape,
    Return,
    KpEnter,
    AltL,
    AltR,
    Other,
}

/// Keys that move the selection forward.
pub open spec fn is_forward_key(k: Key) -> bool {
    k == Key::Tab || k == Key::Down || k == Key::Right
}

/// Keys that move the selection backward.
pub open spec fn is_backward_key(k: Key) -> bool {
    k == Key::IsoLeftTab || k == Key::Up || k == Key::Left
}

/// Keys that confirm the selection.
pub open spec fn is_confirm_key(k: Key) -> bool {
    k == Key::Return || k == Key::KpEnter
}

/// The Alt keys.
pub open spec fn is_alt_key(k: Key) -> bool {
    k == Key::AltL || k == Key::AltR
}

/// A window to activate: its handle key, and whether it must be unminimized first.
#[derive(Debug, Clone, Copy, PartialEq, Eq)]
pub struct Activation {
    pub handle: u32,
    pub minimized: bool,
}

/// The work that a decision asks of the program.
#[derive(Debug, Clone, Copy, PartialEq, Eq)]
pub enum Action {
    /// Nothing to do.
    Nothing,
    /// Draw the overlay (drawing happens only while `should_draw` holds).
    Draw,
    /// Destroy the overlay surface, after activating the given window if any.
    Close { activate: Option<Activation> },
}

/// What showing the overlay asks of the program: create a layer surface of
/// this size, on the given output (the compositor's choice where `None`).
#[derive(Debug, Clone, Copy, PartialEq, Eq)]
pub struct ShowRequest {
    pub width: u32,
    pub height: u32,
    pub output: Option<u32>,
}

/// An event that the compositor sends about one toplevel handle.
#[derive(Debug, Clone)]
pub enum ToplevelEvent {
    Title(String),
    AppId(String),
    State(Vec<u8>),
    Done,
    Closed,
    OutputEnter(u32),
    OutputLeave(u32),
}

/// The switcher's state: the windows, the configuration and the overlay.
pub struct SwitcherState {
    pub toplevels: ToplevelState,
    pub config: Config,
    pub overlay_visible: bool,
    pub selected_index: usize,
    pub needs_redraw: bool,
    pub configured: bool,
    pub width: u32,
    pub height: u32,
    /// Whether Alt is seen as held.
    pub alt_held: bool,
    /// The serial of the last keyboard event, used for activation.
    pub keyboard_serial: u32,
}

/// Width of the overlay surface before it is first shown.
pub const INITIAL_WIDTH: u32 = 500;

/// Height of the overlay surface before it is first shown.
pub const INITIAL_HEIGHT: u32 = 200;

impl SwitcherState {
    /// Number of windows in the window list.
    pub open spec fn count(&self) -> int {
        self.toplevels.windows().len() as int
    }

    /// The state after the overlay is hidden.
    pub open spec fn hidden(self) -> Self {
        SwitcherState { overlay_visible: false, configured: false, ..self }
    }

    /// What closing the overlay does to the state.
    pub open spec fn after_close(self) -> Self {
        if self.overlay_visible {
            self.hidden()
        } else {
            self
        }
    }

    /// What closing the overlay asks of the program: nothing when it is not
    /// shown; otherwise destroy it, activating the selected window when
    /// `activate` is set and the selection is a window of the list.
    pub open spec fn close_action(self, activate: bool) -> Action {
        if !self.overlay_visible {
            Action::Nothing
        } else if activate && self.selected_index < self.count() {
            let w = self.toplevels.windows()[self.selected_index as int];
            Action::Close { activate: Some(Activation { handle: w.0, minimized: w.1.is_minimized }) }
        } else {
            Action::Close { activate: None }
        }
    }

    /// The selection after one step forward or backward through the window list.
    pub open spec fn stepped(self, forward: bool) -> usize {
        let count = self.count();
        if count == 0 {
            self.selected_index
        } else if forward {
            ((self.selected_index + 1) % count) as usize
        } else {
            ((self.selected_index + count - 1) % count) as usize
        }
    }

    /// The state after moving the selection one step.
    pub open spec fn cycled(self, forward: bool) -> Self {
        if self.count() == 0 {
            self
        } else {
            SwitcherState { selected_index: self.stepped(forward), needs_redraw: true, ..self }
        }
    }

    /// The initial state: no windows, overlay hidden.
    pub fn new(config: Config) -> (r: Self)
        ensures
            r.toplevels.toplevels@.len() == 0,
            r.toplevels.mru_order@.len() == 0,
            r.toplevels.handle_ids@.len() == 0,
            r.toplevels.handle_outputs@.len() == 0,
            r.toplevels.next_id == 0,
            r.config == config,
            !r.overlay_visible,
            r.selected_index == 0,
            !r.needs_redraw,
            !r.configured,
            r.width == INITIAL_WIDTH,
            r.height == INITIAL_HEIGHT,
            !r.alt_held,
            r.keyboard_serial == 0,
    {
        SwitcherState {
            toplevels: ToplevelState::new(),
            config,
            overlay_visible: false,
            selected_index: 0,
            needs_redraw: false,
            configured: false,
            width: INITIAL_WIDTH,
            height: INITIAL_HEIGHT,
            alt_held: false,
            keyboard_serial: 0,
        }
    }

    /// Whether a draw request is carried out: the overlay is shown and configured.
    pub fn should_draw(&self) -> (r: bool)
        ensures
            r == (self.configured && self.overlay_visible),
    {
        self.configured && self.overlay_visible
    }

    /// The overlay was drawn and committed.
    pub fn finish_draw(&mut self)
        ensures
            *final(self) == (SwitcherState { needs_redraw: false, ..*old(self) }),
    {
        self.needs_redraw = false;
    }

    /// Show the overlay, if it is not shown and there are at least two windows
    /// to switch between: the second window is selected, the size is computed
    /// from the configuration, and Alt is taken as held (the compositor starts
    /// the switcher on Alt+Tab). Answers the surface to create.
    pub fn show_overlay(&mut self) -> (r: Option<ShowRequest>)
        requires
            !old(self).overlay_visible && old(self).count() >= 2 ==> overlay_size_fits(
                old(self).count() as usize,
                old(self).config.layout,
            ),
        ensures
            old(self).overlay_visible || old(self).count() < 2 ==> r is None && *final(self) == *old(
                self,
            ),
            !old(self).overlay_visible && old(self).count() >= 2 ==> {
                let size = overlay_size(old(self).count() as usize, old(self).config.layout);
                &&& r == Some(
                    ShowRequest {
                        width: size.0,
                        height: size.1,
                        output: old(self).toplevels.focused_output_spec(),
                    },
                )
                &&& *final(self) == (SwitcherState {
                    selected_index: 1,
                    width: size.0,
                    height: size.1,
                    overlay_visible: true,
                    configured: false,
                    alt_held: true,
                    needs_redraw: true,
                    ..*old(self)
                })
            },
    {
        if self.overlay_visible {
            return None;
        }
        let count = self.toplevels.window_count();
        if count < 2 {
            return None;
        }
        // Start with the second window selected (the one to switch to)
        self.selected_index = 1;
        let (w, h) = calc_overlay_size(count, &self.config);
        self.width = w;
        self.height = h;
        // Determine which output the focused window is on
        let output = self.toplevels.focused_output();
        self.overlay_visible = true;
        self.configured = false;
        self.alt_held = true;
        self.needs_redraw = true;
        Some(ShowRequest { width: w, height: h, output })
    }

    /// Hide the overlay (if shown); with `activate`, the selected window is
    /// to be activated.
    pub fn close_overlay(&mut self, activate: bool) -> (r: Action)
        ensures
            *final(self) == old(self).after_close(),
            r == old(self).close_action(activate),
    {
        if !self.overlay_visible {
            return Action::Nothing;
        }
        let mut target: Option<Activation> = None;
        if activate {
            let windows = self.toplevels.window_list();
            if self.selected_index < windows.len() {
                let (handle, info) = windows[self.selected_index];
                target = Some(Activation { handle, minimized: info.is_minimized });
            }
        }
        self.overlay_visible = false;
        self.configured = false;
        Action::Close { activate: target }
    }

    /// Move the selection one step forward or backward, wrapping around the
    /// window list; nothing happens while the list is empty.
    pub fn cycle_selection(&mut self, forward: bool)
        ensures
            *final(self) == old(self).cycled(forward),
    {
        let count = self.toplevels.window_count();
        if count == 0 {
            return;
        }
        let current = self.selected_index % count;
        if forward {
            self.selected_index = if current + 1 == count { 0 } else { current + 1 };
        } else {
            self.selected_index = if current == 0 { count - 1 } else { current - 1 };
        }
        proof {
            lemma_step_mod(old(self).selected_index as int, count as int);
        }
        self.needs_redraw = true;
    }
}

impl SwitcherState {
    /// What a key press does: the forward and backward keys move the selection
    /// (and ask for a draw where one is due), Escape closes without activating,
    /// Return and keypad Enter close and activate the selection.
    pub open spec fn pressed(self, key: Key) -> (Self, Action) {
        if is_forward_key(key) || is_backward_key(key) {
            let s = self.cycled(is_forward_key(key));
            (s, if s.needs_redraw { Action::Draw } else { Action::Nothing })
        } else if key == Key::Escape {
            (self.after_close(), self.close_action(false))
        } else if is_confirm_key(key) {
            (self.after_close(), self.close_action(true))
        } else {
            (self, Action::Nothing)
        }
    }

    /// A key was pressed.
    pub fn press_key(&mut self, serial: u32, key: Key) -> (r: Action)
        ensures
            (*final(self), r) == (SwitcherState { keyboard_serial: serial, ..*old(self) }).pressed(key),
    {
        self.keyboard_serial = serial;
        self.key_step(key)
    }

    /// A key repeats: only the keys that move the selection act.
    pub fn repeat_key(&mut self, key: Key) -> (r: Action)
        ensures
            is_forward_key(key) || is_backward_key(key) ==> (*final(self), r) == old(self).pressed(
                key,
            ),
            !(is_forward_key(key) || is_backward_key(key)) ==> *final(self) == *old(self) && r
                == Action::Nothing,
    {
        if is_movement(key) {
            self.key_step(key)
        } else {
            Action::Nothing
        }
    }

    fn key_step(&mut self, key: Key) -> (r: Action)
        ensures
            (*final(self), r) == old(self).pressed(key),
    {
        if is_movement(key) {
            self.cycle_selection(is_forward(key));
            if self.needs_redraw {
                Action::Draw
            } else {
                Action::Nothing
            }
        } else if key == Key::Escape {
            self.close_overlay(false)
        } else if key == Key::Return || key == Key::KpEnter {
            self.close_overlay(true)
        } else {
            Action::Nothing
        }
    }

    /// What releasing a key does: releasing Alt lets go of it and closes the
    /// overlay, activating the selection; other keys do nothing.
    pub open spec fn released(self, key: Key) -> (Self, Action) {
        if is_alt_key(key) {
            let s = SwitcherState { alt_held: false, ..self };
            (s.after_close(), s.close_action(true))
        } else {
            (self, Action::Nothing)
        }
    }

    /// A key was released: releasing Alt confirms the selection.
    pub fn release_key(&mut self, serial: u32, key: Key) -> (r: Action)
        ensures
            (*final(self), r) == (SwitcherState { keyboard_serial: serial, ..*old(self) }).released(
                key,
            ),
            is_alt_key(key) ==> {
                let s = SwitcherState { keyboard_serial: serial, alt_held: false, ..*old(self) };
                *final(self) == s.after_close() && r == s.close_action(true)
            },
            !is_alt_key(key) ==> *final(self) == (SwitcherState {
                keyboard_serial: serial,
                ..*old(self)
            }) && r == Action::Nothing,
    {
        self.keyboard_serial = serial;
        // When Alt is released, confirm the selection
        if key == Key::AltL || key == Key::AltR {
            self.alt_held = false;
            self.close_overlay(true)
        } else {
            Action::Nothing
        }
    }

    /// The keyboard modifiers changed: Alt let go while it was held and the
    /// overlay is shown confirms the selection; Alt pressed is remembered.
    pub fn update_modifiers(&mut self, serial: u32, alt: bool) -> (r: Action)
        ensures
            ({
                let s = SwitcherState { keyboard_serial: serial, ..*old(self) };
                if !alt && s.alt_held && s.overlay_visible {
                    let t = SwitcherState { alt_held: false, ..s };
                    *final(self) == t.after_close() && r == t.close_action(true)
                } else {
                    *final(self) == (if alt { SwitcherState { alt_held: true, ..s } } else { s })
                        && r == Action::Nothing
                }
            }),
    {
        self.keyboard_serial = serial;
        let mut action = Action::Nothing;
        // Track alt state via modifiers too
        if !alt && self.alt_held && self.overlay_visible {
            self.alt_held = false;
            action = self.close_overlay(true);
        }
        if alt {
            self.alt_held = true;
        }
        action
    }

    /// The keyboard entered the overlay with `keys` held: Alt is held if one
    /// of them is an Alt key.
    pub fn keyboard_enter(&mut self, serial: u32, keys: &Vec<Key>)
        ensures
            *final(self) == (SwitcherState {
                keyboard_serial: serial,
                alt_held: exists|i: int| 0 <= i < keys@.len() && is_alt_key(#[trigger] keys@[i]),
                ..*old(self)
            }),
    {
        self.keyboard_serial = serial;
        let mut held = false;
        let n = keys.len();
        for i in 0..n
            invariant
                n == keys@.len(),
                held == exists|j: int| 0 <= j < i && is_alt_key(#[trigger] keys@[j]),
        {
            if keys[i] == Key::AltL || keys[i] == Key::AltR {
                held = true;
            }
        }
        self.alt_held = held;
    }

    /// The compositor closed the overlay surface: it is no longer shown.
    pub fn layer_closed(&mut self)
        ensures
            *final(self) == old(self).hidden(),
    {
        self.overlay_visible = false;
        self.configured = false;
    }

    /// The compositor configured the overlay surface; a zero dimension keeps
    /// the current one. Drawing follows.
    pub fn configure(&mut self, new_width: u32, new_height: u32) -> (r: Action)
        ensures
            *final(self) == (SwitcherState {
                width: if new_width > 0 { new_width } else { old(self).width },
                height: if new_height > 0 { new_height } else { old(self).height },
                configured: true,
                ..*old(self)
            }),
            r == Action::Draw,
    {
        if new_width > 0 {
            self.width = new_width;
        }
        if new_height > 0 {
            self.height = new_height;
        }
        self.configured = true;
        Action::Draw
    }

    /// A frame callback: draw if a redraw is due.
    pub fn frame(&self) -> (r: Action)
        ensures
            r == (if self.needs_redraw { Action::Draw } else { Action::Nothing }),
    {
        if self.needs_redraw {
            Action::Draw
        } else {
            Action::Nothing
        }
    }

    /// What the closing of a window does to the overlay: while it is shown,
    /// fewer than two windows close it, otherwise the selection is kept within
    /// the list and a redraw is due.
    pub open spec fn after_window_closed(self) -> (Self, Action) {
        if !self.overlay_visible {
            (self, Action::Nothing)
        } else if self.count() < 2 {
            (self.after_close(), self.close_action(false))
        } else {
            let sel = if self.selected_index >= self.count() {
                (self.count() - 1) as usize
            } else {
                self.selected_index
            };
            (SwitcherState { selected_index: sel, needs_redraw: true, ..self }, Action::Nothing)
        }
    }

    /// An event about toplevel `handle`. Title, app id and state go to the
    /// pending information, `Done` commits it, `Closed` forgets the window
    /// (and adjusts the overlay), output events update its output list.
    pub fn handle_toplevel_event(&mut self, handle: u32, event: ToplevelEvent) -> (r: Action)
        ensures
            final(self).config == old(self).config,
            old(self).toplevels.wf() ==> final(self).toplevels.wf(),
            match event {
                ToplevelEvent::Closed => {
                    &&& removed(old(self).toplevels, final(self).toplevels, handle)
                    &&& (*final(self), r) == (SwitcherState {
                        toplevels: final(self).toplevels,
                        ..*old(self)
                    }).after_window_closed()
                },
                _ => {
                    &&& r == Action::Nothing
                    &&& *final(self) == (SwitcherState {
                        toplevels: final(self).toplevels,
                        ..*old(self)
                    })
                    &&& match event {
                        ToplevelEvent::Title(t) => titled(
                            old(self).toplevels,
                            final(self).toplevels,
                            handle,
                            t,
                        ),
                        ToplevelEvent::AppId(id) => app_id_set(
                            old(self).toplevels,
                            final(self).toplevels,
                            handle,
                            id,
                        ),
                        ToplevelEvent::State(raw) => flags_set(
                            old(self).toplevels,
                            final(self).toplevels,
                            handle,
                            flags_of(words(raw@, native_little_endian())),
                        ),
                        ToplevelEvent::Done => committed(
                            old(self).toplevels,
                            final(self).toplevels,
                            handle,
                        ),
                        ToplevelEvent::OutputEnter(o) => output_entered(
                            old(self).toplevels,
                            final(self).toplevels,
                            handle,
                            o,
                        ),
                        ToplevelEvent::OutputLeave(o) => output_left(
                            old(self).toplevels,
                            final(self).toplevels,
                            handle,
                            o,
                        ),
                        ToplevelEvent::Closed => true,
                    }
                },
            },
    {
        match event {
            ToplevelEvent::Title(title) => {
                self.toplevels.set_title(handle, title);
                Action::Nothing
            },
            ToplevelEvent::AppId(app_id) => {
                self.toplevels.set_app_id(handle, app_id);
                Action::Nothing
            },
            ToplevelEvent::State(raw) => {
                let flags = parse_states(raw.as_slice());
                self.toplevels.set_flags(handle, flags);
                Action::Nothing
            },
            ToplevelEvent::Done => {
                self.toplevels.commit(handle);
                Action::Nothing
            },
            ToplevelEvent::Closed => {
                self.toplevels.remove(handle);
                self.window_closed()
            },
            ToplevelEvent::OutputEnter(output) => {
                self.toplevels.output_enter(handle, output);
                Action::Nothing
            },
            ToplevelEvent::OutputLeave(output) => {
                self.toplevels.output_leave(handle, output);
                Action::Nothing
            },
        }
    }

    fn window_closed(&mut self) -> (r: Action)
        ensures
            (*final(self), r) == old(self).after_window_closed(),
    {
        // If overlay is showing, we may need to adjust selection
        if !self.overlay_visible {
            return Action::Nothing;
        }
        let count = self.toplevels.window_count();
        if count < 2 {
            // Not enough windows to switch, close overlay
            self.close_overlay(false)
        } else {
            if self.selected_index >= count {
                self.selected_index = count - 1;
            }
            self.needs_redraw = true;
            Action::Nothing
        }
    }
}

fn is_movement(key: Key) -> (r: bool)
    ensures
        r == (is_forward_key(key) || is_backward_key(key)),
{
    key == Key::Tab || key == Key::Down || key == Key::Right || key == Key::IsoLeftTab || key
        == Key::Up || key == Key::Left
}

fn is_forward(key: Key) -> (r: bool)
    ensures
        r == is_forward_key(key),
{
    key == Key::Tab || key == Key::Down || key == Key::Right
}

/// Tab, Down and Right move the selection one window forward, and
/// ISO_Left_Tab, Up and Left one window back, wrapping around the window list
/// and asking for a draw: the arrow keys act exactly as Tab and ISO_Left_Tab do.
pub proof fn lemma_selection_keys(s: SwitcherState)
    ensures
        s.pressed(Key::Down) == s.pressed(Key::Tab),
        s.pressed(Key::Right) == s.pressed(Key::Tab),
        s.pressed(Key::Up) == s.pressed(Key::IsoLeftTab),
        s.pressed(Key::Left) == s.pressed(Key::IsoLeftTab),
        s.count() > 0 ==> s.pressed(Key::Tab) == (s.cycled(true), Action::Draw),
        s.count() > 0 ==> s.pressed(Key::IsoLeftTab) == (s.cycled(false), Action::Draw),
        s.count() > 0 ==> s.pressed(Key::Right).0.selected_index == ((s.selected_index + 1)
            % s.count()) as usize,
        s.count() > 0 ==> s.pressed(Key::Left).0.selected_index == ((s.selected_index + s.count()
            - 1) % s.count()) as usize,
{
}

/// Escape closes the overlay without activating a window; Return and keypad
/// Enter close it and activate the selected window, keypad Enter exactly as
/// Return; keys without a meaning change nothing.
pub proof fn lemma_closing_keys(s: SwitcherState)
    ensures
        s.pressed(Key::Escape) == (s.after_close(), s.close_action(false)),
        s.pressed(Key::Return) == (s.after_close(), s.close_action(true)),
        s.pressed(Key::KpEnter) == s.pressed(Key::Return),
        s.overlay_visible && s.selected_index < s.count() ==> {
            let w = s.toplevels.windows()[s.selected_index as int];
            &&& !s.pressed(Key::KpEnter).0.overlay_visible
            &&& s.pressed(Key::KpEnter).1 == Action::Close {
                activate: Some(Activation { handle: w.0, minimized: w.1.is_minimized }),
            }
        },
        s.pressed(Key::Other) == (s, Action::Nothing),
        s.pressed(Key::AltL) == (s, Action::Nothing),
{
}

/// Releasing either Alt key confirms the selection: Alt is no longer held and
/// the overlay closes, activating the selected window; releasing any other key
/// changes nothing.
pub proof fn lemma_alt_release(s: SwitcherState)
    ensures
        s.released(Key::AltR) == s.released(Key::AltL),
        s.released(Key::AltL) == ({
            let t = SwitcherState { alt_held: false, ..s };
            (t.after_close(), t.close_action(true))
        }),
        s.released(Key::Tab) == (s, Action::Nothing),
        s.released(Key::Return) == (s, Action::Nothing),
{
}

/// Moving the selection forward and then backward (or backward and then
/// forward) comes back to the window that was selected.
pub proof fn lemma_cycle_round_trip(s: SwitcherState)
    requires
        0 < s.count() <= usize::MAX,
        s.selected_index < s.count(),
    ensures
        s.cycled(true).cycled(false).selected_index == s.selected_index,
        s.cycled(false).cycled(true).selected_index == s.selected_index,
{
    let c = s.count();
    let sel = s.selected_index as int;
    lemma_step_mod(sel, c);
    vstd::arithmetic::div_mod::lemma_small_mod(sel as nat, c as nat);
    let f = s.cycled(true).selected_index as int;
    let b = s.cycled(false).selected_index as int;
    assert(0 <= f < c && 0 <= b < c);
    lemma_step_mod(f, c);
    lemma_step_mod(b, c);
    vstd::arithmetic::div_mod::lemma_small_mod(f as nat, c as nat);
    vstd::arithmetic::div_mod::lemma_small_mod(b as nat, c as nat);
}

/// Moving the selection always leaves it on a window of the list (when the
/// list is not empty).
pub proof fn lemma_cycle_stays_in_list(s: SwitcherState, forward: bool)
    requires
        0 < s.count() <= usize::MAX,
    ensures
        s.cycled(forward).selected_index < s.count(),
        s.cycled(forward).count() == s.count(),
{
    lemma_step_mod(s.selected_index as int, s.count());
}

/// Stepping through `count` items from `sel` equals stepping from `sel % count`.
pub proof fn lemma_step_mod(sel: int, count: int)
    requires
        0 <= sel,
        0 < count,
    ensures
        (sel + 1) % count == (if sel % count + 1 == count { 0 } else { sel % count + 1 }),
        (sel + count - 1) % count == (if sel % count == 0 { count - 1 } else { sel % count - 1 }),
{
    let m = sel % count;
    let q = sel / count;
    assert(sel == count * q + m && 0 <= m < count) by (nonlinear_arith)
        requires
            0 <= sel,
            0 < count,
            m == sel % count,
            q == sel / count,
    ;
    vstd::arithmetic::div_mod::lemma_mod_multiples_vanish(q, m + 1, count);
    vstd::arithmetic::div_mod::lemma_mod_multiples_vanish(q, m + count - 1, count);
    if m + 1 == count {
        vstd::arithmetic::div_mod::lemma_mod_self_0(count);
    } else {
        vstd::arithmetic::div_mod::lemma_small_mod((m + 1) as nat, count as nat);
    }
    if m == 0 {
        vstd::arithmetic::div_mod::lemma_small_mod((count - 1) as nat, count as nat);
    } else {
        vstd::arithmetic::div_mod::lemma_mod_add_multiples_vanish(m - 1, count);
        vstd::arithmetic::div_mod::lemma_small_mod((m - 1) as nat, count as nat);
    }
}

} // verus!
