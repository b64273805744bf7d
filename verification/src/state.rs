//! Shared TUI state for content area, thinking line, input and overlays, and the
//! key-handling step of the TUI loop: from a state and a key press to the next
//! state and the action the loop must carry out.
use vstd::prelude::*;

use crate::content_render::Theme;
use crate::history::events::HistoryEvent;
use crate::history::state::{spec_apply_event, HistoryState, RecordView};
use crate::history::events::EventView;
use crate::overlay::{spec_themes, theme_index, themes, Overlay, OverlayView, THEME_COUNT};
use crate::text::push_char;

verus! {

/// std's `Instant`, a point in time; opaque here.
#[verifier::external_type_specification]
#[verifier::external_body]
pub struct ExInstant(std::time::Instant);

/// `Instant::now`: the current time. Nothing is promised about the value.
#[verifier::external_body]
fn instant_now() -> std::time::Instant {
    std::time::Instant::now()
}

/// Removes the last character of a `String` (std's `String::pop`).
#[verifier::external_body]
pub(crate) fn pop_char(s: &mut String) -> (c: Option<char>)
    ensures
        old(s)@.len() == 0 ==> c is None && final(s)@ == old(s)@,
        old(s)@.len() > 0 ==> c == Some(old(s)@.last()) && final(s)@ == old(s)@.drop_last(),
{
    s.pop()
}

/// How many rows PageUp and PageDown scroll.
pub const SCROLL_PAGE_SIZE: usize = 10;

/// Shared state of the TUI.
pub struct TuiState {
    pub history: HistoryState,
    pub thinking_message: String,
    pub thinking_visible: bool,
    /// When thinking started; used to animate "Thinking..." dots.
    pub thinking_started_at: Option<std::time::Instant>,
    pub scroll_offset: usize,
    /// When true, view follows the bottom while assistant is streaming; cleared on
    /// scroll up, restored on End or send.
    pub scroll_follows_stream: bool,
    pub input_buffer: String,
    pub overlay: Overlay,
    pub theme: Theme,
    /// Session status line shown in the status pane when idle.
    pub session_status: Option<String>,
}

/// The value a `TuiState` stands for.
pub struct TuiView {
    pub history: Seq<RecordView>,
    pub thinking_message: Seq<char>,
    pub thinking_visible: bool,
    pub thinking_started_at: Option<std::time::Instant>,
    pub scroll_offset: usize,
    pub scroll_follows_stream: bool,
    pub input_buffer: Seq<char>,
    pub overlay: OverlayView,
    pub theme: Theme,
    pub session_status: Option<Seq<char>>,
}

/// The view of an optional string.
pub open spec fn opt_view(s: Option<String>) -> Option<Seq<char>> {
    match s {
        Some(t) => Some(t@),
        None => None,
    }
}

impl View for TuiState {
    type V = TuiView;

    open spec fn view(&self) -> TuiView {
        TuiView {
            history: self.history@,
            thinking_message: self.thinking_message@,
            thinking_visible: self.thinking_visible,
            thinking_started_at: self.thinking_started_at,
            scroll_offset: self.scroll_offset,
            scroll_follows_stream: self.scroll_follows_stream,
            input_buffer: self.input_buffer@,
            overlay: self.overlay@,
            theme: self.theme,
            session_status: opt_view(self.session_status),
        }
    }
}

/// The state the TUI starts in.
pub open spec fn initial_view() -> TuiView {
    TuiView {
        history: Seq::empty(),
        thinking_message: Seq::empty(),
        thinking_visible: false,
        thinking_started_at: None,
        scroll_offset: 0,
        scroll_follows_stream: true,
        input_buffer: Seq::empty(),
        overlay: OverlayView::Hidden,
        theme: Theme::Dark,
        session_status: None,
    }
}

impl Default for TuiState {
    fn default() -> (s: TuiState)
        ensures
            s@ == initial_view(),
    {
        TuiState {
            history: HistoryState::new(),
            thinking_message: String::new(),
            thinking_visible: false,
            thinking_started_at: None,
            scroll_offset: 0,
            scroll_follows_stream: true,
            input_buffer: String::new(),
            overlay: Overlay::Hidden,
            theme: Theme::Dark,
            session_status: None,
        }
    }
}

impl TuiState {
    /// The state the TUI starts in.
    pub fn new() -> (s: TuiState)
        ensures
            s@ == initial_view(),
    {
        TuiState::default()
    }

    /// Shows the thinking line and notes when thinking started.
    pub fn show_thinking(&mut self)
        ensures
            final(self)@ == (TuiView {
                thinking_visible: true,
                thinking_started_at: final(self)@.thinking_started_at,
                ..old(self)@
            }),
            final(self)@.thinking_started_at is Some,
    {
        self.thinking_visible = true;
        self.thinking_started_at = Some(instant_now());
    }

    /// Sets the message of the thinking line.
    pub fn set_thinking_message(&mut self, msg: &str)
        ensures
            final(self)@ == (TuiView { thinking_message: msg@, ..old(self)@ }),
    {
        self.thinking_message = msg.to_string();
    }

    /// Hides the thinking line.
    pub fn hide_thinking(&mut self)
        ensures
            final(self)@ == (TuiView {
                thinking_visible: false,
                thinking_started_at: None,
                ..old(self)@
            }),
    {
        self.thinking_visible = false;
        self.thinking_started_at = None;
    }
}


/// The user's answer to a tool-approval request.
#[derive(Clone, Copy, Debug, PartialEq, Eq, Structural)]
pub enum Permission {
    AllowOnce,
    DenyOnce,
    Cancel,
}

/// A key the TUI reacts to.
#[derive(Clone, Copy, Debug, PartialEq, Eq, Structural)]
pub enum Key {
    Char(char),
    Enter,
    Esc,
    Backspace,
    Up,
    Down,
    PageUp,
    PageDown,
    Home,
    End,
    Other,
}

/// A key press, with whether Control was held.
#[derive(Clone, Copy, Debug, PartialEq, Eq, Structural)]
pub struct KeyPress {
    pub key: Key,
    pub ctrl: bool,
}

/// What the TUI loop must do after a key press.
#[derive(Debug)]
pub enum KeyOutcome {
    /// Nothing beyond the state change.
    Nothing,
    /// Send this answer to the pending tool-approval request.
    Approval(Permission),
    /// Send this message to the session.
    Submit(String),
    /// Make this theme the output theme of the session.
    ThemeApplied(Theme),
    /// Tell the session to stop and leave the loop.
    Quit,
}

/// The value a `KeyOutcome` stands for.
pub enum OutcomeView {
    Nothing,
    Approval(Permission),
    Submit(Seq<char>),
    ThemeApplied(Theme),
    Quit,
}

impl View for KeyOutcome {
    type V = OutcomeView;

    open spec fn view(&self) -> OutcomeView {
        match self {
            KeyOutcome::Nothing => OutcomeView::Nothing,
            KeyOutcome::Approval(p) => OutcomeView::Approval(*p),
            KeyOutcome::Submit(m) => OutcomeView::Submit(m@),
            KeyOutcome::ThemeApplied(t) => OutcomeView::ThemeApplied(*t),
            KeyOutcome::Quit => OutcomeView::Quit,
        }
    }
}

/// `a - b`, or zero.
pub open spec fn sat_sub(a: usize, b: usize) -> usize {
    if a >= b {
        (a - b) as usize
    } else {
        0
    }
}

/// `a + b`, or `usize::MAX`.
pub open spec fn sat_add(a: usize, b: usize) -> usize {
    if a + b <= usize::MAX {
        (a + b) as usize
    } else {
        usize::MAX
    }
}

fn saturating_sub(a: usize, b: usize) -> (r: usize)
    ensures
        r == sat_sub(a, b),
{
    if a >= b {
        a - b
    } else {
        0
    }
}

fn saturating_add(a: usize, b: usize) -> (r: usize)
    ensures
        r == sat_add(a, b),
{
    if a <= usize::MAX - b {
        a + b
    } else {
        usize::MAX
    }
}

/// Whether the state can take a key press: a theme-picker selection can still be
/// moved down by one.
pub open spec fn accepts_keys(s: TuiView) -> bool {
    s.overlay matches OverlayView::ThemePicker { selected } ==> selected < usize::MAX
}

/// The theme at a picker position; the first one when the position is out of range.
pub open spec fn theme_at(selected: usize) -> Theme {
    if selected < spec_themes().len() {
        spec_themes()[selected as int]
    } else {
        spec_themes()[0]
    }
}

/// A key press while an overlay is shown: Esc closes any overlay (cancelling an
/// approval), arrows move the theme selection, Enter applies the selected theme,
/// Y approves and N denies a tool call.
pub open spec fn overlay_key(s: TuiView, key: KeyPress) -> (TuiView, OutcomeView) {
    match key.key {
        Key::Esc => (
            TuiView { overlay: OverlayView::Hidden, ..s },
            if s.overlay is Approval {
                OutcomeView::Approval(Permission::Cancel)
            } else {
                OutcomeView::Nothing
            },
        ),
        Key::Up => match s.overlay {
            OverlayView::ThemePicker { selected } => (
                TuiView { overlay: OverlayView::ThemePicker { selected: sat_sub(selected, 1) }, ..s },
                OutcomeView::Nothing,
            ),
            _ => (s, OutcomeView::Nothing),
        },
        Key::Down => match s.overlay {
            OverlayView::ThemePicker { selected } => (
                TuiView {
                    overlay: OverlayView::ThemePicker {
                        selected: if selected + 1 <= THEME_COUNT - 1 {
                            (selected + 1) as usize
                        } else {
                            (THEME_COUNT - 1) as usize
                        },
                    },
                    ..s
                },
                OutcomeView::Nothing,
            ),
            _ => (s, OutcomeView::Nothing),
        },
        Key::Enter => match s.overlay {
            OverlayView::ThemePicker { selected } => (
                TuiView { theme: theme_at(selected), overlay: OverlayView::Hidden, ..s },
                OutcomeView::ThemeApplied(theme_at(selected)),
            ),
            _ => (s, OutcomeView::Nothing),
        },
        Key::Char(c) => if (c == 'y' || c == 'Y') && s.overlay is Approval {
            (
                TuiView { overlay: OverlayView::Hidden, ..s },
                OutcomeView::Approval(Permission::AllowOnce),
            )
        } else if (c == 'n' || c == 'N') && s.overlay is Approval {
            (
                TuiView { overlay: OverlayView::Hidden, ..s },
                OutcomeView::Approval(Permission::DenyOnce),
            )
        } else {
            (s, OutcomeView::Nothing)
        },
        _ => (s, OutcomeView::Nothing),
    }
}

/// A key press with no overlay shown: Ctrl+C quits, Ctrl+T opens the theme picker at
/// the current theme, Ctrl+S opens the settings, Enter sends a non-empty input as a
/// user message, other characters and Backspace edit the input, and the arrows,
/// PageUp/PageDown, Home and End scroll.
pub open spec fn main_key(s: TuiView, key: KeyPress) -> (TuiView, OutcomeView) {
    match key.key {
        Key::Char(c) => if key.ctrl && c == 'c' {
            (
                if s.overlay is Approval {
                    TuiView { overlay: OverlayView::Hidden, ..s }
                } else {
                    s
                },
                OutcomeView::Quit,
            )
        } else if key.ctrl && c == 't' {
            (
                TuiView { overlay: OverlayView::ThemePicker { selected: theme_index(s.theme) }, ..s },
                OutcomeView::Nothing,
            )
        } else if key.ctrl && c == 's' {
            (TuiView { overlay: OverlayView::Settings, ..s }, OutcomeView::Nothing)
        } else {
            (TuiView { input_buffer: s.input_buffer.push(c), ..s }, OutcomeView::Nothing)
        },
        Key::Enter => if s.input_buffer.len() == 0 {
            (s, OutcomeView::Nothing)
        } else {
            (
                TuiView {
                    input_buffer: Seq::empty(),
                    scroll_follows_stream: true,
                    history: spec_apply_event(
                        s.history,
                        EventView::UserMessage { text: s.input_buffer },
                    ),
                    ..s
                },
                OutcomeView::Submit(s.input_buffer),
            )
        },
        Key::Backspace => (
            TuiView {
                input_buffer: if s.input_buffer.len() > 0 {
                    s.input_buffer.drop_last()
                } else {
                    s.input_buffer
                },
                ..s
            },
            OutcomeView::Nothing,
        ),
        Key::Up => (
            TuiView {
                scroll_offset: sat_sub(s.scroll_offset, 1),
                scroll_follows_stream: false,
                ..s
            },
            OutcomeView::Nothing,
        ),
        Key::Down => (
            TuiView { scroll_offset: sat_add(s.scroll_offset, 1), ..s },
            OutcomeView::Nothing,
        ),
        Key::PageUp => (
            TuiView {
                scroll_offset: sat_sub(s.scroll_offset, SCROLL_PAGE_SIZE),
                scroll_follows_stream: false,
                ..s
            },
            OutcomeView::Nothing,
        ),
        Key::PageDown => (
            TuiView { scroll_offset: sat_add(s.scroll_offset, SCROLL_PAGE_SIZE), ..s },
            OutcomeView::Nothing,
        ),
        Key::Home => (
            TuiView { scroll_offset: 0, scroll_follows_stream: false, ..s },
            OutcomeView::Nothing,
        ),
        Key::End => (
            TuiView { scroll_offset: usize::MAX, scroll_follows_stream: true, ..s },
            OutcomeView::Nothing,
        ),
        _ => (s, OutcomeView::Nothing),
    }
}

/// The next state and the loop's action after a key press.
pub open spec fn spec_handle_key(s: TuiView, key: KeyPress) -> (TuiView, OutcomeView) {
    if s.overlay is Hidden {
        main_key(s, key)
    } else {
        overlay_key(s, key)
    }
}

impl TuiState {
    /// Handles one key press of the TUI loop: updates the state and tells the loop
    /// what to send or whether to stop.
    pub fn handle_key(&mut self, key: KeyPress) -> (out: KeyOutcome)
        requires
            accepts_keys(old(self)@),
        ensures
            (final(self)@, out@) == spec_handle_key(old(self)@, key),
    {
        if self.overlay.is_active() {
            self.handle_overlay_key(key)
        } else {
            self.handle_main_key(key)
        }
    }

    fn handle_overlay_key(&mut self, key: KeyPress) -> (out: KeyOutcome)
        requires
            accepts_keys(old(self)@),
            !(old(self)@.overlay is Hidden),
        ensures
            (final(self)@, out@) == overlay_key(old(self)@, key),
    {
        let is_approval = matches!(self.overlay, Overlay::Approval { .. });
        match key.key {
            Key::Esc => {
                self.overlay = Overlay::Hidden;
                if is_approval {
                    KeyOutcome::Approval(Permission::Cancel)
                } else {
                    KeyOutcome::Nothing
                }
            },
            Key::Up => {
                match self.overlay {
                    Overlay::ThemePicker { selected } => {
                        self.overlay = Overlay::ThemePicker { selected: saturating_sub(selected, 1) };
                    },
                    _ => {},
                }
                KeyOutcome::Nothing
            },
            Key::Down => {
                match self.overlay {
                    Overlay::ThemePicker { selected } => {
                        let next = selected + 1;
                        self.overlay = Overlay::ThemePicker {
                            selected: if next <= THEME_COUNT - 1 {
                                next
                            } else {
                                THEME_COUNT - 1
                            },
                        };
                    },
                    _ => {},
                }
                KeyOutcome::Nothing
            },
            Key::Enter => {
                match self.overlay {
                    Overlay::ThemePicker { selected } => {
                        let all = themes();
                        let theme = if selected < all.len() {
                            all[selected]
                        } else {
                            all[0]
                        };
                        self.theme = theme;
                        self.overlay = Overlay::Hidden;
                        KeyOutcome::ThemeApplied(theme)
                    },
                    _ => KeyOutcome::Nothing,
                }
            },
            Key::Char(c) => {
                if (c == 'y' || c == 'Y') && is_approval {
                    self.overlay = Overlay::Hidden;
                    KeyOutcome::Approval(Permission::AllowOnce)
                } else if (c == 'n' || c == 'N') && is_approval {
                    self.overlay = Overlay::Hidden;
                    KeyOutcome::Approval(Permission::DenyOnce)
                } else {
                    KeyOutcome::Nothing
                }
            },
            _ => KeyOutcome::Nothing,
        }
    }

    fn handle_main_key(&mut self, key: KeyPress) -> (out: KeyOutcome)
        requires
            old(self)@.overlay is Hidden,
        ensures
            (final(self)@, out@) == main_key(old(self)@, key),
    {
        match key.key {
            Key::Char(c) => {
                if key.ctrl && c == 'c' {
                    if matches!(self.overlay, Overlay::Approval { .. }) {
                        self.overlay = Overlay::Hidden;
                    }
                    KeyOutcome::Quit
                } else if key.ctrl && c == 't' {
                    let selected: usize = match self.theme {
                        Theme::Dark => 0,
                        Theme::Light => 1,
                        Theme::Ansi => 2,
                    };
                    self.overlay = Overlay::ThemePicker { selected };
                    KeyOutcome::Nothing
                } else if key.ctrl && c == 's' {
                    self.overlay = Overlay::Settings;
                    KeyOutcome::Nothing
                } else {
                    push_char(&mut self.input_buffer, c);
                    KeyOutcome::Nothing
                }
            },
            Key::Enter => {
                if self.input_buffer.as_str().is_empty() {
                    return KeyOutcome::Nothing;
                }
                let msg = self.input_buffer.clone();
                self.input_buffer = String::new();
                self.scroll_follows_stream = true;
                self.history.apply_event(HistoryEvent::UserMessage { text: msg.clone() });
                KeyOutcome::Submit(msg)
            },
            Key::Backspace => {
                pop_char(&mut self.input_buffer);
                KeyOutcome::Nothing
            },
            Key::Up => {
                self.scroll_offset = saturating_sub(self.scroll_offset, 1);
                self.scroll_follows_stream = false;
                KeyOutcome::Nothing
            },
            Key::Down => {
                self.scroll_offset = saturating_add(self.scroll_offset, 1);
                KeyOutcome::Nothing
            },
            Key::PageUp => {
                self.scroll_offset = saturating_sub(self.scroll_offset, SCROLL_PAGE_SIZE);
                self.scroll_follows_stream = false;
                KeyOutcome::Nothing
            },
            Key::PageDown => {
                self.scroll_offset = saturating_add(self.scroll_offset, SCROLL_PAGE_SIZE);
                KeyOutcome::Nothing
            },
            Key::Home => {
                self.scroll_offset = 0;
                self.scroll_follows_stream = false;
                KeyOutcome::Nothing
            },
            Key::End => {
                self.scroll_offset = usize::MAX;
                self.scroll_follows_stream = true;
                KeyOutcome::Nothing
            },
            _ => KeyOutcome::Nothing,
        }
    }
}


/// The theme picker, when shown, selects one of the offered themes.
pub open spec fn picker_in_range(s: TuiView) -> bool {
    s.overlay matches OverlayView::ThemePicker { selected } ==> selected < THEME_COUNT
}

/// The view follows a streaming reply until the user scrolls up: Up, PageUp and Home
/// stop following, End and sending a message start it again, and the other keys leave
/// it as it was.
pub proof fn lemma_follow_stream_rules(s: TuiView, key: KeyPress)
    requires
        s.overlay is Hidden,
    ensures
        (key.key == Key::Up || key.key == Key::PageUp || key.key == Key::Home)
            ==> !spec_handle_key(s, key).0.scroll_follows_stream,
        key.key == Key::End ==> spec_handle_key(s, key).0.scroll_follows_stream,
        (key.key == Key::Enter && s.input_buffer.len() > 0) ==> spec_handle_key(s, key).0.scroll_follows_stream,
        !(key.key == Key::Up || key.key == Key::PageUp || key.key == Key::Home || key.key == Key::End
            || (key.key == Key::Enter && s.input_buffer.len() > 0))
            ==> spec_handle_key(s, key).0.scroll_follows_stream == s.scroll_follows_stream,
{
}

/// Esc closes whatever overlay is shown.
pub proof fn lemma_esc_closes_overlay(s: TuiView, ctrl: bool)
    requires
        !(s.overlay is Hidden),
    ensures
        spec_handle_key(s, KeyPress { key: Key::Esc, ctrl }).0.overlay is Hidden,
{
}

/// An approval request is answered exactly by Y (allow once), N (deny once) or Esc
/// (cancel), each closing the overlay; any other key leaves it open and answers nothing.
pub proof fn lemma_approval_answers(s: TuiView, key: KeyPress)
    requires
        s.overlay is Approval,
    ensures
        ({
            let (next, out) = spec_handle_key(s, key);
            &&& (key.key == Key::Char('y') || key.key == Key::Char('Y')) ==> out
                == OutcomeView::Approval(Permission::AllowOnce) && next.overlay is Hidden
            &&& (key.key == Key::Char('n') || key.key == Key::Char('N')) ==> out
                == OutcomeView::Approval(Permission::DenyOnce) && next.overlay is Hidden
            &&& key.key == Key::Esc ==> out == OutcomeView::Approval(Permission::Cancel)
                && next.overlay is Hidden
            &&& !(key.key == Key::Char('y') || key.key == Key::Char('Y') || key.key == Key::Char(
                'n',
            ) || key.key == Key::Char('N') || key.key == Key::Esc) ==> out == OutcomeView::Nothing
                && next == s
        }),
{
}

/// The theme picker never selects past the offered themes, so the state keeps
/// accepting keys; Enter applies the selected theme.
pub proof fn lemma_picker_stays_in_range(s: TuiView, key: KeyPress)
    requires
        picker_in_range(s),
    ensures
        picker_in_range(spec_handle_key(s, key).0),
        accepts_keys(spec_handle_key(s, key).0),
        key.key == Key::Enter ==> (s.overlay matches OverlayView::ThemePicker { selected } ==> {
            &&& spec_handle_key(s, key).0.theme == spec_themes()[selected as int]
            &&& spec_handle_key(s, key).1 == OutcomeView::ThemeApplied(spec_themes()[selected as int])
        }),
{
}

/// Enter on a non-empty input sends it, clears the input, follows the stream again and
/// records it as a user message at the end of the history.
pub proof fn lemma_enter_submits_input(s: TuiView, ctrl: bool)
    requires
        s.overlay is Hidden,
        s.input_buffer.len() > 0,
    ensures
        ({
            let (next, out) = spec_handle_key(s, KeyPress { key: Key::Enter, ctrl });
            &&& out == OutcomeView::Submit(s.input_buffer)
            &&& next.input_buffer.len() == 0
            &&& next.scroll_follows_stream
            &&& next.history.last() matches RecordView::UserMessage { text, .. } && text
                == s.input_buffer
        }),
{
}

/// The state and actions after a sequence of key presses.
pub open spec fn spec_handle_keys(s: TuiView, keys: Seq<KeyPress>) -> TuiView
    decreases keys.len(),
{
    if keys.len() == 0 {
        s
    } else {
        spec_handle_key(spec_handle_keys(s, keys.drop_last()), keys.last()).0
    }
}

/// Whether every key press is a character typed without Control.
pub open spec fn all_plain_chars(keys: Seq<KeyPress>) -> bool {
    forall|i: int| 0 <= i < keys.len() ==> (#[trigger] keys[i]).key is Char && !keys[i].ctrl
}

/// The characters that the key presses type.
pub open spec fn typed_chars(keys: Seq<KeyPress>) -> Seq<char>
    decreases keys.len(),
{
    if keys.len() == 0 {
        Seq::empty()
    } else {
        match keys.last().key {
            Key::Char(c) => typed_chars(keys.drop_last()).push(c),
            _ => typed_chars(keys.drop_last()),
        }
    }
}

/// Typing characters with no overlay shown appends exactly them to the input and
/// changes nothing else.
pub proof fn lemma_typing_appends(s: TuiView, keys: Seq<KeyPress>)
    requires
        s.overlay is Hidden,
        all_plain_chars(keys),
    ensures
        spec_handle_keys(s, keys) == (TuiView {
            input_buffer: s.input_buffer + typed_chars(keys),
            ..s
        }),
    decreases keys.len(),
{
    if keys.len() == 0 {
        assert(s.input_buffer + typed_chars(keys) =~= s.input_buffer);
    } else {
        let k = keys.last();
        assert(all_plain_chars(keys.drop_last()));
        lemma_typing_appends(s, keys.drop_last());
        assert(keys[keys.len() - 1] == k);
        match k.key {
            Key::Char(c) => {
                assert((s.input_buffer + typed_chars(keys.drop_last())).push(c) =~= s.input_buffer
                    + typed_chars(keys));
            },
            _ => {},
        }
    }
}

} // verus!
