//! Bottom-pane overlays: settings, theme picker, approval.
use vstd::prelude::*;

use crate::content_render::Theme;

verus! {

/// The overlay shown over the bottom of the screen, if any.
#[derive(Clone, Debug)]
pub enum Overlay {
    Hidden,
    ThemePicker { selected: usize },
    Settings,
    Approval { id: String, tool_name: String, message: String },
    FilePicker,
}

/// The value an `Overlay` stands for.
pub enum OverlayView {
    Hidden,
    ThemePicker { selected: usize },
    Settings,
    Approval { id: Seq<char>, tool_name: Seq<char>, message: Seq<char> },
    FilePicker,
}

impl View for Overlay {
    type V = OverlayView;

    open spec fn view(&self) -> OverlayView {
        match self {
            Overlay::Hidden => OverlayView::Hidden,
            Overlay::ThemePicker { selected } => OverlayView::ThemePicker { selected: *selected },
            Overlay::Settings => OverlayView::Settings,
            Overlay::Approval { id, tool_name, message } => OverlayView::Approval {
                id: id@,
                tool_name: tool_name@,
                message: message@,
            },
            Overlay::FilePicker => OverlayView::FilePicker,
        }
    }
}

impl Default for Overlay {
    fn default() -> (o: Overlay)
        ensures
            o is Hidden,
    {
        Overlay::Hidden
    }
}

impl Overlay {
    /// Whether an overlay is shown.
    pub fn is_active(&self) -> (b: bool)
        ensures
            b == !(self is Hidden),
    {
        !matches!(self, Overlay::Hidden)
    }
}

/// The themes the picker offers, in order.
pub open spec fn spec_themes() -> Seq<Theme> {
    seq![Theme::Dark, Theme::Light, Theme::Ansi]
}

/// The number of themes the picker offers.
pub const THEME_COUNT: usize = 3;

/// The themes the picker offers, in order.
pub fn themes() -> (v: Vec<Theme>)
    ensures
        v@ == spec_themes(),
{
    let mut v = Vec::new();
    v.push(Theme::Dark);
    v.push(Theme::Light);
    v.push(Theme::Ansi);
    assert(v@ =~= spec_themes());
    v
}

/// The position of a theme in the picker.
pub open spec fn theme_index(theme: Theme) -> usize {
    match theme {
        Theme::Dark => 0,
        Theme::Light => 1,
        Theme::Ansi => 2,
    }
}

/// The label of a theme.
pub open spec fn spec_theme_label(theme: Theme) -> Seq<char> {
    match theme {
        Theme::Dark => "Dark"@,
        Theme::Light => "Light"@,
        Theme::Ansi => "Ansi"@,
    }
}

/// The label shown for a theme.
pub fn theme_label(theme: Theme) -> (label: &'static str)
    ensures
        label@ == spec_theme_label(theme),
{
    match theme {
        Theme::Dark => "Dark",
        Theme::Light => "Light",
        Theme::Ansi => "Ansi",
    }
}

} // verus!
