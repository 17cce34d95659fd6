//! The actions that a resolved command stands for.

use vstd::prelude::*;

verus! {

/// How the name of a signal is shown.
#[derive(Clone, Copy, Debug, PartialEq, Eq, Structural)]
pub enum SignalNameType {
    /// The signal's own name.
    Local,
    /// The shortest path that tells the signal apart from the others.
    Unique,
    /// The full path of the signal.
    Global,
}

/// A scope of the loaded waveform.
#[derive(Clone, Debug, PartialEq, Eq)]
pub enum ScopeDescriptor {
    /// The scope with this index.
    Id(usize),
    /// The scope with this name.
    Name(String),
}

/// A signal of the loaded waveform.
#[derive(Clone, Debug, PartialEq, Eq)]
pub enum SignalDescriptor {
    /// The signal with this index.
    Id(usize),
    /// The signal with this name.
    Name(String),
}

/// The factor by which a zoom scales the visible span of time.
#[derive(Clone, Copy, Debug, PartialEq, Eq, Structural)]
pub enum ZoomFactor {
    /// Half the span: zoom in.
    Half,
    /// Twice the span: zoom out.
    Double,
}

/// An action for the application to carry out.
#[derive(Clone, Debug, PartialEq, Eq)]
pub enum Message {
    /// Load the waveform file at this path.
    LoadVcd(String),
    /// Load the waveform file at this address.
    LoadVcdFromUrl(String),
    /// Read the configuration again.
    ReloadConfig,
    /// Show the start of the waveform.
    ScrollToStart,
    /// Show the end of the waveform.
    ScrollToEnd,
    /// Scale the visible span of time about the centre of the view.
    CanvasZoom { delta: ZoomFactor },
    /// Show the whole waveform.
    ZoomToFit,
    /// Show or hide the menu.
    ToggleMenu,
    /// Enter or leave full screen.
    ToggleFullscreen,
    /// Display the signals of this scope.
    AddScope(ScopeDescriptor),
    /// Make this scope the active one.
    SetActiveScope(ScopeDescriptor),
    /// Display this signal.
    AddSignal(SignalDescriptor),
    /// Give this colour to the displayed signal at the given place, or to
    /// the focused one.
    SignalColorChange(Option<usize>, String),
    /// Give this name type to the displayed signal at the given place, or
    /// to the focused one.
    ChangeSignalNameType(Option<usize>, SignalNameType),
    /// Give this name type to every signal.
    ForceSignalNameTypes(SignalNameType),
    /// Focus the displayed signal at this place.
    FocusSignal(usize),
    /// Focus no signal.
    UnfocusSignal,
    /// Show this expansion and these suggestions in the command prompt.
    CommandPromptUpdate { expanded: String, suggestions: Vec<String> },
}

/// The value of a [`ScopeDescriptor`].
pub enum ScopeDescriptorView {
    Id(usize),
    Name(Seq<char>),
}

/// The value of a [`SignalDescriptor`].
pub enum SignalDescriptorView {
    Id(usize),
    Name(Seq<char>),
}

/// The value of a [`Message`].
pub enum MessageView {
    LoadVcd(Seq<char>),
    LoadVcdFromUrl(Seq<char>),
    ReloadConfig,
    ScrollToStart,
    ScrollToEnd,
    CanvasZoom { delta: ZoomFactor },
    ZoomToFit,
    ToggleMenu,
    ToggleFullscreen,
    AddScope(ScopeDescriptorView),
    SetActiveScope(ScopeDescriptorView),
    AddSignal(SignalDescriptorView),
    SignalColorChange(Option<usize>, Seq<char>),
    ChangeSignalNameType(Option<usize>, SignalNameType),
    ForceSignalNameTypes(SignalNameType),
    FocusSignal(usize),
    UnfocusSignal,
    CommandPromptUpdate { expanded: Seq<char>, suggestions: Seq<Seq<char>> },
}

impl View for ScopeDescriptor {
    type V = ScopeDescriptorView;

    open spec fn view(&self) -> ScopeDescriptorView {
        match self {
            ScopeDescriptor::Id(idx) => ScopeDescriptorView::Id(*idx),
            ScopeDescriptor::Name(name) => ScopeDescriptorView::Name(name@),
        }
    }
}

impl View for SignalDescriptor {
    type V = SignalDescriptorView;

    open spec fn view(&self) -> SignalDescriptorView {
        match self {
            SignalDescriptor::Id(idx) => SignalDescriptorView::Id(*idx),
            SignalDescriptor::Name(name) => SignalDescriptorView::Name(name@),
        }
    }
}

impl View for Message {
    type V = MessageView;

    open spec fn view(&self) -> MessageView {
        match self {
            Message::LoadVcd(path) => MessageView::LoadVcd(path@),
            Message::LoadVcdFromUrl(url) => MessageView::LoadVcdFromUrl(url@),
            Message::ReloadConfig => MessageView::ReloadConfig,
            Message::ScrollToStart => MessageView::ScrollToStart,
            Message::ScrollToEnd => MessageView::ScrollToEnd,
            Message::CanvasZoom { delta } => MessageView::CanvasZoom { delta: *delta },
            Message::ZoomToFit => MessageView::ZoomToFit,
            Message::ToggleMenu => MessageView::ToggleMenu,
            Message::ToggleFullscreen => MessageView::ToggleFullscreen,
            Message::AddScope(scope) => MessageView::AddScope(scope@),
            Message::SetActiveScope(scope) => MessageView::SetActiveScope(scope@),
            Message::AddSignal(signal) => MessageView::AddSignal(signal@),
            Message::SignalColorChange(place, color) => MessageView::SignalColorChange(
                *place,
                color@,
            ),
            Message::ChangeSignalNameType(place, name_type) => MessageView::ChangeSignalNameType(
                *place,
                *name_type,
            ),
            Message::ForceSignalNameTypes(name_type) => MessageView::ForceSignalNameTypes(
                *name_type,
            ),
            Message::FocusSignal(idx) => MessageView::FocusSignal(*idx),
            Message::UnfocusSignal => MessageView::UnfocusSignal,
            Message::CommandPromptUpdate { expanded, suggestions } => {
                MessageView::CommandPromptUpdate {
                    expanded: expanded@,
                    suggestions: suggestions.deep_view(),
                }
            },
        }
    }
}

} // verus!
