//! Typing recognised text into the window that has the focus.
use vstd::prelude::*;

verus! {

/// How far typing has come.
#[derive(Clone, Copy, Debug, PartialEq, Eq, Structural)]
pub enum TypingEvent {
    /// There is text to type.
    Asked,
    /// The keyboard was opened, or could not be.
    Opened { ok: bool },
    /// The text was typed, or could not be.
    Typed { ok: bool },
}

/// What typing asks for.
#[derive(Debug, PartialEq, Eq)]
pub enum TypingRequest {
    /// There is nothing to do.
    Nothing,
    OpenKeyboard,
    /// Type all of `text`.
    TypeText { text: String },
    /// Say that `text` was typed.
    ReportTyped { text: String },
    ReportNotTyped,
    ReportNotOpened,
}

/// What typing asks for, as contracts speak of it.
#[verifier::ext_equal]
pub enum TypingRequestView {
    Nothing,
    OpenKeyboard,
    TypeText { text: Seq<char> },
    ReportTyped { text: Seq<char> },
    ReportNotTyped,
    ReportNotOpened,
}

impl View for TypingRequest {
    type V = TypingRequestView;

    open spec fn view(&self) -> TypingRequestView {
        match self {
            TypingRequest::Nothing => TypingRequestView::Nothing,
            TypingRequest::OpenKeyboard => TypingRequestView::OpenKeyboard,
            TypingRequest::TypeText { text } => TypingRequestView::TypeText { text: text@ },
            TypingRequest::ReportTyped { text } => TypingRequestView::ReportTyped { text: text@ },
            TypingRequest::ReportNotTyped => TypingRequestView::ReportNotTyped,
            TypingRequest::ReportNotOpened => TypingRequestView::ReportNotOpened,
        }
    }
}

/// What to do next about typing `text`.  For empty text no keyboard is opened.
pub fn send_text_to_window(text: &str, event: TypingEvent) -> (request: TypingRequest)
    ensures
        request@ == (if text@.len() == 0 {
            TypingRequestView::Nothing
        } else {
            match event {
                TypingEvent::Asked => TypingRequestView::OpenKeyboard,
                TypingEvent::Opened { ok: true } => TypingRequestView::TypeText { text: text@ },
                TypingEvent::Opened { ok: false } => TypingRequestView::ReportNotOpened,
                TypingEvent::Typed { ok: true } => TypingRequestView::ReportTyped { text: text@ },
                TypingEvent::Typed { ok: false } => TypingRequestView::ReportNotTyped,
            }
        }),
{
    if text.is_empty() {
        return TypingRequest::Nothing;
    }
    match event {
        TypingEvent::Asked => TypingRequest::OpenKeyboard,
        TypingEvent::Opened { ok: true } => TypingRequest::TypeText { text: text.to_string() },
        TypingEvent::Opened { ok: false } => TypingRequest::ReportNotOpened,
        TypingEvent::Typed { ok: true } => TypingRequest::ReportTyped { text: text.to_string() },
        TypingEvent::Typed { ok: false } => TypingRequest::ReportNotTyped,
    }
}

} // verus!
