//! Why a deskling description is rejected, and how error messages are
//! rendered.
use vstd::prelude::*;

use crate::text::{debug_quoted, quote};

verus! {

#[derive(Debug)]
pub enum CompileError {
    UnknownMode { anim: String, mode: String },
    EventVerbInvalid { anim: String },
    EventFieldWrongVerb { anim: String, field: &'static str },
    BadCondition { anim: String, msg: String },
    NoIdleEvent,
    ModeUncovered { mode: &'static str },
}

/// The value of a [`CompileError`].
pub enum CompileErrorView {
    UnknownMode { anim: Seq<char>, mode: Seq<char> },
    EventVerbInvalid { anim: Seq<char> },
    EventFieldWrongVerb { anim: Seq<char>, field: Seq<char> },
    BadCondition { anim: Seq<char>, msg: Seq<char> },
    NoIdleEvent,
    ModeUncovered { mode: Seq<char> },
}

impl View for CompileError {
    type V = CompileErrorView;

    open spec fn view(&self) -> CompileErrorView {
        match self {
            CompileError::UnknownMode { anim, mode } => CompileErrorView::UnknownMode {
                anim: anim@,
                mode: mode@,
            },
            CompileError::EventVerbInvalid { anim } => CompileErrorView::EventVerbInvalid {
                anim: anim@,
            },
            CompileError::EventFieldWrongVerb { anim, field } =>
                CompileErrorView::EventFieldWrongVerb { anim: anim@, field: field@ },
            CompileError::BadCondition { anim, msg } => CompileErrorView::BadCondition {
                anim: anim@,
                msg: msg@,
            },
            CompileError::NoIdleEvent => CompileErrorView::NoIdleEvent,
            CompileError::ModeUncovered { mode } => CompileErrorView::ModeUncovered {
                mode: mode@,
            },
        }
    }
}

/// The message of each error.
pub open spec fn compile_error_text(e: CompileErrorView) -> Seq<char> {
    match e {
        CompileErrorView::UnknownMode { anim, mode } => "animation "@ + debug_quoted(anim)
            + ": unknown mode "@ + debug_quoted(mode)
            + " (expected idle/falling/bounced/dragging)"@,
        CompileErrorView::EventVerbInvalid { anim } => "animation "@ + debug_quoted(anim)
            + ": event must set exactly one of `on` or `while` (got neither or both)"@,
        CompileErrorView::EventFieldWrongVerb { anim, field } => "animation "@ + debug_quoted(anim)
            + ": `"@ + field + "` is only valid on `on` events"@,
        CompileErrorView::BadCondition { anim, msg } => "animation "@ + debug_quoted(anim)
            + ": condition parse error: "@ + msg,
        CompileErrorView::NoIdleEvent =>
            "no animation subscribes to `on = \"idle\"`; the deskling needs at least one idle animation"@,
        CompileErrorView::ModeUncovered { mode } => "no animation has a matching `while = \""@
            + mode
            + "\"` event at speed 0; the deskling cannot resolve an animation for this mode"@,
    }
}

impl CompileError {
    /// The error's message.
    pub fn message(&self) -> (m: String)
        ensures
            m@ == compile_error_text(self@),
    {
        proof {
            reveal_strlit("animation ");
            reveal_strlit(": unknown mode ");
            reveal_strlit(" (expected idle/falling/bounced/dragging)");
            reveal_strlit(": event must set exactly one of `on` or `while` (got neither or both)");
            reveal_strlit(": `");
            reveal_strlit("` is only valid on `on` events");
            reveal_strlit(": condition parse error: ");
            reveal_strlit(
                "no animation subscribes to `on = \"idle\"`; the deskling needs at least one idle animation",
            );
            reveal_strlit("no animation has a matching `while = \"");
            reveal_strlit(
                "\"` event at speed 0; the deskling cannot resolve an animation for this mode",
            );
        }
        match self {
            CompileError::UnknownMode { anim, mode } => {
                let mut m = "animation ".to_owned();
                m.append(quote(anim.as_str()).as_str());
                m.append(": unknown mode ");
                m.append(quote(mode.as_str()).as_str());
                m.append(" (expected idle/falling/bounced/dragging)");
                m
            },
            CompileError::EventVerbInvalid { anim } => {
                let mut m = "animation ".to_owned();
                m.append(quote(anim.as_str()).as_str());
                m.append(": event must set exactly one of `on` or `while` (got neither or both)");
                m
            },
            CompileError::EventFieldWrongVerb { anim, field } => {
                let mut m = "animation ".to_owned();
                m.append(quote(anim.as_str()).as_str());
                m.append(": `");
                m.append(field);
                m.append("` is only valid on `on` events");
                m
            },
            CompileError::BadCondition { anim, msg } => {
                let mut m = "animation ".to_owned();
                m.append(quote(anim.as_str()).as_str());
                m.append(": condition parse error: ");
                m.append(msg.as_str());
                m
            },
            CompileError::NoIdleEvent => {
                "no animation subscribes to `on = \"idle\"`; the deskling needs at least one idle animation".to_owned()
            },
            CompileError::ModeUncovered { mode } => {
                let mut m = "no animation has a matching `while = \"".to_owned();
                m.append(mode);
                m.append(
                    "\"` event at speed 0; the deskling cannot resolve an animation for this mode",
                );
                m
            },
        }
    }
}

/// The separator between an error and its cause.
pub const CAUSED_BY: &'static str = "\n  caused by: ";

/// An error's message followed by the message of each error that caused
/// it, in order, each on its own line after `caused by: `.
pub open spec fn chain_text(messages: Seq<Seq<char>>) -> Seq<char>
    decreases messages.len(),
{
    if messages.len() <= 1 {
        if messages.len() == 0 {
            Seq::empty()
        } else {
            messages[0]
        }
    } else {
        chain_text(messages.drop_last()) + CAUSED_BY@ + messages.last()
    }
}

/// Renders an error together with its causes: `messages` holds the error's
/// own message first, then that of its source, of the source's source, and
/// so on.
pub fn format_chain(messages: &Vec<String>) -> (out: String)
    ensures
        out@ == chain_text(messages@.map_values(|m: String| m@)),
{
    let ghost ms = messages@.map_values(|m: String| m@);
    if messages.len() == 0 {
        return String::new();
    }
    let mut out = messages[0].clone();
    let mut i: usize = 1;
    assert(ms.subrange(0, 1) =~= seq![ms[0]]);
    while i < messages.len()
        invariant
            1 <= i <= messages.len(),
            ms == messages@.map_values(|m: String| m@),
            out@ == chain_text(ms.subrange(0, i as int)),
        decreases messages.len() - i,
    {
        out.append(CAUSED_BY);
        out.append(messages[i].as_str());
        assert(ms.subrange(0, i + 1).drop_last() =~= ms.subrange(0, i as int));
        i += 1;
    }
    assert(ms.subrange(0, messages.len() as int) =~= ms);
    out
}

} // verus!
