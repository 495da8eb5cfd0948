//! Per-job rendering errors.
//!
//! An error aborts only the job it arose in; the batch pipeline records it
//! and goes on with the next job.  `UnsupportedOpcode` and
//! `TruncatedStream` are part of the error vocabulary but do not arise
//! here: unrecognized opcodes are resynchronized into `Unknown` commands,
//! which the builder silently skips, and a truncated trailing command
//! decodes to an `Unknown` as well.

use vstd::prelude::*;

verus! {

/// What went wrong with one job.
#[derive(Clone, Copy, PartialEq, Eq, Structural, Debug)]
pub enum RenderErrorKind {
    /// A command's embedded data is structurally inconsistent, e.g. an
    /// image whose declared dimensions disagree with its pixel count.
    MalformedPayload,
    /// A recognized command the pipeline does not interpret.
    UnsupportedOpcode,
    /// A document too tall for the raster canvas.
    LayoutOverflow,
    /// The decoder ran out of bytes mid-command.
    TruncatedStream,
}

/// Mathematical model of a rendering error.
pub struct ErrModel {
    pub kind: RenderErrorKind,
    pub offset: int,
    pub message: Seq<char>,
}

/// One job's failure: its kind, the byte offset of the command (or job)
/// it arose at, and a fixed human-readable message for the kind.
pub struct RenderError {
    pub kind: RenderErrorKind,
    pub offset: usize,
    pub message: String,
}

impl View for RenderError {
    type V = ErrModel;

    open spec fn view(&self) -> ErrModel {
        ErrModel { kind: self.kind, offset: self.offset as int, message: self.message@ }
    }
}

/// The message attached to each error kind.
pub open spec fn message_spec(kind: RenderErrorKind) -> Seq<char> {
    match kind {
        RenderErrorKind::MalformedPayload => "malformed payload"@,
        RenderErrorKind::UnsupportedOpcode => "unsupported opcode"@,
        RenderErrorKind::LayoutOverflow => "layout overflow"@,
        RenderErrorKind::TruncatedStream => "truncated stream"@,
    }
}

impl RenderError {
    /// Builds the error for `kind` at byte offset `offset`.
    pub fn at(kind: RenderErrorKind, offset: usize) -> (e: RenderError)
        ensures
            e@ == (ErrModel { kind, offset: offset as int, message: message_spec(kind) }),
    {
        let message = match kind {
            RenderErrorKind::MalformedPayload => String::from_str("malformed payload"),
            RenderErrorKind::UnsupportedOpcode => String::from_str("unsupported opcode"),
            RenderErrorKind::LayoutOverflow => String::from_str("layout overflow"),
            RenderErrorKind::TruncatedStream => String::from_str("truncated stream"),
        };
        RenderError { kind, offset, message }
    }
}

} // verus!
