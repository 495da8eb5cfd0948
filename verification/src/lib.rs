//! A thermal receipt printer emulator.
//!
//! The library consumes a raw byte stream of printer control commands and
//! produces, for each receipt contained in the stream, either a markup
//! string or a grayscale pixel buffer.  The pipeline is: bytes are decoded
//! into commands, commands are segmented into jobs at cut boundaries, each
//! job is interpreted into a document of layout blocks, and each document
//! is rendered by one of two backends.  A malformed job yields one error
//! and never prevents any other job from rendering.

use vstd::prelude::*;
use vstd::string::*;

mod command;
mod document;
mod error;
mod markup;
mod pipeline;
mod raster;
mod segment;
mod wrap;

pub use command::{Alignment, CmdModel, Command, Style, decode, decode_spec};
pub use document::{
    Block,
    BlockModel,
    Document,
    RenderConfig,
    build,
    build_spec,
    job_ok,
    lemma_build_ok_iff,
    lemma_unknown_only_builds_empty,
};
pub use error::{ErrModel, RenderError, RenderErrorKind, message_spec};
pub use markup::{ReceiptHtml, dec_spec, markup_spec, render_markup};
pub use pipeline::{
    RenderOutput,
    count_ok,
    count_rendered,
    html_artifacts,
    html_errors,
    image_artifacts,
    image_errors,
    lemma_html_totals,
    lemma_image_totals,
    process_html,
    process_image,
};
pub use raster::{
    MAX_CANVAS_H,
    RasterModel,
    ReceiptImage,
    doc_height,
    lemma_raster_len,
    raster_pixels,
    render_raster,
};
pub use segment::{Job, cut_count, has_trailing, lemma_segment_count, segment, segment_spec};
pub use wrap::{lemma_wrap_idempotent, rewrap, wrap_spec, wrap_text};

verus! {

/// The name of an error kind, as shown to callers.
pub open spec fn kind_name(k: RenderErrorKind) -> Seq<char> {
    match k {
        RenderErrorKind::MalformedPayload => "MalformedPayload"@,
        RenderErrorKind::UnsupportedOpcode => "UnsupportedOpcode"@,
        RenderErrorKind::LayoutOverflow => "LayoutOverflow"@,
        RenderErrorKind::TruncatedStream => "TruncatedStream"@,
    }
}

/// One error as a display string: its kind's name, `@`, and the byte
/// offset it arose at.
pub open spec fn err_string(e: ErrModel) -> Seq<char> {
    kind_name(e.kind) + "@"@ + dec_spec(e.offset)
}

/// Formats one error for callers.
pub fn error_string(e: &RenderError) -> (s: String)
    ensures
        s@ == err_string(e@),
{
    let mut s = match e.kind {
        RenderErrorKind::MalformedPayload => String::from_str("MalformedPayload"),
        RenderErrorKind::UnsupportedOpcode => String::from_str("UnsupportedOpcode"),
        RenderErrorKind::LayoutOverflow => String::from_str("LayoutOverflow"),
        RenderErrorKind::TruncatedStream => String::from_str("TruncatedStream"),
    };
    s.append("@");
    let d = crate::markup::dec_u64(e.offset as u64);
    s.append(d.as_str());
    s
}

/// Formats a batch's errors, in order.
fn errors_to_strings(errors: &Vec<RenderError>) -> (r: Vec<String>)
    ensures
        r@.map_values(|s: String| s@) == errors@.map_values(|e: RenderError| err_string(e@)),
{
    let ghost target = errors@.map_values(|e: RenderError| err_string(e@));
    let n = errors.len();
    let mut r: Vec<String> = Vec::new();
    let mut i: usize = 0;
    proof {
        assert(r@.map_values(|s: String| s@) =~= target.take(0));
    }
    while i < n
        invariant
            i <= n == errors@.len(),
            target == errors@.map_values(|e: RenderError| err_string(e@)),
            r@.map_values(|s: String| s@) == target.take(i as int),
        decreases n - i,
    {
        let ghost pre = r@.map_values(|s: String| s@);
        let s = error_string(&errors[i]);
        r.push(s);
        i = i + 1;
        proof {
            assert(r@.map_values(|x: String| x@) =~= pre.push(target[i - 1]));
            assert(pre.push(target[i - 1]) =~= target.take(i as int));
        }
    }
    proof {
        assert(target.take(n as int) =~= target);
    }
    r
}

/// A markup batch as plain values: one markup string per rendered job
/// and one display string per failed job, each in stream order.
pub struct OutputString {
    pub output: Vec<String>,
    pub errors: Vec<String>,
}

impl OutputString {
    /// Flattens a markup batch into plain strings.
    pub fn from(value: RenderOutput<ReceiptHtml>) -> (r: OutputString)
        ensures
            r.output@.map_values(|s: String| s@) == value.output@.map_values(
                |o: ReceiptHtml| o.content@,
            ),
            r.errors@.map_values(|s: String| s@) == value.errors@.map_values(
                |e: RenderError| err_string(e@),
            ),
    {
        let ghost target = value.output@.map_values(|o: ReceiptHtml| o.content@);
        let n = value.output.len();
        let mut output: Vec<String> = Vec::new();
        let mut i: usize = 0;
        proof {
            assert(output@.map_values(|s: String| s@) =~= target.take(0));
        }
        while i < n
            invariant
                i <= n == value.output@.len(),
                target == value.output@.map_values(|o: ReceiptHtml| o.content@),
                output@.map_values(|s: String| s@) == target.take(i as int),
            decreases n - i,
        {
            let ghost pre = output@.map_values(|s: String| s@);
            let s = value.output[i].content.clone();
            output.push(s);
            i = i + 1;
            proof {
                assert(output@.map_values(|x: String| x@) =~= pre.push(target[i - 1]));
                assert(pre.push(target[i - 1]) =~= target.take(i as int));
            }
        }
        proof {
            assert(target.take(n as int) =~= target);
        }
        let errors = errors_to_strings(&value.errors);
        OutputString { output, errors }
    }
}

/// One raster artifact as plain values.
#[derive(Clone)]
pub struct OutputImage {
    pub width: u32,
    pub height: u32,
    pub bytes: Vec<u8>,
}

impl View for OutputImage {
    type V = RasterModel;

    open spec fn view(&self) -> RasterModel {
        RasterModel {
            width: self.width as int,
            height: self.height as int,
            bytes: self.bytes@,
        }
    }
}

impl OutputImage {
    /// Copies a raster artifact into plain values.
    pub fn from(value: &ReceiptImage) -> (r: OutputImage)
        ensures
            r@ == value@,
    {
        let bytes = crate::command::copy_range(&value.bytes, 0, value.bytes.len());
        proof {
            assert(bytes@ =~= value.bytes@);
        }
        OutputImage { width: value.width, height: value.height, bytes }
    }
}

/// A raster batch as plain values: one image per rendered job and one
/// display string per failed job, each in stream order.
pub struct OutputBytes {
    pub output: Vec<OutputImage>,
    pub errors: Vec<String>,
}

impl OutputBytes {
    /// Flattens a raster batch into plain values.
    pub fn from(value: RenderOutput<ReceiptImage>) -> (r: OutputBytes)
        ensures
            r.output@.map_values(|o: OutputImage| o@) == value.output@.map_values(
                |o: ReceiptImage| o@,
            ),
            r.errors@.map_values(|s: String| s@) == value.errors@.map_values(
                |e: RenderError| err_string(e@),
            ),
    {
        let ghost target = value.output@.map_values(|o: ReceiptImage| o@);
        let n = value.output.len();
        let mut output: Vec<OutputImage> = Vec::new();
        let mut i: usize = 0;
        proof {
            assert(output@.map_values(|o: OutputImage| o@) =~= target.take(0));
        }
        while i < n
            invariant
                i <= n == value.output@.len(),
                target == value.output@.map_values(|o: ReceiptImage| o@),
                output@.map_values(|o: OutputImage| o@) == target.take(i as int),
            decreases n - i,
        {
            let ghost pre = output@.map_values(|o: OutputImage| o@);
            let img = OutputImage::from(&value.output[i]);
            output.push(img);
            i = i + 1;
            proof {
                assert(output@.map_values(|o: OutputImage| o@) =~= pre.push(target[i - 1]));
                assert(pre.push(target[i - 1]) =~= target.take(i as int));
            }
        }
        proof {
            assert(target.take(n as int) =~= target);
        }
        let errors = errors_to_strings(&value.errors);
        OutputBytes { output, errors }
    }
}

/// Renders a full command stream with the markup backend, at the
/// standard page width: one markup string per job that builds, one error
/// string per job that fails, both in stream order.
pub fn render_to_html(slice: Vec<u8>) -> (r: OutputString)
    ensures
        r.output@.map_values(|s: String| s@) == html_artifacts(
            segment_spec(decode_spec(slice@, 0)),
            48,
        ),
        r.errors@.map_values(|s: String| s@) == html_errors(
            segment_spec(decode_spec(slice@, 0)),
            48,
        ).map_values(|e: ErrModel| err_string(e)),
{
    let cfg = RenderConfig::standard();
    let out = process_html(&slice, &cfg);
    let ghost errs = out.errors@;
    let r = OutputString::from(out);
    proof {
        assert(r.errors@.map_values(|s: String| s@) =~= errs.map_values(
            |e: RenderError| e@,
        ).map_values(|e: ErrModel| err_string(e)));
    }
    r
}

/// Renders a full command stream with the raster backend, at the
/// standard page width: one grayscale image per job that builds and fits
/// the canvas, one error string per other job, both in stream order.
pub fn render_to_image(slice: Vec<u8>) -> (r: OutputBytes)
    ensures
        r.output@.map_values(|o: OutputImage| o@) == image_artifacts(
            segment_spec(decode_spec(slice@, 0)),
            48,
        ),
        r.errors@.map_values(|s: String| s@) == image_errors(
            segment_spec(decode_spec(slice@, 0)),
            48,
        ).map_values(|e: ErrModel| err_string(e)),
{
    let cfg = RenderConfig::standard();
    let out = process_image(&slice, &cfg);
    let ghost errs = out.errors@;
    let r = OutputBytes::from(out);
    proof {
        assert(r.errors@.map_values(|s: String| s@) =~= errs.map_values(
            |e: RenderError| e@,
        ).map_values(|e: ErrModel| err_string(e)));
    }
    r
}

} // verus!
