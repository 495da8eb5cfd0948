//! The batch pipeline: a byte stream in, per-job artifacts and errors out.
//!
//! Each job from the segmenter is built and rendered on its own; a
//! success appends one artifact to the output sequence, a failure appends
//! one error to the error sequence, and the next job is processed either
//! way — one malformed job never prevents rendering of any other job.
//! Both sequences keep stream order; they are not positionally aligned
//! with each other, and a caller correlating them consults the error's
//! recorded byte offset.

use vstd::prelude::*;

use crate::command::{CmdModel, Command, decode, decode_spec};
use crate::document::{RenderConfig, build, build_spec, cmd_offset};
use crate::error::{ErrModel, RenderError, RenderErrorKind, message_spec};
use crate::markup::{ReceiptHtml, markup_spec, render_markup};
use crate::raster::{
    MAX_CANVAS_H,
    RasterModel,
    ReceiptImage,
    doc_height,
    raster_pixels,
    render_raster,
};
use crate::segment::{Job, lemma_segment_jobs_nonempty, segment, segment_spec};

verus! {

/// Artifacts and errors of one batch, each in stream order.
pub struct RenderOutput<T> {
    pub output: Vec<T>,
    pub errors: Vec<RenderError>,
}

/// The byte offset a job is reported at: its first command's offset.
pub open spec fn job_offset(job: Seq<CmdModel>) -> int {
    if job.len() > 0 {
        cmd_offset(job[0])
    } else {
        0
    }
}

/// The markup artifacts of a batch: one string per job that builds.
pub open spec fn html_artifacts(jobs: Seq<Seq<CmdModel>>, cols: int) -> Seq<Seq<char>>
    decreases jobs.len(),
{
    if jobs.len() == 0 {
        Seq::empty()
    } else {
        (match build_spec(jobs[0], cols) {
            Ok(bs) => seq![markup_spec(bs)],
            Err(_) => Seq::empty(),
        }) + html_artifacts(jobs.subrange(1, jobs.len() as int), cols)
    }
}

/// The errors of a markup batch: one per job that fails to build.
pub open spec fn html_errors(jobs: Seq<Seq<CmdModel>>, cols: int) -> Seq<ErrModel>
    decreases jobs.len(),
{
    if jobs.len() == 0 {
        Seq::empty()
    } else {
        (match build_spec(jobs[0], cols) {
            Ok(_) => Seq::empty(),
            Err(e) => seq![e],
        }) + html_errors(jobs.subrange(1, jobs.len() as int), cols)
    }
}

/// Whether one job renders to a raster artifact: it builds, and its
/// document fits the canvas limit.
pub open spec fn image_ok(job: Seq<CmdModel>, cols: int) -> bool {
    match build_spec(job, cols) {
        Ok(bs) => doc_height(bs) <= MAX_CANVAS_H,
        Err(_) => false,
    }
}

/// The raster artifact of one job that renders.
pub open spec fn image_of_job(job: Seq<CmdModel>, cols: int) -> RasterModel {
    let bs = build_spec(job, cols)->Ok_0;
    RasterModel { width: 8 * cols, height: doc_height(bs), bytes: raster_pixels(bs, 8 * cols) }
}

/// The raster artifacts of a batch, one per job that renders.
pub open spec fn image_artifacts(jobs: Seq<Seq<CmdModel>>, cols: int) -> Seq<RasterModel>
    decreases jobs.len(),
{
    if jobs.len() == 0 {
        Seq::empty()
    } else {
        (if image_ok(jobs[0], cols) {
            seq![image_of_job(jobs[0], cols)]
        } else {
            Seq::empty()
        }) + image_artifacts(jobs.subrange(1, jobs.len() as int), cols)
    }
}

/// The error one job's raster pass reports: its build error, or a layout
/// overflow when the built document is too tall for the canvas.
pub open spec fn image_err_of_job(job: Seq<CmdModel>, cols: int) -> ErrModel {
    match build_spec(job, cols) {
        Ok(_) => ErrModel {
            kind: RenderErrorKind::LayoutOverflow,
            offset: job_offset(job),
            message: message_spec(RenderErrorKind::LayoutOverflow),
        },
        Err(e) => e,
    }
}

/// The errors of a raster batch, one per job that does not render.
pub open spec fn image_errors(jobs: Seq<Seq<CmdModel>>, cols: int) -> Seq<ErrModel>
    decreases jobs.len(),
{
    if jobs.len() == 0 {
        Seq::empty()
    } else {
        (if image_ok(jobs[0], cols) {
            Seq::empty()
        } else {
            seq![image_err_of_job(jobs[0], cols)]
        }) + image_errors(jobs.subrange(1, jobs.len() as int), cols)
    }
}

/// How many jobs of a batch build successfully.
pub open spec fn count_ok(jobs: Seq<Seq<CmdModel>>, cols: int) -> int
    decreases jobs.len(),
{
    if jobs.len() == 0 {
        0
    } else {
        (if build_spec(jobs[0], cols) is Ok {
            1int
        } else {
            0int
        }) + count_ok(jobs.subrange(1, jobs.len() as int), cols)
    }
}

/// Failure isolation, counted: a markup batch yields one artifact per
/// job that builds and one error per job that fails, so the two lengths
/// always sum to the number of jobs.
pub proof fn lemma_html_totals(jobs: Seq<Seq<CmdModel>>, cols: int)
    ensures
        html_artifacts(jobs, cols).len() == count_ok(jobs, cols),
        html_errors(jobs, cols).len() == jobs.len() - count_ok(jobs, cols),
    decreases jobs.len(),
{
    if jobs.len() > 0 {
        lemma_html_totals(jobs.subrange(1, jobs.len() as int), cols);
    }
}

/// How many jobs of a batch render to a raster artifact.
pub open spec fn count_rendered(jobs: Seq<Seq<CmdModel>>, cols: int) -> int
    decreases jobs.len(),
{
    if jobs.len() == 0 {
        0
    } else {
        (if image_ok(jobs[0], cols) {
            1int
        } else {
            0int
        }) + count_rendered(jobs.subrange(1, jobs.len() as int), cols)
    }
}

/// Failure isolation for the raster batch: one artifact per job that
/// renders, one error per job that does not, summing to the job count.
pub proof fn lemma_image_totals(jobs: Seq<Seq<CmdModel>>, cols: int)
    ensures
        image_artifacts(jobs, cols).len() == count_rendered(jobs, cols),
        image_errors(jobs, cols).len() == jobs.len() - count_rendered(jobs, cols),
        image_artifacts(jobs, cols).len() + image_errors(jobs, cols).len() == jobs.len(),
    decreases jobs.len(),
{
    if jobs.len() > 0 {
        lemma_image_totals(jobs.subrange(1, jobs.len() as int), cols);
    }
}

/// The first command's byte offset of a non-empty job.
fn first_offset(job: &Job) -> (o: usize)
    requires
        job.view_cmds().len() > 0,
    ensures
        o as int == job_offset(job.view_cmds()),
{
    proof {
        assert(job.view_cmds()[0] == job.commands@[0]@);
    }
    match &job.commands[0] {
        Command::Text { offset, .. } => *offset,
        Command::SetStyle { offset, .. } => *offset,
        Command::FeedLine { offset, .. } => *offset,
        Command::Cut { offset } => *offset,
        Command::Image { offset, .. } => *offset,
        Command::Barcode { offset, .. } => *offset,
        Command::Unknown { offset, .. } => *offset,
    }
}

/// Decodes, segments and renders a byte stream with the markup backend.
///
/// Every job that builds contributes its markup string, in stream order;
/// every job that fails contributes its error, in stream order; no job
/// affects any other.
pub fn process_html(bytes: &Vec<u8>, cfg: &RenderConfig) -> (r: RenderOutput<ReceiptHtml>)
    requires
        cfg.wf(),
    ensures
        r.output@.map_values(|a: ReceiptHtml| a.content@) == html_artifacts(
            segment_spec(decode_spec(bytes@, 0)),
            cfg.page_cols as int,
        ),
        r.errors@.map_values(|e: RenderError| e@) == html_errors(
            segment_spec(decode_spec(bytes@, 0)),
            cfg.page_cols as int,
        ),
{
    let ghost cols = cfg.page_cols as int;
    let cmds = decode(bytes);
    let jobs = segment(cmds);
    let ghost gjobs = jobs@.map_values(|j: Job| j.view_cmds());
    let n = jobs.len();
    let mut output: Vec<ReceiptHtml> = Vec::new();
    let mut errors: Vec<RenderError> = Vec::new();
    let mut i: usize = 0;
    proof {
        assert(gjobs.subrange(0, n as int) =~= gjobs);
        assert(output@.map_values(|a: ReceiptHtml| a.content@) =~= Seq::<Seq<char>>::empty());
        assert(errors@.map_values(|e: RenderError| e@) =~= Seq::<ErrModel>::empty());
        assert(Seq::<Seq<char>>::empty() + html_artifacts(gjobs, cols) =~= html_artifacts(
            gjobs,
            cols,
        ));
        assert(Seq::<ErrModel>::empty() + html_errors(gjobs, cols) =~= html_errors(gjobs, cols));
    }
    while i < n
        invariant
            i <= n == jobs@.len(),
            cfg.wf(),
            cols == cfg.page_cols as int,
            gjobs == jobs@.map_values(|j: Job| j.view_cmds()),
            html_artifacts(gjobs, cols) == output@.map_values(|a: ReceiptHtml| a.content@)
                + html_artifacts(gjobs.subrange(i as int, n as int), cols),
            html_errors(gjobs, cols) == errors@.map_values(|e: RenderError| e@) + html_errors(
                gjobs.subrange(i as int, n as int),
                cols,
            ),
        decreases n - i,
    {
        let ghost rest = gjobs.subrange(i as int, n as int);
        let ghost pre_out = output@.map_values(|a: ReceiptHtml| a.content@);
        let ghost pre_err = errors@.map_values(|e: RenderError| e@);
        proof {
            assert(rest[0] == gjobs[i as int]);
            assert(gjobs[i as int] == jobs@[i as int].view_cmds());
            assert(rest.subrange(1, rest.len() as int) =~= gjobs.subrange(i + 1, n as int));
        }
        match build(&jobs[i], cfg) {
            Ok(doc) => {
                let content = render_markup(&doc);
                output.push(ReceiptHtml { content });
                proof {
                    assert(output@.map_values(|a: ReceiptHtml| a.content@) =~= pre_out.push(
                        markup_spec(build_spec(rest[0], cols)->Ok_0),
                    ));
                    assert(pre_out + (seq![markup_spec(build_spec(rest[0], cols)->Ok_0)]
                        + html_artifacts(gjobs.subrange(i + 1, n as int), cols)) =~= pre_out.push(
                        markup_spec(build_spec(rest[0], cols)->Ok_0),
                    ) + html_artifacts(gjobs.subrange(i + 1, n as int), cols));
                    assert(pre_err + html_errors(rest, cols) =~= pre_err + html_errors(
                        gjobs.subrange(i + 1, n as int),
                        cols,
                    ));
                }
            },
            Err(e) => {
                errors.push(e);
                proof {
                    assert(errors@.map_values(|x: RenderError| x@) =~= pre_err.push(
                        build_spec(rest[0], cols)->Err_0,
                    ));
                    assert(pre_err + (seq![build_spec(rest[0], cols)->Err_0] + html_errors(
                        gjobs.subrange(i + 1, n as int),
                        cols,
                    )) =~= pre_err.push(build_spec(rest[0], cols)->Err_0) + html_errors(
                        gjobs.subrange(i + 1, n as int),
                        cols,
                    ));
                    assert(pre_out + html_artifacts(rest, cols) =~= pre_out + html_artifacts(
                        gjobs.subrange(i + 1, n as int),
                        cols,
                    ));
                }
            },
        }
        i = i + 1;
    }
    proof {
        assert(gjobs.subrange(n as int, n as int) =~= Seq::<Seq<CmdModel>>::empty());
        assert(output@.map_values(|a: ReceiptHtml| a.content@) + Seq::<Seq<char>>::empty()
            =~= output@.map_values(|a: ReceiptHtml| a.content@));
        assert(errors@.map_values(|e: RenderError| e@) + Seq::<ErrModel>::empty()
            =~= errors@.map_values(|e: RenderError| e@));
    }
    RenderOutput { output, errors }
}

/// Decodes, segments and renders a byte stream with the raster backend.
///
/// Every job that builds and fits the canvas contributes its pixel
/// buffer, in stream order; every other job contributes its error —
/// `MalformedPayload` from the build, or `LayoutOverflow` at the job's
/// offset when its document is too tall — and no job affects any other.
pub fn process_image(bytes: &Vec<u8>, cfg: &RenderConfig) -> (r: RenderOutput<ReceiptImage>)
    requires
        cfg.wf(),
    ensures
        r.output@.map_values(|a: ReceiptImage| a@) == image_artifacts(
            segment_spec(decode_spec(bytes@, 0)),
            cfg.page_cols as int,
        ),
        r.errors@.map_values(|e: RenderError| e@) == image_errors(
            segment_spec(decode_spec(bytes@, 0)),
            cfg.page_cols as int,
        ),
{
    let ghost cols = cfg.page_cols as int;
    let cmds = decode(bytes);
    let ghost gcmds = cmds@.map_values(|c: crate::command::Command| c@);
    let jobs = segment(cmds);
    let ghost gjobs = jobs@.map_values(|j: Job| j.view_cmds());
    let n = jobs.len();
    let mut output: Vec<ReceiptImage> = Vec::new();
    let mut errors: Vec<RenderError> = Vec::new();
    let mut i: usize = 0;
    proof {
        assert forall|k: int| 0 <= k < gjobs.len() implies #[trigger] gjobs[k].len() > 0 by {
            lemma_segment_jobs_nonempty(gcmds, Seq::empty(), k);
        }
        assert(gjobs.subrange(0, n as int) =~= gjobs);
        assert(output@.map_values(|a: ReceiptImage| a@) =~= Seq::<RasterModel>::empty());
        assert(errors@.map_values(|e: RenderError| e@) =~= Seq::<ErrModel>::empty());
        assert(Seq::<RasterModel>::empty() + image_artifacts(gjobs, cols) =~= image_artifacts(
            gjobs,
            cols,
        ));
        assert(Seq::<ErrModel>::empty() + image_errors(gjobs, cols) =~= image_errors(gjobs, cols));
    }
    while i < n
        invariant
            i <= n == jobs@.len(),
            cfg.wf(),
            cols == cfg.page_cols as int,
            gjobs == jobs@.map_values(|j: Job| j.view_cmds()),
            forall|k: int| 0 <= k < gjobs.len() ==> #[trigger] gjobs[k].len() > 0,
            image_artifacts(gjobs, cols) == output@.map_values(|a: ReceiptImage| a@)
                + image_artifacts(gjobs.subrange(i as int, n as int), cols),
            image_errors(gjobs, cols) == errors@.map_values(|e: RenderError| e@) + image_errors(
                gjobs.subrange(i as int, n as int),
                cols,
            ),
        decreases n - i,
    {
        let ghost rest = gjobs.subrange(i as int, n as int);
        let ghost pre_out = output@.map_values(|a: ReceiptImage| a@);
        let ghost pre_err = errors@.map_values(|e: RenderError| e@);
        proof {
            assert(rest[0] == gjobs[i as int]);
            assert(gjobs[i as int] == jobs@[i as int].view_cmds());
            assert(rest.subrange(1, rest.len() as int) =~= gjobs.subrange(i + 1, n as int));
        }
        let push_err: Option<RenderError>;
        match build(&jobs[i], cfg) {
            Ok(doc) => {
                match render_raster(&doc) {
                    Some(img) => {
                        proof {
                            assert(image_ok(rest[0], cols));
                            assert(img@ == image_of_job(rest[0], cols));
                        }
                        output.push(img);
                        push_err = None;
                        proof {
                            assert(output@.map_values(|a: ReceiptImage| a@) =~= pre_out.push(
                                image_of_job(rest[0], cols),
                            ));
                            assert(pre_out + (seq![image_of_job(rest[0], cols)] + image_artifacts(
                                gjobs.subrange(i + 1, n as int),
                                cols,
                            )) =~= pre_out.push(image_of_job(rest[0], cols)) + image_artifacts(
                                gjobs.subrange(i + 1, n as int),
                                cols,
                            ));
                        }
                    },
                    None => {
                        let off = first_offset(&jobs[i]);
                        push_err = Some(
                            RenderError::at(RenderErrorKind::LayoutOverflow, off),
                        );
                        proof {
                            assert(!image_ok(rest[0], cols));
                        }
                    },
                }
            },
            Err(e) => {
                push_err = Some(e);
                proof {
                    assert(!image_ok(rest[0], cols));
                    assert(e@ == image_err_of_job(rest[0], cols));
                }
            },
        }
        match push_err {
            Some(e) => {
                proof {
                    assert(e@ == image_err_of_job(rest[0], cols));
                }
                errors.push(e);
                proof {
                    assert(errors@.map_values(|x: RenderError| x@) =~= pre_err.push(
                        image_err_of_job(rest[0], cols),
                    ));
                    assert(pre_err + (seq![image_err_of_job(rest[0], cols)] + image_errors(
                        gjobs.subrange(i + 1, n as int),
                        cols,
                    )) =~= pre_err.push(image_err_of_job(rest[0], cols)) + image_errors(
                        gjobs.subrange(i + 1, n as int),
                        cols,
                    ));
                    assert(pre_out + image_artifacts(rest, cols) =~= pre_out + image_artifacts(
                        gjobs.subrange(i + 1, n as int),
                        cols,
                    ));
                }
            },
            None => {
                proof {
                    assert(pre_err + image_errors(rest, cols) =~= pre_err + image_errors(
                        gjobs.subrange(i + 1, n as int),
                        cols,
                    ));
                }
            },
        }
        i = i + 1;
    }
    proof {
        assert(gjobs.subrange(n as int, n as int) =~= Seq::<Seq<CmdModel>>::empty());
        assert(output@.map_values(|a: ReceiptImage| a@) + Seq::<RasterModel>::empty()
            =~= output@.map_values(|a: ReceiptImage| a@));
        assert(errors@.map_values(|e: RenderError| e@) + Seq::<ErrModel>::empty()
            =~= errors@.map_values(|e: RenderError| e@));
    }
    RenderOutput { output, errors }
}

} // verus!
