//! Interpreting one job's commands into a document of layout blocks.
//!
//! The builder walks the job's commands in order against mutable layout
//! state (the active style): text is wrapped at the page width and each
//! wrapped line becomes a `TextRun` carrying a snapshot of the style
//! active when it was emitted; style changes after a run never affect it.
//! `Unknown` commands are silently skipped.  A malformed image or barcode
//! payload aborts this job's build with `MalformedPayload` and never
//! touches any other job.

use vstd::prelude::*;

use crate::command::{CmdModel, Command, Style, copy_range};
use crate::error::{ErrModel, RenderError, RenderErrorKind, message_spec};
use crate::segment::Job;
use crate::wrap::{wrap_spec, wrap_text, lemma_wrap_line_bounds};

verus! {

/// Columns of the narrowest supported page.
pub const MIN_COLS: usize = 32;

/// Columns of the widest supported page.
pub const MAX_COLS: usize = 256;

/// Rendering options: the page width in character cells.
#[derive(Clone, Copy, PartialEq, Eq, Structural, Debug)]
pub struct RenderConfig {
    pub page_cols: usize,
}

impl RenderConfig {
    /// The page is between 32 and 256 character cells wide, so an image
    /// (at most 255 pixels wide) always fits the pixel page.
    pub open spec fn wf(self) -> bool {
        MIN_COLS <= self.page_cols <= MAX_COLS
    }

    /// The default page: 48 cells, the familiar receipt width.
    pub fn standard() -> (c: RenderConfig)
        ensures
            c.wf(),
            c.page_cols == 48,
    {
        RenderConfig { page_cols: 48 }
    }
}

/// Mathematical model of one layout block.
pub enum BlockModel {
    TextRun { text: Seq<u8>, style: Style },
    Spacer { lines: u8, scale: u8 },
    ImageBlock { width: u8, height: u8, pixels: Seq<u8> },
    BarcodeBlock { symbology: u8, payload: Seq<u8> },
}

/// One visual unit of a document.
pub enum Block {
    /// A single already-wrapped line of text with the style it was
    /// emitted under.
    TextRun { text: Vec<u8>, style: Style },
    /// Blank vertical space from a feed command.
    Spacer { lines: u8, scale: u8 },
    /// A raw grayscale image, row-major, `width * height` pixels.
    ImageBlock { width: u8, height: u8, pixels: Vec<u8> },
    /// A barcode payload with its symbology.
    BarcodeBlock { symbology: u8, payload: Vec<u8> },
}

impl View for Block {
    type V = BlockModel;

    open spec fn view(&self) -> BlockModel {
        match *self {
            Block::TextRun { ref text, style } => BlockModel::TextRun { text: text@, style },
            Block::Spacer { lines, scale } => BlockModel::Spacer { lines, scale },
            Block::ImageBlock { width, height, ref pixels } => BlockModel::ImageBlock {
                width,
                height,
                pixels: pixels@,
            },
            Block::BarcodeBlock { symbology, ref payload } => BlockModel::BarcodeBlock {
                symbology,
                payload: payload@,
            },
        }
    }
}

/// Cells that fit on one line under `scale`: wider glyphs leave fewer.
pub open spec fn eff_width(cols: int, scale: u8) -> int {
    if 1 <= scale <= 4 {
        cols / (scale as int)
    } else {
        cols
    }
}

/// A block the renderers can lay out on a page of `cols` cells.
pub open spec fn block_wf(b: BlockModel, cols: int) -> bool {
    match b {
        BlockModel::TextRun { text, style } => style.wf() && text.len() <= eff_width(
            cols,
            style.scale,
        ),
        BlockModel::Spacer { lines, scale } => 1 <= scale <= 4,
        BlockModel::ImageBlock { width, height, pixels } => pixels.len() == width * height,
        BlockModel::BarcodeBlock { symbology, payload } => 0 < payload.len() && symbology <= 2,
    }
}

/// The structured, render-ready form of one job.
pub struct Document {
    pub blocks: Vec<Block>,
    pub page_cols: usize,
}

impl Document {
    pub open spec fn view_blocks(&self) -> Seq<BlockModel> {
        self.blocks@.map_values(|b: Block| b@)
    }

    /// Every block fits the page it was laid out for.
    pub open spec fn wf(&self) -> bool {
        MIN_COLS <= self.page_cols <= MAX_COLS && forall|i: int|
            0 <= i < self.view_blocks().len() ==> block_wf(
                #[trigger] self.view_blocks()[i],
                self.page_cols as int,
            )
    }
}

/// Whether one command's embedded data is structurally consistent.
pub open spec fn cmd_ok(c: CmdModel) -> bool {
    match c {
        CmdModel::Image { width, height, pixels, .. } => pixels.len() == width * height,
        CmdModel::Barcode { symbology, payload, .. } => 0 < payload.len() && symbology <= 2,
        _ => true,
    }
}

/// Whether a whole job is free of malformed commands.
pub open spec fn job_ok(cmds: Seq<CmdModel>) -> bool {
    forall|i: int| 0 <= i < cmds.len() ==> cmd_ok(#[trigger] cmds[i])
}

/// The byte offset a command was decoded at.
pub open spec fn cmd_offset(c: CmdModel) -> int {
    match c {
        CmdModel::Text { offset, .. } => offset,
        CmdModel::SetStyle { offset, .. } => offset,
        CmdModel::FeedLine { offset, .. } => offset,
        CmdModel::Cut { offset } => offset,
        CmdModel::Image { offset, .. } => offset,
        CmdModel::Barcode { offset, .. } => offset,
        CmdModel::Unknown { offset, .. } => offset,
    }
}

/// The style in force after a command: a `SetStyle` replaces it (with the
/// scale clamped into range), everything else leaves it unchanged.
pub open spec fn style_after(c: CmdModel, st: Style) -> Style {
    match c {
        CmdModel::SetStyle { style, .. } => Style {
            scale: if 1 <= style.scale <= 4 {
                style.scale
            } else {
                1
            },
            ..style
        },
        _ => st,
    }
}

/// The text-run blocks one text command emits under style `st`.
pub open spec fn text_blocks(content: Seq<u8>, st: Style, cols: int) -> Seq<BlockModel> {
    wrap_spec(content, eff_width(cols, st.scale)).map_values(
        |l: Seq<u8>| BlockModel::TextRun { text: l, style: st },
    )
}

/// The blocks one well-formed command emits under style `st`.
pub open spec fn blocks_of_cmd(c: CmdModel, st: Style, cols: int) -> Seq<BlockModel> {
    match c {
        CmdModel::Text { content, .. } => text_blocks(content, st, cols),
        CmdModel::FeedLine { count, .. } => seq![
            BlockModel::Spacer { lines: count, scale: st.scale },
        ],
        CmdModel::Image { width, height, pixels, .. } => seq![
            BlockModel::ImageBlock { width, height, pixels },
        ],
        CmdModel::Barcode { symbology, payload, .. } => seq![
            BlockModel::BarcodeBlock { symbology, payload },
        ],
        _ => Seq::empty(),
    }
}

/// Interpretation of a command sequence under starting style `st`: the
/// blocks of each command in order, or the error of the first malformed
/// command.
pub open spec fn build_rec(cmds: Seq<CmdModel>, st: Style, cols: int) -> Result<
    Seq<BlockModel>,
    ErrModel,
>
    decreases cmds.len(),
{
    if cmds.len() == 0 {
        Ok(Seq::empty())
    } else if !cmd_ok(cmds[0]) {
        Err(
            ErrModel {
                kind: RenderErrorKind::MalformedPayload,
                offset: cmd_offset(cmds[0]),
                message: message_spec(RenderErrorKind::MalformedPayload),
            },
        )
    } else {
        match build_rec(cmds.subrange(1, cmds.len() as int), style_after(cmds[0], st), cols) {
            Ok(bs) => Ok(blocks_of_cmd(cmds[0], st, cols) + bs),
            Err(e) => Err(e),
        }
    }
}

/// What a job builds to: its document blocks, or its first error.
pub open spec fn build_spec(cmds: Seq<CmdModel>, cols: int) -> Result<Seq<BlockModel>, ErrModel> {
    build_rec(cmds, Style::initial_spec(), cols)
}

/// A build succeeds exactly on jobs free of malformed commands.
pub proof fn lemma_build_ok_iff(cmds: Seq<CmdModel>, st: Style, cols: int)
    ensures
        build_rec(cmds, st, cols) is Ok <==> job_ok(cmds),
    decreases cmds.len(),
{
    if cmds.len() == 0 {
    } else {
        let rest = cmds.subrange(1, cmds.len() as int);
        lemma_build_ok_iff(rest, style_after(cmds[0], st), cols);
        if cmd_ok(cmds[0]) && job_ok(rest) {
            assert forall|i: int| 0 <= i < cmds.len() implies cmd_ok(#[trigger] cmds[i]) by {
                if i > 0 {
                    assert(cmds[i] == rest[i - 1]);
                }
            }
        } else if !cmd_ok(cmds[0]) {
            assert(!job_ok(cmds));
        } else {
            let j = choose|j: int| 0 <= j < rest.len() && !cmd_ok(#[trigger] rest[j]);
            assert(cmds[j + 1] == rest[j]);
            assert(!job_ok(cmds));
        }
    }
}

/// A job of nothing but `Unknown` commands builds to an empty, valid
/// document: unrecognized opcodes are skipped, never fatal.
pub proof fn lemma_unknown_only_builds_empty(cmds: Seq<CmdModel>, st: Style, cols: int)
    requires
        forall|i: int| 0 <= i < cmds.len() ==> cmds[i] is Unknown,
    ensures
        build_rec(cmds, st, cols) == Ok::<Seq<BlockModel>, ErrModel>(Seq::empty()),
    decreases cmds.len(),
{
    if cmds.len() == 0 {
    } else {
        let rest = cmds.subrange(1, cmds.len() as int);
        assert(cmds[0] is Unknown);
        lemma_unknown_only_builds_empty(rest, style_after(cmds[0], st), cols);
        assert(blocks_of_cmd(cmds[0], st, cols) + Seq::<BlockModel>::empty()
            =~= Seq::<BlockModel>::empty());
    }
}

/// `Ok` results compose by prepending blocks; errors pass through.
pub open spec fn ok_prepend(pre: Seq<BlockModel>, r: Result<Seq<BlockModel>, ErrModel>) -> Result<
    Seq<BlockModel>,
    ErrModel,
> {
    match r {
        Ok(bs) => Ok(pre + bs),
        Err(e) => Err(e),
    }
}

proof fn lemma_ok_prepend_assoc(a: Seq<BlockModel>, b: Seq<BlockModel>, r: Result<
    Seq<BlockModel>,
    ErrModel,
>)
    ensures
        ok_prepend(a, ok_prepend(b, r)) == ok_prepend(a + b, r),
{
    match r {
        Ok(bs) => {
            assert(a + (b + bs) =~= (a + b) + bs);
        },
        Err(_) => {},
    }
}

/// Appends one text-run block per wrapped line, each snapshotting `st`.
fn push_text_blocks(blocks: &mut Vec<Block>, lines: Vec<Vec<u8>>, st: Style)
    ensures
        final(blocks)@.map_values(|b: Block| b@) == old(blocks)@.map_values(|b: Block| b@)
            + lines@.map_values(|l: Vec<u8>| l@).map_values(
            |l: Seq<u8>| BlockModel::TextRun { text: l, style: st },
        ),
{
    let ghost orig = old(blocks)@.map_values(|b: Block| b@);
    let ghost src = lines@.map_values(|l: Vec<u8>| l@);
    let ghost target = src.map_values(|l: Seq<u8>| BlockModel::TextRun { text: l, style: st });
    let total = lines.len();
    let mut lines = lines;
    let mut i: usize = 0;
    proof {
        assert(orig + target.take(0) =~= orig);
        assert(lines@.map_values(|l: Vec<u8>| l@) =~= src.subrange(0, total as int));
    }
    while i < total
        invariant
            i <= total == src.len(),
            target.len() == src.len(),
            lines@.len() == total - i,
            lines@.map_values(|l: Vec<u8>| l@) =~= src.subrange(i as int, total as int),
            blocks@.map_values(|b: Block| b@) == orig + target.take(i as int),
            target == src.map_values(|l: Seq<u8>| BlockModel::TextRun { text: l, style: st }),
        decreases total - i,
    {
        let ghost pre_lines = lines@;
        let ghost pre = blocks@.map_values(|b: Block| b@);
        let l = lines.remove(0);
        proof {
            assert(pre_lines.map_values(|x: Vec<u8>| x@) =~= src.subrange(i as int, total as int));
            assert(pre_lines.map_values(|x: Vec<u8>| x@)[0] == pre_lines[0]@);
            assert(src.subrange(i as int, total as int)[0] == src[i as int]);
            assert(l@ == src[i as int]);
            assert(lines@ =~= pre_lines.subrange(1, pre_lines.len() as int));
            assert(lines@.map_values(|x: Vec<u8>| x@) =~= pre_lines.map_values(
                |x: Vec<u8>| x@,
            ).subrange(1, pre_lines.len() as int));
            assert(lines@.map_values(|x: Vec<u8>| x@) =~= src.subrange(i + 1, total as int));
        }
        blocks.push(Block::TextRun { text: l, style: st });
        i = i + 1;
        proof {
            assert(target[i - 1] == (BlockModel::TextRun { text: src[i - 1], style: st }));
            assert(blocks@.map_values(|b: Block| b@) =~= pre.push(target[i - 1]));
            assert(pre.push(target[i - 1]) =~= orig + target.take(i as int));
        }
    }
    proof {
        assert(target.take(total as int) =~= target);
    }
}

/// Interprets one job's commands into a document.
///
/// Succeeds exactly on jobs free of malformed commands; the result is
/// `build_spec` of the job: text wrapped at the page width into style-
/// snapshotted runs, feeds as spacers, images and barcodes as their
/// blocks, `Unknown` commands skipped, and the first malformed image or
/// barcode reported as `MalformedPayload` at its byte offset.
pub fn build(job: &Job, cfg: &RenderConfig) -> (r: Result<Document, RenderError>)
    requires
        cfg.wf(),
    ensures
        r is Ok <==> job_ok(job.view_cmds()),
        match r {
            Ok(d) => build_spec(job.view_cmds(), cfg.page_cols as int) == Ok::<
                Seq<BlockModel>,
                ErrModel,
            >(d.view_blocks()) && d.page_cols == cfg.page_cols && d.wf(),
            Err(e) => build_spec(job.view_cmds(), cfg.page_cols as int) == Err::<
                Seq<BlockModel>,
                ErrModel,
            >(e@),
        },
{
    let ghost full = job.view_cmds();
    let ghost cols = cfg.page_cols as int;
    let n = job.commands.len();
    let mut blocks: Vec<Block> = Vec::new();
    let mut st = Style::initial();
    let mut i: usize = 0;
    proof {
        assert(full.subrange(0, n as int) =~= full);
        assert(blocks@.map_values(|b: Block| b@) =~= Seq::<BlockModel>::empty());
        if build_rec(full, Style::initial_spec(), cols) is Ok {
            assert(Seq::<BlockModel>::empty() + build_rec(
                full,
                Style::initial_spec(),
                cols,
            )->Ok_0 =~= build_rec(full, Style::initial_spec(), cols)->Ok_0);
        }
    }
    while i < n
        invariant
            i <= n,
            full.len() == n,
            full == job.view_cmds(),
            cfg.wf(),
            cols == cfg.page_cols as int,
            st.wf(),
            build_spec(full, cols) == ok_prepend(
                blocks@.map_values(|b: Block| b@),
                build_rec(full.subrange(i as int, n as int), st, cols),
            ),
            forall|k: int| 0 <= k < blocks@.len() ==> block_wf(#[trigger] blocks@[k]@, cols),
        decreases n - i,
    {
        let ghost rest = full.subrange(i as int, n as int);
        let ghost pre = blocks@.map_values(|b: Block| b@);
        let ghost st0 = st;
        proof {
            assert(rest[0] == full[i as int]);
            assert(full[i as int] == job.commands@[i as int]@);
            assert(rest.subrange(1, rest.len() as int) =~= full.subrange(i + 1, n as int));
        }
        let c = &job.commands[i];
        match c {
            Command::Text { content, .. } => {
                let eff = cfg.page_cols / (st.scale as usize);
                proof {
                    assert(cfg.page_cols as int / (st.scale as int) >= 8) by (nonlinear_arith)
                        requires
                            1 <= st.scale <= 4,
                            32 <= cfg.page_cols,
                    ;
                }
                let lines = wrap_text(content, eff);
                proof {
                    assert(eff as int == eff_width(cols, st.scale));
                    lemma_wrap_line_bounds(content@, eff as int);
                    assert(lines@.map_values(|l: Vec<u8>| l@) == wrap_spec(content@, eff as int));
                }
                push_text_blocks(&mut blocks, lines, st);
                proof {
                    assert(blocks@.map_values(|b: Block| b@) == pre + text_blocks(
                        content@,
                        st0,
                        cols,
                    ));
                    assert(blocks_of_cmd(rest[0], st0, cols) == text_blocks(content@, st0, cols));
                }
            },
            Command::SetStyle { style, .. } => {
                let sc = style.scale;
                st = Style {
                    bold: style.bold,
                    underline: style.underline,
                    align: style.align,
                    scale: if 1 <= sc && sc <= 4 {
                        sc
                    } else {
                        1
                    },
                };
                proof {
                    assert(st == style_after(rest[0], st0));
                    assert(blocks_of_cmd(rest[0], st0, cols) == Seq::<BlockModel>::empty());
                }
            },
            Command::FeedLine { count, .. } => {
                blocks.push(Block::Spacer { lines: *count, scale: st.scale });
                proof {
                    assert(blocks@.map_values(|b: Block| b@) =~= pre.push(
                        BlockModel::Spacer { lines: *count, scale: st0.scale },
                    ));
                    assert(pre.push(BlockModel::Spacer { lines: *count, scale: st0.scale })
                        =~= pre + blocks_of_cmd(rest[0], st0, cols));
                }
            },
            Command::Cut { .. } => {
                proof {
                    assert(blocks_of_cmd(rest[0], st0, cols) == Seq::<BlockModel>::empty());
                }
            },
            Command::Image { offset, width, height, pixels } => {
                proof {
                    assert((*width as int) * (*height as int) <= 65025) by (nonlinear_arith)
                        requires
                            *width <= 255,
                            *height <= 255,
                    ;
                }
                if pixels.len() == (*width as usize) * (*height as usize) {
                    let copy = copy_range(pixels, 0, pixels.len());
                    proof {
                        assert(copy@ =~= pixels@);
                    }
                    blocks.push(
                        Block::ImageBlock { width: *width, height: *height, pixels: copy },
                    );
                    proof {
                        assert(cmd_ok(rest[0]));
                        assert(blocks@.map_values(|b: Block| b@) =~= pre.push(
                            BlockModel::ImageBlock {
                                width: *width,
                                height: *height,
                                pixels: pixels@,
                            },
                        ));
                        assert(pre.push(
                            BlockModel::ImageBlock {
                                width: *width,
                                height: *height,
                                pixels: pixels@,
                            },
                        ) =~= pre + blocks_of_cmd(rest[0], st0, cols));
                    }
                } else {
                    let e = RenderError::at(RenderErrorKind::MalformedPayload, *offset);
                    proof {
                        assert(!cmd_ok(rest[0]));
                        assert(cmd_offset(rest[0]) == *offset as int);
                        assert(build_rec(rest, st0, cols) == Err::<Seq<BlockModel>, ErrModel>(e@));
                        lemma_build_ok_iff(full, Style::initial_spec(), cols);
                    }
                    return Err(e);
                }
            },
            Command::Barcode { offset, symbology, payload } => {
                if payload.len() > 0 && *symbology <= 2 {
                    let copy = copy_range(payload, 0, payload.len());
                    proof {
                        assert(copy@ =~= payload@);
                    }
                    blocks.push(
                        Block::BarcodeBlock { symbology: *symbology, payload: copy },
                    );
                    proof {
                        assert(cmd_ok(rest[0]));
                        assert(blocks@.map_values(|b: Block| b@) =~= pre.push(
                            BlockModel::BarcodeBlock { symbology: *symbology, payload: payload@ },
                        ));
                        assert(pre.push(
                            BlockModel::BarcodeBlock { symbology: *symbology, payload: payload@ },
                        ) =~= pre + blocks_of_cmd(rest[0], st0, cols));
                    }
                } else {
                    let e = RenderError::at(RenderErrorKind::MalformedPayload, *offset);
                    proof {
                        assert(!cmd_ok(rest[0]));
                        assert(cmd_offset(rest[0]) == *offset as int);
                        assert(build_rec(rest, st0, cols) == Err::<Seq<BlockModel>, ErrModel>(e@));
                        lemma_build_ok_iff(full, Style::initial_spec(), cols);
                    }
                    return Err(e);
                }
            },
            Command::Unknown { .. } => {
                proof {
                    assert(blocks_of_cmd(rest[0], st0, cols) == Seq::<BlockModel>::empty());
                }
            },
        }
        i = i + 1;
        proof {
            assert(cmd_ok(rest[0]));
            assert(build_rec(rest, st0, cols) == ok_prepend(
                blocks_of_cmd(rest[0], st0, cols),
                build_rec(full.subrange(i as int, n as int), st, cols),
            ));
            lemma_ok_prepend_assoc(
                pre,
                blocks_of_cmd(rest[0], st0, cols),
                build_rec(full.subrange(i as int, n as int), st, cols),
            );
            if !(rest[0] is SetStyle) && !(rest[0] is Cut) && !(rest[0] is Unknown) {
                assert(blocks@.map_values(|b: Block| b@) == pre + blocks_of_cmd(
                    rest[0],
                    st0,
                    cols,
                ));
            } else {
                assert(pre + Seq::<BlockModel>::empty() =~= pre);
                assert(blocks@.map_values(|b: Block| b@) == pre);
            }
            assert forall|k: int| 0 <= k < blocks@.len() implies block_wf(
                #[trigger] blocks@[k]@,
                cols,
            ) by {
                assert(blocks@[k]@ == blocks@.map_values(|b: Block| b@)[k]);
                if k >= pre.len() {
                    let nb = blocks@.map_values(|b: Block| b@)[k];
                    match rest[0] {
                        CmdModel::Text { content, .. } => {
                            assert(nb == text_blocks(content, st0, cols)[k - pre.len()]);
                            lemma_wrap_line_bounds(content, eff_width(cols, st0.scale));
                        },
                        _ => {},
                    }
                }
            }
        }
    }
    proof {
        assert(full.subrange(n as int, n as int) =~= Seq::<CmdModel>::empty());
        assert(build_rec(Seq::<CmdModel>::empty(), st, cols) == Ok::<Seq<BlockModel>, ErrModel>(
            Seq::empty(),
        ));
        assert(blocks@.map_values(|b: Block| b@) + Seq::<BlockModel>::empty() =~= blocks@.map_values(
            |b: Block| b@,
        ));
        lemma_build_ok_iff(full, Style::initial_spec(), cols);
    }
    let d = Document { blocks, page_cols: cfg.page_cols };
    proof {
        assert forall|k: int| 0 <= k < d.view_blocks().len() implies block_wf(
            #[trigger] d.view_blocks()[k],
            d.page_cols as int,
        ) by {
            assert(d.view_blocks()[k] == d.blocks@[k]@);
        }
    }
    Ok(d)
}

} // verus!
