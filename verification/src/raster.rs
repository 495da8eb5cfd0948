//! The raster rendering backend.
//!
//! Paints a document onto a single-channel grayscale canvas (one byte per
//! pixel, `0xff` white, `0x00` black), 8 pixels per character cell and 16
//! pixel rows per text line at scale 1.  Blocks occupy disjoint bands of
//! rows at strictly increasing vertical offsets, in document order, so
//! the canvas is the concatenation of each block's rows and its height is
//! the sum of the blocks' heights.  Glyphs are approximated as filled
//! boxes: a margin distinguishes regular from bold, a bottom stripe
//! renders underlines, spaces stay blank.  A document taller than the
//! canvas limit is rejected as a layout overflow.

use vstd::prelude::*;

use vstd::arithmetic::div_mod::{
    lemma_fundamental_div_mod,
    lemma_mod_division_less_than_divisor,
    lemma_multiply_divide_lt,
};
use vstd::arithmetic::mul::lemma_mul_inequality;

use crate::command::{Alignment, Style};
use crate::document::{Block, BlockModel, Document, block_wf, eff_width};

verus! {

pub const WHITE: u8 = 0xff;

pub const BLACK: u8 = 0x00;

/// Pixel width of one character cell at scale 1.
pub const CELL_W: usize = 8;

/// Pixel height of one text line at scale 1.
pub const CELL_H: usize = 16;

/// The tallest canvas the raster backend produces.
pub const MAX_CANVAS_H: usize = 65535;

/// The pixel rows one block contributes to the canvas.
pub open spec fn block_height(b: BlockModel) -> int {
    match b {
        BlockModel::TextRun { style, .. } => 16 * (style.scale as int),
        BlockModel::Spacer { lines, scale } => 16 * (lines as int) * (scale as int),
        BlockModel::ImageBlock { height, .. } => height as int,
        BlockModel::BarcodeBlock { symbology, .. } => 48 + 8 * (symbology as int),
    }
}

/// The canvas height of a whole document: the sum of its blocks' heights.
pub open spec fn doc_height(blocks: Seq<BlockModel>) -> int
    decreases blocks.len(),
{
    if blocks.len() == 0 {
        0
    } else {
        block_height(blocks[0]) + doc_height(blocks.subrange(1, blocks.len() as int))
    }
}

pub proof fn lemma_doc_height_nonneg(blocks: Seq<BlockModel>)
    ensures
        doc_height(blocks) >= 0,
    decreases blocks.len(),
{
    if blocks.len() > 0 {
        lemma_doc_height_nonneg(blocks.subrange(1, blocks.len() as int));
    }
}

/// The color of pixel `(x, y)` inside a text-run block of width `w`.
pub open spec fn text_pixel(text: Seq<u8>, style: Style, w: int, x: int, y: int) -> u8 {
    let sc = style.scale as int;
    let cw = 8 * sc;
    let ch = 16 * sc;
    let tw = text.len() * cw;
    let x0 = match style.align {
        Alignment::Left => 0,
        Alignment::Center => (w - tw) / 2,
        Alignment::Right => w - tw,
    };
    if x < x0 || x >= x0 + tw {
        WHITE
    } else {
        let xr = x - x0;
        let col = xr / cw;
        let lx = xr % cw;
        if style.underline && y >= ch - sc {
            BLACK
        } else if 0 <= col < text.len() && text[col] == 0x20 {
            WHITE
        } else {
            let mx = if style.bold {
                0
            } else {
                sc
            };
            if lx >= mx && lx < cw - mx && y >= 2 * sc && y < ch - 2 * sc {
                BLACK
            } else {
                WHITE
            }
        }
    }
}

/// The color of pixel `(x, y)` inside one block on a canvas `w` wide.
pub open spec fn block_pixel(b: BlockModel, w: int, x: int, y: int) -> u8 {
    match b {
        BlockModel::TextRun { text, style } => text_pixel(text, style, w, x, y),
        BlockModel::Spacer { .. } => WHITE,
        BlockModel::ImageBlock { width, pixels, .. } => if x < width as int && y * (width as int)
            + x < pixels.len() {
            pixels[y * (width as int) + x]
        } else {
            WHITE
        },
        BlockModel::BarcodeBlock { payload, .. } => {
            let m = x / 2;
            let bi = m / 8;
            let bit = m % 8;
            if 0 <= bi < payload.len() {
                if (payload[bi] >> ((7 - bit) as u8)) & 1 == 1 {
                    BLACK
                } else {
                    WHITE
                }
            } else {
                WHITE
            }
        },
    }
}

/// One block's band of pixel rows, row-major.
pub open spec fn block_rows(b: BlockModel, w: int) -> Seq<u8> {
    Seq::new((block_height(b) * w) as nat, |i: int| block_pixel(b, w, i % w, i / w))
}

/// The whole canvas: each block's band, in document order.
pub open spec fn raster_pixels(blocks: Seq<BlockModel>, w: int) -> Seq<u8>
    decreases blocks.len(),
{
    if blocks.len() == 0 {
        Seq::empty()
    } else {
        block_rows(blocks[0], w) + raster_pixels(blocks.subrange(1, blocks.len() as int), w)
    }
}

/// The canvas holds exactly `doc_height * w` pixels.
pub proof fn lemma_raster_len(blocks: Seq<BlockModel>, w: int)
    requires
        w >= 0,
    ensures
        raster_pixels(blocks, w).len() == doc_height(blocks) * w,
    decreases blocks.len(),
{
    if blocks.len() == 0 {
        assert(doc_height(blocks) * w == 0) by (nonlinear_arith)
            requires
                doc_height(blocks) == 0,
        ;
    } else {
        let rest = blocks.subrange(1, blocks.len() as int);
        lemma_raster_len(rest, w);
        lemma_doc_height_nonneg(rest);
        assert(block_rows(blocks[0], w).len() == (block_height(blocks[0]) * w) as nat);
        assert(block_height(blocks[0]) * w >= 0) by (nonlinear_arith)
            requires
                block_height(blocks[0]) >= 0,
                w >= 0,
        ;
        assert((block_height(blocks[0]) + doc_height(rest)) * w == block_height(blocks[0]) * w
            + doc_height(rest) * w) by (nonlinear_arith);
    }
}

/// A text run that fits `eff_width` columns fits the pixel page.
proof fn lemma_text_fits(cols: int, scale: u8, tlen: int)
    requires
        1 <= scale <= 4,
        32 <= cols,
        0 <= tlen <= eff_width(cols, scale),
    ensures
        tlen * (8 * (scale as int)) <= 8 * cols,
{
    let sc = scale as int;
    lemma_fundamental_div_mod(cols, sc);
    lemma_mod_division_less_than_divisor(cols, sc);
    lemma_mul_inequality(tlen, cols / sc, sc);
    assert(tlen * sc <= (cols / sc) * sc);
    assert((cols / sc) * sc <= cols);
    assert(tlen * (8 * sc) == 8 * (tlen * sc)) by (nonlinear_arith);
}

/// The pixel height of one block.
fn block_height_px(b: &Block) -> (h: usize)
    ensures
        h as int == block_height(b@),
{
    match b {
        Block::TextRun { style, .. } => 16 * (style.scale as usize),
        Block::Spacer { lines, scale } => {
            proof {
                assert(16 * (*lines as int) * (*scale as int) <= 1040400) by (nonlinear_arith)
                    requires
                        *lines <= 255,
                        *scale <= 255,
                ;
            }
            16 * (*lines as usize) * (*scale as usize)
        },
        Block::ImageBlock { height, .. } => *height as usize,
        Block::BarcodeBlock { symbology, .. } => 48 + 8 * (*symbology as usize),
    }
}

/// The color of pixel `(x, y)` of one block's band.
fn pixel_at(b: &Block, w: usize, x: usize, y: usize) -> (p: u8)
    requires
        x < w,
        w >= 1,
        y < block_height(b@),
        match b@ {
            BlockModel::TextRun { text, style } => style.wf() && text.len() * (8 * (
            style.scale as int)) <= w,
            _ => true,
        },
    ensures
        p == block_pixel(b@, w as int, x as int, y as int),
{
    match b {
        Block::TextRun { text, style } => {
            let sc = style.scale as usize;
            let cw = 8 * sc;
            let ch = 16 * sc;
            let tlen = text.len();
            let tw = tlen * cw;
            let x0 = match style.align {
                Alignment::Left => 0,
                Alignment::Center => (w - tw) / 2,
                Alignment::Right => w - tw,
            };
            if x < x0 || x >= x0 + tw {
                WHITE
            } else {
                let xr = x - x0;
                let col = xr / cw;
                let lx = xr % cw;
                proof {
                    assert(xr < tw);
                    assert((tw as int) == (cw as int) * (tlen as int)) by (nonlinear_arith)
                        requires
                            tw == tlen * cw,
                    ;
                    lemma_multiply_divide_lt(xr as int, cw as int, tlen as int);
                }
                if style.underline && y >= ch - sc {
                    BLACK
                } else if text[col] == 0x20 {
                    WHITE
                } else {
                    let mx = if style.bold {
                        0
                    } else {
                        sc
                    };
                    if lx >= mx && lx < cw - mx && y >= 2 * sc && y < ch - 2 * sc {
                        BLACK
                    } else {
                        WHITE
                    }
                }
            }
        },
        Block::Spacer { .. } => WHITE,
        Block::ImageBlock { width, height, pixels } => {
            let wd = *width as usize;
            if x < wd {
                proof {
                    assert(y < *height as usize);
                    assert((y as int) * (wd as int) + (x as int) <= 255 * 255 + 255) by (
                    nonlinear_arith)
                        requires
                            0 <= y <= 255,
                            0 <= x < wd <= 255,
                    ;
                }
                let idx = y * wd + x;
                if idx < pixels.len() {
                    pixels[idx]
                } else {
                    WHITE
                }
            } else {
                WHITE
            }
        },
        Block::BarcodeBlock { payload, .. } => {
            let m = x / 2;
            let bi = m / 8;
            let bit = m % 8;
            proof {
                lemma_mod_division_less_than_divisor(m as int, 8);
            }
            if bi < payload.len() {
                if (payload[bi] >> ((7 - bit) as u8)) & 1 == 1 {
                    BLACK
                } else {
                    WHITE
                }
            } else {
                WHITE
            }
        },
    }
}

/// Mathematical model of a rendered raster artifact.
pub struct RasterModel {
    pub width: int,
    pub height: int,
    pub bytes: Seq<u8>,
}

/// The rendered artifact: a grayscale pixel buffer with its dimensions.
pub struct ReceiptImage {
    pub width: u32,
    pub height: u32,
    pub bytes: Vec<u8>,
}

impl View for ReceiptImage {
    type V = RasterModel;

    open spec fn view(&self) -> RasterModel {
        RasterModel {
            width: self.width as int,
            height: self.height as int,
            bytes: self.bytes@,
        }
    }
}

/// Renders a document onto a grayscale canvas.
///
/// A pure function of the document: succeeds exactly when the document's
/// height fits the canvas limit, and then returns the page width in
/// pixels, the summed height, and the canvas bytes, which are exactly
/// `raster_pixels` of the blocks — so two renderings of the same
/// document are byte-identical.
pub fn render_raster(doc: &Document) -> (r: Option<ReceiptImage>)
    requires
        doc.wf(),
    ensures
        r is Some <==> doc_height(doc.view_blocks()) <= MAX_CANVAS_H,
        match r {
            Some(img) => {
                &&& img.width as int == 8 * doc.page_cols as int
                &&& img.height as int == doc_height(doc.view_blocks())
                &&& img.bytes@ == raster_pixels(doc.view_blocks(), 8 * doc.page_cols as int)
                &&& img.bytes@.len() == (img.width as int) * (img.height as int)
            },
            None => true,
        },
{
    let ghost blocks = doc.view_blocks();
    let w = 8 * doc.page_cols;
    let n = doc.blocks.len();

    // First pass: the canvas height, bailing out once it exceeds the limit.
    let mut h: usize = 0;
    let mut i: usize = 0;
    proof {
        assert(blocks.subrange(0, n as int) =~= blocks);
    }
    while i < n
        invariant
            i <= n == doc.blocks@.len(),
            blocks == doc.view_blocks(),
            doc.wf(),
            h <= MAX_CANVAS_H,
            doc_height(blocks) == h + doc_height(blocks.subrange(i as int, n as int)),
        decreases n - i,
    {
        let ghost rest = blocks.subrange(i as int, n as int);
        proof {
            assert(rest[0] == blocks[i as int]);
            assert(blocks[i as int] == doc.blocks@[i as int]@);
            assert(rest.subrange(1, rest.len() as int) =~= blocks.subrange(i + 1, n as int));
        }
        let bh = block_height_px(&doc.blocks[i]);
        if bh > MAX_CANVAS_H - h {
            proof {
                lemma_doc_height_nonneg(blocks.subrange(i + 1, n as int));
            }
            return None;
        }
        h = h + bh;
        i = i + 1;
    }
    proof {
        assert(blocks.subrange(n as int, n as int) =~= Seq::<BlockModel>::empty());
        assert(doc_height(blocks) == h);
    }

    // Second pass: paint each block's band of rows, in document order.
    let mut bytes: Vec<u8> = Vec::new();
    let mut bi: usize = 0;
    proof {
        assert(bytes@ =~= Seq::<u8>::empty());
        assert(Seq::<u8>::empty() + raster_pixels(blocks, w as int) =~= raster_pixels(
            blocks,
            w as int,
        ));
    }
    while bi < n
        invariant
            bi <= n == doc.blocks@.len(),
            blocks == doc.view_blocks(),
            doc.wf(),
            w == 8 * doc.page_cols,
            raster_pixels(blocks, w as int) == bytes@ + raster_pixels(
                blocks.subrange(bi as int, n as int),
                w as int,
            ),
        decreases n - bi,
    {
        let ghost rest = blocks.subrange(bi as int, n as int);
        let ghost pre = bytes@;
        proof {
            assert(rest[0] == blocks[bi as int]);
            assert(blocks[bi as int] == doc.blocks@[bi as int]@);
            assert(rest.subrange(1, rest.len() as int) =~= blocks.subrange(bi + 1, n as int));
            assert(block_wf(blocks[bi as int], doc.page_cols as int));
            assert(raster_pixels(rest, w as int) == block_rows(rest[0], w as int) + raster_pixels(
                blocks.subrange(bi + 1, n as int),
                w as int,
            ));
        }
        let b = &doc.blocks[bi];
        let bh = block_height_px(b);
        proof {
            assert(bh <= 16320) by {
                match b@ {
                    BlockModel::Spacer { lines, scale } => {
                        assert(16 * (lines as int) * (scale as int) <= 16320) by (nonlinear_arith)
                            requires
                                lines <= 255,
                                1 <= scale <= 4,
                        ;
                    },
                    _ => {},
                }
            }
            assert((bh as int) * (w as int) <= 16320 * 2048) by (nonlinear_arith)
                requires
                    bh <= 16320,
                    w <= 2048,
            ;
            match b@ {
                BlockModel::TextRun { text, style } => {
                    lemma_text_fits(doc.page_cols as int, style.scale, text.len() as int);
                },
                _ => {},
            }
        }
        let total = bh * w;
        let mut idx: usize = 0;
        proof {
            assert(block_rows(rest[0], w as int).take(0) =~= Seq::<u8>::empty());
            assert(pre + Seq::<u8>::empty() =~= pre);
        }
        while idx < total
            invariant
                idx <= total,
                total == bh * w,
                bh as int == block_height(b@),
                w >= 256,
                b@ == rest[0],
                match b@ {
                    BlockModel::TextRun { text, style } => style.wf() && text.len() * (8 * (
                    style.scale as int)) <= w,
                    _ => true,
                },
                bytes@ == pre + block_rows(rest[0], w as int).take(idx as int),
            decreases total - idx,
        {
            let x = idx % w;
            let y = idx / w;
            proof {
                lemma_mod_division_less_than_divisor(idx as int, w as int);
                assert((w as int) * (bh as int) == total) by (nonlinear_arith)
                    requires
                        total == bh * w,
                ;
                lemma_multiply_divide_lt(idx as int, w as int, bh as int);
                lemma_fundamental_div_mod(idx as int, w as int);
            }
            let p = pixel_at(b, w, x, y);
            proof {
                assert(block_rows(rest[0], w as int).len() == (block_height(rest[0]) * (
                w as int)) as nat);
                assert(block_height(rest[0]) * (w as int) == total) by (nonlinear_arith)
                    requires
                        block_height(rest[0]) == bh as int,
                        total == bh * w,
                ;
                assert(block_rows(rest[0], w as int)[idx as int] == block_pixel(
                    rest[0],
                    w as int,
                    (idx as int) % (w as int),
                    (idx as int) / (w as int),
                ));
                assert(p == block_rows(rest[0], w as int)[idx as int]);
            }
            bytes.push(p);
            idx = idx + 1;
            proof {
                assert(block_rows(rest[0], w as int).take(idx as int) =~= block_rows(
                    rest[0],
                    w as int,
                ).take(idx - 1).push(block_rows(rest[0], w as int)[idx - 1]));
                assert(bytes@ =~= pre + block_rows(rest[0], w as int).take(idx as int));
            }
        }
        bi = bi + 1;
        proof {
            assert(block_rows(rest[0], w as int).take(total as int) =~= block_rows(
                rest[0],
                w as int,
            ));
            assert((pre + block_rows(rest[0], w as int)) + raster_pixels(
                blocks.subrange(bi as int, n as int),
                w as int,
            ) =~= pre + (block_rows(rest[0], w as int) + raster_pixels(
                blocks.subrange(bi as int, n as int),
                w as int,
            )));
        }
    }
    proof {
        assert(blocks.subrange(n as int, n as int) =~= Seq::<BlockModel>::empty());
        assert(bytes@ + Seq::<u8>::empty() =~= bytes@);
        lemma_raster_len(blocks, w as int);
        assert(doc_height(blocks) * (w as int) == (w as int) * (h as int)) by (nonlinear_arith)
            requires
                doc_height(blocks) == h as int,
        ;
    }
    Some(ReceiptImage { width: w as u32, height: h as u32, bytes })
}

} // verus!
