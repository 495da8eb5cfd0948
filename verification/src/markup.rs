//! The markup rendering backend.
//!
//! Walks a document's blocks in order and emits a textual representation:
//! the whole document inside a `<receipt>` element, each text line as a
//! `<line>` element whose attributes are its snapshotted style, feeds,
//! images and barcodes as `<feed>`, `<image>` and `<barcode>` elements.
//! Text content is escaped so it cannot break the markup syntax, and
//! bytes outside printable ASCII become `?`.

use vstd::prelude::*;
use vstd::string::*;

use crate::command::Alignment;
use crate::document::{Block, BlockModel, Document};

verus! {

/// The digit character for `d` in `0..=9`.
pub open spec fn digit_char(d: int) -> char {
    if d == 0 {
        '0'
    } else if d == 1 {
        '1'
    } else if d == 2 {
        '2'
    } else if d == 3 {
        '3'
    } else if d == 4 {
        '4'
    } else if d == 5 {
        '5'
    } else if d == 6 {
        '6'
    } else if d == 7 {
        '7'
    } else if d == 8 {
        '8'
    } else {
        '9'
    }
}

/// The decimal numeral of a non-negative number, most significant digit
/// first.
pub open spec fn dec_spec(n: int) -> Seq<char>
    decreases n,
{
    if n < 0 {
        Seq::empty()
    } else if n < 10 {
        seq![digit_char(n)]
    } else {
        dec_spec(n / 10).push(digit_char(n % 10))
    }
}

/// One decimal digit as a string.
fn digit_str(d: u8) -> (s: String)
    requires
        d < 10,
    ensures
        s@ == seq![digit_char(d as int)],
{
    let s = match d {
        0 => String::from_str("0"),
        1 => String::from_str("1"),
        2 => String::from_str("2"),
        3 => String::from_str("3"),
        4 => String::from_str("4"),
        5 => String::from_str("5"),
        6 => String::from_str("6"),
        7 => String::from_str("7"),
        8 => String::from_str("8"),
        _ => String::from_str("9"),
    };
    proof {
        reveal_strlit("0");
        reveal_strlit("1");
        reveal_strlit("2");
        reveal_strlit("3");
        reveal_strlit("4");
        reveal_strlit("5");
        reveal_strlit("6");
        reveal_strlit("7");
        reveal_strlit("8");
        reveal_strlit("9");
        assert(s@ =~= seq![digit_char(d as int)]);
    }
    s
}

/// Renders `n` in decimal.
pub fn dec_u64(n: u64) -> (s: String)
    ensures
        s@ == dec_spec(n as int),
    decreases n,
{
    if n < 10 {
        digit_str(n as u8)
    } else {
        let mut s = dec_u64(n / 10);
        let d = digit_str((n % 10) as u8);
        s.append(d.as_str());
        proof {
            assert(s@ =~= dec_spec(n as int / 10).push(digit_char(n as int % 10)));
        }
        s
    }
}

/// Relies on String::push: appends exactly one character.
#[verifier::external_body]
fn push_char(s: &mut String, c: char)
    ensures
        final(s)@ == old(s)@.push(c),
{
    s.push(c)
}

/// The escaping of one content byte: markup metacharacters become
/// entities, printable ASCII stands as itself, everything else is `?`.
pub open spec fn esc_byte(b: u8) -> Seq<char> {
    if b == 0x26 {
        "&amp;"@
    } else if b == 0x3c {
        "&lt;"@
    } else if b == 0x3e {
        "&gt;"@
    } else if 0x20 <= b <= 0x7e {
        seq![b as char]
    } else {
        "?"@
    }
}

/// The escaping of a whole content run.
pub open spec fn escape_spec(bytes: Seq<u8>) -> Seq<char>
    decreases bytes.len(),
{
    if bytes.len() == 0 {
        Seq::empty()
    } else {
        esc_byte(bytes[0]) + escape_spec(bytes.subrange(1, bytes.len() as int))
    }
}

/// Appends the escaped form of `bytes` to `out`.
fn escape_into(out: &mut String, bytes: &Vec<u8>)
    ensures
        final(out)@ == old(out)@.add(escape_spec(bytes@)),
{
    let ghost base = old(out)@;
    let n = bytes.len();
    let mut i: usize = 0;
    proof {
        assert(bytes@.subrange(0, n as int) =~= bytes@);
        assert(base + Seq::<char>::empty() =~= base);
    }
    while i < n
        invariant
            i <= n == bytes@.len(),
            base + escape_spec(bytes@) == out@ + escape_spec(bytes@.subrange(i as int, n as int)),
        decreases n - i,
    {
        let ghost rest = bytes@.subrange(i as int, n as int);
        let ghost pre = out@;
        let b = bytes[i];
        proof {
            assert(rest[0] == b);
            assert(rest.subrange(1, rest.len() as int) =~= bytes@.subrange(i + 1, n as int));
            assert(escape_spec(rest) == esc_byte(b) + escape_spec(
                bytes@.subrange(i + 1, n as int),
            ));
        }
        if b == 0x26 {
            out.append("&amp;");
        } else if b == 0x3c {
            out.append("&lt;");
        } else if b == 0x3e {
            out.append("&gt;");
        } else if 0x20 <= b && b <= 0x7e {
            push_char(out, b as char);
            proof {
                assert(pre.push(b as char) =~= pre + seq![b as char]);
            }
        } else {
            out.append("?");
        }
        i = i + 1;
        proof {
            assert((pre + esc_byte(b)) + escape_spec(bytes@.subrange(i as int, n as int))
                =~= pre + (esc_byte(b) + escape_spec(bytes@.subrange(i as int, n as int))));
        }
    }
    proof {
        assert(bytes@.subrange(n as int, n as int) =~= Seq::<u8>::empty());
        assert(out@ + Seq::<char>::empty() =~= out@);
    }
}

/// The markup of a text line's alignment attribute.
pub open spec fn align_markup(a: Alignment) -> Seq<char> {
    match a {
        Alignment::Left => Seq::empty(),
        Alignment::Center => " center"@,
        Alignment::Right => " right"@,
    }
}

/// The markup one block emits.
pub open spec fn block_markup(b: BlockModel) -> Seq<char> {
    match b {
        BlockModel::TextRun { text, style } => "<line"@ + (if style.bold {
            " bold"@
        } else {
            Seq::empty()
        }) + (if style.underline {
            " underline"@
        } else {
            Seq::empty()
        }) + align_markup(style.align) + (if style.scale != 1 {
            " x"@ + dec_spec(style.scale as int)
        } else {
            Seq::empty()
        }) + ">"@ + escape_spec(text) + "</line>\n"@,
        BlockModel::Spacer { lines, .. } => "<feed n="@ + dec_spec(lines as int) + "/>\n"@,
        BlockModel::ImageBlock { width, height, .. } => "<image w="@ + dec_spec(width as int)
            + " h="@ + dec_spec(height as int) + "/>\n"@,
        BlockModel::BarcodeBlock { symbology, payload } => "<barcode sym="@ + dec_spec(
            symbology as int,
        ) + ">"@ + escape_spec(payload) + "</barcode>\n"@,
    }
}

/// The markup of a block sequence, in document order.
pub open spec fn blocks_markup(blocks: Seq<BlockModel>) -> Seq<char>
    decreases blocks.len(),
{
    if blocks.len() == 0 {
        Seq::empty()
    } else {
        block_markup(blocks[0]) + blocks_markup(blocks.subrange(1, blocks.len() as int))
    }
}

/// The markup of a whole document.
pub open spec fn markup_spec(blocks: Seq<BlockModel>) -> Seq<char> {
    "<receipt>\n"@ + blocks_markup(blocks) + "</receipt>"@
}

/// Appends one block's markup to `out`.
#[verifier::rlimit(60)]
fn append_block(out: &mut String, b: &Block)
    ensures
        final(out)@ == old(out)@.add(block_markup(b@)),
{
    match b {
        Block::TextRun { text, style } => {
            let ghost pre = out@;
            out.append("<line");
            if style.bold {
                out.append(" bold");
            }
            if style.underline {
                out.append(" underline");
            }
            match style.align {
                Alignment::Left => {},
                Alignment::Center => out.append(" center"),
                Alignment::Right => out.append(" right"),
            }
            if style.scale != 1 {
                out.append(" x");
                let d = dec_u64(style.scale as u64);
                out.append(d.as_str());
            }
            out.append(">");
            escape_into(out, text);
            out.append("</line>\n");
            proof {
                assert(out@ =~= pre + block_markup(b@));
            }
        },
        Block::Spacer { lines, .. } => {
            let ghost pre = out@;
            out.append("<feed n=");
            let d = dec_u64(*lines as u64);
            out.append(d.as_str());
            out.append("/>\n");
            proof {
                assert(out@ =~= pre + block_markup(b@));
            }
        },
        Block::ImageBlock { width, height, .. } => {
            let ghost pre = out@;
            out.append("<image w=");
            let dw = dec_u64(*width as u64);
            out.append(dw.as_str());
            out.append(" h=");
            let dh = dec_u64(*height as u64);
            out.append(dh.as_str());
            out.append("/>\n");
            proof {
                assert(out@ =~= pre + block_markup(b@));
            }
        },
        Block::BarcodeBlock { symbology, payload } => {
            let ghost pre = out@;
            out.append("<barcode sym=");
            let d = dec_u64(*symbology as u64);
            out.append(d.as_str());
            out.append(">");
            escape_into(out, payload);
            out.append("</barcode>\n");
            proof {
                assert(out@ =~= pre + block_markup(b@));
            }
        },
    }
}

/// The markup artifact for one job.
pub struct ReceiptHtml {
    pub content: String,
}

/// Renders a document to its markup string.
///
/// A pure function of the document: the result is exactly `markup_spec`
/// of its blocks, for every document, so rendering never fails and two
/// renderings of the same document are identical.
pub fn render_markup(doc: &Document) -> (s: String)
    ensures
        s@ == markup_spec(doc.view_blocks()),
{
    let ghost blocks = doc.view_blocks();
    let mut s = String::new();
    s.append("<receipt>\n");
    let n = doc.blocks.len();
    let mut i: usize = 0;
    proof {
        assert(blocks.subrange(0, n as int) =~= blocks);
        assert(Seq::<char>::empty() + "<receipt>\n"@ =~= "<receipt>\n"@);
        assert(s@ + blocks_markup(blocks) =~= "<receipt>\n"@ + blocks_markup(blocks));
    }
    while i < n
        invariant
            i <= n == doc.blocks@.len(),
            blocks == doc.view_blocks(),
            "<receipt>\n"@ + blocks_markup(blocks) == s@ + blocks_markup(
                blocks.subrange(i as int, n as int),
            ),
        decreases n - i,
    {
        let ghost rest = blocks.subrange(i as int, n as int);
        let ghost pre = s@;
        proof {
            assert(rest[0] == blocks[i as int]);
            assert(blocks[i as int] == doc.blocks@[i as int]@);
            assert(rest.subrange(1, rest.len() as int) =~= blocks.subrange(i + 1, n as int));
            assert(blocks_markup(rest) == block_markup(rest[0]) + blocks_markup(
                blocks.subrange(i + 1, n as int),
            ));
        }
        append_block(&mut s, &doc.blocks[i]);
        i = i + 1;
        proof {
            assert((pre + block_markup(rest[0])) + blocks_markup(
                blocks.subrange(i as int, n as int),
            ) =~= pre + (block_markup(rest[0]) + blocks_markup(
                blocks.subrange(i as int, n as int),
            )));
        }
    }
    proof {
        assert(blocks.subrange(n as int, n as int) =~= Seq::<BlockModel>::empty());
        assert(s@ + Seq::<char>::empty() =~= s@);
    }
    s.append("</receipt>");
    s
}

} // verus!
