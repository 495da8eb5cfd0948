//! The wire format: typed printer commands and the decoder.
//!
//! The byte stream is a sequence of commands, each introduced by a one-byte
//! opcode.  Every byte range maps either to a recognized command or to an
//! `Unknown` command; the decoder is total and never rejects a stream.
//!
//! Opcode table:
//!   0x01 `len` `byte*len`          — print text
//!   0x02 `flags` `scale`           — set style (bit 0 bold, bit 1 underline,
//!                                    bits 2-3 alignment; scale clamped to 1..=4)
//!   0x03 `count`                   — feed `count` blank lines
//!   0x04                           — cut (ends the current receipt)
//!   0x05 `w` `h` `len` `byte*len`  — image, row-major grayscale pixels
//!   0x06 `sym` `len` `byte*len`    — barcode with symbology `sym`
//!
//! Any other opcode decodes to `Unknown` and the decoder advances one byte.
//! A command truncated by the end of the stream decodes to one `Unknown`
//! holding the bytes after the opcode, and decoding stops.

use vstd::prelude::*;

verus! {

/// Horizontal placement of a text line on the page.
#[derive(Clone, Copy, PartialEq, Eq, Structural, Debug)]
pub enum Alignment {
    Left,
    Center,
    Right,
}

/// Text attributes active while a command is interpreted.
///
/// A well-formed style keeps `scale` between 1 and 4; the decoder clamps
/// out-of-range wire values.
#[derive(Clone, Copy, PartialEq, Eq, Structural, Debug)]
pub struct Style {
    pub bold: bool,
    pub underline: bool,
    pub align: Alignment,
    pub scale: u8,
}

impl Style {
    /// Scale stays in the range the renderers are sized for.
    pub open spec fn wf(self) -> bool {
        1 <= self.scale <= 4
    }

    /// The style active at the start of every job.
    pub fn initial() -> (s: Style)
        ensures
            s == Style::initial_spec(),
    {
        Style { bold: false, underline: false, align: Alignment::Left, scale: 1 }
    }

    pub open spec fn initial_spec() -> Style {
        Style { bold: false, underline: false, align: Alignment::Left, scale: 1 }
    }
}

/// Mathematical model of one decoded command.
pub enum CmdModel {
    Text { offset: int, content: Seq<u8> },
    SetStyle { offset: int, style: Style },
    FeedLine { offset: int, count: u8 },
    Cut { offset: int },
    Image { offset: int, width: u8, height: u8, pixels: Seq<u8> },
    Barcode { offset: int, symbology: u8, payload: Seq<u8> },
    Unknown { offset: int, opcode: u8, raw: Seq<u8> },
}

/// One decoded printer command, carrying the byte offset it was decoded at.
pub enum Command {
    Text { offset: usize, content: Vec<u8> },
    SetStyle { offset: usize, style: Style },
    FeedLine { offset: usize, count: u8 },
    Cut { offset: usize },
    Image { offset: usize, width: u8, height: u8, pixels: Vec<u8> },
    Barcode { offset: usize, symbology: u8, payload: Vec<u8> },
    Unknown { offset: usize, opcode: u8, raw: Vec<u8> },
}

impl View for Command {
    type V = CmdModel;

    open spec fn view(&self) -> CmdModel {
        match *self {
            Command::Text { offset, ref content } => CmdModel::Text {
                offset: offset as int,
                content: content@,
            },
            Command::SetStyle { offset, style } => CmdModel::SetStyle {
                offset: offset as int,
                style,
            },
            Command::FeedLine { offset, count } => CmdModel::FeedLine {
                offset: offset as int,
                count,
            },
            Command::Cut { offset } => CmdModel::Cut { offset: offset as int },
            Command::Image { offset, width, height, ref pixels } => CmdModel::Image {
                offset: offset as int,
                width,
                height,
                pixels: pixels@,
            },
            Command::Barcode { offset, symbology, ref payload } => CmdModel::Barcode {
                offset: offset as int,
                symbology,
                payload: payload@,
            },
            Command::Unknown { offset, opcode, ref raw } => CmdModel::Unknown {
                offset: offset as int,
                opcode,
                raw: raw@,
            },
        }
    }
}

pub const OP_TEXT: u8 = 0x01;

pub const OP_STYLE: u8 = 0x02;

pub const OP_FEED: u8 = 0x03;

pub const OP_CUT: u8 = 0x04;

pub const OP_IMAGE: u8 = 0x05;

pub const OP_BARCODE: u8 = 0x06;

/// The style encoded by a `0x02` command's two argument bytes.
pub open spec fn style_of_bytes(flags: u8, scale: u8) -> Style {
    Style {
        bold: flags & 0x01 == 0x01,
        underline: flags & 0x02 == 0x02,
        align: if flags & 0x0c == 0x04 {
            Alignment::Center
        } else if flags & 0x0c == 0x08 {
            Alignment::Right
        } else {
            Alignment::Left
        },
        scale: if 1 <= scale && scale <= 4 {
            scale
        } else {
            1
        },
    }
}

/// How many bytes the command at the head of `s` occupies, assuming `s` is
/// non-empty and long enough for the command's declared length; decoding
/// consumes exactly this many bytes when it does not stop at a truncation.
pub open spec fn head_len(s: Seq<u8>) -> int {
    let op = s[0];
    if op == OP_TEXT {
        2 + s[1]
    } else if op == OP_STYLE {
        3
    } else if op == OP_FEED {
        2
    } else if op == OP_CUT {
        1
    } else if op == OP_IMAGE {
        4 + s[3]
    } else if op == OP_BARCODE {
        3 + s[2]
    } else {
        1
    }
}

/// Whether `s` holds the complete command its first byte introduces.
pub open spec fn head_complete(s: Seq<u8>) -> bool {
    let op = s[0];
    if op == OP_TEXT {
        s.len() >= 2 && s.len() >= 2 + s[1]
    } else if op == OP_STYLE {
        s.len() >= 3
    } else if op == OP_FEED {
        s.len() >= 2
    } else if op == OP_IMAGE {
        s.len() >= 4 && s.len() >= 4 + s[3]
    } else if op == OP_BARCODE {
        s.len() >= 3 && s.len() >= 3 + s[2]
    } else {
        true
    }
}

/// The command decoded at the head of `s`, at stream offset `off`,
/// assuming `head_complete(s)`.
pub open spec fn head_cmd(s: Seq<u8>, off: int) -> CmdModel {
    let op = s[0];
    if op == OP_TEXT {
        CmdModel::Text { offset: off, content: s.subrange(2, 2 + s[1]) }
    } else if op == OP_STYLE {
        CmdModel::SetStyle { offset: off, style: style_of_bytes(s[1], s[2]) }
    } else if op == OP_FEED {
        CmdModel::FeedLine { offset: off, count: s[1] }
    } else if op == OP_CUT {
        CmdModel::Cut { offset: off }
    } else if op == OP_IMAGE {
        CmdModel::Image {
            offset: off,
            width: s[1],
            height: s[2],
            pixels: s.subrange(4, 4 + s[3]),
        }
    } else if op == OP_BARCODE {
        CmdModel::Barcode { offset: off, symbology: s[1], payload: s.subrange(3, 3 + s[2]) }
    } else {
        CmdModel::Unknown { offset: off, opcode: op, raw: Seq::empty() }
    }
}

/// The full decoding of the byte stream `s` whose first byte sits at
/// stream offset `off`.  Total: every input decodes to some command
/// sequence.  A truncated trailing command becomes one `Unknown` holding
/// the bytes after its opcode, and decoding stops there.
pub open spec fn decode_spec(s: Seq<u8>, off: int) -> Seq<CmdModel>
    decreases s.len(),
{
    if s.len() == 0 {
        Seq::empty()
    } else if !head_complete(s) {
        seq![CmdModel::Unknown { offset: off, opcode: s[0], raw: s.subrange(1, s.len() as int) }]
    } else {
        seq![head_cmd(s, off)] + decode_spec(s.subrange(head_len(s), s.len() as int), off + head_len(s))
    }
}

/// Copies `bytes[from..to]` into a fresh vector.
pub fn copy_range(bytes: &Vec<u8>, from: usize, to: usize) -> (r: Vec<u8>)
    requires
        from <= to <= bytes@.len(),
    ensures
        r@ == bytes@.subrange(from as int, to as int),
{
    let mut r: Vec<u8> = Vec::new();
    let mut i: usize = from;
    while i < to
        invariant
            from <= i <= to <= bytes@.len(),
            r@ == bytes@.subrange(from as int, i as int),
        decreases to - i,
    {
        r.push(bytes[i]);
        i = i + 1;
        proof {
            assert(r@ =~= bytes@.subrange(from as int, i as int));
        }
    }
    r
}

/// Decodes a raw byte stream into its command sequence.
///
/// Total and deterministic: the result is exactly `decode_spec(bytes@, 0)`,
/// so every byte range maps to a recognized command or to an `Unknown`,
/// and no input is rejected.
pub fn decode(bytes: &Vec<u8>) -> (cmds: Vec<Command>)
    ensures
        cmds@.map_values(|c: Command| c@) == decode_spec(bytes@, 0),
{
    let n: usize = bytes.len();
    let mut cmds: Vec<Command> = Vec::new();
    let mut i: usize = 0;
    proof {
        assert(bytes@.subrange(0, n as int) =~= bytes@);
    }
    while i < n
        invariant
            i <= n == bytes@.len(),
            decode_spec(bytes@, 0) == cmds@.map_values(|c: Command| c@) + decode_spec(
                bytes@.subrange(i as int, n as int),
                i as int,
            ),
        decreases n - i,
    {
        let ghost rest = bytes@.subrange(i as int, n as int);
        let ghost pre = cmds@;
        let op = bytes[i];
        let cmd: Command;
        let next: usize;
        if op == OP_TEXT && n - i > 1 && n - i - 2 >= bytes[i + 1] as usize {
            let len = bytes[i + 1] as usize;
            cmd = Command::Text { offset: i, content: copy_range(bytes, i + 2, i + 2 + len) };
            next = i + 2 + len;
        } else if op == OP_STYLE && n - i > 2 {
            cmd = Command::SetStyle {
                offset: i,
                style: style_byte_pair(bytes[i + 1], bytes[i + 2]),
            };
            next = i + 3;
        } else if op == OP_FEED && n - i > 1 {
            cmd = Command::FeedLine { offset: i, count: bytes[i + 1] };
            next = i + 2;
        } else if op == OP_CUT {
            cmd = Command::Cut { offset: i };
            next = i + 1;
        } else if op == OP_IMAGE && n - i > 3 && n - i - 4 >= bytes[i + 3] as usize {
            let len = bytes[i + 3] as usize;
            cmd = Command::Image {
                offset: i,
                width: bytes[i + 1],
                height: bytes[i + 2],
                pixels: copy_range(bytes, i + 4, i + 4 + len),
            };
            next = i + 4 + len;
        } else if op == OP_BARCODE && n - i > 2 && n - i - 3 >= bytes[i + 2] as usize {
            let len = bytes[i + 2] as usize;
            cmd = Command::Barcode {
                offset: i,
                symbology: bytes[i + 1],
                payload: copy_range(bytes, i + 3, i + 3 + len),
            };
            next = i + 3 + len;
        } else if op != OP_TEXT && op != OP_STYLE && op != OP_FEED && op != OP_IMAGE && op
            != OP_BARCODE {
            cmd = Command::Unknown { offset: i, opcode: op, raw: Vec::new() };
            next = i + 1;
        } else {
            // Truncated multi-byte command at the end of the stream.
            cmd = Command::Unknown { offset: i, opcode: op, raw: copy_range(bytes, i + 1, n) };
            next = n;
        }
        proof {
            assert(rest[0] == op);
            if next < n || (next == n && head_complete(rest)) {
                assert(head_complete(rest));
                assert(head_len(rest) == next - i);
                assert(cmd@ == head_cmd(rest, i as int)) by {
                    if op == OP_TEXT {
                        assert(rest.subrange(2, 2 + rest[1]) =~= bytes@.subrange(
                            i + 2,
                            i + 2 + rest[1],
                        ));
                    } else if op == OP_IMAGE {
                        assert(rest.subrange(4, 4 + rest[3]) =~= bytes@.subrange(
                            i + 4,
                            i + 4 + rest[3],
                        ));
                    } else if op == OP_BARCODE {
                        assert(rest.subrange(3, 3 + rest[2]) =~= bytes@.subrange(
                            i + 3,
                            i + 3 + rest[2],
                        ));
                    }
                }
                assert(rest.subrange(head_len(rest), rest.len() as int) =~= bytes@.subrange(
                    next as int,
                    n as int,
                ));
                assert(decode_spec(rest, i as int) == seq![cmd@] + decode_spec(
                    bytes@.subrange(next as int, n as int),
                    next as int,
                ));
            } else {
                assert(!head_complete(rest));
                assert(rest.subrange(1, rest.len() as int) =~= bytes@.subrange(i + 1, n as int));
                assert(cmd@ == CmdModel::Unknown {
                    offset: i as int,
                    opcode: op,
                    raw: rest.subrange(1, rest.len() as int),
                });
                assert(decode_spec(rest, i as int) == seq![cmd@]);
                assert(decode_spec(bytes@.subrange(next as int, n as int), next as int)
                    =~= Seq::<CmdModel>::empty());
            }
        }
        cmds.push(cmd);
        i = next;
        proof {
            assert(cmds@.map_values(|c: Command| c@) =~= pre.map_values(|c: Command| c@)
                + seq![cmd@]);
            assert(pre.map_values(|c: Command| c@) + seq![cmd@] + decode_spec(
                bytes@.subrange(i as int, n as int),
                i as int,
            ) =~= pre.map_values(|c: Command| c@) + (seq![cmd@] + decode_spec(
                bytes@.subrange(i as int, n as int),
                i as int,
            )));
        }
    }
    proof {
        assert(bytes@.subrange(i as int, n as int) =~= Seq::<u8>::empty());
        assert(decode_spec(bytes@.subrange(i as int, n as int), i as int)
            == Seq::<CmdModel>::empty());
        assert(cmds@.map_values(|c: Command| c@) + Seq::<CmdModel>::empty() =~= cmds@.map_values(
            |c: Command| c@,
        ));
    }
    cmds
}

/// Builds the style a `0x02` command's argument bytes select.
pub fn style_byte_pair(flags: u8, scale: u8) -> (s: Style)
    ensures
        s == style_of_bytes(flags, scale),
        s.wf(),
{
    let align = if flags & 0x0c == 0x04 {
        Alignment::Center
    } else if flags & 0x0c == 0x08 {
        Alignment::Right
    } else {
        Alignment::Left
    };
    Style {
        bold: flags & 0x01 == 0x01,
        underline: flags & 0x02 == 0x02,
        align,
        scale: if 1 <= scale && scale <= 4 {
            scale
        } else {
            1
        },
    }
}

} // verus!
