//! The commands of the editor, and the mathematical view of each.

use vstd::prelude::*;

verus! {

/// How the buffer is encoded when it is written or rendered.
#[derive(Debug, Clone, Copy, PartialEq, Eq, Structural)]
pub enum EncodingType {
    /// UTF-8, without a byte-order mark.
    UTF8,
    /// UTF-32, big endian, behind the mark `00 00 FE FF`.
    UTF32,
    /// UTF-32, little endian, behind the mark `FF FE 00 00`.
    UTF32LE,
}

/// The base in which the raw code points of the buffer are printed.
#[derive(Debug, Clone, Copy, PartialEq, Eq, Structural)]
pub enum RawBase {
    /// Decimal.
    Dec,
    /// Hexadecimal.
    Hex,
}

/// A command entered by the user, with everything needed to carry it out.
///
/// Positions are offsets into the buffer as it stands when the command is
/// carried out.
#[derive(Debug, PartialEq, Eq)]
pub enum Commands {
    /// `.q`: end the session.
    Quit,
    /// `.w <file>`, `.w32 <file>`, `.w32le <file>`: write the buffer,
    /// encoded, to `file`, which is taken as written.
    Write { enc: EncodingType, file: String },
    /// Replace the buffer with the code points read from `file`.
    Read { file: String },
    /// `.h`, `.?`: show the usage text.
    Help,
    /// `.c`: bring the buffer to Normalization Form C.
    Compress,
    /// `.d`: bring the buffer to Normalization Form D.
    Decompress,
    /// `.<decimal>`: append one code point.
    AppendLit(u32),
    /// A line that does not start with `.`: append its code points, with the
    /// escapes `\ `, `\n`, `\t`, `\\` and `\.` applied.
    AppendStr(Vec<u32>),
    /// `.i<pos> .<decimal>`: insert one code point at `pos`.
    InsertLit { pos: usize, chr: u32 },
    /// `.i<pos> <text>`: insert the code points of `text`, escapes applied, at `pos`.
    InsertStr { pos: usize, txt: Vec<u32> },
    /// `.m<pos> <decimal>`: replace the code point at `pos`.
    Modify { pos: usize, chr: u32 },
    /// `.k <pos>`: remove the code point at `pos`.
    Kill { pos: usize },
    /// `.p`, `.px`: print the raw code points in decimal or hexadecimal.
    Print(RawBase),
    /// `.e`: empty the buffer.
    Erase,
    /// `.r`, `.r32`, `.r32le`: show the buffer as text.
    Render(EncodingType),
    /// `.v`: tell whether every code point of the buffer is a Unicode scalar value.
    Valid,
}

/// The mathematical view of a command: its strings and lists as sequences.
pub enum CommandView {
    Quit,
    Write { enc: EncodingType, file: Seq<char> },
    Read { file: Seq<char> },
    Help,
    Compress,
    Decompress,
    AppendLit(u32),
    AppendStr(Seq<u32>),
    InsertLit { pos: nat, chr: u32 },
    InsertStr { pos: nat, txt: Seq<u32> },
    Modify { pos: nat, chr: u32 },
    Kill { pos: nat },
    Print(RawBase),
    Erase,
    Render(EncodingType),
    Valid,
}

impl View for Commands {
    type V = CommandView;

    open spec fn view(&self) -> CommandView {
        match self {
            Commands::Quit => CommandView::Quit,
            Commands::Write { enc, file } => CommandView::Write { enc: *enc, file: file@ },
            Commands::Read { file } => CommandView::Read { file: file@ },
            Commands::Help => CommandView::Help,
            Commands::Compress => CommandView::Compress,
            Commands::Decompress => CommandView::Decompress,
            Commands::AppendLit(v) => CommandView::AppendLit(*v),
            Commands::AppendStr(t) => CommandView::AppendStr(t@),
            Commands::InsertLit { pos, chr } => CommandView::InsertLit { pos: *pos as nat, chr: *chr },
            Commands::InsertStr { pos, txt } => CommandView::InsertStr { pos: *pos as nat, txt: txt@ },
            Commands::Modify { pos, chr } => CommandView::Modify { pos: *pos as nat, chr: *chr },
            Commands::Kill { pos } => CommandView::Kill { pos: *pos as nat },
            Commands::Print(b) => CommandView::Print(*b),
            Commands::Erase => CommandView::Erase,
            Commands::Render(e) => CommandView::Render(*e),
            Commands::Valid => CommandView::Valid,
        }
    }
}

/// The view of a command that may be absent.
pub open spec fn view_of(c: Option<Commands>) -> Option<CommandView> {
    match c {
        Some(c) => Some(c@),
        None => None,
    }
}

} // verus!
