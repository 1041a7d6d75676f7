//! The buffer engine: an ordered sequence of 32-bit code points, edited one
//! command at a time, and rendered or encoded on request.

use crate::cmd::{command_of, unescaped};
use crate::command_list::{CommandView, Commands, EncodingType, RawBase};
use crate::text::{chars_of, collect_string, trim};
use unicode_normalization::UnicodeNormalization;
use vstd::prelude::*;
use vstd::slice::{slice_subrange, slice_to_vec};
use vstd::utf8::encode_utf8;

verus! {

broadcast use vstd::utf8::char_u32_cast;

/// A Unicode scalar value: a code point that is not a surrogate.
pub open spec fn is_scalar_value(v: u32) -> bool {
    v <= 0x10FFFF && !(0xD800 <= v <= 0xDFFF)
}

/// Every code point of `b` is a Unicode scalar value.
pub open spec fn renderable(b: Seq<u32>) -> bool {
    forall|i: int| 0 <= i < b.len() ==> is_scalar_value(#[trigger] b[i])
}

/// The codes of the characters `cs`.
pub open spec fn codes_of(cs: Seq<char>) -> Seq<u32> {
    cs.map_values(|c: char| c as u32)
}

/// The characters whose codes are `b`.
pub open spec fn chars_of_codes(b: Seq<u32>) -> Seq<char> {
    b.map_values(|v: u32| v as char)
}

/// The four bytes of `v`, most significant first when `big_endian`.
pub open spec fn word_bytes(v: u32, big_endian: bool) -> Seq<u8> {
    if big_endian {
        seq![(v >> 24) as u8, (v >> 16) as u8, (v >> 8) as u8, v as u8]
    } else {
        seq![v as u8, (v >> 8) as u8, (v >> 16) as u8, (v >> 24) as u8]
    }
}

/// The four bytes of each code point of `b`, in order.
pub open spec fn utf32_bytes(b: Seq<u32>, big_endian: bool) -> Seq<u8>
    decreases b.len(),
{
    if b.len() == 0 {
        Seq::empty()
    } else {
        utf32_bytes(b.drop_last(), big_endian) + word_bytes(b.last(), big_endian)
    }
}

/// The bytes that hold the renderable buffer `b` in encoding `enc`.
pub open spec fn encoded(b: Seq<u32>, enc: EncodingType) -> Seq<u8> {
    match enc {
        EncodingType::UTF8 => encode_utf8(chars_of_codes(b)),
        EncodingType::UTF32 => seq![0x00u8, 0x00, 0xFE, 0xFF] + utf32_bytes(b, true),
        EncodingType::UTF32LE => seq![0xFFu8, 0xFE, 0x00, 0x00] + utf32_bytes(b, false),
    }
}

/// Normalization Form C of `s`.
pub uninterp spec fn nfc_of(s: Seq<char>) -> Seq<char>;

/// Normalization Form D of `s`.
pub uninterp spec fn nfd_of(s: Seq<char>) -> Seq<char>;

/// Relies on std's `char::from_u32`: a character exactly for the Unicode
/// scalar values, the one with that code.
#[verifier::external_body]
fn char_from_u32(v: u32) -> (r: Option<char>)
    ensures
        match r {
            Some(c) => is_scalar_value(v) && c as u32 == v,
            None => !is_scalar_value(v),
        },
{
    char::from_u32(v)
}

/// Relies on unicode_normalization's `nfc`: the characters of `cs` in
/// Normalization Form C, which depends on those characters alone.
#[verifier::external_body]
fn compose(cs: &[char]) -> (r: Vec<char>)
    ensures
        r@ == nfc_of(cs@),
{
    cs.iter().copied().nfc().collect()
}

/// Relies on unicode_normalization's `nfd`: the characters of `cs` in
/// Normalization Form D, which depends on those characters alone.
#[verifier::external_body]
fn decompose(cs: &[char]) -> (r: Vec<char>)
    ensures
        r@ == nfd_of(cs@),
{
    cs.iter().copied().nfd().collect()
}

/// The buffer as characters, or none where a code point of it is no Unicode
/// scalar value.
pub fn render_buffer(vecbuff: &Vec<u32>) -> (r: Option<Vec<char>>)
    ensures
        r is Some <==> renderable(vecbuff@),
        match r {
            Some(cs) => codes_of(cs@) == vecbuff@ && cs@ == chars_of_codes(vecbuff@),
            None => true,
        },
{
    let mut acc: Vec<char> = Vec::new();
    let mut i: usize = 0;
    while i < vecbuff.len()
        invariant
            i <= vecbuff@.len(),
            acc@.len() == i,
            forall|j: int| 0 <= j < i ==> is_scalar_value(#[trigger] vecbuff@[j]),
            forall|j: int| 0 <= j < i ==> (#[trigger] acc@[j]) as u32 == vecbuff@[j],
        decreases vecbuff@.len() - i,
    {
        match char_from_u32(vecbuff[i]) {
            Some(c) => acc.push(c),
            None => return None,
        }
        i = i + 1;
    }
    assert(codes_of(acc@) =~= vecbuff@);
    assert forall|j: int| 0 <= j < i implies acc@[j] == chars_of_codes(vecbuff@)[j] by {
        vstd::utf8::char_u32_cast(acc@[j], vecbuff@[j]);
    }
    assert(acc@ =~= chars_of_codes(vecbuff@));
    Some(acc)
}

/// The four bytes of each code point of `inp`, most significant first when
/// `big_endian`, least significant first otherwise.
pub fn bitsplitter(inp: &Vec<u32>, big_endian: bool) -> (r: Vec<u8>)
    ensures
        r@ == utf32_bytes(inp@, big_endian),
{
    let mut out: Vec<u8> = Vec::new();
    let mut i: usize = 0;
    while i < inp.len()
        invariant
            i <= inp@.len(),
            out@ == utf32_bytes(inp@.take(i as int), big_endian),
        decreases inp@.len() - i,
    {
        let val = inp[i];
        assert(inp@.take(i + 1).drop_last() =~= inp@.take(i as int));
        if big_endian {
            out.push((val >> 24) as u8);
            out.push((val >> 16) as u8);
            out.push((val >> 8) as u8);
            out.push(val as u8);
        } else {
            out.push(val as u8);
            out.push((val >> 8) as u8);
            out.push((val >> 16) as u8);
            out.push((val >> 24) as u8);
        }
        assert(out@ =~= utf32_bytes(inp@.take(i + 1), big_endian));
        i = i + 1;
    }
    assert(inp@.take(inp@.len() as int) =~= inp@);
    out
}

/// The UTF-8 bytes of `cs`.
fn utf8_bytes(cs: &[char]) -> (r: Vec<u8>)
    ensures
        r@ == encode_utf8(cs@),
{
    let s = collect_string(cs);
    slice_to_vec(s.as_str().as_bytes())
}


/// `t` put into `b` before position `pos`, or at the end where `pos` lies
/// past it.
pub open spec fn insert_at(b: Seq<u32>, pos: nat, t: Seq<u32>) -> Seq<u32> {
    let p = if pos < b.len() {
        pos as int
    } else {
        b.len() as int
    };
    b.take(p) + t + b.skip(p)
}

/// The buffer `b` once command `c` has been carried out on it.
pub open spec fn apply(b: Seq<u32>, c: CommandView) -> Seq<u32> {
    match c {
        CommandView::Erase => Seq::empty(),
        CommandView::AppendLit(v) => b.push(v),
        CommandView::AppendStr(t) => b + t,
        CommandView::InsertLit { pos, chr } => insert_at(b, pos, seq![chr]),
        CommandView::InsertStr { pos, txt } => insert_at(b, pos, txt),
        CommandView::Modify { pos, chr } => if pos < b.len() {
            b.update(pos as int, chr)
        } else {
            b
        },
        CommandView::Kill { pos } => if pos < b.len() {
            b.remove(pos as int)
        } else {
            b
        },
        CommandView::Compress => if renderable(b) {
            codes_of(nfc_of(chars_of_codes(b)))
        } else {
            b
        },
        CommandView::Decompress => if renderable(b) {
            codes_of(nfd_of(chars_of_codes(b)))
        } else {
            b
        },
        _ => b,
    }
}

/// What carrying out a command leaves for the caller to do or show.
#[derive(Debug, PartialEq, Eq)]
pub enum Outcome {
    /// The command is done; nothing is to be shown.
    Done,
    /// The session is to end.
    Quit,
    /// The usage text is to be shown.
    Help,
    /// The raw code points of the buffer, to be shown in the given base.
    Listing(RawBase, Vec<u32>),
    /// The buffer as text.
    Rendered(Vec<char>),
    /// Whether the buffer is valid Unicode.
    Validity(bool),
    /// `bytes` are to be written to `file`.
    WriteFile { file: String, bytes: Vec<u8> },
    /// The buffer is to be replaced with the text read from `file`.
    ReadFile { file: String },
    /// There is no code point at `pos` to replace: the buffer holds `len`.
    CannotModify { pos: usize, len: usize },
    /// There is no code point at `pos` to remove: the buffer holds `len`.
    CannotRemove { pos: usize, len: usize },
    /// A code point of the buffer is no Unicode scalar value.
    Unrenderable,
}

/// `r` is what carrying out `c` on buffer `b` reports.
pub open spec fn reports(b: Seq<u32>, c: CommandView, r: Outcome) -> bool {
    match c {
        CommandView::Quit => r is Quit,
        CommandView::Help => r is Help,
        CommandView::Print(base) => match r {
            Outcome::Listing(rb, v) => rb == base && v@ == b,
            _ => false,
        },
        CommandView::Render(_) => if renderable(b) {
            match r {
                Outcome::Rendered(cs) => cs@ == chars_of_codes(b),
                _ => false,
            }
        } else {
            r is Unrenderable
        },
        CommandView::Valid => r == Outcome::Validity(renderable(b)),
        CommandView::Write { enc, file } => if renderable(b) {
            match r {
                Outcome::WriteFile { file: f, bytes } => f@ == file && bytes@ == encoded(b, enc),
                _ => false,
            }
        } else {
            r is Unrenderable
        },
        CommandView::Read { file } => match r {
            Outcome::ReadFile { file: f } => f@ == file,
            _ => false,
        },
        CommandView::Compress | CommandView::Decompress => if renderable(b) {
            r is Done
        } else {
            r is Unrenderable
        },
        CommandView::Modify { pos, chr: _ } => if pos < b.len() {
            r is Done
        } else {
            match r {
                Outcome::CannotModify { pos: p, len } => p == pos && len == b.len(),
                _ => false,
            }
        },
        CommandView::Kill { pos } => if pos < b.len() {
            r is Done
        } else {
            match r {
                Outcome::CannotRemove { pos: p, len } => p == pos && len == b.len(),
                _ => false,
            }
        },
        _ => r is Done,
    }
}

/// The editor: the buffer of code points that the commands work on.
pub struct Editor {
    buffer: Vec<u32>,
}

impl View for Editor {
    type V = Seq<u32>;

    closed spec fn view(&self) -> Seq<u32> {
        self.buffer@
    }
}

impl Editor {
    /// An editor with an empty buffer.
    pub fn new() -> (r: Editor)
        ensures
            r@ == Seq::<u32>::empty(),
    {
        Editor { buffer: Vec::new() }
    }

    /// The code points of the buffer.
    pub fn codes(&self) -> (r: &Vec<u32>)
        ensures
            r@ == self@,
    {
        &self.buffer
    }

    /// Replaces the buffer with the codes of the characters of `text`.
    pub fn load(&mut self, text: &str)
        ensures
            final(self)@ == codes_of(text@),
    {
        let cs = chars_of(text);
        self.load_chars(&cs);
    }

    /// Replaces the buffer with the codes of `cs`.
    pub fn load_chars(&mut self, cs: &Vec<char>)
        ensures
            final(self)@ == codes_of(cs@),
    {
        let mut out: Vec<u32> = Vec::new();
        let mut i: usize = 0;
        while i < cs.len()
            invariant
                i <= cs@.len(),
                out@ == codes_of(cs@.take(i as int)),
            decreases cs@.len() - i,
        {
            out.push(cs[i] as u32);
            i = i + 1;
            assert(out@ =~= codes_of(cs@.take(i as int)));
        }
        assert(cs@.take(cs@.len() as int) =~= cs@);
        self.buffer = out;
    }

    /// Empties the buffer.
    pub fn erase(&mut self)
        ensures
            final(self)@ == Seq::<u32>::empty(),
    {
        self.buffer.clear();
    }

    /// Appends one code point.
    pub fn append_lit(&mut self, chr: u32)
        ensures
            final(self)@ == old(self)@.push(chr),
    {
        self.buffer.push(chr);
    }

    /// Appends code points.
    pub fn append_str(&mut self, txt: &Vec<u32>)
        ensures
            final(self)@ == old(self)@ + txt@,
    {
        self.buffer.extend_from_slice(txt.as_slice());
    }

    /// Inserts one code point before `pos`, or at the end where `pos` lies
    /// past it.
    pub fn insert_lit(&mut self, pos: usize, chr: u32)
        ensures
            final(self)@ == insert_at(old(self)@, pos as nat, seq![chr]),
    {
        let ghost b = self.buffer@;
        if pos > self.buffer.len() {
            self.buffer.push(chr);
            assert(self.buffer@ =~= insert_at(b, pos as nat, seq![chr]));
        } else {
            self.buffer.insert(pos, chr);
            assert(self.buffer@ =~= insert_at(b, pos as nat, seq![chr]));
        }
    }

    /// Inserts code points before `pos`, or at the end where `pos` lies past it.
    pub fn insert_str(&mut self, pos: usize, txt: &Vec<u32>)
        ensures
            final(self)@ == insert_at(old(self)@, pos as nat, txt@),
    {
        let n = self.buffer.len();
        let p = if pos > n {
            n
        } else {
            pos
        };
        let mut midbuffer: Vec<u32> = Vec::new();
        midbuffer.extend_from_slice(slice_subrange(self.buffer.as_slice(), 0, p));
        midbuffer.extend_from_slice(txt.as_slice());
        midbuffer.extend_from_slice(slice_subrange(self.buffer.as_slice(), p, n));
        assert(midbuffer@ =~= insert_at(self.buffer@, pos as nat, txt@));
        self.buffer = midbuffer;
    }

    /// Replaces the code point at `pos`; where there is none, leaves the
    /// buffer as it is and reports its length.
    pub fn modify(&mut self, pos: usize, chr: u32) -> (r: Result<(), usize>)
        ensures
            pos < old(self)@.len() ==> r is Ok && final(self)@ == old(self)@.update(pos as int, chr),
            pos >= old(self)@.len() ==> r == Err::<(), usize>(old(self)@.len() as usize)
                && final(self)@ == old(self)@,
    {
        if pos >= self.buffer.len() {
            Err(self.buffer.len())
        } else {
            self.buffer[pos] = chr;
            Ok(())
        }
    }

    /// Removes the code point at `pos`; where there is none, leaves the
    /// buffer as it is and reports its length.
    pub fn kill(&mut self, pos: usize) -> (r: Result<(), usize>)
        ensures
            pos < old(self)@.len() ==> r is Ok && final(self)@ == old(self)@.remove(pos as int),
            pos >= old(self)@.len() ==> r == Err::<(), usize>(old(self)@.len() as usize)
                && final(self)@ == old(self)@,
    {
        if pos >= self.buffer.len() {
            Err(self.buffer.len())
        } else {
            self.buffer.remove(pos);
            Ok(())
        }
    }

    /// Whether every code point of the buffer is a Unicode scalar value.
    pub fn valid(&self) -> (r: bool)
        ensures
            r == renderable(self@),
    {
        render_buffer(&self.buffer).is_some()
    }

    /// Brings the buffer to Normalization Form C; fails, and leaves the
    /// buffer as it is, where it is not valid Unicode.
    pub fn compress(&mut self) -> (r: bool)
        ensures
            r == renderable(old(self)@),
            final(self)@ == apply(old(self)@, CommandView::Compress),
    {
        match render_buffer(&self.buffer) {
            Some(cs) => {
                let n = compose(cs.as_slice());
                self.load_chars(&n);
                true
            },
            None => false,
        }
    }

    /// Brings the buffer to Normalization Form D; fails, and leaves the
    /// buffer as it is, where it is not valid Unicode.
    pub fn decompress(&mut self) -> (r: bool)
        ensures
            r == renderable(old(self)@),
            final(self)@ == apply(old(self)@, CommandView::Decompress),
    {
        match render_buffer(&self.buffer) {
            Some(cs) => {
                let n = decompose(cs.as_slice());
                self.load_chars(&n);
                true
            },
            None => false,
        }
    }

    /// The bytes of the buffer in encoding `enc`, UTF-32 behind its
    /// byte-order mark; none where the buffer is not valid Unicode.
    pub fn encode(&self, enc: EncodingType) -> (r: Option<Vec<u8>>)
        ensures
            r is Some <==> renderable(self@),
            match r {
                Some(bytes) => bytes@ == encoded(self@, enc),
                None => true,
            },
    {
        let cs = match render_buffer(&self.buffer) {
            Some(cs) => cs,
            None => return None,
        };
        match enc {
            EncodingType::UTF8 => Some(utf8_bytes(cs.as_slice())),
            EncodingType::UTF32 => {
                let mut comb: Vec<u8> = Vec::new();
                comb.push(0x00);
                comb.push(0x00);
                comb.push(0xFE);
                comb.push(0xFF);
                let splitted = bitsplitter(&self.buffer, true);
                comb.extend_from_slice(splitted.as_slice());
                assert(comb@ =~= encoded(self@, enc));
                Some(comb)
            },
            EncodingType::UTF32LE => {
                let mut comb: Vec<u8> = Vec::new();
                comb.push(0xFF);
                comb.push(0xFE);
                comb.push(0x00);
                comb.push(0x00);
                let splitted = bitsplitter(&self.buffer, false);
                comb.extend_from_slice(splitted.as_slice());
                assert(comb@ =~= encoded(self@, enc));
                Some(comb)
            },
        }
    }

    /// Carries out `cmd` on the buffer and says what is left for the caller
    /// to show or do.
    pub fn execute(&mut self, cmd: Commands) -> (r: Outcome)
        ensures
            final(self)@ == apply(old(self)@, cmd@),
            reports(old(self)@, cmd@, r),
    {
        match cmd {
            Commands::Quit => Outcome::Quit,
            Commands::Help => Outcome::Help,
            Commands::Erase => {
                self.erase();
                Outcome::Done
            },
            Commands::AppendLit(v) => {
                self.append_lit(v);
                Outcome::Done
            },
            Commands::AppendStr(t) => {
                self.append_str(&t);
                Outcome::Done
            },
            Commands::InsertLit { pos, chr } => {
                self.insert_lit(pos, chr);
                Outcome::Done
            },
            Commands::InsertStr { pos, txt } => {
                self.insert_str(pos, &txt);
                Outcome::Done
            },
            Commands::Modify { pos, chr } => match self.modify(pos, chr) {
                Ok(()) => Outcome::Done,
                Err(len) => Outcome::CannotModify { pos, len },
            },
            Commands::Kill { pos } => match self.kill(pos) {
                Ok(()) => Outcome::Done,
                Err(len) => Outcome::CannotRemove { pos, len },
            },
            Commands::Print(base) => Outcome::Listing(base, slice_to_vec(self.buffer.as_slice())),
            Commands::Render(_) => match render_buffer(&self.buffer) {
                Some(cs) => Outcome::Rendered(cs),
                None => Outcome::Unrenderable,
            },
            Commands::Valid => Outcome::Validity(self.valid()),
            Commands::Write { enc, file } => match self.encode(enc) {
                Some(bytes) => Outcome::WriteFile { file, bytes },
                None => Outcome::Unrenderable,
            },
            Commands::Read { file } => Outcome::ReadFile { file },
            Commands::Compress => if self.compress() {
                Outcome::Done
            } else {
                Outcome::Unrenderable
            },
            Commands::Decompress => if self.decompress() {
                Outcome::Done
            } else {
                Outcome::Unrenderable
            },
        }
    }
}


/// The buffer `b` once command `c` has been carried out on it `n` times.
pub open spec fn apply_repeated(b: Seq<u32>, c: CommandView, n: nat) -> Seq<u32>
    decreases n,
{
    if n == 0 {
        b
    } else {
        apply(apply_repeated(b, c, (n - 1) as nat), c)
    }
}

/// Text without backslashes stands for the codes of its characters.
pub proof fn lemma_plain_text_codes(t: Seq<char>)
    requires
        forall|i: int| 0 <= i < t.len() ==> t[i] != '\\',
    ensures
        unescaped(t) == Some(codes_of(t)),
    decreases t.len(),
{
    if t.len() > 0 {
        lemma_plain_text_codes(t.drop_first());
        assert(seq![t[0] as u32] + codes_of(t.drop_first()) =~= codes_of(t));
    } else {
        assert(codes_of(t) =~= Seq::<u32>::empty());
    }
}

/// A line of raw text appended to buffer `b` and then printed in decimal
/// lists `b` followed by the text's code points, escapes applied; where the
/// text holds no backslash, those are the codes of its characters.
pub proof fn lemma_append_then_print(b: Seq<u32>, line: Seq<char>)
    requires
        !(trim(line).len() > 0 && trim(line)[0] == '.'),
        unescaped(trim(line)) is Some,
    ensures
        command_of(line) == Some(CommandView::AppendStr(unescaped(trim(line))->0)),
        forall|r: Outcome|
            reports(
                apply(b, CommandView::AppendStr(unescaped(trim(line))->0)),
                CommandView::Print(RawBase::Dec),
                r,
            ) ==> match r {
                Outcome::Listing(base, v) => base == RawBase::Dec && v@ == b + unescaped(
                    trim(line),
                )->0,
                _ => false,
            },
        (forall|i: int| 0 <= i < trim(line).len() ==> trim(line)[i] != '\\') ==> unescaped(
            trim(line),
        )->0 == codes_of(trim(line)),
{
    if forall|i: int| 0 <= i < trim(line).len() ==> trim(line)[i] != '\\' {
        lemma_plain_text_codes(trim(line));
    }
}

/// Inserting at or past the end of the buffer is appending.
pub proof fn lemma_insert_past_end(b: Seq<u32>, pos: nat, chr: u32, txt: Seq<u32>)
    requires
        pos >= b.len(),
    ensures
        apply(b, CommandView::InsertLit { pos, chr }) == apply(b, CommandView::AppendLit(chr)),
        apply(b, CommandView::InsertLit { pos, chr }) == b.push(chr),
        apply(b, CommandView::InsertStr { pos, txt }) == apply(b, CommandView::AppendStr(txt)),
{
    assert(b.take(b.len() as int) =~= b);
    assert(b.skip(b.len() as int) =~= Seq::<u32>::empty());
    assert(insert_at(b, pos, seq![chr]) =~= b.push(chr));
    assert(insert_at(b, pos, txt) =~= b + txt);
}

/// Removing or replacing at or past the end of the buffer leaves it as it
/// is, however often it is repeated.
pub proof fn lemma_out_of_range_unchanged(b: Seq<u32>, pos: nat, chr: u32, n: nat)
    requires
        pos >= b.len(),
    ensures
        apply_repeated(b, CommandView::Kill { pos }, n) == b,
        apply_repeated(b, CommandView::Modify { pos, chr }, n) == b,
    decreases n,
{
    if n > 0 {
        lemma_out_of_range_unchanged(b, pos, chr, (n - 1) as nat);
    }
}

/// A buffer into which an unpaired surrogate has been inserted, at any
/// position, is not valid Unicode: `Valid` reports it invalid.
pub proof fn lemma_surrogate_invalid(b: Seq<u32>, pos: nat)
    ensures
        !renderable(apply(b, CommandView::InsertLit { pos, chr: 0xD800 })),
        forall|r: Outcome|
            reports(apply(b, CommandView::InsertLit { pos, chr: 0xD800 }), CommandView::Valid, r)
                ==> r == Outcome::Validity(false),
{
    let p = if pos < b.len() {
        pos as int
    } else {
        b.len() as int
    };
    let a = apply(b, CommandView::InsertLit { pos, chr: 0xD800 });
    assert(a[p] == 0xD800u32);
}

} // verus!
