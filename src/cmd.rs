//! The command parser: from one line of input to one command, or none.
//!
//! A line is trimmed of white space. A line that then starts with `.` is a
//! dot-command, whose first character (up to case) selects the
//! grammar of the rest; any other line is raw text to append.

use crate::command_list::{CommandView, Commands, EncodingType, RawBase, view_of};
use crate::text::{
    all_digits, chars_of, collect_string, decimal_value, digit_of, digits_value, is_white_space, lowercase,
    parse_unsigned, to_lowercase, starts_with_ignoring_case, trim, trim_bounds, trim_end,
    trim_start, unsigned_digits, unsigned_value,
};
use crate::validator::{final_check, string_exact_check};
use vstd::prelude::*;
use vstd::slice::slice_subrange;

verus! {

/// The code point that `\c` stands for in raw text, if `\c` is an escape.
pub open spec fn escape_code(c: char) -> Option<u32> {
    if c == ' ' {
        Some(0x20)
    } else if c == 'n' {
        Some(0x0A)
    } else if c == 't' {
        Some(0x09)
    } else if c == '\\' {
        Some(0x5C)
    } else if c == '.' {
        Some(0x2E)
    } else {
        None
    }
}

/// The code points of raw text `s` with its escapes applied; none if a
/// backslash is followed by anything but an escape, or by nothing.
pub open spec fn unescaped(s: Seq<char>) -> Option<Seq<u32>>
    decreases s.len(),
{
    if s.len() == 0 {
        Some(Seq::empty())
    } else if s[0] == '\\' {
        if s.len() < 2 {
            None
        } else {
            match (escape_code(s[1]), unescaped(s.subrange(2, s.len() as int))) {
                (Some(v), Some(r)) => Some(seq![v] + r),
                _ => None,
            }
        }
    } else {
        match unescaped(s.drop_first()) {
            Some(r) => Some(seq![s[0] as u32] + r),
            None => None,
        }
    }
}

/// The sequence held by a list that may be absent.
pub open spec fn seq_of(v: Option<Vec<u32>>) -> Option<Seq<u32>> {
    match v {
        Some(v) => Some(v@),
        None => None,
    }
}

/// The value of a position token: after at most one leading `0`, an `x`
/// introduces hexadecimal digits; otherwise the whole token is decimal.
pub open spec fn position_value(s: Seq<char>) -> Option<u32> {
    let t = if s.len() > 0 && s[0] == '0' {
        s.drop_first()
    } else {
        s
    };
    if t.len() > 0 && t[0] == 'x' {
        unsigned_value(t.drop_first(), 16)
    } else {
        decimal_value(s)
    }
}

/// Applies the escapes of raw text to `inp`.
pub fn parse_raw_escapement(inp: &[char]) -> (r: Option<Vec<u32>>)
    ensures
        seq_of(r) == unescaped(inp@),
{
    let n = inp.len();
    let mut out: Vec<u32> = Vec::new();
    let mut i: usize = 0;
    assert(inp@.subrange(0, n as int) =~= inp@);
    while i < n
        invariant
            i <= n == inp@.len(),
            unescaped(inp@) == (match unescaped(inp@.subrange(i as int, n as int)) {
                Some(r) => Some(out@ + r),
                None => None,
            }),
        decreases n - i,
    {
        let ghost rest = inp@.subrange(i as int, n as int);
        let c = inp[i];
        if c == '\\' {
            if i + 1 >= n {
                return None;
            }
            let e = inp[i + 1];
            let code: u32 = if e == ' ' {
                0x20
            } else if e == 'n' {
                0x0A
            } else if e == 't' {
                0x09
            } else if e == '\\' {
                0x5C
            } else if e == '.' {
                0x2E
            } else {
                return None;
            };
            assert(rest.subrange(2, rest.len() as int) =~= inp@.subrange(i + 2, n as int));
            proof {
                match unescaped(inp@.subrange(i + 2, n as int)) {
                    Some(r) => assert(out@ + (seq![code] + r) =~= out@.push(code) + r),
                    None => {},
                }
            }
            out.push(code);
            i = i + 2;
        } else {
            assert(rest.drop_first() =~= inp@.subrange(i + 1, n as int));
            proof {
                match unescaped(inp@.subrange(i + 1, n as int)) {
                    Some(r) => assert(out@ + (seq![c as u32] + r) =~= out@.push(c as u32) + r),
                    None => {},
                }
            }
            out.push(c as u32);
            i = i + 1;
        }
    }
    assert(out@ + Seq::<u32>::empty() =~= out@);
    Some(out)
}

/// Reads a position token.
pub fn parse_number_value(inp: &[char]) -> (r: Option<u32>)
    ensures
        r == position_value(inp@),
{
    let n = inp.len();
    let start: usize = if n > 0 && inp[0] == '0' {
        1
    } else {
        0
    };
    if start < n && inp[start] == 'x' {
        let digits = slice_subrange(inp, start + 1, n);
        proof {
            let t = if inp@.len() > 0 && inp@[0] == '0' {
                inp@.drop_first()
            } else {
                inp@
            };
            assert(t =~= inp@.subrange(start as int, n as int));
            assert(t.drop_first() =~= digits@);
        }
        parse_unsigned(digits, 16)
    } else {
        proof {
            let t = if inp@.len() > 0 && inp@[0] == '0' {
                inp@.drop_first()
            } else {
                inp@
            };
            assert(t =~= inp@.subrange(start as int, n as int));
        }
        parse_unsigned(inp, 10)
    }
}


/// The index of the first space in `s`, if there is one.
pub open spec fn space_index(s: Seq<char>) -> Option<int>
    decreases s.len(),
{
    if s.len() == 0 {
        None
    } else if s[0] == ' ' {
        Some(0)
    } else {
        match space_index(s.drop_first()) {
            Some(i) => Some(i + 1),
            None => None,
        }
    }
}

/// `s` without one leading `.`, if it has one.
pub open spec fn strip_dot(s: Seq<char>) -> Seq<char> {
    if s.len() > 0 && s[0] == '.' {
        s.drop_first()
    } else {
        s
    }
}

/// The encoding that a suffix of `.w` or `.r` selects, and the number of
/// characters of that suffix: `32le` (any case), `32`, or nothing.
pub open spec fn encoding_suffix(s: Seq<char>) -> (EncodingType, int) {
    if starts_with_ignoring_case(s, seq!['3', '2']) {
        if starts_with_ignoring_case(s.skip(2), seq!['l', 'e']) {
            (EncodingType::UTF32LE, 4)
        } else {
            (EncodingType::UTF32, 2)
        }
    } else {
        (EncodingType::UTF8, 0)
    }
}

/// `c`, where the rest of the line is empty.
pub open spec fn no_argument(rest: Seq<char>, c: CommandView) -> Option<CommandView> {
    if rest.len() == 0 {
        Some(c)
    } else {
        None
    }
}

/// What follows `.k`: one space, then a position.
pub open spec fn kill_command(rest: Seq<char>) -> Option<CommandView> {
    if rest.len() > 0 && rest[0] == ' ' {
        match position_value(rest.drop_first()) {
            Some(p) => Some(CommandView::Kill { pos: p as nat }),
            None => None,
        }
    } else {
        None
    }
}

/// What follows `.p`: nothing for decimal, `x` for hexadecimal.
pub open spec fn print_command(rest: Seq<char>) -> Option<CommandView> {
    if rest.len() == 0 {
        Some(CommandView::Print(RawBase::Dec))
    } else if rest.len() == 1 && rest[0] == 'x' {
        Some(CommandView::Print(RawBase::Hex))
    } else {
        None
    }
}

/// What follows `.m`: a position, one space, then a decimal code point that
/// may carry a leading `.`.
pub open spec fn modify_command(rest: Seq<char>) -> Option<CommandView> {
    match space_index(rest) {
        Some(i) => match (
            position_value(rest.take(i)),
            decimal_value(strip_dot(rest.skip(i + 1))),
        ) {
            (Some(p), Some(v)) => Some(CommandView::Modify { pos: p as nat, chr: v }),
            _ => None,
        },
        None => None,
    }
}

/// What follows `.i`: a position, one space, then either `.` and a decimal
/// code point, or raw text.
pub open spec fn insertion_command(rest: Seq<char>) -> Option<CommandView> {
    match space_index(rest) {
        Some(i) => {
            let arg = rest.skip(i + 1);
            match position_value(rest.take(i)) {
                Some(p) => if arg.len() == 0 {
                    None
                } else if arg[0] == '.' {
                    match decimal_value(arg.drop_first()) {
                        Some(v) => Some(CommandView::InsertLit { pos: p as nat, chr: v }),
                        None => None,
                    }
                } else {
                    match unescaped(arg) {
                        Some(t) => Some(CommandView::InsertStr { pos: p as nat, txt: t }),
                        None => None,
                    }
                },
                None => None,
            }
        },
        None => None,
    }
}

/// What follows `.w`: an encoding suffix, one space, then the path as written.
pub open spec fn write_command(rest: Seq<char>) -> Option<CommandView> {
    let (enc, k) = encoding_suffix(rest);
    let after = rest.skip(k);
    if after.len() > 0 && after[0] == ' ' {
        Some(CommandView::Write { enc, file: after.drop_first() })
    } else {
        None
    }
}

/// What follows `.r`: an encoding suffix and nothing else.
pub open spec fn render_command(rest: Seq<char>) -> Option<CommandView> {
    let (enc, k) = encoding_suffix(rest);
    if rest.len() == k {
        Some(CommandView::Render(enc))
    } else {
        None
    }
}

/// A dot-command, `b` being what follows the dot.
pub open spec fn dot_command(b: Seq<char>) -> Option<CommandView> {
    if b.len() == 0 {
        None
    } else {
        let l = lowercase(b[0]);
        let k = l[0];
        let rest = b.drop_first();
        if l.len() == 0 {
            None
        } else if k == 'q' {
            no_argument(rest, CommandView::Quit)
        } else if k == '?' || k == 'h' {
            no_argument(rest, CommandView::Help)
        } else if k == 'c' {
            no_argument(rest, CommandView::Compress)
        } else if k == 'd' {
            no_argument(rest, CommandView::Decompress)
        } else if k == 'e' {
            no_argument(rest, CommandView::Erase)
        } else if k == 'v' {
            no_argument(rest, CommandView::Valid)
        } else if k == 'm' {
            modify_command(rest)
        } else if k == 'w' {
            write_command(rest)
        } else if k == 'p' {
            print_command(rest)
        } else if k == 'r' {
            render_command(rest)
        } else if k == 'k' {
            kill_command(rest)
        } else if k == 'i' {
            insertion_command(rest)
        } else {
            match decimal_value(b) {
                Some(v) => Some(CommandView::AppendLit(v)),
                None => None,
            }
        }
    }
}

/// The command that a line of input stands for, if any.
pub open spec fn command_of(line: Seq<char>) -> Option<CommandView> {
    let t = trim(line);
    if t.len() > 0 && t[0] == '.' {
        dot_command(t.drop_first())
    } else {
        match unescaped(t) {
            Some(v) => Some(CommandView::AppendStr(v)),
            None => None,
        }
    }
}

/// The index of the first space in `inp`, if any.
fn find_space(inp: &[char]) -> (r: Option<usize>)
    ensures
        match r {
            Some(i) => space_index(inp@) == Some(i as int) && i < inp@.len(),
            None => space_index(inp@) is None,
        },
{
    let n = inp.len();
    let mut i: usize = 0;
    assert(inp@.subrange(0, n as int) =~= inp@);
    while i < n
        invariant
            i <= n == inp@.len(),
            space_index(inp@) == (match space_index(inp@.subrange(i as int, n as int)) {
                Some(k) => Some(k + i),
                None => None,
            }),
        decreases n - i,
    {
        if inp[i] == ' ' {
            return Some(i);
        }
        assert(inp@.subrange(i as int, n as int).drop_first() =~= inp@.subrange(i + 1, n as int));
        i = i + 1;
    }
    None
}

/// What follows `.k`.
pub fn parse_kill(inp: &[char]) -> (r: Option<Commands>)
    ensures
        view_of(r) == kill_command(inp@),
{
    if inp.len() == 0 || inp[0] != ' ' {
        return None;
    }
    let rest = slice_subrange(inp, 1, inp.len());
    assert(rest@ =~= inp@.drop_first());
    match parse_number_value(rest) {
        Some(p) => Some(Commands::Kill { pos: p as usize }),
        None => None,
    }
}

/// What follows `.p`.
pub fn parse_print(inp: &[char]) -> (r: Option<Commands>)
    ensures
        view_of(r) == print_command(inp@),
{
    if inp.len() == 0 {
        Some(Commands::Print(RawBase::Dec))
    } else if inp[0] == 'x' {
        final_check(slice_subrange(inp, 1, inp.len()), Commands::Print(RawBase::Hex))
    } else {
        None
    }
}

/// What follows `.m`.
pub fn parse_modify(inp: &[char]) -> (r: Option<Commands>)
    ensures
        view_of(r) == modify_command(inp@),
{
    let n = inp.len();
    let i = match find_space(inp) {
        Some(i) => i,
        None => return None,
    };
    let ps = slice_subrange(inp, 0, i);
    let cp = slice_subrange(inp, i + 1, n);
    assert(ps@ =~= inp@.take(i as int));
    assert(cp@ =~= inp@.skip(i + 1));
    let loc = match parse_number_value(ps) {
        Some(l) => l,
        None => return None,
    };
    let cptrim = if cp.len() > 0 && cp[0] == '.' {
        slice_subrange(cp, 1, cp.len())
    } else {
        cp
    };
    assert(cptrim@ =~= strip_dot(cp@));
    match parse_unsigned(cptrim, 10) {
        Some(v) => Some(Commands::Modify { pos: loc as usize, chr: v }),
        None => None,
    }
}

/// What follows `.i`.
pub fn parse_insertion(inp: &[char]) -> (r: Option<Commands>)
    ensures
        view_of(r) == insertion_command(inp@),
{
    let n = inp.len();
    let i = match find_space(inp) {
        Some(i) => i,
        None => return None,
    };
    let ps = slice_subrange(inp, 0, i);
    let arg = slice_subrange(inp, i + 1, n);
    assert(ps@ =~= inp@.take(i as int));
    assert(arg@ =~= inp@.skip(i + 1));
    let loc = match parse_number_value(ps) {
        Some(l) => l,
        None => return None,
    };
    if arg.len() == 0 {
        return None;
    }
    if arg[0] == '.' {
        let lit = slice_subrange(arg, 1, arg.len());
        assert(lit@ =~= arg@.drop_first());
        match parse_unsigned(lit, 10) {
            Some(v) => Some(Commands::InsertLit { pos: loc as usize, chr: v }),
            None => None,
        }
    } else {
        match parse_raw_escapement(arg) {
            Some(t) => Some(Commands::InsertStr { pos: loc as usize, txt: t }),
            None => None,
        }
    }
}


/// Reads the encoding suffix of `.w` and `.r`; returns the encoding and what
/// follows the suffix.
pub fn parse_encoding<'a>(inp: &'a [char]) -> (r: (EncodingType, &'a [char]))
    ensures
        r.0 == encoding_suffix(inp@).0,
        r.1@ == inp@.skip(encoding_suffix(inp@).1),
{
    let thirty_two: [char; 2] = ['3', '2'];
    let little: [char; 2] = ['l', 'e'];
    assert(thirty_two@ =~= seq!['3', '2']);
    assert(little@ =~= seq!['l', 'e']);
    let (is_32, itr) = string_exact_check(inp, &thirty_two);
    if !is_32 {
        assert(inp@.skip(0) =~= inp@);
        return (EncodingType::UTF8, inp);
    }
    assert(itr@ =~= inp@.skip(2));
    let (is_le, itr2) = string_exact_check(itr, &little);
    if is_le {
        assert(itr2@ =~= inp@.skip(4));
        (EncodingType::UTF32LE, itr2)
    } else {
        (EncodingType::UTF32, itr)
    }
}

/// Reads one space and the path after it.
pub fn parse_rear(inp: &[char], enc: EncodingType) -> (r: Option<Commands>)
    ensures
        view_of(r) == (if inp@.len() > 0 && inp@[0] == ' ' {
            Some(CommandView::Write { enc, file: inp@.drop_first() })
        } else {
            None
        }),
{
    if inp.len() == 0 || inp[0] != ' ' {
        return None;
    }
    let path = slice_subrange(inp, 1, inp.len());
    assert(path@ =~= inp@.drop_first());
    Some(Commands::Write { enc, file: collect_string(path) })
}

/// What follows `.w`.
pub fn parse_write(inp: &[char]) -> (r: Option<Commands>)
    ensures
        view_of(r) == write_command(inp@),
{
    let (enc, itr) = parse_encoding(inp);
    parse_rear(itr, enc)
}

/// What follows `.r`.
pub fn parse_render(inp: &[char]) -> (r: Option<Commands>)
    ensures
        view_of(r) == render_command(inp@),
{
    let (enc, itr) = parse_encoding(inp);
    final_check(itr, Commands::Render(enc))
}

/// A whole dot-command body read as a decimal code point to append.
pub fn parse_cmd_dec(inp: &[char]) -> (r: Option<Commands>)
    ensures
        view_of(r) == (match decimal_value(inp@) {
            Some(v) => Some(CommandView::AppendLit(v)),
            None => None,
        }),
{
    match parse_unsigned(inp, 10) {
        Some(v) => Some(Commands::AppendLit(v)),
        None => None,
    }
}

/// Raw text to append.
pub fn parse_raw(inp: &[char]) -> (r: Option<Commands>)
    ensures
        view_of(r) == (match unescaped(inp@) {
            Some(v) => Some(CommandView::AppendStr(v)),
            None => None,
        }),
{
    match parse_raw_escapement(inp) {
        Some(v) => Some(Commands::AppendStr(v)),
        None => None,
    }
}

/// Dispatches a dot-command on its first character.
pub fn parse_cmd_selection(inp: &[char]) -> (r: Option<Commands>)
    ensures
        view_of(r) == dot_command(inp@),
{
    if inp.len() == 0 {
        return None;
    }
    let low = to_lowercase(inp[0]);
    if low.len() == 0 {
        return None;
    }
    let k = low[0];
    let itr = slice_subrange(inp, 1, inp.len());
    assert(itr@ =~= inp@.drop_first());
    if k == 'q' {
        final_check(itr, Commands::Quit)
    } else if k == '?' || k == 'h' {
        final_check(itr, Commands::Help)
    } else if k == 'c' {
        final_check(itr, Commands::Compress)
    } else if k == 'd' {
        final_check(itr, Commands::Decompress)
    } else if k == 'e' {
        final_check(itr, Commands::Erase)
    } else if k == 'v' {
        final_check(itr, Commands::Valid)
    } else if k == 'm' {
        parse_modify(itr)
    } else if k == 'w' {
        parse_write(itr)
    } else if k == 'p' {
        parse_print(itr)
    } else if k == 'r' {
        parse_render(itr)
    } else if k == 'k' {
        parse_kill(itr)
    } else if k == 'i' {
        parse_insertion(itr)
    } else {
        parse_cmd_dec(inp)
    }
}

/// Parses one line of input into the command it stands for; `None` where
/// the line is no command.
pub fn capture(inp: &str) -> (r: Option<Commands>)
    ensures
        view_of(r) == command_of(inp@),
{
    let cs = chars_of(inp);
    let (lo, hi) = trim_bounds(cs.as_slice());
    let trm = slice_subrange(cs.as_slice(), lo, hi);
    if trm.len() > 0 && trm[0] == '.' {
        let cmd = slice_subrange(trm, 1, trm.len());
        assert(cmd@ =~= trm@.drop_first());
        parse_cmd_selection(cmd)
    } else {
        parse_raw(trm)
    }
}


/// A sequence that neither starts nor ends with white space is its own trim.
pub proof fn lemma_trim_unchanged(s: Seq<char>)
    requires
        s.len() > 0,
        !is_white_space(s[0]),
        !is_white_space(s.last()),
    ensures
        trim(s) == s,
{
    assert(trim_start(s) == s);
    assert(trim_end(s) == s);
}

/// A dot followed by decimal digits appends the code point that they write,
/// where it fits in 32 bits; where it does not, the line is no command.
pub proof fn lemma_dot_decimal(s: Seq<char>)
    requires
        s.len() > 0,
        all_digits(s, 10),
    ensures
        digits_value(s, 10) <= u32::MAX ==> command_of(seq!['.'] + s) == Some(
            CommandView::AppendLit(digits_value(s, 10) as u32),
        ),
        digits_value(s, 10) > u32::MAX ==> command_of(seq!['.'] + s) is None,
{
    let line = seq!['.'] + s;
    assert(line[0] == '.');
    assert(line.last() == s.last());
    assert(digit_of(s[0]) < 10);
    assert(digit_of(s.last()) < 10);
    lemma_trim_unchanged(line);
    assert(line.drop_first() =~= s);
    assert(unsigned_digits(s) == s);
}

/// White space in front of `s` leaves where its trim starts unchanged.
pub proof fn lemma_trim_start_blank_prefix(w: Seq<char>, s: Seq<char>)
    requires
        forall|i: int| 0 <= i < w.len() ==> is_white_space(#[trigger] w[i]),
    ensures
        trim_start(w + s) == trim_start(s),
    decreases w.len(),
{
    if w.len() > 0 {
        assert((w + s)[0] == w[0]);
        assert((w + s).drop_first() =~= w.drop_first() + s);
        lemma_trim_start_blank_prefix(w.drop_first(), s);
    } else {
        assert(w + s =~= s);
    }
}

/// White space after `s` leaves where its trim ends unchanged.
pub proof fn lemma_trim_end_blank_suffix(s: Seq<char>, w: Seq<char>)
    requires
        forall|i: int| 0 <= i < w.len() ==> is_white_space(#[trigger] w[i]),
    ensures
        trim_end(s + w) == trim_end(s),
    decreases w.len(),
{
    if w.len() > 0 {
        assert((s + w).last() == w.last());
        assert((s + w).drop_last() =~= s + w.drop_last());
        lemma_trim_end_blank_suffix(s, w.drop_last());
    } else {
        assert(s + w =~= s);
    }
}

/// Where `t` is not all white space, trimming the end of `p + t` trims `t`
/// alone, and leaves some of it.
pub proof fn lemma_trim_end_keeps_prefix(p: Seq<char>, t: Seq<char>)
    requires
        exists|i: int| 0 <= i < t.len() && !is_white_space(#[trigger] t[i]),
    ensures
        trim_end(p + t) == p + trim_end(t),
        trim_end(t).len() > 0,
    decreases t.len(),
{
    let i = choose|i: int| 0 <= i < t.len() && !is_white_space(#[trigger] t[i]);
    assert((p + t).last() == t.last());
    if is_white_space(t.last()) {
        assert(t.drop_last()[i] == t[i]);
        lemma_trim_end_keeps_prefix(p, t.drop_last());
        assert((p + t).drop_last() =~= p + t.drop_last());
    }
}

/// `.q` alone, with or without white space around it, ends the session;
/// `.q` followed by any text that is not all white space is no command.
pub proof fn lemma_quit_takes_no_argument(w: Seq<char>, u: Seq<char>)
    requires
        forall|i: int| 0 <= i < w.len() ==> is_white_space(#[trigger] w[i]),
    ensures
        (forall|i: int| 0 <= i < u.len() ==> is_white_space(#[trigger] u[i])) ==> command_of(
            w + seq!['.', 'q'] + u,
        ) == Some(CommandView::Quit),
        (exists|i: int| 0 <= i < u.len() && !is_white_space(#[trigger] u[i])) ==> command_of(
            w + seq!['.', 'q'] + u,
        ) is None,
{
    let q = seq!['.', 'q'];
    let line = w + q + u;
    assert(line =~= w + (q + u));
    lemma_trim_start_blank_prefix(w, q + u);
    assert((q + u)[0] == '.');
    assert(trim_start(q + u) == q + u);
    assert(trim(line) == trim_end(q + u));
    if forall|i: int| 0 <= i < u.len() ==> is_white_space(#[trigger] u[i]) {
        lemma_trim_end_blank_suffix(q, u);
        assert(trim_end(q) == q);
        assert(q.drop_first() =~= seq!['q']);
        assert(seq!['q'].drop_first() =~= Seq::<char>::empty());
    }
    if exists|i: int| 0 <= i < u.len() && !is_white_space(#[trigger] u[i]) {
        lemma_trim_end_keeps_prefix(q, u);
        assert((q + trim_end(u)).drop_first() =~= seq!['q'] + trim_end(u));
        assert((seq!['q'] + trim_end(u)).drop_first() =~= trim_end(u));
    }
}

} // verus!
