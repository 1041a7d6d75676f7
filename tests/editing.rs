use codepoint_editor::{bitsplitter, capture, parse_insertion, parse_kill, parse_modify, render_buffer, Commands, EncodingType, Editor, Outcome, RawBase};

fn editor_with(codes: &[u32]) -> Editor {
    let mut e = Editor::new();
    e.append_str(&codes.to_vec());
    e
}

#[test]
fn append_then_print_lists_the_text() {
    let mut e = Editor::new();
    let cmd = capture("hi\\ there\\t").unwrap();
    assert_eq!(e.execute(cmd), Outcome::Done);
    assert_eq!(
        e.execute(Commands::Print(RawBase::Dec)),
        Outcome::Listing(RawBase::Dec, vec![104, 105, 32, 116, 104, 101, 114, 101, 9])
    );
    assert_eq!(
        e.execute(Commands::Print(RawBase::Hex)),
        Outcome::Listing(RawBase::Hex, vec![104, 105, 32, 116, 104, 101, 114, 101, 9])
    );
}

#[test]
fn insert_past_end_appends() {
    let mut e = editor_with(&[1, 2, 3]);
    e.execute(Commands::InsertLit { pos: 8, chr: 9 });
    assert_eq!(e.codes(), &vec![1, 2, 3, 9]);
    e.execute(Commands::InsertStr { pos: 100, txt: vec![7, 8] });
    assert_eq!(e.codes(), &vec![1, 2, 3, 9, 7, 8]);
    e.execute(Commands::InsertLit { pos: 6, chr: 5 });
    assert_eq!(e.codes(), &vec![1, 2, 3, 9, 7, 8, 5]);
}

#[test]
fn insert_in_range_shifts() {
    let mut e = editor_with(&[1, 2, 3]);
    e.execute(Commands::InsertLit { pos: 0, chr: 9 });
    assert_eq!(e.codes(), &vec![9, 1, 2, 3]);
    e.execute(Commands::InsertStr { pos: 2, txt: vec![7, 8] });
    assert_eq!(e.codes(), &vec![9, 1, 7, 8, 2, 3]);
}

#[test]
fn kill_and_modify_out_of_range_do_nothing() {
    let mut e = editor_with(&[1, 2, 3]);
    for _ in 0..3 {
        assert_eq!(e.execute(Commands::Kill { pos: 3 }), Outcome::CannotRemove { pos: 3, len: 3 });
        assert_eq!(
            e.execute(Commands::Modify { pos: 5, chr: 0 }),
            Outcome::CannotModify { pos: 5, len: 3 }
        );
    }
    assert_eq!(e.codes(), &vec![1, 2, 3]);
    assert_eq!(e.modify(3, 0), Err(3));
    assert_eq!(e.kill(4), Err(3));
}

#[test]
fn kill_and_modify_in_range() {
    let mut e = editor_with(&[1, 2, 3]);
    assert_eq!(e.execute(Commands::Modify { pos: 1, chr: 20 }), Outcome::Done);
    assert_eq!(e.codes(), &vec![1, 20, 3]);
    assert_eq!(e.execute(Commands::Kill { pos: 0 }), Outcome::Done);
    assert_eq!(e.codes(), &vec![20, 3]);
}

#[test]
fn erase_empties() {
    let mut e = editor_with(&[1, 2, 3]);
    assert_eq!(e.execute(Commands::Erase), Outcome::Done);
    assert_eq!(e.codes(), &Vec::<u32>::new());
}

#[test]
fn hello_renders_and_surrogate_invalidates() {
    let mut e = editor_with(&[104, 101, 108, 108, 111]);
    assert_eq!(
        e.execute(Commands::Render(EncodingType::UTF8)),
        Outcome::Rendered(vec!['h', 'e', 'l', 'l', 'o'])
    );
    assert_eq!(e.execute(Commands::Valid), Outcome::Validity(true));
    e.execute(Commands::InsertLit { pos: 2, chr: 0xD800 });
    assert_eq!(e.execute(Commands::Valid), Outcome::Validity(false));
    assert_eq!(e.execute(Commands::Render(EncodingType::UTF8)), Outcome::Unrenderable);
    assert!(!e.valid());
}

#[test]
fn out_of_range_code_point_is_unrenderable() {
    assert_eq!(render_buffer(&vec![0x10FFFF]), Some(vec!['\u{10FFFF}']));
    assert_eq!(render_buffer(&vec![65, 0x110000]), None);
    assert_eq!(render_buffer(&vec![0xDFFF]), None);
    assert_eq!(render_buffer(&vec![0xE000]), Some(vec!['\u{E000}']));
}

#[test]
fn write_utf32_big_endian_hello() {
    let mut e = editor_with(&[104, 101, 108, 108, 111]);
    let out = e.execute(Commands::Write { enc: EncodingType::UTF32, file: "out".to_string() });
    assert_eq!(
        out,
        Outcome::WriteFile {
            file: "out".to_string(),
            bytes: vec![
                0x00, 0x00, 0xFE, 0xFF, 0, 0, 0, 104, 0, 0, 0, 101, 0, 0, 0, 108, 0, 0, 0, 108, 0,
                0, 0, 111
            ],
        }
    );
}

#[test]
fn write_utf32_little_endian() {
    let e = editor_with(&[0x1F600, 65]);
    assert_eq!(
        e.encode(EncodingType::UTF32LE),
        Some(vec![0xFF, 0xFE, 0x00, 0x00, 0x00, 0xF6, 0x01, 0x00, 65, 0, 0, 0])
    );
}

#[test]
fn write_utf8_multibyte() {
    let e = editor_with(&[104, 0xE9, 0x20AC, 0x1F600]);
    assert_eq!(
        e.encode(EncodingType::UTF8),
        Some(vec![104, 0xC3, 0xA9, 0xE2, 0x82, 0xAC, 0xF0, 0x9F, 0x98, 0x80])
    );
    let bad = editor_with(&[0xD800]);
    assert_eq!(bad.encode(EncodingType::UTF8), None);
    let mut bad = bad;
    assert_eq!(
        bad.execute(Commands::Write { enc: EncodingType::UTF32, file: "x".to_string() }),
        Outcome::Unrenderable
    );
}

#[test]
fn bitsplitter_orders_bytes() {
    assert_eq!(bitsplitter(&vec![0x01020304], true), vec![1, 2, 3, 4]);
    assert_eq!(bitsplitter(&vec![0x01020304], false), vec![4, 3, 2, 1]);
    assert_eq!(bitsplitter(&vec![], true), Vec::<u8>::new());
}

#[test]
fn compress_and_decompress() {
    let mut e = editor_with(&[0x65, 0x301, 0x41]);
    assert_eq!(e.execute(Commands::Compress), Outcome::Done);
    assert_eq!(e.codes(), &vec![0xE9, 0x41]);
    assert_eq!(e.execute(Commands::Decompress), Outcome::Done);
    assert_eq!(e.codes(), &vec![0x65, 0x301, 0x41]);
    let mut bad = editor_with(&[0x65, 0xD800]);
    assert_eq!(bad.execute(Commands::Compress), Outcome::Unrenderable);
    assert_eq!(bad.execute(Commands::Decompress), Outcome::Unrenderable);
    assert_eq!(bad.codes(), &vec![0x65, 0xD800]);
}

#[test]
fn read_asks_for_the_file_then_loads() {
    let mut e = editor_with(&[1]);
    assert_eq!(
        e.execute(Commands::Read { file: "in.txt".to_string() }),
        Outcome::ReadFile { file: "in.txt".to_string() }
    );
    e.load("añ");
    assert_eq!(e.codes(), &vec![97, 0xF1]);
    e.load_chars(&vec!['z']);
    assert_eq!(e.codes(), &vec![122]);
}

#[test]
fn quit_and_help_outcomes() {
    let mut e = Editor::new();
    assert_eq!(e.execute(Commands::Quit), Outcome::Quit);
    assert_eq!(e.execute(Commands::Help), Outcome::Help);
    e.append_lit(5);
    assert_eq!(e.execute(Commands::AppendLit(6)), Outcome::Done);
    assert_eq!(e.codes(), &vec![5, 6]);
}

fn chars(s: &str) -> Vec<char> {
    s.chars().collect()
}

#[test]
fn parsed_insert_past_end_appends() {
    let mut e = editor_with(&[1, 2, 3]);
    let cmd = parse_insertion(&chars("8 .9")).unwrap();
    assert_eq!(cmd, Commands::InsertLit { pos: 8, chr: 9 });
    e.execute(cmd);
    assert_eq!(e.codes(), &vec![1, 2, 3, 9]);
    let cmd = parse_insertion(&chars("x10 ab")).unwrap();
    assert_eq!(cmd, Commands::InsertStr { pos: 16, txt: vec![97, 98] });
    e.execute(cmd);
    assert_eq!(e.codes(), &vec![1, 2, 3, 9, 97, 98]);
}

#[test]
fn parsed_kill_and_modify_past_end_do_nothing() {
    let mut e = editor_with(&[1, 2]);
    for _ in 0..3 {
        let kill = parse_kill(&chars(" 2")).unwrap();
        assert_eq!(kill, Commands::Kill { pos: 2 });
        assert_eq!(e.execute(kill), Outcome::CannotRemove { pos: 2, len: 2 });
        let modify = parse_modify(&chars("7 .65")).unwrap();
        assert_eq!(modify, Commands::Modify { pos: 7, chr: 65 });
        assert_eq!(e.execute(modify), Outcome::CannotModify { pos: 7, len: 2 });
        assert_eq!(e.codes(), &vec![1, 2]);
    }
}
