use codepoint_editor::{capture, final_check, string_exact_check, Commands, EncodingType, RawBase};

#[test]
fn dot_decimal_appends_its_value() {
    assert_eq!(capture(".0"), Some(Commands::AppendLit(0)));
    assert_eq!(capture(".0065"), Some(Commands::AppendLit(65)));
    assert_eq!(capture(".123456"), Some(Commands::AppendLit(123456)));
    assert_eq!(capture(".99999999999"), None);
}

#[test]
fn quit_with_trailing_text_fails() {
    assert_eq!(capture(".q"), Some(Commands::Quit));
    assert_eq!(capture("  .q \t"), Some(Commands::Quit));
    assert_eq!(capture(".Q"), Some(Commands::Quit));
    assert_eq!(capture(".qx"), None);
    assert_eq!(capture(".q ."), None);
    assert_eq!(capture(".q1"), None);
}

#[test]
fn kill_hex_with_and_without_zero() {
    assert_eq!(capture(".k 0x2f"), Some(Commands::Kill { pos: 0x2f }));
    assert_eq!(capture(".k x2f"), Some(Commands::Kill { pos: 0x2f }));
    assert_eq!(capture(".k 032"), Some(Commands::Kill { pos: 32 }));
    assert_eq!(capture(".k"), None);
    assert_eq!(capture(".k  5"), None);
    assert_eq!(capture(".k 0X2f"), None);
    assert_eq!(capture(".k 0x"), None);
    assert_eq!(capture(".k 0x100000000"), None);
}

#[test]
fn render_suffix_any_case() {
    let le = Some(Commands::Render(EncodingType::UTF32LE));
    assert_eq!(capture(".r32LE"), le);
    assert_eq!(capture(".r32le"), le);
    assert_eq!(capture(".r32lE"), le);
    assert_eq!(capture(".R32Le"), le);
    assert_eq!(capture(".r32LEaser"), None);
    assert_eq!(capture(".r32l"), None);
    assert_eq!(capture(".r32u"), None);
}

#[test]
fn write_path_taken_as_written() {
    assert_eq!(
        capture(".w a b\\n"),
        Some(Commands::Write {
            enc: EncodingType::UTF8,
            file: "a b\\n".to_string(),
        })
    );
    assert_eq!(capture(".w"), None);
    assert_eq!(capture(".w3 x"), None);
    assert_eq!(capture(".w32l x"), None);
}

#[test]
fn raw_text_escapes() {
    assert_eq!(
        capture("a\\tb\\nc\\\\d\\.e\\ f"),
        Some(Commands::AppendStr(vec![97, 9, 98, 10, 99, 92, 100, 46, 101, 32, 102]))
    );
    assert_eq!(capture("\\.q"), Some(Commands::AppendStr(vec![46, 113])));
    assert_eq!(capture("a\\q"), None);
    assert_eq!(capture("abc\\"), None);
    assert_eq!(capture(""), Some(Commands::AppendStr(vec![])));
    assert_eq!(capture("   "), Some(Commands::AppendStr(vec![])));
    assert_eq!(capture("é"), Some(Commands::AppendStr(vec![0xE9])));
}

#[test]
fn insertion_variants() {
    assert_eq!(capture(".i5 a\\tb"), Some(Commands::InsertStr { pos: 5, txt: vec![97, 9, 98] }));
    assert_eq!(capture(".i5 a\\x"), None);
    assert_eq!(capture(".i5 .x"), None);
    assert_eq!(capture(".i5 ."), None);
    assert_eq!(capture(".i "), None);
    assert_eq!(capture(".I7 .65"), Some(Commands::InsertLit { pos: 7, chr: 65 }));
}

#[test]
fn modify_variants() {
    assert_eq!(capture(".m2 .65"), Some(Commands::Modify { pos: 2, chr: 65 }));
    assert_eq!(capture(".m2 65"), Some(Commands::Modify { pos: 2, chr: 65 }));
    assert_eq!(capture(".mx1f 66"), Some(Commands::Modify { pos: 0x1f, chr: 66 }));
    assert_eq!(capture(".m0x1f 66"), Some(Commands::Modify { pos: 0x1f, chr: 66 }));
    assert_eq!(capture(".m2"), None);
    assert_eq!(capture(".m2 6x"), None);
    assert_eq!(capture(".m 65"), None);
}

#[test]
fn print_bases() {
    assert_eq!(capture(".P"), Some(Commands::Print(RawBase::Dec)));
    assert_eq!(capture(".pX"), None);
}

#[test]
fn final_check_on_leftovers() {
    assert_eq!(final_check(&[], Commands::Erase), Some(Commands::Erase));
    assert_eq!(final_check(&['a'], Commands::Erase), None);
}

#[test]
fn string_exact_check_prefixes() {
    let sample = ['3', '2', 'L', 'e', 'x'];
    let (ok, rest) = string_exact_check(&sample, &['3', '2']);
    assert!(ok);
    assert_eq!(rest, &['L', 'e', 'x']);
    let (ok, rest) = string_exact_check(rest, &['l', 'e']);
    assert!(ok);
    assert_eq!(rest, &['x']);
    let (ok, rest) = string_exact_check(&sample, &['3', '3']);
    assert!(!ok);
    assert_eq!(rest, &sample);
    let (ok, rest) = string_exact_check(&['3'], &['3', '2']);
    assert!(!ok);
    assert_eq!(rest, &['3']);
}

#[test]
fn exact_check_folds_unicode_case() {
    let (ok, rest) = string_exact_check(&['Ä', 'x'], &['ä']);
    assert!(ok);
    assert_eq!(rest, &['x']);
    let (ok, _) = string_exact_check(&['Ä'], &['a']);
    assert!(!ok);
}

#[test]
fn selector_folds_unicode_case() {
    assert_eq!(capture(".İ5 x"), Some(Commands::InsertStr { pos: 5, txt: vec![120] }));
    assert_eq!(capture(".\u{212A} 3"), Some(Commands::Kill { pos: 3 }));
    assert_eq!(capture(".ä"), None);
}
