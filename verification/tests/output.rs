use xetex_shaping::output::{
    decode_word, diagnostic_print_file_line, digits_of, print_cs, quote_file_name, sprint_cs,
    the_digs, CsText, Emit, Printer, Selector, SourcePlace,
};

fn printer(selector: Selector) -> Printer {
    Printer::new(selector, 5, 4, 3)
}

fn term(p: &Printer) -> Vec<u16> {
    p.out
        .iter()
        .filter_map(|e| match e {
            Emit::Term(c) => Some(*c),
            _ => None,
        })
        .collect()
}

fn log(p: &Printer) -> Vec<u16> {
    p.out
        .iter()
        .filter_map(|e| match e {
            Emit::Log(c) => Some(*c),
            _ => None,
        })
        .collect()
}

fn text(s: &str) -> Vec<u16> {
    s.bytes().map(|b| b as u16).collect()
}

#[test]
fn selector_codes_are_in_order() {
    assert_eq!(Selector::File0.code(), 0);
    assert_eq!(Selector::File15.code(), 15);
    assert_eq!(Selector::NoPrint.code(), 16);
    assert_eq!(Selector::TermOnly.code(), 17);
    assert_eq!(Selector::LogOnly.code(), 18);
    assert_eq!(Selector::TermAndLog.code(), 19);
    assert_eq!(Selector::Pseudo.code(), 20);
    assert_eq!(Selector::NewString.code(), 21);
}

#[test]
fn lines_are_broken_at_the_line_length() {
    let mut p = printer(Selector::TermAndLog);
    p.print_str(b"abcdefg");
    assert_eq!(term(&p), text("abcde\nfg"));
    assert_eq!(log(&p), text("abcde\nfg"));
    assert_eq!((p.term_offset, p.file_offset, p.tally), (2, 2, 7));
    p.print_ln();
    assert_eq!((p.term_offset, p.file_offset, p.tally), (0, 0, 7));
    assert_eq!(term(&p), text("abcde\nfg\n"));
    let warned = p.out.iter().filter(|e| matches!(e, Emit::Warn(_))).count();
    assert_eq!(warned, 8);
}

#[test]
fn raw_characters_go_where_the_selector_says() {
    let mut p = printer(Selector::LogOnly);
    p.print_raw_char(65, true);
    assert_eq!(p.out, vec![Emit::Warn(65), Emit::Log(65)]);
    let mut p = printer(Selector::TermOnly);
    p.print_raw_char(65, false);
    assert_eq!(p.out, vec![Emit::Warn(65), Emit::Term(65)]);
    assert_eq!(p.term_offset, 0);
    let mut p = printer(Selector::NoPrint);
    p.print_raw_char(65, true);
    assert!(p.out.is_empty());
    assert_eq!(p.tally, 1);
    let mut p = printer(Selector::File3);
    p.print_raw_char(65, true);
    p.print_ln();
    assert_eq!(p.out, vec![Emit::File(3, 65), Emit::File(3, 10)]);
    let mut p = printer(Selector::Pseudo);
    p.trick_count = 6;
    p.print_str(b"abcdefgh");
    assert_eq!(
        p.out,
        vec![
            Emit::Trick(0, 97),
            Emit::Trick(1, 98),
            Emit::Trick(2, 99),
            Emit::Trick(3, 100),
            Emit::Trick(0, 101),
            Emit::Trick(1, 102),
        ]
    );
    let mut p = printer(Selector::NewString);
    p.print_str(b"abcde");
    assert_eq!(p.out, vec![Emit::Pool(97), Emit::Pool(98), Emit::Pool(99)]);
    assert_eq!((p.pool_ptr, p.tally), (3, 5));
}

#[test]
fn characters_are_printed_in_their_notation() {
    let mut p = Printer::new(Selector::TermOnly, 100, 4, 0);
    p.print_char(1);
    p.print_char(127);
    p.print_char(0x9F);
    p.print_char(0x41);
    assert_eq!(term(&p), text("^^A^^?^^9fA"));
    let mut p = Printer::new(Selector::TermOnly, 100, 4, 0);
    p.print_char(0xE9);
    p.print_char(0x20AC);
    p.print_char(0x1F600);
    assert_eq!(term(&p), vec![0xC3, 0xA9, 0xE2, 0x82, 0xAC, 0xF0, 0x9F, 0x98, 0x80]);
    assert_eq!(p.term_offset, 3);
    assert_eq!(p.tally, 9);
    let mut p = Printer::new(Selector::TermOnly, 100, 4, 0);
    p.doing_special = true;
    p.print_char(1);
    p.print_char(127);
    p.print_char(0x9F);
    assert_eq!(term(&p), vec![1, 127, 0xC2, 0x9F]);
    let mut p = Printer::new(Selector::NewString, 100, 4, 10);
    p.print_char(1);
    p.print_char(0x1F600);
    assert_eq!(p.out, vec![Emit::Pool(1), Emit::Pool(0xD83D), Emit::Pool(0xDE00)]);
    let mut p = Printer::new(Selector::Pseudo, 100, 4, 0);
    p.trick_count = 10;
    p.print_char(0x20AC);
    assert_eq!(p.out, vec![Emit::Trick(0, 0x20AC)]);
    let mut p = Printer::new(Selector::TermOnly, 100, 4, 0);
    p.new_line_char = 65;
    p.print_str(b"xAy");
    assert_eq!(term(&p), text("x\ny"));
    let mut p = Printer::new(Selector::NewString, 100, 4, 10);
    p.new_line_char = 65;
    p.print_str(b"xAy");
    assert_eq!(p.out, vec![Emit::Pool(120), Emit::Pool(65), Emit::Pool(121)]);
}

#[test]
fn numbers_are_printed_in_decimal() {
    for (n, s) in [
        (0, "0"),
        (7, "7"),
        (-7, "-7"),
        (1234567890, "1234567890"),
        (-99999999, "-99999999"),
        (-100000000, "-100000000"),
        (i32::MAX, "2147483647"),
        (i32::MIN, "-2147483648"),
    ] {
        let mut p = Printer::new(Selector::TermOnly, 100, 4, 0);
        p.print_int(n);
        assert_eq!(term(&p), text(s));
    }
    assert_eq!(digits_of(905), vec![5, 0, 9]);
    assert_eq!(the_digs(&[1, 10, 15, 9], 3), vec![70, 65, 49]);
    let mut p = Printer::new(Selector::TermOnly, 100, 4, 0);
    p.print_the_digs(&[1, 10, 15, 9], 4);
    assert_eq!(term(&p), text("9FA1"));
}

#[test]
fn strings_are_printed_by_number() {
    let mut p = Printer::new(Selector::TermOnly, 100, 4, 0);
    p.print(0x10005, 0x10005, &[]);
    p.print(-1, 0x10005, &[]);
    p.print(66, 0x10005, &[]);
    p.print(0x10001, 0x10005, &[0x68, 0xD83D, 0xDE00, 0xD83D, 0x69]);
    assert_eq!(
        term(&p),
        vec![
            63, 63, 63, 63, 63, 63, 66, 0x68, 0xF0, 0x9F, 0x98, 0x80, 0xED, 0xA0, 0xBD, 0x69
        ]
    );
    assert_eq!(decode_word(&[0xD83D, 0x69, 0xDE00], true), vec![0x2E, 0x69, 0xDE00]);
    assert_eq!(decode_word(&[0xD83D, 0xDE00], true), vec![0x1F600]);
    let mut p = Printer::new(Selector::TermOnly, 100, 4, 0);
    p.print_native_word(&[0x61, 0xD83D]);
    assert_eq!(term(&p), text("a."));
}

#[test]
fn new_lines_and_escapes() {
    let mut p = Printer::new(Selector::TermOnly, 100, 4, 0);
    p.print_nl_cstr(b"ab");
    p.print_nl_cstr(b"cd");
    p.print_esc_cstr(b"x");
    assert_eq!(term(&p), text("ab\ncd\\x"));
    p.escape_char = -1;
    p.print_esc(65, 0x10000, &[]);
    assert_eq!(term(&p), text("ab\ncd\\xA"));
    p.escape_char = 0x21;
    p.print_size(0);
    p.print_size(0x100);
    p.print_size(0x200);
    p.print_nl(66, 0x10000, &[]);
    assert_eq!(term(&p), text("ab\ncd\\xA!textfont!scriptfont!scriptscriptfont\nB"));
    let mut p = Printer::new(Selector::LogOnly, 100, 4, 0);
    p.term_offset = 3;
    p.print_nl_cstr(b"a");
    assert_eq!(log(&p), text("a"));
    let mut p = Printer::new(Selector::File2, 100, 4, 0);
    p.file_offset = 3;
    p.term_offset = 3;
    p.print_nl_cstr(b"a");
    assert_eq!(p.out, vec![Emit::File(2, 97)]);
    let mut p = Printer::new(Selector::TermOnly, 100, 4, 0);
    p.print_write_whatsit(b"write", 3);
    p.print_write_whatsit(b"write", 16);
    p.print_write_whatsit(b"write", 17);
    p.print_write_whatsit(b"write", -1);
    assert_eq!(term(&p), text("\\write3\\write*\\write-\\write-1"));
}

#[test]
fn file_names_are_quoted_if_need_be() {
    let q = |s: &str| -> String {
        quote_file_name(&text(s)).iter().map(|c| char::from_u32(*c as u32).unwrap()).collect()
    };
    assert_eq!(q("plain.tex"), "plain.tex");
    assert_eq!(q("my file.tex"), "\"my file.tex\"");
    assert_eq!(q("it's.tex"), "\"it's.tex\"");
    assert_eq!(q("say \"hi\".tex"), "'say \"hi\".tex'");
    assert_eq!(q("a'b\"c"), "\"a'b\"'\"c'");
    assert_eq!(q(""), "");
    let mut p = Printer::new(Selector::TermOnly, 100, 4, 0);
    p.print_file_name(&text("my file"), &text("dir/"), &text(".tex"));
    assert_eq!(term(&p), text("\"dir/my file.tex\""));
}

#[test]
fn control_sequences_by_place() {
    assert_eq!(print_cs(0, 0x900000), CsText::Impossible);
    assert_eq!(print_cs(0x42, 0x900000), CsText::Active(0x41));
    assert_eq!(print_cs(0x110001 + 0x41, 0x900000), CsText::Single(0x41));
    assert_eq!(print_cs(0x220001, 0x900000), CsText::NullCs);
    assert_eq!(print_cs(0x220002, 0x900000), CsText::Named(0x220002));
    assert_eq!(print_cs(0x226603, 0x900000), CsText::Impossible);
    assert_eq!(print_cs(0x886f92, 0x900000), CsText::Impossible);
    assert_eq!(print_cs(0x886f93, 0x900000), CsText::Named(0x886f93));
    assert_eq!(print_cs(0x900001, 0x900000), CsText::Impossible);
    assert_eq!(sprint_cs(0x42), CsText::Active(0x41));
    assert_eq!(sprint_cs(0x110001), CsText::Single(0));
    assert_eq!(sprint_cs(0x220001), CsText::NullCs);
    assert_eq!(sprint_cs(0x226603), CsText::Named(0x226603));
}

#[test]
fn messages_name_the_innermost_open_file() {
    let names = [0, 11, 0, 33, 0];
    let lines = [0, 100, 200, 300, 400];
    assert_eq!(
        diagnostic_print_file_line(&names, &lines, 3, 7),
        Some(SourcePlace { file: 33, line: 7 })
    );
    assert_eq!(
        diagnostic_print_file_line(&names, &lines, 2, 7),
        Some(SourcePlace { file: 11, line: 200 })
    );
    assert_eq!(
        diagnostic_print_file_line(&names, &lines, 4, 7),
        Some(SourcePlace { file: 33, line: 400 })
    );
    assert_eq!(diagnostic_print_file_line(&names, &lines, 0, 7), None);
    assert_eq!(diagnostic_print_file_line(&[0, 0], &[0, 0], 1, 7), None);
}
