use xetex_shaping::auxi::{
    aux_parser, last_check_for_aux_errors, pop_the_aux_stack, AuxData, AuxEndProblem, AuxKind,
    AuxSeen, CmdArgs, File,
};

#[test]
fn test_parser() {
    let cmd = aux_parser(b"\\citation{a,b}").unwrap();

    assert_eq!(
        cmd.kind,
        AuxKind::Citation(CmdArgs::Args(vec![b"a".to_vec(), b"b".to_vec()])),
    );

    let cmd = aux_parser(b"\\bibdata{a b}").unwrap();

    assert!(matches!(
        cmd.kind,
        AuxKind::Data(CmdArgs::WhitespaceInArg(_))
    ));

    let cmd = aux_parser(b"\\bibstyle{abc}  ").unwrap();

    assert!(matches!(
        cmd.kind,
        AuxKind::Style(CmdArgs::StuffAfterRightBrace(_))
    ));

    let cmd = aux_parser(b"\\@input{foo").unwrap();

    assert!(matches!(cmd.kind, AuxKind::Input(CmdArgs::NoRightBrace(_))));
}

#[test]
fn aux_parser_gives_places() {
    let cmd = aux_parser(b"\\bibdata{a b}").unwrap();
    assert_eq!(cmd.offset, 8);
    assert_eq!(cmd.kind, AuxKind::Data(CmdArgs::WhitespaceInArg(9)));
    let cmd = aux_parser(b"\\bibstyle{abc}  ").unwrap();
    assert_eq!(cmd.kind, AuxKind::Style(CmdArgs::StuffAfterRightBrace(14)));
    let cmd = aux_parser(b"\\@input{foo").unwrap();
    assert_eq!(cmd.kind, AuxKind::Input(CmdArgs::NoRightBrace(11)));
    let cmd = aux_parser(b"\\bibstyle{plain}").unwrap();
    assert_eq!(cmd.kind, AuxKind::Style(CmdArgs::Args(b"plain".to_vec())));
    let cmd = aux_parser(b"\\citation{a,,b,}").unwrap();
    assert_eq!(
        cmd.kind,
        AuxKind::Citation(CmdArgs::Args(vec![
            b"a".to_vec(),
            b"".to_vec(),
            b"b".to_vec(),
            b"".to_vec()
        ]))
    );
    assert!(aux_parser(b"\\relax").is_none());
    assert!(aux_parser(b"\\citation").is_none());
    assert!(aux_parser(b"").is_none());
}

#[test]
fn aux_stack_is_last_in_first_out() {
    let mut aux = AuxData::new();
    assert_eq!(aux.ptr(), 0);
    aux.push_file(File { name: 1, file: 10, line: 0 });
    aux.push_file(File { name: 2, file: 20, line: 0 });
    assert_eq!(aux.ptr(), 2);
    assert_eq!(aux.top_file().name, 2);
    aux.top_file_mut().line = 7;
    assert_eq!(aux.top_file().line, 7);
    assert_eq!(pop_the_aux_stack(&mut aux), (File { name: 2, file: 20, line: 7 }, None));
    assert_eq!(aux.pop_file(), (File { name: 1, file: 10, line: 0 }, true));
    assert_eq!(aux.ptr(), 0);
    aux.push_file(File { name: 3, file: 30, line: 0 });
    assert_eq!(pop_the_aux_stack(&mut aux), (File { name: 3, file: 30, line: 0 }, Some(3)));
}

#[test]
fn last_check_lists_what_is_missing() {
    let nothing = AuxSeen {
        citation_seen: false,
        num_cites: 0,
        all_entries: false,
        bib_seen: false,
        num_bibs: 0,
        bst_seen: false,
        bst_open: false,
    };
    assert_eq!(
        last_check_for_aux_errors(nothing),
        vec![
            AuxEndProblem::NoCitationCommands,
            AuxEndProblem::NoBibdataCommand,
            AuxEndProblem::NoBibstyleCommand
        ]
    );
    let empty = AuxSeen { citation_seen: true, bib_seen: true, bst_seen: true, ..nothing };
    assert_eq!(
        last_check_for_aux_errors(empty),
        vec![
            AuxEndProblem::NoCiteKeys,
            AuxEndProblem::NoDatabaseFiles,
            AuxEndProblem::NoStyleFile
        ]
    );
    let fine = AuxSeen { all_entries: true, num_bibs: 1, bst_open: true, ..empty };
    assert!(last_check_for_aux_errors(fine).is_empty());
}
