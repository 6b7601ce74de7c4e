use corewar::assembler::{assemble_line, AssembleError, ChampionBuilder, ParsedInstruction};
use corewar::defs::{HEADER_SIZE, MEM_SIZE};
use corewar::encoder::{write_champion, EncodeError};
use corewar::language::{
    compile_champion, compile_error_report, read_champion, CompileError, ReadError,
    COLUMN_END_SENTINEL,
};
use corewar::parser::{error_range, parse_error_message, parse_line, ParseError, ParsedLine};
use corewar::types::{Direct, Op, Register};

#[test]
fn parse_hex_prefix_is_base_16() {
    let r = parse_line("live %0x10").unwrap();
    assert_eq!(r, ParsedLine::Op(Op::Live(Direct::Numeric(16))));
}

#[test]
fn parse_decimal_prefix_is_base_10() {
    let r = parse_line("live %0d12").unwrap();
    assert_eq!(r, ParsedLine::Op(Op::Live(Direct::Numeric(12))));
}

#[test]
fn parse_bare_number_is_base_10() {
    let r = parse_line("live %10").unwrap();
    assert_eq!(r, ParsedLine::Op(Op::Live(Direct::Numeric(10))));
}

#[test]
fn parse_leading_minus_is_honored() {
    let r = parse_line("live %-5").unwrap();
    assert_eq!(r, ParsedLine::Op(Op::Live(Direct::Numeric(-5))));
    let r = parse_line("live %-0x10").unwrap();
    assert_eq!(r, ParsedLine::Op(Op::Live(Direct::Numeric(-16))));
}

#[test]
fn parse_code_packs_numbers_as_bytes() {
    let r = parse_line(".code 0x10 0d12 10 -5").unwrap();
    assert_eq!(r, ParsedLine::Code(vec![0x10, 12, 10, 0xFB]));
}

#[test]
fn parse_label_and_op() {
    let r = parse_line("start: live %1").unwrap();
    assert_eq!(
        r,
        ParsedLine::LabelAndOp(b"start".to_vec(), Op::Live(Direct::Numeric(1)))
    );
}

#[test]
fn parse_label_alone_and_comment() {
    assert_eq!(parse_line("start: # note").unwrap(), ParsedLine::Label(b"start".to_vec()));
    assert_eq!(parse_line("# only a comment").unwrap(), ParsedLine::Empty);
    assert_eq!(parse_line("   ").unwrap(), ParsedLine::Empty);
}

#[test]
fn parse_unknown_mnemonic_is_an_error() {
    match parse_line("frobnicate %1") {
        Err(ParseError::InvalidOpMnemonic(m, _)) => assert_eq!(m, b"frobnicate".to_vec()),
        other => panic!("unexpected: {:?}", other),
    }
}

#[test]
fn parse_register_out_of_range_is_an_error() {
    match parse_line("add r17, r1, r2") {
        Err(ParseError::InvalidRegisterCount(n, _)) => assert_eq!(n, 17),
        other => panic!("unexpected: {:?}", other),
    }
}

#[test]
fn parse_register_bad_prefix_is_an_error() {
    match parse_line("add x1, r1, r2") {
        Err(ParseError::InvalidRegisterPrefix(c, _)) => assert_eq!(c, b'x'),
        other => panic!("unexpected: {:?}", other),
    }
}

#[test]
fn error_range_covers_the_offending_token() {
    match parse_line("frobnicate %1") {
        Err(e) => assert_eq!(error_range(&e), (0, Some(10))),
        other => panic!("unexpected: {:?}", other),
    }
}

#[test]
fn error_range_of_alternation_spans_all_branches() {
    // `%` then something that is neither a label use nor a number.
    match parse_line("live %,") {
        Err(e) => {
            let (start, end) = error_range(&e);
            assert_eq!(start, 6);
            assert_eq!(end, Some(7));
        },
        other => panic!("unexpected: {:?}", other),
    }
}

#[test]
fn assembler_rejects_second_name() {
    let r = read_champion(".name \"a\"\n.name \"b\"\n.comment \"c\"\nlive %1");
    match r {
        Err(ReadError::AssembleError(AssembleError::NameAlreadySet(n))) => {
            assert_eq!(n, b"a".to_vec())
        },
        other => panic!("unexpected: {:?}", other),
    }
}

#[test]
fn assembler_rejects_second_comment() {
    let r = read_champion(".name \"a\"\n.comment \"c\"\n.comment \"d\"");
    match r {
        Err(ReadError::AssembleError(AssembleError::CommentAlreadySet(c))) => {
            assert_eq!(c, b"c".to_vec())
        },
        other => panic!("unexpected: {:?}", other),
    }
}

#[test]
fn assembler_requires_name_and_comment() {
    match read_champion("live %1") {
        Err(ReadError::AssembleError(AssembleError::MissingName)) => {},
        other => panic!("unexpected: {:?}", other),
    }
    match read_champion(".name \"a\"\nlive %1") {
        Err(ReadError::AssembleError(AssembleError::MissingComment)) => {},
        other => panic!("unexpected: {:?}", other),
    }
}

#[test]
fn read_error_carries_the_line_number() {
    match read_champion(".name \"a\"\n???") {
        Err(ReadError::ParseError(_, line)) => assert_eq!(line, 1),
        other => panic!("unexpected: {:?}", other),
    }
}

#[test]
fn minimal_champion_encodes_to_expected_body() {
    let out = compile_champion(".name \"one\"\n.comment \"c\"\nlive %1").unwrap();
    assert_eq!(out.len(), HEADER_SIZE + 5);
    // Magic, big-endian.
    assert_eq!(&out[0..4], &[0x00, 0xEA, 0x83, 0xF3]);
    // Name, NUL-padded.
    assert_eq!(&out[4..8], &[b'o', b'n', b'e', 0]);
    // Body size, big-endian, after name and reserved bytes.
    assert_eq!(&out[136..140], &[0, 0, 0, 5]);
    // The body: opcode 1, then the 4-byte big-endian direct value 1.
    assert_eq!(&out[HEADER_SIZE..], &[1, 0, 0, 0, 1]);
}

#[test]
fn undefined_label_is_reported() {
    let r = compile_champion(".name \"a\"\n.comment \"c\"\nlive %:missing");
    match r {
        Err(CompileError::Encode(EncodeError::UndefinedLabel(l))) => {
            assert_eq!(l, b"missing".to_vec())
        },
        other => panic!("unexpected: {:?}", other),
    }
}

#[test]
fn labels_resolve_to_relative_offsets() {
    // `sti r1, :loop, %1`, the label defined at the instruction itself.
    let out = compile_champion(".name \"l\"\n.comment \"c\"\nloop: sti r1, :loop, %1").unwrap();
    let body = &out[HEADER_SIZE..];
    // opcode 11; coding byte reg,ind,dir = 01 11 10 00; r1; offset 0; value 1.
    assert_eq!(body, &[11, 0x78, 1, 0, 0, 0, 1]);
}

#[test]
fn builder_folds_lines_in_order() {
    let b = ChampionBuilder::new();
    let b = assemble_line(b, parse_line(".name \"n\"").unwrap()).unwrap();
    let b = assemble_line(b, parse_line(".comment \"c\"").unwrap()).unwrap();
    let b = assemble_line(b, parse_line("top: live %1").unwrap()).unwrap();
    let champion = b.finish().unwrap();
    assert_eq!(champion.name, b"n".to_vec());
    assert_eq!(champion.comment, b"c".to_vec());
    assert_eq!(champion.instructions.len(), 2);
    match &champion.instructions[0] {
        ParsedInstruction::Label(l) => assert_eq!(l, &b"top".to_vec()),
        other => panic!("unexpected: {:?}", other),
    }
    let encoded = write_champion(&champion).unwrap();
    assert_eq!(&encoded[HEADER_SIZE..], &[1, 0, 0, 0, 1]);
}

#[test]
fn arena_size_constant_is_used_by_the_header() {
    assert_eq!(MEM_SIZE, 6144);
    assert_eq!(HEADER_SIZE, 2192);
}

#[test]
fn messages_coalesce_duplicate_alternatives() {
    // `%` followed by a comma: neither a label reference nor a number.
    match parse_line("live %,") {
        Err(e) => {
            let m = String::from_utf8(parse_error_message(&e)).unwrap();
            // Two distinct expectations remain after coalescing.
            assert_eq!(m, "either:\n- expected label reference but got ','\n- expected number but got ','");
        },
        other => panic!("unexpected: {:?}", other),
    }
}

#[test]
fn a_single_distinct_message_stands_alone() {
    match parse_line("add r17, r1, r2") {
        Err(e) => {
            let m = String::from_utf8(parse_error_message(&e)).unwrap();
            assert_eq!(m, "register number out of range 1..16: 17");
        },
        other => panic!("unexpected: {:?}", other),
    }
}

#[test]
fn reports_carry_region_and_message() {
    // The bad line is the second one (zero-based row 1).
    let err = compile_champion(".name \"a\"\nfrobnicate %1\n.comment \"c\"").unwrap_err();
    let (region, msg) = compile_error_report(&err);
    let region = region.unwrap();
    assert_eq!(region.from_row, 1);
    assert_eq!(region.to_row, 1);
    assert_eq!(region.from_col, 0);
    assert_eq!(region.to_col, 10);
    assert_eq!(
        String::from_utf8(msg).unwrap(),
        "not a valid operation: frobnicate"
    );
    assert!(COLUMN_END_SENTINEL == 20000);
}

#[test]
fn reports_without_a_region_prefix_their_message() {
    let err = compile_champion("live %1").unwrap_err();
    let (region, msg) = compile_error_report(&err);
    assert!(region.is_none());
    assert_eq!(
        String::from_utf8(msg).unwrap(),
        "cannot assemble the champion: the champion name is missing"
    );
}

#[test]
fn eof_failures_report_the_sentinel_end_column() {
    // A lone directive: the quoted string is missing at end of line.
    let err = compile_champion(".name").unwrap_err();
    match &err {
        CompileError::Read(ReadError::ParseError(_, line)) => assert_eq!(*line, 0),
        other => panic!("unexpected: {:?}", other),
    }
    let (region, _) = compile_error_report(&err);
    let region = region.unwrap();
    assert_eq!(region.from_col, 0);
    assert_eq!(region.to_col, COLUMN_END_SENTINEL);
}
