use lmc::assembler::{assemble, assemble_source, sanitise, ErrorKind, Token, TokenKind};
use lmc::table::{instruction_list, lookup_mnemonic, Mnemonic};

#[test]
fn literal_program_encodes_base_plus_operand() {
    let words = assemble("lda 10\nadd 11\nsta 12\nout\nhlt\ndat 42\nsub 3\nbra 7\nbrz 8\nbrp 9\ninp\n").unwrap();
    assert_eq!(words, vec![510, 111, 312, 902, 0, 42, 203, 607, 708, 809, 901]);
}

#[test]
fn label_defined_after_reference() {
    let words = assemble("bra end\nout\nend hlt\n").unwrap();
    assert_eq!(words, vec![602, 902, 0]);
}

#[test]
fn label_defined_before_reference() {
    let words = assemble("top inp\nout\nbrz top\nbra top\n").unwrap();
    assert_eq!(words, vec![901, 902, 700, 600]);
}

#[test]
fn label_as_data_address() {
    let words = assemble("lda one\nadd one\nout\nhlt\none dat 1\n").unwrap();
    assert_eq!(words, vec![504, 104, 902, 0, 1]);
}

#[test]
fn comments_blank_lines_and_case_are_ignored() {
    let text = "// a program\r\n\r\n  INP   // read\r\n\tSta\t\t99\r\n   \r\nHLT";
    let words = assemble(text).unwrap();
    assert_eq!(words, vec![901, 399, 0]);
}

#[test]
fn sanitise_normalises_text() {
    assert_eq!(sanitise("LDA\t\t 5\r\nOut").unwrap(), "lda 5\nout");
    assert_eq!(sanitise("").unwrap(), "");
    assert_eq!(sanitise("A \t\x0c B\r\r\n\n  C  ").unwrap(), "a b\n\n c ");
}

#[test]
fn assemble_source_takes_normalised_text() {
    assert_eq!(assemble_source("inp\nout\nhlt").unwrap(), vec![901, 902, 0]);
    assert_eq!(assemble_source("").unwrap(), Vec::<usize>::new());
}

#[test]
fn malformed_line_is_reported_with_its_text() {
    let e = assemble("inp\nadd 1 2 3\nhlt").unwrap_err();
    assert_eq!(e.kind, ErrorKind::MalformedLine);
    assert_eq!(e.line, 1);
    assert_eq!(e.text, "add 1 2 3");
    let e = assemble("inp\nlonely\n").unwrap_err();
    assert_eq!((e.kind, e.line), (ErrorKind::MalformedLine, 1));
    let e = assemble("5 add 3\n").unwrap_err();
    assert_eq!((e.kind, e.line), (ErrorKind::MalformedLine, 0));
}

#[test]
fn duplicate_label_is_refused() {
    let e = assemble("a inp\nb out\na hlt\n").unwrap_err();
    assert_eq!((e.kind, e.line), (ErrorKind::DuplicateLabel, 2));
    assert_eq!(e.text, "a hlt");
}

#[test]
fn unknown_mnemonic_is_refused() {
    let e = assemble("inp\nstart foo 3\n").unwrap_err();
    assert_eq!((e.kind, e.line), (ErrorKind::UnknownMnemonic, 1));
}

#[test]
fn unresolved_label_is_refused() {
    let e = assemble("bra nowhere\nhlt\n").unwrap_err();
    assert_eq!((e.kind, e.line), (ErrorKind::UnresolvedLabel, 0));
    assert_eq!(e.text, "bra nowhere");
}

#[test]
fn word_past_999_is_refused() {
    let e = assemble("hlt\nout 98\n").unwrap_err();
    assert_eq!((e.kind, e.line), (ErrorKind::WordOutOfRange, 1));
    assert_eq!(assemble("brp 99\n").unwrap(), vec![899]);
    let e = assemble("dat 99999999999999999999999\n").unwrap_err();
    assert_eq!(e.kind, ErrorKind::UnresolvedLabel);
}

#[test]
fn token_classification() {
    let t = Token::new("add".to_string());
    assert_eq!(t.kind, TokenKind::Instruction);
    assert_eq!(t.value, "add");
    assert_eq!(Token::new("loop".to_string()).kind, TokenKind::Label);
    assert_eq!(Token::new("42".to_string()).kind, TokenKind::Parameter);
    assert_eq!(Token::new("+7".to_string()).kind, TokenKind::Parameter);
    assert_eq!(Token::new("-7".to_string()).kind, TokenKind::Label);
    assert_eq!(Token::new("ADD".to_string()).kind, TokenKind::Label);
}

#[test]
fn instruction_table_rows() {
    let table = instruction_list();
    assert_eq!(table.len(), 11);
    let names: Vec<&str> = table.iter().map(|i| i.name).collect();
    assert_eq!(names, vec!["hlt", "dat", "add", "sub", "sta", "lda", "bra", "brz", "brp", "inp", "out"]);
    let codes: Vec<usize> = table.iter().map(|i| i.decimal).collect();
    assert_eq!(codes, vec![0, 0, 100, 200, 300, 500, 600, 700, 800, 901, 902]);
    assert!(!table[0].parameter && table[1].parameter && !table[9].parameter && !table[10].parameter);
    assert_eq!(lookup_mnemonic(&vec!['b', 'r', 'z']), Some(Mnemonic::Brz));
    assert_eq!(lookup_mnemonic(&vec!['b', 'r']), None);
}
