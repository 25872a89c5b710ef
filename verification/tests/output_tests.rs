use wesnoth_zk::error::ProtocolError;
use wesnoth_zk::output::parse_record;
use wesnoth_zk::output::read_records;
use wesnoth_zk::output::split_fields;
use wesnoth_zk::output::split_lines;
use wesnoth_zk::reply::digest_output;
use wesnoth_zk::reply::phase1_outputs;
use wesnoth_zk::reply::phase2_outputs;
use wesnoth_zk::scalar::Scalar;

fn texts(v: &[Scalar]) -> Vec<String> {
    v.iter().map(|x| x.to_decimal()).collect()
}

fn pair(p: &(Scalar, Scalar)) -> (String, String) {
    (p.0.to_decimal(), p.1.to_decimal())
}

fn strs(a: &str, b: &str) -> (String, String) {
    (a.to_string(), b.to_string())
}

#[test]
fn lines_end_at_newlines() {
    assert_eq!(split_lines(b""), Vec::<Vec<u8>>::new());
    assert_eq!(split_lines(b"a"), vec![b"a".to_vec()]);
    assert_eq!(split_lines(b"a\n"), vec![b"a".to_vec()]);
    assert_eq!(split_lines(b"a\nb"), vec![b"a".to_vec(), b"b".to_vec()]);
    assert_eq!(split_lines(b"a\n\nb\n"), vec![b"a".to_vec(), b"".to_vec(), b"b".to_vec()]);
    assert_eq!(split_lines(b"\n"), vec![b"".to_vec()]);
    assert_eq!(split_lines(b"\n\n"), vec![b"".to_vec(), b"".to_vec()]);
    assert_eq!(split_lines(b"1 2\r\n3 4\r\n"), vec![b"1 2\r".to_vec(), b"3 4\r".to_vec()]);
}

#[test]
fn fields_are_runs_without_blanks() {
    assert_eq!(split_fields(b""), Vec::<Vec<u8>>::new());
    assert_eq!(split_fields(b"   "), Vec::<Vec<u8>>::new());
    assert_eq!(split_fields(b"12"), vec![b"12".to_vec()]);
    assert_eq!(split_fields(b" 12  34\t5\r"), vec![b"12".to_vec(), b"34".to_vec(), b"5".to_vec()]);
    assert_eq!(split_fields(b"1,2"), vec![b"1,2".to_vec()]);
}

#[test]
fn a_record_is_the_first_fields() {
    assert_eq!(texts(&parse_record(b"1 2", 2).unwrap()), vec!["1", "2"]);
    assert_eq!(texts(&parse_record(b"  10\t20  30 ", 3).unwrap()), vec!["10", "20", "30"]);
    assert_eq!(texts(&parse_record(b"1 2 junk", 2).unwrap()), vec!["1", "2"]);
    assert!(parse_record(b"anything", 0).unwrap().is_empty());
}

#[test]
fn a_record_needs_its_fields() {
    assert!(parse_record(b"1", 2).is_none());
    assert!(parse_record(b"", 1).is_none());
    assert!(parse_record(b"1 x", 2).is_none());
    assert!(parse_record(b"-1 2", 2).is_none());
    assert!(parse_record(b"1 2.0", 2).is_none());
    assert!(parse_record(b"+1 2", 2).is_none());
}

#[test]
fn records_come_in_sections() {
    let records = read_records(b"1\n2\n3 4\n5 6\n", 2, &[1, 2]).unwrap();
    assert_eq!(records.len(), 4);
    assert_eq!(texts(&records[0]), vec!["1"]);
    assert_eq!(texts(&records[1]), vec!["2"]);
    assert_eq!(texts(&records[2]), vec!["3", "4"]);
    assert_eq!(texts(&records[3]), vec!["5", "6"]);
}

#[test]
fn a_line_of_an_earlier_arity_fails_in_a_later_section() {
    match read_records(b"1\n2\n3 4\n5\n", 2, &[1, 2]) {
        Err(ProtocolError::MalformedRecord { line }) => assert_eq!(line, 3),
        other => panic!("expected a malformed record, got {:?}", other),
    }
}

#[test]
fn no_cells_no_lines() {
    assert!(read_records(b"", 0, &[2, 2]).unwrap().is_empty());
    assert!(read_records(b"", 5, &[]).unwrap().is_empty());
    match read_records(b"1 2\n", 0, &[2, 2]) {
        Err(ProtocolError::WrongRecordCount { sections, cells, found }) => {
            assert_eq!((sections, cells, found), (2, 0, 1));
        }
        other => panic!("expected a wrong count, got {:?}", other),
    }
}

#[test]
fn counts_beyond_the_machine_are_wrong_counts() {
    match read_records(b"1 2\n", usize::MAX, &[2, 2]) {
        Err(ProtocolError::WrongRecordCount { sections, cells, found }) => {
            assert_eq!((sections, cells, found), (2, usize::MAX, 1));
        }
        other => panic!("expected a wrong count, got {:?}", other),
    }
}

#[test]
fn digest_is_one_numeral_on_one_line() {
    assert_eq!(digest_output(b"123\n").unwrap().to_decimal(), "123");
    assert_eq!(digest_output(b"123").unwrap().to_decimal(), "123");
    let long = "21888242871839275222246405745257275088614511777268538073601725287587578984327";
    assert_eq!(digest_output(format!("{}\n", long).as_bytes()).unwrap().to_decimal(), long);
}

#[test]
fn digest_of_another_shape_fails() {
    assert!(matches!(
        digest_output(b""),
        Err(ProtocolError::WrongRecordCount { sections: 1, cells: 1, found: 0 })
    ));
    assert!(matches!(
        digest_output(b"1\n2\n"),
        Err(ProtocolError::WrongRecordCount { sections: 1, cells: 1, found: 2 })
    ));
    assert!(matches!(digest_output(b"abc\n"), Err(ProtocolError::MalformedRecord { line: 0 })));
    assert!(matches!(digest_output(b"\n"), Err(ProtocolError::MalformedRecord { line: 0 })));
    assert!(matches!(digest_output(b"-5\n"), Err(ProtocolError::MalformedRecord { line: 0 })));
}

#[test]
fn digest_line_must_be_the_numeral_alone() {
    for text in [
        &b"1 x\n"[..],
        b"1 2\n",
        b"1 x",
        b" 1\n",
        b"1 \n",
        b"1\t\n",
        b"1\r\n",
        b"+1\n",
        b"1_0\n",
        b"12a\n",
        b"\xff1\n",
    ] {
        assert!(
            matches!(digest_output(text), Err(ProtocolError::MalformedRecord { line: 0 })),
            "{:?}",
            text
        );
    }
}

#[test]
fn digest_with_text_after_its_line_fails() {
    assert!(matches!(
        digest_output(b"1\nx"),
        Err(ProtocolError::WrongRecordCount { sections: 1, cells: 1, found: 2 })
    ));
    assert!(matches!(
        digest_output(b"1\n\n"),
        Err(ProtocolError::WrongRecordCount { sections: 1, cells: 1, found: 2 })
    ));
    assert!(matches!(
        digest_output(b"\n1\n"),
        Err(ProtocolError::WrongRecordCount { sections: 1, cells: 1, found: 2 })
    ));
}

#[test]
fn digest_keeps_leading_zeros_out_of_the_value() {
    assert_eq!(digest_output(b"0\n").unwrap().to_decimal(), "0");
    assert_eq!(digest_output(b"007\n").unwrap().to_decimal(), "7");
}

#[test]
fn phase1_reply_is_identifiers_then_blinded_points() {
    let (idents, blinded) = phase1_outputs(b"1 2\n3 4\n5 6\n7 8\n", 2).unwrap();
    assert_eq!(idents.len(), 2);
    assert_eq!(blinded.len(), 2);
    assert_eq!(pair(&idents[0]), strs("1", "2"));
    assert_eq!(pair(&idents[1]), strs("3", "4"));
    assert_eq!(pair(&blinded[0]), strs("5", "6"));
    assert_eq!(pair(&blinded[1]), strs("7", "8"));
}

#[test]
fn phase1_reply_one_record_short_fails() {
    match phase1_outputs(b"1 2\n3 4\n5 6\n", 2) {
        Err(ProtocolError::WrongRecordCount { sections, cells, found }) => {
            assert_eq!((sections, cells, found), (2, 2, 3));
        }
        other => panic!("expected a wrong count, got {:?}", other.map(|_| ())),
    }
}

#[test]
fn phase1_reply_one_record_long_fails() {
    assert!(matches!(
        phase1_outputs(b"1 2\n3 4\n5 6\n7 8\n9 10\n", 2),
        Err(ProtocolError::WrongRecordCount { sections: 2, cells: 2, found: 5 })
    ));
}

#[test]
fn phase1_reply_with_a_bad_line_fails() {
    assert!(matches!(
        phase1_outputs(b"1 2\n3\n5 6\n7 8\n", 2),
        Err(ProtocolError::MalformedRecord { line: 1 })
    ));
    assert!(matches!(
        phase1_outputs(b"1 2\n3 4\n5 6\n7 z\n", 2),
        Err(ProtocolError::MalformedRecord { line: 3 })
    ));
}

#[test]
fn phase1_reply_for_a_full_board() {
    let mut text = String::new();
    for i in 0..200 {
        text.push_str(&format!("{} {}\n", i, 1000 + i));
    }
    let (idents, blinded) = phase1_outputs(text.as_bytes(), 100).unwrap();
    assert_eq!(idents.len(), 100);
    assert_eq!(blinded.len(), 100);
    assert_eq!(pair(&idents[99]), strs("99", "1099"));
    assert_eq!(pair(&blinded[0]), strs("100", "1100"));
    let short: String = text.lines().take(199).map(|l| format!("{}\n", l)).collect();
    assert!(matches!(
        phase1_outputs(short.as_bytes(), 100),
        Err(ProtocolError::WrongRecordCount { sections: 2, cells: 100, found: 199 })
    ));
}

#[test]
fn phase2_reply_is_three_sections() {
    let text = b"1 2\n3 4\n5 6\n7 8\n9 10 11\n12 13 14\n";
    let (dh, tags, data) = phase2_outputs(text, 2).unwrap();
    assert_eq!((dh.len(), tags.len(), data.len()), (2, 2, 2));
    assert_eq!(pair(&dh[0]), strs("1", "2"));
    assert_eq!(pair(&dh[1]), strs("3", "4"));
    assert_eq!(pair(&tags[0]), strs("5", "6"));
    assert_eq!(pair(&tags[1]), strs("7", "8"));
    assert_eq!(data[0].0.to_decimal(), "9");
    assert_eq!(data[0].1.to_decimal(), "10");
    assert_eq!(data[0].2.to_decimal(), "11");
    assert_eq!(data[1].0.to_decimal(), "12");
    assert_eq!(data[1].1.to_decimal(), "13");
    assert_eq!(data[1].2.to_decimal(), "14");
}

#[test]
fn phase2_reply_of_another_count_fails() {
    assert!(matches!(
        phase2_outputs(b"1 2\n3 4\n5 6\n7 8\n9 10 11\n", 2),
        Err(ProtocolError::WrongRecordCount { sections: 3, cells: 2, found: 5 })
    ));
    assert!(matches!(
        phase2_outputs(b"1 2\n3 4\n5 6\n7 8\n", 2),
        Err(ProtocolError::WrongRecordCount { sections: 3, cells: 2, found: 4 })
    ));
    assert!(matches!(
        phase2_outputs(b"", 1),
        Err(ProtocolError::WrongRecordCount { sections: 3, cells: 1, found: 0 })
    ));
}

#[test]
fn phase2_data_must_be_triples() {
    assert!(matches!(
        phase2_outputs(b"1 2\n3 4\n5 6\n7 8\n9 10 11\n12 13\n", 2),
        Err(ProtocolError::MalformedRecord { line: 5 })
    ));
}

#[test]
fn phase2_reply_of_no_cell_is_empty() {
    let (dh, tags, data) = phase2_outputs(b"", 0).unwrap();
    assert!(dh.is_empty() && tags.is_empty() && data.is_empty());
}
