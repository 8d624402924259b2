use torrent_summary::bencode::Value;
use torrent_summary::metainfo::{Metainfo, MetainfoError, Mode};

fn parse(bytes: &[u8]) -> Result<Metainfo, MetainfoError> {
    let v = Value::decode(bytes).expect("decode failed");
    Metainfo::parse(&v)
}

fn single_file(info_extra: &[u8], top_extra: &[u8]) -> Vec<u8> {
    let mut b = Vec::new();
    b.extend_from_slice(b"d8:announce14:http://tracker");
    b.extend_from_slice(top_extra);
    b.extend_from_slice(b"4:infod6:lengthi100e4:name5:a.txt12:piece lengthi16384e6:pieces20:");
    b.extend_from_slice(&[0u8; 20]);
    b.extend_from_slice(info_extra);
    b.extend_from_slice(b"ee");
    b
}

#[test]
fn parses_minimal_single_file() {
    let m = parse(&single_file(b"", b"")).expect("parse failed");
    assert_eq!(m.announce, b"http://tracker".to_vec());
    assert!(m.announce_list.is_none());
    assert!(m.comment.is_none());
    assert!(m.creation_date.is_none());
    assert_eq!(m.info.name, b"a.txt".to_vec());
    assert_eq!(m.info.piece_length, 16384);
    assert_eq!(m.info.pieces.len(), 20);
    assert!(m.info.private.is_none());
    assert!(m.info.source.is_none());
    match m.info.mode {
        Mode::Single { length } => assert_eq!(length, 100),
        Mode::Multiple { .. } => panic!("expected single-file mode"),
    }
}

#[test]
fn parses_optional_fields() {
    let top = b"13:announce-listll8:http://aee7:comment5:hello13:creation datei1609459200e";
    let m = parse(&single_file(b"7:privatei1e6:source3:src", top)).expect("parse failed");
    assert_eq!(
        m.announce_list,
        Some(vec![vec![b"http://a".to_vec()]])
    );
    assert_eq!(m.comment, Some(b"hello".to_vec()));
    assert_eq!(m.creation_date, Some(1609459200));
    assert_eq!(m.info.private, Some(1));
    assert_eq!(m.info.source, Some(b"src".to_vec()));
}

#[test]
fn parses_multi_file_mode() {
    let bytes = concat_bytes(&[
        b"d8:announce14:http://tracker4:infod5:filesl",
        b"d6:lengthi100e4:pathl1:a2:bcee",
        b"d6:lengthi50e4:pathl1:cee",
        b"e4:name3:dir12:piece lengthi16384e6:pieces0:ee",
    ]);
    let m = parse(&bytes).expect("parse failed");
    match m.info.mode {
        Mode::Multiple { files } => {
            assert_eq!(files.len(), 2);
            assert_eq!(files[0].length, 100);
            assert_eq!(files[0].path, vec![b"a".to_vec(), b"bc".to_vec()]);
            assert_eq!(files[1].length, 50);
            assert_eq!(files[1].path, vec![b"c".to_vec()]);
        }
        Mode::Single { .. } => panic!("expected multi-file mode"),
    }
}

fn concat_bytes(parts: &[&[u8]]) -> Vec<u8> {
    let mut b = Vec::new();
    for p in parts {
        b.extend_from_slice(p);
    }
    b
}

#[test]
fn rejects_non_dictionary() {
    assert_eq!(parse(b"i1e").unwrap_err(), MetainfoError::NotADictionary);
}

#[test]
fn rejects_missing_announce() {
    assert_eq!(
        parse(b"d4:infod6:lengthi1e4:name1:a12:piece lengthi1e6:pieces0:ee").unwrap_err(),
        MetainfoError::MissingField
    );
}

#[test]
fn rejects_wrong_announce_type() {
    assert_eq!(
        parse(b"d8:announcei1e4:infodee").unwrap_err(),
        MetainfoError::WrongFieldType
    );
}

#[test]
fn rejects_both_length_and_files() {
    let bytes = concat_bytes(&[
        b"d8:announce1:a4:infod5:filesld6:lengthi1e4:pathl1:aeee6:lengthi1e",
        b"4:name1:n12:piece lengthi1e6:pieces0:ee",
    ]);
    assert_eq!(parse(&bytes).unwrap_err(), MetainfoError::ModeConflict);
}

#[test]
fn rejects_neither_length_nor_files() {
    let bytes = b"d8:announce1:a4:infod4:name1:n12:piece lengthi1e6:pieces0:ee";
    assert_eq!(parse(bytes).unwrap_err(), MetainfoError::ModeConflict);
}

#[test]
fn rejects_non_positive_piece_length() {
    let bytes = b"d8:announce1:a4:infod6:lengthi1e4:name1:n12:piece lengthi0e6:pieces0:ee";
    assert_eq!(
        parse(bytes).unwrap_err(),
        MetainfoError::NonPositivePieceLength
    );
}

#[test]
fn rejects_negative_file_length() {
    let bytes = b"d8:announce1:a4:infod6:lengthi-1e4:name1:n12:piece lengthi1e6:pieces0:ee";
    assert_eq!(parse(bytes).unwrap_err(), MetainfoError::NegativeLength);
}

#[test]
fn rejects_negative_creation_date() {
    let bytes = concat_bytes(&[
        b"d8:announce1:a13:creation datei-5e",
        b"4:infod6:lengthi1e4:name1:n12:piece lengthi1e6:pieces0:ee",
    ]);
    assert_eq!(parse(&bytes).unwrap_err(), MetainfoError::NegativeDate);
}

#[test]
fn rejects_malformed_announce_list() {
    let bytes = concat_bytes(&[
        b"d8:announce1:a13:announce-listli1ee",
        b"4:infod6:lengthi1e4:name1:n12:piece lengthi1e6:pieces0:ee",
    ]);
    assert_eq!(parse(&bytes).unwrap_err(), MetainfoError::WrongFieldType);
}

#[test]
fn serialize_then_parse_gives_the_document_back() {
    let m = parse(&single_file(b"7:privatei1e", b"7:comment5:hello")).expect("parse failed");
    let bytes = m.serialize();
    let back = parse(&bytes).expect("reparse failed");
    assert_eq!(back.announce, m.announce);
    assert_eq!(back.comment, m.comment);
    assert_eq!(back.info.name, m.info.name);
    assert_eq!(back.info.piece_length, m.info.piece_length);
    assert_eq!(back.info.pieces, m.info.pieces);
    assert_eq!(back.info.private, m.info.private);
    match (back.info.mode, m.info.mode) {
        (Mode::Single { length: a }, Mode::Single { length: b }) => assert_eq!(a, b),
        _ => panic!("mode changed across serialization"),
    }
}
