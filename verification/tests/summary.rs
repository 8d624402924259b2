use sha1::Digest;

use torrent_summary::summary::TorrentSummary;

fn single_file_info() -> Vec<u8> {
    let mut b = Vec::new();
    b.extend_from_slice(b"d6:lengthi100e4:name5:a.txt12:piece lengthi16384e6:pieces20:");
    b.extend_from_slice(&[0u8; 20]);
    b.extend_from_slice(b"e");
    b
}

fn minimal(announce: &[u8], top_extra: &[u8]) -> Vec<u8> {
    let mut b = Vec::new();
    b.extend_from_slice(b"d8:announce");
    b.extend_from_slice(format!("{}:", announce.len()).as_bytes());
    b.extend_from_slice(announce);
    b.extend_from_slice(top_extra);
    b.extend_from_slice(b"4:info");
    b.extend_from_slice(&single_file_info());
    b.extend_from_slice(b"e");
    b
}

fn tab_output(bytes: &[u8]) -> String {
    let summary = TorrentSummary::from_bytes(&bytes.to_vec()).expect("summary failed");
    let rows = summary.build_rows();
    String::from_utf8(torrent_summary::render::render(&rows, false)).expect("not utf-8")
}

fn hex(bytes: &[u8]) -> String {
    let mut s = String::new();
    for b in bytes {
        s.push_str(&format!("{:02x}", b));
    }
    s
}

#[test]
fn infohash_is_sha1_of_info_bytes() {
    let bytes = minimal(b"http://tracker", b"");
    let summary = TorrentSummary::from_bytes(&bytes).expect("summary failed");
    let expected = sha1::Sha1::digest(single_file_info().as_slice());
    assert_eq!(summary.infohash, expected.as_slice().to_vec());
    assert_eq!(summary.size as usize, bytes.len());
}

#[test]
fn hash_is_stable_across_reads() {
    let bytes = minimal(b"http://tracker", b"");
    let a = TorrentSummary::from_bytes(&bytes).expect("summary failed");
    let b = TorrentSummary::from_bytes(&bytes).expect("summary failed");
    assert_eq!(a.infohash, b.infohash);
}

#[test]
fn hash_ignores_bytes_outside_info() {
    let a = TorrentSummary::from_bytes(&minimal(b"http://tracker", b"")).unwrap();
    let b = TorrentSummary::from_bytes(&minimal(b"http://other", b"7:comment2:hi")).unwrap();
    assert_eq!(a.infohash, b.infohash);
}

#[test]
fn hash_changes_with_info_contents() {
    let base = minimal(b"http://tracker", b"");
    let changed: Vec<u8> = String::from_utf8(base.clone())
        .unwrap()
        .replace("a.txt", "b.txt")
        .into_bytes();
    let a = TorrentSummary::from_bytes(&base).unwrap();
    let b = TorrentSummary::from_bytes(&changed).unwrap();
    assert_ne!(a.infohash, b.infohash);
}

#[test]
fn end_to_end_tab_delimited() {
    let bytes = minimal(b"http://tracker", b"");
    let out = tab_output(&bytes);
    assert!(out.contains("Name\ta.txt\n"));
    assert!(out.contains("File Count\t1\n"));
    assert!(out.contains("Piece Count\t1\n"));
    assert!(out.contains("Tracker\thttp://tracker\n"));
    let expected_hash = hex(sha1::Sha1::digest(single_file_info().as_slice()).as_slice());
    assert_eq!(expected_hash.len(), 40);
    assert!(out.contains(&format!("Info Hash\t{}\n", expected_hash)));
}

#[test]
fn tracker_dedup_when_announce_in_a_tier() {
    let out = tab_output(&minimal(b"http://a", b"13:announce-listll8:http://aee"));
    assert!(out.contains("Trackers\tTier 1\thttp://a\n"));
    assert!(!out.contains("Main"));
}

#[test]
fn tracker_main_group_when_announce_not_in_tiers() {
    let out = tab_output(&minimal(b"http://b", b"13:announce-listll8:http://aee"));
    assert!(out.contains("Trackers\tMain\thttp://b\n"));
    assert!(out.contains("Trackers\tTier 1\thttp://a\n"));
}

#[test]
fn piece_count_divides_by_twenty() {
    let mut info40 = Vec::new();
    info40.extend_from_slice(b"d6:lengthi100e4:name5:a.txt12:piece lengthi16384e6:pieces40:");
    info40.extend_from_slice(&[0u8; 40]);
    info40.extend_from_slice(b"e");
    let mut b = Vec::new();
    b.extend_from_slice(b"d8:announce14:http://tracker4:info");
    b.extend_from_slice(&info40);
    b.extend_from_slice(b"e");
    assert!(tab_output(&b).contains("Piece Count\t2\n"));

    let empty =
        b"d8:announce14:http://tracker4:infod6:lengthi100e4:name5:a.txt12:piece lengthi16384e6:pieces0:ee";
    assert!(tab_output(empty).contains("Piece Count\t0\n"));
}

#[test]
fn private_flag_rendering() {
    let absent = tab_output(&minimal(b"http://tracker", b""));
    assert!(absent.contains("Private\tno\n"));

    let zero = concat(&[
        b"d8:announce14:http://tracker4:infod6:lengthi100e4:name5:a.txt",
        b"12:piece lengthi16384e6:pieces0:7:privatei0eee",
    ]);
    assert!(tab_output(&zero).contains("Private\tno\n"));

    let one = concat(&[
        b"d8:announce14:http://tracker4:infod6:lengthi100e4:name5:a.txt",
        b"12:piece lengthi16384e6:pieces0:7:privatei1eee",
    ]);
    assert!(tab_output(&one).contains("Private\tyes\n"));
}

fn concat(parts: &[&[u8]]) -> Vec<u8> {
    let mut b = Vec::new();
    for p in parts {
        b.extend_from_slice(p);
    }
    b
}

#[test]
fn created_row_renders_utc_calendar_time() {
    let out = tab_output(&minimal(
        b"http://tracker",
        b"13:creation datei1609459200e",
    ));
    assert!(out.contains("Created\t2021-01-01 00:00:00 UTC\n"));
}

#[test]
fn sizes_are_raw_in_tab_mode_and_scaled_in_human_mode() {
    let bytes = minimal(b"http://tracker", b"");
    let tab = tab_output(&bytes);
    assert!(tab.contains("Piece Size\t16384\n"));
    assert!(tab.contains("Content Size\t100\n"));

    let summary = TorrentSummary::from_bytes(&bytes).unwrap();
    let rows = summary.build_rows();
    let human =
        String::from_utf8(torrent_summary::render::render(&rows, true)).expect("not utf-8");
    assert!(human.contains("16.00 KiB\n"));
    assert!(human.contains("100 B\n"));
    assert!(human.contains("Name          a.txt\n"));
}

#[test]
fn from_metainfo_matches_from_bytes_hash() {
    let bytes = minimal(b"http://tracker", b"");
    let parsed = TorrentSummary::from_bytes(&bytes).unwrap();
    let direct = TorrentSummary::from_metainfo(parsed.metainfo);
    let reread = TorrentSummary::from_bytes(&direct.metainfo.serialize()).unwrap();
    assert_eq!(direct.infohash, reread.infohash);
    assert_eq!(direct.size, reread.size);
}

#[test]
fn from_bytes_rejects_bad_input() {
    assert!(TorrentSummary::from_bytes(&b"not bencode".to_vec()).is_err());
    assert!(TorrentSummary::from_bytes(&b"i42e".to_vec()).is_err());
    assert!(TorrentSummary::from_bytes(&b"de".to_vec()).is_err());
}
