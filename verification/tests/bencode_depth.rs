use std::collections::HashMap;

use backend::{bencode_nesting_depth, extract_file_list, parse_torrent_bytes, MAX_BENCODE_DEPTH};
use lava_torrent::bencode::BencodeElem;
use lava_torrent::torrent::v1::Torrent;

fn nested_lists(levels: usize) -> BencodeElem {
    let mut e = BencodeElem::Integer(1);
    for _ in 0..levels {
        e = BencodeElem::List(vec![e]);
    }
    e
}

/// A single-file torrent with a top-level extra field of `levels` nested lists.
fn torrent_with_nesting(levels: usize) -> Vec<u8> {
    let mut extra = HashMap::new();
    extra.insert("x".to_string(), nested_lists(levels));
    Torrent {
        announce: None,
        announce_list: None,
        length: 10,
        files: None,
        name: "a.mkv".to_string(),
        piece_length: 1 << 20,
        pieces: vec![vec![0xFFu8; 20]],
        extra_fields: Some(extra),
        extra_info_fields: None,
    }
    .encode()
    .expect("encodes")
}

#[test]
fn nesting_depth_of_small_inputs() {
    assert_eq!(bencode_nesting_depth(b""), 0);
    assert_eq!(bencode_nesting_depth(b"i42e"), 0);
    assert_eq!(bencode_nesting_depth(b"le"), 1);
    assert_eq!(bencode_nesting_depth(b"d1:ali1eee"), 2);
    assert_eq!(bencode_nesting_depth(b"4:llll"), 0);
    assert_eq!(bencode_nesting_depth(b"+4:llll"), 0);
    assert_eq!(bencode_nesting_depth(b"l+04:lllle"), 1);
    // A leading zero stops the walk, as it stops the decoder.
    assert_eq!(bencode_nesting_depth(b"l02:llll"), 1);
    // A length past the end ends the walk.
    assert_eq!(bencode_nesting_depth(b"l99:ll"), 1);
    assert_eq!(bencode_nesting_depth(b"lleelllee"), 3);
    assert_eq!(bencode_nesting_depth(b"ei1ell"), 0);
    assert_eq!(bencode_nesting_depth(b"i1ell"), 2);
}

#[test]
fn torrent_files_nest_five_levels() {
    let files = vec![lava_torrent::torrent::v1::File {
        length: 1,
        path: std::path::PathBuf::from("a/b.mkv"),
        extra_fields: None,
    }];
    let bytes = Torrent {
        announce: None,
        announce_list: Some(vec![vec!["http://t".to_string()]]),
        length: 1,
        files: Some(files),
        name: "Pack".to_string(),
        piece_length: 1 << 20,
        pieces: vec![vec![0xFFu8; 20]],
        extra_fields: None,
        extra_info_fields: None,
    }
    .encode()
    .expect("encodes");
    assert_eq!(bencode_nesting_depth(&bytes), 5);
    assert!(parse_torrent_bytes(&bytes).is_some());
}

#[test]
fn nesting_up_to_the_limit_is_decoded() {
    let bytes = torrent_with_nesting(MAX_BENCODE_DEPTH - 1);
    assert_eq!(bencode_nesting_depth(&bytes), MAX_BENCODE_DEPTH);
    let p = parse_torrent_bytes(&bytes).expect("parses");
    assert_eq!(p.name, "a.mkv");
    assert_eq!(extract_file_list(&bytes).expect("decodes").len(), 1);
}

#[test]
fn nesting_past_the_limit_is_refused() {
    let bytes = torrent_with_nesting(MAX_BENCODE_DEPTH);
    assert_eq!(bencode_nesting_depth(&bytes), MAX_BENCODE_DEPTH + 1);
    assert!(parse_torrent_bytes(&bytes).is_none());
    assert!(extract_file_list(&bytes).is_none());
}

#[test]
fn very_deep_input_returns_none() {
    let mut bytes = b"d".to_vec();
    bytes.extend(std::iter::repeat(b'l').take(200_000));
    assert!(parse_torrent_bytes(&bytes).is_none());
    assert!(extract_file_list(&bytes).is_none());
    let lists = vec![b'l'; 200_000];
    assert!(extract_file_list(&lists).is_none());
}
