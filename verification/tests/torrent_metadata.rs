use std::path::PathBuf;

use backend::{
    extract_file_list, is_video_name, needs_torrent_download, parse_torrent_type_str,
    private_torrent_visible_for_provider, prowlarr_torrent_type, resolve_download_url,
    should_persist_torrent_file, torrent_file_for_storage, ParsedTitle, TorrentType,
    MAX_TORRENT_FILE_BYTES,
};
use lava_torrent::torrent::v1::{File, Torrent};

const HASH: &str = "ad47e255cf017864ec2f5fee57bef18c4b309808";

fn title(seasons: &[i32], episodes: &[i32]) -> ParsedTitle {
    ParsedTitle { seasons: seasons.to_vec(), episodes: episodes.to_vec() }
}

/// `Show.S01.BDRip`: a season pack.
fn season_pack() -> ParsedTitle {
    title(&[1], &[])
}

/// `Show.S01E05.1080p`: a single episode.
fn single_episode() -> ParsedTitle {
    title(&[1], &[5])
}

fn file(path: &str, length: i64) -> File {
    File { length, path: PathBuf::from(path), extra_fields: None }
}

fn torrent_bytes(
    name: &str,
    files: Option<Vec<File>>,
    length: i64,
    announce: Option<&str>,
    announce_list: Option<Vec<Vec<String>>>,
) -> Vec<u8> {
    let total = match &files {
        Some(fs) => fs.iter().map(|f| f.length).sum(),
        None => length,
    };
    Torrent {
        announce: announce.map(|a| a.to_string()),
        announce_list,
        length: total,
        files,
        name: name.to_string(),
        piece_length: 1 << 30,
        pieces: vec![vec![0xFFu8; 20]],
        extra_fields: None,
        extra_info_fields: None,
    }
    .encode()
    .expect("encodes")
}

/// A season of twelve episodes with a cover picture.
fn season_torrent() -> Vec<u8> {
    let mut files: Vec<File> = (1..=12)
        .map(|e| file(&format!("BoJack.Horseman.S01E{e:02}.1080p.BluRay.x264.mkv"), 1000 + e))
        .collect();
    files.insert(3, file("cover.jpg", 50));
    torrent_bytes("BoJack.Horseman.S01.BDRip.1080p", Some(files), 0, None, None)
}

/// Five episodes of a web release.
fn episodes_torrent() -> Vec<u8> {
    let files: Vec<File> = (1..=5)
        .map(|e| file(&format!("BoJack.Horseman.S01E{e:02}.720p.WEBRip.mp4"), 700 + e))
        .collect();
    torrent_bytes("BoJack.Horseman.S01E01-05.WEBRip.720p", Some(files), 0, None, None)
}

#[test]
fn extracts_video_files_from_multi_file_torrent() {
    let bytes = season_torrent();
    let files = extract_file_list(&bytes).expect("should parse");
    assert_eq!(files.len(), 12);
    for f in &files {
        assert!(is_video_name(&f.path), "file {} is not video: {}", f.index, f.path);
    }
    assert!(!files.iter().any(|f| f.path.contains("cover.jpg")));
}

#[test]
fn extracts_video_files_from_single_file_torrent() {
    let bytes = episodes_torrent();
    let files = extract_file_list(&bytes).expect("should parse");
    assert_eq!(files.len(), 5);
    for f in &files {
        assert!(is_video_name(&f.path));
    }
}

#[test]
fn returns_none_for_invalid_bytes() {
    assert!(extract_file_list(b"").is_none());
    assert!(extract_file_list(b"not bencode").is_none());
}

#[test]
fn detects_video_extensions() {
    assert!(is_video_name("test.mkv"));
    assert!(is_video_name("test.MP4"));
    assert!(is_video_name("test.AVI"));
}

#[test]
fn rejects_non_video_extensions() {
    assert!(!is_video_name("cover.jpg"));
    assert!(!is_video_name("subtitles.srt"));
    assert!(!is_video_name("readme.txt"));
}

#[test]
fn true_for_public_series_season_pack() {
    let parsed = season_pack();
    assert!(needs_torrent_download(TorrentType::Public, "series", &parsed, Some(1), Some(HASH)));
}

#[test]
fn false_for_public_single_episode() {
    let parsed = single_episode();
    assert!(!needs_torrent_download(TorrentType::Public, "series", &parsed, Some(1), Some(HASH)));
}

#[test]
fn true_for_private_any_media() {
    let parsed = single_episode();
    assert!(needs_torrent_download(TorrentType::Private, "series", &parsed, Some(1), Some(HASH)));
}

#[test]
fn true_when_info_hash_missing() {
    let parsed = single_episode();
    assert!(needs_torrent_download(TorrentType::Public, "series", &parsed, Some(1), None));
}

#[test]
fn false_for_movie_season_pack() {
    let parsed = season_pack();
    assert!(!needs_torrent_download(TorrentType::Public, "movie", &parsed, Some(1), Some(HASH)));
}

#[test]
fn false_for_series_with_episodes() {
    let parsed = single_episode();
    assert!(!needs_torrent_download(TorrentType::Public, "series", &parsed, Some(1), Some(HASH)));
}

#[test]
fn resolve_download_url_prefers_download_for_private() {
    let url = resolve_download_url(
        TorrentType::Private,
        Some("magnet:?xt=urn:btih:abc"),
        Some("magnet:?xt=urn:btih:abc"),
        Some("https://indexer/torrent/1"),
    );
    assert_eq!(url.as_deref(), Some("https://indexer/torrent/1"));
}

#[test]
fn resolve_download_url_prefers_magnet_for_public() {
    let url = resolve_download_url(
        TorrentType::Public,
        Some("magnet:?xt=urn:btih:deadbeef"),
        Some("magnet:?xt=urn:btih:deadbeef"),
        Some("https://indexer/torrent/1"),
    );
    assert_eq!(url.as_deref(), Some("magnet:?xt=urn:btih:deadbeef"));
}

#[test]
fn should_persist_file_only_for_private_types() {
    assert!(!should_persist_torrent_file(TorrentType::Public));
    assert!(should_persist_torrent_file(TorrentType::Private));
    assert!(should_persist_torrent_file(TorrentType::SemiPrivate));
}

#[test]
fn torrent_file_for_storage_rejects_oversized() {
    let huge = vec![0u8; MAX_TORRENT_FILE_BYTES + 1];
    assert!(torrent_file_for_storage(TorrentType::Private, Some(huge)).is_none());
    let ok = vec![0u8; 64];
    assert_eq!(torrent_file_for_storage(TorrentType::Private, Some(ok.clone())), Some(ok));
    assert!(torrent_file_for_storage(TorrentType::Public, Some(vec![1, 2, 3])).is_none());
}

#[test]
fn private_torrent_catalog_filter() {
    assert!(private_torrent_visible_for_provider(TorrentType::Public, "realdebrid", true));
    assert!(!private_torrent_visible_for_provider(TorrentType::Private, "realdebrid", true));
    assert!(private_torrent_visible_for_provider(TorrentType::Private, "torbox", true));
    assert!(!private_torrent_visible_for_provider(TorrentType::Private, "torbox", false));
}

#[test]
fn resolve_download_url_private_falls_back_to_magnet() {
    let url = resolve_download_url(
        TorrentType::Private,
        Some("magnet:?xt=urn:btih:deadbeef"),
        Some("magnet:?xt=urn:btih:deadbeef"),
        None,
    );
    assert_eq!(url.as_deref(), Some("magnet:?xt=urn:btih:deadbeef"));
}

#[test]
fn prowlarr_torrent_type_prefers_private_over_freeleech() {
    assert_eq!(
        prowlarr_torrent_type(&["freeleech".into(), "private".into()], "public"),
        TorrentType::Private
    );
}

#[test]
fn parse_torrent_type_str_maps_variants() {
    assert_eq!(parse_torrent_type_str("semiPrivate"), TorrentType::SemiPrivate);
    assert_eq!(parse_torrent_type_str("private"), TorrentType::Private);
    assert_eq!(parse_torrent_type_str("webseed"), TorrentType::WebSeed);
    assert_eq!(parse_torrent_type_str("public"), TorrentType::Public);
}
