use std::path::PathBuf;

use backend::{
    accept_downloaded_torrent, announce_list_from_magnet, extract_file_list, files_from_torrent,
    is_fetchable_torrent_url, is_private_torrent_type, is_probable_torrent_bytes, is_video_name,
    jackett_torrent_type, needs_torrent_download, parse_torrent_bytes, parse_torrent_type_str,
    private_torrent_visible_for_provider, provider_supports_private_trackers,
    prowlarr_torrent_type, resolve_download_url, torrent_file_for_storage,
    torrent_type_from_json_value, JsonValue, ParsedTitle, TorrentEntry, TorrentMeta, TorrentType,
    MAX_TORRENT_FILE_BYTES,
};
use lava_torrent::torrent::v1::{File, Torrent};

fn encode(
    name: &str,
    files: Option<Vec<File>>,
    length: i64,
    announce: Option<&str>,
    announce_list: Option<Vec<Vec<String>>>,
) -> Vec<u8> {
    let total = match &files {
        Some(fs) => fs.iter().map(|f| f.length).sum(),
        None => length,
    };
    Torrent {
        announce: announce.map(|a| a.to_string()),
        announce_list,
        length: total,
        files,
        name: name.to_string(),
        piece_length: 1 << 30,
        pieces: vec![vec![0xFFu8; 20]],
        extra_fields: None,
        extra_info_fields: None,
    }
    .encode()
    .expect("encodes")
}

fn strings(v: &[&str]) -> Vec<String> {
    v.iter().map(|s| s.to_string()).collect()
}

// ── privacy classes ─────────────────────────────────────────────────────────

#[test]
fn type_text_ignores_case_space_and_dashes() {
    assert_eq!(parse_torrent_type_str("  Semi-Private \t"), TorrentType::SemiPrivate);
    assert_eq!(parse_torrent_type_str("PRIVATE"), TorrentType::Private);
    assert_eq!(parse_torrent_type_str("web-seed"), TorrentType::WebSeed);
    assert_eq!(parse_torrent_type_str("p-r-i-v-a-t-e"), TorrentType::Private);
    assert_eq!(parse_torrent_type_str(""), TorrentType::Public);
    assert_eq!(parse_torrent_type_str("semi private"), TorrentType::Public);
    assert_eq!(parse_torrent_type_str("anything"), TorrentType::Public);
}

#[test]
fn prowlarr_flag_rules() {
    let none: Vec<String> = vec![];
    assert_eq!(prowlarr_torrent_type(&none, "semi-private"), TorrentType::SemiPrivate);
    assert_eq!(prowlarr_torrent_type(&none, "whatever"), TorrentType::Public);
    assert_eq!(
        prowlarr_torrent_type(&strings(&["FreeLeech", "webseed"]), "private"),
        TorrentType::Public
    );
    assert_eq!(
        prowlarr_torrent_type(&strings(&["webseed", "internal"]), "private"),
        TorrentType::WebSeed
    );
    assert_eq!(
        prowlarr_torrent_type(&strings(&["SEMIPRIVATE", "private"]), "public"),
        TorrentType::SemiPrivate
    );
    assert_eq!(
        prowlarr_torrent_type(&strings(&["internal", "Private"]), "public"),
        TorrentType::Private
    );
}

#[test]
fn jackett_defaults_to_public() {
    assert_eq!(jackett_torrent_type(None), TorrentType::Public);
    assert_eq!(jackett_torrent_type(Some("semi-private")), TorrentType::SemiPrivate);
    assert_eq!(jackett_torrent_type(Some("Private")), TorrentType::Private);
}

#[test]
fn private_classes() {
    assert!(is_private_torrent_type(TorrentType::Private));
    assert!(is_private_torrent_type(TorrentType::SemiPrivate));
    assert!(!is_private_torrent_type(TorrentType::Public));
    assert!(!is_private_torrent_type(TorrentType::WebSeed));
}

#[test]
fn private_tracker_providers() {
    assert!(provider_supports_private_trackers("debridlink"));
    assert!(provider_supports_private_trackers("qbittorrent"));
    assert!(provider_supports_private_trackers("torbox"));
    assert!(!provider_supports_private_trackers("TorBox"));
    assert!(!provider_supports_private_trackers("realdebrid"));
    assert!(!provider_supports_private_trackers(""));
}

#[test]
fn visibility_of_non_private_rows_never_depends_on_provider() {
    for t in [TorrentType::Public, TorrentType::WebSeed] {
        assert!(private_torrent_visible_for_provider(t, "", false));
        assert!(private_torrent_visible_for_provider(t, "realdebrid", true));
    }
    assert!(private_torrent_visible_for_provider(TorrentType::SemiPrivate, "debridlink", true));
    assert!(!private_torrent_visible_for_provider(TorrentType::SemiPrivate, "debridlink", false));
}

#[test]
fn json_torrent_type_member() {
    let obj = |v: JsonValue| JsonValue::Object(vec![("torrent_type".to_string(), v)]);
    assert_eq!(
        torrent_type_from_json_value(&obj(JsonValue::String("Semi-Private".into()))),
        TorrentType::SemiPrivate
    );
    assert_eq!(torrent_type_from_json_value(&obj(JsonValue::Bool(true))), TorrentType::Public);
    assert_eq!(torrent_type_from_json_value(&obj(JsonValue::Null)), TorrentType::Public);
    assert_eq!(
        torrent_type_from_json_value(&JsonValue::String("private".into())),
        TorrentType::Public
    );
    let other = JsonValue::Object(vec![
        ("name".to_string(), JsonValue::String("x".into())),
        ("torrent_type".to_string(), JsonValue::String("private".into())),
    ]);
    assert_eq!(torrent_type_from_json_value(&other), TorrentType::Private);
    assert_eq!(torrent_type_from_json_value(&JsonValue::Object(vec![])), TorrentType::Public);
}

// ── download decisions ──────────────────────────────────────────────────────

#[test]
fn download_needed_rules() {
    let pack = ParsedTitle { seasons: vec![1, 2], episodes: vec![] };
    let h = Some("ad47e255cf017864ec2f5fee57bef18c4b309808");
    assert!(needs_torrent_download(TorrentType::SemiPrivate, "movie", &pack, None, h));
    assert!(needs_torrent_download(TorrentType::Public, "series", &pack, None, h));
    assert!(!needs_torrent_download(TorrentType::WebSeed, "Series", &pack, Some(1), h));
    let none = ParsedTitle { seasons: vec![], episodes: vec![] };
    assert!(!needs_torrent_download(TorrentType::Public, "series", &none, Some(1), h));
    assert!(needs_torrent_download(TorrentType::Public, "movie", &none, None, None));
}

#[test]
fn storage_limits() {
    let max = vec![7u8; MAX_TORRENT_FILE_BYTES];
    assert_eq!(torrent_file_for_storage(TorrentType::SemiPrivate, Some(max.clone())), Some(max));
    assert!(torrent_file_for_storage(TorrentType::Private, Some(vec![])).is_none());
    assert!(torrent_file_for_storage(TorrentType::Private, None).is_none());
    assert!(torrent_file_for_storage(TorrentType::WebSeed, Some(vec![1])).is_none());
    assert_eq!(MAX_TORRENT_FILE_BYTES, 2 * 1024 * 1024);
}

fn pick(t: TorrentType, g: Option<&str>, m: Option<&str>, d: Option<&str>) -> Option<String> {
    resolve_download_url(t, g, m, d)
}

#[test]
fn resolve_download_url_orders() {
    assert_eq!(pick(TorrentType::Public, None, None, None), None);
    assert_eq!(pick(TorrentType::Public, Some(""), Some(""), Some("")), None);
    assert_eq!(
        pick(TorrentType::Public, Some("https://g"), Some("https://m"), Some("magnet:?d")).as_deref(),
        Some("magnet:?d")
    );
    assert_eq!(
        pick(TorrentType::Public, Some("https://g"), Some("https://m"), Some("https://d")).as_deref(),
        Some("https://m")
    );
    assert_eq!(
        pick(TorrentType::Public, Some("https://g"), None, Some("https://d")).as_deref(),
        Some("https://g")
    );
    assert_eq!(pick(TorrentType::Public, None, Some(""), Some("https://d")).as_deref(), Some("https://d"));
    assert_eq!(
        pick(TorrentType::SemiPrivate, Some("magnet:?g"), None, Some("https://d")).as_deref(),
        Some("https://d")
    );
    assert_eq!(
        pick(TorrentType::Private, Some("magnet:?g"), Some("magnet:?m"), Some("")).as_deref(),
        Some("magnet:?g")
    );
}

#[test]
fn fetching_and_accepting_bytes() {
    assert!(!is_fetchable_torrent_url("magnet:?xt=urn:btih:abc"));
    assert!(is_fetchable_torrent_url("https://indexer/torrent/1"));
    assert!(is_fetchable_torrent_url("Magnet:?xt"));
    assert!(is_probable_torrent_bytes(b"d4:infoe"));
    assert!(!is_probable_torrent_bytes(b""));
    assert!(!is_probable_torrent_bytes(b"<html>"));
    assert_eq!(accept_downloaded_torrent(b"d1:a1:be".to_vec()), Some(b"d1:a1:be".to_vec()));
    assert_eq!(accept_downloaded_torrent(b"404 not found".to_vec()), None);
    assert_eq!(accept_downloaded_torrent(vec![]), None);
}

// ── magnet trackers ─────────────────────────────────────────────────────────

#[test]
fn magnet_trackers_are_decoded_in_order() {
    let m = "magnet:?xt=urn:btih:abc&tr=udp%3A%2F%2Ftracker.example%3A80&dn=x&tr=&tr=http%3A%2F%2Fa.b%2Fannounce";
    assert_eq!(
        announce_list_from_magnet(m),
        strings(&["udp://tracker.example:80", "http://a.b/announce"])
    );
}

#[test]
fn magnet_tracker_edge_cases() {
    assert_eq!(announce_list_from_magnet("magnet:?tr=a&tr=b"), strings(&["b"]));
    assert_eq!(announce_list_from_magnet("??tr=a"), strings(&["a"]));
    assert_eq!(announce_list_from_magnet("magnet:?tr=%FF&tr=ok"), strings(&["ok"]));
    assert_eq!(announce_list_from_magnet("x&tr=a+b%20c"), strings(&["a+b c"]));
    assert_eq!(announce_list_from_magnet("x&tr=%zz"), strings(&["%zz"]));
    assert_eq!(announce_list_from_magnet("x&tr=%C3%A9"), strings(&["é"]));
    assert!(announce_list_from_magnet("").is_empty());
    assert!(announce_list_from_magnet("&&&").is_empty());
}

// ── video names ─────────────────────────────────────────────────────────────

#[test]
fn torrent_video_names() {
    for ok in ["a.vob", "a.OGV", "a.ogg", "a.mts", "a.M2TS", "a.iso", "dir/x.ts", "a.b.webm", "a.mkv/"] {
        assert!(is_video_name(ok), "{ok}");
    }
    for no in ["mkv", ".mkv", "a.mkv/..", "a.mpg", "a.mpeg", "a.mkv.part", "a.", ""] {
        assert!(!is_video_name(no), "{no}");
    }
}

// ── decoded torrents ────────────────────────────────────────────────────────

fn meta(name: &str, length: i64, files: Option<Vec<(&str, i64)>>) -> TorrentMeta {
    TorrentMeta {
        info_hash: String::new(),
        name: name.to_string(),
        length,
        files: files.map(|fs| {
            fs.into_iter().map(|(p, l)| TorrentEntry { path: p.to_string(), length: l }).collect()
        }),
        announce: None,
        announce_list: None,
    }
}

#[test]
fn file_indices_are_positions_in_the_torrent() {
    let m = meta("Pack", 30, Some(vec![("notes.txt", 1), ("Show/E01.MKV", 10), ("x.nfo", 1), ("E02.avi", 18)]));
    let fs = files_from_torrent(&m);
    let got: Vec<(i32, String, i64)> = fs.into_iter().map(|f| (f.index, f.path, f.size)).collect();
    assert_eq!(got, vec![(1, "Show/E01.MKV".to_string(), 10), (3, "E02.avi".to_string(), 18)]);
}

#[test]
fn single_file_torrents() {
    let fs = files_from_torrent(&meta("Movie.2020.MKV", 123, None));
    assert_eq!(fs.len(), 1);
    assert_eq!((fs[0].index, fs[0].path.as_str(), fs[0].size), (0, "Movie.2020.MKV", 123));
    assert!(files_from_torrent(&meta("Movie.2020.rar", 123, None)).is_empty());
}

#[test]
fn extracted_paths_join_components() {
    let files = vec![
        File { length: 5, path: PathBuf::from("Season 1/E01.mkv"), extra_fields: None },
        File { length: 6, path: PathBuf::from("Extras/poster.png"), extra_fields: None },
    ];
    let bytes = encode("Show", Some(files), 0, None, None);
    let got = extract_file_list(&bytes).expect("decodes");
    assert_eq!(got.len(), 1);
    assert_eq!((got[0].index, got[0].path.as_str(), got[0].size), (0, "Season 1/E01.mkv", 5));
}

#[test]
fn parse_torrent_bytes_reads_everything() {
    let tiers = vec![
        strings(&["http://t1/announce", "http://t2/announce"]),
        strings(&["", "http://t2/announce", "udp://t3:80"]),
    ];
    let bytes = encode("Film.2021.1080p.mkv", None, 4096, Some("http://t1/announce"), Some(tiers));
    let p = parse_torrent_bytes(&bytes).expect("parses");
    let expected_hash = Torrent::read_from_bytes(&bytes).unwrap().info_hash();
    assert_eq!(p.info_hash, expected_hash.to_lowercase());
    assert_eq!(p.info_hash.len(), 40);
    assert!(p.info_hash.chars().all(|c| c.is_ascii_digit() || ('a'..='f').contains(&c)));
    assert_eq!(p.name, "Film.2021.1080p.mkv");
    assert_eq!(p.total_size, 4096);
    assert_eq!(
        p.announce_list,
        strings(&["http://t1/announce", "http://t2/announce", "udp://t3:80"])
    );
    assert_eq!(p.raw_bytes, bytes);
    assert_eq!(p.files.len(), 1);
    assert_eq!((p.files[0].index, p.files[0].path.as_str(), p.files[0].size), (0, "Film.2021.1080p.mkv", 4096));
}

#[test]
fn parse_torrent_bytes_without_trackers() {
    let bytes = encode("Notes.txt", None, 10, Some(""), None);
    let p = parse_torrent_bytes(&bytes).expect("parses");
    assert!(p.announce_list.is_empty());
    assert!(p.files.is_empty());
}

#[test]
fn parse_torrent_bytes_rejects_non_torrents() {
    assert!(parse_torrent_bytes(b"").is_none());
    assert!(parse_torrent_bytes(b"i1e").is_none());
    assert!(parse_torrent_bytes(b"d4:spam4:eggse").is_none());
    assert!(parse_torrent_bytes(b"dddd").is_none());
    let bytes = encode("a.mkv", None, 10, None, None);
    let mut prefixed = b" ".to_vec();
    prefixed.extend_from_slice(&bytes);
    assert!(parse_torrent_bytes(&prefixed).is_none());
}

#[test]
fn parsed_files_agree_with_file_list() {
    let files = vec![
        File { length: 3, path: PathBuf::from("a.txt"), extra_fields: None },
        File { length: 4, path: PathBuf::from("S01/E01.mkv"), extra_fields: None },
        File { length: 5, path: PathBuf::from("S01/E02.MP4"), extra_fields: None },
    ];
    let bytes = encode("Pack", Some(files), 0, Some("http://t/announce"), None);
    let parsed = parse_torrent_bytes(&bytes).expect("parses");
    let listed = extract_file_list(&bytes).expect("decodes");
    let view = |v: &[backend::TorrentFile]| -> Vec<(i32, String, i64)> {
        v.iter().map(|f| (f.index, f.path.clone(), f.size)).collect()
    };
    assert_eq!(view(&parsed.files), view(&listed));
    assert_eq!(
        view(&listed),
        vec![(1, "S01/E01.mkv".to_string(), 4), (2, "S01/E02.MP4".to_string(), 5)]
    );
    assert_eq!(parsed.total_size, 12);
    assert_eq!(parsed.announce_list, strings(&["http://t/announce"]));
}
