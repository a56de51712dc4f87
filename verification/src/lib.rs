//! Episode detection in video file names, and `.torrent` metadata helpers for
//! scrapers: privacy classes, download decisions, storage rules, tracker
//! lists and file lists.
pub mod bencode_depth;
pub mod charclass;
pub mod episode_detector;
pub mod episode_patterns;
pub mod path_name;
pub mod text;
pub mod torrent_metadata;
pub mod torrent_type;

pub use bencode_depth::{bencode_nesting_depth, MAX_BENCODE_DEPTH};
pub use episode_detector::{detect_episode, is_video_file, DetectedEpisode};
pub use torrent_metadata::{
    accept_downloaded_torrent, announce_list_from_magnet, extract_file_list, files_from_torrent,
    is_fetchable_torrent_url, is_probable_torrent_bytes, is_video_name, needs_torrent_download,
    parse_torrent_bytes, parsed_torrent_from, resolve_download_url, torrent_file_for_storage,
    ParsedTitle, ParsedTorrent, TorrentEntry, TorrentFile, TorrentMeta, MAX_TORRENT_FILE_BYTES,
};
pub use torrent_type::{
    is_private_torrent_type, jackett_torrent_type, parse_torrent_type_str,
    private_torrent_visible_for_provider, provider_supports_private_trackers,
    prowlarr_torrent_type, should_persist_torrent_file, torrent_type_from_json_value, JsonValue,
    TorrentType,
};
