# backend

Verified helpers for a media catalog backend, written in Verus:

- **Episode detection** (`src/episode_detector.rs`, `src/episode_patterns.rs`):
  reads a season and episode number out of a video file name. The file-name
  grammar (nine patterns, tried in order, each at its leftmost match) is
  written as executable matchers proved against spec matchers; the character
  classes they use live in `src/charclass.rs`, and Unix path handling in
  `src/path_name.rs`.
- **Torrent metadata** (`src/torrent_type.rs`, `src/torrent_metadata.rs`):
  privacy classes as indexers report them, when a `.torrent` file must be
  downloaded and kept, which URL to fetch, tracker lists from magnet links and
  `.torrent` files, and the video files a torrent holds.
  `src/bencode_depth.rs` measures how deeply bencoded bytes nest, so that
  only bytes within `MAX_BENCODE_DEPTH` levels reach the recursive decoder.

Every public function has a contract over spec functions; the laws that span
several functions are public proof functions named `lemma_*`. Calls into
`lava_torrent`, `urlencoding`, `regex-syntax` and `str::to_lowercase` go
through small trusted wrappers whose doc comments say what is assumed.

`app/` holds what stays outside verification: the HTTP download of `.torrent`
files (`reqwest`, async), and conversions from `serde_json` values and
`lava_torrent` torrents into the library's own types.
