//! `.torrent` download decisions, parsing and storage rules for scrapers.
use vstd::prelude::*;
use crate::bencode_depth::{bencode_nesting_depth, nesting_depth, MAX_BENCODE_DEPTH};
use crate::charclass::is_ascii_hex;
use crate::path_name::{extension_of, extension_range, lemma_extension_of_stem_dot};
use vstd::string::StrSliceExecFns;
use vstd::utf8::{decode_utf8, encode_utf8, is_ascii_chars, valid_utf8};
use crate::text::{
    ascii_lowercase, chars_equal, chars_of, has_prefix, last_index_of, lemma_last_index_of_run, lowercased,
    split_prefix, starts_with_chars, strings_view, to_lowercase,
};
use crate::torrent_type::{is_private_torrent_type, is_private_type, should_persist_torrent_file, TorrentType};

verus! {

/// Largest `.torrent` blob that is stored (2 MiB).
pub const MAX_TORRENT_FILE_BYTES: usize = 2 * 1024 * 1024;

/// A file entry from a `.torrent` file list.
#[derive(Debug, Clone)]
pub struct TorrentFile {
    pub index: i32,
    pub path: String,
    pub size: i64,
}

impl View for TorrentFile {
    type V = (i32, Seq<char>, i64);

    open spec fn view(&self) -> (i32, Seq<char>, i64) {
        (self.index, self.path@, self.size)
    }
}

/// The season and episode lists that a release title names (as the title
/// parser reports them); download decisions read only these two lists.
#[derive(Debug, Clone)]
pub struct ParsedTitle {
    pub seasons: Vec<i32>,
    pub episodes: Vec<i32>,
}

/// Whether `data` may be a `.torrent` file: it starts with `d`, the opening of
/// a bencoded dictionary.
pub open spec fn probable_torrent(data: Seq<u8>) -> bool {
    data.len() > 0 && data[0] == 100u8
}

/// Whether `data` may be a `.torrent` file (its first byte is `d`).
pub fn is_probable_torrent_bytes(data: &[u8]) -> (r: bool)
    ensures
        r == probable_torrent(data@),
{
    data.len() > 0 && data[0] == 100u8
}

/// `series`
pub open spec fn series_word() -> Seq<char> {
    seq!['s', 'e', 'r', 'i', 'e', 's']
}

/// A download is needed when the `.torrent` file must be kept (private
/// classes), when no info hash is known, or for a season pack of a series
/// (no episodes and at least one season in the title).
pub open spec fn download_needed(
    torrent_type: TorrentType,
    media_type: Seq<char>,
    seasons: Seq<i32>,
    episodes: Seq<i32>,
    info_hash: Option<Seq<char>>,
) -> bool {
    ||| is_private_type(torrent_type)
    ||| info_hash is None
    ||| (media_type == series_word() && episodes.len() == 0 && seasons.len() != 0)
}

/// Whether a torrent download is needed for this result: for the private
/// classes, when no info hash is known, and for a series season pack. The
/// season asked for does not change the answer.
pub fn needs_torrent_download(
    torrent_type: TorrentType,
    media_type: &str,
    parsed: &ParsedTitle,
    _season: Option<i32>,
    info_hash: Option<&str>,
) -> (r: bool)
    ensures
        r == download_needed(
            torrent_type,
            media_type@,
            parsed.seasons@,
            parsed.episodes@,
            match info_hash {
                Some(h) => Some(h@),
                None => None,
            },
        ),
{
    if should_persist_torrent_file(torrent_type) || info_hash.is_none() {
        return true;
    }
    let m = chars_of(media_type);
    let n = m.len();
    let is_series = chars_equal(&m, 0, n, &['s', 'e', 'r', 'i', 'e', 's']);
    proof {
        assert(m@.subrange(0, n as int) =~= m@);
    }
    is_series && parsed.episodes.len() == 0 && parsed.seasons.len() != 0
}

/// Bytes are present, non-empty and at most [`MAX_TORRENT_FILE_BYTES`] long.
pub open spec fn storable_size(bytes: Option<Vec<u8>>) -> bool {
    match bytes {
        Some(b) => 0 < b@.len() <= MAX_TORRENT_FILE_BYTES,
        None => false,
    }
}

/// The `.torrent` bytes to store for a torrent of class `t`: only for the
/// private classes, and only when present, non-empty and at most
/// [`MAX_TORRENT_FILE_BYTES`] long; they are returned unchanged.
pub fn torrent_file_for_storage(torrent_type: TorrentType, bytes: Option<Vec<u8>>) -> (r: Option<
    Vec<u8>,
>)
    ensures
        r == (if is_private_type(torrent_type) && storable_size(bytes) {
            bytes
        } else {
            None
        }),
{
    if !should_persist_torrent_file(torrent_type) {
        return None;
    }
    match bytes {
        None => None,
        Some(b) => {
            if b.len() == 0 || b.len() > MAX_TORRENT_FILE_BYTES {
                None
            } else {
                Some(b)
            }
        },
    }
}

/// `magnet:`
pub open spec fn magnet_prefix() -> Seq<char> {
    seq!['m', 'a', 'g', 'n', 'e', 't', ':']
}

/// An optional text, absent when empty.
pub open spec fn non_empty(u: Option<Seq<char>>) -> Option<Seq<char>> {
    match u {
        Some(t) => if t.len() > 0 {
            Some(t)
        } else {
            None
        },
        None => None,
    }
}

/// An optional text that is a magnet link.
pub open spec fn is_magnet(u: Option<Seq<char>>) -> bool {
    u matches Some(t) && has_prefix(t, magnet_prefix())
}

/// The URL to fetch for torrent metadata, among the non-empty candidates:
/// the download URL for private classes; else the first magnet link among
/// guid, magnet URL and download URL; else the magnet URL, the guid or the
/// download URL, in that order.
pub open spec fn resolved_url(
    t: TorrentType,
    guid: Option<Seq<char>>,
    magnet_url: Option<Seq<char>>,
    download_url: Option<Seq<char>>,
) -> Option<Seq<char>> {
    let d = non_empty(download_url);
    let m = non_empty(magnet_url);
    let g = non_empty(guid);
    if is_private_type(t) && d is Some {
        d
    } else if is_magnet(g) {
        g
    } else if is_magnet(m) {
        m
    } else if is_magnet(d) {
        d
    } else if m is Some {
        m
    } else if g is Some {
        g
    } else {
        d
    }
}

/// The view of an optional string slice.
pub open spec fn opt_str(u: Option<&str>) -> Option<Seq<char>> {
    match u {
        Some(t) => Some(t@),
        None => None,
    }
}

/// The view of an optional string.
pub open spec fn opt_string(u: Option<String>) -> Option<Seq<char>> {
    match u {
        Some(t) => Some(t@),
        None => None,
    }
}

fn non_empty_str(u: Option<&str>) -> (r: Option<&str>)
    ensures
        opt_str(r) == non_empty(opt_str(u)),
{
    match u {
        Some(t) => if t.is_empty() {
            None
        } else {
            Some(t)
        },
        None => None,
    }
}

fn is_magnet_str(u: Option<&str>) -> (r: bool)
    ensures
        r == is_magnet(opt_str(u)),
{
    match u {
        Some(t) => {
            let cs = chars_of(t);
            starts_with_chars(&cs, &['m', 'a', 'g', 'n', 'e', 't', ':'])
        },
        None => false,
    }
}

fn owned(u: Option<&str>) -> (r: Option<String>)
    ensures
        opt_string(r) == opt_str(u),
{
    match u {
        Some(t) => Some(t.to_owned()),
        None => None,
    }
}

/// Picks the URL to fetch for torrent metadata.
pub fn resolve_download_url(
    torrent_type: TorrentType,
    guid: Option<&str>,
    magnet_url: Option<&str>,
    download_url: Option<&str>,
) -> (r: Option<String>)
    ensures
        opt_string(r) == resolved_url(
            torrent_type,
            opt_str(guid),
            opt_str(magnet_url),
            opt_str(download_url),
        ),
{
    let download = non_empty_str(download_url);
    let magnet = non_empty_str(magnet_url);
    let guid = non_empty_str(guid);
    if is_private_torrent_type(torrent_type) && download.is_some() {
        return owned(download);
    }
    if is_magnet_str(guid) {
        return owned(guid);
    }
    if is_magnet_str(magnet) {
        return owned(magnet);
    }
    if is_magnet_str(download) {
        return owned(download);
    }
    if magnet.is_some() {
        owned(magnet)
    } else if guid.is_some() {
        owned(guid)
    } else {
        owned(download)
    }
}

/// Whether a URL is fetched for `.torrent` bytes: magnet links are not.
pub fn is_fetchable_torrent_url(url: &str) -> (r: bool)
    ensures
        r == !has_prefix(url@, magnet_prefix()),
{
    let cs = chars_of(url);
    !starts_with_chars(&cs, &['m', 'a', 'g', 'n', 'e', 't', ':'])
}

/// Downloaded bytes are kept when they may be a `.torrent` file.
pub fn accept_downloaded_torrent(bytes: Vec<u8>) -> (r: Option<Vec<u8>>)
    ensures
        r == (if probable_torrent(bytes@) {
            Some(bytes)
        } else {
            None
        }),
{
    if is_probable_torrent_bytes(bytes.as_slice()) {
        Some(bytes)
    } else {
        None
    }
}

// ---------------------------------------------------------------------------
// Video file names in torrents
// ---------------------------------------------------------------------------

/// The extensions of video files inside torrents: mkv, mp4, avi, webm, mov,
/// m4v, ts, wmv, flv, vob, ogv, ogg, mts, m2ts, iso.
pub open spec fn is_torrent_video_extension(e: Seq<char>) -> bool {
    ||| e == seq!['m', 'k', 'v']
    ||| e == seq!['m', 'p', '4']
    ||| e == seq!['a', 'v', 'i']
    ||| e == seq!['w', 'e', 'b', 'm']
    ||| e == seq!['m', 'o', 'v']
    ||| e == seq!['m', '4', 'v']
    ||| e == seq!['t', 's']
    ||| e == seq!['w', 'm', 'v']
    ||| e == seq!['f', 'l', 'v']
    ||| e == seq!['v', 'o', 'b']
    ||| e == seq!['o', 'g', 'v']
    ||| e == seq!['o', 'g', 'g']
    ||| e == seq!['m', 't', 's']
    ||| e == seq!['m', '2', 't', 's']
    ||| e == seq!['i', 's', 'o']
}

/// The path has a listed video extension (compared exactly).
pub open spec fn has_torrent_video_extension(p: Seq<char>) -> bool {
    match extension_of(p) {
        Some(e) => is_torrent_video_extension(e),
        None => false,
    }
}

/// A path names a video: its lower-cased form has a listed video extension.
pub open spec fn is_video_path(p: Seq<char>) -> bool {
    has_torrent_video_extension(lowercased(p))
}

fn ext_is(cs: &Vec<char>, a: usize, b: usize, w: &[char]) -> (r: bool)
    requires
        a <= b <= cs@.len(),
    ensures
        r == (cs@.subrange(a as int, b as int) == w@),
{
    chars_equal(cs, a, b, w)
}

/// Whether the (already lower-cased) path has a listed video extension.
pub fn video_name_extension_listed(path: &str) -> (r: bool)
    ensures
        r == has_torrent_video_extension(path@),
{
    let cs = chars_of(path);
    match extension_range(&cs) {
        None => false,
        Some((a, b)) => {
            ext_is(&cs, a, b, &['m', 'k', 'v']) || ext_is(&cs, a, b, &['m', 'p', '4']) || ext_is(
                &cs,
                a,
                b,
                &['a', 'v', 'i'],
            ) || ext_is(&cs, a, b, &['w', 'e', 'b', 'm']) || ext_is(&cs, a, b, &['m', 'o', 'v'])
                || ext_is(&cs, a, b, &['m', '4', 'v']) || ext_is(&cs, a, b, &['t', 's']) || ext_is(
                &cs,
                a,
                b,
                &['w', 'm', 'v'],
            ) || ext_is(&cs, a, b, &['f', 'l', 'v']) || ext_is(&cs, a, b, &['v', 'o', 'b'])
                || ext_is(&cs, a, b, &['o', 'g', 'v']) || ext_is(&cs, a, b, &['o', 'g', 'g'])
                || ext_is(&cs, a, b, &['m', 't', 's']) || ext_is(&cs, a, b, &['m', '2', 't', 's'])
                || ext_is(&cs, a, b, &['i', 's', 'o'])
        },
    }
}

/// Whether `path` names a video file (extension compared after lower-casing).
pub fn is_video_name(path: &str) -> (r: bool)
    ensures
        r == is_video_path(path@),
        is_ascii_chars(path@) ==> r == has_torrent_video_extension(ascii_lowercase(path@)),
{
    let lower = to_lowercase(path);
    video_name_extension_listed(lower.as_str())
}

// ---------------------------------------------------------------------------
// Trackers of a magnet link
// ---------------------------------------------------------------------------

/// The value of an ASCII hexadecimal digit byte.
pub open spec fn hex_digit_value(b: u8) -> Option<u8> {
    if 48 <= b <= 57 {
        Some((b - 48) as u8)
    } else if 65 <= b <= 70 {
        Some((b - 55) as u8)
    } else if 97 <= b <= 102 {
        Some((b - 87) as u8)
    } else {
        None
    }
}

/// Percent-decoding of bytes: each `%` followed by two hexadecimal digits
/// becomes the byte they spell; every other byte (`+` included) is kept.
pub open spec fn percent_decoded(b: Seq<u8>) -> Seq<u8>
    decreases b.len(),
{
    if b.len() == 0 {
        b
    } else if b[0] == 37u8 && b.len() >= 3 && hex_digit_value(b[1]) is Some && hex_digit_value(
        b[2],
    ) is Some {
        seq![(16 * hex_digit_value(b[1])->0 + hex_digit_value(b[2])->0) as u8] + percent_decoded(
            b.subrange(3, b.len() as int),
        )
    } else {
        seq![b[0]] + percent_decoded(b.subrange(1, b.len() as int))
    }
}

/// `urlencoding::decode`: the percent-decoded UTF-8 bytes of `v` read back as
/// text, or nothing when they are not valid UTF-8.
pub open spec fn url_decoded(v: Seq<char>) -> Option<Seq<char>> {
    let d = percent_decoded(encode_utf8(v));
    if valid_utf8(d) {
        Some(decode_utf8(d))
    } else {
        None
    }
}

/// Trusted: calls `urlencoding::decode` (version 2.1). Its source replaces each
/// `%` followed by two hexadecimal digits with the byte they spell, keeps every
/// other byte, and fails exactly when the result is not valid UTF-8; the
/// contract states that as [`url_decoded`].
#[verifier::external_body]
fn url_decode(v: &str) -> (r: Option<String>)
    ensures
        opt_string(r) == url_decoded(v@),
{
    match urlencoding::decode(v) {
        Ok(d) => Some(d.into_owned()),
        Err(_) => None,
    }
}

/// `part.trim_start_matches('?')`
pub open spec fn strip_question(p: Seq<char>) -> Seq<char>
    decreases p.len(),
{
    if p.len() > 0 && p[0] == '?' {
        strip_question(p.drop_first())
    } else {
        p
    }
}

/// `tr=`
pub open spec fn tracker_key() -> Seq<char> {
    seq!['t', 'r', '=']
}

/// The tracker of one `&`-separated part of a magnet link: after leading `?`
/// characters, a part `tr=VALUE` gives the decoded value (empty when it does
/// not decode); any other part gives none.
pub open spec fn tracker_of_part(part: Seq<char>) -> Option<Seq<char>> {
    let p = strip_question(part);
    if has_prefix(p, tracker_key()) {
        Some(
            match url_decoded(p.subrange(3, p.len() as int)) {
                Some(d) => d,
                None => seq![],
            },
        )
    } else {
        None
    }
}

/// The non-empty trackers of the given parts, in order.
pub open spec fn trackers_of(parts: Seq<Seq<char>>) -> Seq<Seq<char>>
    decreases parts.len(),
{
    if parts.len() == 0 {
        seq![]
    } else {
        let prev = trackers_of(parts.drop_last());
        match tracker_of_part(parts.last()) {
            Some(u) => if u.len() > 0 {
                prev.push(u)
            } else {
                prev
            },
            None => prev,
        }
    }
}

/// The tracker URLs (`tr=` parameters, decoded, empty ones dropped) of a magnet link.
pub open spec fn magnet_trackers(magnet: Seq<char>) -> Seq<Seq<char>> {
    trackers_of(split_prefix(magnet, magnet.len() as int, '&'))
}

/// Appends the tracker of the part `cs[a..b]` of `magnet`, if it has a non-empty one.
fn push_tracker(magnet: &str, cs: &Vec<char>, a: usize, b: usize, out: &mut Vec<String>)
    requires
        cs@ == magnet@,
        a <= b <= cs@.len(),
    ensures
        strings_view(final(out)@) == match tracker_of_part(cs@.subrange(a as int, b as int)) {
            Some(u) => if u.len() > 0 {
                strings_view(old(out)@).push(u)
            } else {
                strings_view(old(out)@)
            },
            None => strings_view(old(out)@),
        },
{
    let mut k: usize = a;
    while k < b && cs[k] == '?'
        invariant
            a <= k <= b <= cs@.len(),
            strip_question(cs@.subrange(a as int, b as int)) == strip_question(
                cs@.subrange(k as int, b as int),
            ),
        decreases b - k,
    {
        assert(cs@.subrange(k as int, b as int).drop_first() =~= cs@.subrange(k + 1, b as int));
        k = k + 1;
    }
    let ghost p = cs@.subrange(k as int, b as int);
    assert(strip_question(p) == p);
    if b - k >= 3 && chars_equal(cs, k, k + 3, &['t', 'r', '=']) {
        assert(p.subrange(0, 3) =~= cs@.subrange(k as int, k + 3));
        assert(has_prefix(p, tracker_key()));
        assert(p.subrange(3, p.len() as int) =~= cs@.subrange(k + 3, b as int));
        let v = magnet.substring_char(k + 3, b);
        let ghost old_view = strings_view(out@);
        match url_decode(v) {
            Some(d) => {
                if !d.as_str().is_empty() {
                    out.push(d);
                    assert(strings_view(out@) =~= old_view.push(d@));
                }
            },
            None => {},
        }
    } else {
        proof {
            if has_prefix(p, tracker_key()) {
                assert(p.subrange(0, 3) =~= cs@.subrange(k as int, k + 3));
            }
        }
    }
}

/// The tracker URLs of a magnet link: every `tr=` parameter, percent-decoded,
/// in order, empty ones left out.
pub fn announce_list_from_magnet(magnet: &str) -> (r: Vec<String>)
    ensures
        strings_view(r@) == magnet_trackers(magnet@),
{
    let cs = chars_of(magnet);
    let mut out: Vec<String> = Vec::new();
    let mut st: usize = 0;
    let mut i: usize = 0;
    let ghost mut parts: Seq<Seq<char>> = seq![];
    while i < cs.len()
        invariant
            cs@ == magnet@,
            st <= i <= cs@.len(),
            forall|j: int| st <= j < i ==> cs@[j] != '&',
            st > 0 ==> cs@[st - 1] == '&',
            parts == (if st == 0 {
                seq![]
            } else {
                split_prefix(cs@, st - 1, '&')
            }),
            strings_view(out@) == trackers_of(parts),
        decreases cs@.len() - i,
    {
        if cs[i] == '&' {
            push_tracker(magnet, &cs, st, i, &mut out);
            proof {
                lemma_last_index_of_run(cs@, st as int, i as int, '&');
                let next = parts.push(cs@.subrange(st as int, i as int));
                assert(split_prefix(cs@, i as int, '&') == next);
                assert(next.drop_last() =~= parts);
                parts = next;
            }
            st = i + 1;
        }
        i = i + 1;
    }
    push_tracker(magnet, &cs, st, cs.len(), &mut out);
    proof {
        lemma_last_index_of_run(cs@, st as int, cs@.len() as int, '&');
        let next = parts.push(cs@.subrange(st as int, cs@.len() as int));
        assert(split_prefix(cs@, cs@.len() as int, '&') == next);
        assert(next.drop_last() =~= parts);
    }
    out
}

// ---------------------------------------------------------------------------
// Decoded `.torrent` files
// ---------------------------------------------------------------------------

/// A file listed in a multi-file torrent.
#[derive(Debug, Clone)]
pub struct TorrentEntry {
    /// Path relative to the torrent's name, components joined by `/`.
    pub path: String,
    /// Size in bytes.
    pub length: i64,
}

/// What the scrapers read of a decoded `.torrent` file.
#[derive(Debug, Clone)]
pub struct TorrentMeta {
    /// The info hash as hexadecimal text.
    pub info_hash: String,
    /// The file name (single-file torrent) or suggested directory name.
    pub name: String,
    /// Total size in bytes.
    pub length: i64,
    /// The files of a multi-file torrent; `None` for a single-file torrent.
    pub files: Option<Vec<TorrentEntry>>,
    /// The tracker URL.
    pub announce: Option<String>,
    /// Tiers of tracker URLs.
    pub announce_list: Option<Vec<Vec<String>>>,
}

/// The contents of a [`TorrentMeta`].
pub struct TorrentMetaView {
    pub info_hash: Seq<char>,
    pub name: Seq<char>,
    pub length: i64,
    pub files: Option<Seq<(Seq<char>, i64)>>,
    pub announce: Option<Seq<char>>,
    pub announce_list: Option<Seq<Seq<Seq<char>>>>,
}

/// The contents of a list of torrent entries.
pub open spec fn entries_view(fs: Seq<TorrentEntry>) -> Seq<(Seq<char>, i64)> {
    fs.map_values(|e: TorrentEntry| (e.path@, e.length))
}

/// The contents of tiers of tracker URLs.
pub open spec fn tiers_view(l: Seq<Vec<String>>) -> Seq<Seq<Seq<char>>> {
    l.map_values(|t: Vec<String>| strings_view(t@))
}

impl View for TorrentMeta {
    type V = TorrentMetaView;

    open spec fn view(&self) -> TorrentMetaView {
        TorrentMetaView {
            info_hash: self.info_hash@,
            name: self.name@,
            length: self.length,
            files: match self.files {
                Some(fs) => Some(entries_view(fs@)),
                None => None,
            },
            announce: match self.announce {
                Some(a) => Some(a@),
                None => None,
            },
            announce_list: match self.announce_list {
                Some(l) => Some(tiers_view(l@)),
                None => None,
            },
        }
    }
}

/// The fields of a decoded `.torrent` file that the scrapers read.
pub struct DecodedTorrentView {
    pub name: Seq<char>,
    pub length: i64,
    pub files: Option<Seq<(Seq<char>, i64)>>,
    pub announce: Option<Seq<char>>,
    pub announce_list: Option<Seq<Seq<Seq<char>>>>,
}

/// The decoded fields of a [`TorrentMetaView`].
pub open spec fn decoded_fields(m: TorrentMetaView) -> DecodedTorrentView {
    DecodedTorrentView {
        name: m.name,
        length: m.length,
        files: m.files,
        announce: m.announce,
        announce_list: m.announce_list,
    }
}

/// What `lava_torrent`'s `Torrent::read_from_bytes` decodes from the bytes of a
/// `.torrent` file (file paths through `to_string_lossy`), or nothing when they
/// are not a valid torrent.
pub uninterp spec fn decoded_torrent(bytes: Seq<u8>) -> Option<DecodedTorrentView>;

/// What `lava_torrent`'s `Torrent::info_hash` returns for the torrent that
/// `Torrent::read_from_bytes` decodes from `bytes`.
pub uninterp spec fn torrent_info_hash(bytes: Seq<u8>) -> Seq<char>;

/// The torrent read from `bytes`, with its info hash: none when they nest
/// deeper than [`MAX_BENCODE_DEPTH`] or do not decode.
pub open spec fn torrent_of_bytes(bytes: Seq<u8>) -> Option<TorrentMetaView> {
    if nesting_depth(bytes) > MAX_BENCODE_DEPTH {
        None
    } else {
        match decoded_torrent(bytes) {
            Some(f) => Some(
                TorrentMetaView {
                    info_hash: torrent_info_hash(bytes),
                    name: f.name,
                    length: f.length,
                    files: f.files,
                    announce: f.announce,
                    announce_list: f.announce_list,
                },
            ),
            None => None,
        }
    }
}

/// Trusted: calls `lava_torrent::torrent::v1::Torrent::read_from_bytes` and, on
/// success, `Torrent::info_hash` on the decoded torrent, and copies the fields
/// that the scrapers read. Both results depend on the bytes alone; the
/// contract names each. The decoder recurses once per open list or
/// dictionary, so the input is required to nest at most
/// [`MAX_BENCODE_DEPTH`] levels, a depth at which it returns.
#[verifier::external_body]
fn read_torrent(bytes: &[u8]) -> (r: Option<TorrentMeta>)
    requires
        nesting_depth(bytes@) <= MAX_BENCODE_DEPTH,
    ensures
        match r {
            Some(m) => decoded_torrent(bytes@) == Some(decoded_fields(m@)) && m@.info_hash
                == torrent_info_hash(bytes@),
            None => decoded_torrent(bytes@) is None,
        },
{
    let t = lava_torrent::torrent::v1::Torrent::read_from_bytes(bytes).ok()?;
    let to_entry = |f: &lava_torrent::torrent::v1::File|
        TorrentEntry { path: f.path.to_string_lossy().into_owned(), length: f.length };
    let files = t.files.as_ref().map(|fs| fs.iter().map(to_entry).collect());
    Some(TorrentMeta {
        info_hash: t.info_hash(),
        name: t.name.clone(),
        length: t.length,
        files,
        announce: t.announce.clone(),
        announce_list: t.announce_list.clone(),
    })
}

/// The video entries among the first `n` files, with their positions in the
/// file list (as `i32`).
pub open spec fn video_entries(fs: Seq<(Seq<char>, i64)>, n: nat) -> Seq<(i32, Seq<char>, i64)>
    decreases n,
{
    if n == 0 || n > fs.len() {
        seq![]
    } else {
        let prev = video_entries(fs, (n - 1) as nat);
        let e = fs[n - 1];
        if is_video_path(e.0) {
            prev.push((((n - 1) as int) as i32, e.0, e.1))
        } else {
            prev
        }
    }
}

/// The video files of a torrent: the video entries of a multi-file torrent,
/// or the single file (index 0) when its name is a video.
pub open spec fn video_files(m: TorrentMetaView) -> Seq<(i32, Seq<char>, i64)> {
    match m.files {
        Some(fs) => video_entries(fs, fs.len()),
        None => if is_video_path(m.name) {
            seq![(0i32, m.name, m.length)]
        } else {
            seq![]
        },
    }
}

/// The contents of a list of torrent files.
pub open spec fn files_view(v: Seq<TorrentFile>) -> Seq<(i32, Seq<char>, i64)> {
    v.map_values(|f: TorrentFile| f@)
}

/// The video files of a decoded torrent.
pub fn files_from_torrent(torrent: &TorrentMeta) -> (r: Vec<TorrentFile>)
    ensures
        files_view(r@) == video_files(torrent@),
{
    match &torrent.files {
        Some(files) => {
            let mut out: Vec<TorrentFile> = Vec::new();
            let mut i: usize = 0;
            while i < files.len()
                invariant
                    i <= files@.len(),
                    torrent.files == Some(*files),
                    files_view(out@) == video_entries(entries_view(files@), i as nat),
                decreases files@.len() - i,
            {
                let path = files[i].path.clone();
                let ghost prev = files_view(out@);
                if is_video_name(path.as_str()) {
                    out.push(TorrentFile { index: i as i32, path, size: files[i].length });
                    assert(files_view(out@) =~= prev.push(((i as int) as i32, files@[i as int].path@, files@[i as int].length)));
                }
            i = i + 1;
            }
            out
        },
        None => {
            let path = torrent.name.clone();
            if is_video_name(path.as_str()) {
                let out = vec![TorrentFile { index: 0, path, size: torrent.length }];
                assert(files_view(out@) =~= seq![(0i32, torrent@.name, torrent@.length)]);
                out
            } else {
                let out: Vec<TorrentFile> = Vec::new();
                assert(files_view(out@) =~= seq![]);
                out
            }
        },
    }
}

/// The video files listed in the bytes of a `.torrent` file, or nothing when
/// they nest deeper than [`MAX_BENCODE_DEPTH`] or do not decode.
pub fn extract_file_list(bytes: &[u8]) -> (r: Option<Vec<TorrentFile>>)
    ensures
        match r {
            Some(v) => torrent_of_bytes(bytes@) matches Some(m) && files_view(v@) == video_files(m),
            None => torrent_of_bytes(bytes@) is None,
        },
{
    if bencode_nesting_depth(bytes) > MAX_BENCODE_DEPTH {
        return None;
    }
    let meta = read_torrent(bytes)?;
    Some(files_from_torrent(&meta))
}

/// Parsed metadata from a `.torrent` file.
#[derive(Debug, Clone)]
pub struct ParsedTorrent {
    pub info_hash: String,
    pub name: String,
    pub total_size: i64,
    pub announce_list: Vec<String>,
    pub raw_bytes: Vec<u8>,
    pub files: Vec<TorrentFile>,
}

/// The contents of a [`ParsedTorrent`].
pub struct ParsedTorrentView {
    pub info_hash: Seq<char>,
    pub name: Seq<char>,
    pub total_size: i64,
    pub announce_list: Seq<Seq<char>>,
    pub raw_bytes: Seq<u8>,
    pub files: Seq<(i32, Seq<char>, i64)>,
}

impl View for ParsedTorrent {
    type V = ParsedTorrentView;

    open spec fn view(&self) -> ParsedTorrentView {
        ParsedTorrentView {
            info_hash: self.info_hash@,
            name: self.name@,
            total_size: self.total_size,
            announce_list: strings_view(self.announce_list@),
            raw_bytes: self.raw_bytes@,
            files: files_view(self.files@),
        }
    }
}

/// The contents of an optional [`ParsedTorrent`].
pub open spec fn opt_parsed(r: Option<ParsedTorrent>) -> Option<ParsedTorrentView> {
    match r {
        Some(p) => Some(p@),
        None => None,
    }
}

/// Adds a tracker URL unless it is empty or already listed.
pub open spec fn add_url(acc: Seq<Seq<char>>, u: Seq<char>) -> Seq<Seq<char>> {
    if u.len() > 0 && !acc.contains(u) {
        acc.push(u)
    } else {
        acc
    }
}

/// Adds tracker URLs in order.
pub open spec fn add_urls(acc: Seq<Seq<char>>, urls: Seq<Seq<char>>) -> Seq<Seq<char>>
    decreases urls.len(),
{
    if urls.len() == 0 {
        acc
    } else {
        add_url(add_urls(acc, urls.drop_last()), urls.last())
    }
}

/// The URLs of all tiers, tier after tier.
pub open spec fn flatten_tiers(tiers: Seq<Seq<Seq<char>>>) -> Seq<Seq<char>>
    decreases tiers.len(),
{
    if tiers.len() == 0 {
        seq![]
    } else {
        flatten_tiers(tiers.drop_last()) + tiers.last()
    }
}

/// The trackers of a torrent: its announce URL when non-empty, then every
/// non-empty URL of the announce list not seen before, in order.
pub open spec fn announce_urls(m: TorrentMetaView) -> Seq<Seq<char>> {
    let first: Seq<Seq<char>> = match m.announce {
        Some(a) => if a.len() > 0 {
            seq![a]
        } else {
            seq![]
        },
        None => seq![],
    };
    match m.announce_list {
        Some(tiers) => add_urls(first, flatten_tiers(tiers)),
        None => first,
    }
}

/// An info hash of 40 ASCII hexadecimal digits.
pub open spec fn valid_info_hash(h: Seq<char>) -> bool {
    h.len() == 40 && forall|k: int| 0 <= k < h.len() ==> is_ascii_hex(h[k])
}

/// The parsed metadata of a decoded torrent read from `bytes`: none when its
/// info hash is not 40 hexadecimal digits; otherwise the lower-cased info
/// hash, name, total size, trackers, the bytes themselves and the video files.
pub open spec fn parsed_from(m: TorrentMetaView, bytes: Seq<u8>) -> Option<ParsedTorrentView> {
    if valid_info_hash(m.info_hash) {
        Some(
            ParsedTorrentView {
                info_hash: lowercased(m.info_hash),
                name: m.name,
                total_size: m.length,
                announce_list: announce_urls(m),
                raw_bytes: bytes,
                files: video_files(m),
            },
        )
    } else {
        None
    }
}

/// The parsed metadata of the bytes of a `.torrent` file.
pub open spec fn parsed_torrent(bytes: Seq<u8>) -> Option<ParsedTorrentView> {
    if !probable_torrent(bytes) {
        None
    } else {
        match torrent_of_bytes(bytes) {
            Some(m) => parsed_from(m, bytes),
            None => None,
        }
    }
}

/// Whether `u` is among the texts of `acc`.
fn listed(acc: &Vec<String>, u: &String) -> (r: bool)
    ensures
        r == strings_view(acc@).contains(u@),
{
    let mut j: usize = 0;
    while j < acc.len()
        invariant
            j <= acc@.len(),
            forall|k: int| 0 <= k < j ==> acc@[k]@ != u@,
        decreases acc@.len() - j,
    {
        if acc[j] == *u {
            assert(strings_view(acc@)[j as int] == u@);
            return true;
        }
        j = j + 1;
    }
    assert(!strings_view(acc@).contains(u@)) by {
        if strings_view(acc@).contains(u@) {
            let k = choose|k: int| 0 <= k < strings_view(acc@).len() && strings_view(acc@)[k] == u@;
            assert(acc@[k]@ == u@);
        }
    }
    false
}

/// The tracker list of a decoded torrent.
fn announce_list_of(meta: &TorrentMeta) -> (r: Vec<String>)
    ensures
        strings_view(r@) == announce_urls(meta@),
{
    let mut acc: Vec<String> = Vec::new();
    match &meta.announce {
        Some(a) => {
            if !a.as_str().is_empty() {
                acc.push(a.clone());
            }
        },
        None => {},
    }
    assert(strings_view(acc@) =~= match meta@.announce {
        Some(a) => if a.len() > 0 {
            seq![a]
        } else {
            seq![]
        },
        None => seq![],
    });
    let ghost first = strings_view(acc@);
    match &meta.announce_list {
        None => acc,
        Some(tiers) => {
            let ghost tv = tiers_view(tiers@);
            let mut t: usize = 0;
            while t < tiers.len()
                invariant
                    t <= tiers@.len(),
                    tv == tiers_view(tiers@),
                    strings_view(acc@) == add_urls(first, flatten_tiers(tv.take(t as int))),
                decreases tiers@.len() - t,
            {
                let tier = &tiers[t];
                let mut k: usize = 0;
                assert(tier@.take(0) =~= seq![]);
                assert(flatten_tiers(tv.take(t as int)) + strings_view(tier@.take(0)) =~= flatten_tiers(tv.take(t as int)));
                while k < tier.len()
                    invariant
                        t < tiers@.len(),
                        tier == tiers@[t as int],
                        k <= tier@.len(),
                        tv == tiers_view(tiers@),
                        strings_view(acc@) == add_urls(
                            first,
                            flatten_tiers(tv.take(t as int)) + strings_view(tier@.take(k as int)),
                        ),
                    decreases tier@.len() - k,
                {
                    let url = &tier[k];
                    let ghost before = flatten_tiers(tv.take(t as int)) + strings_view(tier@.take(k as int));
                    let ghost after = flatten_tiers(tv.take(t as int)) + strings_view(tier@.take(k + 1));
                    assert(after =~= before.push(url@));
                    assert(after.drop_last() =~= before);
                    if !url.as_str().is_empty() && !listed(&acc, url) {
                        acc.push(url.clone());
                        assert(strings_view(acc@) =~= add_urls(first, before).push(url@));
                    }
                    k = k + 1;
                }
                assert(tier@.take(tier@.len() as int) =~= tier@);
                assert(tv.take(t + 1).drop_last() =~= tv.take(t as int));
                assert(tv[t as int] == strings_view(tier@));
                t = t + 1;
            }
            assert(tv.take(tiers@.len() as int) =~= tv);
            acc
        },
    }
}

/// Every character of `h` is an ASCII hexadecimal digit and there are 40 of them.
fn is_valid_info_hash(h: &Vec<char>) -> (r: bool)
    ensures
        r == valid_info_hash(h@),
{
    if h.len() != 40 {
        return false;
    }
    let mut k: usize = 0;
    while k < h.len()
        invariant
            k <= h@.len(),
            forall|j: int| 0 <= j < k ==> is_ascii_hex(h@[j]),
        decreases h@.len() - k,
    {
        let c = h[k];
        if !(('0' <= c && c <= '9') || ('a' <= c && c <= 'f') || ('A' <= c && c <= 'F')) {
            return false;
        }
        k = k + 1;
    }
    true
}

/// 40 lower-case hexadecimal digits.
pub open spec fn lower_hex_hash(h: Seq<char>) -> bool {
    h.len() == 40 && forall|k: int| 0 <= k < h.len() ==> ('0' <= #[trigger] h[k] <= '9' || 'a' <= h[k] <= 'f')
}

/// The parsed metadata of a decoded torrent read from `bytes`.
pub fn parsed_torrent_from(meta: &TorrentMeta, bytes: &[u8]) -> (r: Option<ParsedTorrent>)
    ensures
        opt_parsed(r) == parsed_from(meta@, bytes@),
        r matches Some(p) ==> lower_hex_hash(p.info_hash@),
{
    let h = chars_of(meta.info_hash.as_str());
    if !is_valid_info_hash(&h) {
        return None;
    }
    let info_hash = to_lowercase(meta.info_hash.as_str());
    proof {
        assert(is_ascii_chars(h@));
        let l = ascii_lowercase(h@);
        assert(info_hash@ == l);
        assert forall|k: int| 0 <= k < l.len() implies ('0' <= #[trigger] l[k] <= '9' || 'a' <= l[k] <= 'f') by {
            assert(is_ascii_hex(h@[k]));
        }
    }
    let announce_list = announce_list_of(meta);
    let files = files_from_torrent(meta);
    Some(ParsedTorrent {
        info_hash,
        name: meta.name.clone(),
        total_size: meta.length,
        announce_list,
        raw_bytes: vstd::slice::slice_to_vec(bytes),
        files,
    })
}

/// Parses the bytes of a `.torrent` file: none unless they start like a
/// torrent, nest at most [`MAX_BENCODE_DEPTH`] levels, decode, and carry a
/// 40-digit hexadecimal info hash.
pub fn parse_torrent_bytes(bytes: &[u8]) -> (r: Option<ParsedTorrent>)
    ensures
        opt_parsed(r) == parsed_torrent(bytes@),
        r matches Some(p) ==> lower_hex_hash(p.info_hash@),
{
    if !is_probable_torrent_bytes(bytes) || bencode_nesting_depth(bytes) > MAX_BENCODE_DEPTH {
        return None;
    }
    match read_torrent(bytes) {
        Some(meta) => parsed_torrent_from(&meta, bytes),
        None => None,
    }
}

// ---------------------------------------------------------------------------
// Laws
// ---------------------------------------------------------------------------

/// Law: the URL picked for a result is one of its non-empty candidates, and a
/// URL is picked exactly when some candidate is non-empty; for a private class
/// with a download URL, that URL is picked.
pub proof fn lemma_resolved_url_is_candidate(
    t: TorrentType,
    guid: Option<Seq<char>>,
    magnet_url: Option<Seq<char>>,
    download_url: Option<Seq<char>>,
)
    ensures
        resolved_url(t, guid, magnet_url, download_url) matches Some(u) ==> u.len() > 0 && (
        guid == Some(u) || magnet_url == Some(u) || download_url == Some(u)),
        resolved_url(t, guid, magnet_url, download_url) is Some <==> (non_empty(guid) is Some
            || non_empty(magnet_url) is Some || non_empty(download_url) is Some),
        is_private_type(t) && non_empty(download_url) is Some ==> resolved_url(
            t,
            guid,
            magnet_url,
            download_url,
        ) == download_url,
{
}

proof fn lemma_trackers_non_empty(parts: Seq<Seq<char>>)
    ensures
        forall|k: int| 0 <= k < trackers_of(parts).len() ==> trackers_of(parts)[k].len() > 0,
    decreases parts.len(),
{
    if parts.len() > 0 {
        lemma_trackers_non_empty(parts.drop_last());
        let prev = trackers_of(parts.drop_last());
        match tracker_of_part(parts.last()) {
            Some(u) => if u.len() > 0 {
                let next = prev.push(u);
                assert forall|k: int| 0 <= k < next.len() implies next[k].len() > 0 by {
                    if k < prev.len() {
                        assert(next[k] == prev[k]);
                    }
                }
            },
            None => {},
        }
    }
}

/// Law: no tracker taken from a magnet link is empty.
pub proof fn lemma_magnet_trackers_non_empty(magnet: Seq<char>)
    ensures
        forall|k: int| 0 <= k < magnet_trackers(magnet).len() ==> magnet_trackers(magnet)[k].len()
            > 0,
{
    lemma_trackers_non_empty(split_prefix(magnet, magnet.len() as int, '&'));
}

/// A list of tracker URLs without empty entries and without repeats.
pub open spec fn distinct_urls(l: Seq<Seq<char>>) -> bool {
    &&& forall|k: int| 0 <= k < l.len() ==> l[k].len() > 0
    &&& forall|j: int, k: int| 0 <= j < k < l.len() ==> l[j] != l[k]
}

proof fn lemma_add_urls_distinct(acc: Seq<Seq<char>>, urls: Seq<Seq<char>>)
    requires
        distinct_urls(acc),
    ensures
        distinct_urls(add_urls(acc, urls)),
    decreases urls.len(),
{
    if urls.len() > 0 {
        lemma_add_urls_distinct(acc, urls.drop_last());
        let prev = add_urls(acc, urls.drop_last());
        let u = urls.last();
        if u.len() > 0 && !prev.contains(u) {
            let next = prev.push(u);
            assert forall|j: int, k: int| 0 <= j < k < next.len() implies next[j] != next[k] by {
                if k == next.len() - 1 {
                    assert(next[j] == prev[j]);
                    if prev[j] == u {
                        assert(prev.contains(u));
                    }
                }
            }
        }
    }
}

/// Law: the tracker list of a parsed torrent has no empty entries and no repeats.
pub proof fn lemma_announce_urls_distinct(m: TorrentMetaView)
    ensures
        distinct_urls(announce_urls(m)),
{
    let first: Seq<Seq<char>> = match m.announce {
        Some(a) => if a.len() > 0 {
            seq![a]
        } else {
            seq![]
        },
        None => seq![],
    };
    assert(distinct_urls(first));
    match m.announce_list {
        Some(tiers) => lemma_add_urls_distinct(first, flatten_tiers(tiers)),
        None => {},
    }
}

proof fn lemma_video_entries_are_videos(fs: Seq<(Seq<char>, i64)>, n: nat)
    ensures
        forall|k: int|
            0 <= k < video_entries(fs, n).len() ==> is_video_path(#[trigger] video_entries(fs, n)[k].1),
    decreases n,
{
    if n > 0 && n <= fs.len() {
        lemma_video_entries_are_videos(fs, (n - 1) as nat);
        let prev = video_entries(fs, (n - 1) as nat);
        let e = fs[n - 1];
        if is_video_path(e.0) {
            let next = prev.push((((n - 1) as int) as i32, e.0, e.1));
            assert forall|k: int| 0 <= k < next.len() implies is_video_path(#[trigger] next[k].1) by {
                if k < prev.len() {
                    assert(next[k] == prev[k]);
                }
            }
        }
    }
}

/// Law: every file reported from a torrent names a video.
pub proof fn lemma_video_files_are_videos(m: TorrentMetaView)
    ensures
        forall|k: int| 0 <= k < video_files(m).len() ==> is_video_path(#[trigger] video_files(m)[k].1),
{
    match m.files {
        Some(fs) => lemma_video_entries_are_videos(fs, fs.len()),
        None => {},
    }
}

/// Law: parsed metadata comes only from bytes that start like a torrent, and
/// keeps those bytes as they are.
pub proof fn lemma_parsed_keeps_bytes(bytes: Seq<u8>)
    ensures
        parsed_torrent(bytes) matches Some(p) ==> probable_torrent(bytes) && p.raw_bytes == bytes,
{
}

/// Law: a parsed torrent lists exactly the files that the file list of the same
/// bytes gives: the video files of the decoded torrent.
pub proof fn lemma_parsed_files_match_file_list(bytes: Seq<u8>)
    ensures
        parsed_torrent(bytes) matches Some(p) ==> (torrent_of_bytes(bytes) matches Some(m)
            && p.files == video_files(m)),
{
}

/// Law: a file named `stem.e` (a plain stem, alone or under any directory,
/// and an extension `e` without dots) is a video exactly when `e`, compared on
/// the lower-cased name, is mkv, mp4, avi, webm, mov, m4v, ts, wmv, flv, vob,
/// ogv, ogg, mts, m2ts or iso.
pub proof fn lemma_torrent_video_extensions(dir: Seq<char>, stem: Seq<char>, e: Seq<char>)
    requires
        stem.len() > 0,
        forall|k: int| 0 <= k < stem.len() ==> stem[k] != '/',
        e.len() > 0,
        forall|k: int| 0 <= k < e.len() ==> e[k] != '/' && e[k] != '.',
    ensures
        has_torrent_video_extension(stem + seq!['.'] + e) <==> {
            ||| e =~= seq!['m', 'k', 'v']
            ||| e =~= seq!['m', 'p', '4']
            ||| e =~= seq!['a', 'v', 'i']
            ||| e =~= seq!['w', 'e', 'b', 'm']
            ||| e =~= seq!['m', 'o', 'v']
            ||| e =~= seq!['m', '4', 'v']
            ||| e =~= seq!['t', 's']
            ||| e =~= seq!['w', 'm', 'v']
            ||| e =~= seq!['f', 'l', 'v']
            ||| e =~= seq!['v', 'o', 'b']
            ||| e =~= seq!['o', 'g', 'v']
            ||| e =~= seq!['o', 'g', 'g']
            ||| e =~= seq!['m', 't', 's']
            ||| e =~= seq!['m', '2', 't', 's']
            ||| e =~= seq!['i', 's', 'o']
        },
        has_torrent_video_extension(dir + seq!['/'] + stem + seq!['.'] + e)
            == has_torrent_video_extension(stem + seq!['.'] + e),
{
    lemma_extension_of_stem_dot(dir, stem, e);
}

/// Law: for a torrent of a public class with a known info hash, a title that
/// names an episode never needs a download, whatever the media type; a series
/// title with a season and no episode always does; and a private class or a
/// missing info hash always does.
pub proof fn lemma_download_decisions(
    t: TorrentType,
    media_type: Seq<char>,
    seasons: Seq<i32>,
    episodes: Seq<i32>,
    info_hash: Option<Seq<char>>,
)
    ensures
        !is_private_type(t) && info_hash is Some && episodes.len() > 0 ==> !download_needed(
            t,
            media_type,
            seasons,
            episodes,
            info_hash,
        ),
        media_type =~= seq!['s', 'e', 'r', 'i', 'e', 's'] && seasons.len() > 0 && episodes.len()
            == 0 ==> download_needed(t, media_type, seasons, episodes, info_hash),
        is_private_type(t) || info_hash is None ==> download_needed(
            t,
            media_type,
            seasons,
            episodes,
            info_hash,
        ),
        !is_private_type(t) && info_hash is Some && !(media_type =~= seq![
            's',
            'e',
            'r',
            'i',
            'e',
            's',
        ]) ==> !download_needed(t, media_type, seasons, episodes, info_hash),
{
}

proof fn lemma_add_urls_members(acc: Seq<Seq<char>>, urls: Seq<Seq<char>>)
    ensures
        forall|x: Seq<char>| acc.contains(x) ==> #[trigger] add_urls(acc, urls).contains(x),
        forall|k: int|
            0 <= k < urls.len() && urls[k].len() > 0 ==> #[trigger] add_urls(acc, urls).contains(
                urls[k],
            ),
        forall|x: Seq<char>|
            #[trigger] add_urls(acc, urls).contains(x) ==> acc.contains(x) || urls.contains(x),
    decreases urls.len(),
{
    if urls.len() > 0 {
        let rest = urls.drop_last();
        lemma_add_urls_members(acc, rest);
        let prev = add_urls(acc, rest);
        let u = urls.last();
        let next = add_urls(acc, urls);
        assert(next == add_url(prev, u));
        assert forall|x: Seq<char>| prev.contains(x) implies next.contains(x) by {
            let i = choose|i: int| 0 <= i < prev.len() && prev[i] == x;
            if u.len() > 0 && !prev.contains(u) {
                assert(next[i] == x);
            }
        }
        assert forall|x: Seq<char>| acc.contains(x) implies next.contains(x) by {
            assert(prev.contains(x));
        }
        assert forall|k: int| 0 <= k < urls.len() && urls[k].len() > 0 implies next.contains(
            urls[k],
        ) by {
            if k < rest.len() {
                assert(rest[k] == urls[k]);
                assert(prev.contains(rest[k]));
            } else if !prev.contains(u) {
                assert(next[prev.len() as int] == u);
            }
        }
        assert forall|x: Seq<char>| next.contains(x) implies acc.contains(x) || urls.contains(x) by {
            if prev.contains(x) {
                if rest.contains(x) {
                    let i = choose|i: int| 0 <= i < rest.len() && rest[i] == x;
                    assert(urls[i] == x);
                }
            } else {
                let i = choose|i: int| 0 <= i < next.len() && next[i] == x;
                assert(urls[urls.len() - 1] == x);
            }
        }
    }
}

proof fn lemma_flatten_tiers_members(tiers: Seq<Seq<Seq<char>>>)
    ensures
        forall|t: int, k: int|
            0 <= t < tiers.len() && 0 <= k < tiers[t].len() ==> #[trigger] flatten_tiers(
                tiers,
            ).contains(tiers[t][k]),
        forall|x: Seq<char>|
            #[trigger] flatten_tiers(tiers).contains(x) ==> exists|t: int, k: int|
                0 <= t < tiers.len() && 0 <= k < tiers[t].len() && tiers[t][k] == x,
    decreases tiers.len(),
{
    if tiers.len() > 0 {
        let rest = tiers.drop_last();
        lemma_flatten_tiers_members(rest);
        let a = flatten_tiers(rest);
        let b = tiers.last();
        let f = flatten_tiers(tiers);
        assert(f == a + b);
        assert forall|t: int, k: int| 0 <= t < tiers.len() && 0 <= k < tiers[t].len() implies f.contains(
            tiers[t][k],
        ) by {
            if t < rest.len() {
                assert(rest[t] == tiers[t]);
                assert(a.contains(rest[t][k]));
                let i = choose|i: int| 0 <= i < a.len() && a[i] == rest[t][k];
                assert(f[i] == a[i]);
            } else {
                assert(f[a.len() + k] == b[k]);
            }
        }
        assert forall|x: Seq<char>| f.contains(x) implies exists|t: int, k: int|
            0 <= t < tiers.len() && 0 <= k < tiers[t].len() && tiers[t][k] == x by {
            let i = choose|i: int| 0 <= i < f.len() && f[i] == x;
            if i < a.len() {
                assert(a[i] == x);
                assert(a.contains(x));
                let (t, k) = choose|t: int, k: int|
                    0 <= t < rest.len() && 0 <= k < rest[t].len() && rest[t][k] == x;
                assert(tiers[t] == rest[t]);
            } else {
                assert(b[i - a.len()] == x);
                assert(tiers[tiers.len() - 1][i - a.len()] == x);
            }
        }
    }
}

/// Law: the tracker list of a torrent starts with its non-empty announce URL,
/// holds every non-empty URL of every tier of its announce list, and holds
/// nothing else.
pub proof fn lemma_announce_urls_complete(m: TorrentMetaView)
    ensures
        m.announce matches Some(a) ==> (a.len() > 0 ==> announce_urls(m).len() > 0
            && announce_urls(m)[0] == a),
        match m.announce_list {
            Some(tiers) => forall|t: int, k: int|
                0 <= t < tiers.len() && 0 <= k < tiers[t].len() && tiers[t][k].len() > 0
                    ==> #[trigger] announce_urls(m).contains(tiers[t][k]),
            None => true,
        },
        forall|u: Seq<char>|
            #[trigger] announce_urls(m).contains(u) ==> m.announce == Some(u) || (
            m.announce_list matches Some(tiers) && exists|t: int, k: int|
                0 <= t < tiers.len() && 0 <= k < tiers[t].len() && tiers[t][k] == u),
{
    let first: Seq<Seq<char>> = match m.announce {
        Some(a) => if a.len() > 0 {
            seq![a]
        } else {
            seq![]
        },
        None => seq![],
    };
    assert forall|u: Seq<char>| first.contains(u) implies m.announce == Some(u) by {
        let i = choose|i: int| 0 <= i < first.len() && first[i] == u;
    }
    match m.announce_list {
        Some(tiers) => {
            let fl = flatten_tiers(tiers);
            lemma_add_urls_members(first, fl);
            lemma_flatten_tiers_members(tiers);
            lemma_add_urls_prefix(first, fl);
            assert forall|t: int, k: int|
                0 <= t < tiers.len() && 0 <= k < tiers[t].len() && tiers[t][k].len() > 0 implies #[trigger] announce_urls(
                m,
            ).contains(tiers[t][k]) by {
                assert(fl.contains(tiers[t][k]));
                let i = choose|i: int| 0 <= i < fl.len() && fl[i] == tiers[t][k];
                assert(add_urls(first, fl).contains(fl[i]));
            }
        },
        None => {},
    }
}

proof fn lemma_add_urls_prefix(acc: Seq<Seq<char>>, urls: Seq<Seq<char>>)
    ensures
        add_urls(acc, urls).len() >= acc.len(),
        forall|i: int| 0 <= i < acc.len() ==> #[trigger] add_urls(acc, urls)[i] == acc[i],
    decreases urls.len(),
{
    if urls.len() > 0 {
        lemma_add_urls_prefix(acc, urls.drop_last());
    }
}

/// Law: a parsed torrent's tracker list holds every non-empty URL of every
/// tier of the decoded announce list, and nothing but those and the announce
/// URL.
pub proof fn lemma_parsed_trackers_complete(bytes: Seq<u8>)
    ensures
        parsed_torrent(bytes) matches Some(p) ==> (torrent_of_bytes(bytes) matches Some(m) && (
        match m.announce_list {
            Some(tiers) => forall|t: int, k: int|
                0 <= t < tiers.len() && 0 <= k < tiers[t].len() && tiers[t][k].len() > 0
                    ==> #[trigger] p.announce_list.contains(tiers[t][k]),
            None => true,
        }) && forall|u: Seq<char>|
            #[trigger] p.announce_list.contains(u) ==> m.announce == Some(u) || (
            m.announce_list matches Some(tiers) && exists|t: int, k: int|
                0 <= t < tiers.len() && 0 <= k < tiers[t].len() && tiers[t][k] == u)),
{
    match torrent_of_bytes(bytes) {
        Some(m) => lemma_announce_urls_complete(m),
        None => {},
    }
}

/// The tracker of a magnet-link part when it is non-empty.
pub open spec fn nonempty_tracker(part: Seq<char>) -> Option<Seq<char>> {
    match tracker_of_part(part) {
        Some(u) => if u.len() > 0 {
            Some(u)
        } else {
            None
        },
        None => None,
    }
}

proof fn lemma_trackers_filter_map(parts: Seq<Seq<char>>, f: spec_fn(Seq<char>) -> Option<Seq<char>>)
    requires
        forall|p: Seq<char>| #[trigger] f(p) == nonempty_tracker(p),
    ensures
        trackers_of(parts) == parts.filter_map(f),
    decreases parts.len(),
{
    if parts.len() > 0 {
        lemma_trackers_filter_map(parts.drop_last(), f);
        let prev = trackers_of(parts.drop_last());
        match f(parts.last()) {
            Some(u) => {
                assert(prev.push(u) =~= parts.drop_last().filter_map(f) + seq![u]);
            },
            None => {},
        }
    }
}

/// Law: the trackers of a magnet link are, in order, the non-empty decoded
/// values of its `&`-separated `tr=` parts, one for each such part and nothing
/// else.
pub proof fn lemma_magnet_trackers_are_tr_parts(magnet: Seq<char>)
    ensures
        magnet_trackers(magnet) == split_prefix(magnet, magnet.len() as int, '&').filter_map(
            |p: Seq<char>| nonempty_tracker(p),
        ),
{
    lemma_trackers_filter_map(
        split_prefix(magnet, magnet.len() as int, '&'),
        |p: Seq<char>| nonempty_tracker(p),
    );
}

proof fn lemma_percent_decoded_plain(b: Seq<u8>)
    requires
        forall|i: int| 0 <= i < b.len() ==> b[i] != 37u8,
    ensures
        percent_decoded(b) == b,
    decreases b.len(),
{
    if b.len() > 0 {
        let rest = b.subrange(1, b.len() as int);
        lemma_percent_decoded_plain(rest);
        assert(seq![b[0]] + rest =~= b);
    }
}

proof fn lemma_strip_question_prefix(qs: Seq<char>, t: Seq<char>)
    requires
        forall|i: int| 0 <= i < qs.len() ==> qs[i] == '?',
        t.len() == 0 || t[0] != '?',
    ensures
        strip_question(qs + t) == t,
    decreases qs.len(),
{
    if qs.len() > 0 {
        assert((qs + t).drop_first() =~= qs.drop_first() + t);
        lemma_strip_question_prefix(qs.drop_first(), t);
    } else {
        assert(qs + t =~= t);
    }
}

/// Law: a magnet-link part made of `?` characters, `tr=` and a plain ASCII
/// value without `%` gives that value as its tracker; a part that, after its
/// leading `?` characters, does not start with `tr=` gives none.
pub proof fn lemma_tracker_of_part_plain(qs: Seq<char>, v: Seq<char>, other: Seq<char>)
    requires
        forall|i: int| 0 <= i < qs.len() ==> qs[i] == '?',
        is_ascii_chars(v),
        forall|i: int| 0 <= i < v.len() ==> v[i] != '%',
    ensures
        tracker_of_part(qs + seq!['t', 'r', '='] + v) == Some(v),
        (other.len() == 0 || other[0] != '?') && !has_prefix(other, seq!['t', 'r', '='])
            ==> tracker_of_part(qs + other) is None,
{
    let t = seq!['t', 'r', '='] + v;
    assert(qs + seq!['t', 'r', '='] + v =~= qs + t);
    lemma_strip_question_prefix(qs, t);
    assert(t.subrange(0, 3) =~= seq!['t', 'r', '=']);
    assert(t.subrange(3, t.len() as int) =~= v);
    let b = encode_utf8(v);
    vstd::utf8::is_ascii_chars_encode_utf8(v);
    assert forall|i: int| 0 <= i < b.len() implies b[i] != 37u8 by {
        assert(v[i] as u8 == b[i]);
        assert('\0' <= v[i] <= '\u{7f}');
        if b[i] == 37u8 {
            assert(v[i] == '%');
        }
    }
    lemma_percent_decoded_plain(b);
    vstd::utf8::encode_utf8_valid_utf8(v);
    vstd::utf8::encode_utf8_decode_utf8(v);
    if (other.len() == 0 || other[0] != '?') {
        lemma_strip_question_prefix(qs, other);
    }
}

/// A non-empty candidate URL.
pub open spec fn given(u: Option<Seq<char>>) -> bool {
    u matches Some(x) && x.len() > 0
}

/// A non-empty candidate URL that starts with `magnet:`.
pub open spec fn given_magnet(u: Option<Seq<char>>) -> bool {
    u matches Some(x) && x.len() >= 7 && x.subrange(0, 7) =~= seq![
        'm',
        'a',
        'g',
        'n',
        'e',
        't',
        ':',
    ]
}

/// Law: the order in which a URL is chosen. A private class with a download
/// URL takes it; otherwise the first magnet link among guid, magnet URL and
/// download URL; otherwise the magnet URL, then the guid, then the download
/// URL; and nothing when every candidate is missing or empty.
pub proof fn lemma_resolution_order(
    t: TorrentType,
    g: Option<Seq<char>>,
    m: Option<Seq<char>>,
    d: Option<Seq<char>>,
)
    ensures
        (t == TorrentType::Private || t == TorrentType::SemiPrivate) && given(d) ==> resolved_url(
            t,
            g,
            m,
            d,
        ) == d,
        !((t == TorrentType::Private || t == TorrentType::SemiPrivate) && given(d)) ==> {
            &&& given_magnet(g) ==> resolved_url(t, g, m, d) == g
            &&& !given_magnet(g) && given_magnet(m) ==> resolved_url(t, g, m, d) == m
            &&& !given_magnet(g) && !given_magnet(m) && given_magnet(d) ==> resolved_url(t, g, m, d)
                == d
            &&& !given_magnet(g) && !given_magnet(m) && !given_magnet(d) ==> {
                &&& given(m) ==> resolved_url(t, g, m, d) == m
                &&& !given(m) && given(g) ==> resolved_url(t, g, m, d) == g
                &&& !given(m) && !given(g) && given(d) ==> resolved_url(t, g, m, d) == d
                &&& !given(m) && !given(g) && !given(d) ==> resolved_url(t, g, m, d) is None
            }
        },
{
    assert(magnet_prefix() =~= seq!['m', 'a', 'g', 'n', 'e', 't', ':']);
}

/// Law: bytes are kept for storage exactly when the class is private or
/// semi-private and they are present, non-empty and at most 2 MiB
/// (2,097,152 bytes); kept bytes are the given ones. Bytes may be a torrent
/// exactly when their first byte is `d`.
pub proof fn lemma_storage_rule(t: TorrentType, bytes: Option<Vec<u8>>, data: Seq<u8>)
    ensures
        (is_private_type(t) && storable_size(bytes)) <==> ((t == TorrentType::Private || t
            == TorrentType::SemiPrivate) && match bytes {
            Some(b) => 0 < b@.len() <= 2097152,
            None => false,
        }),
        probable_torrent(data) <==> (data.len() > 0 && data[0] == 100u8),
{
}

proof fn lemma_video_entries_members(fs: Seq<(Seq<char>, i64)>, n: nat)
    requires
        n <= fs.len(),
        n <= 0x7fff_ffff,
    ensures
        forall|k: int|
            0 <= k < n && is_video_path(fs[k].0) ==> #[trigger] video_entries(fs, n).contains(
                (k as i32, fs[k].0, fs[k].1),
            ),
        forall|x: (i32, Seq<char>, i64)|
            #[trigger] video_entries(fs, n).contains(x) ==> 0 <= x.0 < n && is_video_path(
                fs[x.0 as int].0,
            ) && x == (x.0, fs[x.0 as int].0, fs[x.0 as int].1),
        forall|a: int, b: int|
            0 <= a < b < video_entries(fs, n).len() ==> video_entries(fs, n)[a].0 < video_entries(
                fs,
                n,
            )[b].0,
    decreases n,
{
    if n > 0 {
        lemma_video_entries_members(fs, (n - 1) as nat);
        let prev = video_entries(fs, (n - 1) as nat);
        let e = fs[n - 1];
        let next = video_entries(fs, n);
        if is_video_path(e.0) {
            let item = (((n - 1) as int) as i32, e.0, e.1);
            assert(next == prev.push(item));
            assert(next[prev.len() as int] == item);
            assert forall|k: int| 0 <= k < n && is_video_path(fs[k].0) implies #[trigger] next.contains(
                (k as i32, fs[k].0, fs[k].1),
            ) by {
                if k < n - 1 {
                    assert(prev.contains((k as i32, fs[k].0, fs[k].1)));
                    let i = choose|i: int| 0 <= i < prev.len() && prev[i] == (k as i32, fs[k].0, fs[k].1);
                    assert(next[i] == prev[i]);
                } else {
                    assert(next[prev.len() as int] == (k as i32, fs[k].0, fs[k].1));
                }
            }
            assert forall|x: (i32, Seq<char>, i64)| #[trigger] next.contains(x) implies 0 <= x.0 < n
                && is_video_path(fs[x.0 as int].0) && x == (x.0, fs[x.0 as int].0, fs[x.0 as int].1) by {
                let i = choose|i: int| 0 <= i < next.len() && next[i] == x;
                if i < prev.len() {
                    assert(prev[i] == x);
                    assert(prev.contains(x));
                }
            }
            assert forall|a: int, b: int| 0 <= a < b < next.len() implies next[a].0 < next[b].0 by {
                if b < prev.len() {
                    assert(next[a] == prev[a] && next[b] == prev[b]);
                } else {
                    assert(next[a] == prev[a]);
                    assert(prev.contains(prev[a]));
                }
            }
        } else {
            assert forall|k: int| 0 <= k < n && is_video_path(fs[k].0) implies #[trigger] next.contains(
                (k as i32, fs[k].0, fs[k].1),
            ) by {
                assert(k < n - 1);
                assert(prev.contains((k as i32, fs[k].0, fs[k].1)));
            }
        }
    }
}

/// Law: the files listed for a multi-file torrent (of fewer than 2^31 files)
/// are exactly its entries whose paths name videos, each with its position in
/// the file list, in increasing position order; a single-file torrent lists
/// its one file, at position 0, exactly when its name is a video.
pub proof fn lemma_video_files_exact(m: TorrentMetaView)
    ensures
        match m.files {
            Some(fs) => fs.len() <= 0x7fff_ffff ==> {
                &&& forall|k: int|
                    0 <= k < fs.len() && is_video_path(fs[k].0) ==> #[trigger] video_files(m).contains(
                        (k as i32, fs[k].0, fs[k].1),
                    )
                &&& forall|x: (i32, Seq<char>, i64)|
                    #[trigger] video_files(m).contains(x) ==> 0 <= x.0 < fs.len() && is_video_path(
                        fs[x.0 as int].0,
                    ) && x == (x.0, fs[x.0 as int].0, fs[x.0 as int].1)
                &&& forall|a: int, b: int|
                    0 <= a < b < video_files(m).len() ==> video_files(m)[a].0 < video_files(m)[b].0
            },
            None => video_files(m) == (if is_video_path(m.name) {
                seq![(0i32, m.name, m.length)]
            } else {
                seq![]
            }),
        },
{
    match m.files {
        Some(fs) => if fs.len() <= 0x7fff_ffff {
            lemma_video_entries_members(fs, fs.len());
        },
        None => {},
    }
}

/// Law: parsed metadata exists exactly for bytes that start with `d`, read as
/// a torrent, and carry an info hash of 40 ASCII hexadecimal digits; it then
/// holds the torrent's name and total size, the lower-cased info hash, and
/// the bytes themselves.
pub proof fn lemma_parsed_fields(bytes: Seq<u8>)
    ensures
        parsed_torrent(bytes) is Some <==> (bytes.len() > 0 && bytes[0] == 100u8 && match torrent_of_bytes(
            bytes,
        ) {
            Some(m) => m.info_hash.len() == 40 && forall|k: int|
                0 <= k < 40 ==> ('0' <= #[trigger] m.info_hash[k] <= '9' || 'a' <= m.info_hash[k]
                    <= 'f' || 'A' <= m.info_hash[k] <= 'F'),
            None => false,
        }),
        parsed_torrent(bytes) matches Some(p) ==> (torrent_of_bytes(bytes) matches Some(m)
            && p.name == m.name && p.total_size == m.length && p.raw_bytes == bytes && p.info_hash
            == lowercased(m.info_hash)),
{
}

} // verus!
