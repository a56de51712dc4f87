//! Season and episode numbers read from a video file name.
use vstd::prelude::*;
use crate::charclass::{folds_to, is_ascii_alnum, is_ascii_digit, is_ascii_hex, is_decimal_number};
use crate::episode_patterns::{
    boundary_at, capture_lengths_ok, find_leftmost, leftmost, leftmost_from, lemma_leftmost_is_match,
    lemma_pattern_lengths, span_of, span_ok, EpisodePattern,
};
use crate::path_name::{
    extension_of, extension_range, file_name_of, file_name_range, is_plain_name,
    lemma_extension_of_stem_dot, lemma_file_name_of_joined,
};
use vstd::utf8::is_ascii_chars;
use crate::text::{ascii_lowercase, chars_equal, chars_of, copy_range, lowercased, to_lowercase};

verus! {

/// A season and episode number recognised in a file name.
#[derive(Debug, Clone, Copy, PartialEq, Eq, Structural)]
pub struct DetectedEpisode {
    pub season: i32,
    pub episode: i32,
}

// ---------------------------------------------------------------------------
// Captured numbers
// ---------------------------------------------------------------------------

/// `s[a..a+l]` is made of ASCII digits only.
pub open spec fn ascii_digits_at(s: Seq<char>, a: int, l: int) -> bool {
    0 <= a && a + l <= s.len() && forall|k: int| a <= k < a + l ==> is_ascii_digit(s[k])
}

/// The decimal value of the ASCII digits `s[a..a+l]`.
pub open spec fn digits_value(s: Seq<char>, a: int, l: nat) -> int
    decreases l,
{
    if l == 0 {
        0
    } else {
        10 * digits_value(s, a, (l - 1) as nat) + (s[a + l - 1] as int - '0' as int)
    }
}

/// `s[a..a+l].parse::<i32>()` for a captured run of decimal digits: the value
/// when every digit is ASCII, and a failure otherwise (`parse` accepts only
/// ASCII digits, while the patterns capture any Unicode decimal digit).
pub open spec fn parse_digits(s: Seq<char>, a: int, l: int) -> Option<int> {
    if ascii_digits_at(s, a, l) {
        Some(digits_value(s, a, l as nat))
    } else {
        None
    }
}

/// A detection result.
pub open spec fn episode_from(season: int, episode: int) -> DetectedEpisode {
    DetectedEpisode { season: season as i32, episode: episode as i32 }
}

/// Parses the run of at most three captured characters `s[a..a+l]`.
fn parse_digits_exec(s: &Vec<char>, a: usize, l: usize) -> (r: Option<i32>)
    requires
        a + l <= s@.len(),
        l <= 3,
    ensures
        match r {
            Some(v) => parse_digits(s@, a as int, l as int) == Some(v as int) && 0 <= v < 1000,
            None => parse_digits(s@, a as int, l as int) is None,
        },
{
    let n = s.len();
    let mut v: i32 = 0;
    let mut k: usize = 0;
    while k < l
        invariant
            a + l <= n,
            n == s@.len(),
            l <= 3,
            k <= l,
            forall|j: int| a <= j < a + k ==> is_ascii_digit(s@[j]),
            v == digits_value(s@, a as int, k as nat),
            0 <= v,
            k == 0 ==> v == 0,
            k <= 1 ==> v < 10,
            k <= 2 ==> v < 100,
            v < 1000,
        decreases l - k,
    {
        let c = s[a + k];
        if !('0' <= c && c <= '9') {
            return None;
        }
        let d = (c as u32 - '0' as u32) as i32;
        v = 10 * v + d;
        k = k + 1;
    }
    Some(v)
}

/// Every character of `s[a..b]` is an ASCII hexadecimal digit.
pub open spec fn all_hex(s: Seq<char>, a: int, b: int) -> bool {
    forall|k: int| a <= k < b ==> is_ascii_hex(s[k])
}

/// The eight characters on either side of a match `[i, end)` (fewer near the
/// ends of the name; none at all counts as hexadecimal) are all hexadecimal
/// digits: the number is then taken to belong to a hash.
pub open spec fn hex_context(s: Seq<char>, i: int, end: int) -> bool {
    all_hex(s, if i >= 8 {
        i - 8
    } else {
        0
    }, i) || all_hex(
        s,
        end,
        if end + 8 <= s.len() {
            end + 8
        } else {
            s.len() as int
        },
    )
}

fn all_hex_exec(s: &Vec<char>, a: usize, b: usize) -> (r: bool)
    requires
        a <= b <= s@.len(),
    ensures
        r == all_hex(s@, a as int, b as int),
{
    let mut k: usize = a;
    while k < b
        invariant
            a <= k <= b <= s@.len(),
            forall|j: int| a <= j < k ==> is_ascii_hex(s@[j]),
        decreases b - k,
    {
        let c = s[k];
        if !(('0' <= c && c <= '9') || ('a' <= c && c <= 'f') || ('A' <= c && c <= 'F')) {
            return false;
        }
        k = k + 1;
    }
    true
}

fn hex_context_exec(s: &Vec<char>, i: usize, end: usize) -> (r: bool)
    requires
        i <= end <= s@.len(),
    ensures
        r == hex_context(s@, i as int, end as int),
{
    let before_start = if i >= 8 {
        i - 8
    } else {
        0
    };
    let after_end = if s.len() - end >= 8 {
        end + 8
    } else {
        s.len()
    };
    all_hex_exec(s, before_start, i) || all_hex_exec(s, end, after_end)
}

// ---------------------------------------------------------------------------
// Detection
// ---------------------------------------------------------------------------

/// Season and episode from the two captures of a match.
pub open spec fn two_captures(s: Seq<char>, m: (int, int, int, int, int)) -> Option<DetectedEpisode> {
    match parse_digits(s, m.0, m.1) {
        Some(a) => match parse_digits(s, m.2, m.3) {
            Some(b) => Some(episode_from(a, b)),
            None => None,
        },
        None => None,
    }
}

/// The episode from the first capture of a match, in the default season.
pub open spec fn one_capture(s: Seq<char>, m: (int, int, int, int, int), d: i32) -> Option<
    DetectedEpisode,
> {
    match parse_digits(s, m.0, m.1) {
        Some(e) => Some(episode_from(d as int, e)),
        None => None,
    }
}

/// Last stage: a bare one- or two-digit number from 1 to 50, unless a single
/// digit stands between two dots.
pub open spec fn detect_bare(s: Seq<char>, d: i32) -> Option<DetectedEpisode> {
    match leftmost(EpisodePattern::Bare, s) {
        Some((i, m)) => match parse_digits(s, m.0, m.1) {
            Some(e) => if 1 <= e <= 50 && !(s[i] == '.' && s[m.4 - 1] == '.' && m.1 == 1) {
                Some(episode_from(d as int, e))
            } else {
                None
            },
            None => None,
        },
        None => None,
    }
}

/// An absolute episode number of three digits, unless it sits among hexadecimal digits
/// or is zero.
pub open spec fn detect_absolute(s: Seq<char>, d: i32) -> Option<DetectedEpisode> {
    match leftmost(EpisodePattern::Absolute, s) {
        Some((i, m)) => if hex_context(s, i, m.4) {
            detect_bare(s, d)
        } else {
            match parse_digits(s, m.0, m.1) {
                Some(e) => if 0 < e <= 999 {
                    Some(episode_from(d as int, e))
                } else {
                    detect_bare(s, d)
                },
                None => None,
            }
        },
        None => detect_bare(s, d),
    }
}

/// An episode marked by a dash or underscore and `E`, or by the word `Ep`/`Episode`.
pub open spec fn detect_episode_word(s: Seq<char>, d: i32) -> Option<DetectedEpisode> {
    match leftmost(EpisodePattern::Dash, s) {
        Some((_, m)) => one_capture(s, m, d),
        None => match leftmost(EpisodePattern::EpWord, s) {
            Some((_, m)) => one_capture(s, m, d),
            None => detect_absolute(s, d),
        },
    }
}

/// `season.episode`, accepted for seasons up to 30 and episodes up to 50.
pub open spec fn detect_period(s: Seq<char>, d: i32) -> Option<DetectedEpisode> {
    match leftmost(EpisodePattern::Period, s) {
        Some((_, m)) => match parse_digits(s, m.0, m.1) {
            Some(a) => match parse_digits(s, m.2, m.3) {
                Some(b) => if a <= 30 && b <= 50 {
                    Some(episode_from(a, b))
                } else {
                    detect_episode_word(s, d)
                },
                None => None,
            },
            None => None,
        },
        None => detect_episode_word(s, d),
    }
}

/// Detection on a bare file name `s`: the patterns in order, each at its
/// leftmost match. A pattern's match settles the outcome when its captures do
/// not parse, or when its conditions hold; otherwise the next pattern is tried.
pub open spec fn detect_in_name(s: Seq<char>, d: i32) -> Option<DetectedEpisode> {
    match leftmost(EpisodePattern::SeasonEpisode, s) {
        Some((_, m)) => two_captures(s, m),
        None => match leftmost(EpisodePattern::Cross, s) {
            Some((_, m)) => two_captures(s, m),
            None => match leftmost(EpisodePattern::SeasonText, s) {
                Some((_, m)) => two_captures(s, m),
                None => match leftmost(EpisodePattern::Bracketed, s) {
                    Some((_, m)) => two_captures(s, m),
                    None => detect_period(s, d),
                },
            },
        },
    }
}

/// The part of a path that detection reads: its file name, or the whole text
/// when the path has no file name.
pub open spec fn detection_base(filename: Seq<char>) -> Seq<char> {
    match file_name_of(filename) {
        Some(n) => n,
        None => filename,
    }
}

/// What `detect_episode(filename, default_season)` returns.
pub open spec fn detect_episode_spec(filename: Seq<char>, default_season: i32) -> Option<
    DetectedEpisode,
> {
    detect_in_name(detection_base(filename), default_season)
}

fn two_captures_exec(s: &Vec<char>, m: (usize, usize, usize, usize, usize), i: usize) -> (r: Option<
    DetectedEpisode,
>)
    requires
        span_ok(s@, i as int, span_of(m)),
    ensures
        r == two_captures(s@, span_of(m)),
{
    match parse_digits_exec(s, m.0, m.1) {
        Some(a) => match parse_digits_exec(s, m.2, m.3) {
            Some(b) => Some(DetectedEpisode { season: a, episode: b }),
            None => None,
        },
        None => None,
    }
}

fn one_capture_exec(s: &Vec<char>, m: (usize, usize, usize, usize, usize), i: usize, d: i32) -> (r:
    Option<DetectedEpisode>)
    requires
        span_ok(s@, i as int, span_of(m)),
    ensures
        r == one_capture(s@, span_of(m), d),
{
    match parse_digits_exec(s, m.0, m.1) {
        Some(e) => Some(DetectedEpisode { season: d, episode: e }),
        None => None,
    }
}

fn detect_bare_exec(s: &Vec<char>, d: i32) -> (r: Option<DetectedEpisode>)
    ensures
        r == detect_bare(s@, d),
{
    match find_leftmost(EpisodePattern::Bare, s) {
        Some((i, m)) => match parse_digits_exec(s, m.0, m.1) {
            Some(e) => {
                let dotted = s[i] == '.' && s[m.4 - 1] == '.' && m.1 == 1;
                if 1 <= e && e <= 50 && !dotted {
                    Some(DetectedEpisode { season: d, episode: e })
                } else {
                    None
                }
            },
            None => None,
        },
        None => None,
    }
}

fn detect_absolute_exec(s: &Vec<char>, d: i32) -> (r: Option<DetectedEpisode>)
    ensures
        r == detect_absolute(s@, d),
{
    match find_leftmost(EpisodePattern::Absolute, s) {
        Some((i, m)) => {
            if hex_context_exec(s, i, m.4) {
                detect_bare_exec(s, d)
            } else {
                match parse_digits_exec(s, m.0, m.1) {
                    Some(e) => if 0 < e && e <= 999 {
                        Some(DetectedEpisode { season: d, episode: e })
                    } else {
                        detect_bare_exec(s, d)
                    },
                    None => None,
                }
            }
        },
        None => detect_bare_exec(s, d),
    }
}

fn detect_episode_word_exec(s: &Vec<char>, d: i32) -> (r: Option<DetectedEpisode>)
    ensures
        r == detect_episode_word(s@, d),
{
    match find_leftmost(EpisodePattern::Dash, s) {
        Some((i, m)) => one_capture_exec(s, m, i, d),
        None => match find_leftmost(EpisodePattern::EpWord, s) {
            Some((i, m)) => one_capture_exec(s, m, i, d),
            None => detect_absolute_exec(s, d),
        },
    }
}

fn detect_period_exec(s: &Vec<char>, d: i32) -> (r: Option<DetectedEpisode>)
    ensures
        r == detect_period(s@, d),
{
    match find_leftmost(EpisodePattern::Period, s) {
        Some((_i, m)) => match parse_digits_exec(s, m.0, m.1) {
            Some(a) => match parse_digits_exec(s, m.2, m.3) {
                Some(b) => if a <= 30 && b <= 50 {
                    Some(DetectedEpisode { season: a, episode: b })
                } else {
                    detect_episode_word_exec(s, d)
                },
                None => None,
            },
            None => None,
        },
        None => detect_episode_word_exec(s, d),
    }
}

/// Detection on a bare file name.
pub fn detect_in_file_name(s: &Vec<char>, d: i32) -> (r: Option<DetectedEpisode>)
    ensures
        r == detect_in_name(s@, d),
{
    match find_leftmost(EpisodePattern::SeasonEpisode, s) {
        Some((i, m)) => two_captures_exec(s, m, i),
        None => match find_leftmost(EpisodePattern::Cross, s) {
            Some((i, m)) => two_captures_exec(s, m, i),
            None => match find_leftmost(EpisodePattern::SeasonText, s) {
                Some((i, m)) => two_captures_exec(s, m, i),
                None => match find_leftmost(EpisodePattern::Bracketed, s) {
                    Some((i, m)) => two_captures_exec(s, m, i),
                    None => detect_period_exec(s, d),
                },
            },
        },
    }
}

/// Reads a season and episode number from a video file name. Only the file
/// name part of the path is read. `default_season` is the season of a result
/// that names an episode alone.
pub fn detect_episode(filename: &str, default_season: i32) -> (r: Option<DetectedEpisode>)
    ensures
        r == detect_episode_spec(filename@, default_season),
{
    let cs = chars_of(filename);
    let base = match file_name_range(&cs) {
        Some((a, b)) => copy_range(&cs, a, b),
        None => cs,
    };
    detect_in_file_name(&base, default_season)
}

// ---------------------------------------------------------------------------
// Video file names
// ---------------------------------------------------------------------------

/// The extensions of video files: mkv, mp4, avi, webm, mov, flv, wmv, m4v, ts,
/// m2ts, mpg, mpeg.
pub open spec fn is_video_file_extension(e: Seq<char>) -> bool {
    ||| e == seq!['m', 'k', 'v']
    ||| e == seq!['m', 'p', '4']
    ||| e == seq!['a', 'v', 'i']
    ||| e == seq!['w', 'e', 'b', 'm']
    ||| e == seq!['m', 'o', 'v']
    ||| e == seq!['f', 'l', 'v']
    ||| e == seq!['w', 'm', 'v']
    ||| e == seq!['m', '4', 'v']
    ||| e == seq!['t', 's']
    ||| e == seq!['m', '2', 't', 's']
    ||| e == seq!['m', 'p', 'g']
    ||| e == seq!['m', 'p', 'e', 'g']
}

/// The path `p` has a file name whose extension is a listed video extension
/// (compared exactly).
pub open spec fn has_video_file_extension(p: Seq<char>) -> bool {
    match extension_of(p) {
        Some(e) => is_video_file_extension(e),
        None => false,
    }
}

/// Whether the (already lower-cased) path names a file with a listed video
/// extension.
pub fn video_file_extension_listed(path: &str) -> (r: bool)
    ensures
        r == has_video_file_extension(path@),
{
    let cs = chars_of(path);
    match extension_range(&cs) {
        None => false,
        Some((a, b)) => {
            chars_equal(&cs, a, b, &['m', 'k', 'v']) || chars_equal(&cs, a, b, &['m', 'p', '4'])
                || chars_equal(&cs, a, b, &['a', 'v', 'i']) || chars_equal(
                &cs,
                a,
                b,
                &['w', 'e', 'b', 'm'],
            ) || chars_equal(&cs, a, b, &['m', 'o', 'v']) || chars_equal(
                &cs,
                a,
                b,
                &['f', 'l', 'v'],
            ) || chars_equal(&cs, a, b, &['w', 'm', 'v']) || chars_equal(
                &cs,
                a,
                b,
                &['m', '4', 'v'],
            ) || chars_equal(&cs, a, b, &['t', 's']) || chars_equal(
                &cs,
                a,
                b,
                &['m', '2', 't', 's'],
            ) || chars_equal(&cs, a, b, &['m', 'p', 'g']) || chars_equal(
                &cs,
                a,
                b,
                &['m', 'p', 'e', 'g'],
            )
        },
    }
}

/// Whether `filename` names a video file: its extension, after lower-casing
/// the whole name, is one of the listed video extensions.
pub fn is_video_file(filename: &str) -> (r: bool)
    ensures
        r == has_video_file_extension(lowercased(filename@)),
        is_ascii_chars(filename@) ==> r == has_video_file_extension(ascii_lowercase(filename@)),
{
    let lower = to_lowercase(filename);
    video_file_extension_listed(lower.as_str())
}

// ---------------------------------------------------------------------------
// Laws
// ---------------------------------------------------------------------------

/// Ten to the power `l`.
pub open spec fn pow10(l: nat) -> int
    decreases l,
{
    if l == 0 {
        1
    } else {
        10 * pow10((l - 1) as nat)
    }
}

proof fn lemma_digits_value_bound(s: Seq<char>, a: int, l: nat)
    requires
        ascii_digits_at(s, a, l as int),
    ensures
        0 <= digits_value(s, a, l) < pow10(l),
    decreases l,
{
    if l > 0 {
        lemma_digits_value_bound(s, a, (l - 1) as nat);
    }
}

/// A parsed capture of at most `n` digits is below `10^n`.
proof fn lemma_parse_bound(s: Seq<char>, a: int, l: int, n: nat)
    requires
        1 <= l <= n <= 3,
    ensures
        parse_digits(s, a, l) matches Some(v) ==> 0 <= v && (n <= 2 ==> v < 100) && v < 1000,
{
    if ascii_digits_at(s, a, l) {
        lemma_digits_value_bound(s, a, l as nat);
        assert(pow10(1) == 10 && pow10(2) == 100 && pow10(3) == 1000) by {
            reveal_with_fuel(pow10, 4);
        }
    }
}

/// The numbers a detection reports are in range.
pub open spec fn in_range(r: Option<DetectedEpisode>, d: i32) -> bool {
    r matches Some(e) ==> (0 <= e.episode <= 999 && (e.season == d || 0 <= e.season <= 99))
}

proof fn lemma_found(p: EpisodePattern, s: Seq<char>) -> (m: (int, int, int, int, int))
    requires
        leftmost(p, s) is Some,
    ensures
        leftmost(p, s) matches Some((_, mm)) && mm == m,
        capture_lengths_ok(p, m),
{
    lemma_leftmost_is_match(p, s, 0);
    let (j, m) = leftmost(p, s)->0;
    lemma_pattern_lengths(p, s, j);
    m
}

proof fn lemma_two_captures_range(s: Seq<char>, m: (int, int, int, int, int), d: i32)
    requires
        1 <= m.1 <= 2,
        1 <= m.3 <= 2,
    ensures
        in_range(two_captures(s, m), d),
{
    lemma_parse_bound(s, m.0, m.1, 2);
    lemma_parse_bound(s, m.2, m.3, 2);
}

proof fn lemma_one_capture_range(s: Seq<char>, m: (int, int, int, int, int), d: i32)
    requires
        1 <= m.1 <= 3,
    ensures
        in_range(one_capture(s, m, d), d),
{
    lemma_parse_bound(s, m.0, m.1, 3);
}

proof fn lemma_stage_bare_range(s: Seq<char>, d: i32)
    ensures
        in_range(detect_bare(s, d), d),
{
}

proof fn lemma_stage_absolute_range(s: Seq<char>, d: i32)
    ensures
        in_range(detect_absolute(s, d), d),
{
    lemma_stage_bare_range(s, d);
}

proof fn lemma_stage_word_range(s: Seq<char>, d: i32)
    ensures
        in_range(detect_episode_word(s, d), d),
{
    lemma_stage_absolute_range(s, d);
    if leftmost(EpisodePattern::Dash, s) is Some {
        let m = lemma_found(EpisodePattern::Dash, s);
        lemma_one_capture_range(s, m, d);
    } else if leftmost(EpisodePattern::EpWord, s) is Some {
        let m = lemma_found(EpisodePattern::EpWord, s);
        lemma_one_capture_range(s, m, d);
    }
}

proof fn lemma_stage_period_range(s: Seq<char>, d: i32)
    ensures
        in_range(detect_period(s, d), d),
{
    lemma_stage_word_range(s, d);
    if leftmost(EpisodePattern::Period, s) is Some {
        let m = lemma_found(EpisodePattern::Period, s);
        lemma_parse_bound(s, m.0, m.1, 2);
        lemma_parse_bound(s, m.2, m.3, 2);
    }
}

/// Law: a detected episode number lies in 0..=999, and a detected season is
/// either the default season or lies in 0..=99.
pub proof fn lemma_detected_numbers_in_range(filename: Seq<char>, d: i32)
    ensures
        in_range(detect_episode_spec(filename, d), d),
{
    let s = detection_base(filename);
    lemma_stage_period_range(s, d);
    if leftmost(EpisodePattern::SeasonEpisode, s) is Some {
        let m = lemma_found(EpisodePattern::SeasonEpisode, s);
        lemma_two_captures_range(s, m, d);
    } else if leftmost(EpisodePattern::Cross, s) is Some {
        let m = lemma_found(EpisodePattern::Cross, s);
        lemma_two_captures_range(s, m, d);
    } else if leftmost(EpisodePattern::SeasonText, s) is Some {
        let m = lemma_found(EpisodePattern::SeasonText, s);
        lemma_two_captures_range(s, m, d);
    } else if leftmost(EpisodePattern::Bracketed, s) is Some {
        let m = lemma_found(EpisodePattern::Bracketed, s);
        lemma_two_captures_range(s, m, d);
    }
}

/// Law: only the file name of a path is read. A plain file name gives the same
/// detection on its own as under any directory.
pub proof fn lemma_detection_reads_file_name_only(dir: Seq<char>, name: Seq<char>, d: i32)
    requires
        is_plain_name(name),
    ensures
        detect_episode_spec(dir + seq!['/'] + name, d) == detect_episode_spec(name, d),
        detect_episode_spec(name, d) == detect_in_name(name, d),
{
    lemma_file_name_of_joined(dir, name);
}

/// Law: a file named `stem.e` (a plain stem, alone or under any directory,
/// and an extension `e` without dots) is a video file exactly when `e`,
/// compared on the lower-cased name, is mkv, mp4, avi, webm, mov, flv, wmv,
/// m4v, ts, m2ts, mpg or mpeg.
pub proof fn lemma_video_file_extensions(dir: Seq<char>, stem: Seq<char>, e: Seq<char>)
    requires
        stem.len() > 0,
        forall|k: int| 0 <= k < stem.len() ==> stem[k] != '/',
        e.len() > 0,
        forall|k: int| 0 <= k < e.len() ==> e[k] != '/' && e[k] != '.',
    ensures
        has_video_file_extension(stem + seq!['.'] + e) <==> {
            ||| e =~= seq!['m', 'k', 'v']
            ||| e =~= seq!['m', 'p', '4']
            ||| e =~= seq!['a', 'v', 'i']
            ||| e =~= seq!['w', 'e', 'b', 'm']
            ||| e =~= seq!['m', 'o', 'v']
            ||| e =~= seq!['f', 'l', 'v']
            ||| e =~= seq!['w', 'm', 'v']
            ||| e =~= seq!['m', '4', 'v']
            ||| e =~= seq!['t', 's']
            ||| e =~= seq!['m', '2', 't', 's']
            ||| e =~= seq!['m', 'p', 'g']
            ||| e =~= seq!['m', 'p', 'e', 'g']
        },
        has_video_file_extension(dir + seq!['/'] + stem + seq!['.'] + e)
            == has_video_file_extension(stem + seq!['.'] + e),
{
    lemma_extension_of_stem_dot(dir, stem, e);
}

/// Two ASCII digits `s[i]`, `s[i + 1]` read as a decimal number.
pub open spec fn two_digit_value(s: Seq<char>, i: int) -> int {
    10 * (s[i] as int - '0' as int) + (s[i + 1] as int - '0' as int)
}

/// `s[i..i+5]` is written `NNxNN` (or `NNXNN`) in ASCII digits between two
/// word boundaries, and no `x` or `X` comes before it.
pub open spec fn first_cross_at(s: Seq<char>, i: int) -> bool {
    &&& 0 <= i
    &&& i + 5 <= s.len()
    &&& boundary_at(s, i)
    &&& boundary_at(s, i + 5)
    &&& is_ascii_digit(s[i])
    &&& is_ascii_digit(s[i + 1])
    &&& (s[i + 2] == 'x' || s[i + 2] == 'X')
    &&& is_ascii_digit(s[i + 3])
    &&& is_ascii_digit(s[i + 4])
    &&& forall|k: int| 0 <= k < i + 2 ==> s[k] != 'x' && s[k] != 'X'
}

proof fn lemma_cross_found(s: Seq<char>, i: int, j: int)
    requires
        first_cross_at(s, i),
        0 <= j <= i,
    ensures
        leftmost_from(EpisodePattern::Cross, s, j) == Some((i, (i, 2int, i + 3, 2int, i + 5))),
    decreases i - j,
{
    if j < i {
        lemma_cross_found(s, i, j + 1);
    }
}

/// Law: a two-digit season and two-digit episode written `NNxNN` between word
/// boundaries are read as season and episode, when no `SxxEyy` form is present
/// and no `x` comes earlier; only the file name of a path is read.
pub proof fn lemma_two_digit_cross(dir: Seq<char>, s: Seq<char>, i: int, d: i32)
    requires
        first_cross_at(s, i),
        leftmost(EpisodePattern::SeasonEpisode, s) is None,
    ensures
        detect_in_name(s, d) == Some(
            DetectedEpisode {
                season: two_digit_value(s, i) as i32,
                episode: two_digit_value(s, i + 3) as i32,
            },
        ),
        is_plain_name(s) ==> detect_episode_spec(dir + seq!['/'] + s, d) == detect_in_name(s, d),
{
    lemma_cross_found(s, i, 0);
    assert(ascii_digits_at(s, i, 2));
    assert(ascii_digits_at(s, i + 3, 2));
    reveal_with_fuel(digits_value, 3);
    assert(digits_value(s, i, 2) == two_digit_value(s, i));
    assert(digits_value(s, i + 3, 2) == two_digit_value(s, i + 3));
    if is_plain_name(s) {
        lemma_detection_reads_file_name_only(dir, s, d);
    }
}

proof fn lemma_season_episode_found(s: Seq<char>, i: int, j: int)
    requires
        0 <= j <= i,
        i + 6 <= s.len(),
        s[i] == 's' || s[i] == 'S',
        is_ascii_digit(s[i + 1]),
        is_ascii_digit(s[i + 2]),
        s[i + 3] == 'e' || s[i + 3] == 'E',
        is_ascii_digit(s[i + 4]),
        is_ascii_digit(s[i + 5]),
        forall|k: int| 0 <= k < i ==> !folds_to(s[k], 's'),
    ensures
        leftmost_from(EpisodePattern::SeasonEpisode, s, j) == Some(
            (i, (i + 1, 2int, i + 4, 2int, i + 6)),
        ),
    decreases i - j,
{
    if j < i {
        lemma_season_episode_found(s, i, j + 1);
    }
}

/// Law: `SnnEnn` (letters in either case, ASCII digits) is read as season
/// and episode, at the first `s` of the name, whatever follows it.
pub proof fn lemma_season_episode_form(s: Seq<char>, i: int, d: i32)
    requires
        0 <= i,
        i + 6 <= s.len(),
        s[i] == 's' || s[i] == 'S',
        is_ascii_digit(s[i + 1]),
        is_ascii_digit(s[i + 2]),
        s[i + 3] == 'e' || s[i + 3] == 'E',
        is_ascii_digit(s[i + 4]),
        is_ascii_digit(s[i + 5]),
        forall|k: int| 0 <= k < i ==> !folds_to(s[k], 's'),
    ensures
        detect_in_name(s, d) == Some(
            DetectedEpisode {
                season: two_digit_value(s, i + 1) as i32,
                episode: two_digit_value(s, i + 4) as i32,
            },
        ),
{
    lemma_season_episode_found(s, i, 0);
    assert(ascii_digits_at(s, i + 1, 2));
    assert(ascii_digits_at(s, i + 4, 2));
    reveal_with_fuel(digits_value, 3);
    assert(digits_value(s, i + 1, 2) == two_digit_value(s, i + 1));
    assert(digits_value(s, i + 4, 2) == two_digit_value(s, i + 4));
}

/// `s[i..i+5]` is written `NN.NN` in ASCII digits between two word boundaries,
/// and no `.` comes before it.
pub open spec fn first_period_pair_at(s: Seq<char>, i: int) -> bool {
    &&& 0 <= i
    &&& i + 5 <= s.len()
    &&& boundary_at(s, i)
    &&& boundary_at(s, i + 5)
    &&& is_ascii_digit(s[i])
    &&& is_ascii_digit(s[i + 1])
    &&& s[i + 2] == '.'
    &&& is_ascii_digit(s[i + 3])
    &&& is_ascii_digit(s[i + 4])
    &&& forall|k: int| 0 <= k < i + 2 ==> s[k] != '.'
}

proof fn lemma_period_found(s: Seq<char>, i: int, j: int)
    requires
        first_period_pair_at(s, i),
        0 <= j <= i,
    ensures
        leftmost_from(EpisodePattern::Period, s, j) == Some((i, (i, 2int, i + 3, 2int, i + 5))),
    decreases i - j,
{
    if j < i {
        lemma_period_found(s, i, j + 1);
    }
}

/// Law: with no earlier form present, `NN.NN` between word boundaries is read
/// as season and episode when the season is at most 30 and the episode at most
/// 50; otherwise the later forms decide.
pub proof fn lemma_period_form(s: Seq<char>, i: int, d: i32)
    requires
        first_period_pair_at(s, i),
        leftmost(EpisodePattern::SeasonEpisode, s) is None,
        leftmost(EpisodePattern::Cross, s) is None,
        leftmost(EpisodePattern::SeasonText, s) is None,
        leftmost(EpisodePattern::Bracketed, s) is None,
    ensures
        two_digit_value(s, i) <= 30 && two_digit_value(s, i + 3) <= 50 ==> detect_in_name(s, d)
            == Some(
            DetectedEpisode {
                season: two_digit_value(s, i) as i32,
                episode: two_digit_value(s, i + 3) as i32,
            },
        ),
        !(two_digit_value(s, i) <= 30 && two_digit_value(s, i + 3) <= 50) ==> detect_in_name(
            s,
            d,
        ) == detect_episode_word(s, d),
{
    lemma_period_found(s, i, 0);
    assert(ascii_digits_at(s, i, 2));
    assert(ascii_digits_at(s, i + 3, 2));
    reveal_with_fuel(digits_value, 3);
    assert(digits_value(s, i, 2) == two_digit_value(s, i));
    assert(digits_value(s, i + 3, 2) == two_digit_value(s, i + 3));
}

/// Three ASCII digits `s[i..i+3]` read as a decimal number.
pub open spec fn three_digit_value(s: Seq<char>, i: int) -> int {
    100 * (s[i] as int - '0' as int) + two_digit_value(s, i + 1)
}

/// No form that detection tries before the `_E`/`-E` form is present.
pub open spec fn no_pair_forms(s: Seq<char>) -> bool {
    &&& leftmost(EpisodePattern::SeasonEpisode, s) is None
    &&& leftmost(EpisodePattern::Cross, s) is None
    &&& leftmost(EpisodePattern::SeasonText, s) is None
    &&& leftmost(EpisodePattern::Bracketed, s) is None
    &&& leftmost(EpisodePattern::Period, s) is None
}

/// `s[i..i+5]` is `_E` or `-E` (either case) and three ASCII digits ending at
/// a word boundary, and no `_` or `-` comes before it.
pub open spec fn first_dash_episode_at(s: Seq<char>, i: int) -> bool {
    &&& 0 <= i
    &&& i + 5 <= s.len()
    &&& (s[i] == '_' || s[i] == '-')
    &&& (s[i + 1] == 'e' || s[i + 1] == 'E')
    &&& is_ascii_digit(s[i + 2])
    &&& is_ascii_digit(s[i + 3])
    &&& is_ascii_digit(s[i + 4])
    &&& boundary_at(s, i + 5)
    &&& forall|k: int| 0 <= k < i ==> s[k] != '_' && s[k] != '-'
}

proof fn lemma_dash_found(s: Seq<char>, i: int, j: int)
    requires
        first_dash_episode_at(s, i),
        0 <= j <= i,
    ensures
        leftmost_from(EpisodePattern::Dash, s, j) == Some((i, (i + 2, 3int, i + 5, 0int, i + 5))),
    decreases i - j,
{
    if j < i {
        lemma_dash_found(s, i, j + 1);
    }
}

/// Law: with no season-and-episode form present, `_Ennn` or `-Ennn` gives
/// episode `nnn` of the default season.
pub proof fn lemma_dash_episode_form(s: Seq<char>, i: int, d: i32)
    requires
        first_dash_episode_at(s, i),
        no_pair_forms(s),
    ensures
        detect_in_name(s, d) == Some(
            DetectedEpisode { season: d, episode: three_digit_value(s, i + 2) as i32 },
        ),
{
    lemma_dash_found(s, i, 0);
    assert(ascii_digits_at(s, i + 2, 3));
    reveal_with_fuel(digits_value, 4);
    assert(digits_value(s, i + 2, 3) == three_digit_value(s, i + 2));
}

/// `s[i..i+5]` is `Ep` (either case) at a word boundary, a `.`, `_` or white
/// space, and two ASCII digits ending at a word boundary and not followed by a
/// digit; no `e` or `E` comes before it.
pub open spec fn first_ep_word_at(s: Seq<char>, i: int) -> bool {
    &&& 0 <= i
    &&& i + 5 <= s.len()
    &&& boundary_at(s, i)
    &&& (s[i] == 'e' || s[i] == 'E')
    &&& (s[i + 1] == 'p' || s[i + 1] == 'P')
    &&& (s[i + 2] == '.' || s[i + 2] == '_' || s[i + 2] == ' ')
    &&& is_ascii_digit(s[i + 3])
    &&& is_ascii_digit(s[i + 4])
    &&& boundary_at(s, i + 5)
    &&& (i + 5 == s.len() || !is_decimal_number(s[i + 5]))
    &&& forall|k: int| 0 <= k < i ==> !folds_to(s[k], 'e')
}

proof fn lemma_ep_word_found(s: Seq<char>, i: int, j: int)
    requires
        first_ep_word_at(s, i),
        0 <= j <= i,
    ensures
        leftmost_from(EpisodePattern::EpWord, s, j) == Some((i, (i + 3, 2int, i + 5, 0int, i + 5))),
    decreases i - j,
{
    if j < i {
        lemma_ep_word_found(s, i, j + 1);
    }
}

/// Law: with no season-and-episode form and no `_E`/`-E` form present,
/// `Ep.nn`, `Ep_nn` or `Ep nn` gives episode `nn` of the default season.
pub proof fn lemma_ep_word_form(s: Seq<char>, i: int, d: i32)
    requires
        first_ep_word_at(s, i),
        no_pair_forms(s),
        leftmost(EpisodePattern::Dash, s) is None,
    ensures
        detect_in_name(s, d) == Some(
            DetectedEpisode { season: d, episode: two_digit_value(s, i + 3) as i32 },
        ),
{
    lemma_ep_word_found(s, i, 0);
    assert(ascii_digits_at(s, i + 3, 2));
    reveal_with_fuel(digits_value, 3);
    assert(digits_value(s, i + 3, 2) == two_digit_value(s, i + 3));
}

/// `s[i..i+3]` is a character other than an ASCII letter or digit, then two
/// ASCII digits, then the end or another such character; no such character
/// before it is followed by a decimal digit.
pub open spec fn first_bare_number_at(s: Seq<char>, i: int) -> bool {
    &&& 0 <= i
    &&& i + 3 <= s.len()
    &&& !is_ascii_alnum(s[i])
    &&& is_ascii_digit(s[i + 1])
    &&& is_ascii_digit(s[i + 2])
    &&& (i + 3 == s.len() || !is_ascii_alnum(s[i + 3]))
    &&& forall|k: int| 0 <= k < i ==> is_ascii_alnum(s[k]) || !is_decimal_number(s[k + 1])
}

proof fn lemma_bare_found(s: Seq<char>, i: int, j: int)
    requires
        first_bare_number_at(s, i),
        0 <= j <= i,
    ensures
        leftmost_from(EpisodePattern::Bare, s, j) matches Some((p, m)) && p == i && m.0 == i + 1
            && m.1 == 2,
    decreases i - j,
{
    if j < i {
        lemma_bare_found(s, i, j + 1);
    }
}

/// Law: when no other form is present, a bare two-digit number between
/// non-alphanumeric characters gives that episode of the default season if
/// it lies in 1..=50, and nothing otherwise.
pub proof fn lemma_bare_number_form(s: Seq<char>, i: int, d: i32)
    requires
        first_bare_number_at(s, i),
        no_pair_forms(s),
        leftmost(EpisodePattern::Dash, s) is None,
        leftmost(EpisodePattern::EpWord, s) is None,
        leftmost(EpisodePattern::Absolute, s) is None,
    ensures
        detect_in_name(s, d) == (if 1 <= two_digit_value(s, i + 1) <= 50 {
            Some(DetectedEpisode { season: d, episode: two_digit_value(s, i + 1) as i32 })
        } else {
            None
        }),
{
    lemma_bare_found(s, i, 0);
    assert(ascii_digits_at(s, i + 1, 2));
    reveal_with_fuel(digits_value, 3);
    assert(digits_value(s, i + 1, 2) == two_digit_value(s, i + 1));
}

/// `s[i..i+8]` is `[` or `(`, two ASCII digits, `.` or a space, `E`/`e`/`X`/`x`,
/// two ASCII digits, and `]` or `)`; no `[` or `(` comes before it.
pub open spec fn first_bracketed_at(s: Seq<char>, i: int) -> bool {
    &&& 0 <= i
    &&& i + 8 <= s.len()
    &&& (s[i] == '[' || s[i] == '(')
    &&& is_ascii_digit(s[i + 1])
    &&& is_ascii_digit(s[i + 2])
    &&& (s[i + 3] == '.' || s[i + 3] == ' ')
    &&& (s[i + 4] == 'e' || s[i + 4] == 'E' || s[i + 4] == 'x' || s[i + 4] == 'X')
    &&& is_ascii_digit(s[i + 5])
    &&& is_ascii_digit(s[i + 6])
    &&& (s[i + 7] == ']' || s[i + 7] == ')')
    &&& forall|k: int| 0 <= k < i ==> s[k] != '[' && s[k] != '('
}

proof fn lemma_bracketed_found(s: Seq<char>, i: int, j: int)
    requires
        first_bracketed_at(s, i),
        0 <= j <= i,
    ensures
        leftmost_from(EpisodePattern::Bracketed, s, j) == Some(
            (i, (i + 1, 2int, i + 5, 2int, i + 8)),
        ),
    decreases i - j,
{
    if j < i {
        lemma_bracketed_found(s, i, j + 1);
    }
}

/// Law: with no `SxxEyy`, `NxNN` or "Season ... Episode" form present,
/// `[NN.ENN]`, `(NN xNN)` and the like are read as season and episode.
pub proof fn lemma_bracketed_form(s: Seq<char>, i: int, d: i32)
    requires
        first_bracketed_at(s, i),
        leftmost(EpisodePattern::SeasonEpisode, s) is None,
        leftmost(EpisodePattern::Cross, s) is None,
        leftmost(EpisodePattern::SeasonText, s) is None,
    ensures
        detect_in_name(s, d) == Some(
            DetectedEpisode {
                season: two_digit_value(s, i + 1) as i32,
                episode: two_digit_value(s, i + 5) as i32,
            },
        ),
{
    lemma_bracketed_found(s, i, 0);
    assert(ascii_digits_at(s, i + 1, 2));
    assert(ascii_digits_at(s, i + 5, 2));
    reveal_with_fuel(digits_value, 3);
    assert(digits_value(s, i + 1, 2) == two_digit_value(s, i + 1));
    assert(digits_value(s, i + 5, 2) == two_digit_value(s, i + 5));
}

/// `s[i+1..i+4]` is a three-digit ASCII number without a leading zero between
/// word boundaries, with characters that are not hexadecimal digits on both
/// sides, and no decimal digit before it.
pub open spec fn first_absolute_at(s: Seq<char>, i: int) -> bool {
    &&& 0 <= i
    &&& i + 5 <= s.len()
    &&& !is_ascii_hex(s[i])
    &&& !is_ascii_hex(s[i + 4])
    &&& '1' <= s[i + 1] <= '9'
    &&& is_ascii_digit(s[i + 2])
    &&& is_ascii_digit(s[i + 3])
    &&& boundary_at(s, i + 1)
    &&& boundary_at(s, i + 4)
    &&& forall|k: int| 0 <= k <= i ==> !is_decimal_number(s[k])
}

proof fn lemma_absolute_found(s: Seq<char>, i: int, j: int)
    requires
        first_absolute_at(s, i),
        0 <= j <= i + 1,
    ensures
        leftmost_from(EpisodePattern::Absolute, s, j) == Some(
            (i + 1, (i + 1, 3int, i + 4, 0int, i + 4)),
        ),
    decreases i + 1 - j,
{
    if j <= i {
        lemma_absolute_found(s, i, j + 1);
    }
}

/// Law: when no earlier form is present, a three-digit number between word
/// boundaries, away from hexadecimal digits, is an absolute episode number of
/// the default season.
pub proof fn lemma_absolute_form(s: Seq<char>, i: int, d: i32)
    requires
        first_absolute_at(s, i),
        no_pair_forms(s),
        leftmost(EpisodePattern::Dash, s) is None,
        leftmost(EpisodePattern::EpWord, s) is None,
    ensures
        detect_in_name(s, d) == Some(
            DetectedEpisode { season: d, episode: three_digit_value(s, i + 1) as i32 },
        ),
{
    lemma_absolute_found(s, i, 0);
    assert(ascii_digits_at(s, i + 1, 3));
    reveal_with_fuel(digits_value, 4);
    assert(digits_value(s, i + 1, 3) == three_digit_value(s, i + 1));
    assert(!all_hex(s, if i + 1 >= 8 {
        i + 1 - 8
    } else {
        0
    }, i + 1));
    assert(!all_hex(s, i + 4, if i + 12 <= s.len() {
        i + 12
    } else {
        s.len() as int
    }));
}

} // verus!
