use backend::{detect_episode, is_video_file, DetectedEpisode};

#[test]
fn formula2_practice_detect_episode_does_not_steal() {
    let f = "01.Formula.2.2026.R07.British.Practice.SkyF1HD.1080P.mkv";
    assert_eq!(detect_episode(f, 1), None);
}

#[test]
fn test_sxxexx() {
    let r = detect_episode("Show.S02E05.mkv", 1).unwrap();
    assert_eq!(r, DetectedEpisode { season: 2, episode: 5 });
}

#[test]
fn test_1x04() {
    let r = detect_episode("Show.2x08.720p.mkv", 1).unwrap();
    assert_eq!(r, DetectedEpisode { season: 2, episode: 8 });
}

#[test]
fn test_text_form() {
    let r = detect_episode("Season 3 Episode 7.mp4", 1).unwrap();
    assert_eq!(r, DetectedEpisode { season: 3, episode: 7 });
}

#[test]
fn test_bracketed() {
    let r = detect_episode("[S01E03] Title.mkv", 1).unwrap();
    assert_eq!(r, DetectedEpisode { season: 1, episode: 3 });
}

#[test]
fn test_ep_word() {
    let r = detect_episode("ShowName.Ep.07.mkv", 1).unwrap();
    assert_eq!(r, DetectedEpisode { season: 1, episode: 7 });
}

#[test]
fn test_no_match_resolution() {
    assert!(detect_episode("Show.1080p.BluRay.mkv", 1).is_none());
}

#[test]
fn test_bare_episode_underscore() {
    let r = detect_episode("[FanVoxUA]_Rick_and_Morty_02_[1080p].mkv", 1).unwrap();
    assert_eq!(r, DetectedEpisode { season: 1, episode: 2 });
}

#[test]
fn test_bare_episode_dash() {
    let r = detect_episode("Show-02-720p.mkv", 1).unwrap();
    assert_eq!(r, DetectedEpisode { season: 1, episode: 2 });
}

#[test]
fn test_bare_episode_dot() {
    let r = detect_episode("Show.02.720p.mkv", 1).unwrap();
    assert_eq!(r, DetectedEpisode { season: 1, episode: 2 });
}

#[test]
fn test_bare_episode_space() {
    let r = detect_episode("Show 02 720p.mkv", 1).unwrap();
    assert_eq!(r, DetectedEpisode { season: 1, episode: 2 });
}

#[test]
fn test_bare_episode_bracket() {
    let r = detect_episode("[02] Show.mkv", 1).unwrap();
    assert_eq!(r, DetectedEpisode { season: 1, episode: 2 });
}

#[test]
fn test_bare_episode_dash_space() {
    let r = detect_episode("Show - 02.mkv", 1).unwrap();
    assert_eq!(r, DetectedEpisode { season: 1, episode: 2 });
}

#[test]
fn test_bare_episode_single_digit() {
    let r = detect_episode("Show_1_1080p.mkv", 1).unwrap();
    assert_eq!(r, DetectedEpisode { season: 1, episode: 1 });
}

#[test]
fn test_bare_episode_does_not_match_resolution() {
    assert!(detect_episode("Show.1080p.mkv", 1).is_none());
}

#[test]
fn test_bare_episode_does_not_match_year() {
    assert!(detect_episode("Show.2024.1080p.mkv", 1).is_none());
}

#[test]
fn test_bare_episode_does_not_match_racing() {
    assert!(detect_episode("01.Formula.2.2026.R07.British.Practice.SkyF1HD.1080P.mkv", 1).is_none());
}

#[test]
fn test_is_video_file() {
    assert!(is_video_file("video.mkv"));
    assert!(is_video_file("video.MP4"));
    assert!(!is_video_file("readme.txt"));
}

// ---------------------------------------------------------------------------
// Further cases
// ---------------------------------------------------------------------------

#[test]
fn only_the_file_name_is_read() {
    let direct = detect_episode("Show.S03E04.mkv", 1);
    assert_eq!(direct, Some(DetectedEpisode { season: 3, episode: 4 }));
    assert_eq!(detect_episode("Season 9/Show.S03E04.mkv", 1), direct);
    assert_eq!(detect_episode("/media/S07E07/Show.S03E04.mkv", 1), direct);
}

#[test]
fn trailing_separators_and_dots_are_skipped() {
    assert_eq!(
        detect_episode("shows/Show.S01E02/", 5),
        Some(DetectedEpisode { season: 1, episode: 2 })
    );
    assert_eq!(
        detect_episode("shows/Show.S01E02/.", 5),
        Some(DetectedEpisode { season: 1, episode: 2 })
    );
}

#[test]
fn lower_case_season_episode_and_long_s() {
    assert_eq!(
        detect_episode("show.s1e2.mkv", 1),
        Some(DetectedEpisode { season: 1, episode: 2 })
    );
    // U+017F LATIN SMALL LETTER LONG S folds to `s` in a case-insensitive match.
    assert_eq!(
        detect_episode("show.\u{17f}04e11.mkv", 1),
        Some(DetectedEpisode { season: 4, episode: 11 })
    );
}

#[test]
fn greedy_second_group_takes_two_digits() {
    assert_eq!(
        detect_episode("Show.S1E234.mkv", 1),
        Some(DetectedEpisode { season: 1, episode: 23 })
    );
}

#[test]
fn non_ascii_digits_stop_detection() {
    // `\d` matches Arabic-Indic digits, which `parse` then rejects.
    assert_eq!(detect_episode("Show.S\u{661}\u{662}E03.mkv", 1), None);
}

#[test]
fn cross_form_needs_word_boundaries() {
    assert_eq!(
        detect_episode("Show 3x07 720p.mkv", 1),
        Some(DetectedEpisode { season: 3, episode: 7 })
    );
    // A letter right before the digits is no word boundary: the cross form is
    // not found, and the bare two digits after the `x` are not taken either.
    assert_eq!(detect_episode("Showa3x07b.mkv", 1), None);
}

#[test]
fn season_episode_text_with_long_gap() {
    assert_eq!(
        detect_episode("Season 12 - The Finale - Episode 4.mkv", 1),
        Some(DetectedEpisode { season: 12, episode: 4 })
    );
}

#[test]
fn bracketed_cross_and_separator() {
    assert_eq!(
        detect_episode("(2x05) Title.mkv", 1),
        Some(DetectedEpisode { season: 2, episode: 5 })
    );
    assert_eq!(
        detect_episode("[03.E09] Title.mkv", 1),
        Some(DetectedEpisode { season: 3, episode: 9 })
    );
}

#[test]
fn period_form_limits() {
    assert_eq!(
        detect_episode("Show 3.12 Title.mkv", 1),
        Some(DetectedEpisode { season: 3, episode: 12 })
    );
    // 31 is beyond the season limit; the bare number 31 is taken instead.
    assert_eq!(
        detect_episode("Show 31.12 Title.mkv", 1),
        Some(DetectedEpisode { season: 1, episode: 31 })
    );
}

#[test]
fn dash_episode_uses_default_season() {
    assert_eq!(
        detect_episode("Show_E105.mkv", 4),
        Some(DetectedEpisode { season: 4, episode: 105 })
    );
    assert_eq!(
        detect_episode("Show-ep12 Title.mkv", 2),
        Some(DetectedEpisode { season: 2, episode: 12 })
    );
}

#[test]
fn episode_word_forms() {
    assert_eq!(
        detect_episode("Show Episode 9.mkv", 3),
        Some(DetectedEpisode { season: 3, episode: 9 })
    );
    assert_eq!(
        detect_episode("Show EPISODE_011.mkv", 3),
        Some(DetectedEpisode { season: 3, episode: 11 })
    );
}

#[test]
fn absolute_number() {
    assert_eq!(
        detect_episode("Show 0103 Title.mkv", 1),
        Some(DetectedEpisode { season: 1, episode: 103 })
    );
}

#[test]
fn absolute_number_at_either_end_is_ignored() {
    // Nothing before or nothing after the number counts as hexadecimal context.
    assert_eq!(detect_episode("345 Show.mkv", 1), None);
    assert_eq!(detect_episode("Show 345", 1), None);
    assert_eq!(
        detect_episode("[Grp] Show [ABCDEF12 345].mkv", 1),
        Some(DetectedEpisode { season: 1, episode: 345 })
    );
}

#[test]
fn bare_number_limits() {
    assert_eq!(detect_episode("Show 51 Title.mkv", 1), None);
    assert_eq!(detect_episode("Show 00 Title.mkv", 1), None);
    assert_eq!(
        detect_episode("Show 50", 1),
        Some(DetectedEpisode { season: 1, episode: 50 })
    );
    assert_eq!(detect_episode("Show.5.Title", 1), None);
}

#[test]
fn empty_and_plain_names() {
    assert_eq!(detect_episode("", 1), None);
    assert_eq!(detect_episode("/", 1), None);
    assert_eq!(detect_episode("readme", 1), None);
}

#[test]
fn video_file_extensions() {
    assert!(is_video_file("dir/Movie.M2TS"));
    assert!(is_video_file("clip.mpeg"));
    assert!(!is_video_file(".mkv"));
    assert!(!is_video_file("video.mkv/.."));
    assert!(!is_video_file("video"));
    assert!(!is_video_file("video.iso"));
    // The Kelvin sign lower-cases to `k`.
    assert!(is_video_file("video.M\u{212a}V"));
}
