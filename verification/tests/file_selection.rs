use rinse::protocol::client::SearchResult;
use rinse::protocol::file_selection::{
    extract_track_name, find_best_file, is_audio_file, matches_format, normalize_for_matching,
    parse_query, score_file, score_title_match, Score, TitleScore, PARTS,
};
use rinse::protocol::messages::{FileAttribute, SearchFile};

fn share(score: TitleScore) -> f64 {
    score.numerator as f64 / score.denominator as f64
}

fn points(score: Score) -> f64 {
    (score.units as f64 + score.rem as f64 / score.of as f64) / PARTS as f64
}

fn file(name: &str, size: u64, bitrate: Option<u32>) -> SearchFile {
    SearchFile {
        code: 1,
        filename: name.to_string(),
        size,
        extension: String::new(),
        attributes: match bitrate {
            Some(value) => vec![FileAttribute { attribute_type: 0, value }],
            None => vec![],
        },
    }
}

fn result(user: &str, files: Vec<SearchFile>, has_slots: bool, speed: u32, queue: u64) -> SearchResult {
    SearchResult {
        username: user.to_string(),
        files,
        has_slots,
        avg_speed: speed,
        queue_length: queue,
        peer_ip: "10.0.0.1".to_string(),
        peer_port: 2234,
    }
}

const TRACK: u64 = 8 * 1_048_576;

#[test]
fn test_parse_query_with_artist() {
    let (artist, title) = parse_query("Skrillex - Bangarang");
    assert_eq!(artist, Some("skrillex".to_string()));
    assert_eq!(title, Some("bangarang".to_string()));
}

#[test]
fn test_parse_query_without_artist() {
    let (artist, title) = parse_query("Bangarang");
    assert_eq!(artist, None);
    assert_eq!(title, Some("bangarang".to_string()));
}

#[test]
fn query_is_split_at_the_first_separator() {
    let (artist, title) = parse_query(" A - B - C ");
    assert_eq!(artist, Some("a".to_string()));
    assert_eq!(title, Some("b - c".to_string()));
    let (artist, title) = parse_query("A-B");
    assert_eq!(artist, None);
    assert_eq!(title, Some("a-b".to_string()));
    let (artist, title) = parse_query(" - ");
    assert_eq!(artist, Some(String::new()));
    assert_eq!(title, Some(String::new()));
}

#[test]
fn normal_form_keeps_letters_digits_and_single_spaces() {
    assert_eq!(normalize_for_matching("Hello  World!"), "hello world");
    assert_eq!(normalize_for_matching("test-file_name.mp3"), "testfilenamemp3");
    assert_eq!(normalize_for_matching("  \tÄ 1 "), "ä 1");
    assert_eq!(normalize_for_matching("?!"), "");
}

#[test]
fn normal_forms_are_normal() {
    for text in ["Hello  World!", "  \tA-1 ", "?!", "", "Red, Green & Blue.mp3", "Ä Ö", "ΟΔΟΣ 9"] {
        let normal = normalize_for_matching(text);
        assert_eq!(normalize_for_matching(&normal), normal);
    }
}

#[test]
fn test_extract_track_name() {
    assert_eq!(extract_track_name("01 - Bangarang.mp3"), "bangarang");
    assert_eq!(extract_track_name("/path/to/02. Song Title.flac"), "song title");
    assert_eq!(extract_track_name("03_Track Name.wav"), "track name");
}

#[test]
fn track_name_of_a_windows_path() {
    assert_eq!(extract_track_name("@@abc\\Music\\Album\\07 Song.mp3"), "song");
    assert_eq!(extract_track_name("99.mp3"), "");
    assert_eq!(extract_track_name("no extension"), "no extension");
}

#[test]
fn test_score_title_match_exact() {
    assert_eq!(share(score_title_match("Bangarang.mp3", "bangarang")), 1.0);
}

#[test]
fn test_score_title_match_contains() {
    let score = score_title_match("01 - Bangarang (Original Mix).mp3", "bangarang");
    assert!(share(score) >= 0.9);
}

#[test]
fn title_scores_in_every_case() {
    assert_eq!(share(score_title_match("01 - Bangarang (Original Mix).mp3", "bangarang")), 0.9);
    assert_eq!(share(score_title_match("Bangarang.mp3", "bangarang original mix")), 0.7);
    // Two of four words are shared: 0.6 * 2 / 4.
    assert_eq!(share(score_title_match("red blue green.mp3", "blue yellow red")), 0.3);
    assert_eq!(share(score_title_match("red.mp3", "blue")), 0.0);
    assert_eq!(share(score_title_match("01.mp3", "blue")), 0.0);
    assert_eq!(share(score_title_match("red.mp3", "!")), 0.0);
}

#[test]
fn file_scores_add_title_format_and_size() {
    assert_eq!(points(score_file("Song.flac", TRACK, None, "song")), 135.0);
    assert_eq!(points(score_file("Song.wav", TRACK, None, "song")), 130.0);
    assert_eq!(points(score_file("Song.aiff", TRACK, None, "song")), 130.0);
    assert_eq!(points(score_file("Song.aif", 1, None, "song")), 125.0);
    assert_eq!(points(score_file("Song.mp3", 1, Some(320), "song")), 120.0);
    assert_eq!(points(score_file("Song.mp3", 1, Some(256), "song")), 115.0);
    assert_eq!(points(score_file("Song.mp3", 1, Some(192), "song")), 108.0);
    assert_eq!(points(score_file("Song.mp3", 1, Some(128), "song")), 102.0);
    assert_eq!(points(score_file("Song.mp3", 1, Some(127), "song")), 100.0);
    assert_eq!(points(score_file("Song.mp3", 1, None, "song")), 105.0);
    assert_eq!(points(score_file("Song.m4a", 1, None, "song")), 112.0);
    assert_eq!(points(score_file("Song.aac", 1, Some(64), "song")), 112.0);
    assert_eq!(points(score_file("Song.ogg", 1, Some(320), "song")), 118.0);
    assert_eq!(points(score_file("Song.ogg", 1, Some(256), "song")), 114.0);
    assert_eq!(points(score_file("Song.ogg", 1, Some(192), "song")), 108.0);
    assert_eq!(points(score_file("Song.ogg", 1, Some(128), "song")), 103.0);
    assert_eq!(points(score_file("Song.ogg", 1, None, "song")), 110.0);
    assert_eq!(points(score_file("Song.txt", 1, None, "song")), 100.0);
}

#[test]
fn size_bonus_has_sharp_bounds() {
    assert_eq!(points(score_file("Song.txt", 1_048_575, None, "song")), 100.0);
    assert_eq!(points(score_file("Song.txt", 1_048_576, None, "song")), 105.0);
    assert_eq!(points(score_file("Song.txt", 52_428_800, None, "song")), 105.0);
    assert_eq!(points(score_file("Song.txt", 52_428_801, None, "song")), 100.0);
}

#[test]
fn lossless_beats_lossy_and_bitrate_does_not_hurt() {
    let flac = score_file("Song.flac", TRACK, None, "song");
    let wav = score_file("Song.wav", TRACK, None, "song");
    let mp3 = score_file("Song.mp3", TRACK, Some(320), "song");
    let low = score_file("Song.mp3", TRACK, Some(128), "song");
    assert!(flac.exceeds(&wav));
    assert!(wav.exceeds(&mp3));
    assert!(mp3.exceeds(&low));
    assert!(!low.exceeds(&low));
}

#[test]
fn formats_rank_files_of_one_stem() {
    for stem in ["Song", "dir.x/07 - Red Blue", "@@a\\b\\other", "", "Ärger"] {
        for title in ["song", "blue green", "ärger"] {
            for size in [1, TRACK] {
                let flac = score_file(&format!("{}.flac", stem), size, Some(1), title);
                let wav = score_file(&format!("{}.wav", stem), size, None, title);
                assert!(flac.exceeds(&wav));
                for bitrate in [None, Some(0), Some(320), Some(u32::MAX)] {
                    assert!(wav.exceeds(&score_file(&format!("{}.mp3", stem), size, bitrate, title)));
                }
            }
        }
    }
}

#[test]
fn higher_bitrates_score_no_lower() {
    for name in ["Song.mp3", "Song.ogg", "Song.flac", "Song.txt", "a/red blue.MP3"] {
        let mut last = score_file(name, TRACK, Some(0), "song red");
        for bitrate in [1, 127, 128, 191, 192, 256, 319, 320, u32::MAX] {
            let next = score_file(name, TRACK, Some(bitrate), "song red");
            assert!(!last.exceeds(&next));
            last = next;
        }
    }
}

#[test]
fn scores_compare_exactly() {
    // A third of the words: 0.6 / 3 of 100 points.
    let third = score_file("red blue.txt", 1, None, "red green");
    assert!(third.exceeds_points(19));
    assert!(!third.exceeds_points(20));
    assert!(third.plus(1).exceeds_points(20));
    assert!(!Score::zero().exceeds(&third));
}

#[test]
fn test_is_audio_file() {
    assert!(is_audio_file("song.mp3"));
    assert!(is_audio_file("track.FLAC"));
    assert!(is_audio_file("audio.wav"));
    assert!(!is_audio_file("cover.jpg"));
    assert!(!is_audio_file("readme.txt"));
}

#[test]
fn every_audio_extension_counts() {
    for name in ["a.ogg", "a.m4a", "a.aac", "a.aiff", "a.AIF"] {
        assert!(is_audio_file(name));
    }
    assert!(!is_audio_file("mp3"));
    assert!(!is_audio_file("a.mp3.txt"));
}

#[test]
fn format_filters() {
    assert!(matches_format("a.txt", None));
    assert!(matches_format("a.MP3", Some("mp3")));
    assert!(!matches_format("a.flac", Some("mp3")));
    assert!(matches_format("a.flac", Some("flac")));
    assert!(matches_format("a.m4a", Some("m4a")));
    assert!(!matches_format("a.aac", Some("m4a")));
    assert!(matches_format("a.wav", Some("wav")));
    assert!(matches_format("a.aif", Some("aiff")));
    assert!(matches_format("a.aiff", Some("aiff")));
    assert!(matches_format("a.ogg", Some("ogg")));
    assert!(matches_format("a.txt", Some("unknown")));
}

#[test]
fn best_file_has_the_highest_score() {
    let results = vec![
        result("slow", vec![file("Artist - Song.mp3", TRACK, Some(320))], true, 0, 0),
        result("fast", vec![file("Song.flac", TRACK, None)], true, 1_048_576, 5),
    ];
    let best = find_best_file(&results, "Artist - Song", None).unwrap();
    assert_eq!(best.username, "fast");
    assert_eq!(best.filename, "Song.flac");
    assert_eq!(best.size, TRACK);
    assert_eq!(best.bitrate, None);
    assert!(best.slot_free);
    assert_eq!(best.peer_ip, "10.0.0.1");
    assert_eq!(best.peer_port, 2234);
    // 100 for the title, 30 for FLAC, 5 for the size, 20 for the speed, half a point off.
    assert_eq!(points(best.score), 154.5);
}

#[test]
fn speed_and_queue_are_bounded() {
    let fast = vec![result("a", vec![file("Song.flac", TRACK, None)], true, u32::MAX, 50)];
    assert_eq!(points(find_best_file(&fast, "song", None).unwrap().score), 150.0);
    let half = vec![result("a", vec![file("Song.flac", TRACK, None)], true, 524_288, 1_000)];
    assert_eq!(points(find_best_file(&half, "song", None).unwrap().score), 140.0);
}

#[test]
fn filter_decides_which_files_count() {
    let results = vec![
        result("a", vec![file("Song.flac", TRACK, None), file("Song.mp3", TRACK, Some(320))], true, 0, 0),
    ];
    assert_eq!(find_best_file(&results, "song", Some("mp3")).unwrap().filename, "Song.mp3");
    assert!(find_best_file(&results, "song", Some("ogg")).is_none());
}

#[test]
fn first_of_equal_files_is_chosen() {
    let results = vec![
        result("first", vec![file("Song.flac", TRACK, None)], true, 0, 0),
        result("second", vec![file("Song.flac", TRACK, None)], true, 0, 0),
    ];
    assert_eq!(find_best_file(&results, "song", None).unwrap().username, "first");
}

#[test]
fn busy_peers_wait_until_nobody_is_free() {
    let busy = result("busy", vec![file("Song.flac", TRACK, None)], false, 0, 0);
    let free = result("free", vec![file("Other.flac", TRACK, None)], true, 0, 0);
    let best = find_best_file(&[busy.clone(), free], "song", None).unwrap();
    assert_eq!(best.username, "free");
    let best = find_best_file(&[busy], "song", None).unwrap();
    assert_eq!(best.username, "busy");
    assert!(!best.slot_free);
    assert_eq!(points(best.score), 0.0);
}

#[test]
fn second_choice_needs_the_size_of_a_track() {
    let results = vec![
        result("a", vec![file("Other.flac", 10, None), file("Cover.jpg", TRACK, None)], true, 0, 0),
    ];
    assert!(find_best_file(&results, "song", None).is_none());
    assert!(find_best_file(&results, "artist - ", None).is_none());
    assert!(find_best_file(&[], "song", None).is_none());
}
