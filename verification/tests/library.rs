use videodownloader::command::{is_exit_command, parse_choice, parse_usize, parse_user_command};
use videodownloader::format::{
    available_resolutions, format_extension, is_direct, rank_audio_formats, rank_video_formats,
    stable_order_desc, FormatKind, MediaFormat,
};
use videodownloader::paths::{
    candidate_file_path, download_label, numbered_file_name, probe, unique_path, Probe,
};
use videodownloader::plan::{
    after_download, assess_download, audio_stream_file_name, next_attempt, offer_resolutions,
    start_attempts, AttemptStep, AudioOnlyPlan, classify_formats, destination_file_name,
    give_up_error, merged_file_name, plan_audio_only, plan_video_download, prepare_job,
    resolution_menu, select_resolution, video_stream_file_name, watchable_formats, Assessment,
    DownloadOutcome, PlanError, VideoPlan, MIN_VALID_AUDIO_BYTES, MIN_VALID_VIDEO_BYTES,
};
use videodownloader::progress::{progress_bar, PROGRESS_WIDTH};
use videodownloader::text::{
    join_text, contains, cut_before, decimal_string, eq_ignore_ascii_case, find_piece, has_prefix,
    has_suffix, split_words, trim,
};
use videodownloader::url::{detect_platform, host_matches, host_of, normalize_youtube_url, Platform};

fn format(id: &str, kind: FormatKind) -> MediaFormat {
    let (audio, video) = match kind {
        FormatKind::Audio => (true, false),
        FormatKind::Video => (false, true),
        FormatKind::AudioVideo => (true, true),
        _ => (false, false),
    };
    MediaFormat {
        source: 0,
        format_id: id.to_string(),
        format_note: None,
        ext: "mp4".to_string(),
        has_manifest_url: kind == FormatKind::Manifest,
        has_storyboard_fragments: kind == FormatKind::Storyboard,
        has_audio_codec: audio,
        has_video_codec: video,
        width: Some(1280),
        height: Some(720),
        resolution: Some("1280x720".to_string()),
        quality_key: 0,
        audio_rate_key: 0,
        total_rate_key: 0,
    }
}

fn ids(formats: &[&MediaFormat]) -> Vec<String> {
    formats.iter().map(|f| f.format_id.clone()).collect()
}

#[test]
fn host_is_cut_from_url() {
    assert_eq!(host_of("https://www.youtube.com/watch?v=abc"), "www.youtube.com");
    assert_eq!(host_of("HTTPS://WWW.YouTube.COM:443/x?y=1"), "www.youtube.com");
    assert_eq!(host_of("youtu.be/abc"), "youtu.be");
    assert_eq!(host_of("example.com?x=1"), "example.com");
    assert_eq!(host_of("a://b://c"), "b");
    assert_eq!(host_of(""), "");
}

#[test]
fn host_matches_domain_and_subdomains() {
    assert!(host_matches("youtube.com", "youtube.com"));
    assert!(host_matches("m.youtube.com", "youtube.com"));
    assert!(!host_matches("notyoutube.com", "youtube.com"));
    assert!(!host_matches("youtube.com.evil", "youtube.com"));
}

#[test]
fn subdomain_of_matching_host_matches() {
    assert!(host_matches("www.instagram.com", "instagram.com"));
    assert!(host_matches("a.www.instagram.com", "instagram.com"));
}

#[test]
fn platforms_are_detected() {
    assert_eq!(detect_platform("https://www.youtube.com/watch?v=abc"), Platform::Youtube);
    assert_eq!(detect_platform("https://youtu.be/abc"), Platform::Youtube);
    assert_eq!(detect_platform("https://www.youtube-nocookie.com/embed/x"), Platform::Youtube);
    assert_eq!(detect_platform("https://www.instagram.com/p/xyz/"), Platform::Instagram);
    assert_eq!(detect_platform("https://twitter.com/a/status/1"), Platform::Twitter);
    assert_eq!(detect_platform("https://x.com/a/status/1"), Platform::Twitter);
    assert_eq!(detect_platform("https://www.facebook.com/watch/?v=1"), Platform::Facebook);
    assert_eq!(detect_platform("https://fb.watch/abc"), Platform::Facebook);
    assert_eq!(detect_platform("https://m.fb.com/x"), Platform::Facebook);
    assert_eq!(detect_platform("https://vimeo.com/1"), Platform::Other);
    assert_eq!(detect_platform("https://box.com/1"), Platform::Other);
}

#[test]
fn platform_detection_ignores_case() {
    assert_eq!(host_of("https://WWW.ÀB.COM/"), "www.àb.com");
    assert_eq!(detect_platform("HTTPS://WWW.YOUTUBE.COM/WATCH?V=ABC"), Platform::Youtube);
    assert_eq!(detect_platform("https://X.COM/a"), Platform::Twitter);
}

#[test]
fn platform_names() {
    assert_eq!(Platform::Youtube.name(), "Youtube");
    assert_eq!(Platform::Instagram.name(), "Instagram");
    assert_eq!(Platform::Twitter.name(), "Twitter/X");
    assert_eq!(Platform::Facebook.name(), "Facebook");
    assert_eq!(Platform::Other.name(), "Other");
}

#[test]
fn watch_links_are_shortened() {
    assert_eq!(
        normalize_youtube_url("https://www.youtube.com/watch?v=dQw4w9WgXcQ&t=10s"),
        "https://youtu.be/dQw4w9WgXcQ"
    );
    assert_eq!(
        normalize_youtube_url("https://www.youtube.com/watch?v=abc"),
        "https://youtu.be/abc"
    );
    assert_eq!(normalize_youtube_url("https://youtube.com/watch?v=abc123"), "https://youtu.be/abc123");
    assert_eq!(normalize_youtube_url("https://m.youtube.com/watch?v=abc&x=1"), "https://youtu.be/abc");
    assert_eq!(normalize_youtube_url("http://www.youtube.com/watch?v=abc"), "https://youtu.be/abc");
    assert_eq!(normalize_youtube_url("http://youtube.com/watch?v=abc"), "https://youtu.be/abc");
    assert_eq!(normalize_youtube_url("http://m.youtube.com/watch?v=abc"), "https://youtu.be/abc");
    assert_eq!(normalize_youtube_url("https://www.youtube.com/shorts/abc"), "https://www.youtube.com/shorts/abc");
    assert_eq!(normalize_youtube_url("https://vimeo.com/1"), "https://vimeo.com/1");
}

#[test]
fn normalizing_twice_changes_nothing() {
    let once = normalize_youtube_url("https://www.youtube.com/watch?v=xyz&list=1");
    let twice = normalize_youtube_url(&once);
    assert_eq!(once, twice);
}

#[test]
fn commands_are_parsed() {
    let c = parse_user_command("  https://www.youtube.com/watch?v=abc   --audio-only ");
    assert_eq!(c.url, "https://youtu.be/abc");
    assert!(c.audio_only);
    let c = parse_user_command("https://vimeo.com/1 --audio-onlyx");
    assert_eq!(c.url, "https://vimeo.com/1");
    assert!(!c.audio_only);
    let c = parse_user_command("--audio-only");
    assert_eq!(c.url, "--audio-only");
    assert!(!c.audio_only);
    let c = parse_user_command("u\t--x\u{3000}--audio-only");
    assert_eq!(c.url, "u");
    assert!(c.audio_only);
    let c = parse_user_command("   ");
    assert_eq!(c.url, "");
    assert!(!c.audio_only);
}

#[test]
fn exit_words() {
    assert!(is_exit_command(""));
    assert!(is_exit_command("exit"));
    assert!(is_exit_command("EXIT"));
    assert!(is_exit_command("Quit"));
    assert!(!is_exit_command("exit now"));
    assert!(!is_exit_command("https://x.com"));
}

#[test]
fn menu_choices() {
    assert_eq!(parse_choice("2\n", 3), Some(2));
    assert_eq!(parse_choice(" 3 ", 3), Some(3));
    assert_eq!(parse_choice("+1", 3), Some(1));
    assert_eq!(parse_choice("0", 3), None);
    assert_eq!(parse_choice("4", 3), None);
    assert_eq!(parse_choice("-1", 3), None);
    assert_eq!(parse_choice("abc", 3), None);
    assert_eq!(parse_choice("", 3), None);
    assert_eq!(parse_choice("1 2", 3), None);
}

#[test]
fn unsigned_literals() {
    assert_eq!(parse_usize("0"), Some(0));
    assert_eq!(parse_usize("007"), Some(7));
    assert_eq!(parse_usize("+"), None);
    assert_eq!(parse_usize("18446744073709551615"), Some(usize::MAX));
    assert_eq!(parse_usize("18446744073709551616"), None);
    assert_eq!(parse_usize("99999999999999999999999"), None);
}

#[test]
fn text_helpers() {
    assert_eq!(trim("  a b \t\n"), "a b");
    assert_eq!(trim(" \u{a0} "), "");
    assert_eq!(split_words(" a  bc\td "), vec!["a", "bc", "d"]);
    assert_eq!(decimal_string(0), "0");
    assert_eq!(decimal_string(12345), "12345");
    assert_eq!(decimal_string(u64::MAX), "18446744073709551615");
    assert_eq!(find_piece("abcabc", "ca"), Some(2));
    assert_eq!(find_piece("abc", "x"), None);
    assert_eq!(cut_before("a&b&c", "&"), "a");
    assert!(contains("xOriginaly", "Original"));
    assert!(has_prefix("https://a", "https://"));
    assert!(has_suffix("a.b.com", ".b.com"));
    assert!(eq_ignore_ascii_case("QuIt", "quit"));
    assert_eq!(join_text("a", "b"), "ab");
}

#[test]
fn format_kinds() {
    assert_eq!(format("a", FormatKind::Audio).format_type(), FormatKind::Audio);
    assert_eq!(format("v", FormatKind::Video).format_type(), FormatKind::Video);
    assert_eq!(format("av", FormatKind::AudioVideo).format_type(), FormatKind::AudioVideo);
    assert_eq!(format("m", FormatKind::Manifest).format_type(), FormatKind::Manifest);
    assert_eq!(format("s", FormatKind::Storyboard).format_type(), FormatKind::Storyboard);
    assert_eq!(format("u", FormatKind::Unknown).format_type(), FormatKind::Unknown);
    let mut both = format("mb", FormatKind::AudioVideo);
    both.has_manifest_url = true;
    assert_eq!(both.format_type(), FormatKind::Manifest);
    assert!(!is_direct(&both));
    assert!(is_direct(&format("a", FormatKind::Audio)));
}

#[test]
fn extensions_fall_back_when_unknown() {
    let mut f = format("a", FormatKind::Audio);
    f.ext = "bin".to_string();
    assert_eq!(format_extension(&f, "m4a"), "m4a");
    f.ext = "webm".to_string();
    assert_eq!(format_extension(&f, "m4a"), "webm");
}

#[test]
fn stable_descending_order() {
    let keys = vec![(1, 0), (3, 0), (1, 0), (3, 1), (2, 9)];
    assert_eq!(stable_order_desc(&keys), vec![3, 1, 4, 0, 2]);
    assert_eq!(stable_order_desc(&vec![]), Vec::<usize>::new());
}

#[test]
fn video_formats_are_ranked() {
    let mut a = format("a", FormatKind::AudioVideo);
    a.quality_key = 5;
    a.total_rate_key = 1;
    let mut b = format("b", FormatKind::AudioVideo);
    b.quality_key = 7;
    let mut c = format("c", FormatKind::AudioVideo);
    c.quality_key = 5;
    c.total_rate_key = 3;
    let mut d = format("d", FormatKind::AudioVideo);
    d.quality_key = 5;
    d.total_rate_key = 1;
    let input = vec![&a, &b, &c, &d];
    let ranked = rank_video_formats(&input);
    assert_eq!(ids(&ranked), vec!["b", "c", "a", "d"]);
}

#[test]
fn audio_formats_prefer_originals() {
    let mut a = format("a", FormatKind::Audio);
    a.audio_rate_key = 9;
    let mut b = format("b", FormatKind::Audio);
    b.format_note = Some("English ORIGINAL (default)".to_string());
    b.audio_rate_key = 1;
    let mut c = format("c", FormatKind::Audio);
    c.format_note = Some("original, low".to_string());
    c.audio_rate_key = 1;
    c.quality_key = 4;
    let input = vec![&a, &b, &c];
    assert_eq!(ids(&rank_audio_formats(&input)), vec!["c", "b"]);
    let input = vec![&a, &b];
    assert_eq!(ids(&rank_audio_formats(&input)), vec!["b"]);
}

#[test]
fn audio_formats_without_originals_are_all_ranked() {
    let mut a = format("a", FormatKind::Audio);
    a.audio_rate_key = 2;
    let mut b = format("b", FormatKind::Audio);
    b.format_note = Some("medium".to_string());
    b.audio_rate_key = 5;
    let input = vec![&a, &b];
    assert_eq!(ids(&rank_audio_formats(&input)), vec!["b", "a"]);
    assert!(rank_audio_formats(&[]).is_empty());
}

#[test]
fn resolutions_are_distinct_and_descending() {
    let mut a = format("a", FormatKind::Video);
    a.height = Some(720);
    let mut b = format("b", FormatKind::Video);
    b.height = Some(1080);
    let mut c = format("c", FormatKind::AudioVideo);
    c.height = Some(720);
    let mut d = format("d", FormatKind::Video);
    d.height = Some(0);
    let mut e = format("e", FormatKind::Video);
    e.height = None;
    let mut f = format("f", FormatKind::Video);
    f.height = Some(144);
    let all = vec![&a, &b, &c, &d, &e, &f];
    assert_eq!(available_resolutions(&all), vec![1080, 720, 144]);
    assert_eq!(available_resolutions(&vec![]), Vec::<u32>::new());
}

#[test]
fn formats_are_classified() {
    let formats = vec![
        format("a", FormatKind::Audio),
        format("m", FormatKind::Manifest),
        format("av", FormatKind::AudioVideo),
        format("v", FormatKind::Video),
        format("s", FormatKind::Storyboard),
        format("a2", FormatKind::Audio),
    ];
    let groups = classify_formats(&formats);
    assert_eq!(ids(&groups.audio), vec!["a", "a2"]);
    assert_eq!(ids(&groups.progressive), vec!["av"]);
    assert_eq!(ids(&groups.video_only), vec!["v"]);
}

#[test]
fn titles_are_sanitized() {
    let formats = vec![format("a", FormatKind::Audio)];
    let job = prepare_job("My: video / part?1", &formats);
    assert_eq!(job.file_title, "My video  part1");
    assert_eq!(ids(&job.groups.audio), vec!["a"]);
    let job = prepare_job("   ", &formats);
    assert_eq!(job.file_title, "download");
    assert_eq!(prepare_job("a..b", &formats).file_title, "ab");
    assert_eq!(prepare_job("a...b", &formats).file_title, "a.b");
    assert_eq!(prepare_job("a./.b", &formats).file_title, "a..b");
    assert_eq!(prepare_job(" x\u{7}y\u{85} ", &formats).file_title, "xy");
    assert_eq!(prepare_job("", &formats).file_title, "download");
}

#[test]
fn file_names() {
    let mut f = format("a", FormatKind::Audio);
    f.ext = "bin".to_string();
    assert_eq!(destination_file_name("Song", &f, "m4a"), "Song.m4a");
    f.ext = "webm".to_string();
    assert_eq!(destination_file_name("Song", &f, "m4a"), "Song.webm");
    assert_eq!(merged_file_name("Clip"), "Clip.mp4");
    assert_eq!(video_stream_file_name(), "video_stream.mp4");
    assert_eq!(audio_stream_file_name(), "audio_stream.m4a");
    assert_eq!(numbered_file_name("x", Some("mp4"), 12), "x (12).mp4");
    assert_eq!(numbered_file_name("x", None, 1), "x (1)");
}

#[test]
fn audio_only_plans() {
    let a = format("a", FormatKind::Audio);
    let p = format("p", FormatKind::AudioVideo);
    match plan_audio_only(&[&a], &[&p]) {
        Ok(AudioOnlyPlan::AudioTracks(plan)) => {
            assert_eq!(ids(&plan.candidates), vec!["a"]);
            assert_eq!(plan.default_ext, "m4a");
            assert_eq!(plan.min_size, MIN_VALID_AUDIO_BYTES);
        }
        _ => panic!("expected audio tracks"),
    }
    match plan_audio_only(&[], &[&p]) {
        Ok(AudioOnlyPlan::CombinedFile(plan)) => {
            assert_eq!(ids(&plan.candidates), vec!["p"]);
            assert_eq!(plan.default_ext, "mp4");
            assert_eq!(plan.min_size, MIN_VALID_VIDEO_BYTES);
        }
        _ => panic!("expected a combined file"),
    }
    let err = plan_audio_only(&[], &[]).err().unwrap();
    assert_eq!(err, PlanError::NoAudioTrack);
    assert_eq!(err.message(), "No downloadable audio track found");
}

#[test]
fn video_plans() {
    let mut p = format("p", FormatKind::AudioVideo);
    p.height = Some(720);
    let mut v = format("v", FormatKind::Video);
    v.height = Some(1080);
    let mut v2 = format("v2", FormatKind::Video);
    v2.height = Some(1080);
    v2.quality_key = 3;
    let a = format("a", FormatKind::Audio);
    let watchable = watchable_formats(&[&p], &[&v, &v2]);
    assert_eq!(ids(&watchable), vec!["p", "v", "v2"]);
    match plan_video_download(&watchable, 720, &[&a]) {
        Ok(VideoPlan::Single(plan)) => {
            assert_eq!(ids(&plan.candidates), vec!["p"]);
            assert_eq!(plan.default_ext, "mp4");
        }
        _ => panic!("expected a single download"),
    }
    match plan_video_download(&watchable, 1080, &[&a]) {
        Ok(VideoPlan::Merge { video, audio }) => {
            assert_eq!(ids(&video.candidates), vec!["v2", "v"]);
            assert_eq!(ids(&audio.candidates), vec!["a"]);
            assert_eq!(audio.min_size, MIN_VALID_AUDIO_BYTES);
        }
        _ => panic!("expected a merge"),
    }
    assert_eq!(
        plan_video_download(&watchable, 480, &[&a]).err().unwrap(),
        PlanError::NoVideoFormat
    );
    let err = plan_video_download(&watchable, 1080, &[]).err().unwrap();
    assert_eq!(err, PlanError::NoAudioTrack);
    assert_eq!(PlanError::NoVideoFormat.message(), "Could not find video format");
    assert_eq!(PlanError::NoVideoFormats.message(), "No video formats found");
}

#[test]
fn watchable_needs_width_and_height() {
    let mut p = format("p", FormatKind::AudioVideo);
    p.width = None;
    let mut v = format("v", FormatKind::Video);
    v.height = Some(0);
    let w = format("w", FormatKind::Video);
    assert_eq!(ids(&watchable_formats(&[&p], &[&v, &w])), vec!["w"]);
}

#[test]
fn listed_resolutions_can_be_planned() {
    let formats = vec![format("v", FormatKind::Video), format("a", FormatKind::Audio)];
    let groups = classify_formats(&formats);
    let watchable = watchable_formats(&groups.progressive, &groups.video_only);
    for h in available_resolutions(&watchable) {
        assert!(plan_video_download(&watchable, h, &groups.audio).is_ok());
    }
}

#[test]
fn resolution_menu_and_choice() {
    let res = vec![1080, 720];
    assert_eq!(resolution_menu(&res), vec!["1. 1080p".to_string(), "2. 720p".to_string()]);
    assert_eq!(select_resolution(&res, Some(2)), Ok(720));
    let none: Vec<&MediaFormat> = vec![];
    assert_eq!(offer_resolutions(&none), Err(PlanError::NoVideoFormats));
    let v = format("v", FormatKind::Video);
    assert_eq!(offer_resolutions(&vec![&v]), Ok(vec![720]));
    assert_eq!(select_resolution(&res, Some(3)), Err(PlanError::InvalidChoice));
    assert_eq!(select_resolution(&res, None), Err(PlanError::InvalidChoice));
    assert_eq!(PlanError::InvalidChoice.message(), "Invalid choice");
}

#[test]
fn downloads_are_assessed() {
    let ok = DownloadOutcome::Completed { file_size: Ok(MIN_VALID_VIDEO_BYTES) };
    assert!(matches!(assess_download("18", &ok, MIN_VALID_VIDEO_BYTES), Assessment::Accept));
    let small = DownloadOutcome::Completed { file_size: Ok(512) };
    match assess_download("18", &small, MIN_VALID_VIDEO_BYTES) {
        Assessment::Retry { notice, error, discard_file } => {
            assert!(discard_file);
            assert_eq!(error, "format 18 produced an invalid file");
            assert_eq!(
                notice.unwrap(),
                "Format 18 downloaded but looks invalid (512 bytes) - likely throtteled or restricted by yt, trying next option..."
            );
        }
        _ => panic!("expected a retry"),
    }
    let unreadable = DownloadOutcome::Completed { file_size: Err("no such file".to_string()) };
    match assess_download("18", &unreadable, 1) {
        Assessment::Retry { notice, error, discard_file } => {
            assert!(!discard_file);
            assert!(notice.is_none());
            assert_eq!(error, "no such file");
        }
        _ => panic!("expected a retry"),
    }
    let failed = DownloadOutcome::Failed { reason: "HTTP 403".to_string() };
    match assess_download("22", &failed, 1) {
        Assessment::Retry { notice, error, discard_file } => {
            assert!(!discard_file);
            assert_eq!(error, "HTTP 403");
            assert_eq!(notice.unwrap(), "Format 22 failed to download (HTTP 403), trying next option...");
        }
        _ => panic!("expected a retry"),
    }
    match assess_download("22", &DownloadOutcome::Canceled, 1) {
        Assessment::Retry { notice, error, .. } => {
            assert_eq!(error, "format 22 download was canceled");
            assert_eq!(notice.unwrap(), "Format 22 download was canceled, trying next option...");
        }
        _ => panic!("expected a retry"),
    }
    let odd = DownloadOutcome::Unfinished { state: "None".to_string() };
    match assess_download("22", &odd, 1) {
        Assessment::Retry { notice, error, .. } => {
            assert_eq!(error, "format 22 ended in an unexpected state");
            assert_eq!(notice.unwrap(), "Format 22 ended in an unexpected state (None), trying next option...");
        }
        _ => panic!("expected a retry"),
    }
}

#[test]
fn giving_up_reports_last_error() {
    assert_eq!(give_up_error(Some("boom".to_string())), "boom");
    assert_eq!(give_up_error(None), "No working format found");
}

#[test]
fn free_paths_are_kept_and_taken_ones_numbered() {
    let (found, _) = unique_path("no-such-file-here.mp4");
    assert_eq!(found.unwrap(), "no-such-file-here.mp4");
    let (found, _) = unique_path(".");
    assert_eq!(found.unwrap(), "download (1)");
}

/// Runs the search for a free path against a given set of taken paths.
fn search(path: &str, taken: &[&str]) -> Option<String> {
    let mut n: u32 = 0;
    loop {
        let candidate = candidate_file_path(path, n);
        match probe(path, n, taken.contains(&candidate.as_str())) {
            Probe::Free(p) => return Some(p),
            Probe::Next(m) => n = m,
            Probe::Exhausted => return None,
        }
    }
}

#[test]
fn least_free_number_is_chosen() {
    let taken = ["/d/v.mp4", "/d/v (1).mp4", "/d/v (3).mp4"];
    assert_eq!(search("/d/v.mp4", &taken).unwrap(), "/d/v (2).mp4");
    assert_eq!(search("/d/notes", &["/d/notes"]).unwrap(), "/d/notes (1)");
    assert_eq!(search("/d/free.txt", &["/d/v.mp4"]).unwrap(), "/d/free.txt");
}

#[test]
fn candidates_and_probe_steps() {
    assert_eq!(candidate_file_path("/d/v.mp4", 0), "/d/v.mp4");
    assert_eq!(candidate_file_path("/d/v.mp4", 7), "/d/v (7).mp4");
    assert_eq!(candidate_file_path("/d/.hidden", 1), "/d/.hidden (1)");
    assert_eq!(candidate_file_path("/d/a.tar.gz", 2), "/d/a.tar (2).gz");
    assert_eq!(candidate_file_path("/d/.x.y", 3), "/d/.x (3).y");
    assert_eq!(candidate_file_path("/d/name.", 1), "/d/name (1).");
    assert!(matches!(probe("/d/v.mp4", 4, true), Probe::Next(5)));
    assert!(matches!(probe("/d/v.mp4", u32::MAX, true), Probe::Exhausted));
    match probe("/d/v.mp4", 2, false) {
        Probe::Free(p) => assert_eq!(p, "/d/v (2).mp4"),
        _ => panic!("expected a free candidate"),
    }
}

#[test]
fn download_labels() {
    assert_eq!(download_label("dir/file.mp4"), "file.mp4");
    assert_eq!(download_label("/a/b/"), "b");
    assert_eq!(download_label(""), "download");
}

#[test]
fn progress_bars() {
    assert_eq!(progress_bar(0), " ".repeat(30));
    assert_eq!(progress_bar(10), format!("{}{}", "=".repeat(10), " ".repeat(20)));
    assert_eq!(progress_bar(PROGRESS_WIDTH), "=".repeat(30));
}

#[test]
fn candidates_are_tried_in_order_until_one_is_good() {
    let verdicts = vec![
        assess_download("1", &DownloadOutcome::Completed { file_size: Ok(5) }, 100),
        assess_download("2", &DownloadOutcome::Canceled, 100),
        assess_download("3", &DownloadOutcome::Completed { file_size: Ok(500) }, 100),
        assess_download("4", &DownloadOutcome::Completed { file_size: Ok(500) }, 100),
    ];
    let mut state = start_attempts();
    let mut tried = Vec::new();
    let mut verdicts = verdicts.into_iter();
    let accepted = loop {
        match next_attempt(&state, 4) {
            AttemptStep::Try(i) => {
                tried.push(i);
                match after_download(state, verdicts.next().unwrap()) {
                    Ok(i) => break i,
                    Err(next) => state = next,
                }
            }
            AttemptStep::GiveUp(_) => panic!("a good file was there"),
        }
    };
    assert_eq!(tried, vec![0, 1, 2]);
    assert_eq!(accepted, 2);
}

#[test]
fn giving_up_after_every_candidate_failed() {
    let mut state = start_attempts();
    match next_attempt(&state, 1) {
        AttemptStep::Try(0) => {}
        _ => panic!("expected the first candidate"),
    }
    let verdict = assess_download("7", &DownloadOutcome::Canceled, 1);
    state = match after_download(state, verdict) {
        Err(next) => next,
        Ok(_) => panic!("a canceled download is no good file"),
    };
    match next_attempt(&state, 1) {
        AttemptStep::GiveUp(e) => assert_eq!(e, "format 7 download was canceled"),
        _ => panic!("expected to give up"),
    }
    match next_attempt(&start_attempts(), 0) {
        AttemptStep::GiveUp(e) => assert_eq!(e, "No working format found"),
        _ => panic!("expected to give up"),
    }
}

#[test]
fn host_of_a_host_is_itself() {
    for url in ["https://WWW.YouTube.com:443/watch?v=1", "x.com/a", "a://b://c", "plain"] {
        let h = host_of(url);
        assert_eq!(host_of(&h), h);
    }
}

#[test]
fn normalizing_keeps_the_platform() {
    for url in [
        "https://www.youtube.com/watch?v=abc&t=1",
        "http://m.youtube.com/watch?v=abc",
        "https://youtube.com/watch?v=abc",
        "https://x.com/a",
        "https://www.youtube.com/watch?v=\u{e9}t\u{e9}&t=1",
        "https://\u{c9}XAMPLE.com/watch?v=abc",
    ] {
        assert_eq!(detect_platform(&normalize_youtube_url(url)), detect_platform(url));
    }
    let short = normalize_youtube_url("https://www.youtube.com/watch?v=\u{e9}&t=1");
    assert_eq!(short, "https://youtu.be/\u{e9}");
    assert_eq!(detect_platform(&short), Platform::Youtube);
}
