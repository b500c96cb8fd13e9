use servufi::cookies::{normalize_cookie_line, normalize_cookie_lines, signed_decimal_string, split_tabs};
use servufi::driver::{audio_probe_args, duration_probe_args, fetch_start, fetch_step, processed_batch_path, reencode_request, FetchAction, FetchEvent, FetchOutcome, FetchState, fetch_args, filename_from_metadata, metadata_args, output_path, temp_output_path, transcode_args, decimal_string};
use servufi::planner::EncodePlan;
use servufi::tasks::{dedup_tasks, duplicate_line, is_quit, is_url, parse_args_to_tasks, parse_batch, parse_line_to_task, DownloadTask};
use servufi::text::split_words;

fn s(x: &str) -> String {
    x.to_string()
}

#[test]
fn batch_line_with_size_and_code() {
    let t = parse_line_to_task("https://x/video 2M badtoken").unwrap();
    assert_eq!(t.url, "https://x/video");
    assert_eq!(t.size, Some(s("2M")));
    assert_eq!(t.twofa, Some(s("badtoken")));
}

#[test]
fn batch_line_code_without_size() {
    let t = parse_line_to_task("https://x/v abc 123456").unwrap();
    assert_eq!(t.size, None);
    assert_eq!(t.twofa, Some(s("abc")));
    let t = parse_line_to_task("https://x/video badtoken").unwrap();
    assert_eq!(t.url, "https://x/video");
    assert_eq!(t.size, None);
    assert_eq!(t.twofa, Some(s("badtoken")));
    let t = parse_line_to_task("https://x/v 2M https://y").unwrap();
    assert_eq!(t.size, Some(s("2M")));
    assert_eq!(t.twofa, None);
}

#[test]
fn batch_line_not_a_url() {
    assert!(parse_line_to_task("not-a-url 2M").is_none());
    assert!(parse_line_to_task("   ").is_none());
}

#[test]
fn batch_file_lines() {
    let lines = vec![
        s("# comment"),
        s(""),
        s("  // other comment"),
        s("https://x/video 2M badtoken"),
        s("not-a-url 2M"),
        s("  http://y/z  "),
    ];
    let (tasks, skips) = parse_batch(&lines);
    assert_eq!(tasks.len(), 2);
    assert_eq!(tasks[0].url, "https://x/video");
    assert_eq!(tasks[1].url, "http://y/z");
    assert_eq!(tasks[1].size, None);
    assert_eq!(skips, vec![s("SKIPPED: not-a-url 2M")]);
}

#[test]
fn argument_grammar() {
    let args = vec![s("https://a"), s("9.5M"), s("https://b"), s("code"), s("junk"), s("https://c"), s("https://d"), s("1G"), s("2M")];
    let t = parse_args_to_tasks(&args);
    assert_eq!(t.len(), 4);
    assert_eq!((t[0].url.as_str(), t[0].size.as_deref(), t[0].twofa.as_deref()), ("https://a", Some("9.5M"), None));
    assert_eq!((t[1].url.as_str(), t[1].size.as_deref(), t[1].twofa.as_deref()), ("https://b", None, Some("code")));
    assert_eq!((t[2].url.as_str(), t[2].size.as_deref(), t[2].twofa.as_deref()), ("https://c", None, None));
    assert_eq!((t[3].url.as_str(), t[3].size.as_deref(), t[3].twofa.as_deref()), ("https://d", Some("1G"), None));
}

#[test]
fn argument_grammar_empty() {
    assert!(parse_args_to_tasks(&vec![s("hello"), s("5M")]).is_empty());
}

#[test]
fn words_of_a_line() {
    assert_eq!(split_words("  a\tbb \n c  "), vec![s("a"), s("bb"), s("c")]);
    assert!(split_words("   ").is_empty());
}

#[test]
fn url_schemes() {
    assert!(is_url("http://a"));
    assert!(is_url("https://a"));
    assert!(!is_url("ftp://a"));
    assert!(!is_url("HTTP://a"));
}

#[test]
fn duplicates_run_once() {
    let a = DownloadTask::new(s("https://a"), None, None);
    let b = DownloadTask::new(s("https://b"), Some(s("1M")), None);
    let a2 = DownloadTask::new(s("https://a"), Some(s("2M")), None);
    let (kept, dups) = dedup_tasks(&vec![a, b, a2]);
    assert_eq!(kept.len(), 2);
    assert_eq!(kept[0].url, "https://a");
    assert_eq!(kept[0].size, None);
    assert_eq!(kept[1].url, "https://b");
    assert_eq!(dups, vec![s("https://a")]);
    assert_eq!(duplicate_line(&dups[0]), "[SKIP] Duplicate URL: https://a");
}

#[test]
fn duplicates_are_case_sensitive() {
    let (kept, dups) = dedup_tasks(&vec![DownloadTask::new(s("https://A"), None, None), DownloadTask::new(s("https://a"), None, None)]);
    assert_eq!(kept.len(), 2);
    assert!(dups.is_empty());
}

#[test]
fn fetch_argument_lists() {
    let t = DownloadTask::new(s("https://x"), None, Some(s("123")));
    assert_eq!(
        metadata_args(&t, true),
        vec![s("--skip-download"), s("--print"), s("filename"), s("-o"), s("%(title)s"), s("--restrict-filenames"), s("--cookies"), s("/dl/cookies.txt"), s("--twofactor"), s("123"), s("https://x")]
    );
    let t2 = DownloadTask::new(s("https://y"), None, None);
    assert_eq!(
        fetch_args(&t2, false, "/dl/a.mp4"),
        vec![s("--remux"), s("mp4"), s("--merge-output-format"), s("mp4"), s("-o"), s("/dl/a.mp4"), s("https://y")]
    );
}

#[test]
fn paths_and_names() {
    assert_eq!(filename_from_metadata("  My_Video \n"), Some(s("My_Video")));
    assert_eq!(filename_from_metadata(" \n"), None);
    assert_eq!(output_path("My_Video"), "/dl/My_Video.mp4");
    assert_eq!(temp_output_path("/dl/a.mp4", "5M"), "/dl/a.mp4.5M.tmp.mp4");
}

#[test]
fn transcoder_arguments() {
    assert_eq!(decimal_string(0), "0");
    assert_eq!(decimal_string(18446744073709551615), "18446744073709551615");
    let plan = EncodePlan { duration_us: 1, original_bits: 2, target_bits: 1, audio_bps: 128_000, video_bps: 664_000 };
    let args = transcode_args("/dl/a.mp4", &plan, "/dl/a.mp4.1M.tmp.mp4");
    assert_eq!(
        args,
        vec![
            s("-loglevel"), s("error"), s("-y"), s("-i"), s("/dl/a.mp4"), s("-c:v"), s("libx264"), s("-b:v"), s("664000"),
            s("-maxrate:v"), s("664000"), s("-bufsize:v"), s("1328000"), s("-c:a"), s("aac"), s("-b:a"), s("128000"),
            s("/dl/a.mp4.1M.tmp.mp4")
        ]
    );
}

#[test]
fn cookie_rows() {
    assert_eq!(split_tabs("a\t\tb\t"), vec![s("a"), s(""), s("b"), s("")]);
    assert_eq!(signed_decimal_string(-42), "-42");
    assert_eq!(signed_decimal_string(i64::MIN), "-9223372036854775808");
    assert_eq!(normalize_cookie_line("# comment\ta\tb\tc\td\te\tf"), None);
    assert_eq!(normalize_cookie_line("   "), None);
    assert_eq!(normalize_cookie_line("a\tb\tc"), None);
    assert_eq!(
        normalize_cookie_line("sid\t abc \t.example.com\t\t2015-02-18T23:16:09Z\tx\ty\t\u{2713}"),
        Some(s(".example.com\tTRUE\t/\tTRUE\t1424301369\tsid\tabc"))
    );
    assert_eq!(
        normalize_cookie_line("sid\tabc\texample.com\t/p\tnever\tx\ty"),
        Some(s("example.com\tFALSE\t/p\tFALSE\t0\tsid\tabc"))
    );
    let out = normalize_cookie_lines(&vec![s(""), s("n\tv\td\t/\t1970-01-01T00:01:00+00:00\tx\ty")]);
    assert_eq!(out, vec![s("# Netscape HTTP Cookie File"), s("d\tFALSE\t/\tFALSE\t60\tn\tv")]);
}

#[test]
fn quit_words() {
    assert!(is_quit("q"));
    assert!(is_quit("  QUIT "));
    assert!(is_quit("Exit"));
    assert!(!is_quit("quit now"));
    assert!(!is_quit("qq"));
    assert!(!is_quit("https://x"));
}

#[test]
fn many_duplicates_each_url_once() {
    let urls = ["https://a", "https://a", "https://b", "https://a", "https://b", "https://c"];
    let tasks: Vec<DownloadTask> = urls.iter().map(|u| DownloadTask::new(s(u), None, None)).collect();
    let (kept, dups) = dedup_tasks(&tasks);
    let kept_urls: Vec<&str> = kept.iter().map(|t| t.url.as_str()).collect();
    assert_eq!(kept_urls, vec!["https://a", "https://b", "https://c"]);
    assert_eq!(dups, vec![s("https://a"), s("https://a"), s("https://b")]);
}

#[test]
fn download_steps_fetch() {
    let t = DownloadTask::new(s("https://x"), Some(s("5M")), None);
    let (st, a) = fetch_start(&t, false);
    assert_eq!(a, FetchAction::ProbeMetadata(metadata_args(&t, false)));
    let (st, a) = fetch_step(&t, false, st, &FetchEvent::MetadataProbed(Some(s("Clip\n"))));
    assert_eq!(a, FetchAction::CheckExists(s("/dl/Clip.mp4")));
    let (st, a) = fetch_step(&t, false, st, &FetchEvent::PathExists(false));
    assert_eq!(a, FetchAction::Fetch(fetch_args(&t, false, "/dl/Clip.mp4")));
    let (st, a) = fetch_step(&t, false, st, &FetchEvent::FetchExited(true));
    assert_eq!(a, FetchAction::Stop);
    let outcome = match st {
        FetchState::Finished { outcome } => outcome,
        other => panic!("unexpected {:?}", other),
    };
    assert_eq!(outcome, FetchOutcome::Fetched { path: s("/dl/Clip.mp4") });
    assert_eq!(reencode_request(&t, &outcome), Some((s("/dl/Clip.mp4"), s("5M"))));
}

#[test]
fn download_steps_failures() {
    let t = DownloadTask::new(s("https://x"), None, None);
    let (st, a) = fetch_step(&t, true, FetchState::AwaitMetadata, &FetchEvent::MetadataProbed(None));
    assert_eq!(st, FetchState::Finished { outcome: FetchOutcome::MetadataFailed });
    assert_eq!(a, FetchAction::Stop);
    let (st, _) = fetch_step(&t, true, FetchState::AwaitMetadata, &FetchEvent::MetadataProbed(Some(s("  \n"))));
    assert_eq!(st, FetchState::Finished { outcome: FetchOutcome::EmptyName });
    let (st, _) = fetch_step(&t, true, FetchState::AwaitExists { path: s("/dl/a.mp4") }, &FetchEvent::PathExists(true));
    assert_eq!(st, FetchState::Finished { outcome: FetchOutcome::AlreadyPresent { path: s("/dl/a.mp4") } });
    let (st, _) = fetch_step(&t, true, FetchState::AwaitFetch { path: s("/dl/a.mp4") }, &FetchEvent::FetchExited(false));
    assert_eq!(st, FetchState::Finished { outcome: FetchOutcome::FetchFailed });
    let (st, a) = fetch_step(&t, true, FetchState::AwaitMetadata, &FetchEvent::PathExists(true));
    assert_eq!(st, FetchState::AwaitMetadata);
    assert_eq!(a, FetchAction::Stop);
}

#[test]
fn reencode_needs_file_and_size() {
    let with_size = DownloadTask::new(s("https://x"), Some(s("5M")), None);
    let without = DownloadTask::new(s("https://x"), None, None);
    let present = FetchOutcome::AlreadyPresent { path: s("/dl/a.mp4") };
    assert_eq!(reencode_request(&with_size, &present), Some((s("/dl/a.mp4"), s("5M"))));
    assert_eq!(reencode_request(&without, &present), None);
    assert_eq!(reencode_request(&with_size, &FetchOutcome::FetchFailed), None);
    assert_eq!(reencode_request(&with_size, &FetchOutcome::MetadataFailed), None);
}

#[test]
fn processed_batch_name() {
    assert_eq!(processed_batch_path(1700000000), "/dl/urls_1700000000.txt");
}

#[test]
fn probe_argument_lists() {
    assert_eq!(
        duration_probe_args("/dl/a.mp4"),
        vec![s("-v"), s("error"), s("-show_entries"), s("format=duration"), s("-of"), s("default=noprint_wrappers=1:nokey=1"), s("/dl/a.mp4")]
    );
    assert_eq!(
        audio_probe_args("/dl/a.mp4"),
        vec![
            s("-v"), s("error"), s("-select_streams"), s("a:0"), s("-show_entries"), s("stream=bit_rate"), s("-of"),
            s("default=noprint_wrappers=1:nokey=1"), s("/dl/a.mp4")
        ]
    );
}
