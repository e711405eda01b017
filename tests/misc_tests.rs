use ascii_rs::color::rgb_to_ansi256;
use ascii_rs::pipeline::{cache_file_name, cache_hit, cache_plan, collect_in_order, CachePlan};
use ascii_rs::render::{center_status, compose_screen, status_line};
use ascii_rs::rle::{RleFrame, RleRun};
use ascii_rs::terminal::{is_exit_key, split_lines, KeyPress, TerminalManager};
use ascii_rs::text::format_duration;
use ascii_rs::utils::{
    audio_failure_is_fatal, contains_chars, get_file_stem, parse_fps, parse_u32, parse_u64,
    parse_video_probe, trim_text, ProbeError,
    VideoProbe,
};
use ascii_rs::schedule::FrameRate;

#[test]
fn ansi256_palette() {
    assert_eq!(rgb_to_ansi256(0, 0, 0), 16);
    assert_eq!(rgb_to_ansi256(255, 255, 255), 231);
    assert_eq!(rgb_to_ansi256(128, 128, 128), 244);
    assert_eq!(rgb_to_ansi256(13, 13, 13), 233);
    assert_eq!(rgb_to_ansi256(248, 248, 248), 255);
    assert_eq!(rgb_to_ansi256(255, 0, 0), 196);
    assert_eq!(rgb_to_ansi256(0, 128, 255), 16 + 6 * 3 + 5);
}

#[test]
fn durations() {
    assert_eq!(format_duration(0), "00:00");
    assert_eq!(format_duration(59), "00:59");
    assert_eq!(format_duration(61), "01:01");
    assert_eq!(format_duration(3661), "01:01:01");
    assert_eq!(format_duration(360_000), "100:00:00");
}

#[test]
fn centred_status() {
    assert_eq!(center_status("abc", 9), "===abc===");
    assert_eq!(center_status("abc", 8), "==abc===");
    assert_eq!(center_status("abc", 2), "ab");
    assert_eq!(center_status("abc", 3), "abc");
    assert_eq!(center_status("abc", 0), "");
}

#[test]
fn status_text() {
    assert_eq!(
        status_line(75, 3700, 12, 300, 24, "Memory: 1 MB"),
        "[Time: 01:15 / 01:01:40 | Frame: 12 / 300 | FPS: 24.0 | Memory: 1 MB]"
    );
}

#[test]
fn screen_is_frame_then_status() {
    let frame = RleFrame { width: 1, runs: vec![RleRun { ascii_idx: 1, color: [0, 0, 0], count: 1 }] };
    assert_eq!(compose_screen(&frame, "s", 3), "\x1b[38;2;0;0;0m.\n\x1b[0m=s=");
}

#[test]
fn redraw_writes_only_changed_lines() {
    let mut t = TerminalManager::new();
    let p = t.draw("a\nb");
    assert_eq!(p.writes, vec![(0, "a".to_string()), (1, "b".to_string())]);
    assert_eq!((p.clear_from, p.clear_to), (2, 2));
    let p = t.draw("a\nc");
    assert_eq!(p.writes, vec![(1, "c".to_string())]);
    let p = t.draw("x");
    assert_eq!(p.writes, vec![(0, "x".to_string())]);
    assert_eq!((p.clear_from, p.clear_to), (1, 2));
    t.reset();
    let p = t.draw("x");
    assert_eq!(p.writes, vec![(0, "x".to_string())]);
}

#[test]
fn exit_keys() {
    assert!(is_exit_key(KeyPress::Escape));
    assert!(is_exit_key(KeyPress::Char('c', true)));
    assert!(!is_exit_key(KeyPress::Char('c', false)));
    assert!(!is_exit_key(KeyPress::Char('x', true)));
    assert!(!is_exit_key(KeyPress::Other));
}

#[test]
fn batch_keeps_order_and_first_error() {
    let all: Vec<Result<u32, &str>> = vec![Ok(1), Ok(2), Ok(3)];
    assert_eq!(collect_in_order(all), Ok(vec![1, 2, 3]));
    let mixed: Vec<Result<u32, &str>> = vec![Ok(1), Err("a"), Ok(2), Err("b")];
    assert_eq!(collect_in_order(mixed), Err("a"));
    let none: Vec<Result<u32, &str>> = vec![];
    assert_eq!(collect_in_order(none), Ok(vec![]));
}

#[test]
fn cache_decisions() {
    assert_eq!(cache_plan(true, false), CachePlan::Load);
    assert_eq!(cache_plan(true, true), CachePlan::Regenerate);
    assert_eq!(cache_plan(false, false), CachePlan::Regenerate);
    let frames = vec![RleFrame { width: 1, runs: vec![] }];
    assert_eq!(cache_hit::<u8>(Ok(frames)).map(|v| v.len()), Some(1));
    assert!(cache_hit::<u8>(Err(3)).is_none());
    assert_eq!(cache_file_name(80, 24), "frames_80-24.acsv");
}

#[test]
fn file_stems() {
    assert_eq!(get_file_stem("videos/clip.mp4"), "clip");
    assert_eq!(get_file_stem("archive.tar.gz"), "archive.tar");
    assert_eq!(get_file_stem(""), "test");
}

#[test]
fn frame_rates() {
    assert_eq!(parse_fps("30000/1001"), FrameRate { num: 30000, den: 1001 });
    assert_eq!(parse_fps("25"), FrameRate { num: 25, den: 1 });
    assert_eq!(parse_fps("x/y"), FrameRate { num: 30, den: 1 });
    assert_eq!(parse_fps("29.97"), FrameRate { num: 30, den: 1 });
}

#[test]
fn prober_report() {
    assert_eq!(
        parse_video_probe(" 1920,1080,30000/1001,4500\n"),
        Ok(VideoProbe {
            width: 1920,
            height: 1080,
            frame_rate: FrameRate { num: 30000, den: 1001 },
            total_frames: 4500
        })
    );
    assert_eq!(parse_video_probe("1920,1080,25/1"), Err(ProbeError::FieldCount));
    assert_eq!(parse_video_probe("1920,1080,25/1,4,5"), Err(ProbeError::FieldCount));
    assert_eq!(parse_video_probe("wide,1080,25/1,10"), Err(ProbeError::BadNumber));
    assert_eq!(parse_video_probe("640,480,25/1,N/A"), Err(ProbeError::BadNumber));
}

#[test]
fn audio_extraction_failures() {
    assert!(!audio_failure_is_fatal(Some(-22), "anything"));
    assert!(!audio_failure_is_fatal(Some(1), "x: Output file does not contain any stream\n"));
    assert!(audio_failure_is_fatal(Some(1), "Invalid data found"));
    assert!(audio_failure_is_fatal(None, ""));
}

#[test]
fn substring_search() {
    let s: Vec<char> = "hello world".chars().collect();
    let yes: Vec<char> = "o w".chars().collect();
    let no: Vec<char> = "ow".chars().collect();
    let empty: Vec<char> = Vec::new();
    assert!(contains_chars(&s, &yes));
    assert!(!contains_chars(&s, &no));
    assert!(contains_chars(&s, &empty));
    assert!(!contains_chars(&empty, &yes));
}

#[test]
fn unsigned_numerals() {
    assert_eq!(parse_u32("0"), Some(0));
    assert_eq!(parse_u32("007"), Some(7));
    assert_eq!(parse_u32("+42"), Some(42));
    assert_eq!(parse_u32("4294967295"), Some(u32::MAX));
    assert_eq!(parse_u32("4294967296"), None);
    assert_eq!(parse_u32(""), None);
    assert_eq!(parse_u32("+"), None);
    assert_eq!(parse_u32("-1"), None);
    assert_eq!(parse_u32("12a"), None);
    assert_eq!(parse_u32(" 1"), None);
    assert_eq!(parse_u64("18446744073709551615"), Some(u64::MAX));
    assert_eq!(parse_u64("18446744073709551616"), None);
    for text in ["1", "65536", "99999999999", "+0", "x"] {
        assert_eq!(parse_u32(text), text.parse::<u32>().ok());
        assert_eq!(parse_u64(text), text.parse::<u64>().ok());
    }
}

#[test]
fn lines_as_str_lines_gives_them() {
    for text in ["", "\n", "a", "a\n", "a\n\n", "a\r\nb\n", "a\r", "\r\n\r\n", "x\ny\rz\n w"] {
        let expected: Vec<String> = text.lines().map(|l| l.to_string()).collect();
        assert_eq!(split_lines(text), expected, "text {:?}", text);
    }
}

#[test]
fn trimming_as_str_trim() {
    for text in ["", "   ", " a ", "\t\n x y \r\n", "\u{a0}z\u{3000}", "\u{2009}q\u{200b}", "plain"] {
        assert_eq!(trim_text(text), text.trim(), "text {:?}", text);
    }
}
