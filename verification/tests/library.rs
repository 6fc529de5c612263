use voice::config::{
    default_inject_delay_ms, default_language, default_model, default_n_threads,
    default_silence_ms, filename_for_model, find_model, model_id_at, model_index, model_url,
    models, Config, InjectMethod, OutputMode, DEFAULT_VAD_THRESHOLD_BITS, MODEL_BASE_URL,
};
use voice::frames::{FrameSplitter, FRAME};
use voice::injector::{
    check_inject_tool, daemon_wait, inject_command, inject_tool, text_to_type,
    ydotool_socket_path, DaemonWait,
};
use voice::paths::{candidates, expand_home, join_path, path_under, strip_home_prefix};
use voice::segmenter::{
    silence_frames_needed, SpeechSegmenter, MAX_SPEECH_SAMPLES, MIN_SPEECH_SAMPLES,
};
use voice::session::{
    device_choice, device_index, device_names, device_setting, dialog_choice, download_status,
    needs_daemon, start_decision, DeviceChoice, StartDecision,
};
use voice::text::{same_text, trimmed};
use voice::transcript::{clean_text, is_hallucination, push_transcript, transcript_text};

fn s(x: &str) -> String {
    x.to_string()
}

// ---- transcript cleaning ----

#[test]
fn clean_text_trims_surrounding_space() {
    assert_eq!(clean_text("  Hello there.\n"), Some(s("Hello there.")));
}

#[test]
fn clean_text_rejects_blank() {
    assert_eq!(clean_text(""), None);
    assert_eq!(clean_text(" \t\n "), None);
}

#[test]
fn clean_text_rejects_bracketed_annotations() {
    assert_eq!(clean_text("[BLANK_AUDIO]"), None);
    assert_eq!(clean_text("  [inaudible] "), None);
    assert_eq!(clean_text("(background noise)"), None);
    assert_eq!(clean_text("(silence)"), None);
}

#[test]
fn clean_text_keeps_half_bracketed_text() {
    assert_eq!(clean_text("[note] and more"), Some(s("[note] and more")));
    assert_eq!(clean_text("(aside) text"), Some(s("(aside) text")));
    assert_eq!(clean_text("["), Some(s("[")));
}

#[test]
fn clean_text_rejects_hallucinations_in_any_case() {
    assert_eq!(clean_text("Thank you."), None);
    assert_eq!(clean_text("THANKS FOR WATCHING"), None);
    assert_eq!(clean_text(" thank you for watching "), None);
    assert_eq!(clean_text("Thanks."), None);
}

#[test]
fn clean_text_keeps_longer_sentences_with_phrases() {
    assert_eq!(clean_text("Thank you. See you"), Some(s("Thank you. See you")));
    assert_eq!(clean_text("thank you"), Some(s("thank you")));
}

#[test]
fn clean_text_trims_unicode_white_space() {
    assert_eq!(clean_text("\u{3000}Bonjour\u{00A0}"), Some(s("Bonjour")));
}

#[test]
fn clean_text_is_idempotent_on_example() {
    let once = clean_text("  Hello world  ").unwrap();
    assert_eq!(clean_text(&once), Some(once.clone()));
}

#[test]
fn is_hallucination_matches_exact_lowercase_phrases() {
    assert!(is_hallucination("thanks."));
    assert!(is_hallucination("thank you for watching"));
    assert!(!is_hallucination("Thanks."));
    assert!(!is_hallucination("thanks"));
}

#[test]
fn transcript_text_joins_readable_segments() {
    let parts = vec![Some(s(" Hello")), None, Some(s(" world. "))];
    assert_eq!(transcript_text(&parts), Some(s("Hello world.")));
    let silent = vec![Some(s(" [BLANK_AUDIO]"))];
    assert_eq!(transcript_text(&silent), None);
    assert_eq!(transcript_text(&vec![]), None);
}

#[test]
fn push_transcript_separates_with_space() {
    let mut t = String::new();
    push_transcript(&mut t, "Hello");
    assert_eq!(t, "Hello");
    push_transcript(&mut t, "world");
    assert_eq!(t, "Hello world");
}

#[test]
fn push_transcript_keeps_last_200_bytes() {
    let mut t = "a".repeat(240);
    push_transcript(&mut t, "bcdefghijk");
    // 240 + 1 + 10 = 251 bytes > 250: the last 200 are kept
    assert_eq!(t.len(), 200);
    assert!(t.ends_with(" bcdefghijk"));
    let mut u = "a".repeat(239);
    push_transcript(&mut u, "bcdefghijk");
    assert_eq!(u.len(), 250);
}

// ---- segmentation ----

#[test]
fn silence_frames_needed_follows_duration() {
    assert_eq!(silence_frames_needed(600), 18);
    assert_eq!(silence_frames_needed(0), 5);
    assert_eq!(silence_frames_needed(100), 5);
    assert_eq!(silence_frames_needed(320), 10);
}

#[test]
fn silence_alone_never_produces_a_segment() {
    let mut seg: SpeechSegmenter<u32> = SpeechSegmenter::new(600);
    for i in 0..100 {
        assert_eq!(seg.push_frame(false, i, 512), None);
    }
    assert_eq!(seg.buffered(), 0);
    assert_eq!(seg.finish(), None);
}

#[test]
fn speech_followed_by_silence_is_flushed_in_order() {
    let mut seg: SpeechSegmenter<u32> = SpeechSegmenter::new(160); // 5 frames
    for i in 0..20u32 {
        assert_eq!(seg.push_frame(true, i, 512), None);
    }
    for i in 20..24u32 {
        assert_eq!(seg.push_frame(false, i, 512), None);
    }
    let out = seg.push_frame(false, 24, 512);
    assert_eq!(out, Some((0..25u32).collect::<Vec<u32>>()));
    assert_eq!(seg.buffered(), 0);
}

#[test]
fn short_speech_is_dropped() {
    let mut seg: SpeechSegmenter<u32> = SpeechSegmenter::new(160);
    for i in 0..5u32 {
        seg.push_frame(true, i, 512);
    }
    for i in 5..10u32 {
        assert_eq!(seg.push_frame(false, i, 512), None);
    }
    assert_eq!(seg.buffered(), 0);
}

#[test]
fn speech_resets_the_silence_count() {
    let mut seg: SpeechSegmenter<u32> = SpeechSegmenter::new(160);
    for i in 0..20u32 {
        seg.push_frame(true, i, 512);
    }
    for i in 20..24u32 {
        assert_eq!(seg.push_frame(false, i, 512), None);
    }
    assert_eq!(seg.push_frame(true, 24, 512), None);
    for i in 25..29u32 {
        assert_eq!(seg.push_frame(false, i, 512), None);
    }
    assert_eq!(seg.push_frame(false, 29, 512).map(|v| v.len()), Some(30));
}

#[test]
fn long_speech_is_cut_at_the_maximum() {
    let mut seg: SpeechSegmenter<u32> = SpeechSegmenter::new(600);
    let frames = (MAX_SPEECH_SAMPLES + 511) / 512;
    let mut flushed = None;
    for i in 0..frames as u32 {
        let out = seg.push_frame(true, i, 512);
        if out.is_some() {
            assert_eq!(i as usize, frames - 1);
            flushed = out;
        }
    }
    assert_eq!(flushed.map(|v| v.len()), Some(frames));
    assert_eq!(seg.buffered(), 0);
}

#[test]
fn finish_keeps_long_enough_remainder() {
    let mut seg: SpeechSegmenter<u32> = SpeechSegmenter::new(600);
    for i in 0..16u32 {
        seg.push_frame(true, i, 500);
    }
    assert_eq!(seg.buffered(), MIN_SPEECH_SAMPLES);
    assert_eq!(seg.finish(), Some((0..16u32).collect::<Vec<u32>>()));
    let mut short: SpeechSegmenter<u32> = SpeechSegmenter::new(600);
    short.push_frame(true, 0, 7_999);
    assert_eq!(short.finish(), None);
}

// ---- configuration ----

#[test]
fn model_url_appends_file_name() {
    assert_eq!(
        model_url("ggml-base.en.bin"),
        "https://huggingface.co/ggerganov/whisper.cpp/resolve/main/ggml-base.en.bin"
    );
    assert!(MODEL_BASE_URL.ends_with('/'));
}

#[test]
fn model_catalogue_has_nine_entries() {
    let m = models();
    assert_eq!(m.len(), 9);
    assert_eq!(m[0].0, "tiny.en");
    assert_eq!(m[2], ("base.en", "ggml-base.en.bin", 148, "Base (EN only) — recommended, ~148 MB"));
    assert_eq!(m[8].1, "ggml-large-v3-turbo.bin");
    assert_eq!(m[6].2, 1533);
}

#[test]
fn model_lookup() {
    assert_eq!(find_model("small"), Some(5));
    assert_eq!(find_model("huge"), None);
    assert_eq!(filename_for_model("medium.en"), "ggml-medium.en.bin");
    assert_eq!(filename_for_model("nonsense"), "ggml-base.en.bin");
    assert_eq!(model_index("large-v3-turbo"), 8);
    assert_eq!(model_index("nonsense"), 0);
}

#[test]
fn model_ids_by_index() {
    assert_eq!(model_id_at(0), Some("tiny.en"));
    assert_eq!(model_id_at(8), Some("large-v3-turbo"));
    assert_eq!(model_id_at(9), None);
    assert_eq!(model_id_at(-1), None);
    for i in 0..9 {
        assert_eq!(model_index(model_id_at(i).unwrap()), i as usize);
    }
}

#[test]
fn defaults_match_readme() {
    assert_eq!(default_model(), "base.en");
    assert_eq!(default_language(), "en");
    assert_eq!(default_n_threads(), 4);
    assert_eq!(default_silence_ms(), 600);
    assert_eq!(default_inject_delay_ms(), 0);
    assert_eq!(InjectMethod::default(), InjectMethod::Wtype);
    assert_eq!(OutputMode::default(), OutputMode::Inject);
    assert_eq!(f32::from_bits(DEFAULT_VAD_THRESHOLD_BITS), 0.5f32);
}

#[test]
fn config_default_fields() {
    let c = Config::default();
    assert_eq!(c.model, "base.en");
    assert_eq!(c.input_device, "");
    assert_eq!(c.inject_method, InjectMethod::Wtype);
    assert_eq!(c.language, "en");
    assert_eq!(c.n_threads, 4);
    assert_eq!(c.silence_duration_ms, 600);
    assert_eq!(c.inject_delay_ms, 0);
    assert_eq!(c.output_mode, OutputMode::Inject);
    assert!(c.models_dir.ends_with("voice/models"));
}

fn config_with_dir(dir: &str, model: &str) -> Config {
    let mut c = Config::default();
    c.models_dir = s(dir);
    c.model = s(model);
    c
}

#[test]
fn model_path_joins_directory_and_file() {
    let c = config_with_dir("/data/models", "tiny");
    assert_eq!(c.model_filename(), "ggml-tiny.bin");
    assert_eq!(c.models_dir_path(), b"/data/models".to_vec());
    assert_eq!(c.model_path(), b"/data/models/ggml-tiny.bin".to_vec());
    let d = config_with_dir("/data/models/", "unknown");
    assert_eq!(d.model_path(), b"/data/models/ggml-base.en.bin".to_vec());
}

#[test]
fn method_and_mode_indices() {
    assert_eq!(InjectMethod::Wtype.index(), 0);
    assert_eq!(InjectMethod::Ydotool.index(), 1);
    assert_eq!(InjectMethod::from_index(1), InjectMethod::Ydotool);
    assert_eq!(InjectMethod::from_index(0), InjectMethod::Wtype);
    assert_eq!(InjectMethod::from_index(7), InjectMethod::Wtype);
    assert_eq!(OutputMode::from_index(1), OutputMode::File);
    assert_eq!(OutputMode::from_index(-3), OutputMode::Inject);
    for m in [InjectMethod::Wtype, InjectMethod::Ydotool] {
        assert_eq!(InjectMethod::from_index(m.index()), m);
    }
    for m in [OutputMode::Inject, OutputMode::File] {
        assert_eq!(OutputMode::from_index(m.index()), m);
    }
}

// ---- paths ----

fn b(x: &str) -> Vec<u8> {
    x.as_bytes().to_vec()
}

#[test]
fn join_path_like_pathbuf() {
    assert_eq!(join_path(b"/a/b", b"c"), b("/a/b/c"));
    assert_eq!(join_path(b"/a/b/", b"c"), b("/a/b/c"));
    assert_eq!(join_path(b"", b"c"), b("c"));
    assert_eq!(join_path(b"/a", b"/etc"), b("/etc"));
    assert_eq!(join_path(b"/a", b""), b("/a/"));
}

#[test]
fn tilde_prefix_is_recognised_by_component() {
    assert_eq!(strip_home_prefix(b"~"), Some(b("")));
    assert_eq!(strip_home_prefix(b"~/models"), Some(b("models")));
    assert_eq!(strip_home_prefix(b"~//./models/"), Some(b("models")));
    assert_eq!(strip_home_prefix(b"~/a/./b/."), Some(b("a/./b")));
    assert_eq!(strip_home_prefix(b"~user/models"), None);
    assert_eq!(strip_home_prefix(b"/tmp/~"), None);
}

#[test]
fn expand_home_replaces_tilde() {
    assert_eq!(expand_home(b"~/voice", Some(b("/home/alice"))), b("/home/alice/voice"));
    assert_eq!(expand_home(b"~", Some(b("/home/alice"))), b("/home/alice/"));
    assert_eq!(expand_home(b"~/voice", None), b("~/voice"));
    assert_eq!(expand_home(b"/opt/m", Some(b("/home/alice"))), b("/opt/m"));
}

#[test]
fn expand_home_keeps_bytes_that_are_not_utf8() {
    let home = vec![0x2F, 0xFF, 0x68];
    assert_eq!(expand_home(b"~/m", Some(home)), vec![0x2F, 0xFF, 0x68, 0x2F, 0x6D]);
}

#[test]
fn path_under_uses_dot_without_base() {
    assert_eq!(path_under(None, b"voice", b"models"), b("./voice/models"));
    assert_eq!(path_under(Some(b("/home/a/.local/share")), b"voice", b"models"), b("/home/a/.local/share/voice/models"));
}

#[test]
fn search_path_candidates() {
    assert_eq!(candidates(b"/usr/bin:/bin", b"wtype"), vec![b("/usr/bin/wtype"), b("/bin/wtype")]);
    assert_eq!(candidates(b"", b"wtype"), vec![b("wtype")]);
    assert_eq!(candidates(b"/a::/b/", b"x"), vec![b("/a/x"), b("x"), b("/b/x")]);
}

// ---- injection ----

#[test]
fn tools_and_commands() {
    assert_eq!(inject_tool(&InjectMethod::Wtype), "wtype");
    assert_eq!(inject_tool(&InjectMethod::Ydotool), "ydotool");
    assert_eq!(text_to_type("hi"), "hi ");
    assert_eq!(inject_command(&InjectMethod::Wtype, "hi"), vec![s("wtype"), s("hi ")]);
    assert_eq!(
        inject_command(&InjectMethod::Ydotool, "hi"),
        vec![s("ydotool"), s("type"), s("--key-delay"), s("0"), s("--"), s("hi ")]
    );
}

#[test]
fn check_inject_tool_searches_path() {
    let present = |p: Vec<u8>| p == b"/usr/local/bin/ydotool".to_vec();
    let path: &[u8] = b"/usr/bin:/usr/local/bin";
    assert!(check_inject_tool(&InjectMethod::Ydotool, Some(path), present));
    assert!(!check_inject_tool(&InjectMethod::Wtype, Some(path), present));
    assert!(!check_inject_tool(&InjectMethod::Ydotool, None, present));
}

#[test]
fn socket_path_and_daemon_wait() {
    assert_eq!(ydotool_socket_path(None), b"/tmp/.ydotool_socket".to_vec());
    assert_eq!(ydotool_socket_path(Some(b"/run/y.sock".to_vec())), b"/run/y.sock".to_vec());
    assert_eq!(daemon_wait(1, true), DaemonWait::Ready);
    assert_eq!(daemon_wait(3, false), DaemonWait::WaitAgain);
    assert_eq!(daemon_wait(10, false), DaemonWait::GiveUp);
}

// ---- session ----

#[test]
fn device_list_and_choice() {
    let found = vec![s("USB Mic"), s("Webcam")];
    let names = device_names(found.clone());
    assert_eq!(names, vec![s("Default"), s("USB Mic"), s("Webcam")]);
    assert_eq!(device_choice("", &found), DeviceChoice::SystemDefault);
    assert_eq!(device_choice("Default", &found), DeviceChoice::SystemDefault);
    assert_eq!(device_choice("Webcam", &found), DeviceChoice::Listed(1));
    assert_eq!(device_choice("Other", &found), DeviceChoice::Missing);
    assert_eq!(device_index("Webcam", &names), 2);
    assert_eq!(device_index("", &names), 0);
    assert_eq!(device_index("Gone", &names), 0);
    assert_eq!(device_setting("Default"), "");
    assert_eq!(device_setting("USB Mic"), "USB Mic");
    for i in 0..names.len() {
        assert_eq!(device_index(&device_setting(&names[i]), &names), i);
    }
}

#[test]
fn start_decisions() {
    let mut c = Config::default();
    assert_eq!(start_decision(false, &c, true), StartDecision::ModelMissing);
    assert_eq!(start_decision(true, &c, true), StartDecision::Start);
    assert_eq!(start_decision(true, &c, false), StartDecision::ToolMissing(InjectMethod::Wtype));
    c.inject_method = InjectMethod::Ydotool;
    assert!(needs_daemon(true, &c));
    assert!(!needs_daemon(false, &c));
    c.output_mode = OutputMode::File;
    assert!(!needs_daemon(true, &c));
    assert_eq!(start_decision(true, &c, false), StartDecision::NoOutputFile);
    c.output_file = s("/tmp/out.txt");
    assert_eq!(start_decision(true, &c, false), StartDecision::Start);
}

#[test]
fn download_progress_lines() {
    assert_eq!(download_status(0, None), "0 MB");
    assert_eq!(download_status(5 * 1_048_576 + 7, Some(148 * 1_048_576)), "5/148 MB");
    assert_eq!(download_status(1_048_575, Some(10)), "0/0 MB");
    assert_eq!(download_status(u64::MAX, None), "17592186044415 MB");
}

#[test]
fn file_picker_answers() {
    assert_eq!(dialog_choice(true, "/home/a/notes.md\n"), Some(s("/home/a/notes.md")));
    assert_eq!(dialog_choice(true, "  \n"), None);
    assert_eq!(dialog_choice(false, "/home/a/notes.md"), None);
}

#[test]
fn text_helpers() {
    assert!(same_text("abc", "abc"));
    assert!(!same_text("abc", "abd"));
    assert!(!same_text("ab", "abc"));
    assert_eq!(trimmed("\t x y \n"), "x y");
}

// ---- frames ----

#[test]
fn frame_splitter_cuts_whole_frames_and_keeps_the_rest() {
    let mut sp: FrameSplitter<u32> = FrameSplitter::new();
    let first: Vec<u32> = (0..700).collect();
    let out = sp.feed(&first);
    assert_eq!(out.len(), 1);
    assert_eq!(out[0], (0..512).collect::<Vec<u32>>());
    let second: Vec<u32> = (700..1100).collect();
    let out = sp.feed(&second);
    assert_eq!(out.len(), 1);
    assert_eq!(out[0], (512..1024).collect::<Vec<u32>>());
    assert!(sp.feed(&[]).is_empty());
    let out = sp.feed(&(1100..2048).collect::<Vec<u32>>());
    assert_eq!(out.len(), 2);
    assert_eq!(out[1][FRAME - 1], 2047);
}

#[test]
fn frame_splitter_floats() {
    let mut sp: FrameSplitter<f32> = FrameSplitter::new();
    assert!(sp.feed(&[0.5f32; 511]).is_empty());
    let out = sp.feed(&[0.25f32; 3]);
    assert_eq!(out.len(), 1);
    assert_eq!(out[0][510], 0.5);
    assert_eq!(out[0][511], 0.25);
}

#[test]
fn push_transcript_cuts_at_next_char_boundary() {
    let mut t = "é".repeat(130);
    push_transcript(&mut t, "xy");
    // 263 bytes; the cut at byte 63 falls inside "é", so it moves to byte 64
    assert_eq!(t, format!("{} xy", "é".repeat(98)));
    assert_eq!(t.len(), 199);
    let mut u = "€".repeat(90);
    push_transcript(&mut u, "ab");
    assert!(u.len() <= 200);
    assert!(u.ends_with(" ab"));
    assert!(format!("{} ab", "€".repeat(90)).ends_with(&u));
}

#[test]
fn the_maximum_is_checked_on_speech_frames() {
    let mut seg: SpeechSegmenter<u32> = SpeechSegmenter::new(600);
    for i in 0..781u32 {
        assert_eq!(seg.push_frame(true, i, 512), None);
    }
    // a silent frame takes the segment to 400,384 samples without closing it
    assert_eq!(seg.push_frame(false, 781, 512), None);
    assert_eq!(seg.buffered(), 782 * 512);
    // the next speech frame closes it
    let out = seg.push_frame(true, 782, 512);
    assert_eq!(out.map(|v| v.len()), Some(783));
    assert_eq!(seg.buffered(), 0);
}

#[test]
fn model_path_for_a_given_home() {
    let c = config_with_dir("~/models", "small.en");
    assert_eq!(c.models_dir_path_in(Some(b"/home/bo".to_vec())), b"/home/bo/models".to_vec());
    assert_eq!(c.model_path_in(Some(b"/home/bo".to_vec())), b"/home/bo/models/ggml-small.en.bin".to_vec());
    assert_eq!(c.model_path_in(None), b"~/models/ggml-small.en.bin".to_vec());
    let d = config_with_dir("/srv/m", "tiny");
    let mut joined = d.models_dir_path();
    joined.push(b'/');
    joined.extend_from_slice(d.model_filename().as_bytes());
    assert_eq!(d.model_path(), joined);
}

#[test]
fn frame_splitter_over_many_calls_keeps_every_sample() {
    let mut sp: FrameSplitter<u32> = FrameSplitter::new();
    let mut out: Vec<u32> = Vec::new();
    let mut fed: u32 = 0;
    for size in [3usize, 700, 0, 511, 1, 1500, 37] {
        let chunk: Vec<u32> = (fed..fed + size as u32).collect();
        fed += size as u32;
        for f in sp.feed(&chunk) {
            assert_eq!(f.len(), FRAME);
            out.extend(f);
        }
    }
    let whole = (fed as usize / FRAME) * FRAME;
    assert_eq!(out, (0..whole as u32).collect::<Vec<u32>>());
}

#[test]
fn config_file_location() {
    let p = voice::config::config_path();
    assert!(p.ends_with(b"/voice/config.toml"));
}
