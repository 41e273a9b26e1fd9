use rsbpm::config::{default_bind, default_cq, default_true, default_uploads_dir, Config, RenderConfig, ServerConfig};
use rsbpm::project::{tempo_map, tempo_segment, BeatChange, BeatChangeType, Color, Direction};
use rsbpm::renderer::{
    ffmpeg_alpha_args, ffmpeg_args, ffmpeg_overlay_args, ffprobe_args, probe_output, select_video_stream, ProbeError,
    RenderConfig as JobConfig, StreamFields, OUTPUT_FPS,
};
use rsbpm::server::{identify_ffmpeg_args, sanitize_filename, upload_destination};
use rsbpm::text::{decimal_string, parse_u64, str_equal};

fn strs(v: &[&str]) -> Vec<String> {
    v.iter().map(|s| s.to_string()).collect()
}

fn change(beat: u32, kind: BeatChangeType, bpm: Option<f64>) -> BeatChange<f64> {
    BeatChange { beat_32: beat, change_type: kind, bpm }
}

#[test]
fn config_defaults() {
    assert_eq!(default_bind(), "127.0.0.1:7979");
    assert_eq!(default_uploads_dir(), "uploads");
    assert!(default_true());
    assert!(rsbpm::project::default_true());
    assert_eq!(default_cq(), 18);
    let s = ServerConfig::default();
    assert_eq!(s.bind, "127.0.0.1:7979");
    assert_eq!(s.uploads_dir, "uploads");
    assert_eq!(s.audd_token, "");
    let r = RenderConfig::default();
    assert!(r.nvidia);
    assert_eq!(r.cq, 18);
    let c = Config::default();
    assert_eq!(c.server.bind, "127.0.0.1:7979");
    assert_eq!(c.render.cq, 18);
}

#[test]
fn audd_token_required() {
    let mut s = ServerConfig::default();
    let err = s.require_audd_token().unwrap_err();
    assert_eq!(
        err,
        "No audd_token set in config.toml \u{2014} add audd_token = \"your-token\" under [server]"
    );
    s.audd_token = "abc".to_string();
    assert_eq!(s.require_audd_token().unwrap(), "abc");
}

#[test]
fn decimal_numerals() {
    assert_eq!(decimal_string(0), "0");
    assert_eq!(decimal_string(7), "7");
    assert_eq!(decimal_string(1920), "1920");
    assert_eq!(decimal_string(u64::MAX), "18446744073709551615");
    for n in [0u64, 1, 9, 10, 99, 100, 12345, 4294967295, u64::MAX] {
        assert_eq!(decimal_string(n), n.to_string());
        assert_eq!(parse_u64(&decimal_string(n)), Some(n));
    }
}

#[test]
fn parse_u64_follows_std() {
    let cases = [
        "", "+", "-", "0", "+0", "-0", "42", "+42", "-42", " 42", "42 ", "4a", "007",
        "18446744073709551615", "18446744073709551616", "99999999999999999999999", "\u{0663}",
        "1_000",
    ];
    for c in cases {
        assert_eq!(parse_u64(c), c.parse::<u64>().ok(), "input {:?}", c);
    }
    assert_eq!(parse_u64("+42"), Some(42));
    assert_eq!(parse_u64("-0"), None);
    assert_eq!(parse_u64("18446744073709551616"), None);
}

#[test]
fn string_equality() {
    assert!(str_equal("file", "file"));
    assert!(!str_equal("file", "files"));
    assert!(!str_equal("file", "fild"));
    assert!(str_equal("", ""));
}

#[test]
fn direction_lanes() {
    assert_eq!(Direction::LeftToRight.lane_count(), 1);
    assert_eq!(Direction::RightToLeft.lane_count(), 1);
    assert_eq!(Direction::BothDirections.lane_count(), 2);
    let c = Color { r: 255, g: 182, b: 193, a: 255 };
    assert_eq!(c.clone(), c);
}

#[test]
fn tempo_map_without_changes() {
    let map = tempo_map(120.0, &Vec::new());
    assert_eq!(map, vec![(0, 120.0)]);
}

#[test]
fn tempo_map_sorts_and_filters() {
    let changes = vec![
        change(64, BeatChangeType::Normal, Some(140.0)),
        change(32, BeatChangeType::Double, Some(999.0)),
        change(16, BeatChangeType::Normal, Some(100.0)),
        change(48, BeatChangeType::Normal, None),
        change(64, BeatChangeType::Normal, Some(150.0)),
        change(8, BeatChangeType::Triplet, None),
        change(16, BeatChangeType::NoChange, Some(1.0)),
        change(32, BeatChangeType::Half, None),
    ];
    let map = tempo_map(120.0, &changes);
    assert_eq!(map, vec![(0, 120.0), (16, 100.0), (64, 140.0), (64, 150.0)]);
}

#[test]
fn tempo_map_change_at_zero_sets_start() {
    let changes = vec![
        change(0, BeatChangeType::Normal, Some(90.0)),
        change(32, BeatChangeType::Normal, Some(180.0)),
        change(0, BeatChangeType::Normal, Some(95.0)),
    ];
    let map = tempo_map(120.0, &changes);
    assert_eq!(map, vec![(0, 95.0), (32, 180.0)]);
}

#[test]
fn tempo_segments() {
    let map = vec![(0u32, 120.0), (16, 100.0), (64, 140.0), (64, 150.0)];
    assert_eq!(tempo_segment(&map, 0), 0);
    assert_eq!(tempo_segment(&map, 16), 0);
    assert_eq!(tempo_segment(&map, 17), 1);
    assert_eq!(tempo_segment(&map, 64), 1);
    assert_eq!(tempo_segment(&map, 65), 3);
    assert_eq!(tempo_segment(&map, u64::MAX), 3);
    assert_eq!(tempo_segment(&vec![(0u32, 1.0)], 1000), 0);
}

#[test]
fn alpha_encoder_args() {
    let args = ffmpeg_alpha_args("out.mov", 1920, 1080);
    assert_eq!(
        args,
        strs(&[
            "-y", "-f", "rawvideo", "-pix_fmt", "rgba", "-s", "1920x1080", "-r", "60", "-i", "pipe:0", "-c:v",
            "prores_ks", "-profile:v", "4444", "-pix_fmt", "yuva444p10le", "out.mov",
        ])
    );
}

#[test]
fn overlay_encoder_args() {
    let nv = JobConfig { nvidia: true, cq: 18, overlay_only: false };
    assert_eq!(
        ffmpeg_overlay_args("in.mp4", "out.mp4", 1280, 720, &nv),
        strs(&[
            "-y", "-i", "in.mp4", "-f", "rawvideo", "-pix_fmt", "rgba", "-s", "1280x720", "-r", "60", "-i",
            "pipe:0", "-filter_complex", "[0:v]fps=60[src];[src][1:v]overlay=0:0:format=rgb[out]", "-map", "[out]",
            "-map", "0:a?", "-c:v", "h264_nvenc", "-preset", "p4", "-cq", "18", "-c:a", "copy", "out.mp4",
        ])
    );
    let cpu = JobConfig { nvidia: false, cq: 23, overlay_only: false };
    assert_eq!(
        ffmpeg_overlay_args("a", "b", 640, 480, &cpu),
        strs(&[
            "-y", "-i", "a", "-f", "rawvideo", "-pix_fmt", "rgba", "-s", "640x480", "-r", "60", "-i", "pipe:0",
            "-filter_complex", "[0:v]fps=60[src];[src][1:v]overlay=0:0:format=rgb[out]", "-map", "[out]", "-map",
            "0:a?", "-c:v", "libx264", "-preset", "medium", "-crf", "23", "-c:a", "copy", "b",
        ])
    );
    assert_eq!(OUTPUT_FPS, 60);
}

#[test]
fn encoder_choice_follows_overlay_only() {
    let only = JobConfig { nvidia: true, cq: 18, overlay_only: true };
    assert_eq!(ffmpeg_args("in", "out", 10, 20, &only), ffmpeg_alpha_args("out", 10, 20));
    let both = JobConfig { nvidia: true, cq: 18, overlay_only: false };
    assert_eq!(ffmpeg_args("in", "out", 10, 20, &both), ffmpeg_overlay_args("in", "out", 10, 20, &both));
}

#[test]
fn render_settings_for_request() {
    let cfg = RenderConfig { nvidia: false, cq: 30 };
    let r = JobConfig::for_request(&cfg, None);
    assert!(!r.nvidia && r.cq == 30 && !r.overlay_only);
    assert!(JobConfig::for_request(&cfg, Some(true)).overlay_only);
    assert!(!JobConfig::for_request(&cfg, Some(false)).overlay_only);
}

#[test]
fn probe_arguments() {
    assert_eq!(
        ffprobe_args("v.mp4"),
        strs(&["-v", "quiet", "-print_format", "json", "-show_streams", "v.mp4"])
    );
}

#[test]
fn probe_reads_first_video_stream() {
    let json = br#"{"streams":[
        {"codec_type":"audio","sample_rate":"48000"},
        {"codec_type":"video","width":1920,"height":1080,"r_frame_rate":"30000/1001","nb_frames":"1234","duration":"41.2"},
        {"codec_type":"video","width":640,"height":480}
    ]}"#;
    let p = probe_output(json).ok().unwrap();
    assert_eq!(p.width, 1920);
    assert_eq!(p.height, 1080);
    assert_eq!(p.frame_rate, "30000/1001");
    assert_eq!(p.frame_count, Some(1234));
    assert_eq!(p.duration.as_deref(), Some("41.2"));
}

#[test]
fn probe_defaults_and_unreadable_fields() {
    let json = br#"{"streams":[{"codec_type":"video","width":4294967297,"height":2,"nb_frames":"n/a"}]}"#;
    let p = probe_output(json).ok().unwrap();
    assert_eq!(p.width, 1);
    assert_eq!(p.height, 2);
    assert_eq!(p.frame_rate, "30/1");
    assert_eq!(p.frame_count, None);
    assert_eq!(p.duration, None);
}

fn probe_error(json: &[u8]) -> String {
    match probe_output(json) {
        Ok(_) => panic!("expected an error"),
        Err(e) => e.message(),
    }
}

#[test]
fn probe_errors() {
    assert_eq!(probe_error(br#"{"format":{}}"#), "no streams");
    assert_eq!(probe_error(br#"{"streams":{}}"#), "no streams");
    assert_eq!(probe_error(br#"{"streams":[{"codec_type":"audio"}]}"#), "no video stream");
    assert_eq!(probe_error(br#"{"streams":[{"codec_type":"video","height":3}]}"#), "no width");
    assert_eq!(probe_error(br#"{"streams":[{"codec_type":"video","width":-3,"height":3}]}"#), "no width");
    assert_eq!(probe_error(br#"{"streams":[{"codec_type":"video","width":3}]}"#), "no height");
    let bad = probe_output(b"not json");
    assert!(matches!(bad, Err(ProbeError::InvalidJson(_))));
    let msg = probe_error(b"not json");
    assert_eq!(msg, serde_json::from_slice::<serde_json::Value>(b"not json").unwrap_err().to_string());
}

#[test]
fn select_without_streams() {
    assert!(matches!(select_video_stream(None), Err(ProbeError::NoStreams)));
    assert!(matches!(select_video_stream(Some(Vec::new())), Err(ProbeError::NoVideoStream)));
    let s = StreamFields {
        codec_type: Some("video".to_string()),
        width: Some(8),
        height: Some(6),
        r_frame_rate: Some("25/1".to_string()),
        nb_frames: Some("+10".to_string()),
        duration: None,
    };
    let p = select_video_stream(Some(vec![s])).ok().unwrap();
    assert_eq!((p.width, p.height, p.frame_count), (8, 6, Some(10)));
    assert_eq!(p.frame_rate, "25/1");
}

#[test]
fn sanitize_examples() {
    assert_eq!(sanitize_filename("my video.mp4"), "my_video.mp4");
    assert_eq!(sanitize_filename("../../etc/passwd"), ".._.._etc_passwd");
    assert_eq!(sanitize_filename("a-b_c.MOV"), "a-b_c.MOV");
    assert_eq!(sanitize_filename("héllo wörld\\x"), "héllo_wörld_x");
    assert_eq!(sanitize_filename("日本語.mp4"), "日本語.mp4");
    assert_eq!(sanitize_filename(""), "");
    assert_eq!(sanitize_filename("💝!"), "__");
}

#[test]
fn sanitize_is_idempotent_and_keeps_length() {
    for name in ["a b/c", "x..y", "ü/ö", "tab\there", "___"] {
        let once = sanitize_filename(name);
        assert_eq!(sanitize_filename(&once), once);
        assert_eq!(once.chars().count(), name.chars().count());
        assert!(!once.contains('/'));
    }
}

#[test]
fn upload_destinations() {
    assert_eq!(
        upload_destination("uploads", Some("file"), Some("my clip.mp4")),
        Some("uploads/my_clip.mp4".to_string())
    );
    assert_eq!(upload_destination("up", Some("file"), None), Some("up/video.mp4".to_string()));
    assert_eq!(upload_destination("up", Some("other"), Some("a.mp4")), None);
    assert_eq!(upload_destination("up", None, Some("a.mp4")), None);
    assert_eq!(
        upload_destination("up", Some("file"), Some("../x")),
        Some("up/.._x".to_string())
    );
}

#[test]
fn identify_sample_args() {
    assert_eq!(
        identify_ffmpeg_args("12.5", "v.mp4"),
        strs(&[
            "-ss", "12.5", "-i", "v.mp4", "-t", "10", "-vn", "-acodec", "mp3", "-f", "mp3", "-loglevel", "error",
            "pipe:1",
        ])
    );
}

#[test]
fn tempo_map_ignores_changes_that_set_no_tempo() {
    let with_noise = vec![
        change(8, BeatChangeType::Half, Some(60.0)),
        change(32, BeatChangeType::Normal, Some(130.0)),
        change(0, BeatChangeType::Triplet, Some(10.0)),
        change(16, BeatChangeType::Normal, None),
        change(0, BeatChangeType::Normal, Some(125.0)),
    ];
    let only_tempo: Vec<BeatChange<f64>> = with_noise
        .iter()
        .filter(|c| c.change_type == BeatChangeType::Normal && c.bpm.is_some())
        .cloned()
        .collect();
    assert_eq!(tempo_map(120.0, &with_noise), tempo_map(120.0, &only_tempo));
    assert_eq!(tempo_map(120.0, &with_noise), vec![(0, 125.0), (32, 130.0)]);
}

#[test]
fn tempo_segment_never_goes_back() {
    let map = vec![(0u32, 120.0), (4, 90.0), (4, 95.0), (10, 100.0), (30, 80.0)];
    let mut last = 0;
    for limit in 0..40u64 {
        let i = tempo_segment(&map, limit);
        assert!(i >= last);
        let earlier = map[1..].iter().filter(|p| (p.0 as u64) < limit).count();
        assert_eq!(i, earlier);
        last = i;
    }
}

#[test]
fn probe_video_test_is_exact() {
    let json = br#"{"streams":[
        {"codec_type":"Video","width":1,"height":1},
        {"codec_type":["video"],"width":2,"height":2},
        {"codec_type":"video ","width":3,"height":3},
        {"codec_type":"video","width":4,"height":4}
    ]}"#;
    let p = probe_output(json).ok().unwrap();
    assert_eq!((p.width, p.height), (4, 4));
    let audio_only = StreamFields {
        codec_type: Some("audio".to_string()),
        width: Some(1),
        height: Some(1),
        r_frame_rate: None,
        nb_frames: None,
        duration: None,
    };
    assert!(matches!(select_video_stream(Some(vec![audio_only])), Err(ProbeError::NoVideoStream)));
}

#[test]
fn sanitize_ascii_characters() {
    let all_ascii: String = (0u8..128).map(|b| b as char).collect();
    let out: Vec<char> = sanitize_filename(&all_ascii).chars().collect();
    for (b, c) in (0u8..128).zip(out) {
        let ch = b as char;
        let expected = if ch.is_ascii_alphanumeric() || ch == '.' || ch == '-' { ch } else { '_' };
        assert_eq!(c, expected);
    }
}

#[test]
fn upload_names_hold_no_separator() {
    let d = upload_destination("up", Some("file"), Some("a/b\\c/../d")).unwrap();
    assert_eq!(d, "up/a_b_c_.._d");
    assert!(!d["up/".len()..].contains('/') && !d.contains('\\'));
}

#[test]
fn tempo_map_does_not_depend_on_order() {
    let a = vec![
        change(64, BeatChangeType::Normal, Some(140.0)),
        change(0, BeatChangeType::Normal, Some(90.0)),
        change(16, BeatChangeType::Normal, Some(100.0)),
        change(8, BeatChangeType::Half, None),
    ];
    let mut b = a.clone();
    b.reverse();
    let mut c = a.clone();
    c.swap(0, 2);
    assert_eq!(tempo_map(120.0, &a), tempo_map(120.0, &b));
    assert_eq!(tempo_map(120.0, &a), tempo_map(120.0, &c));
    assert_eq!(tempo_map(120.0, &a), vec![(0, 90.0), (16, 100.0), (64, 140.0)]);
}
