//! What the renderer decides without drawing: the encoder command lines, the
//! prober's command line, and how the prober's report is read.
use vstd::prelude::*;
use crate::config;
use crate::text::{
    arg_views, decimal, decimal_string, is_digit_char, law_decimal_parse_roundtrip, lemma_decimal_digits, owned, parse_u64,
    parse_u64_spec, push_arg, push_owned_arg, str_equal, write_decimal,
};

verus! {

/// Frames per second of the rendered overlay.
pub const OUTPUT_FPS: u32 = 60;

/// Settings of one render: encoder choice, quality, and whether only the
/// transparent overlay is written instead of compositing onto the source.
pub struct RenderConfig {
    pub nvidia: bool,
    pub cq: u8,
    pub overlay_only: bool,
}

impl RenderConfig {
    /// The settings of a render request: the configured encoder and quality,
    /// with `overlay_only` off unless the request turns it on.
    pub fn for_request(cfg: &config::RenderConfig, overlay_only: Option<bool>) -> (r: Self)
        ensures
            r.nvidia == cfg.nvidia,
            r.cq == cfg.cq,
            r.overlay_only == (overlay_only == Some(true)),
    {
        let only = match overlay_only {
            Some(b) => b,
            None => false,
        };
        RenderConfig { nvidia: cfg.nvidia, cq: cfg.cq, overlay_only: only }
    }
}

/// The frame size argument `WxH`.
pub open spec fn size_arg(w: u32, h: u32) -> Seq<char> {
    decimal(w as nat) + "x"@ + decimal(h as nat)
}

/// The frame rate argument.
pub open spec fn fps_arg() -> Seq<char> {
    decimal(OUTPUT_FPS as nat)
}

/// The filter that resamples the source to the output rate and lays the
/// overlay on it in RGB.
pub open spec fn overlay_filter() -> Seq<char> {
    "[0:v]fps="@ + fps_arg() + "[src];[src][1:v]overlay=0:0:format=rgb[out]"@
}

/// Encoder arguments that write the overlay alone, with its alpha channel, as
/// ProRes 4444 read from raw RGBA frames on standard input.
pub open spec fn alpha_args(output: Seq<char>, w: u32, h: u32) -> Seq<Seq<char>> {
    seq![
        "-y"@, "-f"@, "rawvideo"@, "-pix_fmt"@, "rgba"@, "-s"@, size_arg(w, h), "-r"@, fps_arg(),
        "-i"@, "pipe:0"@, "-c:v"@, "prores_ks"@, "-profile:v"@, "4444"@, "-pix_fmt"@,
        "yuva444p10le"@, output,
    ]
}

/// The video codec, preset and quality flag of the chosen encoder.
pub open spec fn encoder_choice(nvidia: bool) -> (Seq<char>, Seq<char>, Seq<char>) {
    if nvidia {
        ("h264_nvenc"@, "p4"@, "-cq"@)
    } else {
        ("libx264"@, "medium"@, "-crf"@)
    }
}

/// Encoder arguments that composite the overlay, read as raw RGBA frames from
/// standard input, onto the input video and keep its audio.
pub open spec fn overlay_args(input: Seq<char>, output: Seq<char>, w: u32, h: u32, cfg: RenderConfig) -> Seq<Seq<char>> {
    let (codec, preset, quality_flag) = encoder_choice(cfg.nvidia);
    seq![
        "-y"@, "-i"@, input, "-f"@, "rawvideo"@, "-pix_fmt"@, "rgba"@, "-s"@, size_arg(w, h),
        "-r"@, fps_arg(), "-i"@, "pipe:0"@, "-filter_complex"@, overlay_filter(), "-map"@,
        "[out]"@, "-map"@, "0:a?"@, "-c:v"@, codec, "-preset"@, preset, quality_flag,
        decimal(cfg.cq as nat), "-c:a"@, "copy"@, output,
    ]
}

/// The frame size argument `WxH`.
fn size_string(w: u32, h: u32) -> (r: String)
    ensures
        r@ == size_arg(w, h),
{
    let mut s = String::new();
    write_decimal(w as u64, &mut s);
    s.append("x");
    write_decimal(h as u64, &mut s);
    assert(s@ =~= size_arg(w, h));
    s
}

/// The arguments of the encoder that writes the overlay alone.
pub fn ffmpeg_alpha_args(output: &str, w: u32, h: u32) -> (r: Vec<String>)
    ensures
        arg_views(r@) == alpha_args(output@, w, h),
        arg_views(r@)[5] == "-s"@,
        arg_views(r@)[6] == decimal(w as nat) + "x"@ + decimal(h as nat),
        arg_views(r@).last() == output@,
{
    let mut a: Vec<String> = Vec::new();
    push_arg(&mut a, "-y");
    push_arg(&mut a, "-f");
    push_arg(&mut a, "rawvideo");
    push_arg(&mut a, "-pix_fmt");
    push_arg(&mut a, "rgba");
    push_arg(&mut a, "-s");
    push_owned_arg(&mut a, size_string(w, h));
    push_arg(&mut a, "-r");
    push_owned_arg(&mut a, decimal_string(OUTPUT_FPS as u64));
    push_arg(&mut a, "-i");
    push_arg(&mut a, "pipe:0");
    push_arg(&mut a, "-c:v");
    push_arg(&mut a, "prores_ks");
    push_arg(&mut a, "-profile:v");
    push_arg(&mut a, "4444");
    push_arg(&mut a, "-pix_fmt");
    push_arg(&mut a, "yuva444p10le");
    push_arg(&mut a, output);
    assert(arg_views(a@) =~= alpha_args(output@, w, h));
    a
}

/// The arguments of the encoder that composites the overlay onto the input.
pub fn ffmpeg_overlay_args(input: &str, output: &str, w: u32, h: u32, cfg: &RenderConfig) -> (r: Vec<String>)
    ensures
        arg_views(r@) == overlay_args(input@, output@, w, h, *cfg),
        arg_views(r@)[1] == "-i"@,
        arg_views(r@)[2] == input@,
        arg_views(r@)[7] == "-s"@,
        arg_views(r@)[8] == decimal(w as nat) + "x"@ + decimal(h as nat),
        arg_views(r@)[24] == decimal(cfg.cq as nat),
        arg_views(r@).last() == output@,
{
    let (codec, preset, quality_flag) = if cfg.nvidia {
        ("h264_nvenc", "p4", "-cq")
    } else {
        ("libx264", "medium", "-crf")
    };
    let mut filter = owned("[0:v]fps=");
    write_decimal(OUTPUT_FPS as u64, &mut filter);
    filter.append("[src];[src][1:v]overlay=0:0:format=rgb[out]");
    assert(filter@ =~= overlay_filter());
    let mut a: Vec<String> = Vec::new();
    push_arg(&mut a, "-y");
    push_arg(&mut a, "-i");
    push_arg(&mut a, input);
    push_arg(&mut a, "-f");
    push_arg(&mut a, "rawvideo");
    push_arg(&mut a, "-pix_fmt");
    push_arg(&mut a, "rgba");
    push_arg(&mut a, "-s");
    push_owned_arg(&mut a, size_string(w, h));
    push_arg(&mut a, "-r");
    push_owned_arg(&mut a, decimal_string(OUTPUT_FPS as u64));
    push_arg(&mut a, "-i");
    push_arg(&mut a, "pipe:0");
    push_arg(&mut a, "-filter_complex");
    push_owned_arg(&mut a, filter);
    push_arg(&mut a, "-map");
    push_arg(&mut a, "[out]");
    push_arg(&mut a, "-map");
    push_arg(&mut a, "0:a?");
    push_arg(&mut a, "-c:v");
    push_arg(&mut a, codec);
    push_arg(&mut a, "-preset");
    push_arg(&mut a, preset);
    push_arg(&mut a, quality_flag);
    push_owned_arg(&mut a, decimal_string(cfg.cq as u64));
    push_arg(&mut a, "-c:a");
    push_arg(&mut a, "copy");
    push_arg(&mut a, output);
    assert(arg_views(a@) =~= overlay_args(input@, output@, w, h, *cfg));
    a
}

/// Whether `s` reads back as the frame size `w` by `h`: the text before its
/// first `x` is a numeral of `w`, and the text after it a numeral of `h`.
pub open spec fn reads_as_size(s: Seq<char>, w: u32, h: u32) -> bool {
    exists|i: int|
        0 < i < s.len() && #[trigger] s[i] == 'x' && (forall|j: int| 0 <= j < i ==> s[j] != 'x')
            && parse_u64_spec(s.take(i)) == Some(w as u64) && parse_u64_spec(s.skip(i + 1)) == Some(h as u64)
}

/// Numerals of the width and the height joined by `x` read back as that size.
proof fn lemma_size_reads_back(w: u32, h: u32)
    ensures
        reads_as_size(decimal(w as nat) + "x"@ + decimal(h as nat), w, h),
{
    reveal_strlit("x");
    let dw = decimal(w as nat);
    let dh = decimal(h as nat);
    let s = dw + "x"@ + dh;
    let i = dw.len() as int;
    lemma_decimal_digits(w as nat);
    lemma_decimal_digits(h as nat);
    law_decimal_parse_roundtrip(w as u64);
    law_decimal_parse_roundtrip(h as u64);
    assert(s.take(i) =~= dw);
    assert(s.skip(i + 1) =~= dh);
    assert(s[i] == 'x');
    assert forall|j: int| 0 <= j < i implies s[j] != 'x' by {
        assert(s[j] == dw[j]);
        assert(is_digit_char(dw[j]));
    }
}

/// Law: the overlay-only encoder reads frames of exactly the job's size, width
/// first: the argument after `-s` reads back as `w` by `h`, for every size.
pub proof fn law_alpha_frame_size(output: Seq<char>, w: u32, h: u32)
    ensures
        alpha_args(output, w, h)[5] == "-s"@,
        reads_as_size(alpha_args(output, w, h)[6], w, h),
        alpha_args(output, w, h).last() == output,
{
    lemma_size_reads_back(w, h);
}

/// Law: the compositing encoder reads overlay frames of exactly the job's
/// size, width first, composites onto `input`, encodes at quality `cfg.cq`
/// with the quality flag of the chosen encoder, and writes `output`.
pub proof fn law_overlay_frame_size(input: Seq<char>, output: Seq<char>, w: u32, h: u32, cfg: RenderConfig)
    ensures
        overlay_args(input, output, w, h, cfg)[1] == "-i"@,
        overlay_args(input, output, w, h, cfg)[2] == input,
        overlay_args(input, output, w, h, cfg)[7] == "-s"@,
        reads_as_size(overlay_args(input, output, w, h, cfg)[8], w, h),
        overlay_args(input, output, w, h, cfg)[23] == (if cfg.nvidia { "-cq"@ } else { "-crf"@ }),
        parse_u64_spec(overlay_args(input, output, w, h, cfg)[24]) == Some(cfg.cq as u64),
        overlay_args(input, output, w, h, cfg).last() == output,
{
    lemma_size_reads_back(w, h);
    law_decimal_parse_roundtrip(cfg.cq as u64);
}

/// The encoder arguments of a render: the overlay alone when the settings ask
/// for it, the composite onto the input otherwise.
pub fn ffmpeg_args(input: &str, output: &str, w: u32, h: u32, cfg: &RenderConfig) -> (r: Vec<String>)
    ensures
        arg_views(r@) == (if cfg.overlay_only {
            alpha_args(output@, w, h)
        } else {
            overlay_args(input@, output@, w, h, *cfg)
        }),
{
    if cfg.overlay_only {
        ffmpeg_alpha_args(output, w, h)
    } else {
        ffmpeg_overlay_args(input, output, w, h, cfg)
    }
}

/// The prober's arguments: report every stream of `path` as JSON.
pub open spec fn probe_args(path: Seq<char>) -> Seq<Seq<char>> {
    seq!["-v"@, "quiet"@, "-print_format"@, "json"@, "-show_streams"@, path]
}

/// The arguments of the prober that reports the streams of `path`.
pub fn ffprobe_args(path: &str) -> (r: Vec<String>)
    ensures
        arg_views(r@) == probe_args(path@),
{
    let mut a: Vec<String> = Vec::new();
    push_arg(&mut a, "-v");
    push_arg(&mut a, "quiet");
    push_arg(&mut a, "-print_format");
    push_arg(&mut a, "json");
    push_arg(&mut a, "-show_streams");
    push_arg(&mut a, path);
    assert(arg_views(a@) =~= probe_args(path@));
    a
}

/// What the renderer reads of one stream in the prober's report: its
/// `codec_type`, `r_frame_rate`, `nb_frames` and `duration` where they are
/// strings, and its `width` and `height` where they are unsigned integers.
pub struct StreamFields {
    pub codec_type: Option<String>,
    pub width: Option<u64>,
    pub height: Option<u64>,
    pub r_frame_rate: Option<String>,
    pub nb_frames: Option<String>,
    pub duration: Option<String>,
}

/// The characters of an optional string.
pub open spec fn opt_chars(o: Option<String>) -> Option<Seq<char>> {
    match o {
        Some(s) => Some(s@),
        None => None,
    }
}

/// A stream's fields as plain values.
pub type StreamView = (Option<Seq<char>>, Option<u64>, Option<u64>, Option<Seq<char>>, Option<Seq<char>>, Option<Seq<char>>);

impl View for StreamFields {
    type V = StreamView;

    open spec fn view(&self) -> StreamView {
        (opt_chars(self.codec_type), self.width, self.height, opt_chars(self.r_frame_rate), opt_chars(self.nb_frames), opt_chars(self.duration))
    }
}

/// The streams of a report as plain values, or `None` where the report has no
/// `streams` array.
pub open spec fn streams_view(s: Option<Vec<StreamFields>>) -> Option<Seq<StreamView>> {
    match s {
        Some(v) => Some(v@.map_values(|f: StreamFields| f@)),
        None => None,
    }
}

/// What `serde_json` reads from the prober's output: the message of its parse
/// error where the output is not valid JSON, else the `streams` array of the
/// document as `StreamFields` (`None` inside where there is no such array).
pub uninterp spec fn probe_report_streams(json: Seq<u8>) -> Result<Option<Seq<StreamView>>, Seq<char>>;

/// Calls `serde_json::from_slice` into a `serde_json::Value` and reads from it,
/// with `Value`'s indexing and its `as_array`, `as_u64` and `as_str`, the fields
/// that `StreamFields` holds; a parse error is handed on as its message. The
/// contract claims only that the result is a function of the bytes, named
/// `probe_report_streams`.
#[verifier::external_body]
fn read_probe_report(json: &[u8]) -> (r: Result<Option<Vec<StreamFields>>, String>)
    ensures
        r matches Ok(s) ==> (probe_report_streams(json@) matches Ok(t) && t == streams_view(s)),
        r matches Err(m) ==> (probe_report_streams(json@) matches Err(e) && e == m@),
{
    let doc: serde_json::Value = serde_json::from_slice(json).map_err(|e| e.to_string())?;
    Ok(doc["streams"].as_array().map(|a| a.iter().map(|s| StreamFields {
        codec_type: s["codec_type"].as_str().map(String::from),
        width: s["width"].as_u64(),
        height: s["height"].as_u64(),
        r_frame_rate: s["r_frame_rate"].as_str().map(String::from),
        nb_frames: s["nb_frames"].as_str().map(String::from),
        duration: s["duration"].as_str().map(String::from),
    }).collect()))
}

/// The video stream that a render works from: its size, its frame rate as the
/// report writes it (`30/1` where the report gives none), its frame count where
/// the report gives one as a decimal string, and its duration text.
pub struct VideoProbe {
    pub width: u32,
    pub height: u32,
    pub frame_rate: String,
    pub frame_count: Option<u64>,
    pub duration: Option<String>,
}

/// Why a prober's report could not be used.
pub enum ProbeError {
    InvalidJson(String),
    NoStreams,
    NoVideoStream,
    NoWidth,
    NoHeight,
}

impl ProbeError {
    /// The message that describes the error.
    pub fn message(&self) -> (r: String)
        ensures
            r@ == match self {
                ProbeError::InvalidJson(m) => m@,
                ProbeError::NoStreams => "no streams"@,
                ProbeError::NoVideoStream => "no video stream"@,
                ProbeError::NoWidth => "no width"@,
                ProbeError::NoHeight => "no height"@,
            },
    {
        match self {
            ProbeError::InvalidJson(m) => m.clone(),
            ProbeError::NoStreams => owned("no streams"),
            ProbeError::NoVideoStream => owned("no video stream"),
            ProbeError::NoWidth => owned("no width"),
            ProbeError::NoHeight => owned("no height"),
        }
    }
}

/// Whether a stream's `codec_type` is `video`.
pub open spec fn is_video(f: StreamView) -> bool {
    f.0 == Some("video"@)
}

/// Whether the stream is a video stream: its `codec_type` is `video`.
pub fn is_video_stream(f: &StreamFields) -> (r: bool)
    ensures
        r == is_video(f@),
{
    match &f.codec_type {
        Some(t) => str_equal(t.as_str(), "video"),
        None => false,
    }
}

/// The first video stream of `s`, if any.
pub open spec fn first_video(s: Seq<StreamView>) -> Option<StreamView>
    decreases s.len(),
{
    if s.len() == 0 {
        None
    } else if is_video(s[0]) {
        Some(s[0])
    } else {
        first_video(s.drop_first())
    }
}

/// The frame rate text of a stream: its own, or `30/1` where it has none.
pub open spec fn frame_rate_text(f: StreamView) -> Seq<char> {
    match f.3 {
        Some(t) => t,
        None => "30/1"@,
    }
}

/// The frame count of a stream: its `nb_frames` read as a `u64`, where that
/// succeeds.
pub open spec fn frame_count_of(f: StreamView) -> Option<u64> {
    match f.4 {
        Some(t) => parse_u64_spec(t),
        None => None,
    }
}

/// Whether `r` is what a report with the streams `streams` gives: no streams
/// array, no video stream, a video stream without width or without height
/// (checked in that order), or the first video stream's size (cut to 32 bits),
/// frame rate text, frame count and duration text.
pub open spec fn probe_outcome(streams: Option<Seq<StreamView>>, r: Result<VideoProbe, ProbeError>) -> bool {
    match streams {
        None => r matches Err(ProbeError::NoStreams),
        Some(v) => match first_video(v) {
            None => r matches Err(ProbeError::NoVideoStream),
            Some(f) => if f.1 is None {
                r matches Err(ProbeError::NoWidth)
            } else if f.2 is None {
                r matches Err(ProbeError::NoHeight)
            } else {
                &&& r matches Ok(p)
                &&& p.width == f.1.unwrap() as u32
                &&& p.height == f.2.unwrap() as u32
                &&& p.frame_rate@ == frame_rate_text(f)
                &&& p.frame_count == frame_count_of(f)
                &&& opt_chars(p.duration) == f.5
            },
        },
    }
}

/// The first video stream of `s` is one of its streams, a video stream, and
/// no stream before it is one.
proof fn lemma_first_video_index(s: Seq<StreamView>)
    requires
        first_video(s) is Some,
    ensures
        exists|i: int|
            0 <= i < s.len() && #[trigger] s[i] == first_video(s).unwrap() && is_video(s[i])
                && (forall|j: int| 0 <= j < i ==> !is_video(s[j])),
    decreases s.len(),
{
    if !is_video(s[0]) {
        let rest = s.drop_first();
        lemma_first_video_index(rest);
        let i = choose|i: int|
            0 <= i < rest.len() && #[trigger] rest[i] == first_video(rest).unwrap() && is_video(rest[i])
                && (forall|j: int| 0 <= j < i ==> !is_video(rest[j]));
        assert(s[i + 1] == rest[i]);
        assert forall|j: int| 0 <= j < i + 1 implies !is_video(s[j]) by {
            if j > 0 {
                assert(s[j] == rest[j - 1]);
            }
        }
    } else {
        assert(s[0] == first_video(s).unwrap());
    }
}

/// Law: a usable report describes the first stream whose `codec_type` is
/// `video`: the probe's size is that stream's width and height (cut to 32
/// bits), its frame rate that stream's `r_frame_rate` (or `30/1`), its frame
/// count that stream's `nb_frames` read as a number, and its duration that
/// stream's `duration` text, each taken from that stream alone, whatever its
/// other fields hold.
pub proof fn law_probe_reads_first_video_stream(streams: Seq<StreamView>, r: Result<VideoProbe, ProbeError>)
    requires
        probe_outcome(Some(streams), r),
    ensures
        r matches Ok(p) ==> exists|i: int|
            0 <= i < streams.len() && #[trigger] streams[i].0 == Some("video"@)
                && (forall|j: int| 0 <= j < i ==> streams[j].0 != Some("video"@))
                && streams[i].1 is Some && p.width == streams[i].1.unwrap() as u32
                && streams[i].2 is Some && p.height == streams[i].2.unwrap() as u32
                && opt_chars(p.duration) == streams[i].5
                && p.frame_rate@ == (if streams[i].3 is Some { streams[i].3.unwrap() } else { "30/1"@ })
                && p.frame_count == (if streams[i].4 is Some { parse_u64_spec(streams[i].4.unwrap()) } else { None }),
{
    if r is Ok {
        lemma_first_video_index(streams);
        let i = choose|i: int|
            0 <= i < streams.len() && #[trigger] streams[i] == first_video(streams).unwrap() && is_video(streams[i])
                && (forall|j: int| 0 <= j < i ==> !is_video(streams[j]));
        assert(streams[i].0 == Some("video"@));
    }
}

/// Reads the video stream out of the streams of a prober's report.
pub fn select_video_stream(streams: Option<Vec<StreamFields>>) -> (r: Result<VideoProbe, ProbeError>)
    ensures
        probe_outcome(streams_view(streams), r),
{
    let ghost sv = streams_view(streams);
    let v = match streams {
        Some(v) => v,
        None => return Err(ProbeError::NoStreams),
    };
    let ghost all = sv.unwrap();
    assert(all =~= v@.map_values(|f: StreamFields| f@));
    let n = v.len();
    let mut i: usize = 0;
    assert(all.skip(0) =~= all);
    while i < n && !is_video_stream(&v[i])
        invariant
            n == v@.len(),
            i <= n,
            all == v@.map_values(|f: StreamFields| f@),
            first_video(all) == first_video(all.skip(i as int)),
        decreases n - i,
    {
        assert(all.skip(i + 1) =~= all.skip(i as int).drop_first());
        i += 1;
    }
    if i == n {
        assert(all.skip(i as int) =~= Seq::<StreamView>::empty());
        return Err(ProbeError::NoVideoStream);
    }
    let s = &v[i];
    assert(all[i as int] == s@);
    assert(all.skip(i as int)[0] == s@);
    assert(first_video(all) == Some(s@));
    let w = match s.width {
        Some(w) => w,
        None => return Err(ProbeError::NoWidth),
    };
    let h = match s.height {
        Some(h) => h,
        None => return Err(ProbeError::NoHeight),
    };
    let frame_rate = match &s.r_frame_rate {
        Some(t) => t.clone(),
        None => owned("30/1"),
    };
    let frame_count = match &s.nb_frames {
        Some(t) => parse_u64(t.as_str()),
        None => None,
    };
    let duration = match &s.duration {
        Some(t) => Some(t.clone()),
        None => None,
    };
    let width: u32 = #[verifier::truncate] (w as u32);
    let height: u32 = #[verifier::truncate] (h as u32);
    Ok(VideoProbe { width, height, frame_rate, frame_count, duration })
}

/// Reads the prober's JSON output: the video stream it reports, or why it
/// cannot be used.
pub fn probe_output(json: &[u8]) -> (r: Result<VideoProbe, ProbeError>)
    ensures
        probe_report_streams(json@) matches Err(m) ==> (r matches Err(ProbeError::InvalidJson(e)) && e@ == m),
        probe_report_streams(json@) matches Ok(st) ==> probe_outcome(st, r),
{
    match read_probe_report(json) {
        Err(m) => Err(ProbeError::InvalidJson(m)),
        Ok(streams) => select_video_stream(streams),
    }
}

} // verus!
