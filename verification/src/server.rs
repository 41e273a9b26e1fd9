//! What the editor's server decides: safe names and places for uploads, and
//! the command line that cuts a sample for song recognition.
use vstd::prelude::*;
use crate::text::{arg_views, parse_u64_spec, char_is_alphanumeric, is_alphanumeric, is_ascii_alnum, owned, push_arg, push_char, str_equal};

verus! {

/// The character that a file name keeps in place of `c`: `c` itself when it
/// is alphanumeric, `.` or `-`, and `_` otherwise.
pub open spec fn safe_char(c: char) -> char {
    if char_is_alphanumeric(c) || c == '.' || c == '-' {
        c
    } else {
        '_'
    }
}

/// A file name with every character replaced by its safe character.
pub open spec fn sanitized(name: Seq<char>) -> Seq<char> {
    name.map_values(|c: char| safe_char(c))
}

/// What an ASCII character becomes: itself when it is a letter, a digit, `.`
/// or `-`, and `_` otherwise.
pub open spec fn ascii_safe_char(c: char) -> char {
    if is_ascii_alnum(c) || c == '.' || c == '-' {
        c
    } else {
        '_'
    }
}

/// Replaces every character of `name` that is not alphanumeric, `.` or `-`
/// by `_`. ASCII letters, digits, `.` and `-` are kept and every other ASCII
/// character becomes `_`, so the result holds no path separator.
pub fn sanitize_filename(name: &str) -> (r: String)
    ensures
        r@ == sanitized(name@),
        r@.len() == name@.len(),
        forall|i: int| 0 <= i < name@.len() && char_is_alphanumeric(name@[i]) ==> #[trigger] r@[i] == name@[i],
        forall|i: int| 0 <= i < name@.len() && (name@[i] as u32) < 128 ==> #[trigger] r@[i] == ascii_safe_char(name@[i]),
        forall|i: int| 0 <= i < r@.len() && (r@[i] as u32) < 128 ==> {
            ||| is_ascii_alnum(#[trigger] r@[i])
            ||| r@[i] == '.'
            ||| r@[i] == '-'
            ||| r@[i] == '_'
        },
{
    let mut out = String::new();
    for c in it: name.chars()
        invariant
            it.seq() == name@,
            out@ == sanitized(name@.take(it.index() as int)),
            out@.len() == it.index(),
            forall|j: int| 0 <= j < out@.len() && (name@[j] as u32) < 128 ==> #[trigger] out@[j] == ascii_safe_char(name@[j]),
            forall|j: int| 0 <= j < out@.len() && (out@[j] as u32) < 128 ==> {
                ||| is_ascii_alnum(#[trigger] out@[j])
                ||| out@[j] == '.'
                ||| out@[j] == '-'
                ||| out@[j] == '_'
            },
    {
        let keep = is_alphanumeric(c) || c == '.' || c == '-';
        let d = if keep { c } else { '_' };
        let ghost before = out@;
        let ghost i = it.index();
        push_char(&mut out, d);
        assert(sanitized(name@.take(i + 1)) =~= sanitized(name@.take(i as int)).push(safe_char(c)));
        assert forall|j: int| 0 <= j < out@.len() && (out@[j] as u32) < 128 implies {
            ||| is_ascii_alnum(#[trigger] out@[j])
            ||| out@[j] == '.'
            ||| out@[j] == '-'
            ||| out@[j] == '_'
        } by {
            if j < before.len() {
                assert(out@[j] == before[j]);
            }
        }
        assert(name@[i as int] == c);
        assert forall|j: int| 0 <= j < out@.len() && (name@[j] as u32) < 128 implies #[trigger] out@[j] == ascii_safe_char(name@[j]) by {
            if j < before.len() {
                assert(out@[j] == before[j]);
            }
        }
    }
    assert(name@.take(name@.len() as int) =~= name@);
    out
}

/// Law: sanitizing a name that is already sanitized changes nothing.
pub proof fn law_sanitize_idempotent(name: Seq<char>)
    ensures
        sanitized(sanitized(name)) == sanitized(name),
{
    assert(sanitized(sanitized(name)) =~= sanitized(name));
}

/// Law: sanitizing keeps every alphanumeric character (in the sense of
/// `char::is_alphanumeric`, at any code point), every `.` and every `-` where
/// it stands, and puts `_` in place of every other character.
pub proof fn law_sanitize_keeps_alphanumeric(name: Seq<char>)
    ensures
        sanitized(name).len() == name.len(),
        forall|i: int|
            0 <= i < name.len() && (char_is_alphanumeric(name[i]) || name[i] == '.' || name[i] == '-')
                ==> #[trigger] sanitized(name)[i] == name[i],
        forall|i: int|
            0 <= i < name.len() && !(char_is_alphanumeric(name[i]) || name[i] == '.' || name[i] == '-')
                ==> #[trigger] sanitized(name)[i] == '_',
{
}

/// Law: sanitizing keeps the number of characters.
pub proof fn law_sanitize_keeps_length(name: Seq<char>)
    ensures
        sanitized(name).len() == name.len(),
{
}

/// The characters of an optional string slice.
pub open spec fn opt_str_chars(o: Option<&str>) -> Option<Seq<char>> {
    match o {
        Some(s) => Some(s@),
        None => None,
    }
}

/// Where an uploaded file is stored: in `dir`, under its sanitized name, or
/// under `video.mp4` when the upload names no file.
pub open spec fn upload_path(dir: Seq<char>, file_name: Option<Seq<char>>) -> Seq<char> {
    let name = match file_name {
        Some(f) => f,
        None => "video.mp4"@,
    };
    dir + "/"@ + sanitized(name)
}

/// The path an upload field is written to: only the field named `file` is
/// stored, at `upload_path`; any other field gives `None`.
pub fn upload_destination(uploads_dir: &str, field_name: Option<&str>, file_name: Option<&str>) -> (r: Option<String>)
    ensures
        r matches Some(d) ==> forall|i: int| uploads_dir@.len() < i < d@.len() ==> #[trigger] d@[i] != '/' && d@[i] != '\\',
        (field_name matches Some(f) && f@ == "file"@) ==> (r matches Some(d) && d@ == upload_path(uploads_dir@, opt_str_chars(file_name))),
        !(field_name matches Some(f) && f@ == "file"@) ==> r is None,
{
    let is_file = match field_name {
        Some(f) => str_equal(f, "file"),
        None => false,
    };
    if !is_file {
        return None;
    }
    let name = match file_name {
        Some(f) => f,
        None => "video.mp4",
    };
    let safe = sanitize_filename(name);
    let mut dest = owned(uploads_dir);
    dest.append("/");
    dest.append(safe.as_str());
    proof {
        reveal_strlit("/");
    }
    assert(dest@ =~= uploads_dir@ + "/"@ + safe@);
    assert(dest@ =~= upload_path(uploads_dir@, opt_str_chars(file_name)));
    assert forall|i: int| uploads_dir@.len() < i < dest@.len() implies #[trigger] dest@[i] != '/' && dest@[i] != '\\' by {
        let j = i - uploads_dir@.len() - 1;
        assert(dest@[i] == safe@[j]);
        if (safe@[j] as u32) < 128 {
            assert(is_ascii_alnum(safe@[j]) || safe@[j] == '.' || safe@[j] == '-' || safe@[j] == '_');
        }
    }
    Some(dest)
}

/// The recogniser's audio cutter: ten seconds of `video_path` from `start`,
/// without video, as MP3 on standard output, reporting errors only.
pub open spec fn sample_args(start: Seq<char>, video_path: Seq<char>) -> Seq<Seq<char>> {
    seq![
        "-ss"@, start, "-i"@, video_path, "-t"@, "10"@, "-vn"@, "-acodec"@, "mp3"@, "-f"@,
        "mp3"@, "-loglevel"@, "error"@, "pipe:1"@,
    ]
}

/// Law: the sample always starts at `start` and lasts ten seconds: the
/// arguments begin with `-ss start -i video_path -t 10`, whatever `start` is,
/// and end by writing MP3 to standard output.
pub proof fn law_sample_is_ten_seconds_from_start(start: Seq<char>, video_path: Seq<char>)
    ensures
        sample_args(start, video_path).len() == 14,
        sample_args(start, video_path).subrange(0, 6) == seq!["-ss"@, start, "-i"@, video_path, "-t"@, "10"@],
        parse_u64_spec(sample_args(start, video_path)[5]) == Some(10u64),
        sample_args(start, video_path).last() == "pipe:1"@,
{
    reveal_strlit("10");
    reveal_with_fuel(crate::text::digits_value, 3);
    assert(sample_args(start, video_path).subrange(0, 6) =~= seq!["-ss"@, start, "-i"@, video_path, "-t"@, "10"@]);
    assert(crate::text::unsigned_digits("10"@) =~= "10"@);
}

/// The arguments that cut the audio sample sent for song recognition;
/// `start` is the start time as text.
pub fn identify_ffmpeg_args(start: &str, video_path: &str) -> (r: Vec<String>)
    ensures
        arg_views(r@) == sample_args(start@, video_path@),
        arg_views(r@).subrange(0, 6) == seq!["-ss"@, start@, "-i"@, video_path@, "-t"@, "10"@],
{
    let mut a: Vec<String> = Vec::new();
    push_arg(&mut a, "-ss");
    push_arg(&mut a, start);
    push_arg(&mut a, "-i");
    push_arg(&mut a, video_path);
    push_arg(&mut a, "-t");
    push_arg(&mut a, "10");
    push_arg(&mut a, "-vn");
    push_arg(&mut a, "-acodec");
    push_arg(&mut a, "mp3");
    push_arg(&mut a, "-f");
    push_arg(&mut a, "mp3");
    push_arg(&mut a, "-loglevel");
    push_arg(&mut a, "error");
    push_arg(&mut a, "pipe:1");
    assert(arg_views(a@) =~= sample_args(start@, video_path@));
    a
}

} // verus!
