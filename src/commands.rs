use vstd::prelude::*;
use vstd::string::StringExecFns;

use crate::chunk::{FfmpegRecording, KaptureError};
use crate::kapture::VideoChunk;
use crate::utils::{clock_string, decimal, time_to_string};

verus! {

/// The text of each argument.
pub open spec fn texts(v: Seq<String>) -> Seq<Seq<char>> {
    v.map_values(|a: String| a@)
}

/// The transcoder's arguments that cut one contribution out of a chunk: the
/// picture track of the cut video file and the sound track of the cut audio
/// file, remuxed into `out`.
pub open spec fn trim_args(c: FfmpegRecording, v: VideoChunk, out: Seq<char>) -> Seq<Seq<char>> {
    seq![
        "-ss"@, clock_string(v.video_offset as nat), "-t"@, clock_string(v.video_time as nat),
        "-i"@, c.video_path@, "-ss"@, clock_string(v.audio_offset as nat), "-t"@,
        clock_string(v.audio_time as nat), "-i"@, c.audio_path@, "-map"@, "0:v:0"@, "-map"@,
        "1:a:0"@, "-y"@, out,
    ]
}

/// The transcoder's arguments that join the segments listed in `list` into
/// `out` by stream copy.
pub open spec fn concat_args_spec(list: Seq<char>, out: Seq<char>) -> Seq<Seq<char>> {
    seq!["-f"@, "concat"@, "-safe"@, "0"@, "-i"@, list, "-c"@, "copy"@, out]
}

/// The capture arguments for the screen, written to `out`.
pub open spec fn video_capture_args_spec(out: Seq<char>) -> Seq<Seq<char>> {
    seq!["-video_size"@, "2560x1440"@, "-framerate"@, "25"@, "-f"@, "x11grab"@, "-i"@, ":0.0"@, out]
}

/// The capture arguments for audio source `source`, written to `out`.
pub open spec fn audio_capture_args_spec(source: nat, out: Seq<char>) -> Seq<Seq<char>> {
    seq![
        "-f"@, "pulse"@, "-i"@, decimal(source), "-fflags"@, "+genpts"@, "-async"@, "1"@,
        "-vsync"@, "1"@, out, "-y"@,
    ]
}

/// The concat list naming each segment, in order, one `file '<path>'` line each.
pub open spec fn concat_list_spec(paths: Seq<Seq<char>>) -> Seq<char>
    decreases paths.len(),
{
    if paths.len() == 0 {
        Seq::empty()
    } else {
        concat_list_spec(paths.drop_last()) + "file '"@ + paths.last() + "'\n"@
    }
}

fn text(s: &str) -> (r: String)
    ensures
        r@ == s@,
{
    String::from_str(s)
}

/// The transcoder's arguments that cut contribution `v` out of `chunk` into `out`.
pub fn trim_args_for(chunk: &FfmpegRecording, v: &VideoChunk, out: &str) -> (r: Vec<String>)
    ensures
        texts(r@) == trim_args(*chunk, *v, out@),
{
    let mut a: Vec<String> = Vec::new();
    a.push(text("-ss"));
    a.push(time_to_string(v.video_offset));
    a.push(text("-t"));
    a.push(time_to_string(v.video_time));
    a.push(text("-i"));
    a.push(chunk.video_path.clone());
    a.push(text("-ss"));
    a.push(time_to_string(v.audio_offset));
    a.push(text("-t"));
    a.push(time_to_string(v.audio_time));
    a.push(text("-i"));
    a.push(chunk.audio_path.clone());
    a.push(text("-map"));
    a.push(text("0:v:0"));
    a.push(text("-map"));
    a.push(text("1:a:0"));
    a.push(text("-y"));
    a.push(text(out));
    assert(texts(a@) =~= trim_args(*chunk, *v, out@));
    a
}

/// The transcoder's arguments that join the segments listed in the file
/// `list` into `out`.
pub fn concat_args(list: &str, out: &str) -> (r: Vec<String>)
    ensures
        texts(r@) == concat_args_spec(list@, out@),
{
    let mut a: Vec<String> = Vec::new();
    a.push(text("-f"));
    a.push(text("concat"));
    a.push(text("-safe"));
    a.push(text("0"));
    a.push(text("-i"));
    a.push(text(list));
    a.push(text("-c"));
    a.push(text("copy"));
    a.push(text(out));
    assert(texts(a@) =~= concat_args_spec(list@, out@));
    a
}

/// The capture arguments for the screen, written to `out`.
pub fn video_capture_args(out: &str) -> (r: Vec<String>)
    ensures
        texts(r@) == video_capture_args_spec(out@),
{
    let mut a: Vec<String> = Vec::new();
    a.push(text("-video_size"));
    a.push(text("2560x1440"));
    a.push(text("-framerate"));
    a.push(text("25"));
    a.push(text("-f"));
    a.push(text("x11grab"));
    a.push(text("-i"));
    a.push(text(":0.0"));
    a.push(text(out));
    assert(texts(a@) =~= video_capture_args_spec(out@));
    a
}

/// The capture arguments for audio source `source`, written to `out`.
pub fn audio_capture_args(source: usize, out: &str) -> (r: Vec<String>)
    ensures
        texts(r@) == audio_capture_args_spec(source as nat, out@),
{
    let mut a: Vec<String> = Vec::new();
    a.push(text("-f"));
    a.push(text("pulse"));
    a.push(text("-i"));
    a.push(crate::utils::decimal_string(source as u128));
    a.push(text("-fflags"));
    a.push(text("+genpts"));
    a.push(text("-async"));
    a.push(text("1"));
    a.push(text("-vsync"));
    a.push(text("1"));
    a.push(text(out));
    a.push(text("-y"));
    assert(texts(a@) =~= audio_capture_args_spec(source as nat, out@));
    a
}

/// The concat list for the segments at `paths`, in order.
pub fn concat_list(paths: &Vec<String>) -> (r: String)
    ensures
        r@ == concat_list_spec(texts(paths@)),
{
    let mut out = String::new();
    let mut i: usize = 0;
    while i < paths.len()
        invariant
            i <= paths@.len(),
            out@ == concat_list_spec(texts(paths@.subrange(0, i as int))),
        decreases paths@.len() - i,
    {
        out.append("file '");
        out.append(paths[i].as_str());
        out.append("'\n");
        let ghost next = texts(paths@.subrange(0, i as int + 1));
        assert(next.drop_last() =~= texts(paths@.subrange(0, i as int)));
        i = i + 1;
    }
    assert(paths@.subrange(0, i as int) =~= paths@);
    out
}

/// The outcome of one transcode or concat step of a kapture, from whether its
/// process could be started and whether it then exited successfully.
pub fn step_outcome(spawned: bool, succeeded: bool) -> (r: Result<(), KaptureError>)
    ensures
        !spawned ==> r == Err::<(), KaptureError>(KaptureError::ProcessSpawnError),
        spawned && !succeeded ==> r == Err::<(), KaptureError>(KaptureError::ExtractionFailed),
        spawned && succeeded ==> r is Ok,
{
    if !spawned {
        Err(KaptureError::ProcessSpawnError)
    } else if !succeeded {
        Err(KaptureError::ExtractionFailed)
    } else {
        Ok(())
    }
}

} // verus!
