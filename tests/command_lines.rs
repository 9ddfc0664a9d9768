use kapt::chunk::{FfmpegRecording, KaptureError};
use kapt::commands::{
    audio_capture_args, concat_args, concat_list, step_outcome, trim_args_for, video_capture_args,
};
use kapt::kapture::VideoChunk;

#[test]
fn trim_arguments_cut_both_files() {
    let c = FfmpegRecording {
        video_path: "/tmp/v.mp4".to_string(),
        video_start_time: 1000,
        audio_path: "/tmp/a.wav".to_string(),
        audio_start_time: 1200,
        early_end_time: 90000,
    };
    let v = VideoChunk { chunk_index: 0, video_offset: 200, audio_offset: 0, video_time: 61500, audio_time: 61500 };
    let args = trim_args_for(&c, &v, "/tmp/out.mp4");
    let expected = [
        "-ss", "00:00:00.200", "-t", "00:01:01.500", "-i", "/tmp/v.mp4", "-ss", "00:00:00.000", "-t",
        "00:01:01.500", "-i", "/tmp/a.wav", "-map", "0:v:0", "-map", "1:a:0", "-y", "/tmp/out.mp4",
    ];
    assert_eq!(args, expected);
}

#[test]
fn concat_arguments_copy_streams() {
    assert_eq!(
        concat_args("/tmp/list.txt", "/videos/clip.mp4"),
        ["-f", "concat", "-safe", "0", "-i", "/tmp/list.txt", "-c", "copy", "/videos/clip.mp4"]
    );
}

#[test]
fn concat_list_names_segments_in_order() {
    let paths = vec!["/tmp/a.mp4".to_string(), "/tmp/b.mp4".to_string()];
    assert_eq!(concat_list(&paths), "file '/tmp/a.mp4'\nfile '/tmp/b.mp4'\n");
    assert_eq!(concat_list(&vec![]), "");
}

#[test]
fn capture_arguments() {
    assert_eq!(
        video_capture_args("/tmp/x.mp4"),
        ["-video_size", "2560x1440", "-framerate", "25", "-f", "x11grab", "-i", ":0.0", "/tmp/x.mp4"]
    );
    assert_eq!(
        audio_capture_args(42, "/tmp/x.wav"),
        ["-f", "pulse", "-i", "42", "-fflags", "+genpts", "-async", "1", "-vsync", "1", "/tmp/x.wav", "-y"]
    );
}

#[test]
fn step_outcomes_name_the_failure() {
    assert_eq!(step_outcome(false, false), Err(KaptureError::ProcessSpawnError));
    assert_eq!(step_outcome(true, false), Err(KaptureError::ExtractionFailed));
    assert_eq!(step_outcome(true, true), Ok(()));
}
