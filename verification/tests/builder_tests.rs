use dashstream::duration::DurationMs;
use dashstream::ffmpeg::{Ffmpeg, FfmpegInput, FfmpegOutput};
use dashstream::path::{escape_filter_path, get_absolute_path};

fn dash_config() -> Ffmpeg {
    Ffmpeg {
        verbose: false,
        input: FfmpegInput::File {
            path: "video.mp4".to_string(),
            seek: Some(DurationMs { millis: 90_000 }),
        },
        output: FfmpegOutput::Dash {
            temp_dir_path: "/tmp/segments".to_string(),
        },
        cpu_used: 5,
        framerate: 30,
        crf: 30,
        video_bitrate: "4000k".to_string(),
        video_resolution: "1280x720".to_string(),
        audio_bitrate: "128k".to_string(),
        audio_sample_rate: "44100".to_string(),
        subtitles_path: Some("subs/ep:1.srt".to_string()),
    }
}

#[test]
fn builder_is_deterministic() {
    let c = dash_config();
    let a = c.build_args("/work", 4);
    let b = c.build_args("/work", 4);
    assert_eq!(a, b);
}

#[test]
fn end_to_end_file_with_seek_and_subtitles() {
    let c = dash_config();
    let args = c.build_args("/work", 4);
    let expected: Vec<String> = [
        "-hide_banner",
        "-loglevel",
        "warning",
        "-stats",
        "-re",
        "-ss",
        "90",
        "-i",
        "/work/video.mp4",
        "-vf",
        r"setpts=PTS+90/TB,subtitles=filename=/work/subs/ep\\:1.srt,setpts=PTS-STARTPTS",
        "-c:v",
        "libvpx-vp9",
        "-quality",
        "realtime",
        "-cpu-used",
        "5",
        "-tile-columns",
        "4",
        "-frame-parallel",
        "1",
        "-threads",
        "4",
        "-static-thresh",
        "0",
        "-max-intra-rate",
        "300",
        "-lag-in-frames",
        "0",
        "-qmin",
        "4",
        "-qmax",
        "48",
        "-row-mt",
        "1",
        "-error-resilient",
        "1",
        "-r",
        "30",
        "-crf",
        "30",
        "-b:v",
        "4000k",
        "-s",
        "1280x720",
        "-g",
        "60",
        "-c:a",
        "libvorbis",
        "-b:a",
        "128k",
        "-ar",
        "44100",
        "-ac",
        "2",
        "-f",
        "dash",
        "-remove_at_exit",
        "1",
        "-dash_segment_type",
        "webm",
        "-window_size",
        "5",
        "-extra_window_size",
        "2",
        "-utc_timing_url",
        "https://time.akamai.com/",
        "-use_template",
        "0",
        "-use_timeline",
        "0",
        "-seg_duration",
        "2",
        "-index_correction",
        "1",
        "-ignore_io_errors",
        "1",
        "stream.mpd",
    ]
    .iter()
    .map(|s| s.to_string())
    .collect();
    assert_eq!(args, expected);
}

#[test]
fn seek_argument_is_whole_seconds() {
    let c = dash_config();
    let args = c.build_args("/work", 4);
    let i = args.iter().position(|a| a == "-ss").unwrap();
    assert_eq!(args[i + 1], "90");
}

#[test]
fn subtitle_filter_shifts_timestamps_by_seek() {
    let c = dash_config();
    let args = c.build_args("/work", 4);
    let i = args.iter().position(|a| a == "-vf").unwrap();
    assert!(args[i + 1].contains("PTS+90/TB"));
    assert!(args[i + 1].contains(r"/work/subs/ep\\:1.srt"));
}

#[test]
fn subtitle_filter_without_seek_has_no_shift() {
    let mut c = dash_config();
    c.input = FfmpegInput::File {
        path: "video.mp4".to_string(),
        seek: None,
    };
    let args = c.build_args("/work", 4);
    let i = args.iter().position(|a| a == "-vf").unwrap();
    assert_eq!(args[i + 1], r"subtitles=filename=/work/subs/ep\\:1.srt");
}

#[test]
fn rtmp_to_rtmp_arguments() {
    let c = Ffmpeg {
        verbose: true,
        input: FfmpegInput::Rtmp {
            addr: "127.0.0.1:1935".to_string(),
        },
        output: FfmpegOutput::Rtmp {
            addr: "relay.example:1935".to_string(),
        },
        cpu_used: 5,
        framerate: 30,
        crf: 30,
        video_bitrate: "4000k".to_string(),
        video_resolution: "1280x720".to_string(),
        audio_bitrate: "128k".to_string(),
        audio_sample_rate: "44100".to_string(),
        subtitles_path: None,
    };
    let args = c.build_args("/work", 2);
    let expected: Vec<String> = [
        "-listen",
        "1",
        "-i",
        "rtmp://127.0.0.1:1935/stream/",
        "-f",
        "flv",
        "rtmp://relay.example:1935/stream/",
    ]
    .iter()
    .map(|s| s.to_string())
    .collect();
    assert_eq!(args, expected);
}

#[test]
fn quiet_flags_only_when_not_verbose() {
    let mut c = dash_config();
    c.verbose = true;
    let args = c.build_args("/work", 4);
    assert!(!args.contains(&"-hide_banner".to_string()));
    c.verbose = false;
    let args = c.build_args("/work", 4);
    assert_eq!(args[0], "-hide_banner");
}

#[test]
fn machine_thread_count_is_at_least_one() {
    let c = dash_config();
    let args = c.command_args("/work");
    let i = args.iter().position(|a| a == "-threads").unwrap();
    let threads: u64 = args[i + 1].parse().unwrap();
    assert!(threads >= 1);
}

#[test]
fn working_directory_follows_output() {
    let c = dash_config();
    assert_eq!(c.working_directory(), Some(&"/tmp/segments".to_string()));
    let mut c = c;
    c.output = FfmpegOutput::Rtmp {
        addr: "relay.example:1935".to_string(),
    };
    assert_eq!(c.working_directory(), None);
}

#[test]
fn resolves_relative_paths_against_cwd() {
    assert_eq!(get_absolute_path("video.mp4", "/work"), "/work/video.mp4");
    assert_eq!(get_absolute_path("video.mp4", "/work/"), "/work/video.mp4");
    assert_eq!(get_absolute_path("/data/video.mp4", "/work"), "/data/video.mp4");
}

#[test]
fn escapes_backslashes_and_colons() {
    assert_eq!(escape_filter_path(r"C:\media"), r"C\\:\\\\media");
    assert_eq!(escape_filter_path("plain/path.srt"), "plain/path.srt");
    assert_eq!(escape_filter_path(":"), r"\\:");
}
