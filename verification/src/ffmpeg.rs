//! The command builder: a pure mapping from a transcoder configuration to
//! the ordered argument list handed to the external process, together with
//! the choice of working directory for the spawn.

use vstd::prelude::*;
use vstd::string::*;
use crate::duration::{secs_str, DurationMs};
use crate::path::{abs_path, escaped, escape_filter_path, get_absolute_path};
use crate::text::{dec_str, u64_to_string};

verus! {

/// Where the media comes from: a listening ingest endpoint, or a file
/// played back at natural speed with an optional seek offset.
#[derive(Debug, Clone)]
pub enum FfmpegInput {
    Rtmp { addr: String },
    File { path: String, seek: Option<DurationMs> },
}

/// Where the media goes: a segmented directory served over HTTP, or a
/// remote push address.
#[derive(Debug, Clone)]
pub enum FfmpegOutput {
    Dash { temp_dir_path: String },
    Rtmp { addr: String },
}

/// One supervised transcoding run's configuration.
#[derive(Debug, Clone)]
pub struct Ffmpeg {
    pub verbose: bool,
    pub input: FfmpegInput,
    pub output: FfmpegOutput,
    pub cpu_used: u8,
    pub framerate: u8,
    pub crf: u8,
    pub video_bitrate: String,
    pub video_resolution: String,
    pub audio_bitrate: String,
    pub audio_sample_rate: String,
    pub subtitles_path: Option<String>,
}

/// The ingest or push address: a fixed stream path and an empty stream key
/// behind the socket address.
pub open spec fn rtmp_url(addr: Seq<char>) -> Seq<char> {
    "rtmp://"@ + addr + "/stream/"@
}

/// The logging arguments: quiet unless verbose.
pub open spec fn verbosity_args(c: Ffmpeg) -> Seq<Seq<char>> {
    if c.verbose {
        seq![]
    } else {
        seq!["-hide_banner"@, "-loglevel"@, "warning"@, "-stats"@]
    }
}

/// The input arguments: listen mode for ingest; natural-speed playback,
/// the optional seek, and the absolute file path for file playback.
pub open spec fn input_args(c: Ffmpeg, cwd: Seq<char>) -> Seq<Seq<char>> {
    match c.input {
        FfmpegInput::Rtmp { addr } => seq!["-listen"@, "1"@, "-i"@, rtmp_url(addr@)],
        FfmpegInput::File { path, seek } => seq!["-re"@] + (match seek {
            Some(d) => seq!["-ss"@, secs_str(d.millis)],
            None => seq![],
        }) + seq!["-i"@, abs_path(path@, cwd)],
    }
}

/// The seek offset, present only for file playback.
pub open spec fn file_seek(c: Ffmpeg) -> Option<DurationMs> {
    match c.input {
        FfmpegInput::File { path: _, seek } => seek,
        FfmpegInput::Rtmp { addr: _ } => None,
    }
}

/// The subtitle filter argument: the escaped absolute subtitle path and,
/// when playback is seeked, a presentation-timestamp shift that keeps the
/// subtitles aligned with the seeked start.
pub open spec fn subtitle_args(c: Ffmpeg, cwd: Seq<char>) -> Seq<Seq<char>> {
    match c.subtitles_path {
        None => seq![],
        Some(p) => {
            let esc = escaped(abs_path(p@, cwd));
            match file_seek(c) {
                Some(d) => seq![
                    "-vf"@,
                    "setpts=PTS+"@ + secs_str(d.millis) + "/TB,subtitles=filename="@ + esc
                        + ",setpts=PTS-STARTPTS"@,
                ],
                None => seq!["-vf"@, "subtitles=filename="@ + esc],
            }
        },
    }
}

/// The realtime video-encoder arguments, with the keyframe interval at
/// twice the framerate so every two-second segment starts on a keyframe.
pub open spec fn dash_video_args(c: Ffmpeg, threads: nat) -> Seq<Seq<char>> {
    seq![
        "-c:v"@,
        "libvpx-vp9"@,
        "-quality"@,
        "realtime"@,
        "-cpu-used"@,
        dec_str(c.cpu_used as nat),
        "-tile-columns"@,
        "4"@,
        "-frame-parallel"@,
        "1"@,
        "-threads"@,
        dec_str(threads),
        "-static-thresh"@,
        "0"@,
        "-max-intra-rate"@,
        "300"@,
        "-lag-in-frames"@,
        "0"@,
        "-qmin"@,
        "4"@,
        "-qmax"@,
        "48"@,
        "-row-mt"@,
        "1"@,
        "-error-resilient"@,
        "1"@,
        "-r"@,
        dec_str(c.framerate as nat),
        "-crf"@,
        dec_str(c.crf as nat),
        "-b:v"@,
        c.video_bitrate@,
        "-s"@,
        c.video_resolution@,
        "-g"@,
        dec_str((2 * c.framerate) as nat),
    ]
}

/// The audio-encoder arguments: stereo at the configured bitrate and rate.
pub open spec fn dash_audio_args(c: Ffmpeg) -> Seq<Seq<char>> {
    seq![
        "-c:a"@,
        "libvorbis"@,
        "-b:a"@,
        c.audio_bitrate@,
        "-ar"@,
        c.audio_sample_rate@,
        "-ac"@,
        "2"@,
    ]
}

/// The segmenter arguments: two-second segments, a rolling window of five
/// plus two retained, and explicit enumeration instead of a template so
/// clients never request segments that do not exist yet.
pub open spec fn dash_mux_args() -> Seq<Seq<char>> {
    seq![
        "-f"@,
        "dash"@,
        "-remove_at_exit"@,
        "1"@,
        "-dash_segment_type"@,
        "webm"@,
        "-window_size"@,
        "5"@,
        "-extra_window_size"@,
        "2"@,
        "-utc_timing_url"@,
        "https://time.akamai.com/"@,
        "-use_template"@,
        "0"@,
        "-use_timeline"@,
        "0"@,
        "-seg_duration"@,
        "2"@,
        "-index_correction"@,
        "1"@,
        "-ignore_io_errors"@,
        "1"@,
        "stream.mpd"@,
    ]
}

/// The output arguments: the full encode-and-segment set for local
/// hosting, or a streaming-container push for a remote address.
pub open spec fn output_args(c: Ffmpeg, threads: nat) -> Seq<Seq<char>> {
    match c.output {
        FfmpegOutput::Dash { temp_dir_path: _ } => dash_video_args(c, threads) + dash_audio_args(c)
            + dash_mux_args(),
        FfmpegOutput::Rtmp { addr } => seq!["-f"@, "flv"@, rtmp_url(addr@)],
    }
}

/// The whole argument list for one configuration, working directory and
/// thread count.
pub open spec fn args_spec(c: Ffmpeg, cwd: Seq<char>, threads: nat) -> Seq<Seq<char>> {
    verbosity_args(c) + input_args(c, cwd) + subtitle_args(c, cwd) + output_args(c, threads)
}

/// The number of worker threads handed to the encoder.
///
/// Relies on `num_cpus::get`: the number of logical CPUs available to this
/// process, documented to be at least one.
#[verifier::external_body]
fn cpu_count() -> (n: usize)
    ensures
        n >= 1,
{
    num_cpus::get()
}

fn rtmp_url_string(addr: &String) -> (r: String)
    ensures
        r@ == rtmp_url(addr@),
{
    let s = String::from_str("rtmp://");
    let s = s.concat(addr.as_str());
    let r = s.concat("/stream/");
    proof {
        assert(r@ =~= rtmp_url(addr@));
    }
    r
}

impl Ffmpeg {
    /// The tuning ranges the encoder accepts.
    pub open spec fn wf(&self) -> bool {
        self.cpu_used <= 15 && self.crf <= 63
    }

    fn push_verbosity_args(&self, out: &mut Vec<String>)
        ensures
            final(out).deep_view() == old(out).deep_view() + verbosity_args(*self),
    {
        let ghost base = out.deep_view();
        if !self.verbose {
            out.push("-hide_banner".to_owned());
            out.push("-loglevel".to_owned());
            out.push("warning".to_owned());
            out.push("-stats".to_owned());
        }
        proof {
            assert(out.deep_view() =~~= base + verbosity_args(*self));
        }
    }

    fn push_input_args(&self, cwd: &str, out: &mut Vec<String>)
        ensures
            final(out).deep_view() == old(out).deep_view() + input_args(*self, cwd@),
    {
        let ghost base = out.deep_view();
        match &self.input {
            FfmpegInput::Rtmp { addr } => {
                out.push("-listen".to_owned());
                out.push("1".to_owned());
                out.push("-i".to_owned());
                out.push(rtmp_url_string(addr));
            },
            FfmpegInput::File { path, seek } => {
                out.push("-re".to_owned());
                if let Some(d) = seek {
                    out.push("-ss".to_owned());
                    out.push(d.to_secs_string());
                }
                out.push("-i".to_owned());
                out.push(get_absolute_path(path.as_str(), cwd));
            },
        }
        proof {
            assert(out.deep_view() =~~= base + input_args(*self, cwd@));
        }
    }

    fn push_subtitle_args(&self, cwd: &str, out: &mut Vec<String>)
        ensures
            final(out).deep_view() == old(out).deep_view() + subtitle_args(*self, cwd@),
    {
        let ghost base = out.deep_view();
        if let Some(p) = &self.subtitles_path {
            let ap = get_absolute_path(p.as_str(), cwd);
            let esc = escape_filter_path(ap.as_str());
            let seek: Option<DurationMs> = match &self.input {
                FfmpegInput::File { path: _, seek } => *seek,
                FfmpegInput::Rtmp { addr: _ } => None,
            };
            out.push("-vf".to_owned());
            match seek {
                Some(d) => {
                    let s = String::from_str("setpts=PTS+");
                    let secs = d.to_secs_string();
                    let s = s.concat(secs.as_str());
                    let s = s.concat("/TB,subtitles=filename=");
                    let s = s.concat(esc.as_str());
                    let s = s.concat(",setpts=PTS-STARTPTS");
                    proof {
                        assert(s@ =~= "setpts=PTS+"@ + secs_str(d.millis)
                            + "/TB,subtitles=filename="@ + escaped(abs_path(p@, cwd@))
                            + ",setpts=PTS-STARTPTS"@);
                    }
                    out.push(s);
                },
                None => {
                    let s = String::from_str("subtitles=filename=");
                    let s = s.concat(esc.as_str());
                    out.push(s);
                },
            }
        }
        proof {
            assert(out.deep_view() =~~= base + subtitle_args(*self, cwd@));
        }
    }

    fn push_dash_video_args(&self, threads: usize, out: &mut Vec<String>)
        ensures
            final(out).deep_view() == old(out).deep_view() + dash_video_args(
                *self,
                threads as nat,
            ),
    {
        let ghost base = out.deep_view();
        out.push("-c:v".to_owned());
        out.push("libvpx-vp9".to_owned());
        out.push("-quality".to_owned());
        out.push("realtime".to_owned());
        out.push("-cpu-used".to_owned());
        out.push(u64_to_string(self.cpu_used as u64));
        out.push("-tile-columns".to_owned());
        out.push("4".to_owned());
        out.push("-frame-parallel".to_owned());
        out.push("1".to_owned());
        out.push("-threads".to_owned());
        out.push(u64_to_string(threads as u64));
        out.push("-static-thresh".to_owned());
        out.push("0".to_owned());
        out.push("-max-intra-rate".to_owned());
        out.push("300".to_owned());
        out.push("-lag-in-frames".to_owned());
        out.push("0".to_owned());
        out.push("-qmin".to_owned());
        out.push("4".to_owned());
        out.push("-qmax".to_owned());
        out.push("48".to_owned());
        out.push("-row-mt".to_owned());
        out.push("1".to_owned());
        out.push("-error-resilient".to_owned());
        out.push("1".to_owned());
        out.push("-r".to_owned());
        out.push(u64_to_string(self.framerate as u64));
        out.push("-crf".to_owned());
        out.push(u64_to_string(self.crf as u64));
        out.push("-b:v".to_owned());
        out.push(self.video_bitrate.clone());
        out.push("-s".to_owned());
        out.push(self.video_resolution.clone());
        out.push("-g".to_owned());
        out.push(u64_to_string(2 * (self.framerate as u64)));
        proof {
            assert(out.deep_view() =~~= base + dash_video_args(*self, threads as nat));
        }
    }

    fn push_dash_audio_args(&self, out: &mut Vec<String>)
        ensures
            final(out).deep_view() == old(out).deep_view() + dash_audio_args(*self),
    {
        let ghost base = out.deep_view();
        out.push("-c:a".to_owned());
        out.push("libvorbis".to_owned());
        out.push("-b:a".to_owned());
        out.push(self.audio_bitrate.clone());
        out.push("-ar".to_owned());
        out.push(self.audio_sample_rate.clone());
        out.push("-ac".to_owned());
        out.push("2".to_owned());
        proof {
            assert(out.deep_view() =~~= base + dash_audio_args(*self));
        }
    }

    fn push_dash_mux_args(&self, out: &mut Vec<String>)
        ensures
            final(out).deep_view() == old(out).deep_view() + dash_mux_args(),
    {
        let ghost base = out.deep_view();
        out.push("-f".to_owned());
        out.push("dash".to_owned());
        out.push("-remove_at_exit".to_owned());
        out.push("1".to_owned());
        out.push("-dash_segment_type".to_owned());
        out.push("webm".to_owned());
        out.push("-window_size".to_owned());
        out.push("5".to_owned());
        out.push("-extra_window_size".to_owned());
        out.push("2".to_owned());
        out.push("-utc_timing_url".to_owned());
        out.push("https://time.akamai.com/".to_owned());
        out.push("-use_template".to_owned());
        out.push("0".to_owned());
        out.push("-use_timeline".to_owned());
        out.push("0".to_owned());
        out.push("-seg_duration".to_owned());
        out.push("2".to_owned());
        out.push("-index_correction".to_owned());
        out.push("1".to_owned());
        out.push("-ignore_io_errors".to_owned());
        out.push("1".to_owned());
        out.push("stream.mpd".to_owned());
        proof {
            assert(out.deep_view() =~~= base + dash_mux_args());
        }
    }

    fn push_output_args(&self, threads: usize, out: &mut Vec<String>)
        ensures
            final(out).deep_view() == old(out).deep_view() + output_args(*self, threads as nat),
    {
        let ghost base = out.deep_view();
        match &self.output {
            FfmpegOutput::Dash { temp_dir_path: _ } => {
                self.push_dash_video_args(threads, out);
                self.push_dash_audio_args(out);
                self.push_dash_mux_args(out);
            },
            FfmpegOutput::Rtmp { addr } => {
                out.push("-f".to_owned());
                out.push("flv".to_owned());
                out.push(rtmp_url_string(addr));
            },
        }
        proof {
            assert(out.deep_view() =~~= base + output_args(*self, threads as nat));
        }
    }

    /// Builds the ordered argument list for this configuration: a pure
    /// construction, so equal configurations give equal argument lists.
    pub fn build_args(&self, cwd: &str, threads: usize) -> (args: Vec<String>)
        requires
            self.wf(),
        ensures
            args.deep_view() == args_spec(*self, cwd@, threads as nat),
    {
        let mut args: Vec<String> = Vec::new();
        self.push_verbosity_args(&mut args);
        self.push_input_args(cwd, &mut args);
        self.push_subtitle_args(cwd, &mut args);
        self.push_output_args(threads, &mut args);
        proof {
            assert(args.deep_view() =~~= args_spec(*self, cwd@, threads as nat));
        }
        args
    }

    /// Builds the argument list with the thread count taken from the
    /// machine's logical CPUs.
    pub fn command_args(&self, cwd: &str) -> (args: Vec<String>)
        requires
            self.wf(),
        ensures
            exists|t: nat| t >= 1 && args.deep_view() == args_spec(*self, cwd@, t),
    {
        let threads = cpu_count();
        let args = self.build_args(cwd, threads);
        proof {
            assert(threads as nat >= 1 && args.deep_view() == args_spec(
                *self,
                cwd@,
                threads as nat,
            ));
        }
        args
    }

    /// The directory the external process must run in: the segment
    /// directory when hosting locally, none when pushing to a remote.
    pub fn working_directory(&self) -> (r: Option<&String>)
        ensures
            r is Some <==> self.output is Dash,
            r matches Some(p) ==> Some(p@) == spec_working_directory(*self),
    {
        match &self.output {
            FfmpegOutput::Dash { temp_dir_path } => Some(temp_dir_path),
            FfmpegOutput::Rtmp { addr: _ } => None,
        }
    }
}

/// The working directory an output variant calls for.
pub open spec fn spec_working_directory(c: Ffmpeg) -> Option<Seq<char>> {
    match c.output {
        FfmpegOutput::Dash { temp_dir_path } => Some(temp_dir_path@),
        FfmpegOutput::Rtmp { addr: _ } => None,
    }
}

/// Law: the command builder is deterministic. A configuration, working
/// directory and thread count determine the argument list exactly, so two
/// builds from identical inputs agree element for element.
pub proof fn lemma_command_builder_deterministic(
    c: Ffmpeg,
    cwd: Seq<char>,
    threads: nat,
    a: Seq<Seq<char>>,
    b: Seq<Seq<char>>,
)
    requires
        a == args_spec(c, cwd, threads),
        b == args_spec(c, cwd, threads),
    ensures
        a == b,
{
}

} // verus!
