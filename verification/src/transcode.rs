use vstd::prelude::*;

verus! {

#[verifier::external_type_specification]
#[verifier::external_body]
pub struct ExIoError(std::io::Error);

/// Why a transcode or a deletion failed.
#[derive(Debug)]
pub enum TranscodeError {
    /// The file system or the process launch failed.
    Io(std::io::Error),
    /// ffmpeg ran and exited with this code (-1 where it had none).
    FfmpegFailed(i32),
}

/// The failure of an ffmpeg run that exited with `code`, or was ended by a
/// signal (`None`).
pub fn ffmpeg_failure(code: Option<i32>) -> (e: TranscodeError)
    ensures
        e matches TranscodeError::FfmpegFailed(c) && c == match code {
            Some(c) => c,
            None => -1i32,
        },
{
    TranscodeError::FfmpegFailed(
        match code {
            Some(c) => c,
            None => -1,
        },
    )
}

/// The directory, below the storage path, of the high-quality outputs.
pub open spec fn hq_dir() -> Seq<char> {
    "hq"@
}

/// The directory, below the storage path, of the standard-quality outputs.
pub open spec fn sq_dir() -> Seq<char> {
    "sq"@
}

/// The name of the high-quality output directory.
pub fn hq_dir_name() -> (s: &'static str)
    ensures
        s@ == hq_dir(),
{
    "hq"
}

/// The name of the standard-quality output directory.
pub fn sq_dir_name() -> (s: &'static str)
    ensures
        s@ == sq_dir(),
{
    "sq"
}

/// The output file name of an upload: its name with `.ogg` added.
pub fn ogg_name(filename: &str) -> (name: String)
    ensures
        name@ == filename@ + ".ogg"@,
{
    let mut name = String::from_str(filename);
    name.append(".ogg");
    name
}

/// The options of one Opus output at the given bitrate.
pub open spec fn opus_output(bitrate: Seq<char>, path: Seq<char>) -> Seq<Seq<char>> {
    seq![
        "-map"@,
        "0:a:0"@,
        "-c:a"@,
        "libopus"@,
        "-b:a"@,
        bitrate,
        "-vbr"@,
        "on"@,
        "-compression_level"@,
        "10"@,
        "-application"@,
        "audio"@,
        path,
    ]
}

/// The ffmpeg command line that transcodes `input` in one run to Opus at
/// 256 kbit/s (`hq`) and at 128 kbit/s (`sq`), overwriting either output.
pub open spec fn ffmpeg_command(input: Seq<char>, hq: Seq<char>, sq: Seq<char>) -> Seq<Seq<char>> {
    seq!["-y"@, "-i"@, input] + opus_output("256k"@, hq) + opus_output("128k"@, sq)
}

/// The ffprobe command line that prints only the duration of `path`, in
/// seconds.
pub open spec fn ffprobe_command(path: Seq<char>) -> Seq<Seq<char>> {
    seq!["-v"@, "quiet"@, "-show_entries"@, "format=duration"@, "-of"@, "csv=p=0"@, path]
}

/// The views of a list of strings.
pub open spec fn arg_views(v: Seq<String>) -> Seq<Seq<char>> {
    v.map_values(|s: String| s@)
}

fn push_arg(args: &mut Vec<String>, a: &str)
    ensures
        arg_views(final(args)@) == arg_views(old(args)@).push(a@),
{
    args.push(String::from_str(a));
    proof {
        assert(arg_views(args@) =~= arg_views(old(args)@).push(a@));
    }
}

fn push_opus_output(args: &mut Vec<String>, bitrate: &str, path: &str)
    ensures
        arg_views(final(args)@) == arg_views(old(args)@) + opus_output(bitrate@, path@),
{
    let ghost start = arg_views(args@);
    push_arg(args, "-map");
    push_arg(args, "0:a:0");
    push_arg(args, "-c:a");
    push_arg(args, "libopus");
    push_arg(args, "-b:a");
    push_arg(args, bitrate);
    push_arg(args, "-vbr");
    push_arg(args, "on");
    push_arg(args, "-compression_level");
    push_arg(args, "10");
    push_arg(args, "-application");
    push_arg(args, "audio");
    push_arg(args, path);
    proof {
        assert(arg_views(args@) =~= start + opus_output(bitrate@, path@));
    }
}

/// The arguments of the ffmpeg run of a transcode.
pub fn ffmpeg_args(input: &str, hq: &str, sq: &str) -> (args: Vec<String>)
    ensures
        arg_views(args@) == ffmpeg_command(input@, hq@, sq@),
{
    let mut args: Vec<String> = Vec::new();
    push_arg(&mut args, "-y");
    push_arg(&mut args, "-i");
    push_arg(&mut args, input);
    let ghost head = arg_views(args@);
    push_opus_output(&mut args, "256k", hq);
    push_opus_output(&mut args, "128k", sq);
    proof {
        assert(head =~= seq!["-y"@, "-i"@, input@]);
        assert(arg_views(args@) =~= ffmpeg_command(input@, hq@, sq@));
    }
    args
}

/// The arguments of the ffprobe run that measures an upload's duration.
pub fn ffprobe_args(path: &str) -> (args: Vec<String>)
    ensures
        arg_views(args@) == ffprobe_command(path@),
{
    let mut args: Vec<String> = Vec::new();
    push_arg(&mut args, "-v");
    push_arg(&mut args, "quiet");
    push_arg(&mut args, "-show_entries");
    push_arg(&mut args, "format=duration");
    push_arg(&mut args, "-of");
    push_arg(&mut args, "csv=p=0");
    push_arg(&mut args, path);
    proof {
        assert(arg_views(args@) =~= ffprobe_command(path@));
    }
    args
}

} // verus!
