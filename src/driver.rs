//! What is handed to the fetch tool and the transcoder: argument lists and paths.
use vstd::prelude::*;
use crate::size::min_u64;
use crate::planner::EncodePlan;
use crate::tasks::DownloadTask;
use crate::text::{trim, trim_str, views};

verus! {

/// Where the credentials file is looked for.
pub fn cookies_path() -> (r: &'static str)
    ensures
        r@ == "/dl/cookies.txt"@,
{
    "/dl/cookies.txt"
}

/// Decimal digits of `n`, most significant first.
pub open spec fn decimal(n: nat) -> Seq<char>
    decreases n,
{
    if n < 10 {
        seq!["0123456789"@[n as int]]
    } else {
        decimal(n / 10).push("0123456789"@[(n % 10) as int])
    }
}

/// The decimal text of `n`.
pub fn decimal_string(n: u64) -> (r: String)
    ensures
        r@ == decimal(n as nat),
    decreases n,
{
    proof {
        reveal_strlit("0123456789");
    }
    if n < 10 {
        let d = n as usize;
        String::from_str("0123456789".substring_char(d, d + 1))
    } else {
        let mut r = decimal_string(n / 10);
        let d = (n % 10) as usize;
        r.append("0123456789".substring_char(d, d + 1));
        assert(r@ =~= decimal(n as nat));
        r
    }
}

pub(crate) fn push_str(v: &mut Vec<String>, s: &str)
    ensures
        views(final(v)@) == views(old(v)@).push(s@),
{
    v.push(String::from_str(s));
    assert(views(final(v)@) =~= views(old(v)@).push(s@));
}

pub(crate) fn push_string(v: &mut Vec<String>, s: String)
    ensures
        views(final(v)@) == views(old(v)@).push(s@),
{
    v.push(s);
    assert(views(final(v)@) =~= views(old(v)@).push(s@));
}

/// Options shared by both fetch phases: the credentials file where it is
/// present, the second-factor code where there is one, then the URL.
pub open spec fn fetch_tail(t: crate::tasks::TaskView, use_cookies: bool) -> Seq<Seq<char>> {
    (if use_cookies {
        seq!["--cookies"@, "/dl/cookies.txt"@]
    } else {
        Seq::empty()
    }) + (match t.twofa {
        Some(c) => seq!["--twofactor"@, c],
        None => Seq::empty(),
    }) + seq![t.url]
}

fn push_tail(v: &mut Vec<String>, task: &DownloadTask, use_cookies: bool)
    ensures
        views(final(v)@) == views(old(v)@) + fetch_tail(task@, use_cookies),
{
    let ghost start = views(v@);
    if use_cookies {
        push_str(v, "--cookies");
        push_str(v, cookies_path());
    }
    let ghost mid = views(v@);
    match &task.twofa {
        Some(c) => {
            push_str(v, "--twofactor");
            push_str(v, c.as_str());
        },
        None => {},
    }
    push_str(v, task.url.as_str());
    assert(views(v@) =~= start + fetch_tail(task@, use_cookies));
}

/// Arguments of the metadata probe: print the intended file name, fetch nothing.
pub open spec fn metadata_args_spec(t: crate::tasks::TaskView, use_cookies: bool) -> Seq<Seq<char>> {
    seq!["--skip-download"@, "--print"@, "filename"@, "-o"@, "%(title)s"@, "--restrict-filenames"@]
        + fetch_tail(t, use_cookies)
}

pub fn metadata_args(task: &DownloadTask, use_cookies: bool) -> (r: Vec<String>)
    ensures
        views(r@) == metadata_args_spec(task@, use_cookies),
{
    let mut v: Vec<String> = Vec::new();
    push_str(&mut v, "--skip-download");
    push_str(&mut v, "--print");
    push_str(&mut v, "filename");
    push_str(&mut v, "-o");
    push_str(&mut v, "%(title)s");
    push_str(&mut v, "--restrict-filenames");
    let ghost head = views(v@);
    assert(head =~= seq!["--skip-download"@, "--print"@, "filename"@, "-o"@, "%(title)s"@, "--restrict-filenames"@]);
    push_tail(&mut v, task, use_cookies);
    v
}

/// Arguments of the full fetch: remux into one mp4 at `output`.
pub open spec fn fetch_args_spec(t: crate::tasks::TaskView, use_cookies: bool, output: Seq<char>) -> Seq<Seq<char>> {
    seq!["--remux"@, "mp4"@, "--merge-output-format"@, "mp4"@, "-o"@, output] + fetch_tail(t, use_cookies)
}

pub fn fetch_args(task: &DownloadTask, use_cookies: bool, output: &str) -> (r: Vec<String>)
    ensures
        views(r@) == fetch_args_spec(task@, use_cookies, output@),
{
    let mut v: Vec<String> = Vec::new();
    push_str(&mut v, "--remux");
    push_str(&mut v, "mp4");
    push_str(&mut v, "--merge-output-format");
    push_str(&mut v, "mp4");
    push_str(&mut v, "-o");
    push_str(&mut v, output);
    assert(views(v@) =~= seq!["--remux"@, "mp4"@, "--merge-output-format"@, "mp4"@, "-o"@, output@]);
    push_tail(&mut v, task, use_cookies);
    v
}

/// The file name that the metadata probe printed: its output without
/// surrounding whitespace, or `None` where that is empty.
pub fn filename_from_metadata(out: &str) -> (r: Option<String>)
    ensures
        trim(out@).len() == 0 ==> r is None,
        trim(out@).len() > 0 ==> r is Some && r->Some_0@ == trim(out@),
{
    let t = trim_str(out);
    if t.unicode_len() == 0 {
        None
    } else {
        Some(t)
    }
}

/// Where a download of the file named `name` is stored.
pub fn output_path(name: &str) -> (r: String)
    ensures
        r@ == "/dl/"@ + name@ + ".mp4"@,
{
    String::from_str("/dl/").concat(name).concat(".mp4")
}

/// The transcoder's output file: a sibling named after the input and the size string.
pub fn temp_output_path(input: &str, size: &str) -> (r: String)
    ensures
        r@ == input@ + "."@ + size@ + ".tmp.mp4"@,
{
    String::from_str(input).concat(".").concat(size).concat(".tmp.mp4")
}

/// Arguments of the transcoder: H.264 video at the planned bitrate, capped at
/// it, with a buffer of twice that, and AAC audio at the planned bitrate.
pub open spec fn transcode_args_spec(input: Seq<char>, p: EncodePlan, output: Seq<char>) -> Seq<Seq<char>> {
    seq![
        "-loglevel"@, "error"@, "-y"@, "-i"@, input,
        "-c:v"@, "libx264"@, "-b:v"@, decimal(p.video_bps as nat),
        "-maxrate:v"@, decimal(p.video_bps as nat), "-bufsize:v"@, decimal(min_u64(2 * p.video_bps as nat)),
        "-c:a"@, "aac"@, "-b:a"@, decimal(p.audio_bps as nat), output,
    ]
}

pub fn transcode_args(input: &str, plan: &EncodePlan, output: &str) -> (r: Vec<String>)
    ensures
        views(r@) == transcode_args_spec(input@, *plan, output@),
{
    let mut v: Vec<String> = Vec::new();
    push_str(&mut v, "-loglevel");
    push_str(&mut v, "error");
    push_str(&mut v, "-y");
    push_str(&mut v, "-i");
    push_str(&mut v, input);
    push_str(&mut v, "-c:v");
    push_str(&mut v, "libx264");
    push_str(&mut v, "-b:v");
    push_string(&mut v, decimal_string(plan.video_bps));
    push_str(&mut v, "-maxrate:v");
    push_string(&mut v, decimal_string(plan.video_bps));
    push_str(&mut v, "-bufsize:v");
    push_string(&mut v, decimal_string(plan.buffer_bits()));
    push_str(&mut v, "-c:a");
    push_str(&mut v, "aac");
    push_str(&mut v, "-b:a");
    push_string(&mut v, decimal_string(plan.audio_bps));
    push_str(&mut v, output);
    assert(views(v@) =~= transcode_args_spec(input@, *plan, output@));
    v
}


/// Arguments of the probe that prints the duration in seconds, and nothing else.
pub open spec fn duration_probe_args_spec(input: Seq<char>) -> Seq<Seq<char>> {
    seq!["-v"@, "error"@, "-show_entries"@, "format=duration"@, "-of"@, "default=noprint_wrappers=1:nokey=1"@, input]
}

pub fn duration_probe_args(input: &str) -> (r: Vec<String>)
    ensures
        views(r@) == duration_probe_args_spec(input@),
{
    let mut v: Vec<String> = Vec::new();
    push_str(&mut v, "-v");
    push_str(&mut v, "error");
    push_str(&mut v, "-show_entries");
    push_str(&mut v, "format=duration");
    push_str(&mut v, "-of");
    push_str(&mut v, "default=noprint_wrappers=1:nokey=1");
    push_str(&mut v, input);
    assert(views(v@) =~= duration_probe_args_spec(input@));
    v
}

/// Arguments of the probe that prints the first audio stream's bitrate, and nothing else.
pub open spec fn audio_probe_args_spec(input: Seq<char>) -> Seq<Seq<char>> {
    seq![
        "-v"@, "error"@, "-select_streams"@, "a:0"@, "-show_entries"@, "stream=bit_rate"@, "-of"@,
        "default=noprint_wrappers=1:nokey=1"@, input,
    ]
}

pub fn audio_probe_args(input: &str) -> (r: Vec<String>)
    ensures
        views(r@) == audio_probe_args_spec(input@),
{
    let mut v: Vec<String> = Vec::new();
    push_str(&mut v, "-v");
    push_str(&mut v, "error");
    push_str(&mut v, "-select_streams");
    push_str(&mut v, "a:0");
    push_str(&mut v, "-show_entries");
    push_str(&mut v, "stream=bit_rate");
    push_str(&mut v, "-of");
    push_str(&mut v, "default=noprint_wrappers=1:nokey=1");
    push_str(&mut v, input);
    assert(views(v@) =~= audio_probe_args_spec(input@));
    v
}

/// The name that a processed batch file is renamed to, after the time of processing.
pub fn processed_batch_path(epoch_seconds: u64) -> (r: String)
    ensures
        r@ == "/dl/urls_"@ + decimal(epoch_seconds as nat) + ".txt"@,
{
    String::from_str("/dl/urls_").concat(decimal_string(epoch_seconds).as_str()).concat(".txt")
}

/// How a download ended.
#[derive(Debug, PartialEq, Eq)]
pub enum FetchOutcome {
    /// The metadata probe could not run or failed.
    MetadataFailed,
    /// The metadata probe printed no file name.
    EmptyName,
    /// The file is already there: nothing was fetched.
    AlreadyPresent { path: String },
    /// The file was fetched.
    Fetched { path: String },
    /// The fetch could not run or failed.
    FetchFailed,
}

#[derive(Debug, PartialEq, Eq)]
pub enum FetchState {
    AwaitMetadata,
    AwaitExists { path: String },
    AwaitFetch { path: String },
    Finished { outcome: FetchOutcome },
}

/// What the caller does next.
#[derive(Debug, PartialEq, Eq)]
pub enum FetchAction {
    /// Run the fetch tool with these arguments and hand back what it printed.
    ProbeMetadata(Vec<String>),
    /// Tell whether this path exists.
    CheckExists(String),
    /// Run the fetch tool with these arguments and hand back whether it succeeded.
    Fetch(Vec<String>),
    Stop,
}

/// What the last action gave back.
#[derive(Debug, PartialEq, Eq)]
pub enum FetchEvent {
    /// What the metadata probe printed, or `None` where it could not run or failed.
    MetadataProbed(Option<String>),
    PathExists(bool),
    FetchExited(bool),
}

/// The download path for what the metadata probe printed.
pub open spec fn download_path(out: Seq<char>) -> Seq<char> {
    "/dl/"@ + trim(out) + ".mp4"@
}

/// The first state and action of a download.
pub fn fetch_start(task: &DownloadTask, use_cookies: bool) -> (r: (FetchState, FetchAction))
    ensures
        r.0 == FetchState::AwaitMetadata,
        r.1 is ProbeMetadata && views(r.1->ProbeMetadata_0@) == metadata_args_spec(task@, use_cookies),
{
    (FetchState::AwaitMetadata, FetchAction::ProbeMetadata(metadata_args(task, use_cookies)))
}

/// One step of a download. An event that does not answer the state's request
/// keeps the state and asks for nothing.
pub fn fetch_step(task: &DownloadTask, use_cookies: bool, s: FetchState, e: &FetchEvent) -> (r: (FetchState, FetchAction))
    ensures
        (s is AwaitMetadata && *e == FetchEvent::MetadataProbed(None)) ==> r == (
        FetchState::Finished { outcome: FetchOutcome::MetadataFailed }, FetchAction::Stop),
        (s is AwaitMetadata && e is MetadataProbed && e->MetadataProbed_0 is Some) ==> ({
            let out = e->MetadataProbed_0->Some_0@;
            if trim(out).len() == 0 {
                r == (FetchState::Finished { outcome: FetchOutcome::EmptyName }, FetchAction::Stop)
            } else {
                r.0 is AwaitExists && r.0->AwaitExists_path@ == download_path(out) && r.1 is CheckExists
                    && r.1->CheckExists_0@ == download_path(out)
            }
        }),
        (s is AwaitExists && *e == FetchEvent::PathExists(true)) ==> r == (
        FetchState::Finished { outcome: FetchOutcome::AlreadyPresent { path: s->AwaitExists_path } },
        FetchAction::Stop),
        (s is AwaitExists && *e == FetchEvent::PathExists(false)) ==> (r.0 == FetchState::AwaitFetch {
            path: s->AwaitExists_path,
        } && r.1 is Fetch && views(r.1->Fetch_0@) == fetch_args_spec(task@, use_cookies, s->AwaitExists_path@)),
        (s is AwaitFetch && *e == FetchEvent::FetchExited(true)) ==> r == (
        FetchState::Finished { outcome: FetchOutcome::Fetched { path: s->AwaitFetch_path } }, FetchAction::Stop),
        (s is AwaitFetch && *e == FetchEvent::FetchExited(false)) ==> r == (
        FetchState::Finished { outcome: FetchOutcome::FetchFailed }, FetchAction::Stop),
        !((s is AwaitMetadata && e is MetadataProbed) || (s is AwaitExists && e is PathExists) || (
        s is AwaitFetch && e is FetchExited)) ==> r == (s, FetchAction::Stop),
{
    match (s, e) {
        (FetchState::AwaitMetadata, FetchEvent::MetadataProbed(out)) => match out {
            None => (FetchState::Finished { outcome: FetchOutcome::MetadataFailed }, FetchAction::Stop),
            Some(text) => match filename_from_metadata(text.as_str()) {
                None => (FetchState::Finished { outcome: FetchOutcome::EmptyName }, FetchAction::Stop),
                Some(name) => {
                    let path = output_path(name.as_str());
                    let check = path.clone();
                    (FetchState::AwaitExists { path }, FetchAction::CheckExists(check))
                },
            },
        },
        (FetchState::AwaitExists { path }, FetchEvent::PathExists(exists)) => if *exists {
            (FetchState::Finished { outcome: FetchOutcome::AlreadyPresent { path } }, FetchAction::Stop)
        } else {
            let args = fetch_args(task, use_cookies, path.as_str());
            (FetchState::AwaitFetch { path }, FetchAction::Fetch(args))
        },
        (FetchState::AwaitFetch { path }, FetchEvent::FetchExited(ok)) => if *ok {
            (FetchState::Finished { outcome: FetchOutcome::Fetched { path } }, FetchAction::Stop)
        } else {
            (FetchState::Finished { outcome: FetchOutcome::FetchFailed }, FetchAction::Stop)
        },
        (s, _) => (s, FetchAction::Stop),
    }
}

/// What a finished download hands to the re-encoder: the local file and the
/// size string, only where the file is there and the task carries a size.
pub fn reencode_request(task: &DownloadTask, outcome: &FetchOutcome) -> (r: Option<(String, String)>)
    ensures
        r is Some <==> (task.size is Some && (outcome is AlreadyPresent || outcome is Fetched)),
        r is Some ==> r->Some_0.1@ == task.size->Some_0@ && (if outcome is AlreadyPresent {
            r->Some_0.0@ == outcome->AlreadyPresent_path@
        } else {
            r->Some_0.0@ == outcome->Fetched_path@
        }),
{
    match &task.size {
        None => None,
        Some(size) => match outcome {
            FetchOutcome::AlreadyPresent { path } => Some((path.clone(), size.clone())),
            FetchOutcome::Fetched { path } => Some((path.clone(), size.clone())),
            _ => None,
        },
    }
}

} // verus!
