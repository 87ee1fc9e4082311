//! Voice capture and transcription: the decisions of the audio session, which
//! samples are resampled, and how the transcript is assembled from the
//! recogniser's segments.
//!
//! Times are nanoseconds on a monotonic clock.
use vstd::prelude::*;
use crate::errors::AppError;
use crate::text::{
    trimmed, remove_all, trim, remove_all_str, lemma_trimmed, is_white_space,
};

verus! {

/// The sample rate the recogniser expects.
pub const WHISPER_SAMPLE_RATE: u32 = 16000;

/// The hard cap on a recording (60 seconds): samples that arrive later are
/// dropped.
pub const MAX_DURATION_NANOS: u64 = 60_000_000_000;

/// The number of samples the resampler takes at once.
pub const RESAMPLE_CHUNK: usize = 1024;

/// The fewest samples a last, partial chunk must hold to be resampled.
pub const MIN_PARTIAL_CHUNK: usize = 64;

/// The marker the recogniser puts where it heard nothing.
pub const BLANK_AUDIO_MARKER: &'static str = "[BLANK_AUDIO]";

/// A request to the audio session.
#[derive(PartialEq, Eq, Structural, Clone, Copy, Debug)]
pub enum AudioCommand {
    Start,
    Stop,
    Cancel,
}

/// What the audio session asks its driver to do for a command.
#[derive(PartialEq, Eq, Structural, Clone, Copy, Debug)]
pub enum AudioAction {
    /// Clear the sample buffers, then open and start an input stream.
    OpenStream,
    /// Close the stream and transcribe the captured samples, taking them to
    /// have been captured at `sample_rate`. When `captured` is false no stream
    /// has run since the buffer was last emptied, so there is nothing to take
    /// and the transcription gets no samples.
    Transcribe { sample_rate: u32, captured: bool },
    /// Close the stream and throw the captured samples away.
    Discard,
}

/// The state of the audio session between commands.
#[derive(PartialEq, Eq, Structural, Clone, Copy, Debug)]
pub struct AudioSession {
    /// An input stream is open and capturing.
    pub stream_active: bool,
    /// The sample rate of the device last configured.
    pub device_sample_rate: u32,
    /// When the current recording started.
    pub recording_start: Option<u64>,
    /// A stream has run since the sample buffer was last emptied, so it may
    /// hold samples.
    pub buffer_may_hold_samples: bool,
}

/// The session and action after a command.
pub open spec fn next_session(s: AudioSession, cmd: AudioCommand) -> (AudioSession, AudioAction) {
    match cmd {
        AudioCommand::Start => (
            AudioSession { stream_active: false, buffer_may_hold_samples: false, ..s },
            AudioAction::OpenStream,
        ),
        AudioCommand::Stop => (
            AudioSession {
                stream_active: false,
                recording_start: None,
                buffer_may_hold_samples: false,
                ..s
            },
            AudioAction::Transcribe {
                sample_rate: s.device_sample_rate,
                captured: s.buffer_may_hold_samples,
            },
        ),
        AudioCommand::Cancel => (
            AudioSession {
                stream_active: false,
                recording_start: None,
                buffer_may_hold_samples: false,
                ..s
            },
            AudioAction::Discard,
        ),
    }
}

impl AudioSession {
    /// A session with no stream and no device configured yet.
    pub fn new() -> (s: Self)
        ensures
            !s.stream_active,
            s.device_sample_rate == 0,
            s.recording_start is None,
            !s.buffer_may_hold_samples,
    {
        AudioSession {
            stream_active: false,
            device_sample_rate: 0,
            recording_start: None,
            buffer_may_hold_samples: false,
        }
    }

    /// Takes a command and says what the driver must do for it; every command
    /// first closes any open stream, and every command empties the sample
    /// buffer (Start and Cancel clear it, Stop takes it).
    pub fn handle_command(&mut self, cmd: AudioCommand) -> (a: AudioAction)
        ensures
            (*final(self), a) == next_session(*old(self), cmd),
    {
        match cmd {
            AudioCommand::Start => {
                self.stream_active = false;
                self.buffer_may_hold_samples = false;
                AudioAction::OpenStream
            },
            AudioCommand::Stop => {
                let captured = self.buffer_may_hold_samples;
                self.stream_active = false;
                self.recording_start = None;
                self.buffer_may_hold_samples = false;
                AudioAction::Transcribe { sample_rate: self.device_sample_rate, captured }
            },
            AudioCommand::Cancel => {
                self.stream_active = false;
                self.recording_start = None;
                self.buffer_may_hold_samples = false;
                AudioAction::Discard
            },
        }
    }

    /// Records how opening the stream went at time `now`: `config` is the
    /// device's sample rate or the error in finding the device or its
    /// configuration, `stream` the outcome of building and starting the
    /// stream. The rate and start time are kept once the configuration is
    /// known, even when the stream then fails; only a stream that started
    /// can put samples in the buffer.
    pub fn stream_opened(
        &mut self,
        config: Result<u32, AppError>,
        stream: Result<(), AppError>,
        now: u64,
    ) -> (r: Result<(), AppError>)
        ensures
            match config {
                Err(e) => {
                    &&& *final(self) == *old(self)
                    &&& r matches Err(e2) && e2 == e
                },
                Ok(rate) => {
                    &&& final(self).device_sample_rate == rate
                    &&& final(self).recording_start == Some(now)
                    &&& final(self).stream_active == (stream is Ok)
                    &&& final(self).buffer_may_hold_samples == (old(self).buffer_may_hold_samples
                        || stream is Ok)
                    &&& match stream {
                        Ok(_) => r is Ok,
                        Err(e) => r matches Err(e2) && e2 == e,
                    }
                },
            },
    {
        match config {
            Err(e) => Err(e),
            Ok(rate) => {
                self.device_sample_rate = rate;
                self.recording_start = Some(now);
                match stream {
                    Ok(()) => {
                        self.stream_active = true;
                        self.buffer_may_hold_samples = true;
                        Ok(())
                    },
                    Err(e) => {
                        self.stream_active = false;
                        Err(e)
                    },
                }
            },
        }
    }
}

/// Samples arriving at `now` are kept: no recording start is known, or less
/// than the hard cap has passed since it.
pub open spec fn spec_within_recording_cap(start: Option<u64>, now: u64) -> bool {
    match start {
        None => true,
        Some(s) => !(now >= s && now - s >= MAX_DURATION_NANOS),
    }
}

/// Whether the stream keeps the samples that arrive at `now`, given the start
/// of the recording it was opened for.
pub fn within_recording_cap(start: Option<u64>, now: u64) -> (b: bool)
    ensures
        b == spec_within_recording_cap(start, now),
        start is None ==> b,
        start matches Some(s) && now >= s && now - s >= MAX_DURATION_NANOS ==> !b,
        start matches Some(s) && (now < s || now - s < MAX_DURATION_NANOS) ==> b,
{
    match start {
        None => true,
        Some(s) => !(now >= s && now - s >= MAX_DURATION_NANOS),
    }
}

/// Why captured samples are refused before transcription, if they are: none
/// at all is too short, and a capture under the loudness threshold is too
/// quiet.
pub open spec fn capture_rejection(sample_count: nat, too_quiet: bool) -> Option<AppError> {
    if sample_count == 0 {
        Some(AppError::AudioTooShort)
    } else if too_quiet {
        Some(AppError::AudioTooQuiet)
    } else {
        None
    }
}

/// Checks the captured samples before transcription: none at all is too
/// short, and a capture whose loudness is under the threshold is too quiet.
pub fn check_capture(sample_count: usize, too_quiet: bool) -> (r: Result<(), AppError>)
    ensures
        match capture_rejection(sample_count as nat, too_quiet) {
            Some(e) => r == Err::<(), AppError>(e),
            None => r is Ok,
        },
{
    if sample_count == 0 {
        return Err(AppError::AudioTooShort);
    }
    if too_quiet {
        return Err(AppError::AudioTooQuiet);
    }
    Ok(())
}

/// Whether audio captured at `sample_rate` must be resampled for the
/// recogniser.
pub fn needs_resampling(sample_rate: u32) -> (b: bool)
    ensures
        b == (sample_rate != WHISPER_SAMPLE_RATE),
{
    sample_rate != WHISPER_SAMPLE_RATE
}

/// The chunks of `n` samples that go through the resampler, as (start, length):
/// every full chunk in order, and the last partial chunk only when it holds at
/// least the minimum (it is then padded with silence).
pub open spec fn spec_resample_chunks(n: nat) -> Seq<(usize, usize)> {
    let full = n / RESAMPLE_CHUNK as nat;
    let partial = n % RESAMPLE_CHUNK as nat;
    let fulls = Seq::new(full, |k: int| ((k * RESAMPLE_CHUNK) as usize, RESAMPLE_CHUNK));
    if partial >= MIN_PARTIAL_CHUNK {
        fulls.push(((full * RESAMPLE_CHUNK) as usize, partial as usize))
    } else {
        fulls
    }
}

/// The chunks of an input of `n` samples that are resampled.
pub fn resample_chunks(n: usize) -> (out: Vec<(usize, usize)>)
    ensures
        out@ == spec_resample_chunks(n as nat),
        out.len() == n / RESAMPLE_CHUNK + if n % RESAMPLE_CHUNK >= MIN_PARTIAL_CHUNK { 1int } else { 0 },
        forall|k: int| 0 <= k < n / RESAMPLE_CHUNK ==> #[trigger] out@[k] == ((k * RESAMPLE_CHUNK) as usize, RESAMPLE_CHUNK),
        n % RESAMPLE_CHUNK >= MIN_PARTIAL_CHUNK ==> out@.last() == (((n / RESAMPLE_CHUNK) * RESAMPLE_CHUNK) as usize, n % RESAMPLE_CHUNK),
{
    proof {
        lemma_resample_chunks_cover(n as nat);
    }
    let full = n / RESAMPLE_CHUNK;
    let partial = n % RESAMPLE_CHUNK;
    let mut out: Vec<(usize, usize)> = Vec::new();
    let mut k: usize = 0;
    while k < full
        invariant
            full == n / RESAMPLE_CHUNK,
            k <= full,
            out@ =~= Seq::new(k as nat, |j: int| ((j * RESAMPLE_CHUNK) as usize, RESAMPLE_CHUNK)),
        decreases full - k,
    {
        assert(k * RESAMPLE_CHUNK <= n);
        out.push((k * RESAMPLE_CHUNK, RESAMPLE_CHUNK));
        k = k + 1;
    }
    if partial >= MIN_PARTIAL_CHUNK {
        assert(full * RESAMPLE_CHUNK <= n);
        out.push((full * RESAMPLE_CHUNK, partial));
    }
    out
}

/// Whether a failure to resample a chunk of `chunk_len` samples ends the
/// resampling with an error: it does for a full chunk, while a failure on the
/// padded last chunk only drops that chunk.
pub fn resample_failure_is_fatal(chunk_len: usize) -> (b: bool)
    ensures
        b == (chunk_len == RESAMPLE_CHUNK),
{
    chunk_len == RESAMPLE_CHUNK
}

/// A session in which no stream has run since the buffer was emptied.
pub open spec fn idle_buffer(s: AudioSession) -> bool {
    !s.buffer_may_hold_samples
}

/// A stop that follows a cancel or another stop, with no start between,
/// transcribes nothing: the action says no samples were captured, and a
/// capture of no samples is refused as too short.
pub proof fn lemma_stop_after_stop_or_cancel_is_too_short(s: AudioSession, first: AudioCommand, too_quiet: bool)
    requires
        first == AudioCommand::Stop || first == AudioCommand::Cancel,
    ensures
        next_session(next_session(s, first).0, AudioCommand::Stop).1 == (AudioAction::Transcribe {
            sample_rate: s.device_sample_rate,
            captured: false,
        }),
        capture_rejection(0, too_quiet) == Some(AppError::AudioTooShort),
{
}

/// The session after a run of commands, with no stream opened in between.
pub open spec fn run_commands(s: AudioSession, cmds: Seq<AudioCommand>) -> AudioSession
    decreases cmds.len(),
{
    if cmds.len() == 0 {
        s
    } else {
        next_session(run_commands(s, cmds.drop_last()), cmds.last()).0
    }
}

/// Only an opened stream fills the buffer: from a session whose buffer holds
/// nothing (a new one, or one just stopped or cancelled), any run of commands
/// with no stream opened leaves it so, and a stop at its end transcribes
/// nothing, which is refused as too short.
pub proof fn lemma_no_samples_without_stream(s: AudioSession, cmds: Seq<AudioCommand>, too_quiet: bool)
    requires
        idle_buffer(s),
    ensures
        idle_buffer(run_commands(s, cmds)),
        next_session(run_commands(s, cmds), AudioCommand::Stop).1 matches AudioAction::Transcribe {
            captured,
            ..
        } && !captured,
        capture_rejection(0, too_quiet) == Some(AppError::AudioTooShort),
    decreases cmds.len(),
{
    if cmds.len() > 0 {
        lemma_no_samples_without_stream(s, cmds.drop_last(), too_quiet);
    }
}

/// The recording cap drops every sample from the cap on and keeps every
/// sample before it: for a known start `s`, samples at `now` are kept exactly
/// when `now` is earlier than `s` or less than the cap after it; and once they
/// are dropped, every later sample is dropped too.
pub proof fn lemma_recording_cap(s: u64, now: u64, later: u64)
    ensures
        spec_within_recording_cap(Some(s), now) <==> (now < s || now - s < MAX_DURATION_NANOS),
        spec_within_recording_cap(None, now),
        s <= now <= later && !spec_within_recording_cap(Some(s), now) ==> !spec_within_recording_cap(
            Some(s),
            later,
        ),
{
}

/// The chunk of samples from `start` for `len` samples.
pub open spec fn chunk_covers(c: (usize, usize), x: int) -> bool {
    c.0 <= x < c.0 + c.1
}

/// The resampled chunks cover the input: there are exactly `n / 1024` full
/// chunks, the k-th starting at `k * 1024`, followed by the tail when it holds
/// at least 64 samples; every sample of the full chunks, and of a kept tail,
/// lies in a chunk; and the chunks together hold all `n` samples but a dropped
/// short tail.
pub proof fn lemma_resample_chunks_cover(n: nat)
    ensures
        spec_resample_chunks(n).len() == n / (RESAMPLE_CHUNK as nat) + if n % (RESAMPLE_CHUNK as nat)
            >= MIN_PARTIAL_CHUNK {
            1int
        } else {
            0
        },
        forall|k: int|
            0 <= k < n / (RESAMPLE_CHUNK as nat) ==> #[trigger] spec_resample_chunks(n)[k] == (
                (k * RESAMPLE_CHUNK) as usize,
                RESAMPLE_CHUNK,
            ),
        n % (RESAMPLE_CHUNK as nat) >= MIN_PARTIAL_CHUNK ==> spec_resample_chunks(n).last() == (
            ((n / (RESAMPLE_CHUNK as nat)) * RESAMPLE_CHUNK) as usize,
            (n % (RESAMPLE_CHUNK as nat)) as usize,
        ),
        forall|x: int|
            0 <= x < n - (if n % (RESAMPLE_CHUNK as nat) >= MIN_PARTIAL_CHUNK {
                0
            } else {
                n % (RESAMPLE_CHUNK as nat)
            }) && n <= usize::MAX ==> chunk_covers(#[trigger] spec_resample_chunks(n)[x / RESAMPLE_CHUNK as int], x),
{
    let c = RESAMPLE_CHUNK as nat;
    let full = n / c;
    let r = n % c;
    assert(n == full * c + r) by (nonlinear_arith)
        requires
            c > 0,
            full == n / c,
            r == n % c,
    ;
    assert forall|x: int|
        0 <= x < n - (if r >= MIN_PARTIAL_CHUNK { 0 } else { r }) && n <= usize::MAX implies chunk_covers(
            #[trigger] spec_resample_chunks(n)[x / RESAMPLE_CHUNK as int],
            x,
        ) by {
        let k = x / (c as int);
        assert(k * (c as int) <= x < k * (c as int) + (c as int)) by (nonlinear_arith)
            requires
                c > 0,
                x >= 0,
                k == x / (c as int),
        ;
        if k < full {
            assert(k * (c as int) <= full * c) by (nonlinear_arith)
                requires
                    k < full,
                    c > 0,
            ;
        } else {
            assert(k >= full);
            assert(k * (c as int) >= full * c) by (nonlinear_arith)
                requires
                    k >= full,
                    c > 0,
            ;
            assert(k <= full) by (nonlinear_arith)
                requires
                    k * (c as int) <= x,
                    x < full * c + r,
                    r < c,
                    c > 0,
            ;
            assert(k == full);
        }
    }
}

/// A segment of the recogniser's output with the blank markers removed and
/// white space trimmed.
pub open spec fn cleaned_segment(seg: Seq<char>) -> Seq<char> {
    trimmed(remove_all(seg, BLANK_AUDIO_MARKER@))
}

/// The cleaned segments that are not empty, each followed by a space.
pub open spec fn joined_segments(segs: Seq<Seq<char>>) -> Seq<char>
    decreases segs.len(),
{
    if segs.len() == 0 {
        Seq::empty()
    } else {
        let rest = joined_segments(segs.drop_last());
        let c = cleaned_segment(segs.last());
        if c.len() == 0 {
            rest
        } else {
            rest + c + seq![' ']
        }
    }
}

/// The transcript of a run of segments: the cleaned, non-empty segments
/// joined by spaces, trimmed.
pub open spec fn transcript_of(segs: Seq<Seq<char>>) -> Seq<char> {
    trimmed(joined_segments(segs))
}

/// The views of a sequence of strings.
pub open spec fn segment_views(s: Seq<String>) -> Seq<Seq<char>> {
    Seq::new(s.len(), |i: int| s[i]@)
}

/// Builds the transcript from the recogniser's segments; when nothing is left
/// it fails with "No speech detected".
pub fn assemble_transcript(segments: &Vec<String>) -> (r: Result<String, AppError>)
    ensures
        match r {
            Ok(t) => {
                &&& t@ == transcript_of(segment_views(segments@))
                &&& t@.len() > 0
                &&& !is_white_space(t@[0])
                &&& !is_white_space(t@.last())
            },
            Err(e) => {
                &&& transcript_of(segment_views(segments@)).len() == 0
                &&& e matches AppError::TranscriptionFailed(m)
                &&& m@ == "No speech detected"@
            },
        },
{
    let mut text = String::new();
    let mut i: usize = 0;
    assert(segment_views(segments@).take(0) =~= Seq::<Seq<char>>::empty());
    while i < segments.len()
        invariant
            i <= segments.len(),
            text@ == joined_segments(segment_views(segments@).take(i as int)),
        decreases segments.len() - i,
    {
        let without_marker = remove_all_str(segments[i].as_str(), BLANK_AUDIO_MARKER);
        let clean = trim(without_marker.as_str());
        proof {
            let vs = segment_views(segments@);
            assert(vs.take(i + 1).drop_last() =~= vs.take(i as int));
            assert(vs.take(i + 1).last() == segments@[i as int]@);
        }
        if !clean.as_str().is_empty() {
            text.append(clean.as_str());
            text.append(" ");
            proof {
                reveal_strlit(" ");
            }
        }
        i = i + 1;
    }
    assert(segment_views(segments@).take(segments.len() as int) =~= segment_views(segments@));
    let result = trim(text.as_str());
    proof {
        lemma_trimmed(text@);
    }
    if result.as_str().is_empty() {
        return Err(AppError::TranscriptionFailed("No speech detected".to_owned()));
    }
    Ok(result)
}

/// How a request to the audio session went, for a request that waits for a
/// reply: the session was never started, the request could not be sent, no
/// reply came back, or the reply.
pub enum Reply<T> {
    NotStarted,
    SendFailed,
    NoReply,
    Replied(T),
}

/// How a request that waits for no reply went.
#[derive(PartialEq, Eq, Structural, Clone, Copy, Debug)]
pub enum Delivery {
    NotStarted,
    SendFailed,
    Sent,
}

/// The error for a request that did not reach the session, or got no reply.
pub open spec fn undelivered_error(e: AppError, not_started: bool, send_failed: bool) -> bool {
    if not_started {
        e matches AppError::Unknown(m) && m@ == "Audio system not started"@
    } else if send_failed {
        e matches AppError::AudioBusy(m) && m@ == "Audio thread dead"@
    } else {
        e matches AppError::Unknown(m) && m@ == "Audio thread crashed"@
    }
}

fn not_started_error() -> (e: AppError)
    ensures
        undelivered_error(e, true, false),
{
    AppError::Unknown("Audio system not started".to_owned())
}

fn send_failed_error() -> (e: AppError)
    ensures
        undelivered_error(e, false, true),
{
    AppError::AudioBusy("Audio thread dead".to_owned())
}

fn no_reply_error() -> (e: AppError)
    ensures
        undelivered_error(e, false, false),
{
    AppError::Unknown("Audio thread crashed".to_owned())
}

/// The outcome of asking the session to start recording: the session's own
/// reply when it came, else the error for how the request failed.
pub fn start_recording(outcome: Reply<Result<(), AppError>>) -> (r: Result<(), AppError>)
    ensures
        match outcome {
            Reply::Replied(res) => r == res,
            Reply::NotStarted => r matches Err(e) && undelivered_error(e, true, false),
            Reply::SendFailed => r matches Err(e) && undelivered_error(e, false, true),
            Reply::NoReply => r matches Err(e) && undelivered_error(e, false, false),
        },
{
    match outcome {
        Reply::NotStarted => Err(not_started_error()),
        Reply::SendFailed => Err(send_failed_error()),
        Reply::NoReply => Err(no_reply_error()),
        Reply::Replied(res) => res,
    }
}

/// The outcome of asking the session to stop and transcribe: the transcript
/// or error it replied with, else the error for how the request failed.
pub fn stop_recording(outcome: Reply<Result<String, AppError>>) -> (r: Result<String, AppError>)
    ensures
        match outcome {
            Reply::Replied(res) => r == res,
            Reply::NotStarted => r matches Err(e) && undelivered_error(e, true, false),
            Reply::SendFailed => r matches Err(e) && undelivered_error(e, false, true),
            Reply::NoReply => r matches Err(e) && undelivered_error(e, false, false),
        },
{
    match outcome {
        Reply::NotStarted => Err(not_started_error()),
        Reply::SendFailed => Err(send_failed_error()),
        Reply::NoReply => Err(no_reply_error()),
        Reply::Replied(res) => res,
    }
}

/// The outcome of asking the session to cancel: done once the request is sent.
pub fn cancel_recording(outcome: Delivery) -> (r: Result<(), AppError>)
    ensures
        match outcome {
            Delivery::Sent => r is Ok,
            Delivery::NotStarted => r matches Err(e) && undelivered_error(e, true, false),
            Delivery::SendFailed => r matches Err(e) && undelivered_error(e, false, true),
        },
{
    match outcome {
        Delivery::NotStarted => Err(not_started_error()),
        Delivery::SendFailed => Err(send_failed_error()),
        Delivery::Sent => Ok(()),
    }
}

/// Resetting the session is cancelling whatever it was doing.
pub fn reset_recording_state(outcome: Delivery) -> (r: Result<(), AppError>)
    ensures
        match outcome {
            Delivery::Sent => r is Ok,
            Delivery::NotStarted => r matches Err(e) && undelivered_error(e, true, false),
            Delivery::SendFailed => r matches Err(e) && undelivered_error(e, false, true),
        },
{
    cancel_recording(outcome)
}

} // verus!
