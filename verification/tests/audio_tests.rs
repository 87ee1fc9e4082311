use yaad::errors::AppError;
use yaad::whisper::{
    assemble_transcript, cancel_recording, check_capture, needs_resampling, reset_recording_state,
    resample_chunks, resample_failure_is_fatal, start_recording, stop_recording, within_recording_cap, AudioAction,
    AudioCommand, AudioSession, Delivery, Reply, MAX_DURATION_NANOS,
};

#[test]
fn session_follows_commands() {
    let mut s = AudioSession::new();
    assert_eq!(s.handle_command(AudioCommand::Start), AudioAction::OpenStream);
    assert!(s.stream_opened(Ok(48000), Ok(()), 7).is_ok());
    assert!(s.stream_active);
    assert_eq!(s.recording_start, Some(7));
    assert_eq!(s.handle_command(AudioCommand::Stop), AudioAction::Transcribe { sample_rate: 48000, captured: true });
    assert!(!s.stream_active);
    assert_eq!(s.recording_start, None);
    assert_eq!(s.handle_command(AudioCommand::Cancel), AudioAction::Discard);
    assert_eq!(s.device_sample_rate, 48000);
    assert!(!s.buffer_may_hold_samples);
}

#[test]
fn stops_without_a_running_stream_transcribe_nothing() {
    let mut s = AudioSession::new();
    assert_eq!(s.handle_command(AudioCommand::Stop), AudioAction::Transcribe { sample_rate: 0, captured: false });
    s.handle_command(AudioCommand::Start);
    s.stream_opened(Ok(16000), Ok(()), 1).unwrap();
    assert!(s.buffer_may_hold_samples);
    assert_eq!(s.handle_command(AudioCommand::Cancel), AudioAction::Discard);
    assert_eq!(s.handle_command(AudioCommand::Stop), AudioAction::Transcribe { sample_rate: 16000, captured: false });
    s.handle_command(AudioCommand::Start);
    s.stream_opened(Ok(16000), Ok(()), 2).unwrap();
    assert_eq!(s.handle_command(AudioCommand::Stop), AudioAction::Transcribe { sample_rate: 16000, captured: true });
    assert_eq!(s.handle_command(AudioCommand::Stop), AudioAction::Transcribe { sample_rate: 16000, captured: false });
    // a start whose stream fails captures nothing either
    s.handle_command(AudioCommand::Start);
    assert!(s.stream_opened(Ok(16000), Err(AppError::AudioDeviceNotFound("x".to_string())), 3).is_err());
    assert_eq!(s.handle_command(AudioCommand::Stop), AudioAction::Transcribe { sample_rate: 16000, captured: false });
    assert!(matches!(check_capture(0, false), Err(AppError::AudioTooShort)));
}

#[test]
fn failed_stream_keeps_the_configuration() {
    let mut s = AudioSession::new();
    s.handle_command(AudioCommand::Start);
    let r = s.stream_opened(Ok(44100), Err(AppError::AudioDeviceNotFound("busy".to_string())), 5);
    assert!(matches!(r, Err(AppError::AudioDeviceNotFound(m)) if m == "busy"));
    assert!(!s.stream_active);
    assert_eq!(s.device_sample_rate, 44100);
    assert_eq!(s.recording_start, Some(5));
    let before = s;
    let r = s.stream_opened(Err(AppError::AudioDeviceNotFound("No input device found".to_string())), Ok(()), 9);
    assert!(r.is_err());
    assert_eq!(s, before);
}

#[test]
fn recording_cap_drops_late_samples() {
    assert!(within_recording_cap(None, 123));
    assert!(within_recording_cap(Some(10), 10 + MAX_DURATION_NANOS - 1));
    assert!(!within_recording_cap(Some(10), 10 + MAX_DURATION_NANOS));
    assert!(within_recording_cap(Some(10), 5));
}

#[test]
fn captures_are_checked_before_transcription() {
    assert!(matches!(check_capture(0, false), Err(AppError::AudioTooShort)));
    assert!(matches!(check_capture(0, true), Err(AppError::AudioTooShort)));
    assert!(matches!(check_capture(10, true), Err(AppError::AudioTooQuiet)));
    assert!(check_capture(10, false).is_ok());
    assert!(needs_resampling(48000));
    assert!(!needs_resampling(16000));
}

#[test]
fn resampling_takes_full_chunks_and_a_long_enough_tail() {
    assert_eq!(resample_chunks(2100), vec![(0, 1024), (1024, 1024)]);
    assert_eq!(resample_chunks(2200), vec![(0, 1024), (1024, 1024), (2048, 152)]);
    assert_eq!(resample_chunks(64), vec![(0, 64)]);
    assert_eq!(resample_chunks(63), vec![]);
    assert_eq!(resample_chunks(0), vec![]);
    assert_eq!(resample_chunks(1024), vec![(0, 1024)]);
    assert!(resample_failure_is_fatal(1024));
    assert!(!resample_failure_is_fatal(152));
}

#[test]
fn transcript_is_assembled_from_segments() {
    let segs = vec![
        " Buy milk. ".to_string(),
        "[BLANK_AUDIO]".to_string(),
        "  and eggs [BLANK_AUDIO] ".to_string(),
    ];
    assert_eq!(assemble_transcript(&segs).unwrap(), "Buy milk. and eggs");
    let r = assemble_transcript(&vec!["[BLANK_AUDIO]".to_string(), "  ".to_string()]);
    assert!(matches!(r, Err(AppError::TranscriptionFailed(m)) if m == "No speech detected"));
    let r = assemble_transcript(&vec![]);
    assert!(matches!(r, Err(AppError::TranscriptionFailed(_))));
}

#[test]
fn requests_to_the_session_report_how_they_failed() {
    assert!(start_recording(Reply::Replied(Ok(()))).is_ok());
    assert!(matches!(start_recording(Reply::NotStarted), Err(AppError::Unknown(m)) if m == "Audio system not started"));
    assert!(matches!(start_recording(Reply::SendFailed), Err(AppError::AudioBusy(m)) if m == "Audio thread dead"));
    assert!(matches!(start_recording(Reply::NoReply), Err(AppError::Unknown(m)) if m == "Audio thread crashed"));
    assert!(matches!(
        start_recording(Reply::Replied(Err(AppError::AudioPermissionDenied("mic".to_string())))),
        Err(AppError::AudioPermissionDenied(m)) if m == "mic"
    ));
    assert_eq!(stop_recording(Reply::Replied(Ok("hello".to_string()))).unwrap(), "hello");
    assert!(matches!(stop_recording(Reply::NoReply), Err(AppError::Unknown(m)) if m == "Audio thread crashed"));
    assert!(matches!(stop_recording(Reply::Replied(Err(AppError::AudioTooQuiet))), Err(AppError::AudioTooQuiet)));
    assert!(cancel_recording(Delivery::Sent).is_ok());
    assert!(matches!(cancel_recording(Delivery::NotStarted), Err(AppError::Unknown(_))));
    assert!(matches!(reset_recording_state(Delivery::SendFailed), Err(AppError::AudioBusy(m)) if m == "Audio thread dead"));
    assert!(reset_recording_state(Delivery::Sent).is_ok());
}
