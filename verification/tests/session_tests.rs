use typezero_core::history::{BackendError, HistoryManager, RetentionPolicy};
use typezero_core::session::{ChunkOutcome, MeetingManager, SessionEvent};

fn orchestrator() -> MeetingManager {
    MeetingManager::new(HistoryManager::new("recordings".to_string()))
}

#[test]
fn second_start_fails_and_leaves_session_untouched() {
    let mut m = orchestrator();
    let id = m
        .start_meeting(Some("one".to_string()), false, 1000, true, true)
        .expect("first start succeeds");
    assert!(m.is_meeting_active());

    let again = m.start_meeting(Some("two".to_string()), true, 1001, true, true);
    assert_eq!(again, Err(BackendError::AlreadyActive));
    let third = m.start_meeting(None, false, 1002, true, true);
    assert_eq!(third, Err(BackendError::AlreadyActive));

    // the first session is still the active one, and no second
    // record or event appeared
    assert!(m.is_meeting_active());
    assert_eq!(m.history.get_meetings().len(), 1);
    assert_eq!(m.history.get_meetings()[0].id, id);
    assert_eq!(m.events.len(), 1);
    assert!(matches!(m.events[0], SessionEvent::Started(i) if i == id));
}

#[test]
fn stop_while_idle_is_a_quiet_noop() {
    let mut m = orchestrator();
    let r = m.stop_meeting(500);
    assert!(r.is_none());
    assert!(!m.is_meeting_active());
    assert!(m.events.is_empty());
    assert!(m.history.get_meetings().is_empty());

    // double stop after a session is just as quiet
    m.start_meeting(None, false, 1000, true, true).unwrap();
    m.stop_meeting(1005);
    let events_after_first_stop = m.events.len();
    let r2 = m.stop_meeting(1010);
    assert!(r2.is_none());
    assert_eq!(m.events.len(), events_after_first_stop);
}

#[test]
fn start_then_stop_finalizes_the_record() {
    let mut m = orchestrator();
    let id = m.start_meeting(Some("s".to_string()), false, 1000, true, true).unwrap();
    let r = m.stop_meeting(1012);
    assert!(r.is_none());

    assert!(!m.is_meeting_active());
    let rec = m.history.get_meeting_by_id(id).expect("record exists");
    assert_eq!(rec.end_timestamp, Some(1012));
    assert_eq!(rec.duration_seconds, 12);
    assert!(rec.duration_seconds >= 0);
    assert!(matches!(m.events[1], SessionEvent::Stopped(i) if i == id));
}

#[test]
fn capture_failure_aborts_start_but_keeps_the_record() {
    let mut m = orchestrator();
    let r = m.start_meeting(None, false, 1000, false, true);
    assert_eq!(r, Err(BackendError::CaptureUnavailable));
    assert!(!m.is_meeting_active());
    assert!(m.events.is_empty());
    // the storage layer commits the record before the capture step,
    // so the record survives the abort
    assert_eq!(m.history.get_meetings().len(), 1);
}

#[test]
fn writer_failure_aborts_start_after_capture() {
    let mut m = orchestrator();
    let r = m.start_meeting(None, false, 1000, true, false);
    assert_eq!(r, Err(BackendError::PersistenceFailure));
    assert!(!m.is_meeting_active());
    assert!(m.events.is_empty());
    assert_eq!(m.history.get_meetings().len(), 1);
}

#[test]
fn chunks_advance_offsets_and_record_segments_in_order() {
    let mut m = orchestrator();
    let id = m.start_meeting(None, false, 0, true, true).unwrap();

    assert_eq!(m.record_chunk(16000, Some(Ok("one".to_string()))), ChunkOutcome::Recorded);
    assert_eq!(m.record_chunk(8000, Some(Ok("two".to_string()))), ChunkOutcome::Recorded);
    assert_eq!(m.record_chunk(16000, Some(Ok("three".to_string()))), ChunkOutcome::Recorded);

    let segs = m.history.get_meeting_segments(id);
    assert_eq!(segs.len(), 3);
    let spans: Vec<(u64, u64)> = segs.iter().map(|s| (s.start_ms, s.end_ms)).collect();
    assert_eq!(spans, vec![(0, 1000), (1000, 1500), (1500, 2500)]);
    for w in spans.windows(2) {
        assert!(w[0].0 <= w[1].0);
    }
    assert_eq!(segs[0].speaker_id, "Speaker 1");
}

#[test]
fn silent_and_failed_chunks_record_nothing() {
    let mut m = orchestrator();
    let id = m.start_meeting(None, false, 0, true, true).unwrap();

    assert_eq!(m.record_chunk(0, None), ChunkOutcome::Empty);
    assert_eq!(m.record_chunk(16000, Some(Ok("   ".to_string()))), ChunkOutcome::Silent);
    assert_eq!(m.record_chunk(16000, Some(Ok("".to_string()))), ChunkOutcome::Silent);
    assert_eq!(
        m.record_chunk(16000, Some(Err("engine busy".to_string()))),
        ChunkOutcome::TranscriptionFailed
    );

    m.stop_meeting(100);
    // an all-silence session persists zero segments
    assert!(m.history.get_meeting_segments(id).is_empty());
    assert_eq!(m.events.len(), 2); // started and stopped only
}

#[test]
fn chunk_without_session_does_nothing() {
    let mut m = orchestrator();
    assert_eq!(m.record_chunk(16000, Some(Ok("x".to_string()))), ChunkOutcome::Inactive);
    assert!(m.history.get_meetings().is_empty());
    assert!(m.events.is_empty());
}

#[test]
fn stop_without_save_flag_requests_no_history_save() {
    let mut m = orchestrator();
    m.start_meeting(None, false, 0, true, true).unwrap();
    m.record_chunk(16000, Some(Ok("talk".to_string())));
    assert!(m.stop_meeting(10).is_none());
}

#[test]
fn save_to_history_produces_the_joined_transcript() {
    let mut m = orchestrator();
    let id = m.start_meeting(Some("sync".to_string()), true, 100, true, true).unwrap();

    // "hello" at 0.0 - 1.0 s, "world" at 1.0 - 2.0 s
    assert_eq!(m.record_chunk(16000, Some(Ok("hello".to_string()))), ChunkOutcome::Recorded);
    assert_eq!(m.record_chunk(16000, Some(Ok("world".to_string()))), ChunkOutcome::Recorded);
    let segs = m.history.get_meeting_segments(id);
    let spans: Vec<(u64, u64)> = segs.iter().map(|s| (s.start_ms, s.end_ms)).collect();
    assert_eq!(spans, vec![(0, 1000), (1000, 2000)]);

    let req = m.stop_meeting(102).expect("save requested");
    assert_eq!(req.meeting_id, id);
    assert_eq!(req.transcript, "hello world");

    // the asynchronous tail: re-read the recording and fold it into
    // history; the bytes come from the codec the session writes with
    let samples: Vec<i16> = vec![0, 1000, -1000, 32767, -32768];
    let mut scratch = HistoryManager::new("recordings".to_string());
    let encoded = scratch.save_transcription(
        &samples,
        "scratch".to_string(),
        None,
        None,
        0,
        RetentionPolicy::Never,
        0,
    );

    let saved = m
        .complete_history_save(&encoded.wav_bytes, req.transcript, 200, RetentionPolicy::Never, 0)
        .expect("tail saves one entry");
    assert_eq!(saved.file_name, "typezero-200.wav");

    let entry = m.history.get_latest_entry().expect("one history entry");
    assert_eq!(entry.transcription_text, "hello world");
    assert_eq!(entry.file_name, "typezero-200.wav");
    assert_eq!(entry.timestamp, 200);
}

#[test]
fn whitespace_only_transcript_requests_no_save() {
    let mut m = orchestrator();
    m.start_meeting(None, true, 0, true, true).unwrap();
    m.record_chunk(16000, Some(Ok("  ".to_string())));
    assert!(m.stop_meeting(10).is_none());
}

#[test]
fn failed_decode_in_the_tail_is_absorbed() {
    let mut m = orchestrator();
    let garbage: Vec<u8> = vec![1, 2, 3, 4, 5];
    let r = m.complete_history_save(&garbage, "text".to_string(), 200, RetentionPolicy::Never, 0);
    assert!(r.is_none());
    assert!(m.history.get_latest_entry().is_none());
}

#[test]
fn meeting_details_resolve_paths_and_report_missing_ids() {
    let mut m = orchestrator();
    let id = m.start_meeting(Some("d".to_string()), false, 50, true, true).unwrap();
    m.record_chunk(16000, Some(Ok("x".to_string())));
    m.stop_meeting(55);

    let details = m.get_meeting_details(id).expect("details exist");
    assert_eq!(details.meeting.id, id);
    assert_eq!(details.segments.len(), 1);
    assert_eq!(details.audio_path.as_deref(), Some("recordings/meeting-50.wav"));

    assert!(m.get_meeting_details(id + 1).is_err());
}
