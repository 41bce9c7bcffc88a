use typezero_core::history::{legacy_migration_version, BackendError, HistoryManager, RetentionPolicy};

fn mgr() -> HistoryManager {
    HistoryManager::new("recordings".to_string())
}

fn insert_entry(m: &mut HistoryManager, timestamp: i64, text: &str, post_processed: Option<&str>) {
    m.save_to_database(
        format!("typezero-{}.wav", timestamp),
        timestamp,
        format!("Recording {}", timestamp),
        text.to_string(),
        post_processed.map(|s| s.to_string()),
        None,
    );
}

#[test]
fn get_latest_entry_returns_none_when_empty() {
    let m = mgr();
    let entry = m.get_latest_entry();
    assert!(entry.is_none());
}

#[test]
fn get_latest_entry_returns_newest_entry() {
    let mut m = mgr();
    insert_entry(&mut m, 100, "first", None);
    insert_entry(&mut m, 200, "second", Some("processed"));

    let entry = m.get_latest_entry().expect("entry exists");

    assert_eq!(entry.timestamp, 200);
    assert_eq!(entry.transcription_text, "second");
    assert_eq!(entry.post_processed_text.as_deref(), Some("processed"));
}

#[test]
fn history_entries_come_back_newest_first() {
    let mut m = mgr();
    insert_entry(&mut m, 50, "old", None);
    insert_entry(&mut m, 300, "new", None);
    insert_entry(&mut m, 200, "middle", None);

    let entries = m.get_history_entries();
    let stamps: Vec<i64> = entries.iter().map(|e| e.timestamp).collect();
    assert_eq!(stamps, vec![300, 200, 50]);
    let texts: Vec<&str> = entries.iter().map(|e| e.transcription_text.as_str()).collect();
    assert_eq!(texts, vec!["new", "middle", "old"]);
}

#[test]
fn toggle_saved_status_flips_and_reports_missing() {
    let mut m = mgr();
    insert_entry(&mut m, 10, "a", None);
    let id = m.get_latest_entry().unwrap().id;

    assert!(m.toggle_saved_status(id).is_ok());
    assert!(m.get_entry_by_id(id).unwrap().saved);
    assert!(m.toggle_saved_status(id).is_ok());
    assert!(!m.get_entry_by_id(id).unwrap().saved);

    assert_eq!(m.toggle_saved_status(999), Err(BackendError::NotFound));
}

#[test]
fn delete_entry_removes_and_returns_file_name() {
    let mut m = mgr();
    insert_entry(&mut m, 10, "a", None);
    let id = m.get_latest_entry().unwrap().id;

    let removed = m.delete_entry(id);
    assert_eq!(removed.as_deref(), Some("typezero-10.wav"));
    assert!(m.get_entry_by_id(id).is_none());
    assert!(m.delete_entry(id).is_none());
}

#[test]
fn cleanup_by_count_keeps_newest_unsaved_and_all_saved() {
    let mut m = mgr();
    for ts in [10, 20, 30, 40] {
        insert_entry(&mut m, ts, "t", None);
    }
    // mark the oldest entry saved so the count limit cannot touch it
    let oldest_id = m.get_history_entries().last().unwrap().id;
    m.toggle_saved_status(oldest_id).unwrap();

    let removed = m.cleanup_by_count(2);
    // unsaved in newest-first order were 40, 30, 20: the quota of two keeps
    // 40 and 30, drops 20; the saved entry at 10 stays
    assert_eq!(removed, vec!["typezero-20.wav".to_string()]);
    let stamps: Vec<i64> = m.get_history_entries().iter().map(|e| e.timestamp).collect();
    assert_eq!(stamps, vec![40, 30, 10]);
}

#[test]
fn cleanup_by_time_drops_old_unsaved_entries() {
    let mut m = mgr();
    let now = 1_000_000;
    insert_entry(&mut m, now - 400_000, "stale", None);
    insert_entry(&mut m, now - 100_000, "fresh", None);

    // three days is 259200 seconds: the stale entry is past the cutoff
    let removed = m.cleanup_old_entries(RetentionPolicy::Days3, 0, now);
    assert_eq!(removed, vec![format!("typezero-{}.wav", now - 400_000)]);
    let entries = m.get_history_entries();
    assert_eq!(entries.len(), 1);
    assert_eq!(entries[0].transcription_text, "fresh");
}

#[test]
fn cleanup_never_policy_touches_nothing() {
    let mut m = mgr();
    insert_entry(&mut m, 1, "a", None);
    let removed = m.cleanup_old_entries(RetentionPolicy::Never, 0, 1_000_000);
    assert!(removed.is_empty());
    assert_eq!(m.get_history_entries().len(), 1);
}

#[test]
fn create_meeting_assigns_ids_and_file_names() {
    let mut m = mgr();
    let (id, file) = m.create_meeting(Some("Weekly Sync".to_string()), 777);
    assert_eq!(id, 1);
    assert_eq!(file, "meeting-777.wav");

    let meetings = m.get_meetings();
    assert_eq!(meetings.len(), 1);
    assert_eq!(meetings[0].title, "Weekly Sync");
    assert_eq!(meetings[0].start_timestamp, 777);
    assert_eq!(meetings[0].end_timestamp, None);
    assert_eq!(meetings[0].duration_seconds, 0);
    assert_eq!(meetings[0].file_name.as_deref(), Some("meeting-777.wav"));

    let (id2, _) = m.create_meeting(None, 778);
    assert_eq!(id2, 2);
}

#[test]
fn finalize_meeting_stamps_end_and_duration() {
    let mut m = mgr();
    let (id, _) = m.create_meeting(Some("m".to_string()), 100);
    m.finalize_meeting(id, 240, 340);

    let got = m.get_meeting_by_id(id).expect("meeting exists");
    assert_eq!(got.end_timestamp, Some(340));
    assert_eq!(got.duration_seconds, 240);

    // updating a missing id changes nothing
    m.finalize_meeting(999, 1, 1);
    assert_eq!(m.get_meetings().len(), 1);
}

#[test]
fn toggle_meeting_favorite_flips_flag() {
    let mut m = mgr();
    let (id, _) = m.create_meeting(Some("m".to_string()), 100);
    m.toggle_meeting_favorite(id);
    assert!(m.get_meeting_by_id(id).unwrap().is_favorite);
    m.toggle_meeting_favorite(id);
    assert!(!m.get_meeting_by_id(id).unwrap().is_favorite);
}

#[test]
fn meeting_segments_come_back_in_start_order() {
    let mut m = mgr();
    let (id, _) = m.create_meeting(Some("m".to_string()), 100);
    let (other, _) = m.create_meeting(Some("other".to_string()), 101);
    m.add_meeting_segment(id, "Speaker 1".to_string(), 5500, 12800, "b".to_string());
    m.add_meeting_segment(other, "Speaker 1".to_string(), 0, 1, "x".to_string());
    m.add_meeting_segment(id, "Speaker 1".to_string(), 0, 5200, "a".to_string());
    m.add_meeting_segment(id, "Speaker 2".to_string(), 13000, 18500, "c".to_string());

    let segs = m.get_meeting_segments(id);
    let texts: Vec<&str> = segs.iter().map(|s| s.text.as_str()).collect();
    assert_eq!(texts, vec!["a", "b", "c"]);
    assert!(segs.iter().all(|s| s.meeting_id == id));
}

#[test]
fn tts_history_round_trip() {
    let mut m = mgr();
    let id1 = m.save_tts_entry("hello".to_string(), "voice_a".to_string(), "tts-1.wav".to_string(), 10);
    let id2 = m.save_tts_entry("there".to_string(), "voice_b".to_string(), "tts-2.wav".to_string(), 20);
    assert_eq!((id1, id2), (1, 2));

    let all = m.get_tts_history();
    assert_eq!(all.len(), 2);
    assert_eq!(all[0].text, "there");
    assert_eq!(all[1].text, "hello");

    m.toggle_tts_favorite(id1);
    assert!(m.get_tts_history()[1].is_favorite);

    let removed = m.delete_tts_entry(id1);
    assert_eq!(removed.as_deref().ok(), Some("tts-1.wav"));
    assert_eq!(m.get_tts_history().len(), 1);
    assert_eq!(m.delete_tts_entry(id1), Err(BackendError::NotFound));
}

#[test]
fn audio_file_path_joins_directory_and_name() {
    let m = mgr();
    assert_eq!(m.get_audio_file_path("a.wav"), "recordings/a.wav");
}

#[test]
fn error_messages_match_the_surfaced_text() {
    assert_eq!(BackendError::AlreadyActive.message(), "Meeting already in progress");
    assert_eq!(BackendError::NotFound.message(), "Meeting not found");
}

#[test]
fn legacy_migration_bridges_only_untracked_databases() {
    assert_eq!(legacy_migration_version(true, 0, 5), Some(5));
    assert_eq!(legacy_migration_version(true, 3, 5), None);
    assert_eq!(legacy_migration_version(true, 0, 0), None);
    assert_eq!(legacy_migration_version(false, 0, 5), None);
}
