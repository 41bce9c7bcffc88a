//! The session orchestrator: at most one recording session at a time,
//! a chunk loop that transcribes and persists segments, safe
//! start/stop with idempotent stop, and the optional save-to-history
//! tail. The orchestrator owns the persistence model and an event
//! log; the adapters around the library run the actual capture,
//! transcription, timers and files, and hand outcomes in as plain
//! values.

use vstd::prelude::*;
use crate::history::{
    BackendError, HistoryManager, Meeting, MeetingDetails, MeetingSegment, MeetingSegmentV,
    MeetingV, RetentionPolicy, SavedTranscription, entry_keys, finalize_meeting_map, has_meeting,
    insert_pos_desc, lemma_seq_dv_push, meeting_idx, meeting_keys, new_history_entry_v,
    new_meeting_v, seq_dv, segments_of, segs_ordered, cleaned, cleaned_removed_names,
};
use crate::text::{blank, joined, is_blank, join_with_spaces, dec_str_signed};

verus! {

/// What the orchestrator announces: session start and stop, and each
/// persisted segment.
pub enum SessionEvent {
    Started(i64),
    SegmentAdded(MeetingSegment),
    Stopped(i64),
}

/// The mathematical image of a [`SessionEvent`].
#[verifier::ext_equal]
pub ghost enum SessionEventV {
    Started(int),
    SegmentAdded(MeetingSegmentV),
    Stopped(int),
}

impl DeepView for SessionEvent {
    type V = SessionEventV;

    open spec fn deep_view(&self) -> SessionEventV {
        match self {
            SessionEvent::Started(id) => SessionEventV::Started(*id as int),
            SessionEvent::SegmentAdded(s) => SessionEventV::SegmentAdded(s.deep_view()),
            SessionEvent::Stopped(id) => SessionEventV::Stopped(*id as int),
        }
    }
}

/// One running session: the meeting's id, its start instant, the
/// running sample cursor, the advisory in-memory segment mirror, and
/// whether the recording is folded into history on stop.
pub struct ActiveSession {
    pub id: i64,
    pub started_at: i64,
    pub elapsed_samples: u64,
    pub segments: Vec<MeetingSegment>,
    pub save_to_history: bool,
}

/// The mathematical image of an [`ActiveSession`].
#[verifier::ext_equal]
pub ghost struct ActiveSessionV {
    pub id: int,
    pub started_at: int,
    pub elapsed_samples: int,
    pub segments: Seq<MeetingSegmentV>,
    pub save_to_history: bool,
}

impl DeepView for ActiveSession {
    type V = ActiveSessionV;

    open spec fn deep_view(&self) -> ActiveSessionV {
        ActiveSessionV {
            id: self.id as int,
            started_at: self.started_at as int,
            elapsed_samples: self.elapsed_samples as int,
            segments: seq_dv(self.segments@),
            save_to_history: self.save_to_history,
        }
    }
}

/// The texts of a segment list, in order.
pub open spec fn seg_texts(s: Seq<MeetingSegmentV>) -> Seq<Seq<char>> {
    Seq::new(s.len(), |i: int| s[i].text)
}

/// Start and end offsets within the sample budget: each segment is a
/// well-formed span that ends by `bound_ms`.
pub open spec fn segs_within(s: Seq<MeetingSegmentV>, bound_ms: int) -> bool {
    forall|i: int|
        0 <= i < s.len() ==> (#[trigger] s[i]).start_ms <= s[i].end_ms && s[i].end_ms <= bound_ms
}

/// What the stop path asks the adapters to do afterwards: re-read the
/// session's recording and fold it into transcription history with
/// this transcript.
pub struct HistorySaveRequest {
    pub meeting_id: i64,
    pub transcript: String,
}

/// The session orchestrator: the persistence model, the single active
/// session slot, and the event log (drained by the adapters and
/// broadcast best-effort).
pub struct MeetingManager {
    pub history: HistoryManager,
    pub active: Option<ActiveSession>,
    pub events: Vec<SessionEvent>,
}

proof fn lemma_segments_of_push(s: Seq<MeetingSegmentV>, x: MeetingSegmentV, mid: int)
    ensures
        segments_of(s.push(x), mid) == if x.meeting_id == mid {
            segments_of(s, mid).push(x)
        } else {
            segments_of(s, mid)
        },
    decreases s.len(),
{
    let t = s.push(x);
    if s.len() == 0 {
        assert(t[0] == x);
        assert(t.drop_first() =~= Seq::<MeetingSegmentV>::empty());
        assert(segments_of(t.drop_first(), mid) == t.drop_first());
        if x.meeting_id == mid {
            assert(segments_of(t, mid) =~= segments_of(s, mid).push(x));
        } else {
            assert(segments_of(t, mid) =~= segments_of(s, mid));
        }
    } else {
        assert(t[0] == s[0]);
        assert(t.drop_first() =~= s.drop_first().push(x));
        lemma_segments_of_push(s.drop_first(), x, mid);
        if s[0].meeting_id == mid {
            if x.meeting_id == mid {
                assert(segments_of(t, mid) =~= (seq![s[0]] + segments_of(s.drop_first(), mid)).push(
                    x,
                ));
                assert(segments_of(t, mid) =~= segments_of(s, mid).push(x));
            } else {
                assert(segments_of(t, mid) =~= segments_of(s, mid));
            }
        } else {
            if x.meeting_id == mid {
                assert(segments_of(t, mid) =~= segments_of(s.drop_first(), mid).push(x));
                assert(segments_of(t, mid) =~= segments_of(s, mid).push(x));
            } else {
                assert(segments_of(t, mid) =~= segments_of(s, mid));
            }
        }
    }
}

proof fn lemma_segments_of_absent(s: Seq<MeetingSegmentV>, mid: int)
    requires
        forall|i: int| 0 <= i < s.len() ==> (#[trigger] s[i]).meeting_id != mid,
    ensures
        segments_of(s, mid) == Seq::<MeetingSegmentV>::empty(),
    decreases s.len(),
{
    if s.len() > 0 {
        assert(s[0].meeting_id != mid);
        assert forall|i: int| 0 <= i < s.drop_first().len() implies (#[trigger] s.drop_first()[i]).meeting_id
            != mid by {
            assert(s[i + 1].meeting_id != mid);
        }
        lemma_segments_of_absent(s.drop_first(), mid);
    }
}

impl MeetingManager {
    /// The orchestrator's invariant: the store is well-formed, every
    /// stored segment belongs to a created meeting, and while a
    /// session runs its meeting record exists, its persisted segments
    /// are ordered spans within the elapsed time, and the in-memory
    /// mirror carries the same texts.
    pub open spec fn wf(&self) -> bool {
        &&& self.history.wf()
        &&& forall|i: int|
            0 <= i < self.history.segments.deep_view().len() ==> (
            #[trigger] self.history.segments.deep_view()[i]).meeting_id
                < self.history.next_meeting_id as int
        &&& self.active matches Some(s) ==> {
            let stored = segments_of(self.history.segments.deep_view(), s.id as int);
            &&& 1 <= s.id < self.history.next_meeting_id
            &&& has_meeting(self.history.meetings.deep_view(), s.id as int)
            &&& segs_ordered(stored)
            &&& segs_within(stored, s.elapsed_samples as int / 16)
            &&& seg_texts(stored) == seg_texts(s.deep_view().segments)
        }
    }

    /// A fresh orchestrator over the given store: idle, with an empty
    /// event log.
    pub fn new(history: HistoryManager) -> (m: Self)
        requires
            history.wf(),
            forall|i: int|
                0 <= i < history.segments.deep_view().len() ==> (
                #[trigger] history.segments.deep_view()[i]).meeting_id
                    < history.next_meeting_id as int,
        ensures
            m.wf(),
            m.history == history,
            m.active is None,
            m.events@.len() == 0,
    {
        MeetingManager { history, active: None, events: Vec::new() }
    }

    /// Whether a session is running: a non-blocking snapshot.
    pub fn is_meeting_active(&self) -> (r: bool)
        ensures
            r == (self.active is Some),
    {
        self.active.is_some()
    }

    /// Starts a session: rejected with `AlreadyActive` while one
    /// runs, leaving everything untouched. Otherwise the meeting
    /// record is created first; then a failed capture start aborts
    /// with `CaptureUnavailable` and a failed audio-writer open with
    /// `PersistenceFailure` (the record stays, as the storage layer
    /// already committed it). On success the session becomes active
    /// and a start event is logged. `capture_ok` and `writer_ok` are
    /// the outcomes of the two adapter steps the start depends on.
    pub fn start_meeting(
        &mut self,
        title: Option<String>,
        save_to_history: bool,
        now: i64,
        capture_ok: bool,
        writer_ok: bool,
    ) -> (r: Result<i64, BackendError>)
        requires
            old(self).wf(),
            old(self).history.next_meeting_id < i64::MAX,
        ensures
            final(self).wf(),
            old(self).active is Some ==> r == Err::<i64, BackendError>(BackendError::AlreadyActive)
                && *final(self) == *old(self),
            old(self).active is None ==> {
                let pos = insert_pos_desc(
                    meeting_keys(old(self).history.meetings.deep_view()),
                    now as int,
                );
                let newdv = final(self).history.meetings.deep_view();
                let id = old(self).history.next_meeting_id;
                &&& HistoryManager::only_meetings_changed(old(self).history, final(self).history)
                &&& final(self).history.next_meeting_id == id + 1
                &&& newdv == old(self).history.meetings.deep_view().insert(
                    pos,
                    new_meeting_v(
                        id as int,
                        newdv[pos].title,
                        now as int,
                        "meeting-"@ + dec_str_signed(now as int) + ".wav"@,
                    ),
                )
                &&& (title.deep_view() matches Some(x) ==> newdv[pos].title == x)
                &&& (!capture_ok ==> r == Err::<i64, BackendError>(BackendError::CaptureUnavailable)
                    && final(self).active is None && final(self).events == old(self).events)
                &&& (capture_ok && !writer_ok ==> r == Err::<i64, BackendError>(
                    BackendError::PersistenceFailure,
                ) && final(self).active is None && final(self).events == old(self).events)
                &&& (capture_ok && writer_ok ==> {
                    &&& r == Ok::<i64, BackendError>(id)
                    &&& final(self).active matches Some(s2) && s2.id == id && s2.started_at == now
                        && s2.elapsed_samples == 0 && s2.segments@.len() == 0
                        && s2.save_to_history == save_to_history
                    &&& final(self).events.deep_view() == old(self).events.deep_view().push(
                        SessionEventV::Started(id as int),
                    )
                })
            },
    {
        if self.active.is_some() {
            return Err(BackendError::AlreadyActive);
        }
        let (id, _file_name) = self.history.create_meeting(title, now);
        proof {
            let newdv = self.history.meetings.deep_view();
            let pos = insert_pos_desc(
                meeting_keys(old(self).history.meetings.deep_view()),
                now as int,
            );
            crate::history::lemma_insert_pos_desc(
                meeting_keys(old(self).history.meetings.deep_view()),
                now as int,
            );
            old(self).history.meetings.deep_view().insert_ensures(
                pos,
                new_meeting_v(
                    id as int,
                    newdv[pos].title,
                    now as int,
                    "meeting-"@ + dec_str_signed(now as int) + ".wav"@,
                ),
            );
            assert(newdv[pos].id == id as int);
            assert(has_meeting(newdv, id as int));
            assert forall|i: int|
                0 <= i < self.history.segments.deep_view().len() implies (
            #[trigger] self.history.segments.deep_view()[i]).meeting_id
                < self.history.next_meeting_id as int by {
                assert(self.history.segments.deep_view()[i].meeting_id < old(self).history.next_meeting_id as int);
            }
        }
        if !capture_ok {
            return Err(BackendError::CaptureUnavailable);
        }
        if !writer_ok {
            return Err(BackendError::PersistenceFailure);
        }
        self.active = Some(
            ActiveSession {
                id,
                started_at: now,
                elapsed_samples: 0,
                segments: Vec::new(),
                save_to_history,
            },
        );
        proof {
            lemma_seq_dv_push(old(self).events@, SessionEvent::Started(id));
        }
        self.events.push(SessionEvent::Started(id));
        proof {
            let segs = self.history.segments.deep_view();
            assert forall|i: int| 0 <= i < segs.len() implies (#[trigger] segs[i]).meeting_id
                != id as int by {
                assert(segs[i].meeting_id < id as int);
            }
            lemma_segments_of_absent(segs, id as int);
            assert(seg_texts(Seq::<MeetingSegmentV>::empty()) =~= Seq::<Seq<char>>::empty());
            let s2 = self.active->Some_0;
            assert(seg_texts(s2.deep_view().segments) =~= Seq::<Seq<char>>::empty());
            assert(self.events.deep_view() =~= old(self).events.deep_view().push(
                SessionEventV::Started(id as int),
            ));
        }
        Ok(id)
    }
}

} // verus!

verus! {

/// What one loop iteration did with its chunk.
#[derive(Clone, Copy, PartialEq, Eq, Structural, Debug)]
pub enum ChunkOutcome {
    /// No session is active; nothing was done.
    Inactive,
    /// The chunk held no samples.
    Empty,
    /// The transcription call failed; the chunk was skipped.
    TranscriptionFailed,
    /// The transcription was whitespace only; no segment for silence.
    Silent,
    /// A segment was persisted, mirrored and announced.
    Recorded,
}

impl MeetingManager {
    /// One iteration of the chunk loop, after the adapters pulled
    /// `n_samples` accumulated samples and (for a non-empty chunk) ran
    /// the transcription engine: advances the elapsed cursor by the
    /// chunk and, when the transcription yielded speech, persists a
    /// segment row, mirrors it in the session, and logs a
    /// segment-added event. Transcription failures and silence only
    /// advance the cursor.
    pub fn record_chunk(
        &mut self,
        n_samples: usize,
        transcript: Option<Result<String, String>>,
    ) -> (o: ChunkOutcome)
        requires
            old(self).wf(),
            (transcript is Some) <==> n_samples > 0,
            old(self).active matches Some(s) ==> s.elapsed_samples + n_samples <= u64::MAX,
            old(self).history.next_segment_id < i64::MAX,
        ensures
            final(self).wf(),
            old(self).active is None ==> *final(self) == *old(self) && o
                == ChunkOutcome::Inactive,
            old(self).active matches Some(s) ==> {
                let start_ms = s.elapsed_samples as int / 16;
                let end_ms = (s.elapsed_samples + n_samples) as int / 16;
                &&& final(self).active matches Some(s2) && s2.id == s.id && s2.started_at
                    == s.started_at && s2.save_to_history == s.save_to_history
                    && s2.elapsed_samples == s.elapsed_samples + n_samples
                &&& (transcript is None ==> o == ChunkOutcome::Empty && final(self).history == old(self).history && final(self).events == old(self).events && (final(self).active->Some_0).segments == s.segments)
                &&& (transcript matches Some(Err(_)) ==> o == ChunkOutcome::TranscriptionFailed
                    && final(self).history == old(self).history && final(self).events == old(self).events && (final(self).active->Some_0).segments == s.segments)
                &&& transcript matches Some(Ok(t)) ==> (blank(t@) ==> o == ChunkOutcome::Silent
                    && final(self).history == old(self).history && final(self).events == old(self).events && (final(self).active->Some_0).segments == s.segments)
                &&& transcript matches Some(Ok(t)) ==> !blank(t@) ==> {
                    let stored_seg = MeetingSegmentV {
                        id: old(self).history.next_segment_id as int,
                        meeting_id: s.id as int,
                        speaker_id: "Speaker 1"@,
                        start_ms: start_ms,
                        end_ms: end_ms,
                        text: t@,
                    };
                    let mirror_seg = MeetingSegmentV {
                        id: 0,
                        meeting_id: s.id as int,
                        speaker_id: "Speaker 1"@,
                        start_ms: start_ms,
                        end_ms: end_ms,
                        text: t@,
                    };
                    &&& o == ChunkOutcome::Recorded
                    &&& HistoryManager::only_segments_changed(
                        old(self).history,
                        final(self).history,
                    )
                    &&& final(self).history.next_segment_id == old(self).history.next_segment_id
                        + 1
                    &&& final(self).history.segments.deep_view() == old(self).history.segments.deep_view().push(stored_seg)
                    &&& (final(self).active->Some_0).segments.deep_view() == seq_dv(s.segments@)
                        .push(mirror_seg)
                    &&& final(self).events.deep_view() == old(self).events.deep_view().push(
                        SessionEventV::SegmentAdded(mirror_seg),
                    )
                }
            },
    {
        let mut sess = match self.active.take() {
            Some(s) => s,
            None => {
                return ChunkOutcome::Inactive;
            },
        };
        let start_samples = sess.elapsed_samples;
        let end_samples = start_samples + (n_samples as u64);
        let start_ms = start_samples / 16;
        let end_ms = end_samples / 16;
        proof {
            vstd::arithmetic::div_mod::lemma_div_is_ordered(
                start_samples as int,
                end_samples as int,
                16,
            );
        }
        let outcome: ChunkOutcome;
        match transcript {
            None => {
                sess.elapsed_samples = end_samples;
                outcome = ChunkOutcome::Empty;
            },
            Some(Err(_e)) => {
                sess.elapsed_samples = end_samples;
                outcome = ChunkOutcome::TranscriptionFailed;
            },
            Some(Ok(t)) => {
                if is_blank(t.as_str()) {
                    sess.elapsed_samples = end_samples;
                    outcome = ChunkOutcome::Silent;
                } else {
                    let ghost pre_segs = self.history.segments.deep_view();
                    let ghost pre_mirror = seq_dv(sess.segments@);
                    let speaker_store = "Speaker 1".to_owned();
                    let speaker_mirror = "Speaker 1".to_owned();
                    let mirror_text = t.clone();
                    self.history.add_meeting_segment(sess.id, speaker_store, start_ms, end_ms, t);
                    let seg = MeetingSegment {
                        id: 0,
                        meeting_id: sess.id,
                        speaker_id: speaker_mirror,
                        start_ms,
                        end_ms,
                        text: mirror_text,
                    };
                    let ev_seg = seg.clone();
                    proof {
                        lemma_seq_dv_push(sess.segments@, seg);
                    }
                    sess.segments.push(seg);
                    proof {
                        lemma_seq_dv_push(self.events@, SessionEvent::SegmentAdded(ev_seg));
                    }
                    self.events.push(SessionEvent::SegmentAdded(ev_seg));
                    sess.elapsed_samples = end_samples;
                    outcome = ChunkOutcome::Recorded;
                    proof {
                        let sid = sess.id as int;
                        let stored_seg = self.history.segments.deep_view().last();
                        lemma_segments_of_push(pre_segs, stored_seg, sid);
                        let stored_pre = segments_of(pre_segs, sid);
                        let stored_post = segments_of(self.history.segments.deep_view(), sid);
                        assert(self.history.segments.deep_view() =~= pre_segs.push(stored_seg));
                        assert(stored_post == stored_pre.push(stored_seg));
                        assert forall|i: int, j: int|
                            0 <= i <= j < stored_post.len() implies stored_post[i].start_ms
                            <= stored_post[j].start_ms by {
                            if j < stored_pre.len() {
                                assert(stored_pre[i].start_ms <= stored_pre[j].start_ms);
                            } else if i < stored_pre.len() {
                                assert(stored_pre[i].start_ms <= stored_pre[i].end_ms);
                                assert(stored_pre[i].end_ms <= start_samples as int / 16);
                            }
                        }
                        assert(seg_texts(stored_post) =~= seg_texts(stored_pre).push(
                            stored_seg.text,
                        ));
                        assert(seg_texts(seq_dv(sess.segments@)) =~= seg_texts(pre_mirror).push(
                            stored_seg.text,
                        ));
                        assert forall|i: int|
                            0 <= i < self.history.segments.deep_view().len() implies (
                        #[trigger] self.history.segments.deep_view()[i]).meeting_id
                            < self.history.next_meeting_id as int by {
                            if i < pre_segs.len() {
                                assert(pre_segs[i].meeting_id
                                    < self.history.next_meeting_id as int);
                            }
                        }
                    }
                }
            },
        }
        self.active = Some(sess);
        outcome
    }

    /// Stops the running session: joins the loop, finalizes the
    /// meeting record with end time and duration, and logs a stop
    /// event. When the session was started with save-to-history and
    /// its segments hold any speech, hands back the request the
    /// asynchronous tail should fulfil. Stopping while idle is a
    /// no-op: nothing changes and no event is logged.
    #[verifier::loop_isolation(false)]
    pub fn stop_meeting(&mut self, now: i64) -> (r: Option<HistorySaveRequest>)
        requires
            old(self).wf(),
            old(self).active matches Some(s) ==> s.started_at <= now && now - s.started_at
                <= i32::MAX as i64,
        ensures
            final(self).wf(),
            old(self).active is None ==> *final(self) == *old(self) && r is None,
            old(self).active matches Some(s) ==> {
                &&& final(self).active is None
                &&& HistoryManager::only_meetings_changed(old(self).history, final(self).history)
                &&& final(self).history.next_meeting_id == old(self).history.next_meeting_id
                &&& final(self).history.meetings.deep_view() == finalize_meeting_map(
                    old(self).history.meetings.deep_view(),
                    s.id as int,
                    now as int,
                    now - s.started_at,
                )
                &&& final(self).events.deep_view() == old(self).events.deep_view().push(
                    SessionEventV::Stopped(s.id as int),
                )
                &&& {
                    let t = joined(seg_texts(s.deep_view().segments));
                    if s.save_to_history && !blank(t) {
                        r matches Some(req) && req.meeting_id == s.id && req.transcript@ == t
                    } else {
                        r is None
                    }
                }
            },
    {
        let sess = match self.active.take() {
            Some(s) => s,
            None => {
                return None;
            },
        };
        let duration = (now - sess.started_at) as i32;
        self.history.finalize_meeting(sess.id, duration, now);
        proof {
            lemma_seq_dv_push(self.events@, SessionEvent::Stopped(sess.id));
        }
        self.events.push(SessionEvent::Stopped(sess.id));
        proof {
            assert(self.events.deep_view() =~= old(self).events.deep_view().push(
                SessionEventV::Stopped(sess.id as int),
            ));
        }
        if sess.save_to_history {
            let mut texts: Vec<String> = Vec::new();
            let n = sess.segments.len();
            let mut i: usize = 0;
            while i < n
                invariant
                    0 <= i <= n,
                    texts.deep_view() =~= seg_texts(seq_dv(sess.segments@)).take(i as int),
                decreases n - i,
            {
                let c = sess.segments[i].text.clone();
                proof {
                    lemma_seq_dv_push(texts@, c);
                }
                texts.push(c);
                proof {
                    assert(texts.deep_view() =~= seg_texts(seq_dv(sess.segments@)).take(i + 1));
                }
                i = i + 1;
            }
            proof {
                assert(seg_texts(seq_dv(sess.segments@)).take(n as int) =~= seg_texts(
                    seq_dv(sess.segments@),
                ));
            }
            let transcript = join_with_spaces(&texts);
            if !is_blank(transcript.as_str()) {
                Some(HistorySaveRequest { meeting_id: sess.id, transcript })
            } else {
                None
            }
        } else {
            None
        }
    }

    /// Every meeting, newest first: a pure read of the store.
    pub fn get_meetings(&self) -> (r: Vec<Meeting>)
        ensures
            r.deep_view() == self.history.meetings.deep_view(),
    {
        self.history.get_meetings()
    }

    /// The meeting with this id, its segments in start order, and its
    /// resolved audio path; `NotFound` if the id is unknown.
    pub fn get_meeting_details(&self, id: i64) -> (r: Result<MeetingDetails, BackendError>)
        requires
            self.history.wf(),
        ensures
            (r is Ok) <==> has_meeting(self.history.meetings.deep_view(), id as int),
            r matches Err(e) ==> e == BackendError::NotFound,
            r matches Ok(d) ==> {
                let dv = self.history.meetings.deep_view();
                let m = dv[meeting_idx(dv, id as int)];
                &&& d.meeting.deep_view() == m
                &&& d.segments.deep_view().to_multiset() == segments_of(
                    self.history.segments.deep_view(),
                    id as int,
                ).to_multiset()
                &&& segs_ordered(d.segments.deep_view())
                &&& (m.file_name matches Some(f) ==> d.audio_path matches Some(p) && p@
                    == self.history.recordings_dir@ + seq!['/'] + f)
                &&& (m.file_name is None ==> d.audio_path is None)
            },
    {
        let meeting = match self.history.get_meeting_by_id(id) {
            Some(m) => m,
            None => {
                return Err(BackendError::NotFound);
            },
        };
        let segments = self.history.get_meeting_segments(id);
        let audio_path = match &meeting.file_name {
            Some(f) => Some(self.history.get_audio_file_path(f.as_str())),
            None => None,
        };
        Ok(MeetingDetails { meeting, segments, audio_path })
    }

    /// The asynchronous save-to-history tail: decodes the session's
    /// recording and, when the bytes decode, folds the samples and
    /// the joined transcript into transcription history, applying
    /// retention pruning. A failed decode changes nothing and yields
    /// `None`, as the tail's failures are absorbed.
    pub fn complete_history_save(
        &mut self,
        wav_bytes: &Vec<u8>,
        transcript: String,
        timestamp: i64,
        policy: RetentionPolicy,
        history_limit: usize,
    ) -> (r: Option<SavedTranscription>)
        requires
            old(self).wf(),
            old(self).history.next_entry_id < i64::MAX,
            timestamp >= i64::MIN + 7776000,
        ensures
            final(self).wf(),
            r is None ==> *final(self) == *old(self),
            forall|s: Seq<i16>|
                s.len() <= crate::wav::MAX_WAV_SAMPLES && wav_bytes@
                    == #[trigger] crate::wav::wav_bytes_of(s) ==> (r matches Some(st)
                    && st.wav_bytes@ == crate::wav::wav_bytes_of(s)),
            r matches Some(st) ==> {
                let inserted = old(self).history.entries.deep_view().insert(
                    insert_pos_desc(
                        entry_keys(old(self).history.entries.deep_view()),
                        timestamp as int,
                    ),
                    new_history_entry_v(
                        old(self).history.next_entry_id as int,
                        st.file_name@,
                        timestamp as int,
                        st.title@,
                        transcript@,
                        None,
                        None,
                    ),
                );
                &&& HistoryManager::only_entries_changed(old(self).history, final(self).history)
                &&& final(self).history.next_entry_id == old(self).history.next_entry_id + 1
                &&& final(self).active == old(self).active
                &&& final(self).events == old(self).events
                &&& st.file_name@ == "typezero-"@ + dec_str_signed(timestamp as int) + ".wav"@
                &&& final(self).history.entries.deep_view() == cleaned(
                    inserted,
                    policy,
                    history_limit as nat,
                    timestamp as int,
                )
                &&& st.removed_files.deep_view() == cleaned_removed_names(
                    inserted,
                    policy,
                    history_limit as nat,
                    timestamp as int,
                )
            },
    {
        let decoded = match crate::wav::decode_wav_pcm16(wav_bytes) {
            Some(v) => v,
            None => {
                return None;
            },
        };
        if decoded.len() > crate::wav::MAX_WAV_SAMPLES {
            return None;
        }
        let st = self.history.save_transcription(
            &decoded,
            transcript,
            None,
            None,
            timestamp,
            policy,
            history_limit,
        );
        Some(st)
    }
}

} // verus!

verus! {

/// After a session that started at `started_at` is stopped at `now`,
/// the persisted meeting record carries an end timestamp and a
/// duration that is non-negative and exactly the elapsed wall-clock
/// time between the two instants.
pub proof fn lemma_stopped_record_finalized(
    meetings: Seq<MeetingV>,
    sid: int,
    started_at: int,
    now: int,
)
    requires
        started_at <= now,
        has_meeting(meetings, sid),
    ensures
        ({
            let f = finalize_meeting_map(meetings, sid, now, now - started_at);
            let k = meeting_idx(meetings, sid);
            &&& 0 <= k < f.len()
            &&& f[k].end_timestamp == Some(now)
            &&& f[k].duration_seconds == now - started_at
            &&& f[k].duration_seconds >= 0
        }),
{
    let k = meeting_idx(meetings, sid);
    assert(meetings[k].id == sid);
}

/// While a session runs, its persisted segments stand in
/// non-decreasing start-offset order, each one a span that ends
/// within the elapsed recording time.
pub proof fn lemma_active_segments_ordered(m: &MeetingManager)
    requires
        m.wf(),
        m.active is Some,
    ensures
        ({
            let s = m.active->Some_0;
            let stored = segments_of(m.history.segments.deep_view(), s.id as int);
            &&& segs_ordered(stored)
            &&& segs_within(stored, s.elapsed_samples as int / 16)
        }),
{
}

} // verus!
