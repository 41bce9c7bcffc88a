//! The persistence model: transcription history entries, meetings and
//! their segments, and synthesis history, with the ordering and
//! cleanup rules the storage layer enforces (newest first for
//! timestamped lists, start-offset order for segments, retention
//! pruning for unsaved entries). The store itself lives in memory;
//! the database and file adapters around the library mirror it.

use vstd::prelude::*;
use vstd::multiset::Multiset;
use crate::text::{dec_str_signed, wav_file_name};

verus! {

broadcast use vstd::seq_lib::group_seq_properties, vstd::seq_lib::group_to_multiset_ensures;

/// The error taxonomy of the backend: each variant says which request
/// was rejected and why.
#[derive(Clone, Copy, PartialEq, Eq, Structural, Debug)]
pub enum BackendError {
    /// A session start while one is already running.
    AlreadyActive,
    /// A lookup by id found nothing.
    NotFound,
    /// The audio source could not start.
    CaptureUnavailable,
    /// A per-chunk transcription failed.
    TranscriptionFailure,
    /// A persistence-layer operation failed.
    PersistenceFailure,
}

impl BackendError {
    /// A short description for surfacing the error to a caller.
    pub fn message(&self) -> (r: String)
        ensures
            self is AlreadyActive ==> r@ == "Meeting already in progress"@,
            self is NotFound ==> r@ == "Meeting not found"@,
    {
        match self {
            BackendError::AlreadyActive => "Meeting already in progress".to_owned(),
            BackendError::NotFound => "Meeting not found".to_owned(),
            BackendError::CaptureUnavailable => "Audio capture unavailable".to_owned(),
            BackendError::TranscriptionFailure => "Transcription failed".to_owned(),
            BackendError::PersistenceFailure => "Persistence operation failed".to_owned(),
        }
    }
}

/// How long unsaved transcription history is retained.
#[derive(Clone, Copy, PartialEq, Eq, Structural, Debug)]
pub enum RetentionPolicy {
    /// Keep everything.
    Never,
    /// Keep the newest entries up to a configured count.
    PreserveLimit,
    /// Keep entries newer than three days.
    Days3,
    /// Keep entries newer than two weeks.
    Weeks2,
    /// Keep entries newer than three months (ninety days).
    Months3,
}

/// One transcription history entry.
pub struct HistoryEntry {
    pub id: i64,
    pub file_name: String,
    pub timestamp: i64,
    pub saved: bool,
    pub title: String,
    pub transcription_text: String,
    pub post_processed_text: Option<String>,
    pub post_process_prompt: Option<String>,
}

/// The mathematical image of a [`HistoryEntry`].
#[verifier::ext_equal]
pub ghost struct HistoryEntryV {
    pub id: int,
    pub file_name: Seq<char>,
    pub timestamp: int,
    pub saved: bool,
    pub title: Seq<char>,
    pub transcription_text: Seq<char>,
    pub post_processed_text: Option<Seq<char>>,
    pub post_process_prompt: Option<Seq<char>>,
}

impl DeepView for HistoryEntry {
    type V = HistoryEntryV;

    open spec fn deep_view(&self) -> HistoryEntryV {
        HistoryEntryV {
            id: self.id as int,
            file_name: self.file_name.deep_view(),
            timestamp: self.timestamp as int,
            saved: self.saved,
            title: self.title.deep_view(),
            transcription_text: self.transcription_text.deep_view(),
            post_processed_text: self.post_processed_text.deep_view(),
            post_process_prompt: self.post_process_prompt.deep_view(),
        }
    }
}

impl Clone for HistoryEntry {
    fn clone(&self) -> (r: Self)
        ensures
            r.deep_view() == self.deep_view(),
    {
        HistoryEntry {
            id: self.id,
            file_name: self.file_name.clone(),
            timestamp: self.timestamp,
            saved: self.saved,
            title: self.title.clone(),
            transcription_text: self.transcription_text.clone(),
            post_processed_text: match &self.post_processed_text {
                Some(s) => Some(s.clone()),
                None => None,
            },
            post_process_prompt: match &self.post_process_prompt {
                Some(s) => Some(s.clone()),
                None => None,
            },
        }
    }
}

/// One recorded meeting (a bounded recording-and-transcription run).
pub struct Meeting {
    pub id: i64,
    pub title: String,
    pub start_timestamp: i64,
    pub end_timestamp: Option<i64>,
    pub duration_seconds: i32,
    pub summary: Option<String>,
    pub is_pro: bool,
    pub file_name: Option<String>,
    pub is_favorite: bool,
}

/// The mathematical image of a [`Meeting`].
#[verifier::ext_equal]
pub ghost struct MeetingV {
    pub id: int,
    pub title: Seq<char>,
    pub start_timestamp: int,
    pub end_timestamp: Option<int>,
    pub duration_seconds: int,
    pub summary: Option<Seq<char>>,
    pub is_pro: bool,
    pub file_name: Option<Seq<char>>,
    pub is_favorite: bool,
}

impl DeepView for Meeting {
    type V = MeetingV;

    open spec fn deep_view(&self) -> MeetingV {
        MeetingV {
            id: self.id as int,
            title: self.title.deep_view(),
            start_timestamp: self.start_timestamp as int,
            end_timestamp: match self.end_timestamp {
                Some(t) => Some(t as int),
                None => None,
            },
            duration_seconds: self.duration_seconds as int,
            summary: self.summary.deep_view(),
            is_pro: self.is_pro,
            file_name: self.file_name.deep_view(),
            is_favorite: self.is_favorite,
        }
    }
}

impl Clone for Meeting {
    fn clone(&self) -> (r: Self)
        ensures
            r.deep_view() == self.deep_view(),
    {
        Meeting {
            id: self.id,
            title: self.title.clone(),
            start_timestamp: self.start_timestamp,
            end_timestamp: self.end_timestamp,
            duration_seconds: self.duration_seconds,
            summary: match &self.summary {
                Some(s) => Some(s.clone()),
                None => None,
            },
            is_pro: self.is_pro,
            file_name: match &self.file_name {
                Some(s) => Some(s.clone()),
                None => None,
            },
            is_favorite: self.is_favorite,
        }
    }
}

/// One transcribed span of a meeting. Offsets are milliseconds from
/// session start.
pub struct MeetingSegment {
    pub id: i64,
    pub meeting_id: i64,
    pub speaker_id: String,
    pub start_ms: u64,
    pub end_ms: u64,
    pub text: String,
}

/// The mathematical image of a [`MeetingSegment`].
#[verifier::ext_equal]
pub ghost struct MeetingSegmentV {
    pub id: int,
    pub meeting_id: int,
    pub speaker_id: Seq<char>,
    pub start_ms: int,
    pub end_ms: int,
    pub text: Seq<char>,
}

impl DeepView for MeetingSegment {
    type V = MeetingSegmentV;

    open spec fn deep_view(&self) -> MeetingSegmentV {
        MeetingSegmentV {
            id: self.id as int,
            meeting_id: self.meeting_id as int,
            speaker_id: self.speaker_id.deep_view(),
            start_ms: self.start_ms as int,
            end_ms: self.end_ms as int,
            text: self.text.deep_view(),
        }
    }
}

impl Clone for MeetingSegment {
    fn clone(&self) -> (r: Self)
        ensures
            r.deep_view() == self.deep_view(),
    {
        MeetingSegment {
            id: self.id,
            meeting_id: self.meeting_id,
            speaker_id: self.speaker_id.clone(),
            start_ms: self.start_ms,
            end_ms: self.end_ms,
            text: self.text.clone(),
        }
    }
}

/// One synthesis history entry.
pub struct TtsHistoryEntry {
    pub id: i64,
    pub text: String,
    pub voice_id: String,
    pub file_name: String,
    pub timestamp: i64,
    pub is_favorite: bool,
}

/// The mathematical image of a [`TtsHistoryEntry`].
#[verifier::ext_equal]
pub ghost struct TtsHistoryEntryV {
    pub id: int,
    pub text: Seq<char>,
    pub voice_id: Seq<char>,
    pub file_name: Seq<char>,
    pub timestamp: int,
    pub is_favorite: bool,
}

impl DeepView for TtsHistoryEntry {
    type V = TtsHistoryEntryV;

    open spec fn deep_view(&self) -> TtsHistoryEntryV {
        TtsHistoryEntryV {
            id: self.id as int,
            text: self.text.deep_view(),
            voice_id: self.voice_id.deep_view(),
            file_name: self.file_name.deep_view(),
            timestamp: self.timestamp as int,
            is_favorite: self.is_favorite,
        }
    }
}

impl Clone for TtsHistoryEntry {
    fn clone(&self) -> (r: Self)
        ensures
            r.deep_view() == self.deep_view(),
    {
        TtsHistoryEntry {
            id: self.id,
            text: self.text.clone(),
            voice_id: self.voice_id.clone(),
            file_name: self.file_name.clone(),
            timestamp: self.timestamp,
            is_favorite: self.is_favorite,
        }
    }
}

/// A meeting, its segments in start-offset order, and the resolved
/// audio path, as handed to detail queries.
pub struct MeetingDetails {
    pub meeting: Meeting,
    pub segments: Vec<MeetingSegment>,
    pub audio_path: Option<String>,
}

// ---------------------------------------------------------------------------
// Ordering helpers: timestamped lists are kept newest first.
// ---------------------------------------------------------------------------

/// Newest first: keys never increase along the sequence.
pub open spec fn sorted_desc(keys: Seq<int>) -> bool {
    forall|i: int, j: int| 0 <= i <= j < keys.len() ==> keys[i] >= keys[j]
}

/// Where a key is inserted in a newest-first list: after every element
/// at least as new, before the first strictly older one.
pub open spec fn insert_pos_desc(keys: Seq<int>, k: int) -> int
    decreases keys.len(),
{
    if keys.len() == 0 {
        0
    } else if keys[0] < k {
        0
    } else {
        1 + insert_pos_desc(keys.drop_first(), k)
    }
}

pub proof fn lemma_insert_pos_desc(keys: Seq<int>, k: int)
    ensures
        0 <= insert_pos_desc(keys, k) <= keys.len(),
        forall|i: int| 0 <= i < insert_pos_desc(keys, k) ==> keys[i] >= k,
        insert_pos_desc(keys, k) < keys.len() ==> keys[insert_pos_desc(keys, k)] < k,
    decreases keys.len(),
{
    if keys.len() > 0 && !(keys[0] < k) {
        lemma_insert_pos_desc(keys.drop_first(), k);
        let p = insert_pos_desc(keys, k);
        assert forall|i: int| 0 <= i < p implies keys[i] >= k by {
            if i > 0 {
                assert(keys.drop_first()[i - 1] >= k);
            }
        }
        if p < keys.len() {
            assert(keys.drop_first()[p - 1] == keys[p]);
        }
    }
}

pub proof fn lemma_sorted_insert(keys: Seq<int>, k: int)
    requires
        sorted_desc(keys),
    ensures
        sorted_desc(keys.insert(insert_pos_desc(keys, k), k)),
{
    let p = insert_pos_desc(keys, k);
    lemma_insert_pos_desc(keys, k);
    let r = keys.insert(p, k);
    assert forall|i: int, j: int| 0 <= i <= j < r.len() implies r[i] >= r[j] by {
        assert(forall|x: int| 0 <= x < p ==> r[x] == keys[x]);
        assert(forall|x: int| p < x < r.len() ==> r[x] == keys[x - 1]);
        assert(r[p] == k);
        if i < p && j == p {
            assert(keys[i] >= k);
        }
        if i == p && j > p {
            assert(keys[j - 1] < k || keys[j - 1] >= k);
            if keys[j - 1] >= k {
                assert(keys[p] < k);
                assert(keys[p] >= keys[j - 1]);
            }
        }
    }
}

/// The timestamps of a history-entry list.
pub open spec fn entry_keys(s: Seq<HistoryEntryV>) -> Seq<int> {
    Seq::new(s.len(), |i: int| s[i].timestamp)
}

/// The start timestamps of a meeting list.
pub open spec fn meeting_keys(s: Seq<MeetingV>) -> Seq<int> {
    Seq::new(s.len(), |i: int| s[i].start_timestamp)
}

/// The timestamps of a synthesis-history list.
pub open spec fn tts_keys(s: Seq<TtsHistoryEntryV>) -> Seq<int> {
    Seq::new(s.len(), |i: int| s[i].timestamp)
}

} // verus!

verus! {

// ---------------------------------------------------------------------------
// Deep-view bookkeeping for vector edits.
// ---------------------------------------------------------------------------

/// The deep view of a sequence of records.
pub open spec fn seq_dv<T: DeepView>(s: Seq<T>) -> Seq<T::V> {
    Seq::new(s.len(), |i: int| s[i].deep_view())
}

pub proof fn lemma_seq_dv_insert<T: DeepView>(s: Seq<T>, p: int, e: T)
    requires
        0 <= p <= s.len(),
    ensures
        seq_dv(s.insert(p, e)) =~= seq_dv(s).insert(p, e.deep_view()),
{
    s.insert_ensures(p, e);
    seq_dv(s).insert_ensures(p, e.deep_view());
}

pub proof fn lemma_seq_dv_remove<T: DeepView>(s: Seq<T>, p: int)
    requires
        0 <= p < s.len(),
    ensures
        seq_dv(s.remove(p)) =~= seq_dv(s).remove(p),
{
    s.remove_ensures(p);
    seq_dv(s).remove_ensures(p);
}

pub proof fn lemma_seq_dv_push<T: DeepView>(s: Seq<T>, e: T)
    ensures
        seq_dv(s.push(e)) =~= seq_dv(s).push(e.deep_view()),
{
}

// ---------------------------------------------------------------------------
// The store.
// ---------------------------------------------------------------------------

/// Distinct keys: no value occurs twice.
pub open spec fn distinct(keys: Seq<int>) -> bool {
    forall|i: int, j: int| 0 <= i < j < keys.len() ==> keys[i] != keys[j]
}

pub proof fn lemma_distinct_two(keys: Seq<int>, i: int, j: int)
    requires
        distinct(keys),
        0 <= i < keys.len(),
        0 <= j < keys.len(),
        i != j,
    ensures
        keys[i] != keys[j],
{
    if i < j {
        assert(0 <= i < j < keys.len() ==> keys[i] != keys[j]);
    } else {
        assert(0 <= j < i < keys.len() ==> keys[j] != keys[i]);
    }
}

/// Every id lies in `1 ..< hi`, as ids handed out by a counter that
/// started at one.
pub open spec fn ids_below(ids: Seq<int>, hi: int) -> bool {
    forall|i: int| 0 <= i < ids.len() ==> 1 <= #[trigger] ids[i] < hi
}

/// The ids of a history-entry list.
pub open spec fn entry_ids(s: Seq<HistoryEntryV>) -> Seq<int> {
    Seq::new(s.len(), |i: int| s[i].id)
}

/// The ids of a meeting list.
pub open spec fn meeting_ids(s: Seq<MeetingV>) -> Seq<int> {
    Seq::new(s.len(), |i: int| s[i].id)
}

/// The ids of a segment list.
pub open spec fn segment_ids(s: Seq<MeetingSegmentV>) -> Seq<int> {
    Seq::new(s.len(), |i: int| s[i].id)
}

/// The ids of a synthesis-history list.
pub open spec fn tts_ids(s: Seq<TtsHistoryEntryV>) -> Seq<int> {
    Seq::new(s.len(), |i: int| s[i].id)
}

/// The in-memory model of the durable store: per collection, the
/// records plus the next id its counter will hand out. Timestamped
/// collections are kept newest first; segments keep insertion order.
pub struct HistoryManager {
    pub recordings_dir: String,
    pub entries: Vec<HistoryEntry>,
    pub next_entry_id: i64,
    pub meetings: Vec<Meeting>,
    pub next_meeting_id: i64,
    pub segments: Vec<MeetingSegment>,
    pub next_segment_id: i64,
    pub tts_entries: Vec<TtsHistoryEntry>,
    pub next_tts_id: i64,
}

/// Whether `s` holds a history entry with this id.
pub open spec fn has_entry(s: Seq<HistoryEntryV>, id: int) -> bool {
    exists|i: int| 0 <= i < s.len() && (#[trigger] s[i].id) == id
}

/// The index of the history entry with this id (unique when ids are
/// distinct).
pub open spec fn entry_idx(s: Seq<HistoryEntryV>, id: int) -> int {
    choose|i: int| 0 <= i < s.len() && (#[trigger] s[i].id) == id
}

/// Whether `s` holds a meeting with this id.
pub open spec fn has_meeting(s: Seq<MeetingV>, id: int) -> bool {
    exists|i: int| 0 <= i < s.len() && (#[trigger] s[i].id) == id
}

/// The index of the meeting with this id.
pub open spec fn meeting_idx(s: Seq<MeetingV>, id: int) -> int {
    choose|i: int| 0 <= i < s.len() && (#[trigger] s[i].id) == id
}

/// Whether `s` holds a synthesis entry with this id.
pub open spec fn has_tts_entry(s: Seq<TtsHistoryEntryV>, id: int) -> bool {
    exists|i: int| 0 <= i < s.len() && (#[trigger] s[i].id) == id
}

/// The index of the synthesis entry with this id.
pub open spec fn tts_idx(s: Seq<TtsHistoryEntryV>, id: int) -> int {
    choose|i: int| 0 <= i < s.len() && (#[trigger] s[i].id) == id
}

impl HistoryManager {
    /// The store's invariant: newest-first order for the timestamped
    /// collections, and ids distinct and below their counter.
    pub open spec fn wf(&self) -> bool {
        &&& sorted_desc(entry_keys(self.entries.deep_view()))
        &&& distinct(entry_ids(self.entries.deep_view()))
        &&& ids_below(entry_ids(self.entries.deep_view()), self.next_entry_id as int)
        &&& sorted_desc(meeting_keys(self.meetings.deep_view()))
        &&& distinct(meeting_ids(self.meetings.deep_view()))
        &&& ids_below(meeting_ids(self.meetings.deep_view()), self.next_meeting_id as int)
        &&& distinct(segment_ids(self.segments.deep_view()))
        &&& ids_below(segment_ids(self.segments.deep_view()), self.next_segment_id as int)
        &&& sorted_desc(tts_keys(self.tts_entries.deep_view()))
        &&& distinct(tts_ids(self.tts_entries.deep_view()))
        &&& ids_below(tts_ids(self.tts_entries.deep_view()), self.next_tts_id as int)
        &&& 1 <= self.next_entry_id
        &&& 1 <= self.next_meeting_id
        &&& 1 <= self.next_segment_id
        &&& 1 <= self.next_tts_id
    }

    /// Everything but the transcription-history collection kept as it
    /// was.
    pub open spec fn only_entries_changed(pre: Self, post: Self) -> bool {
        &&& post.recordings_dir == pre.recordings_dir
        &&& post.meetings == pre.meetings
        &&& post.next_meeting_id == pre.next_meeting_id
        &&& post.segments == pre.segments
        &&& post.next_segment_id == pre.next_segment_id
        &&& post.tts_entries == pre.tts_entries
        &&& post.next_tts_id == pre.next_tts_id
    }

    /// Everything but the meeting collection kept as it was.
    pub open spec fn only_meetings_changed(pre: Self, post: Self) -> bool {
        &&& post.recordings_dir == pre.recordings_dir
        &&& post.entries == pre.entries
        &&& post.next_entry_id == pre.next_entry_id
        &&& post.segments == pre.segments
        &&& post.next_segment_id == pre.next_segment_id
        &&& post.tts_entries == pre.tts_entries
        &&& post.next_tts_id == pre.next_tts_id
    }

    /// Everything but the segment collection kept as it was.
    pub open spec fn only_segments_changed(pre: Self, post: Self) -> bool {
        &&& post.recordings_dir == pre.recordings_dir
        &&& post.entries == pre.entries
        &&& post.next_entry_id == pre.next_entry_id
        &&& post.meetings == pre.meetings
        &&& post.next_meeting_id == pre.next_meeting_id
        &&& post.tts_entries == pre.tts_entries
        &&& post.next_tts_id == pre.next_tts_id
    }

    /// Everything but the synthesis-history collection kept as it was.
    pub open spec fn only_tts_changed(pre: Self, post: Self) -> bool {
        &&& post.recordings_dir == pre.recordings_dir
        &&& post.entries == pre.entries
        &&& post.next_entry_id == pre.next_entry_id
        &&& post.meetings == pre.meetings
        &&& post.next_meeting_id == pre.next_meeting_id
        &&& post.segments == pre.segments
        &&& post.next_segment_id == pre.next_segment_id
    }

    /// An empty store over the given recordings directory; every id
    /// counter starts at one, as the storage layer's do.
    pub fn new(recordings_dir: String) -> (m: Self)
        ensures
            m.wf(),
            m.recordings_dir == recordings_dir,
            m.entries@.len() == 0,
            m.meetings@.len() == 0,
            m.segments@.len() == 0,
            m.tts_entries@.len() == 0,
            m.next_entry_id == 1,
            m.next_meeting_id == 1,
            m.next_segment_id == 1,
            m.next_tts_id == 1,
    {
        HistoryManager {
            recordings_dir,
            entries: Vec::new(),
            next_entry_id: 1,
            meetings: Vec::new(),
            next_meeting_id: 1,
            segments: Vec::new(),
            next_segment_id: 1,
            tts_entries: Vec::new(),
            next_tts_id: 1,
        }
    }

    /// The absolute path of a recording: the recordings directory, a
    /// separator, and the file name.
    pub fn get_audio_file_path(&self, file_name: &str) -> (r: String)
        ensures
            r@ == self.recordings_dir@ + seq!['/'] + file_name@,
    {
        let mut r = self.recordings_dir.clone();
        r.push('/');
        r.append(file_name);
        assert(r@ =~= self.recordings_dir@ + seq!['/'] + file_name@);
        r
    }
}

} // verus!

verus! {

impl HistoryManager {
    #[verifier::loop_isolation(false)]
    fn entry_insert_pos(entries: &Vec<HistoryEntry>, ts: i64) -> (p: usize)
        ensures
            p == insert_pos_desc(entry_keys(entries.deep_view()), ts as int),
            p <= entries@.len(),
    {
        let ghost keys = entry_keys(entries.deep_view());
        let n = entries.len();
        let mut p: usize = 0;
        while p < n && entries[p].timestamp >= ts
            invariant
                0 <= p <= n,
                n == entries@.len(),
                keys == entry_keys(entries.deep_view()),
                forall|i: int| 0 <= i < p ==> keys[i] >= ts as int,
            decreases n - p,
        {
            assert(keys[p as int] == entries.deep_view()[p as int].timestamp);
            p = p + 1;
        }
        proof {
            lemma_insert_pos_desc(keys, ts as int);
            let q = insert_pos_desc(keys, ts as int);
            if p < q {
                assert(keys[p as int] >= ts as int);
                assert(keys[p as int] == entries.deep_view()[p as int].timestamp);
                assert(false);
            }
            if q < p {
                assert(keys[q] < ts as int);
                assert(false);
            }
        }
        p
    }

    /// Inserts a new transcription history entry, newest first, with
    /// `saved` clear and the next free id.
    pub fn save_to_database(
        &mut self,
        file_name: String,
        timestamp: i64,
        title: String,
        transcription_text: String,
        post_processed_text: Option<String>,
        post_process_prompt: Option<String>,
    )
        requires
            old(self).wf(),
            old(self).next_entry_id < i64::MAX,
        ensures
            final(self).wf(),
            Self::only_entries_changed(*old(self), *final(self)),
            final(self).next_entry_id == old(self).next_entry_id + 1,
            final(self).entries.deep_view() == old(self).entries.deep_view().insert(
                insert_pos_desc(entry_keys(old(self).entries.deep_view()), timestamp as int),
                HistoryEntryV {
                    id: old(self).next_entry_id as int,
                    file_name: file_name@,
                    timestamp: timestamp as int,
                    saved: false,
                    title: title@,
                    transcription_text: transcription_text@,
                    post_processed_text: post_processed_text.deep_view(),
                    post_process_prompt: post_process_prompt.deep_view(),
                },
            ),
    {
        let ghost pre = old(self).entries.deep_view();
        let ghost keys = entry_keys(pre);
        let p = Self::entry_insert_pos(&self.entries, timestamp);
        let e = HistoryEntry {
            id: self.next_entry_id,
            file_name,
            timestamp,
            saved: false,
            title,
            transcription_text,
            post_processed_text,
            post_process_prompt,
        };
        let ghost ev = e.deep_view();
        self.entries.insert(p, e);
        self.next_entry_id = self.next_entry_id + 1;
        proof {
            lemma_seq_dv_insert(old(self).entries@, p as int, e);
            assert(self.entries.deep_view() =~= seq_dv(self.entries@));
            assert(pre =~= seq_dv(old(self).entries@));
            assert(self.entries.deep_view() =~= pre.insert(p as int, ev));
            lemma_insert_pos_desc(keys, timestamp as int);
            lemma_sorted_insert(keys, timestamp as int);
            pre.insert_ensures(p as int, ev);
            assert(entry_keys(self.entries.deep_view()) =~= keys.insert(p as int,
                timestamp as int));
            assert(sorted_desc(entry_keys(self.entries.deep_view())));
            let newids = entry_ids(self.entries.deep_view());
            let oldids = entry_ids(pre);
            assert forall|i: int, j: int|
                0 <= i < j < newids.len() implies newids[i] != newids[j] by {
                assert(forall|x: int|
                    0 <= x < newids.len() && x != p ==> newids[x] == if x < p {
                        oldids[x]
                    } else {
                        oldids[x - 1]
                    });
                assert(newids[p as int] == old(self).next_entry_id as int);
            }
            assert forall|x: int| 0 <= x < newids.len() implies 1 <= #[trigger] newids[x]
                < self.next_entry_id as int by {
                if x < p {
                    assert(newids[x] == oldids[x]);
                    assert(1 <= oldids[x] < old(self).next_entry_id as int);
                } else if x == p {
                    assert(newids[x] == old(self).next_entry_id as int);
                } else {
                    assert(newids[x] == oldids[x - 1]);
                    assert(1 <= oldids[x - 1] < old(self).next_entry_id as int);
                }
            }
            assert(ids_below(newids, self.next_entry_id as int));
        }
    }

    /// Every transcription history entry, newest first.
    #[verifier::loop_isolation(false)]
    pub fn get_history_entries(&self) -> (r: Vec<HistoryEntry>)
        ensures
            r.deep_view() == self.entries.deep_view(),
    {
        let mut r: Vec<HistoryEntry> = Vec::new();
        let n = self.entries.len();
        let mut i: usize = 0;
        while i < n
            invariant
                0 <= i <= n,
                n == self.entries@.len(),
                r.deep_view() =~= self.entries.deep_view().take(i as int),
            decreases n - i,
        {
            let e = self.entries[i].clone();
            r.push(e);
            proof {
                assert(r.deep_view() =~= self.entries.deep_view().take(i + 1));
            }
            i = i + 1;
        }
        assert(self.entries.deep_view().take(n as int) =~= self.entries.deep_view());
        r
    }

    /// The newest entry, if any: the head of the newest-first list.
    pub fn get_latest_entry(&self) -> (r: Option<HistoryEntry>)
        requires
            self.wf(),
        ensures
            (r is Some) <==> self.entries@.len() > 0,
            r matches Some(e) ==> {
                &&& e.deep_view() == self.entries.deep_view()[0]
                &&& forall|i: int|
                    0 <= i < self.entries@.len() ==> e.deep_view().timestamp
                        >= #[trigger] self.entries.deep_view()[i].timestamp
            },
    {
        if self.entries.len() == 0 {
            None
        } else {
            let e = self.entries[0].clone();
            proof {
                let keys = entry_keys(self.entries.deep_view());
                assert forall|i: int|
                    0 <= i < self.entries@.len() implies e.deep_view().timestamp
                    >= self.entries.deep_view()[i].timestamp by {
                    assert(keys[0] >= keys[i]);
                }
            }
            Some(e)
        }
    }

    /// The entry with this id, if present.
    #[verifier::loop_isolation(false)]
    pub fn get_entry_by_id(&self, id: i64) -> (r: Option<HistoryEntry>)
        requires
            self.wf(),
        ensures
            (r is Some) <==> has_entry(self.entries.deep_view(), id as int),
            r matches Some(e) ==> e.deep_view() == self.entries.deep_view()[entry_idx(
                self.entries.deep_view(),
                id as int,
            )],
    {
        let ghost dv = self.entries.deep_view();
        let n = self.entries.len();
        let mut i: usize = 0;
        while i < n
            invariant
                0 <= i <= n,
                n == self.entries@.len(),
                dv == self.entries.deep_view(),
                forall|j: int| 0 <= j < i ==> (#[trigger] dv[j].id) != id as int,
            decreases n - i,
        {
            if self.entries[i].id == id {
                let e = self.entries[i].clone();
                proof {
                    assert(dv[i as int].id == id as int);
                    let k = entry_idx(dv, id as int);
                    assert(dv[k].id == id as int);
                    if k != i as int {
                        let ids = entry_ids(dv);
                        assert(ids[k] == dv[k].id);
                        assert(ids[i as int] == dv[i as int].id);
                        lemma_distinct_two(ids, k, i as int);
                        assert(false);
                    }
                }
                return Some(e);
            }
            i = i + 1;
        }
        proof {
            if has_entry(dv, id as int) {
                let k = choose|k: int| 0 <= k < dv.len() && (#[trigger] dv[k].id) == id as int;
                assert(dv[k].id != id as int);
            }
        }
        None
    }

    /// Removes the entry with this id; hands back its recording's file
    /// name so the caller can delete the file as well. Removing a
    /// missing id changes nothing.
    #[verifier::loop_isolation(false)]
    pub fn delete_entry(&mut self, id: i64) -> (r: Option<String>)
        requires
            old(self).wf(),
        ensures
            final(self).wf(),
            Self::only_entries_changed(*old(self), *final(self)),
            final(self).next_entry_id == old(self).next_entry_id,
            has_entry(old(self).entries.deep_view(), id as int) ==> {
                let dv = old(self).entries.deep_view();
                let k = entry_idx(dv, id as int);
                &&& final(self).entries.deep_view() == dv.remove(k)
                &&& r matches Some(name) && name@ == dv[k].file_name
            },
            !has_entry(old(self).entries.deep_view(), id as int) ==> *final(self) == *old(self)
                && r is None,
    {
        let ghost dv = self.entries.deep_view();
        let n = self.entries.len();
        let mut i: usize = 0;
        while i < n
            invariant
                0 <= i <= n,
                n == self.entries@.len(),
                *self == *old(self),
                dv == self.entries.deep_view(),
                forall|j: int| 0 <= j < i ==> (#[trigger] dv[j].id) != id as int,
            decreases n - i,
        {
            if self.entries[i].id == id {
                let e = self.entries.remove(i);
                proof {
                    assert(dv[i as int].id == id as int);
                    let k = entry_idx(dv, id as int);
                    assert(dv[k].id == id as int);
                    if k != i as int {
                        let ids = entry_ids(dv);
                        assert(ids[k] == dv[k].id);
                        assert(ids[i as int] == dv[i as int].id);
                        lemma_distinct_two(ids, k, i as int);
                        assert(false);
                    }
                    assert(dv.len() == old(self).entries@.len());
                    lemma_seq_dv_remove(old(self).entries@, i as int);
                    assert(self.entries.deep_view() =~= seq_dv(self.entries@));
                    assert(dv =~= seq_dv(old(self).entries@));
                    assert(self.entries.deep_view() =~= dv.remove(i as int));
                    dv.remove_ensures(i as int);
                    assert(entry_keys(self.entries.deep_view()) =~= entry_keys(dv).remove(
                        i as int));
                    entry_keys(dv).remove_ensures(i as int);
                    assert(entry_ids(self.entries.deep_view()) =~= entry_ids(dv).remove(i as int));
                    entry_ids(dv).remove_ensures(i as int);
                }
                return Some(e.file_name);
            }
            i = i + 1;
        }
        proof {
            if has_entry(dv, id as int) {
                let k = choose|k: int| 0 <= k < dv.len() && (#[trigger] dv[k].id) == id as int;
                assert(dv[k].id != id as int);
            }
        }
        None
    }
}

} // verus!

verus! {

/// The entry with its `saved` flag replaced.
pub open spec fn entry_with_saved(e: HistoryEntryV, s: bool) -> HistoryEntryV {
    HistoryEntryV {
        id: e.id,
        file_name: e.file_name,
        timestamp: e.timestamp,
        saved: s,
        title: e.title,
        transcription_text: e.transcription_text,
        post_processed_text: e.post_processed_text,
        post_process_prompt: e.post_process_prompt,
    }
}

/// The list with the `saved` flag of the entry carrying this id
/// flipped.
pub open spec fn toggle_entry_saved(s: Seq<HistoryEntryV>, id: int) -> Seq<HistoryEntryV> {
    Seq::new(
        s.len(),
        |i: int|
            if s[i].id == id {
                entry_with_saved(s[i], !s[i].saved)
            } else {
                s[i]
            },
    )
}

impl HistoryManager {
    /// Flips the `saved` flag of the entry with this id; a missing id
    /// is reported as [`BackendError::NotFound`] and changes nothing.
    #[verifier::loop_isolation(false)]
    pub fn toggle_saved_status(&mut self, id: i64) -> (r: Result<(), BackendError>)
        requires
            old(self).wf(),
        ensures
            final(self).wf(),
            Self::only_entries_changed(*old(self), *final(self)),
            final(self).next_entry_id == old(self).next_entry_id,
            has_entry(old(self).entries.deep_view(), id as int) ==> r is Ok
                && final(self).entries.deep_view() == toggle_entry_saved(
                old(self).entries.deep_view(),
                id as int,
            ),
            !has_entry(old(self).entries.deep_view(), id as int) ==> r == Err::<(), BackendError>(
                BackendError::NotFound,
            ) && *final(self) == *old(self),
    {
        let ghost dv = self.entries.deep_view();
        let n = self.entries.len();
        let mut i: usize = 0;
        while i < n
            invariant
                0 <= i <= n,
                *self == *old(self),
                forall|j: int| 0 <= j < i ==> (#[trigger] dv[j].id) != id as int,
            decreases n - i,
        {
            if self.entries[i].id == id {
                let mut e = self.entries.remove(i);
                let ghost mid = self.entries@;
                e.saved = !e.saved;
                self.entries.insert(i, e);
                proof {
                    assert(dv[i as int].id == id as int);
                    lemma_seq_dv_remove(old(self).entries@, i as int);
                    lemma_seq_dv_insert(mid, i as int, e);
                    assert(seq_dv(mid) =~= dv.remove(i as int));
                    let cur = self.entries.deep_view();
                    assert(cur =~= seq_dv(mid).insert(i as int, e.deep_view()));
                    dv.remove_ensures(i as int);
                    dv.remove(i as int).insert_ensures(i as int, e.deep_view());
                    assert(e.deep_view() == entry_with_saved(dv[i as int], !dv[i as int].saved));
                    assert forall|x: int| 0 <= x < cur.len() implies cur[x] == toggle_entry_saved(
                        dv,
                        id as int,
                    )[x] by {
                        if x != i as int {
                            lemma_distinct_two(entry_ids(dv), i as int, x);
                            assert(dv[x].id != id as int);
                            if x < i as int {
                                assert(cur[x] == dv.remove(i as int)[x]);
                            } else {
                                assert(cur[x] == dv.remove(i as int)[x - 1]);
                                assert(dv.remove(i as int)[x - 1] == dv[x]);
                            }
                        }
                    }
                    assert(cur =~= toggle_entry_saved(dv, id as int));
                    assert(entry_keys(cur) =~= entry_keys(dv));
                    assert(entry_ids(cur) =~= entry_ids(dv));
                }
                return Ok(());
            }
            i = i + 1;
        }
        proof {
            if has_entry(dv, id as int) {
                let k = choose|k: int| 0 <= k < dv.len() && (#[trigger] dv[k].id) == id as int;
                assert(dv[k].id != id as int);
            }
        }
        Err(BackendError::NotFound)
    }
}

// ---------------------------------------------------------------------------
// Retention pruning.
// ---------------------------------------------------------------------------

/// What count-based pruning keeps: every saved entry, and the first
/// `quota` unsaved ones (the list is newest first, so those are the
/// newest).
pub open spec fn prune_kept(s: Seq<HistoryEntryV>, quota: nat) -> Seq<HistoryEntryV>
    decreases s.len(),
{
    if s.len() == 0 {
        s
    } else if s[0].saved {
        seq![s[0]] + prune_kept(s.drop_first(), quota)
    } else if quota > 0 {
        seq![s[0]] + prune_kept(s.drop_first(), (quota - 1) as nat)
    } else {
        prune_kept(s.drop_first(), 0)
    }
}

/// The file names count-based pruning deletes, in list order.
pub open spec fn prune_removed(s: Seq<HistoryEntryV>, quota: nat) -> Seq<Seq<char>>
    decreases s.len(),
{
    if s.len() == 0 {
        Seq::empty()
    } else if s[0].saved {
        prune_removed(s.drop_first(), quota)
    } else if quota > 0 {
        prune_removed(s.drop_first(), (quota - 1) as nat)
    } else {
        seq![s[0].file_name] + prune_removed(s.drop_first(), 0)
    }
}

/// What time-based pruning keeps: every saved entry, and unsaved ones
/// at or after the cutoff.
pub open spec fn keep_recent(s: Seq<HistoryEntryV>, cutoff: int) -> Seq<HistoryEntryV>
    decreases s.len(),
{
    if s.len() == 0 {
        s
    } else if s[0].saved || s[0].timestamp >= cutoff {
        seq![s[0]] + keep_recent(s.drop_first(), cutoff)
    } else {
        keep_recent(s.drop_first(), cutoff)
    }
}

/// The file names time-based pruning deletes, in list order.
pub open spec fn removed_old(s: Seq<HistoryEntryV>, cutoff: int) -> Seq<Seq<char>>
    decreases s.len(),
{
    if s.len() == 0 {
        Seq::empty()
    } else if s[0].saved || s[0].timestamp >= cutoff {
        removed_old(s.drop_first(), cutoff)
    } else {
        seq![s[0].file_name] + removed_old(s.drop_first(), cutoff)
    }
}

proof fn lemma_prune_kept_wf(s: Seq<HistoryEntryV>, quota: nat, hi: int)
    requires
        sorted_desc(entry_keys(s)),
        distinct(entry_ids(s)),
        ids_below(entry_ids(s), hi),
    ensures
        sorted_desc(entry_keys(prune_kept(s, quota))),
        distinct(entry_ids(prune_kept(s, quota))),
        ids_below(entry_ids(prune_kept(s, quota)), hi),
        forall|x: int|
            0 <= x < prune_kept(s, quota).len() ==> exists|y: int|
                0 <= y < s.len() && #[trigger] prune_kept(s, quota)[x] == s[y],
    decreases s.len(),
{
    if s.len() > 0 {
        let t = s.drop_first();
        assert forall|i: int, j: int|
            0 <= i <= j < t.len() implies entry_keys(t)[i] >= entry_keys(t)[j] by {
            assert(entry_keys(s)[i + 1] >= entry_keys(s)[j + 1]);
        }
        assert forall|i: int, j: int|
            0 <= i < j < t.len() implies entry_ids(t)[i] != entry_ids(t)[j] by {
            lemma_distinct_two(entry_ids(s), i + 1, j + 1);
        }
        assert forall|i: int| 0 <= i < t.len() implies 1 <= #[trigger] entry_ids(t)[i] < hi by {
            assert(1 <= entry_ids(s)[i + 1] < hi);
        }
        let subquota: nat = if s[0].saved || quota == 0 {
            quota
        } else {
            (quota - 1) as nat
        };
        lemma_prune_kept_wf(t, subquota, hi);
        let r = prune_kept(s, quota);
        let rt = prune_kept(t, subquota);
        if s[0].saved || quota > 0 {
            assert(r =~= seq![s[0]] + rt);
            assert forall|x: int| 0 <= x < r.len() implies exists|y: int|
                0 <= y < s.len() && #[trigger] r[x] == s[y] by {
                if x == 0 {
                    assert(r[0] == s[0]);
                } else {
                    let y0 = choose|y0: int| 0 <= y0 < t.len() && #[trigger] rt[x - 1] == t[y0];
                    assert(r[x] == s[y0 + 1]);
                }
            }
            assert forall|i: int, j: int|
                0 <= i <= j < r.len() implies entry_keys(r)[i] >= entry_keys(r)[j] by {
                if i == 0 && j > 0 {
                    let y0 = choose|y0: int| 0 <= y0 < t.len() && #[trigger] rt[j - 1] == t[y0];
                    assert(entry_keys(s)[0] >= entry_keys(s)[y0 + 1]);
                } else if i > 0 {
                    assert(entry_keys(rt)[i - 1] >= entry_keys(rt)[j - 1]);
                }
            }
            assert forall|i: int, j: int|
                0 <= i < j < r.len() implies entry_ids(r)[i] != entry_ids(r)[j] by {
                if i == 0 {
                    let y0 = choose|y0: int| 0 <= y0 < t.len() && #[trigger] rt[j - 1] == t[y0];
                    lemma_distinct_two(entry_ids(s), 0, y0 + 1);
                    assert(entry_ids(r)[j] == t[y0].id);
                } else {
                    lemma_distinct_two(entry_ids(rt), i - 1, j - 1);
                }
            }
            assert forall|i: int| 0 <= i < r.len() implies 1 <= #[trigger] entry_ids(r)[i]
                < hi by {
                if i == 0 {
                    assert(1 <= entry_ids(s)[0] < hi);
                } else {
                    assert(1 <= entry_ids(rt)[i - 1] < hi);
                }
            }
        } else {
            assert(r == rt);
        }
    }
}

proof fn lemma_keep_recent_wf(s: Seq<HistoryEntryV>, cutoff: int, hi: int)
    requires
        sorted_desc(entry_keys(s)),
        distinct(entry_ids(s)),
        ids_below(entry_ids(s), hi),
    ensures
        sorted_desc(entry_keys(keep_recent(s, cutoff))),
        distinct(entry_ids(keep_recent(s, cutoff))),
        ids_below(entry_ids(keep_recent(s, cutoff)), hi),
        forall|x: int|
            0 <= x < keep_recent(s, cutoff).len() ==> exists|y: int|
                0 <= y < s.len() && #[trigger] keep_recent(s, cutoff)[x] == s[y],
    decreases s.len(),
{
    if s.len() > 0 {
        let t = s.drop_first();
        assert forall|i: int, j: int|
            0 <= i <= j < t.len() implies entry_keys(t)[i] >= entry_keys(t)[j] by {
            assert(entry_keys(s)[i + 1] >= entry_keys(s)[j + 1]);
        }
        assert forall|i: int, j: int|
            0 <= i < j < t.len() implies entry_ids(t)[i] != entry_ids(t)[j] by {
            lemma_distinct_two(entry_ids(s), i + 1, j + 1);
        }
        assert forall|i: int| 0 <= i < t.len() implies 1 <= #[trigger] entry_ids(t)[i] < hi by {
            assert(1 <= entry_ids(s)[i + 1] < hi);
        }
        lemma_keep_recent_wf(t, cutoff, hi);
        let r = keep_recent(s, cutoff);
        let rt = keep_recent(t, cutoff);
        if s[0].saved || s[0].timestamp >= cutoff {
            assert(r =~= seq![s[0]] + rt);
            assert forall|x: int| 0 <= x < r.len() implies exists|y: int|
                0 <= y < s.len() && #[trigger] r[x] == s[y] by {
                if x == 0 {
                    assert(r[0] == s[0]);
                } else {
                    let y0 = choose|y0: int| 0 <= y0 < t.len() && #[trigger] rt[x - 1] == t[y0];
                    assert(r[x] == s[y0 + 1]);
                }
            }
            assert forall|i: int, j: int|
                0 <= i <= j < r.len() implies entry_keys(r)[i] >= entry_keys(r)[j] by {
                if i == 0 && j > 0 {
                    let y0 = choose|y0: int| 0 <= y0 < t.len() && #[trigger] rt[j - 1] == t[y0];
                    assert(entry_keys(s)[0] >= entry_keys(s)[y0 + 1]);
                } else if i > 0 {
                    assert(entry_keys(rt)[i - 1] >= entry_keys(rt)[j - 1]);
                }
            }
            assert forall|i: int, j: int|
                0 <= i < j < r.len() implies entry_ids(r)[i] != entry_ids(r)[j] by {
                if i == 0 {
                    let y0 = choose|y0: int| 0 <= y0 < t.len() && #[trigger] rt[j - 1] == t[y0];
                    lemma_distinct_two(entry_ids(s), 0, y0 + 1);
                    assert(entry_ids(r)[j] == t[y0].id);
                } else {
                    lemma_distinct_two(entry_ids(rt), i - 1, j - 1);
                }
            }
            assert forall|i: int| 0 <= i < r.len() implies 1 <= #[trigger] entry_ids(r)[i]
                < hi by {
                if i == 0 {
                    assert(1 <= entry_ids(s)[0] < hi);
                } else {
                    assert(1 <= entry_ids(rt)[i - 1] < hi);
                }
            }
        }
    }
}

} // verus!

verus! {

impl HistoryManager {
    /// Count-based retention: keeps every saved entry and the newest
    /// `limit` unsaved ones; hands back the file names of what was
    /// dropped so the caller can delete the recordings.
    #[verifier::loop_isolation(false)]
    pub fn cleanup_by_count(&mut self, limit: usize) -> (removed: Vec<String>)
        requires
            old(self).wf(),
        ensures
            final(self).wf(),
            Self::only_entries_changed(*old(self), *final(self)),
            final(self).next_entry_id == old(self).next_entry_id,
            final(self).entries.deep_view() == prune_kept(
                old(self).entries.deep_view(),
                limit as nat,
            ),
            removed.deep_view() == prune_removed(old(self).entries.deep_view(), limit as nat),
    {
        let ghost dv = self.entries.deep_view();
        let mut kept: Vec<HistoryEntry> = Vec::new();
        let mut removed: Vec<String> = Vec::new();
        let mut quota: usize = limit;
        let n = self.entries.len();
        let mut i: usize = 0;
        while i < n
            invariant
                0 <= i <= n,
                *self == *old(self),
                quota <= limit,
                prune_kept(dv, limit as nat) =~= kept.deep_view() + prune_kept(
                    dv.skip(i as int),
                    quota as nat,
                ),
                prune_removed(dv, limit as nat) =~= removed.deep_view() + prune_removed(
                    dv.skip(i as int),
                    quota as nat,
                ),
            decreases n - i,
        {
            let ghost rest = dv.skip(i as int);
            proof {
                assert(rest[0] == dv[i as int]);
                assert(rest.drop_first() =~= dv.skip(i + 1));
            }
            let e = &self.entries[i];
            if e.saved {
                let c = e.clone();
                proof {
                    lemma_seq_dv_push(kept@, c);
                }
                kept.push(c);
            } else if quota > 0 {
                quota = quota - 1;
                let c = e.clone();
                proof {
                    lemma_seq_dv_push(kept@, c);
                }
                kept.push(c);
            } else {
                let name = e.file_name.clone();
                proof {
                    lemma_seq_dv_push(removed@, name);
                }
                removed.push(name);
            }
            i = i + 1;
        }
        proof {
            assert(dv.skip(n as int) =~= Seq::<HistoryEntryV>::empty());
            assert(prune_kept(dv.skip(n as int), quota as nat) =~= Seq::<HistoryEntryV>::empty());
            assert(prune_removed(dv.skip(n as int), quota as nat) =~= Seq::<Seq<char>>::empty());
            assert(kept.deep_view() =~= prune_kept(dv, limit as nat));
            assert(removed.deep_view() =~= prune_removed(dv, limit as nat));
            lemma_prune_kept_wf(dv, limit as nat, old(self).next_entry_id as int);
        }
        self.entries = kept;
        removed
    }

    /// Time-based retention: keeps every saved entry and unsaved ones
    /// at or after the cutoff timestamp; hands back the dropped file
    /// names.
    #[verifier::loop_isolation(false)]
    pub fn cleanup_by_time(&mut self, cutoff: i64) -> (removed: Vec<String>)
        requires
            old(self).wf(),
        ensures
            final(self).wf(),
            Self::only_entries_changed(*old(self), *final(self)),
            final(self).next_entry_id == old(self).next_entry_id,
            final(self).entries.deep_view() == keep_recent(
                old(self).entries.deep_view(),
                cutoff as int,
            ),
            removed.deep_view() == removed_old(old(self).entries.deep_view(), cutoff as int),
    {
        let ghost dv = self.entries.deep_view();
        let mut kept: Vec<HistoryEntry> = Vec::new();
        let mut removed: Vec<String> = Vec::new();
        let n = self.entries.len();
        let mut i: usize = 0;
        while i < n
            invariant
                0 <= i <= n,
                *self == *old(self),
                keep_recent(dv, cutoff as int) =~= kept.deep_view() + keep_recent(
                    dv.skip(i as int),
                    cutoff as int,
                ),
                removed_old(dv, cutoff as int) =~= removed.deep_view() + removed_old(
                    dv.skip(i as int),
                    cutoff as int,
                ),
            decreases n - i,
        {
            let ghost rest = dv.skip(i as int);
            proof {
                assert(rest[0] == dv[i as int]);
                assert(rest.drop_first() =~= dv.skip(i + 1));
            }
            let e = &self.entries[i];
            if e.saved || e.timestamp >= cutoff {
                let c = e.clone();
                proof {
                    lemma_seq_dv_push(kept@, c);
                }
                kept.push(c);
            } else {
                let name = e.file_name.clone();
                proof {
                    lemma_seq_dv_push(removed@, name);
                }
                removed.push(name);
            }
            i = i + 1;
        }
        proof {
            assert(dv.skip(n as int) =~= Seq::<HistoryEntryV>::empty());
            assert(kept.deep_view() =~= keep_recent(dv, cutoff as int));
            assert(removed.deep_view() =~= removed_old(dv, cutoff as int));
            lemma_keep_recent_wf(dv, cutoff as int, old(self).next_entry_id as int);
        }
        self.entries = kept;
        removed
    }

    /// Applies the configured retention policy: nothing for `Never`,
    /// count-based pruning for `PreserveLimit`, and otherwise a cutoff
    /// of three days, two weeks, or ninety days before `now`.
    pub fn cleanup_old_entries(
        &mut self,
        policy: RetentionPolicy,
        history_limit: usize,
        now: i64,
    ) -> (removed: Vec<String>)
        requires
            old(self).wf(),
            now >= i64::MIN + 7776000,
        ensures
            final(self).wf(),
            Self::only_entries_changed(*old(self), *final(self)),
            final(self).next_entry_id == old(self).next_entry_id,
            policy is Never ==> *final(self) == *old(self) && removed@.len() == 0,
            policy is PreserveLimit ==> final(self).entries.deep_view() == prune_kept(
                old(self).entries.deep_view(),
                history_limit as nat,
            ) && removed.deep_view() == prune_removed(
                old(self).entries.deep_view(),
                history_limit as nat,
            ),
            policy is Days3 ==> final(self).entries.deep_view() == keep_recent(
                old(self).entries.deep_view(),
                now - 259200,
            ) && removed.deep_view() == removed_old(old(self).entries.deep_view(), now - 259200),
            policy is Weeks2 ==> final(self).entries.deep_view() == keep_recent(
                old(self).entries.deep_view(),
                now - 1209600,
            ) && removed.deep_view() == removed_old(old(self).entries.deep_view(), now - 1209600),
            policy is Months3 ==> final(self).entries.deep_view() == keep_recent(
                old(self).entries.deep_view(),
                now - 7776000,
            ) && removed.deep_view() == removed_old(old(self).entries.deep_view(), now - 7776000),
    {
        match policy {
            RetentionPolicy::Never => Vec::new(),
            RetentionPolicy::PreserveLimit => self.cleanup_by_count(history_limit),
            RetentionPolicy::Days3 => self.cleanup_by_time(now - 259200),
            RetentionPolicy::Weeks2 => self.cleanup_by_time(now - 1209600),
            RetentionPolicy::Months3 => self.cleanup_by_time(now - 7776000),
        }
    }
}

} // verus!

verus! {

/// A meeting as freshly created: no end, zero duration, no summary,
/// not favorite, with its recording's file name attached.
pub open spec fn new_meeting_v(id: int, title: Seq<char>, start: int, file_name: Seq<char>) -> MeetingV {
    MeetingV {
        id: id,
        title: title,
        start_timestamp: start,
        end_timestamp: None,
        duration_seconds: 0,
        summary: None,
        is_pro: false,
        file_name: Some(file_name),
        is_favorite: false,
    }
}

/// The meeting with its end timestamp and duration filled in.
pub open spec fn meeting_finalized(m: MeetingV, end: int, dur: int) -> MeetingV {
    MeetingV {
        id: m.id,
        title: m.title,
        start_timestamp: m.start_timestamp,
        end_timestamp: Some(end),
        duration_seconds: dur,
        summary: m.summary,
        is_pro: m.is_pro,
        file_name: m.file_name,
        is_favorite: m.is_favorite,
    }
}

/// The meeting with its favorite flag replaced.
pub open spec fn meeting_with_favorite(m: MeetingV, f: bool) -> MeetingV {
    MeetingV {
        id: m.id,
        title: m.title,
        start_timestamp: m.start_timestamp,
        end_timestamp: m.end_timestamp,
        duration_seconds: m.duration_seconds,
        summary: m.summary,
        is_pro: m.is_pro,
        file_name: m.file_name,
        is_favorite: f,
    }
}

/// The list with the meeting carrying this id finalized.
pub open spec fn finalize_meeting_map(s: Seq<MeetingV>, id: int, end: int, dur: int) -> Seq<
    MeetingV,
> {
    Seq::new(
        s.len(),
        |i: int|
            if s[i].id == id {
                meeting_finalized(s[i], end, dur)
            } else {
                s[i]
            },
    )
}

/// The list with the favorite flag of the meeting carrying this id
/// flipped.
pub open spec fn toggle_meeting_fav_map(s: Seq<MeetingV>, id: int) -> Seq<MeetingV> {
    Seq::new(
        s.len(),
        |i: int|
            if s[i].id == id {
                meeting_with_favorite(s[i], !s[i].is_favorite)
            } else {
                s[i]
            },
    )
}

/// Relies on `chrono::DateTime::from_timestamp` and `Local`: renders
/// the timestamp as a human-readable title in the machine's local time
/// zone. The result depends on that time zone, so nothing is promised
/// of it; `None` comes back only for timestamps out of chrono's range.
#[verifier::external_body]
fn local_timestamp_title(timestamp: i64) -> (r: Option<String>) {
    chrono::DateTime::from_timestamp(timestamp, 0).map(
        |utc| utc.with_timezone(&chrono::Local).format("%B %e, %Y - %l:%M%p").to_string(),
    )
}

/// The default title of a recording made at `timestamp`: the local
/// date and time, or `Recording {timestamp}` where the timestamp has
/// no local rendering.
fn format_timestamp_title(timestamp: i64) -> String {
    match local_timestamp_title(timestamp) {
        Some(t) => t,
        None => {
            let mut s = "Recording ".to_owned();
            let d = crate::text::decimal_string(timestamp);
            s.append(d.as_str());
            s
        },
    }
}

impl HistoryManager {
    #[verifier::loop_isolation(false)]
    fn meeting_insert_pos(meetings: &Vec<Meeting>, ts: i64) -> (p: usize)
        ensures
            p == insert_pos_desc(meeting_keys(meetings.deep_view()), ts as int),
            p <= meetings@.len(),
    {
        let ghost keys = meeting_keys(meetings.deep_view());
        let n = meetings.len();
        let mut p: usize = 0;
        while p < n && meetings[p].start_timestamp >= ts
            invariant
                0 <= p <= n,
                forall|i: int| 0 <= i < p ==> keys[i] >= ts as int,
            decreases n - p,
        {
            assert(keys[p as int] == meetings.deep_view()[p as int].start_timestamp);
            p = p + 1;
        }
        proof {
            lemma_insert_pos_desc(keys, ts as int);
            let q = insert_pos_desc(keys, ts as int);
            if p < q {
                assert(keys[p as int] >= ts as int);
                assert(keys[p as int] == meetings.deep_view()[p as int].start_timestamp);
                assert(false);
            }
            if q < p {
                assert(keys[q] < ts as int);
                assert(false);
            }
        }
        p
    }

    /// Creates a meeting record: the next free id, the given or
    /// default title, the start timestamp, and the file name
    /// `meeting-{timestamp}.wav`; hands back id and file name.
    pub fn create_meeting(&mut self, title: Option<String>, timestamp: i64) -> (r: (i64, String))
        requires
            old(self).wf(),
            old(self).next_meeting_id < i64::MAX,
        ensures
            final(self).wf(),
            Self::only_meetings_changed(*old(self), *final(self)),
            final(self).next_meeting_id == old(self).next_meeting_id + 1,
            r.0 == old(self).next_meeting_id,
            r.1@ == "meeting-"@ + dec_str_signed(timestamp as int) + ".wav"@,
            ({
                let pos = insert_pos_desc(meeting_keys(old(self).meetings.deep_view()),
                    timestamp as int);
                let newdv = final(self).meetings.deep_view();
                &&& newdv == old(self).meetings.deep_view().insert(
                    pos,
                    new_meeting_v(
                        old(self).next_meeting_id as int,
                        newdv[pos].title,
                        timestamp as int,
                        r.1@,
                    ),
                )
                &&& (title.deep_view() matches Some(x) ==> newdv[pos].title == x)
            }),
    {
        let ghost pre = old(self).meetings.deep_view();
        let ghost keys = meeting_keys(pre);
        let ghost title_dv = title.deep_view();
        let resolved = match title {
            Some(t) => t,
            None => format_timestamp_title(timestamp),
        };
        let ghost tw = resolved@;
        let file_name = wav_file_name("meeting-", timestamp);
        let p = Self::meeting_insert_pos(&self.meetings, timestamp);
        let id = self.next_meeting_id;
        let m = Meeting {
            id,
            title: resolved,
            start_timestamp: timestamp,
            end_timestamp: None,
            duration_seconds: 0,
            summary: None,
            is_pro: false,
            file_name: Some(file_name.clone()),
            is_favorite: false,
        };
        let ghost mv = m.deep_view();
        self.meetings.insert(p, m);
        self.next_meeting_id = self.next_meeting_id + 1;
        proof {
            lemma_seq_dv_insert(old(self).meetings@, p as int, m);
            assert(self.meetings.deep_view() =~= seq_dv(self.meetings@));
            assert(pre =~= seq_dv(old(self).meetings@));
            assert(self.meetings.deep_view() =~= pre.insert(p as int, mv));
            assert(mv =~= new_meeting_v(id as int, tw, timestamp as int, file_name@));
            lemma_insert_pos_desc(keys, timestamp as int);
            lemma_sorted_insert(keys, timestamp as int);
            pre.insert_ensures(p as int, mv);
            assert(meeting_keys(self.meetings.deep_view()) =~= keys.insert(p as int,
                timestamp as int));
            let newids = meeting_ids(self.meetings.deep_view());
            let oldids = meeting_ids(pre);
            assert forall|x: int, y: int|
                0 <= x < y < newids.len() implies newids[x] != newids[y] by {
                assert(forall|z: int|
                    0 <= z < newids.len() && z != p ==> newids[z] == if z < p {
                        oldids[z]
                    } else {
                        oldids[z - 1]
                    });
                assert(newids[p as int] == id as int);
            }
            assert forall|x: int| 0 <= x < newids.len() implies 1 <= #[trigger] newids[x]
                < self.next_meeting_id as int by {
                if x < p {
                    assert(1 <= oldids[x] < old(self).next_meeting_id as int);
                } else if x == p {
                } else {
                    assert(1 <= oldids[x - 1] < old(self).next_meeting_id as int);
                }
            }
            assert(self.meetings.deep_view() == pre.insert(
                p as int,
                new_meeting_v(id as int, tw, timestamp as int, file_name@),
            ));
            assert(self.meetings.deep_view()[p as int].title == tw);
            if title_dv is Some {
                assert(tw == title_dv->Some_0);
            }
        }
        (id, file_name)
    }

    /// Stamps the meeting's end time and duration. A missing id
    /// changes nothing, as an update that matches no record.
    #[verifier::loop_isolation(false)]
    pub fn finalize_meeting(&mut self, meeting_id: i64, duration_seconds: i32, end_timestamp: i64)
        requires
            old(self).wf(),
        ensures
            final(self).wf(),
            Self::only_meetings_changed(*old(self), *final(self)),
            final(self).next_meeting_id == old(self).next_meeting_id,
            final(self).meetings.deep_view() == finalize_meeting_map(
                old(self).meetings.deep_view(),
                meeting_id as int,
                end_timestamp as int,
                duration_seconds as int,
            ),
    {
        let ghost dv = self.meetings.deep_view();
        let ghost target = finalize_meeting_map(
            dv,
            meeting_id as int,
            end_timestamp as int,
            duration_seconds as int,
        );
        let n = self.meetings.len();
        let mut i: usize = 0;
        while i < n
            invariant
                0 <= i <= n,
                *self == *old(self),
                forall|j: int| 0 <= j < i ==> (#[trigger] dv[j].id) != meeting_id as int,
            decreases n - i,
        {
            if self.meetings[i].id == meeting_id {
                let mut m = self.meetings.remove(i);
                let ghost mid_seq = self.meetings@;
                m.end_timestamp = Some(end_timestamp);
                m.duration_seconds = duration_seconds;
                self.meetings.insert(i, m);
                proof {
                    assert(dv[i as int].id == meeting_id as int);
                    lemma_seq_dv_remove(old(self).meetings@, i as int);
                    lemma_seq_dv_insert(mid_seq, i as int, m);
                    assert(seq_dv(mid_seq) =~= dv.remove(i as int));
                    let cur = self.meetings.deep_view();
                    assert(cur =~= seq_dv(mid_seq).insert(i as int, m.deep_view()));
                    dv.remove_ensures(i as int);
                    dv.remove(i as int).insert_ensures(i as int, m.deep_view());
                    assert(m.deep_view() == meeting_finalized(dv[i as int], end_timestamp as int,
                        duration_seconds as int));
                    assert forall|x: int| 0 <= x < cur.len() implies cur[x] == target[x] by {
                        if x != i as int {
                            lemma_distinct_two(meeting_ids(dv), i as int, x);
                            assert(dv[x].id != meeting_id as int);
                            if x < i as int {
                                assert(cur[x] == dv.remove(i as int)[x]);
                            } else {
                                assert(cur[x] == dv.remove(i as int)[x - 1]);
                                assert(dv.remove(i as int)[x - 1] == dv[x]);
                            }
                        }
                    }
                    assert(cur =~= target);
                    assert(meeting_keys(cur) =~= meeting_keys(dv));
                    assert(meeting_ids(cur) =~= meeting_ids(dv));
                }
                return ;
            }
            i = i + 1;
        }
        proof {
            assert(dv =~= target);
        }
    }

    /// Flips the favorite flag of the meeting with this id; a missing
    /// id changes nothing.
    #[verifier::loop_isolation(false)]
    pub fn toggle_meeting_favorite(&mut self, id: i64)
        requires
            old(self).wf(),
        ensures
            final(self).wf(),
            Self::only_meetings_changed(*old(self), *final(self)),
            final(self).next_meeting_id == old(self).next_meeting_id,
            final(self).meetings.deep_view() == toggle_meeting_fav_map(
                old(self).meetings.deep_view(),
                id as int,
            ),
    {
        let ghost dv = self.meetings.deep_view();
        let ghost target = toggle_meeting_fav_map(dv, id as int);
        let n = self.meetings.len();
        let mut i: usize = 0;
        while i < n
            invariant
                0 <= i <= n,
                *self == *old(self),
                forall|j: int| 0 <= j < i ==> (#[trigger] dv[j].id) != id as int,
            decreases n - i,
        {
            if self.meetings[i].id == id {
                let cur_fav = self.meetings[i].is_favorite;
                let mut m = self.meetings.remove(i);
                let ghost mid_seq = self.meetings@;
                m.is_favorite = !cur_fav;
                self.meetings.insert(i, m);
                proof {
                    assert(dv[i as int].id == id as int);
                    lemma_seq_dv_remove(old(self).meetings@, i as int);
                    lemma_seq_dv_insert(mid_seq, i as int, m);
                    assert(seq_dv(mid_seq) =~= dv.remove(i as int));
                    let cur = self.meetings.deep_view();
                    assert(cur =~= seq_dv(mid_seq).insert(i as int, m.deep_view()));
                    dv.remove_ensures(i as int);
                    dv.remove(i as int).insert_ensures(i as int, m.deep_view());
                    assert(m.deep_view() == meeting_with_favorite(dv[i as int],
                        !dv[i as int].is_favorite));
                    assert forall|x: int| 0 <= x < cur.len() implies cur[x] == target[x] by {
                        if x != i as int {
                            lemma_distinct_two(meeting_ids(dv), i as int, x);
                            assert(dv[x].id != id as int);
                            if x < i as int {
                                assert(cur[x] == dv.remove(i as int)[x]);
                            } else {
                                assert(cur[x] == dv.remove(i as int)[x - 1]);
                                assert(dv.remove(i as int)[x - 1] == dv[x]);
                            }
                        }
                    }
                    assert(cur =~= target);
                    assert(meeting_keys(cur) =~= meeting_keys(dv));
                    assert(meeting_ids(cur) =~= meeting_ids(dv));
                }
                return ;
            }
            i = i + 1;
        }
        proof {
            assert(dv =~= target);
        }
    }

    /// Every meeting, newest first.
    #[verifier::loop_isolation(false)]
    pub fn get_meetings(&self) -> (r: Vec<Meeting>)
        ensures
            r.deep_view() == self.meetings.deep_view(),
    {
        let mut r: Vec<Meeting> = Vec::new();
        let n = self.meetings.len();
        let mut i: usize = 0;
        while i < n
            invariant
                0 <= i <= n,
                r.deep_view() =~= self.meetings.deep_view().take(i as int),
            decreases n - i,
        {
            let e = self.meetings[i].clone();
            r.push(e);
            proof {
                assert(r.deep_view() =~= self.meetings.deep_view().take(i + 1));
            }
            i = i + 1;
        }
        assert(self.meetings.deep_view().take(n as int) =~= self.meetings.deep_view());
        r
    }

    /// The meeting with this id, if present.
    #[verifier::loop_isolation(false)]
    pub fn get_meeting_by_id(&self, id: i64) -> (r: Option<Meeting>)
        requires
            self.wf(),
        ensures
            (r is Some) <==> has_meeting(self.meetings.deep_view(), id as int),
            r matches Some(m) ==> m.deep_view() == self.meetings.deep_view()[meeting_idx(
                self.meetings.deep_view(),
                id as int,
            )],
    {
        let ghost dv = self.meetings.deep_view();
        let n = self.meetings.len();
        let mut i: usize = 0;
        while i < n
            invariant
                0 <= i <= n,
                forall|j: int| 0 <= j < i ==> (#[trigger] dv[j].id) != id as int,
            decreases n - i,
        {
            if self.meetings[i].id == id {
                let m = self.meetings[i].clone();
                proof {
                    assert(dv[i as int].id == id as int);
                    let k = meeting_idx(dv, id as int);
                    assert(dv[k].id == id as int);
                    if k != i as int {
                        lemma_distinct_two(meeting_ids(dv), k, i as int);
                        assert(meeting_ids(dv)[k] == dv[k].id);
                        assert(meeting_ids(dv)[i as int] == dv[i as int].id);
                        assert(false);
                    }
                }
                return Some(m);
            }
            i = i + 1;
        }
        proof {
            if has_meeting(dv, id as int) {
                let k = choose|k: int| 0 <= k < dv.len() && (#[trigger] dv[k].id) == id as int;
                assert(dv[k].id != id as int);
            }
        }
        None
    }
}

} // verus!

verus! {

/// The segments of one meeting, in stored (insertion) order.
pub open spec fn segments_of(s: Seq<MeetingSegmentV>, mid: int) -> Seq<MeetingSegmentV>
    decreases s.len(),
{
    if s.len() == 0 {
        s
    } else if s[0].meeting_id == mid {
        seq![s[0]] + segments_of(s.drop_first(), mid)
    } else {
        segments_of(s.drop_first(), mid)
    }
}

/// Non-decreasing start offsets.
pub open spec fn segs_ordered(s: Seq<MeetingSegmentV>) -> bool {
    forall|i: int, j: int| 0 <= i <= j < s.len() ==> s[i].start_ms <= s[j].start_ms
}

#[verifier::loop_isolation(false)]
fn sort_segments_by_start(input: Vec<MeetingSegment>) -> (r: Vec<MeetingSegment>)
    ensures
        r.deep_view().to_multiset() == input.deep_view().to_multiset(),
        segs_ordered(r.deep_view()),
{
    let mut work = input;
    let ghost orig = work.deep_view();
    let mut out: Vec<MeetingSegment> = Vec::new();
    while work.len() > 0
        invariant
            out.deep_view().to_multiset().add(work.deep_view().to_multiset())
                =~= orig.to_multiset(),
            segs_ordered(out.deep_view()),
            forall|a: int, b: int|
                0 <= a < out.deep_view().len() && 0 <= b < work.deep_view().len()
                    ==> #[trigger] out.deep_view()[a].start_ms
                    <= #[trigger] work.deep_view()[b].start_ms,
        decreases work.len(),
    {
        let mut mi: usize = 0;
        let mut k: usize = 1;
        while k < work.len()
            invariant
                0 < work@.len(),
                0 <= mi < k <= work@.len(),
                forall|j: int|
                    0 <= j < k ==> work.deep_view()[mi as int].start_ms
                        <= #[trigger] work.deep_view()[j].start_ms,
            decreases work@.len() - k,
        {
            if work[k].start_ms < work[mi].start_ms {
                mi = k;
            }
            k = k + 1;
        }
        let ghost wv = work@;
        let ghost wdv = work.deep_view();
        let ghost odv = out.deep_view();
        let x = work.remove(mi);
        let ghost xd = x.deep_view();
        proof {
            lemma_seq_dv_remove(wv, mi as int);
            lemma_seq_dv_push(out@, x);
        }
        out.push(x);
        proof {
            assert(work.deep_view() =~= wdv.remove(mi as int));
            assert(out.deep_view() =~= odv.push(xd));
            assert(wdv[mi as int] == xd);
            assert(wdv.contains(xd));
            assert(wdv.remove(mi as int).to_multiset() =~= wdv.to_multiset().remove(xd));
            assert(odv.push(xd).to_multiset() =~= odv.to_multiset().insert(xd));
            assert(wdv.to_multiset().count(xd) > 0);
            assert(odv.to_multiset().insert(xd).add(wdv.to_multiset().remove(xd))
                =~= odv.to_multiset().add(wdv.to_multiset()));
            wdv.remove_ensures(mi as int);
            assert forall|a: int, b: int|
                0 <= a < out.deep_view().len() && 0 <= b < work.deep_view().len() implies out.deep_view()[a].start_ms
                <= work.deep_view()[b].start_ms by {
                let wb = if b < mi as int {
                    b
                } else {
                    b + 1
                };
                assert(work.deep_view()[b] == wdv[wb]);
                assert(xd.start_ms <= wdv[wb].start_ms);
                if a < odv.len() {
                    assert(odv[a].start_ms <= wdv[wb].start_ms);
                } else {
                    assert(out.deep_view()[a] == xd);
                }
            }
            assert forall|i: int, j: int|
                0 <= i <= j < out.deep_view().len() implies out.deep_view()[i].start_ms
                <= out.deep_view()[j].start_ms by {
                if j < odv.len() {
                    assert(odv[i].start_ms <= odv[j].start_ms);
                } else if j == odv.len() && i < j {
                    assert(odv[i].start_ms <= wdv[mi as int].start_ms);
                }
            }
        }
    }
    proof {
        assert(work.deep_view().to_multiset() =~= Seq::<MeetingSegmentV>::empty().to_multiset());
        assert(Seq::<MeetingSegmentV>::empty().to_multiset() =~= Multiset::<
            MeetingSegmentV,
        >::empty());
        assert(out.deep_view().to_multiset().add(Multiset::<MeetingSegmentV>::empty())
            =~= out.deep_view().to_multiset());
        assert(out.deep_view().to_multiset() =~= orig.to_multiset());
    }
    out
}

impl HistoryManager {
    /// Appends a segment row for a meeting, with the next free
    /// segment id.
    pub fn add_meeting_segment(
        &mut self,
        meeting_id: i64,
        speaker_id: String,
        start_ms: u64,
        end_ms: u64,
        text: String,
    )
        requires
            old(self).wf(),
            old(self).next_segment_id < i64::MAX,
        ensures
            final(self).wf(),
            Self::only_segments_changed(*old(self), *final(self)),
            final(self).next_segment_id == old(self).next_segment_id + 1,
            final(self).segments.deep_view() == old(self).segments.deep_view().push(
                MeetingSegmentV {
                    id: old(self).next_segment_id as int,
                    meeting_id: meeting_id as int,
                    speaker_id: speaker_id@,
                    start_ms: start_ms as int,
                    end_ms: end_ms as int,
                    text: text@,
                },
            ),
    {
        let ghost pre = old(self).segments.deep_view();
        let e = MeetingSegment {
            id: self.next_segment_id,
            meeting_id,
            speaker_id,
            start_ms,
            end_ms,
            text,
        };
        let ghost ev = e.deep_view();
        proof {
            lemma_seq_dv_push(self.segments@, e);
        }
        self.segments.push(e);
        self.next_segment_id = self.next_segment_id + 1;
        proof {
            assert(self.segments.deep_view() =~= pre.push(ev));
            let newids = segment_ids(self.segments.deep_view());
            let oldids = segment_ids(pre);
            assert forall|x: int, y: int|
                0 <= x < y < newids.len() implies newids[x] != newids[y] by {
                assert(forall|z: int| 0 <= z < pre.len() ==> newids[z] == oldids[z]);
                assert(newids[pre.len() as int] == old(self).next_segment_id as int);
                if y < pre.len() {
                    lemma_distinct_two(oldids, x, y);
                } else {
                    assert(1 <= oldids[x] < old(self).next_segment_id as int);
                }
            }
            assert forall|x: int| 0 <= x < newids.len() implies 1 <= #[trigger] newids[x]
                < self.next_segment_id as int by {
                if x < pre.len() {
                    assert(1 <= oldids[x] < old(self).next_segment_id as int);
                }
            }
        }
    }

    /// The segments of one meeting, ordered by start offset.
    #[verifier::loop_isolation(false)]
    pub fn get_meeting_segments(&self, meeting_id: i64) -> (r: Vec<MeetingSegment>)
        ensures
            r.deep_view().to_multiset() == segments_of(
                self.segments.deep_view(),
                meeting_id as int,
            ).to_multiset(),
            segs_ordered(r.deep_view()),
    {
        let ghost dv = self.segments.deep_view();
        let mut picked: Vec<MeetingSegment> = Vec::new();
        let n = self.segments.len();
        let mut i: usize = 0;
        while i < n
            invariant
                0 <= i <= n,
                segments_of(dv, meeting_id as int) =~= picked.deep_view() + segments_of(
                    dv.skip(i as int),
                    meeting_id as int,
                ),
            decreases n - i,
        {
            let ghost rest = dv.skip(i as int);
            proof {
                assert(rest[0] == dv[i as int]);
                assert(rest.drop_first() =~= dv.skip(i + 1));
            }
            let e = &self.segments[i];
            if e.meeting_id == meeting_id {
                let c = e.clone();
                proof {
                    lemma_seq_dv_push(picked@, c);
                }
                picked.push(c);
            }
            i = i + 1;
        }
        proof {
            assert(dv.skip(n as int) =~= Seq::<MeetingSegmentV>::empty());
            assert(picked.deep_view() =~= segments_of(dv, meeting_id as int));
        }
        sort_segments_by_start(picked)
    }
}

} // verus!

verus! {

/// A synthesis entry as freshly saved: not favorite.
pub open spec fn new_tts_v(
    id: int,
    text: Seq<char>,
    voice_id: Seq<char>,
    file_name: Seq<char>,
    timestamp: int,
) -> TtsHistoryEntryV {
    TtsHistoryEntryV {
        id: id,
        text: text,
        voice_id: voice_id,
        file_name: file_name,
        timestamp: timestamp,
        is_favorite: false,
    }
}

/// The entry with its favorite flag replaced.
pub open spec fn tts_with_favorite(e: TtsHistoryEntryV, f: bool) -> TtsHistoryEntryV {
    TtsHistoryEntryV {
        id: e.id,
        text: e.text,
        voice_id: e.voice_id,
        file_name: e.file_name,
        timestamp: e.timestamp,
        is_favorite: f,
    }
}

/// The list with the favorite flag of the entry carrying this id
/// flipped.
pub open spec fn toggle_tts_fav_map(s: Seq<TtsHistoryEntryV>, id: int) -> Seq<TtsHistoryEntryV> {
    Seq::new(
        s.len(),
        |i: int|
            if s[i].id == id {
                tts_with_favorite(s[i], !s[i].is_favorite)
            } else {
                s[i]
            },
    )
}

impl HistoryManager {
    #[verifier::loop_isolation(false)]
    fn tts_insert_pos(entries: &Vec<TtsHistoryEntry>, ts: i64) -> (p: usize)
        ensures
            p == insert_pos_desc(tts_keys(entries.deep_view()), ts as int),
            p <= entries@.len(),
    {
        let ghost keys = tts_keys(entries.deep_view());
        let n = entries.len();
        let mut p: usize = 0;
        while p < n && entries[p].timestamp >= ts
            invariant
                0 <= p <= n,
                forall|i: int| 0 <= i < p ==> keys[i] >= ts as int,
            decreases n - p,
        {
            assert(keys[p as int] == entries.deep_view()[p as int].timestamp);
            p = p + 1;
        }
        proof {
            lemma_insert_pos_desc(keys, ts as int);
            let q = insert_pos_desc(keys, ts as int);
            if p < q {
                assert(keys[p as int] >= ts as int);
                assert(keys[p as int] == entries.deep_view()[p as int].timestamp);
                assert(false);
            }
            if q < p {
                assert(keys[q] < ts as int);
                assert(false);
            }
        }
        p
    }

    /// Inserts a synthesis history entry, newest first, and hands back
    /// its id.
    pub fn save_tts_entry(
        &mut self,
        text: String,
        voice_id: String,
        file_name: String,
        timestamp: i64,
    ) -> (r: i64)
        requires
            old(self).wf(),
            old(self).next_tts_id < i64::MAX,
        ensures
            final(self).wf(),
            Self::only_tts_changed(*old(self), *final(self)),
            final(self).next_tts_id == old(self).next_tts_id + 1,
            r == old(self).next_tts_id,
            final(self).tts_entries.deep_view() == old(self).tts_entries.deep_view().insert(
                insert_pos_desc(tts_keys(old(self).tts_entries.deep_view()), timestamp as int),
                new_tts_v(
                    old(self).next_tts_id as int,
                    text@,
                    voice_id@,
                    file_name@,
                    timestamp as int,
                ),
            ),
    {
        let ghost pre = old(self).tts_entries.deep_view();
        let ghost keys = tts_keys(pre);
        let p = Self::tts_insert_pos(&self.tts_entries, timestamp);
        let id = self.next_tts_id;
        let e = TtsHistoryEntry { id, text, voice_id, file_name, timestamp, is_favorite: false };
        let ghost ev = e.deep_view();
        self.tts_entries.insert(p, e);
        self.next_tts_id = self.next_tts_id + 1;
        proof {
            lemma_seq_dv_insert(old(self).tts_entries@, p as int, e);
            assert(self.tts_entries.deep_view() =~= seq_dv(self.tts_entries@));
            assert(pre =~= seq_dv(old(self).tts_entries@));
            assert(self.tts_entries.deep_view() =~= pre.insert(p as int, ev));
            lemma_insert_pos_desc(keys, timestamp as int);
            lemma_sorted_insert(keys, timestamp as int);
            pre.insert_ensures(p as int, ev);
            assert(tts_keys(self.tts_entries.deep_view()) =~= keys.insert(p as int,
                timestamp as int));
            let newids = tts_ids(self.tts_entries.deep_view());
            let oldids = tts_ids(pre);
            assert forall|x: int, y: int|
                0 <= x < y < newids.len() implies newids[x] != newids[y] by {
                assert(forall|z: int|
                    0 <= z < newids.len() && z != p ==> newids[z] == if z < p {
                        oldids[z]
                    } else {
                        oldids[z - 1]
                    });
                assert(newids[p as int] == id as int);
            }
            assert forall|x: int| 0 <= x < newids.len() implies 1 <= #[trigger] newids[x]
                < self.next_tts_id as int by {
                if x < p {
                    assert(1 <= oldids[x] < old(self).next_tts_id as int);
                } else if x == p {
                } else {
                    assert(1 <= oldids[x - 1] < old(self).next_tts_id as int);
                }
            }
        }
        id
    }

    /// Every synthesis history entry, newest first.
    #[verifier::loop_isolation(false)]
    pub fn get_tts_history(&self) -> (r: Vec<TtsHistoryEntry>)
        ensures
            r.deep_view() == self.tts_entries.deep_view(),
    {
        let mut r: Vec<TtsHistoryEntry> = Vec::new();
        let n = self.tts_entries.len();
        let mut i: usize = 0;
        while i < n
            invariant
                0 <= i <= n,
                r.deep_view() =~= self.tts_entries.deep_view().take(i as int),
            decreases n - i,
        {
            let e = self.tts_entries[i].clone();
            r.push(e);
            proof {
                assert(r.deep_view() =~= self.tts_entries.deep_view().take(i + 1));
            }
            i = i + 1;
        }
        assert(self.tts_entries.deep_view().take(n as int) =~= self.tts_entries.deep_view());
        r
    }

    /// Flips the favorite flag of the synthesis entry with this id; a
    /// missing id changes nothing.
    #[verifier::loop_isolation(false)]
    pub fn toggle_tts_favorite(&mut self, id: i64)
        requires
            old(self).wf(),
        ensures
            final(self).wf(),
            Self::only_tts_changed(*old(self), *final(self)),
            final(self).next_tts_id == old(self).next_tts_id,
            final(self).tts_entries.deep_view() == toggle_tts_fav_map(
                old(self).tts_entries.deep_view(),
                id as int,
            ),
    {
        let ghost dv = self.tts_entries.deep_view();
        let ghost target = toggle_tts_fav_map(dv, id as int);
        let n = self.tts_entries.len();
        let mut i: usize = 0;
        while i < n
            invariant
                0 <= i <= n,
                *self == *old(self),
                forall|j: int| 0 <= j < i ==> (#[trigger] dv[j].id) != id as int,
            decreases n - i,
        {
            if self.tts_entries[i].id == id {
                let cur_fav = self.tts_entries[i].is_favorite;
                let mut e = self.tts_entries.remove(i);
                let ghost mid_seq = self.tts_entries@;
                e.is_favorite = !cur_fav;
                self.tts_entries.insert(i, e);
                proof {
                    assert(dv[i as int].id == id as int);
                    lemma_seq_dv_remove(old(self).tts_entries@, i as int);
                    lemma_seq_dv_insert(mid_seq, i as int, e);
                    assert(seq_dv(mid_seq) =~= dv.remove(i as int));
                    let cur = self.tts_entries.deep_view();
                    assert(cur =~= seq_dv(mid_seq).insert(i as int, e.deep_view()));
                    dv.remove_ensures(i as int);
                    dv.remove(i as int).insert_ensures(i as int, e.deep_view());
                    assert(e.deep_view() == tts_with_favorite(dv[i as int],
                        !dv[i as int].is_favorite));
                    assert forall|x: int| 0 <= x < cur.len() implies cur[x] == target[x] by {
                        if x != i as int {
                            lemma_distinct_two(tts_ids(dv), i as int, x);
                            assert(dv[x].id != id as int);
                            if x < i as int {
                                assert(cur[x] == dv.remove(i as int)[x]);
                            } else {
                                assert(cur[x] == dv.remove(i as int)[x - 1]);
                                assert(dv.remove(i as int)[x - 1] == dv[x]);
                            }
                        }
                    }
                    assert(cur =~= target);
                    assert(tts_keys(cur) =~= tts_keys(dv));
                    assert(tts_ids(cur) =~= tts_ids(dv));
                }
                return ;
            }
            i = i + 1;
        }
        proof {
            assert(dv =~= target);
        }
    }

    /// Removes the synthesis entry with this id and hands back its
    /// file name for deletion; a missing id is reported as
    /// [`BackendError::NotFound`].
    #[verifier::loop_isolation(false)]
    pub fn delete_tts_entry(&mut self, id: i64) -> (r: Result<String, BackendError>)
        requires
            old(self).wf(),
        ensures
            final(self).wf(),
            Self::only_tts_changed(*old(self), *final(self)),
            final(self).next_tts_id == old(self).next_tts_id,
            has_tts_entry(old(self).tts_entries.deep_view(), id as int) ==> {
                let dv = old(self).tts_entries.deep_view();
                let k = tts_idx(dv, id as int);
                &&& final(self).tts_entries.deep_view() == dv.remove(k)
                &&& r matches Ok(name) && name@ == dv[k].file_name
            },
            !has_tts_entry(old(self).tts_entries.deep_view(), id as int) ==> *final(self) == *old(
                self,
            ) && r == Err::<String, BackendError>(BackendError::NotFound),
    {
        let ghost dv = self.tts_entries.deep_view();
        let n = self.tts_entries.len();
        let mut i: usize = 0;
        while i < n
            invariant
                0 <= i <= n,
                *self == *old(self),
                forall|j: int| 0 <= j < i ==> (#[trigger] dv[j].id) != id as int,
            decreases n - i,
        {
            if self.tts_entries[i].id == id {
                let e = self.tts_entries.remove(i);
                proof {
                    assert(dv[i as int].id == id as int);
                    let k = tts_idx(dv, id as int);
                    assert(dv[k].id == id as int);
                    if k != i as int {
                        lemma_distinct_two(tts_ids(dv), k, i as int);
                        assert(tts_ids(dv)[k] == dv[k].id);
                        assert(tts_ids(dv)[i as int] == dv[i as int].id);
                        assert(false);
                    }
                    assert(dv.len() == old(self).tts_entries@.len());
                    lemma_seq_dv_remove(old(self).tts_entries@, i as int);
                    assert(self.tts_entries.deep_view() =~= seq_dv(self.tts_entries@));
                    assert(dv =~= seq_dv(old(self).tts_entries@));
                    assert(self.tts_entries.deep_view() =~= dv.remove(i as int));
                    dv.remove_ensures(i as int);
                    assert(tts_keys(self.tts_entries.deep_view()) =~= tts_keys(dv).remove(
                        i as int));
                    tts_keys(dv).remove_ensures(i as int);
                    assert(tts_ids(self.tts_entries.deep_view()) =~= tts_ids(dv).remove(i as int));
                    tts_ids(dv).remove_ensures(i as int);
                }
                return Ok(e.file_name);
            }
            i = i + 1;
        }
        proof {
            if has_tts_entry(dv, id as int) {
                let k = choose|k: int| 0 <= k < dv.len() && (#[trigger] dv[k].id) == id as int;
                assert(dv[k].id != id as int);
            }
        }
        Err(BackendError::NotFound)
    }
}

} // verus!

verus! {

/// A transcription history entry as freshly saved: `saved` clear.
pub open spec fn new_history_entry_v(
    id: int,
    file_name: Seq<char>,
    timestamp: int,
    title: Seq<char>,
    text: Seq<char>,
    post: Option<Seq<char>>,
    prompt: Option<Seq<char>>,
) -> HistoryEntryV {
    HistoryEntryV {
        id: id,
        file_name: file_name,
        timestamp: timestamp,
        saved: false,
        title: title,
        transcription_text: text,
        post_processed_text: post,
        post_process_prompt: prompt,
    }
}

/// What the retention policy leaves of an entry list at time `now`.
pub open spec fn cleaned(
    s: Seq<HistoryEntryV>,
    policy: RetentionPolicy,
    limit: nat,
    now: int,
) -> Seq<HistoryEntryV> {
    match policy {
        RetentionPolicy::Never => s,
        RetentionPolicy::PreserveLimit => prune_kept(s, limit),
        RetentionPolicy::Days3 => keep_recent(s, now - 259200),
        RetentionPolicy::Weeks2 => keep_recent(s, now - 1209600),
        RetentionPolicy::Months3 => keep_recent(s, now - 7776000),
    }
}

/// The file names the retention policy deletes at time `now`.
pub open spec fn cleaned_removed_names(
    s: Seq<HistoryEntryV>,
    policy: RetentionPolicy,
    limit: nat,
    now: int,
) -> Seq<Seq<char>> {
    match policy {
        RetentionPolicy::Never => Seq::empty(),
        RetentionPolicy::PreserveLimit => prune_removed(s, limit),
        RetentionPolicy::Days3 => removed_old(s, now - 259200),
        RetentionPolicy::Weeks2 => removed_old(s, now - 1209600),
        RetentionPolicy::Months3 => removed_old(s, now - 7776000),
    }
}

/// What a completed history save hands back for the adapters: the
/// recording's file name and encoded bytes to write, and the file
/// names retention pruning dropped.
pub struct SavedTranscription {
    pub file_name: String,
    pub title: String,
    pub wav_bytes: Vec<u8>,
    pub removed_files: Vec<String>,
}

impl HistoryManager {
    /// Saves a transcription to history: encodes the samples as a WAV
    /// image named `typezero-{timestamp}.wav`, inserts the entry
    /// (titled for the timestamp), and applies retention pruning.
    pub fn save_transcription(
        &mut self,
        audio_samples: &Vec<i16>,
        transcription_text: String,
        post_processed_text: Option<String>,
        post_process_prompt: Option<String>,
        timestamp: i64,
        policy: RetentionPolicy,
        history_limit: usize,
    ) -> (r: SavedTranscription)
        requires
            old(self).wf(),
            old(self).next_entry_id < i64::MAX,
            audio_samples@.len() <= crate::wav::MAX_WAV_SAMPLES,
            timestamp >= i64::MIN + 7776000,
        ensures
            final(self).wf(),
            Self::only_entries_changed(*old(self), *final(self)),
            final(self).next_entry_id == old(self).next_entry_id + 1,
            r.file_name@ == "typezero-"@ + dec_str_signed(timestamp as int) + ".wav"@,
            r.wav_bytes@ == crate::wav::wav_bytes_of(audio_samples@),
            r.wav_bytes@.len() == 44 + 2 * audio_samples@.len(),
            ({
                let inserted = old(self).entries.deep_view().insert(
                    insert_pos_desc(entry_keys(old(self).entries.deep_view()), timestamp as int),
                    new_history_entry_v(
                        old(self).next_entry_id as int,
                        r.file_name@,
                        timestamp as int,
                        r.title@,
                        transcription_text@,
                        post_processed_text.deep_view(),
                        post_process_prompt.deep_view(),
                    ),
                );
                &&& final(self).entries.deep_view() == cleaned(
                    inserted,
                    policy,
                    history_limit as nat,
                    timestamp as int,
                )
                &&& r.removed_files.deep_view() == cleaned_removed_names(
                    inserted,
                    policy,
                    history_limit as nat,
                    timestamp as int,
                )
            }),
    {
        let file_name = wav_file_name("typezero-", timestamp);
        let title = format_timestamp_title(timestamp);
        let wav_bytes = crate::wav::encode_wav_pcm16(audio_samples);
        let file_name_copy = file_name.clone();
        let title_copy = title.clone();
        self.save_to_database(
            file_name_copy,
            timestamp,
            title_copy,
            transcription_text,
            post_processed_text,
            post_process_prompt,
        );
        let removed_files = self.cleanup_old_entries(policy, history_limit, timestamp);
        SavedTranscription { file_name, title, wav_bytes, removed_files }
    }
}

} // verus!

verus! {

/// The migration-tracking bridge decision: when the database still
/// carries the old plugin's migration table and the version pragma
/// was never set, the pragma is brought up to the legacy table's
/// highest successful version so migrations do not run again;
/// in every other situation nothing is written.
pub fn legacy_migration_version(
    has_legacy_table: bool,
    current_version: i32,
    legacy_version: i32,
) -> (r: Option<i32>)
    ensures
        r == if has_legacy_table && current_version <= 0 && legacy_version > 0 {
            Some(legacy_version)
        } else {
            None::<i32>
        },
{
    if !has_legacy_table {
        return None;
    }
    if current_version > 0 {
        return None;
    }
    if legacy_version > 0 {
        Some(legacy_version)
    } else {
        None
    }
}

} // verus!
