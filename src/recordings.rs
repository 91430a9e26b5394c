use vstd::prelude::*;

use crate::delete::{
    publishable, lemma_push_contains, recording_ids_distinct, delete_answer, delete_response, flat_entries, has_recording, is_deleted, plan_cleanup, validate_delete_ids, well_formed_batches,
    RecordingDeleteBatchTask, RecordingDeleteResponse, SegmentResp, ThumbnailResp, UpdateBatch, MAX_DELETE_IDS,
};
use crate::error::ApiError;
use crate::query::AccessToken;
use crate::rendition::Rendition;

verus! {

/// A recording row; `deleted_at` marks a soft delete.
#[derive(Clone, Copy, Debug, PartialEq, Eq, Structural)]
pub struct RecordingRow {
    pub id: u128,
    pub organization_id: u128,
    pub s3_bucket_id: u128,
    pub room_id: Option<u128>,
    pub recording_config_id: Option<u128>,
    pub deleted_at: Option<u64>,
}

/// A playback session row, possibly of a recording.
#[derive(Clone, Copy, Debug, PartialEq, Eq, Structural)]
pub struct PlaybackSessionRow {
    pub id: u128,
    pub organization_id: u128,
    pub recording_id: Option<u128>,
}

/// A stored rendition of a recording.
#[derive(Clone, Copy, Debug, PartialEq, Eq, Structural)]
pub struct RecordingRenditionRow {
    pub recording_id: u128,
    pub rendition: Rendition,
}

/// The tables that a recording delete reads and writes.
#[derive(Debug)]
pub struct RecordingTables {
    pub recordings: Vec<RecordingRow>,
    pub playback_sessions: Vec<PlaybackSessionRow>,
    pub renditions: Vec<RecordingRenditionRow>,
    pub thumbnails: Vec<ThumbnailResp>,
    pub segments: Vec<SegmentResp>,
}

/// A delete request: the recordings to remove.
#[derive(Debug)]
pub struct RecordingDeleteRequest {
    pub ids: Vec<u128>,
}

/// What a delete answers, and the cleanup messages it leaves to publish.
#[derive(Debug)]
pub struct RecordingDeleteOutcome {
    pub response: RecordingDeleteResponse,
    pub batches: Vec<RecordingDeleteBatchTask>,
}

/// The row is one the soft delete takes: asked for, of the organization, and
/// not deleted before.
pub open spec fn takes(r: RecordingRow, org: u128, ids: Seq<u128>) -> bool {
    ids.contains(r.id) && r.organization_id == org && r.deleted_at is None
}

pub open spec fn marked_deleted(r: RecordingRow, now: u64) -> RecordingRow {
    RecordingRow { room_id: None, recording_config_id: None, deleted_at: Some(now), ..r }
}

/// The recordings after the soft delete.
pub open spec fn after_soft_delete(rs: Seq<RecordingRow>, org: u128, ids: Seq<u128>, now: u64) -> Seq<RecordingRow> {
    rs.map_values(|r: RecordingRow| if takes(r, org, ids) { marked_deleted(r, now) } else { r })
}

/// The `(id, bucket)` of each recording the soft delete takes, in table order.
pub open spec fn taken(rs: Seq<RecordingRow>, org: u128, ids: Seq<u128>) -> Seq<(u128, u128)>
    decreases rs.len(),
{
    if rs.len() == 0 {
        Seq::empty()
    } else if takes(rs.last(), org, ids) {
        taken(rs.drop_last(), org, ids).push((rs.last().id, rs.last().s3_bucket_id))
    } else {
        taken(rs.drop_last(), org, ids)
    }
}

pub open spec fn session_of_deleted(p: PlaybackSessionRow, org: u128, deleted: Seq<(u128, u128)>) -> bool {
    p.organization_id == org && p.recording_id is Some && has_recording(deleted, p.recording_id->0)
}

/// The playback sessions that survive the purge, in order.
pub open spec fn kept_sessions(ps: Seq<PlaybackSessionRow>, org: u128, deleted: Seq<(u128, u128)>) -> Seq<
    PlaybackSessionRow,
>
    decreases ps.len(),
{
    if ps.len() == 0 {
        ps
    } else if session_of_deleted(ps.last(), org, deleted) {
        kept_sessions(ps.drop_last(), org, deleted)
    } else {
        kept_sessions(ps.drop_last(), org, deleted).push(ps.last())
    }
}

/// The renditions that survive the purge, in order.
pub open spec fn kept_renditions(rs: Seq<RecordingRenditionRow>, deleted: Seq<(u128, u128)>) -> Seq<
    RecordingRenditionRow,
>
    decreases rs.len(),
{
    if rs.len() == 0 {
        rs
    } else if has_recording(deleted, rs.last().recording_id) {
        kept_renditions(rs.drop_last(), deleted)
    } else {
        kept_renditions(rs.drop_last(), deleted).push(rs.last())
    }
}

/// The thumbnails of one recording, in table order.
pub open spec fn thumbnails_of(ts: Seq<ThumbnailResp>, id: u128) -> Seq<ThumbnailResp>
    decreases ts.len(),
{
    if ts.len() == 0 {
        ts
    } else if ts.last().recording_id == id {
        thumbnails_of(ts.drop_last(), id).push(ts.last())
    } else {
        thumbnails_of(ts.drop_last(), id)
    }
}

/// The thumbnail cleanup selection: the thumbnails of each deleted recording,
/// recording after recording.
pub open spec fn selected_thumbnails(ts: Seq<ThumbnailResp>, deleted: Seq<(u128, u128)>) -> Seq<ThumbnailResp>
    decreases deleted.len(),
{
    if deleted.len() == 0 {
        Seq::empty()
    } else {
        selected_thumbnails(ts, deleted.drop_last()) + thumbnails_of(ts, deleted.last().0)
    }
}

/// The order in which a recording's renditions are cleaned up.
pub open spec fn rendition_at(i: int) -> Rendition {
    if i == 0 {
        Rendition::VideoSource
    } else if i == 1 {
        Rendition::VideoHd
    } else if i == 2 {
        Rendition::VideoSd
    } else if i == 3 {
        Rendition::VideoLd
    } else {
        Rendition::AudioSource
    }
}

pub const RENDITION_COUNT: usize = 5;

fn rendition_order(i: usize) -> (r: Rendition)
    requires
        i < RENDITION_COUNT,
    ensures
        r == rendition_at(i as int),
{
    if i == 0 {
        Rendition::VideoSource
    } else if i == 1 {
        Rendition::VideoHd
    } else if i == 2 {
        Rendition::VideoSd
    } else if i == 3 {
        Rendition::VideoLd
    } else {
        Rendition::AudioSource
    }
}

/// The segments of one rendition of one recording, in table order.
pub open spec fn segments_of(ss: Seq<SegmentResp>, id: u128, rendition: Rendition) -> Seq<SegmentResp>
    decreases ss.len(),
{
    if ss.len() == 0 {
        ss
    } else if ss.last().recording_id == id && ss.last().rendition == rendition {
        segments_of(ss.drop_last(), id, rendition).push(ss.last())
    } else {
        segments_of(ss.drop_last(), id, rendition)
    }
}

/// The segments of a recording, rendition after rendition, for the first `n`
/// renditions of the cleanup order.
pub open spec fn segments_by_rendition(ss: Seq<SegmentResp>, id: u128, n: int) -> Seq<SegmentResp>
    decreases n,
{
    if n <= 0 {
        Seq::empty()
    } else {
        segments_by_rendition(ss, id, n - 1) + segments_of(ss, id, rendition_at(n - 1))
    }
}

/// The segment cleanup selection: per deleted recording, per rendition.
pub open spec fn selected_segments(ss: Seq<SegmentResp>, deleted: Seq<(u128, u128)>) -> Seq<SegmentResp>
    decreases deleted.len(),
{
    if deleted.len() == 0 {
        Seq::empty()
    } else {
        selected_segments(ss, deleted.drop_last()) + segments_by_rendition(
            ss,
            deleted.last().0,
            RENDITION_COUNT as int,
        )
    }
}

fn contains_id(ids: &Vec<u128>, id: u128) -> (r: bool)
    ensures
        r == ids@.contains(id),
{
    let mut i: usize = 0;
    while i < ids.len()
        invariant
            0 <= i <= ids@.len(),
            forall|k: int| 0 <= k < i ==> ids@[k] != id,
        decreases ids@.len() - i,
    {
        if ids[i] == id {
            assert(ids@[i as int] == id);
            return true;
        }
        i = i + 1;
    }
    false
}

proof fn lemma_selected_thumbnails_refer(ts: Seq<ThumbnailResp>, deleted: Seq<(u128, u128)>)
    ensures
        forall|j: int|
            0 <= j < selected_thumbnails(ts, deleted).len() ==> has_recording(
                deleted,
                #[trigger] selected_thumbnails(ts, deleted)[j].recording_id,
            ),
    decreases deleted.len(),
{
    if deleted.len() > 0 {
        let d = deleted.drop_last();
        lemma_selected_thumbnails_refer(ts, d);
        let a = selected_thumbnails(ts, d);
        let b = thumbnails_of(ts, deleted.last().0);
        lemma_thumbnails_of_refer(ts, deleted.last().0);
        assert forall|j: int| 0 <= j < (a + b).len() implies has_recording(deleted, #[trigger] (a + b)[j].recording_id) by {
            if j < a.len() {
                let k = choose|k: int| 0 <= k < d.len() && d[k].0 == a[j].recording_id;
                assert(deleted[k] == d[k]);
            } else {
                assert(b[j - a.len()].recording_id == deleted.last().0);
                assert(deleted[deleted.len() - 1] == deleted.last());
            }
        }
    }
}

proof fn lemma_thumbnails_of_refer(ts: Seq<ThumbnailResp>, id: u128)
    ensures
        forall|j: int| 0 <= j < thumbnails_of(ts, id).len() ==> (#[trigger] thumbnails_of(ts, id)[j]).recording_id == id,
    decreases ts.len(),
{
    if ts.len() > 0 {
        lemma_thumbnails_of_refer(ts.drop_last(), id);
        let a = thumbnails_of(ts.drop_last(), id);
        if ts.last().recording_id == id {
            assert forall|j: int| 0 <= j < a.push(ts.last()).len() implies (#[trigger] a.push(ts.last())[j]).recording_id
                == id by {
                if j < a.len() {
                    assert(a.push(ts.last())[j] == a[j]);
                }
            }
        }
    }
}

proof fn lemma_segments_of_refer(ss: Seq<SegmentResp>, id: u128, rendition: Rendition)
    ensures
        forall|j: int|
            0 <= j < segments_of(ss, id, rendition).len() ==> (#[trigger] segments_of(ss, id, rendition)[j]).recording_id
                == id,
    decreases ss.len(),
{
    if ss.len() > 0 {
        lemma_segments_of_refer(ss.drop_last(), id, rendition);
    }
}

proof fn lemma_segments_by_rendition_refer(ss: Seq<SegmentResp>, id: u128, n: int)
    ensures
        forall|j: int|
            0 <= j < segments_by_rendition(ss, id, n).len() ==> (#[trigger] segments_by_rendition(
                ss,
                id,
                n,
            )[j]).recording_id == id,
    decreases n,
{
    if n > 0 {
        lemma_segments_by_rendition_refer(ss, id, n - 1);
        lemma_segments_of_refer(ss, id, rendition_at(n - 1));
        let a = segments_by_rendition(ss, id, n - 1);
        let b = segments_of(ss, id, rendition_at(n - 1));
        assert forall|j: int| 0 <= j < (a + b).len() implies (#[trigger] (a + b)[j]).recording_id == id by {
            if j >= a.len() {
                assert((a + b)[j] == b[j - a.len()]);
            }
        }
    }
}

proof fn lemma_selected_segments_refer(ss: Seq<SegmentResp>, deleted: Seq<(u128, u128)>)
    ensures
        forall|j: int|
            0 <= j < selected_segments(ss, deleted).len() ==> has_recording(
                deleted,
                #[trigger] selected_segments(ss, deleted)[j].recording_id,
            ),
    decreases deleted.len(),
{
    if deleted.len() > 0 {
        let d = deleted.drop_last();
        lemma_selected_segments_refer(ss, d);
        let a = selected_segments(ss, d);
        let b = segments_by_rendition(ss, deleted.last().0, RENDITION_COUNT as int);
        lemma_segments_by_rendition_refer(ss, deleted.last().0, RENDITION_COUNT as int);
        assert forall|j: int| 0 <= j < (a + b).len() implies has_recording(deleted, #[trigger] (a + b)[j].recording_id) by {
            if j < a.len() {
                let k = choose|k: int| 0 <= k < d.len() && d[k].0 == a[j].recording_id;
                assert(deleted[k] == d[k]);
            } else {
                assert(b[j - a.len()].recording_id == deleted.last().0);
                assert(deleted[deleted.len() - 1] == deleted.last());
            }
        }
    }
}

proof fn lemma_taken_from(rs: Seq<RecordingRow>, org: u128, ids: Seq<u128>)
    ensures
        forall|k: int|
            0 <= k < taken(rs, org, ids).len() ==> exists|j: int|
                0 <= j < rs.len() && rs[j].id == (#[trigger] taken(rs, org, ids)[k]).0,
    decreases rs.len(),
{
    if rs.len() > 0 {
        let d = rs.drop_last();
        lemma_taken_from(d, org, ids);
        let t = taken(d, org, ids);
        assert forall|k: int| 0 <= k < taken(rs, org, ids).len() implies exists|j: int|
            0 <= j < rs.len() && rs[j].id == (#[trigger] taken(rs, org, ids)[k]).0 by {
            if k < t.len() {
                let j = choose|j: int| 0 <= j < d.len() && d[j].id == t[k].0;
                assert(rs[j] == d[j]);
                assert(taken(rs, org, ids)[k] == t[k]);
            } else {
                assert(rs[rs.len() - 1] == rs.last());
            }
        }
    }
}

proof fn lemma_taken_distinct(rs: Seq<RecordingRow>, org: u128, ids: Seq<u128>)
    requires
        forall|i: int, j: int| 0 <= i < rs.len() && 0 <= j < rs.len() && i != j ==> (#[trigger] rs[i]).id != (#[trigger] rs[j]).id,
    ensures
        recording_ids_distinct(taken(rs, org, ids)),
    decreases rs.len(),
{
    if rs.len() > 0 {
        let d = rs.drop_last();
        assert forall|i: int, j: int| 0 <= i < d.len() && 0 <= j < d.len() && i != j implies (#[trigger] d[i]).id != (
        #[trigger] d[j]).id by {
            assert(d[i] == rs[i] && d[j] == rs[j]);
        }
        lemma_taken_distinct(d, org, ids);
        lemma_taken_from(d, org, ids);
        let t = taken(d, org, ids);
        if takes(rs.last(), org, ids) {
            let p = t.push((rs.last().id, rs.last().s3_bucket_id));
            assert forall|a: int, b: int| 0 <= a < p.len() && 0 <= b < p.len() && a != b implies (#[trigger] p[a]).0 != (
            #[trigger] p[b]).0 by {
                if a == t.len() {
                    let j = choose|j: int| 0 <= j < d.len() && d[j].id == (#[trigger] t[b]).0;
                    assert(rs[j] == d[j]);
                    assert(rs[rs.len() - 1] == rs.last());
                } else if b == t.len() {
                    let j = choose|j: int| 0 <= j < d.len() && d[j].id == (#[trigger] t[a]).0;
                    assert(rs[j] == d[j]);
                    assert(rs[rs.len() - 1] == rs.last());
                } else {
                    assert(p[a] == t[a] && p[b] == t[b]);
                }
            }
        }
    }
}

/// Recording ids strictly ascend.
pub open spec fn ascending(d: Seq<(u128, u128)>) -> bool {
    forall|i: int, j: int| 0 <= i < j < d.len() ==> (#[trigger] d[i]).0 < (#[trigger] d[j]).0
}

/// The deleted recordings ordered by id, the order the cleanup queries read
/// them in.
pub fn sort_by_recording(deleted: &Vec<(u128, u128)>) -> (r: Vec<(u128, u128)>)
    requires
        recording_ids_distinct(deleted@),
    ensures
        ascending(r@),
        forall|x: (u128, u128)| #[trigger] r@.contains(x) <==> deleted@.contains(x),
{
    let mut out: Vec<(u128, u128)> = Vec::new();
    let mut i: usize = 0;
    while i < deleted.len()
        invariant
            0 <= i <= deleted@.len(),
            recording_ids_distinct(deleted@),
            ascending(out@),
            forall|x: (u128, u128)| #[trigger] out@.contains(x) <==> deleted@.subrange(0, i as int).contains(x),
        decreases deleted@.len() - i,
    {
        let e = deleted[i];
        proof {
            assert forall|k: int| 0 <= k < out@.len() implies (#[trigger] out@[k]).0 != e.0 by {
                assert(out@.contains(out@[k]));
                let m = choose|m: int| 0 <= m < i && deleted@.subrange(0, i as int)[m] == out@[k];
                assert(deleted@[m] == out@[k]);
                assert(deleted@[m].0 != deleted@[i as int].0);
            }
        }
        let mut pos: usize = 0;
        while pos < out.len() && out[pos].0 < e.0
            invariant
                0 <= pos <= out@.len(),
                forall|k: int| 0 <= k < pos ==> (#[trigger] out@[k]).0 < e.0,
            decreases out@.len() - pos,
        {
            pos = pos + 1;
        }
        let ghost before = out@;
        out.insert(pos, e);
        proof {
            assert(out@ =~= before.subrange(0, pos as int).push(e) + before.subrange(pos as int, before.len() as int));
            assert forall|k: int| pos <= k < before.len() implies (#[trigger] before[k]).0 > e.0 by {
                assert(before[k].0 != e.0);
                if k > pos {
                    assert(before[pos as int].0 < before[k].0);
                    assert(before[pos as int].0 != e.0);
                }
            }
            assert forall|a: int, b: int| 0 <= a < b < out@.len() implies (#[trigger] out@[a]).0 < (#[trigger] out@[b]).0 by {
                if b < pos {
                    assert(out@[a] == before[a] && out@[b] == before[b]);
                } else if b == pos {
                    assert(out@[a] == before[a]);
                } else if a == pos {
                    assert(out@[b] == before[b - 1]);
                } else if a < pos {
                    assert(out@[a] == before[a] && out@[b] == before[b - 1]);
                } else {
                    assert(out@[a] == before[a - 1] && out@[b] == before[b - 1]);
                }
            }
            lemma_push_contains(deleted@.subrange(0, i as int), e);
            assert(deleted@.subrange(0, i + 1) =~= deleted@.subrange(0, i as int).push(e));
            assert forall|x: (u128, u128)| #[trigger] out@.contains(x) <==> before.contains(x) || x == e by {
                if before.contains(x) {
                    let k = choose|k: int| 0 <= k < before.len() && before[k] == x;
                    if k < pos {
                        assert(out@[k] == x);
                    } else {
                        assert(out@[k + 1] == x);
                    }
                }
                if x == e {
                    assert(out@[pos as int] == e);
                }
                if out@.contains(x) {
                    let k = choose|k: int| 0 <= k < out@.len() && out@[k] == x;
                    if k < pos {
                        assert(before[k] == x);
                    } else if k > pos {
                        assert(before[k - 1] == x);
                    }
                }
            }
        }
        i = i + 1;
    }
    assert(deleted@.subrange(0, deleted@.len() as int) =~= deleted@);
    out
}

impl RecordingTables {
    /// Recording ids are unique.
    pub open spec fn wf(&self) -> bool {
        forall|i: int, j: int|
            0 <= i < self.recordings@.len() && 0 <= j < self.recordings@.len() && i != j ==> (
            #[trigger] self.recordings@[i]).id != (#[trigger] self.recordings@[j]).id
    }

    /// Marks the organization's live recordings among `ids` deleted and
    /// detaches them from room and configuration; answers `(id, bucket)` of
    /// each, in table order.
    pub fn soft_delete(&mut self, organization_id: u128, ids: &Vec<u128>, now: u64) -> (r: Vec<(u128, u128)>)
        ensures
            final(self).recordings@ == after_soft_delete(old(self).recordings@, organization_id, ids@, now),
            r@ == taken(old(self).recordings@, organization_id, ids@),
            final(self).playback_sessions == old(self).playback_sessions,
            final(self).renditions == old(self).renditions,
            final(self).thumbnails == old(self).thumbnails,
            final(self).segments == old(self).segments,
    {
        let ghost rs = self.recordings@;
        let mut out: Vec<(u128, u128)> = Vec::new();
        let mut i: usize = 0;
        while i < self.recordings.len()
            invariant
                0 <= i <= self.recordings@.len(),
                self.recordings@.len() == rs.len(),
                forall|k: int| 0 <= k < i ==> self.recordings@[k] == (if takes(rs[k], organization_id, ids@) {
                    marked_deleted(rs[k], now)
                } else {
                    rs[k]
                }),
                forall|k: int| i <= k < rs.len() ==> self.recordings@[k] == rs[k],
                out@ == taken(rs.subrange(0, i as int), organization_id, ids@),
                self.playback_sessions == old(self).playback_sessions,
                self.renditions == old(self).renditions,
                self.thumbnails == old(self).thumbnails,
                self.segments == old(self).segments,
                rs == old(self).recordings@,
            decreases rs.len() - i,
        {
            let row = self.recordings[i];
            assert(rs.subrange(0, i + 1).drop_last() =~= rs.subrange(0, i as int));
            assert(rs.subrange(0, i + 1).last() == row);
            if row.deleted_at.is_none() && row.organization_id == organization_id && contains_id(ids, row.id) {
                let marked = RecordingRow { room_id: None, recording_config_id: None, deleted_at: Some(now), ..row };
                self.recordings.set(i, marked);
                out.push((row.id, row.s3_bucket_id));
            }
            i = i + 1;
        }
        assert(rs.subrange(0, rs.len() as int) =~= rs);
        assert(self.recordings@ =~= after_soft_delete(rs, organization_id, ids@, now));
        out
    }

    /// Removes the playback sessions and renditions of the deleted recordings.
    pub fn purge_dependents(&mut self, organization_id: u128, deleted: &Vec<(u128, u128)>)
        ensures
            final(self).playback_sessions@ == kept_sessions(old(self).playback_sessions@, organization_id, deleted@),
            final(self).renditions@ == kept_renditions(old(self).renditions@, deleted@),
            final(self).recordings == old(self).recordings,
            final(self).thumbnails == old(self).thumbnails,
            final(self).segments == old(self).segments,
    {
        let mut sessions: Vec<PlaybackSessionRow> = Vec::new();
        let mut i: usize = 0;
        while i < self.playback_sessions.len()
            invariant
                0 <= i <= self.playback_sessions@.len(),
                sessions@ == kept_sessions(self.playback_sessions@.subrange(0, i as int), organization_id, deleted@),
            decreases self.playback_sessions@.len() - i,
        {
            let p = self.playback_sessions[i];
            assert(self.playback_sessions@.subrange(0, i + 1).drop_last() =~= self.playback_sessions@.subrange(0, i as int));
            let gone = match p.recording_id {
                Some(rid) => p.organization_id == organization_id && is_deleted(deleted, rid),
                None => false,
            };
            if !gone {
                sessions.push(p);
            }
            i = i + 1;
        }
        assert(self.playback_sessions@.subrange(0, self.playback_sessions@.len() as int) =~= self.playback_sessions@);
        let mut renditions: Vec<RecordingRenditionRow> = Vec::new();
        let mut i: usize = 0;
        while i < self.renditions.len()
            invariant
                0 <= i <= self.renditions@.len(),
                renditions@ == kept_renditions(self.renditions@.subrange(0, i as int), deleted@),
            decreases self.renditions@.len() - i,
        {
            let r = self.renditions[i];
            assert(self.renditions@.subrange(0, i + 1).drop_last() =~= self.renditions@.subrange(0, i as int));
            if !is_deleted(deleted, r.recording_id) {
                renditions.push(r);
            }
            i = i + 1;
        }
        assert(self.renditions@.subrange(0, self.renditions@.len() as int) =~= self.renditions@);
        self.playback_sessions = sessions;
        self.renditions = renditions;
    }

    /// The thumbnails to clean up, grouped by recording.
    pub fn select_thumbnails(&self, deleted: &Vec<(u128, u128)>) -> (r: Vec<ThumbnailResp>)
        ensures
            r@ == selected_thumbnails(self.thumbnails@, deleted@),
    {
        let ts = &self.thumbnails;
        let mut out: Vec<ThumbnailResp> = Vec::new();
        let mut d: usize = 0;
        while d < deleted.len()
            invariant
                0 <= d <= deleted@.len(),
                out@ == selected_thumbnails(ts@, deleted@.subrange(0, d as int)),
            decreases deleted@.len() - d,
        {
            let (rid, _) = deleted[d];
            let ghost base = out@;
            let mut k: usize = 0;
            while k < ts.len()
                invariant
                    0 <= k <= ts@.len(),
                    out@ == base + thumbnails_of(ts@.subrange(0, k as int), rid),
                decreases ts@.len() - k,
            {
                let t = ts[k];
                assert(ts@.subrange(0, k + 1).drop_last() =~= ts@.subrange(0, k as int));
                if t.recording_id == rid {
                    out.push(t);
                    assert(out@ =~= base + thumbnails_of(ts@.subrange(0, k + 1), rid));
                }
                k = k + 1;
            }
            assert(ts@.subrange(0, ts@.len() as int) =~= ts@);
            assert(deleted@.subrange(0, d + 1).drop_last() =~= deleted@.subrange(0, d as int));
            assert(deleted@.subrange(0, d + 1).last() == deleted@[d as int]);
            d = d + 1;
        }
        assert(deleted@.subrange(0, deleted@.len() as int) =~= deleted@);
        out
    }

    /// The segments to clean up, grouped by recording, then by rendition.
    pub fn select_segments(&self, deleted: &Vec<(u128, u128)>) -> (r: Vec<SegmentResp>)
        ensures
            r@ == selected_segments(self.segments@, deleted@),
    {
        let ss = &self.segments;
        let mut out: Vec<SegmentResp> = Vec::new();
        let mut d: usize = 0;
        while d < deleted.len()
            invariant
                0 <= d <= deleted@.len(),
                out@ == selected_segments(ss@, deleted@.subrange(0, d as int)),
            decreases deleted@.len() - d,
        {
            let (rid, _) = deleted[d];
            let ghost base = out@;
            let mut n: usize = 0;
            while n < RENDITION_COUNT
                invariant
                    0 <= n <= RENDITION_COUNT,
                    out@ == base + segments_by_rendition(ss@, rid, n as int),
                decreases RENDITION_COUNT - n,
            {
                let rendition = rendition_order(n);
                let ghost mid = out@;
                let mut k: usize = 0;
                while k < ss.len()
                    invariant
                        0 <= k <= ss@.len(),
                        out@ == mid + segments_of(ss@.subrange(0, k as int), rid, rendition),
                    decreases ss@.len() - k,
                {
                    let s = ss[k];
                    assert(ss@.subrange(0, k + 1).drop_last() =~= ss@.subrange(0, k as int));
                    if s.recording_id == rid && s.rendition == rendition {
                        out.push(s);
                        assert(out@ =~= mid + segments_of(ss@.subrange(0, k + 1), rid, rendition));
                    }
                    k = k + 1;
                }
                assert(ss@.subrange(0, ss@.len() as int) =~= ss@);
                assert(out@ =~= base + segments_by_rendition(ss@, rid, n + 1));
                n = n + 1;
            }
            assert(deleted@.subrange(0, d + 1).drop_last() =~= deleted@.subrange(0, d as int));
            assert(deleted@.subrange(0, d + 1).last() == deleted@[d as int]);
            d = d + 1;
        }
        assert(deleted@.subrange(0, deleted@.len() as int) =~= deleted@);
        out
    }
}

impl RecordingDeleteRequest {
    /// Deletes recordings of the token's organization: soft-deletes them,
    /// purges their playback sessions and renditions, answers which ids were
    /// deleted and which not, and plans the object cleanup, thumbnails first.
    pub fn process(&self, tables: &mut RecordingTables, access_token: &AccessToken, now: u64) -> (r: Result<
        RecordingDeleteOutcome,
        ApiError,
    >)
        requires
            old(tables).wf(),
        ensures
            self.ids@.len() > MAX_DELETE_IDS ==> r == Err::<RecordingDeleteOutcome, ApiError>(ApiError::TooManyIds),
            self.ids@.len() == 0 ==> r == Err::<RecordingDeleteOutcome, ApiError>(ApiError::NoIds),
            r is Err ==> *final(tables) == *old(tables),
            0 < self.ids@.len() <= MAX_DELETE_IDS ==> (r matches Ok(out) && {
                let org = access_token.organization_id;
                let deleted = taken(old(tables).recordings@, org, self.ids@);
                &&& final(tables).recordings@ == after_soft_delete(old(tables).recordings@, org, self.ids@, now)
                &&& final(tables).playback_sessions@ == kept_sessions(old(tables).playback_sessions@, org, deleted)
                &&& final(tables).renditions@ == kept_renditions(old(tables).renditions@, deleted)
                &&& final(tables).thumbnails == old(tables).thumbnails
                &&& final(tables).segments == old(tables).segments
                &&& delete_answer(self.ids@, deleted, out.response)
                &&& well_formed_batches(out.batches@, deleted)
                &&& exists|order: Seq<(u128, u128)>|
                    {
                        &&& ascending(order)
                        &&& forall|x: (u128, u128)| #[trigger] order.contains(x) <==> deleted.contains(x)
                        &&& flat_entries(out.batches@) == selected_thumbnails(old(tables).thumbnails@, order).map_values(
                            |t: ThumbnailResp| t.entry(),
                        ) + selected_segments(old(tables).segments@, order).map_values(|s: SegmentResp| s.entry())
                    }
            }),
    {
        match validate_delete_ids(&self.ids) {
            Err(e) => {
                return Err(e);
            },
            Ok(()) => {},
        }
        let org = access_token.organization_id;
        proof {
            lemma_taken_distinct(tables.recordings@, org, self.ids@);
        }
        let deleted = tables.soft_delete(org, &self.ids, now);
        tables.purge_dependents(org, &deleted);
        let response = delete_response(&self.ids, &deleted);
        let order = sort_by_recording(&deleted);
        let thumbnails = tables.select_thumbnails(&order);
        let segments = tables.select_segments(&order);
        proof {
            lemma_selected_thumbnails_refer(tables.thumbnails@, order@);
            lemma_selected_segments_refer(tables.segments@, order@);
            assert(recording_ids_distinct(order@)) by {
                assert forall|a: int, b: int| 0 <= a < order@.len() && 0 <= b < order@.len() && a != b implies (
                #[trigger] order@[a]).0 != (#[trigger] order@[b]).0 by {
                    if a < b {
                        assert(order@[a].0 < order@[b].0);
                    } else {
                        assert(order@[b].0 < order@[a].0);
                    }
                }
            }
        }
        let batches = plan_cleanup(&thumbnails, &segments, &order);
        proof {
            assert forall|i: int| 0 <= i < batches@.len() implies publishable(#[trigger] batches@[i], deleted@) by {
                assert(publishable(batches@[i], order@));
                assert(order@.contains((batches@[i].recording_id->0, batches@[i].s3_bucket_id->0)));
            }
        }
        Ok(RecordingDeleteOutcome { response, batches })
    }
}

proof fn lemma_kept_sessions(sessions: Seq<PlaybackSessionRow>, org: u128, deleted: Seq<(u128, u128)>)
    ensures
        forall|k: int|
            0 <= k < kept_sessions(sessions, org, deleted).len() ==> !session_of_deleted(
                #[trigger] kept_sessions(sessions, org, deleted)[k],
                org,
                deleted,
            ),
    decreases sessions.len(),
{
    if sessions.len() > 0 {
        lemma_kept_sessions(sessions.drop_last(), org, deleted);
        let a = kept_sessions(sessions.drop_last(), org, deleted);
        if !session_of_deleted(sessions.last(), org, deleted) {
            assert forall|k: int| 0 <= k < a.push(sessions.last()).len() implies !session_of_deleted(
                #[trigger] a.push(sessions.last())[k],
                org,
                deleted,
            ) by {
                if k < a.len() {
                    assert(a.push(sessions.last())[k] == a[k]);
                }
            }
        }
    }
}

proof fn lemma_kept_renditions(renditions: Seq<RecordingRenditionRow>, deleted: Seq<(u128, u128)>)
    ensures
        forall|k: int|
            0 <= k < kept_renditions(renditions, deleted).len() ==> !has_recording(
                deleted,
                #[trigger] kept_renditions(renditions, deleted)[k].recording_id,
            ),
    decreases renditions.len(),
{
    if renditions.len() > 0 {
        lemma_kept_renditions(renditions.drop_last(), deleted);
        let a = kept_renditions(renditions.drop_last(), deleted);
        if !has_recording(deleted, renditions.last().recording_id) {
            assert forall|k: int| 0 <= k < a.push(renditions.last()).len() implies !has_recording(
                deleted,
                #[trigger] a.push(renditions.last())[k].recording_id,
            ) by {
                if k < a.len() {
                    assert(a.push(renditions.last())[k] == a[k]);
                }
            }
        }
    }
}

/// After a delete, no playback session of the organization and no rendition
/// refers to a recording it deleted.
pub proof fn law_soft_delete_purges_dependents(
    sessions: Seq<PlaybackSessionRow>,
    renditions: Seq<RecordingRenditionRow>,
    org: u128,
    deleted: Seq<(u128, u128)>,
)
    ensures
        forall|k: int|
            0 <= k < kept_sessions(sessions, org, deleted).len() ==> !session_of_deleted(
                #[trigger] kept_sessions(sessions, org, deleted)[k],
                org,
                deleted,
            ),
        forall|k: int|
            0 <= k < kept_renditions(renditions, deleted).len() ==> !has_recording(
                deleted,
                #[trigger] kept_renditions(renditions, deleted)[k].recording_id,
            ),
{
    lemma_kept_sessions(sessions, org, deleted);
    lemma_kept_renditions(renditions, deleted);
}

proof fn lemma_kept_sessions_other_orgs(ps: Seq<PlaybackSessionRow>, org: u128, deleted: Seq<(u128, u128)>)
    ensures
        forall|k: int|
            0 <= k < ps.len() && (#[trigger] ps[k]).organization_id != org ==> kept_sessions(ps, org, deleted).contains(
                ps[k],
            ),
    decreases ps.len(),
{
    if ps.len() > 0 {
        let d = ps.drop_last();
        lemma_kept_sessions_other_orgs(d, org, deleted);
        let kd = kept_sessions(d, org, deleted);
        assert forall|k: int| 0 <= k < ps.len() && (#[trigger] ps[k]).organization_id != org implies kept_sessions(
            ps,
            org,
            deleted,
        ).contains(ps[k]) by {
            if k < d.len() {
                assert(d[k] == ps[k]);
                let m = choose|m: int| 0 <= m < kd.len() && kd[m] == d[k];
                if !session_of_deleted(ps.last(), org, deleted) {
                    assert(kd.push(ps.last())[m] == ps[k]);
                }
            } else {
                assert(ps[k] == ps.last());
                assert(kd.push(ps.last())[kd.len() as int] == ps[k]);
            }
        }
    }
}

/// Every recording a delete takes is one of the organization's, among those
/// asked for.
pub proof fn law_deleted_are_organizations_own(rs: Seq<RecordingRow>, org: u128, ids: Seq<u128>)
    ensures
        forall|k: int|
            #![trigger taken(rs, org, ids)[k]]
            0 <= k < taken(rs, org, ids).len() ==> exists|j: int|
                0 <= j < rs.len() && rs[j].id == taken(rs, org, ids)[k].0 && rs[j].organization_id == org
                    && ids.contains(rs[j].id),
    decreases rs.len(),
{
    if rs.len() > 0 {
        let d = rs.drop_last();
        law_deleted_are_organizations_own(d, org, ids);
        let t = taken(d, org, ids);
        assert forall|k: int| #![trigger taken(rs, org, ids)[k]] 0 <= k < taken(rs, org, ids).len() implies exists|j: int|
            0 <= j < rs.len() && rs[j].id == taken(rs, org, ids)[k].0 && rs[j].organization_id == org
                && ids.contains(rs[j].id) by {
            if k < t.len() {
                let j = choose|j: int|
                    0 <= j < d.len() && d[j].id == t[k].0 && d[j].organization_id == org && ids.contains(
                        d[j].id,
                    );
                assert(rs[j] == d[j]);
                assert(taken(rs, org, ids)[k] == t[k]);
            } else {
                assert(rs[rs.len() - 1] == rs.last());
            }
        }
    }
}

/// A delete stays inside the token's organization: recordings and playback
/// sessions of other organizations are kept as they were.
pub proof fn law_delete_scoped_to_organization(
    recordings: Seq<RecordingRow>,
    sessions: Seq<PlaybackSessionRow>,
    org: u128,
    ids: Seq<u128>,
    now: u64,
)
    ensures
        forall|k: int|
            0 <= k < recordings.len() && (#[trigger] recordings[k]).organization_id != org ==> after_soft_delete(
                recordings,
                org,
                ids,
                now,
            )[k] == recordings[k],
        forall|k: int|
            0 <= k < sessions.len() && (#[trigger] sessions[k]).organization_id != org ==> kept_sessions(
                sessions,
                org,
                taken(recordings, org, ids),
            ).contains(sessions[k]),
{
    lemma_kept_sessions_other_orgs(sessions, org, taken(recordings, org, ids));
}

proof fn lemma_concat_contains<A>(a: Seq<A>, b: Seq<A>)
    ensures
        forall|x: A| #[trigger] (a + b).contains(x) <==> a.contains(x) || b.contains(x),
{
    assert forall|x: A| #[trigger] (a + b).contains(x) <==> a.contains(x) || b.contains(x) by {
        if a.contains(x) {
            let k = choose|k: int| 0 <= k < a.len() && a[k] == x;
            assert((a + b)[k] == x);
        }
        if b.contains(x) {
            let k = choose|k: int| 0 <= k < b.len() && b[k] == x;
            assert((a + b)[a.len() + k] == x);
        }
        if (a + b).contains(x) {
            let k = choose|k: int| 0 <= k < (a + b).len() && (a + b)[k] == x;
            if k < a.len() {
                assert(a[k] == x);
            } else {
                assert(b[k - a.len()] == x);
            }
        }
    }
}

proof fn lemma_thumbnails_of_contains(ts: Seq<ThumbnailResp>, id: u128)
    ensures
        forall|t: ThumbnailResp| #[trigger] thumbnails_of(ts, id).contains(t) <==> ts.contains(t) && t.recording_id == id,
    decreases ts.len(),
{
    if ts.len() > 0 {
        let d = ts.drop_last();
        lemma_thumbnails_of_contains(d, id);
        lemma_push_contains(d, ts.last());
        assert(d.push(ts.last()) =~= ts);
        lemma_push_contains(thumbnails_of(d, id), ts.last());
    }
}

proof fn lemma_selected_thumbnails_contains(ts: Seq<ThumbnailResp>, order: Seq<(u128, u128)>)
    ensures
        forall|t: ThumbnailResp| #[trigger] selected_thumbnails(ts, order).contains(t) <==> ts.contains(t) && has_recording(
            order,
            t.recording_id,
        ),
    decreases order.len(),
{
    if order.len() > 0 {
        let d = order.drop_last();
        lemma_selected_thumbnails_contains(ts, d);
        lemma_thumbnails_of_contains(ts, order.last().0);
        lemma_concat_contains(selected_thumbnails(ts, d), thumbnails_of(ts, order.last().0));
        assert forall|t: ThumbnailResp| #[trigger] selected_thumbnails(ts, order).contains(t) <==> ts.contains(t)
            && has_recording(order, t.recording_id) by {
            if has_recording(order, t.recording_id) {
                let k = choose|k: int| 0 <= k < order.len() && order[k].0 == t.recording_id;
                if k < d.len() {
                    assert(d[k] == order[k]);
                }
            }
            if has_recording(d, t.recording_id) {
                let k = choose|k: int| 0 <= k < d.len() && d[k].0 == t.recording_id;
                assert(order[k] == d[k]);
            }
            assert(order[order.len() - 1] == order.last());
        }
    }
}

proof fn lemma_segments_of_contains(ss: Seq<SegmentResp>, id: u128, rendition: Rendition)
    ensures
        forall|x: SegmentResp| #[trigger] segments_of(ss, id, rendition).contains(x) <==> ss.contains(x) && x.recording_id
            == id && x.rendition == rendition,
    decreases ss.len(),
{
    if ss.len() > 0 {
        let d = ss.drop_last();
        lemma_segments_of_contains(d, id, rendition);
        lemma_push_contains(d, ss.last());
        assert(d.push(ss.last()) =~= ss);
        lemma_push_contains(segments_of(d, id, rendition), ss.last());
    }
}

proof fn lemma_segments_by_rendition_contains(ss: Seq<SegmentResp>, id: u128, n: int)
    requires
        0 <= n <= RENDITION_COUNT,
    ensures
        forall|x: SegmentResp| #[trigger] segments_by_rendition(ss, id, n).contains(x) <==> ss.contains(x)
            && x.recording_id == id && exists|k: int| 0 <= k < n && rendition_at(k) == x.rendition,
    decreases n,
{
    if n > 0 {
        lemma_segments_by_rendition_contains(ss, id, n - 1);
        lemma_segments_of_contains(ss, id, rendition_at(n - 1));
        lemma_concat_contains(segments_by_rendition(ss, id, n - 1), segments_of(ss, id, rendition_at(n - 1)));
        assert forall|x: SegmentResp| #[trigger] segments_by_rendition(ss, id, n).contains(x) <==> ss.contains(x)
            && x.recording_id == id && exists|k: int| 0 <= k < n && rendition_at(k) == x.rendition by {
            if exists|k: int| 0 <= k < n && rendition_at(k) == x.rendition {
                let k = choose|k: int| 0 <= k < n && rendition_at(k) == x.rendition;
                if k < n - 1 {
                    assert(exists|k2: int| 0 <= k2 < n - 1 && rendition_at(k2) == x.rendition);
                }
            }
            if exists|k: int| 0 <= k < n - 1 && rendition_at(k) == x.rendition {
                let k = choose|k: int| 0 <= k < n - 1 && rendition_at(k) == x.rendition;
                assert(0 <= k < n);
            }
        }
    }
}

proof fn lemma_every_rendition_listed(r: Rendition)
    ensures
        exists|k: int| 0 <= k < RENDITION_COUNT && rendition_at(k) == r,
{
    match r {
        Rendition::VideoSource => assert(rendition_at(0) == r),
        Rendition::VideoHd => assert(rendition_at(1) == r),
        Rendition::VideoSd => assert(rendition_at(2) == r),
        Rendition::VideoLd => assert(rendition_at(3) == r),
        Rendition::AudioSource => assert(rendition_at(4) == r),
    }
}

proof fn lemma_selected_segments_contains(ss: Seq<SegmentResp>, order: Seq<(u128, u128)>)
    ensures
        forall|x: SegmentResp| #[trigger] selected_segments(ss, order).contains(x) <==> ss.contains(x) && has_recording(
            order,
            x.recording_id,
        ),
    decreases order.len(),
{
    if order.len() > 0 {
        let d = order.drop_last();
        let id = order.last().0;
        lemma_selected_segments_contains(ss, d);
        lemma_segments_by_rendition_contains(ss, id, RENDITION_COUNT as int);
        lemma_concat_contains(selected_segments(ss, d), segments_by_rendition(ss, id, RENDITION_COUNT as int));
        assert forall|x: SegmentResp| #[trigger] selected_segments(ss, order).contains(x) <==> ss.contains(x)
            && has_recording(order, x.recording_id) by {
            lemma_every_rendition_listed(x.rendition);
            if has_recording(order, x.recording_id) {
                let k = choose|k: int| 0 <= k < order.len() && order[k].0 == x.recording_id;
                if k < d.len() {
                    assert(d[k] == order[k]);
                }
            }
            if has_recording(d, x.recording_id) {
                let k = choose|k: int| 0 <= k < d.len() && d[k].0 == x.recording_id;
                assert(order[k] == d[k]);
            }
            assert(order[order.len() - 1] == order.last());
        }
    }
}

/// The cleanup reads take exactly the thumbnails and segments of the deleted
/// recordings: a row is selected if and only if its recording is among them.
pub proof fn law_cleanup_selects_rows_of_deleted(
    thumbnails: Seq<ThumbnailResp>,
    segments: Seq<SegmentResp>,
    deleted: Seq<(u128, u128)>,
)
    ensures
        forall|t: ThumbnailResp| #[trigger] selected_thumbnails(thumbnails, deleted).contains(t) <==> thumbnails.contains(t)
            && has_recording(deleted, t.recording_id),
        forall|x: SegmentResp| #[trigger] selected_segments(segments, deleted).contains(x) <==> segments.contains(x)
            && has_recording(deleted, x.recording_id),
{
    lemma_selected_thumbnails_contains(thumbnails, deleted);
    lemma_selected_segments_contains(segments, deleted);
}

} // verus!
