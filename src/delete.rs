use vstd::prelude::*;

use crate::error::ApiError;
use crate::rendition::Rendition;

verus! {

/// The most recordings one delete request may name.
pub const MAX_DELETE_IDS: usize = 100;

/// The class of stored objects that a cleanup batch removes.
#[derive(Clone, Copy, Debug, PartialEq, Eq, Structural)]
pub enum ObjectTypes {
    Thumbnails,
    Segments(Rendition),
}

/// One stored object of a recording: its position and its object id.
#[derive(Clone, Copy, Debug, PartialEq, Eq, Structural)]
pub struct DeleteObject {
    pub index: i32,
    pub object_id: u128,
}

/// A message for the cleanup worker: objects of one recording and one object
/// class, to be removed from the bucket the recording lives in.
#[derive(Debug)]
pub struct RecordingDeleteBatchTask {
    pub recording_id: Option<u128>,
    pub s3_bucket_id: Option<u128>,
    pub object_types: Option<ObjectTypes>,
    pub objects: Vec<DeleteObject>,
}

/// A thumbnail row selected for cleanup.
#[derive(Clone, Copy, Debug, PartialEq, Eq, Structural)]
pub struct ThumbnailResp {
    pub recording_id: u128,
    pub thumbnail_id: u128,
    pub idx: i32,
}

/// A rendition segment row selected for cleanup.
#[derive(Clone, Copy, Debug, PartialEq, Eq, Structural)]
pub struct SegmentResp {
    pub recording_id: u128,
    pub segment_id: u128,
    pub idx: i32,
    pub rendition: Rendition,
}

/// A recording that could not be deleted, with the reason.
#[derive(Clone, Copy, Debug)]
pub struct FailedResource {
    pub id: u128,
    pub reason: &'static str,
}

/// The answer to a delete request.
#[derive(Debug)]
pub struct RecordingDeleteResponse {
    pub ids: Vec<u128>,
    pub failed_deletes: Vec<FailedResource>,
}

/// An object to remove, with the recording and the class it is batched under.
pub type ObjectEntry = (u128, ObjectTypes, DeleteObject);

pub open spec fn batch_key(b: RecordingDeleteBatchTask) -> (Option<u128>, Option<ObjectTypes>) {
    (b.recording_id, b.object_types)
}

/// The objects of a batch, each with the batch's recording and class.
pub open spec fn batch_entries(b: RecordingDeleteBatchTask) -> Seq<ObjectEntry> {
    Seq::new(b.objects@.len(), |i: int| (b.recording_id->0, b.object_types->0, b.objects@[i]))
}

/// The objects of a run of batches, in order.
pub open spec fn flat_entries(bs: Seq<RecordingDeleteBatchTask>) -> Seq<ObjectEntry>
    decreases bs.len(),
{
    if bs.len() == 0 {
        Seq::empty()
    } else {
        flat_entries(bs.drop_last()) + batch_entries(bs.last())
    }
}

/// The deleted recordings as a map: no recording appears twice.
pub open spec fn recording_ids_distinct(deleted: Seq<(u128, u128)>) -> bool {
    forall|i: int, j: int|
        0 <= i < deleted.len() && 0 <= j < deleted.len() && i != j ==> (#[trigger] deleted[i]).0 != (
        #[trigger] deleted[j]).0
}

pub open spec fn has_recording(deleted: Seq<(u128, u128)>, id: u128) -> bool {
    exists|j: int| 0 <= j < deleted.len() && deleted[j].0 == id
}

/// A batch fit to publish: some objects, one recording, one class, and the
/// bucket of that recording.
pub open spec fn publishable(b: RecordingDeleteBatchTask, deleted: Seq<(u128, u128)>) -> bool {
    &&& b.objects@.len() > 0
    &&& b.recording_id is Some
    &&& b.object_types is Some
    &&& b.s3_bucket_id is Some
    &&& deleted.contains((b.recording_id->0, b.s3_bucket_id->0))
}

/// Every batch is publishable, and no two neighbours share recording and class.
pub open spec fn well_formed_batches(bs: Seq<RecordingDeleteBatchTask>, deleted: Seq<(u128, u128)>) -> bool {
    &&& forall|i: int| 0 <= i < bs.len() ==> publishable(#[trigger] bs[i], deleted)
    &&& forall|i: int, j: int|
        0 <= i && j == i + 1 && j < bs.len() ==> batch_key(#[trigger] bs[i]) != batch_key(
            #[trigger] bs[j],
        )
}

/// A row of one of the cleanup queries.
pub trait UpdateBatch {
    spec fn entry(&self) -> ObjectEntry;

    /// Whether the row belongs in the batch being filled.
    fn is_same_batch(&self, batch: &RecordingDeleteBatchTask) -> (r: bool)
        ensures
            r == (batch.recording_id == Some(self.entry().0) && batch.object_types == Some(
                self.entry().1,
            )),
    ;

    /// Points an emptied batch at the row's recording, bucket and class.
    fn update_batch(&self, deleted_recordings: &Vec<(u128, u128)>, batch: &mut RecordingDeleteBatchTask)
        requires
            recording_ids_distinct(deleted_recordings@),
            has_recording(deleted_recordings@, self.entry().0),
        ensures
            final(batch).recording_id == Some(self.entry().0),
            final(batch).object_types == Some(self.entry().1),
            final(batch).s3_bucket_id is Some,
            deleted_recordings@.contains((self.entry().0, final(batch).s3_bucket_id->0)),
            final(batch).objects@.len() == 0,
    ;

    /// The object that the row names.
    fn to_object(&self) -> (r: DeleteObject)
        ensures
            r == self.entry().2,
    ;
}

/// The bucket that a deleted recording's objects live in.
fn bucket_of(deleted_recordings: &Vec<(u128, u128)>, recording_id: u128) -> (r: u128)
    requires
        recording_ids_distinct(deleted_recordings@),
        has_recording(deleted_recordings@, recording_id),
    ensures
        deleted_recordings@.contains((recording_id, r)),
        forall|b: u128| deleted_recordings@.contains((recording_id, b)) ==> b == r,
{
    let mut i: usize = 0;
    while i < deleted_recordings.len()
        invariant
            0 <= i <= deleted_recordings@.len(),
            recording_ids_distinct(deleted_recordings@),
            has_recording(deleted_recordings@, recording_id),
            forall|k: int| 0 <= k < i ==> deleted_recordings@[k].0 != recording_id,
        decreases deleted_recordings@.len() - i,
    {
        let (id, bucket) = deleted_recordings[i];
        if id == recording_id {
            assert(deleted_recordings@[i as int] == (recording_id, bucket));
            assert forall|b: u128| deleted_recordings@.contains((recording_id, b)) implies b == bucket by {
                let k = choose|k: int| 0 <= k < deleted_recordings@.len() && deleted_recordings@[k] == (recording_id, b);
                if k != i {
                    assert(deleted_recordings@[k].0 != deleted_recordings@[i as int].0);
                }
            }
            return bucket;
        }
        i = i + 1;
    }
    proof {
        let j = choose|j: int| 0 <= j < deleted_recordings@.len() && deleted_recordings@[j].0 == recording_id;
        assert(deleted_recordings@[j].0 != recording_id);
    }
    0
}

impl UpdateBatch for ThumbnailResp {
    open spec fn entry(&self) -> ObjectEntry {
        (self.recording_id, ObjectTypes::Thumbnails, DeleteObject { index: self.idx, object_id: self.thumbnail_id })
    }

    fn is_same_batch(&self, batch: &RecordingDeleteBatchTask) -> (r: bool) {
        batch.recording_id == Some(self.recording_id) && match batch.object_types {
            Some(ObjectTypes::Thumbnails) => true,
            _ => false,
        }
    }

    fn update_batch(&self, deleted_recordings: &Vec<(u128, u128)>, batch: &mut RecordingDeleteBatchTask) {
        batch.recording_id = Some(self.recording_id);
        batch.s3_bucket_id = Some(bucket_of(deleted_recordings, self.recording_id));
        batch.object_types = Some(ObjectTypes::Thumbnails);
        batch.objects.clear();
    }

    fn to_object(&self) -> (r: DeleteObject) {
        DeleteObject { index: self.idx, object_id: self.thumbnail_id }
    }
}

impl UpdateBatch for SegmentResp {
    open spec fn entry(&self) -> ObjectEntry {
        (
            self.recording_id,
            ObjectTypes::Segments(self.rendition),
            DeleteObject { index: self.idx, object_id: self.segment_id },
        )
    }

    fn is_same_batch(&self, batch: &RecordingDeleteBatchTask) -> (r: bool) {
        batch.recording_id == Some(self.recording_id) && match batch.object_types {
            Some(ObjectTypes::Segments(r)) => r == self.rendition,
            _ => false,
        }
    }

    fn update_batch(&self, deleted_recordings: &Vec<(u128, u128)>, batch: &mut RecordingDeleteBatchTask) {
        batch.recording_id = Some(self.recording_id);
        batch.s3_bucket_id = Some(bucket_of(deleted_recordings, self.recording_id));
        batch.object_types = Some(ObjectTypes::Segments(self.rendition));
        batch.objects.clear();
    }

    fn to_object(&self) -> (r: DeleteObject) {
        DeleteObject { index: self.idx, object_id: self.segment_id }
    }
}

proof fn lemma_entries_len(b: RecordingDeleteBatchTask)
    ensures
        batch_entries(b).len() == b.objects@.len(),
{
}

proof fn lemma_flat_push(bs: Seq<RecordingDeleteBatchTask>, b: RecordingDeleteBatchTask)
    ensures
        flat_entries(bs.push(b)) == flat_entries(bs) + batch_entries(b),
{
    assert(bs.push(b).drop_last() =~= bs);
}

proof fn lemma_flat_append(a: Seq<RecordingDeleteBatchTask>, b: Seq<RecordingDeleteBatchTask>)
    ensures
        flat_entries(a + b) == flat_entries(a) + flat_entries(b),
    decreases b.len(),
{
    if b.len() == 0 {
        assert(a + b =~= a);
        assert(flat_entries(a) + flat_entries(b) =~= flat_entries(a));
    } else {
        lemma_flat_append(a, b.drop_last());
        assert((a + b).drop_last() =~= a + b.drop_last());
        assert((a + b).last() == b.last());
        assert(flat_entries(a + b) == flat_entries(a + b.drop_last()) + batch_entries(b.last()));
        assert(flat_entries(a) + flat_entries(b) =~= flat_entries(a) + flat_entries(b.drop_last())
            + batch_entries(b.last()));
    }
}

/// Two batches carry the same recording, bucket, class and objects.
pub open spec fn same_batch(a: RecordingDeleteBatchTask, b: RecordingDeleteBatchTask) -> bool {
    &&& a.recording_id == b.recording_id
    &&& a.s3_bucket_id == b.s3_bucket_id
    &&& a.object_types == b.object_types
    &&& a.objects@ == b.objects@
}

/// The outbox after publishing `b`: a copy of it added when it holds objects,
/// nothing otherwise.
pub open spec fn published(before: Seq<RecordingDeleteBatchTask>, after: Seq<RecordingDeleteBatchTask>, b: RecordingDeleteBatchTask) -> bool {
    &&& b.objects@.len() > 0 ==> after.len() == before.len() + 1 && after.drop_last() == before && same_batch(after.last(), b)
    &&& b.objects@.len() == 0 ==> after == before
}

proof fn lemma_same_batch(a: RecordingDeleteBatchTask, b: RecordingDeleteBatchTask, deleted: Seq<(u128, u128)>)
    requires
        same_batch(a, b),
    ensures
        batch_entries(a) == batch_entries(b),
        batch_key(a) == batch_key(b),
        publishable(a, deleted) == publishable(b, deleted),
{
    assert(batch_entries(a) =~= batch_entries(b));
}

/// Hands a copy of a batch that holds objects to the outbox; the batch itself
/// is left as it is.
pub fn publish_batch(batch: &RecordingDeleteBatchTask, outbox: &mut Vec<RecordingDeleteBatchTask>)
    ensures
        published(old(outbox)@, final(outbox)@, *batch),
{
    if batch.objects.len() > 0 {
        let mut objects: Vec<DeleteObject> = Vec::new();
        let mut i: usize = 0;
        while i < batch.objects.len()
            invariant
                0 <= i <= batch.objects@.len(),
                objects@ == batch.objects@.subrange(0, i as int),
            decreases batch.objects@.len() - i,
        {
            objects.push(batch.objects[i]);
            assert(batch.objects@.subrange(0, i + 1) =~= batch.objects@.subrange(0, i as int).push(batch.objects@[i as int]));
            i = i + 1;
        }
        assert(batch.objects@.subrange(0, batch.objects@.len() as int) =~= batch.objects@);
        let ghost before = outbox@;
        outbox.push(
            RecordingDeleteBatchTask {
                recording_id: batch.recording_id,
                s3_bucket_id: batch.s3_bucket_id,
                object_types: batch.object_types,
                objects,
            },
        );
        assert(outbox@.drop_last() =~= before);
    }
}

/// Files one row: into the batch being filled when it shares its recording and
/// class, otherwise into a fresh batch after the filled one is published.
pub fn handle_resp<R: UpdateBatch>(
    deleted_recordings: &Vec<(u128, u128)>,
    resp: &R,
    batch: &mut RecordingDeleteBatchTask,
    outbox: &mut Vec<RecordingDeleteBatchTask>,
)
    requires
        recording_ids_distinct(deleted_recordings@),
        has_recording(deleted_recordings@, resp.entry().0),
    ensures
        batch_key(*old(batch)) == (Some(resp.entry().0), Some(resp.entry().1)) ==> {
            &&& final(outbox)@ == old(outbox)@
            &&& final(batch).objects@ == old(batch).objects@.push(resp.entry().2)
            &&& batch_key(*final(batch)) == batch_key(*old(batch))
            &&& final(batch).s3_bucket_id == old(batch).s3_bucket_id
        },
        batch_key(*old(batch)) != (Some(resp.entry().0), Some(resp.entry().1)) ==> {
            &&& published(old(outbox)@, final(outbox)@, *old(batch))
            &&& final(batch).objects@ == seq![resp.entry().2]
            &&& batch_key(*final(batch)) == (Some(resp.entry().0), Some(resp.entry().1))
            &&& final(batch).s3_bucket_id is Some
            &&& deleted_recordings@.contains((resp.entry().0, final(batch).s3_bucket_id->0))
        },
{
    if resp.is_same_batch(batch) {
        let o = resp.to_object();
        batch.objects.push(o);
    } else {
        publish_batch(batch, outbox);
        resp.update_batch(deleted_recordings, batch);
        let o = resp.to_object();
        batch.objects.push(o);
        assert(batch.objects@ =~= seq![resp.entry().2]);
    }
}

/// Publishes what is left at the end of a stream and resets the batch.
pub fn handle_end_of_stream(batch: &mut RecordingDeleteBatchTask, outbox: &mut Vec<RecordingDeleteBatchTask>)
    ensures
        published(old(outbox)@, final(outbox)@, *old(batch)),
        final(batch).recording_id is None,
        final(batch).s3_bucket_id is None,
        final(batch).object_types is None,
        final(batch).objects@.len() == 0,
{
    publish_batch(batch, outbox);
    batch.recording_id = None;
    batch.s3_bucket_id = None;
    batch.object_types = None;
    batch.objects.clear();
}

/// Groups the rows of one cleanup query, in the order they came, into batches:
/// a new batch starts wherever recording or class changes.
pub fn collect_batches<R: UpdateBatch>(rows: &Vec<R>, deleted_recordings: &Vec<(u128, u128)>) -> (out: Vec<
    RecordingDeleteBatchTask,
>)
    requires
        recording_ids_distinct(deleted_recordings@),
        forall|j: int| 0 <= j < rows@.len() ==> has_recording(deleted_recordings@, #[trigger] rows@[j].entry().0),
    ensures
        well_formed_batches(out@, deleted_recordings@),
        flat_entries(out@) == rows@.map_values(|r: R| r.entry()),
        forall|k: int|
            0 <= k < out@.len() ==> exists|j: int|
                0 <= j < rows@.len() && (#[trigger] out@[k]).recording_id == Some(rows@[j].entry().0)
                    && out@[k].object_types == Some(rows@[j].entry().1),
{
    let mut out: Vec<RecordingDeleteBatchTask> = Vec::new();
    let mut batch = RecordingDeleteBatchTask {
        recording_id: None,
        s3_bucket_id: None,
        object_types: None,
        objects: Vec::new(),
    };
    let mut i: usize = 0;
    assert(batch.objects@.len() == 0);
    proof { lemma_entries_len(batch); }
    assert(batch_entries(batch) =~= Seq::<ObjectEntry>::empty());
    assert(flat_entries(out@) + batch_entries(batch) =~= rows@.subrange(0, 0).map_values(|r: R| r.entry()));
    while i < rows.len()
        invariant
            0 <= i <= rows@.len(),
            recording_ids_distinct(deleted_recordings@),
            forall|j: int| 0 <= j < rows@.len() ==> has_recording(deleted_recordings@, #[trigger] rows@[j].entry().0),
            well_formed_batches(out@, deleted_recordings@),
            flat_entries(out@) + batch_entries(batch) == rows@.subrange(0, i as int).map_values(|r: R| r.entry()),
            i == 0 ==> batch.recording_id is None && batch.objects@.len() == 0 && out@.len() == 0,
            i > 0 ==> publishable(batch, deleted_recordings@),
            i > 0 && out@.len() > 0 ==> batch_key(out@.last()) != batch_key(batch),
            i > 0 ==> exists|j: int|
                0 <= j < i && batch.recording_id == Some(rows@[j].entry().0) && batch.object_types == Some(
                    rows@[j].entry().1,
                ),
            forall|k: int|
                0 <= k < out@.len() ==> exists|j: int|
                    0 <= j < i && (#[trigger] out@[k]).recording_id == Some(rows@[j].entry().0)
                        && out@[k].object_types == Some(rows@[j].entry().1),
        decreases rows@.len() - i,
    {
        let ghost old_out = out@;
        let ghost old_batch = batch;
        let ghost e = rows@[i as int].entry();
        handle_resp(deleted_recordings, &rows[i], &mut batch, &mut out);
        proof {
            let prefix = rows@.subrange(0, i as int).map_values(|r: R| r.entry());
            assert(rows@.subrange(0, i + 1).map_values(|r: R| r.entry()) =~= prefix.push(e));
            if batch_key(old_batch) == (Some(e.0), Some(e.1)) {
                assert(batch_entries(batch) =~= batch_entries(old_batch).push(e));
            } else {
                assert(batch_entries(batch) =~= seq![e]);
                if old_batch.objects@.len() > 0 {
                    lemma_same_batch(out@.last(), old_batch, deleted_recordings@);
                    assert(out@ =~= old_out.push(out@.last()));
                    lemma_flat_push(old_out, out@.last());
                    assert forall|k: int| 0 <= k < out@.len() implies exists|j: int|
                        0 <= j < i + 1 && (#[trigger] out@[k]).recording_id == Some(rows@[j].entry().0)
                            && out@[k].object_types == Some(rows@[j].entry().1) by {
                        if k < old_out.len() {
                            assert(out@[k] == old_out[k]);
                        }
                    }
                } else {
                    assert(batch_entries(old_batch) =~= Seq::<ObjectEntry>::empty());
                }
            }
            assert(batch.recording_id == Some(rows@[i as int].entry().0));
        }
        i = i + 1;
    }
    let ghost old_out = out@;
    let ghost old_batch = batch;
    handle_end_of_stream(&mut batch, &mut out);
    proof {
        assert(rows@.subrange(0, rows@.len() as int) =~= rows@);
        if old_batch.objects@.len() > 0 {
            lemma_same_batch(out@.last(), old_batch, deleted_recordings@);
            assert(out@ =~= old_out.push(out@.last()));
            lemma_flat_push(old_out, out@.last());
            assert forall|k: int| 0 <= k < out@.len() implies exists|j: int|
                0 <= j < rows@.len() && (#[trigger] out@[k]).recording_id == Some(rows@[j].entry().0)
                    && out@[k].object_types == Some(rows@[j].entry().1) by {
                if k < old_out.len() {
                    assert(out@[k] == old_out[k]);
                }
            }
        } else {
            assert(batch_entries(old_batch) =~= Seq::<ObjectEntry>::empty());
            assert(flat_entries(out@) + batch_entries(old_batch) =~= flat_entries(out@));
        }
    }
    out
}

/// The cleanup messages for the deleted recordings: thumbnails first, then
/// segments, each grouped by `collect_batches` from the rows in the order the
/// store delivered them.
pub fn plan_cleanup(
    thumbnails: &Vec<ThumbnailResp>,
    segments: &Vec<SegmentResp>,
    deleted_recordings: &Vec<(u128, u128)>,
) -> (out: Vec<RecordingDeleteBatchTask>)
    requires
        recording_ids_distinct(deleted_recordings@),
        forall|j: int| 0 <= j < thumbnails@.len() ==> has_recording(deleted_recordings@, #[trigger] thumbnails@[j].recording_id),
        forall|j: int| 0 <= j < segments@.len() ==> has_recording(deleted_recordings@, #[trigger] segments@[j].recording_id),
    ensures
        well_formed_batches(out@, deleted_recordings@),
        flat_entries(out@) == thumbnails@.map_values(|r: ThumbnailResp| r.entry()) + segments@.map_values(
            |r: SegmentResp| r.entry(),
        ),
{
    assert forall|j: int| 0 <= j < thumbnails@.len() implies has_recording(
        deleted_recordings@,
        #[trigger] thumbnails@[j].entry().0,
    ) by {
        assert(thumbnails@[j].entry().0 == thumbnails@[j].recording_id);
    }
    assert forall|j: int| 0 <= j < segments@.len() implies has_recording(
        deleted_recordings@,
        #[trigger] segments@[j].entry().0,
    ) by {
        assert(segments@[j].entry().0 == segments@[j].recording_id);
    }
    let mut out = collect_batches(thumbnails, deleted_recordings);
    let mut rest = collect_batches(segments, deleted_recordings);
    let ghost a = out@;
    let ghost b = rest@;
    out.append(&mut rest);
    proof {
        assert(out@ == a + b);
        lemma_flat_append(a, b);
        assert forall|i: int, j: int| 0 <= i && j == i + 1 && j < out@.len() implies batch_key(
            #[trigger] out@[i],
        ) != batch_key(#[trigger] out@[j]) by {
            if j < a.len() {
                assert(out@[i] == a[i] && out@[j] == a[j]);
            } else if i >= a.len() {
                assert(out@[i] == b[i - a.len()] && out@[j] == b[j - a.len()]);
            } else {
                assert(out@[i] == a[i]);
                assert(out@[j] == b[0]);
                assert(a[i].object_types == Some(ObjectTypes::Thumbnails));
                assert(b[0].object_types != Some(ObjectTypes::Thumbnails));
            }
        }
        assert forall|i: int| 0 <= i < out@.len() implies publishable(#[trigger] out@[i], deleted_recordings@) by {
            if i < a.len() {
                assert(out@[i] == a[i]);
            } else {
                assert(out@[i] == b[i - a.len()]);
            }
        }
    }
    out
}

/// The reason given for each requested recording that was not deleted.
pub const NOT_FOUND_REASON: &'static str = "recording not found";

/// Checks the number of ids that a delete request names.
pub fn validate_delete_ids(ids: &Vec<u128>) -> (r: Result<(), ApiError>)
    ensures
        ids@.len() > MAX_DELETE_IDS ==> r == Err::<(), ApiError>(ApiError::TooManyIds),
        ids@.len() == 0 ==> r == Err::<(), ApiError>(ApiError::NoIds),
        0 < ids@.len() <= MAX_DELETE_IDS ==> r is Ok,
{
    if ids.len() > MAX_DELETE_IDS {
        return Err(ApiError::TooManyIds);
    }
    if ids.len() == 0 {
        return Err(ApiError::NoIds);
    }
    Ok(())
}

/// Whether the first `end` ids hold `id`.
fn prefix_contains(ids: &Vec<u128>, end: usize, id: u128) -> (r: bool)
    requires
        end <= ids@.len(),
    ensures
        r == ids@.subrange(0, end as int).contains(id),
{
    let mut i: usize = 0;
    while i < end
        invariant
            0 <= i <= end <= ids@.len(),
            forall|k: int| 0 <= k < i ==> ids@[k] != id,
        decreases end - i,
    {
        if ids[i] == id {
            assert(ids@.subrange(0, end as int)[i as int] == id);
            return true;
        }
        i = i + 1;
    }
    proof {
        if ids@.subrange(0, end as int).contains(id) {
            let k = choose|k: int| 0 <= k < end && ids@.subrange(0, end as int)[k] == id;
            assert(ids@[k] == id);
        }
    }
    false
}

/// Whether a recording is among those the soft delete returned.
pub(crate) fn is_deleted(deleted_recordings: &Vec<(u128, u128)>, id: u128) -> (r: bool)
    ensures
        r == has_recording(deleted_recordings@, id),
{
    let mut i: usize = 0;
    while i < deleted_recordings.len()
        invariant
            0 <= i <= deleted_recordings@.len(),
            forall|k: int| 0 <= k < i ==> deleted_recordings@[k].0 != id,
        decreases deleted_recordings@.len() - i,
    {
        let (d, _) = deleted_recordings[i];
        if d == id {
            return true;
        }
        i = i + 1;
    }
    false
}

pub(crate) proof fn lemma_push_contains<A>(s: Seq<A>, a: A)
    ensures
        forall|x: A| #[trigger] s.push(a).contains(x) <==> s.contains(x) || x == a,
        !s.contains(a) && s.no_duplicates() ==> s.push(a).no_duplicates(),
{
    assert forall|x: A| #[trigger] s.push(a).contains(x) <==> s.contains(x) || x == a by {
        if s.contains(x) {
            let k = choose|k: int| 0 <= k < s.len() && s[k] == x;
            assert(s.push(a)[k] == x);
        }
        if x == a {
            assert(s.push(a)[s.len() as int] == a);
        }
        if s.push(a).contains(x) {
            let k = choose|k: int| 0 <= k < s.len() + 1 && s.push(a)[k] == x;
            if k < s.len() {
                assert(s[k] == x);
            }
        }
    }
    if !s.contains(a) && s.no_duplicates() {
        assert forall|i: int, j: int| 0 <= i < s.len() + 1 && 0 <= j < s.len() + 1 && i != j implies s.push(a)[i]
            != s.push(a)[j] by {
            if i == s.len() {
                assert(s[j] == s.push(a)[j]);
            } else if j == s.len() {
                assert(s[i] == s.push(a)[i]);
            }
        }
    }
}

pub open spec fn ids_of(s: Seq<FailedResource>) -> Seq<u128> {
    s.map_values(|f: FailedResource| f.id)
}

pub open spec fn failed_ids(r: RecordingDeleteResponse) -> Seq<u128> {
    ids_of(r.failed_deletes@)
}

/// Each distinct requested id is answered once: under `ids` when the soft
/// delete returned it, under `failed_deletes` otherwise.
pub open spec fn delete_answer(requested: Seq<u128>, deleted: Seq<(u128, u128)>, r: RecordingDeleteResponse) -> bool {
    &&& r.ids@.no_duplicates()
    &&& failed_ids(r).no_duplicates()
    &&& forall|x: u128| #[trigger] r.ids@.contains(x) <==> requested.contains(x) && has_recording(deleted, x)
    &&& forall|x: u128| #[trigger] failed_ids(r).contains(x) <==> requested.contains(x) && !has_recording(deleted, x)
    &&& forall|k: int| 0 <= k < r.failed_deletes@.len() ==> (#[trigger] r.failed_deletes@[k]).reason == NOT_FOUND_REASON
    &&& requested.no_duplicates() ==> r.ids@.len() + r.failed_deletes@.len() == requested.len()
}

/// The answer to a delete, from the requested ids and the `(id, bucket)` rows
/// that the soft delete returned: each distinct requested id once, under `ids`
/// when it was deleted and under `failed_deletes` otherwise, in request order.
pub fn delete_response(requested: &Vec<u128>, deleted_recordings: &Vec<(u128, u128)>) -> (r:
    RecordingDeleteResponse)
    ensures
        delete_answer(requested@, deleted_recordings@, r),
{
    let mut ids: Vec<u128> = Vec::new();
    let mut failed: Vec<FailedResource> = Vec::new();
    let mut i: usize = 0;
    while i < requested.len()
        invariant
            0 <= i <= requested@.len(),
            ids@.no_duplicates(),
            ids_of(failed@).no_duplicates(),
            forall|x: u128| #[trigger]
                ids@.contains(x) <==> requested@.subrange(0, i as int).contains(x) && has_recording(
                    deleted_recordings@,
                    x,
                ),
            forall|x: u128| #[trigger]
                ids_of(failed@).contains(x) <==> requested@.subrange(
                    0,
                    i as int,
                ).contains(x) && !has_recording(deleted_recordings@, x),
            forall|k: int| 0 <= k < failed@.len() ==> (#[trigger] failed@[k]).reason == NOT_FOUND_REASON,
            requested@.no_duplicates() ==> ids@.len() + failed@.len() == i,
        decreases requested@.len() - i,
    {
        let id = requested[i];
        let ghost before = requested@.subrange(0, i as int);
        let ghost fids = ids_of(failed@);
        assert(requested@.subrange(0, i + 1) =~= before.push(id));
        proof { lemma_push_contains(before, id); }
        let seen = prefix_contains(requested, i, id);
        if !seen {
            if is_deleted(deleted_recordings, id) {
                let ghost old_ids = ids@;
                ids.push(id);
                proof { lemma_push_contains(old_ids, id); }
            } else {
                failed.push(FailedResource { id, reason: NOT_FOUND_REASON });
                assert(ids_of(failed@) =~= fids.push(id));
                proof { lemma_push_contains(fids, id); }
            }
        } else {
            assert(requested@.subrange(0, i + 1).contains(id));
            proof {
                if requested@.no_duplicates() {
                    let k = choose|k: int| 0 <= k < i && before[k] == id;
                    assert(requested@[k] == requested@[i as int]);
                }
            }
        }
        i = i + 1;
    }
    assert(requested@.subrange(0, requested@.len() as int) =~= requested@);
    RecordingDeleteResponse { ids, failed_deletes: failed }
}

/// With distinct requested ids, a delete answers as many ids as were asked,
/// and no id is both deleted and failed.
pub proof fn law_delete_partition(requested: Seq<u128>, deleted: Seq<(u128, u128)>, r: RecordingDeleteResponse)
    requires
        requested.no_duplicates(),
        delete_answer(requested, deleted, r),
    ensures
        r.ids@.len() + r.failed_deletes@.len() == requested.len(),
        forall|x: u128| !(#[trigger] r.ids@.contains(x) && failed_ids(r).contains(x)),
{
}

} // verus!
