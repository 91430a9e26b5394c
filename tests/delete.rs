use scuffle_api::delete::{
    delete_response, plan_cleanup, validate_delete_ids, DeleteObject, ObjectTypes, SegmentResp, ThumbnailResp,
    NOT_FOUND_REASON,
};
use scuffle_api::error::{ApiError, StatusCode};
use scuffle_api::rendition::Rendition;

const R1: u128 = 0x11;
const R2: u128 = 0x22;
const R3: u128 = 0x33;
const B1: u128 = 0xb1;
const B2: u128 = 0xb2;

#[test]
fn delete_with_partial_miss() {
    let requested = vec![R1, R2, R3];
    let deleted = vec![(R1, B1), (R2, B2)];
    let resp = delete_response(&requested, &deleted);
    assert_eq!(resp.ids, vec![R1, R2]);
    assert_eq!(resp.failed_deletes.len(), 1);
    assert_eq!(resp.failed_deletes[0].id, R3);
    assert_eq!(resp.failed_deletes[0].reason, "recording not found");
    assert_eq!(NOT_FOUND_REASON, "recording not found");
}

#[test]
fn delete_partition_counts_each_id_once() {
    let requested = vec![R3, R1, R2, 0x44];
    let deleted = vec![(R2, B2), (R1, B1)];
    let resp = delete_response(&requested, &deleted);
    assert_eq!(resp.ids.len() + resp.failed_deletes.len(), requested.len());
    for f in &resp.failed_deletes {
        assert!(!resp.ids.contains(&f.id));
    }
}

#[test]
fn delete_repeated_ids_answered_once() {
    let requested = vec![R1, R1, R3, R3];
    let deleted = vec![(R1, B1)];
    let resp = delete_response(&requested, &deleted);
    assert_eq!(resp.ids, vec![R1]);
    assert_eq!(resp.failed_deletes.len(), 1);
    assert_eq!(resp.failed_deletes[0].id, R3);
}

#[test]
fn delete_id_count_limits() {
    assert_eq!(validate_delete_ids(&vec![]), Err(ApiError::NoIds));
    assert_eq!(ApiError::NoIds.message(), "no ids provided for delete");
    assert_eq!(validate_delete_ids(&vec![1; 100]), Ok(()));
    let err = validate_delete_ids(&vec![1; 101]).unwrap_err();
    assert_eq!(err, ApiError::TooManyIds);
    assert_eq!(err.code(), StatusCode::InvalidArgument);
    assert_eq!(err.message(), "too many ids provided for delete: max 100");
}

#[test]
fn batch_grouping() {
    let thumbnails = vec![
        ThumbnailResp { recording_id: R1, thumbnail_id: 0x70, idx: 0 },
        ThumbnailResp { recording_id: R1, thumbnail_id: 0x71, idx: 1 },
        ThumbnailResp { recording_id: R2, thumbnail_id: 0x72, idx: 0 },
    ];
    let segments = vec![
        SegmentResp { recording_id: R1, segment_id: 0x50, idx: 0, rendition: Rendition::AudioSource },
        SegmentResp { recording_id: R1, segment_id: 0x51, idx: 0, rendition: Rendition::VideoHd },
        SegmentResp { recording_id: R1, segment_id: 0x52, idx: 1, rendition: Rendition::VideoHd },
    ];
    let deleted = vec![(R1, B1), (R2, B2)];
    let batches = plan_cleanup(&thumbnails, &segments, &deleted);
    assert_eq!(batches.len(), 4);
    let expect = [
        (R1, B1, ObjectTypes::Thumbnails, vec![(0, 0x70), (1, 0x71)]),
        (R2, B2, ObjectTypes::Thumbnails, vec![(0, 0x72)]),
        (R1, B1, ObjectTypes::Segments(Rendition::AudioSource), vec![(0, 0x50)]),
        (R1, B1, ObjectTypes::Segments(Rendition::VideoHd), vec![(0, 0x51), (1, 0x52)]),
    ];
    for (b, (rec, bucket, kind, objects)) in batches.iter().zip(expect.iter()) {
        assert_eq!(b.recording_id, Some(*rec));
        assert_eq!(b.s3_bucket_id, Some(*bucket));
        assert_eq!(b.object_types, Some(*kind));
        let got: Vec<DeleteObject> = b.objects.clone();
        let want: Vec<DeleteObject> =
            objects.iter().map(|(index, object_id)| DeleteObject { index: *index, object_id: *object_id }).collect();
        assert_eq!(got, want);
    }
}

#[test]
fn batches_split_when_recording_returns() {
    let thumbnails = vec![
        ThumbnailResp { recording_id: R1, thumbnail_id: 1, idx: 0 },
        ThumbnailResp { recording_id: R2, thumbnail_id: 2, idx: 0 },
        ThumbnailResp { recording_id: R1, thumbnail_id: 3, idx: 1 },
    ];
    let deleted = vec![(R1, B1), (R2, B2)];
    let batches = plan_cleanup(&thumbnails, &vec![], &deleted);
    assert_eq!(batches.len(), 3);
    assert!(batches.iter().all(|b| !b.objects.is_empty()));
}

#[test]
fn no_rows_publish_nothing() {
    let batches = plan_cleanup(&vec![], &vec![], &vec![(R1, B1)]);
    assert!(batches.is_empty());
}

use scuffle_api::query::AccessToken;
use scuffle_api::recordings::{
    PlaybackSessionRow, RecordingDeleteRequest, RecordingRenditionRow, RecordingRow, RecordingTables,
};

const ORG: u128 = 0x0a;
const OTHER_ORG: u128 = 0x0b;

fn recording(id: u128, org: u128, bucket: u128) -> RecordingRow {
    RecordingRow {
        id,
        organization_id: org,
        s3_bucket_id: bucket,
        room_id: Some(0x900),
        recording_config_id: Some(0x901),
        deleted_at: None,
    }
}

fn tables() -> RecordingTables {
    RecordingTables {
        recordings: vec![recording(R1, ORG, B1), recording(R2, ORG, B2), recording(0x44, OTHER_ORG, B1)],
        playback_sessions: vec![
            PlaybackSessionRow { id: 1, organization_id: ORG, recording_id: Some(R1) },
            PlaybackSessionRow { id: 2, organization_id: ORG, recording_id: None },
            PlaybackSessionRow { id: 3, organization_id: ORG, recording_id: Some(R2) },
            PlaybackSessionRow { id: 4, organization_id: OTHER_ORG, recording_id: Some(0x44) },
        ],
        renditions: vec![
            RecordingRenditionRow { recording_id: R1, rendition: Rendition::VideoHd },
            RecordingRenditionRow { recording_id: 0x44, rendition: Rendition::AudioSource },
        ],
        thumbnails: vec![
            ThumbnailResp { recording_id: R2, thumbnail_id: 0x72, idx: 0 },
            ThumbnailResp { recording_id: R1, thumbnail_id: 0x70, idx: 0 },
            ThumbnailResp { recording_id: R1, thumbnail_id: 0x71, idx: 1 },
        ],
        segments: vec![
            SegmentResp { recording_id: R1, segment_id: 0x52, idx: 1, rendition: Rendition::VideoHd },
            SegmentResp { recording_id: R1, segment_id: 0x50, idx: 0, rendition: Rendition::AudioSource },
            SegmentResp { recording_id: R1, segment_id: 0x51, idx: 0, rendition: Rendition::VideoHd },
        ],
    }
}

#[test]
fn delete_request_soft_deletes_and_purges() {
    let mut t = tables();
    let token = AccessToken { organization_id: ORG, scopes: vec![] };
    let out = RecordingDeleteRequest { ids: vec![R1, R2, R3] }.process(&mut t, &token, 1234).unwrap();
    assert_eq!(out.response.ids, vec![R1, R2]);
    assert_eq!(out.response.failed_deletes.len(), 1);
    assert_eq!(out.response.failed_deletes[0].id, R3);
    assert_eq!(out.response.failed_deletes[0].reason, "recording not found");
    for r in &t.recordings[..2] {
        assert_eq!(r.deleted_at, Some(1234));
        assert_eq!(r.room_id, None);
        assert_eq!(r.recording_config_id, None);
    }
    assert_eq!(t.recordings[2].deleted_at, None);
    let left: Vec<u128> = t.playback_sessions.iter().map(|p| p.id).collect();
    assert_eq!(left, vec![2, 4]);
    assert_eq!(t.renditions.len(), 1);
    assert_eq!(t.renditions[0].recording_id, 0x44);
    assert_eq!(out.batches.len(), 4);
    assert_eq!(out.batches[0].recording_id, Some(R1));
    assert_eq!(out.batches[0].objects.len(), 2);
    assert_eq!(out.batches[1].recording_id, Some(R2));
    assert_eq!(out.batches[2].object_types, Some(ObjectTypes::Segments(Rendition::VideoHd)));
    let ids: Vec<u128> = out.batches[2].objects.iter().map(|o| o.object_id).collect();
    assert_eq!(ids, vec![0x52, 0x51]);
    assert_eq!(out.batches[3].object_types, Some(ObjectTypes::Segments(Rendition::AudioSource)));
}

#[test]
fn delete_request_skips_other_organization_and_deleted() {
    let mut t = tables();
    t.recordings[1].deleted_at = Some(5);
    let token = AccessToken { organization_id: ORG, scopes: vec![] };
    let out = RecordingDeleteRequest { ids: vec![R2, 0x44] }.process(&mut t, &token, 9).unwrap();
    assert!(out.response.ids.is_empty());
    assert_eq!(out.response.failed_deletes.len(), 2);
    assert_eq!(t.recordings[1].deleted_at, Some(5));
    assert_eq!(t.recordings[2].deleted_at, None);
    assert_eq!(t.playback_sessions.len(), 4);
    assert!(out.batches.is_empty());
}

#[test]
fn delete_request_rejects_bad_id_counts() {
    let mut t = tables();
    let token = AccessToken { organization_id: ORG, scopes: vec![] };
    assert_eq!(RecordingDeleteRequest { ids: vec![] }.process(&mut t, &token, 9).unwrap_err(), ApiError::NoIds);
    assert_eq!(
        RecordingDeleteRequest { ids: vec![R1; 101] }.process(&mut t, &token, 9).unwrap_err(),
        ApiError::TooManyIds
    );
    assert_eq!(t.recordings[0].deleted_at, None);
}

#[test]
fn cleanup_follows_recording_id_order() {
    let mut t = tables();
    t.recordings.swap(0, 1);
    let token = AccessToken { organization_id: ORG, scopes: vec![] };
    let out = RecordingDeleteRequest { ids: vec![R2, R1] }.process(&mut t, &token, 1).unwrap();
    let recs: Vec<Option<u128>> = out.batches.iter().map(|b| b.recording_id).collect();
    assert_eq!(recs, vec![Some(R1), Some(R2), Some(R1), Some(R1)]);
}
