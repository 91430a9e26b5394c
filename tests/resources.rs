use scuffle_api::error::{ApiError, StatusCode};
use scuffle_api::query::{
    build_get_query, check_scope, AccessToken, Assignment, Filter, Permission, PlaybackKeyPairGetRequest,
    RecordingConfig, RecordingConfigModifyRequest, RecordingConfigModifyResponse, Resource, S3BucketGetRequest,
    S3BucketServer, Scope, SearchOptions, Table, DEFAULT_LIMIT,
};
use scuffle_api::rendition::Rendition;
use scuffle_api::tags::{tag, untag, validate_tags, Tag, MAX_TAGS};

const ORG: u128 = 0x0a;

fn token(scopes: Vec<Scope>) -> AccessToken {
    AccessToken { organization_id: ORG, scopes }
}

fn t(k: &str, v: &str) -> Tag {
    Tag { key: k.to_string(), value: v.to_string() }
}

fn pairs(tags: &[Tag]) -> Vec<(String, String)> {
    tags.iter().map(|t| (t.key.clone(), t.value.clone())).collect()
}

#[test]
fn get_query_is_scoped_to_organization() {
    let q = build_get_query(Table::S3Buckets, &token(vec![]), &vec![], &None).unwrap();
    assert!(matches!(q.filters[0], Filter::OrganizationId(ORG)));
    assert_eq!(q.filters.len(), 1);
    assert_eq!(q.limit, DEFAULT_LIMIT);
    let req = PlaybackKeyPairGetRequest {
        ids: vec![1, 2],
        search_options: Some(SearchOptions { limit: 5, after_id: Some(9), reverse: true, tags: vec![] }),
    };
    let q = req.build_query(&token(vec![])).unwrap();
    assert_eq!(q.table, Table::PlaybackKeyPairs);
    assert!(matches!(q.filters[0], Filter::OrganizationId(ORG)));
    assert!(matches!(&q.filters[1], Filter::IdIn(ids) if ids == &vec![1, 2]));
    assert!(matches!(q.filters[2], Filter::AfterId(9)));
    assert!(q.descending);
    assert_eq!(q.limit, 5);
}

#[test]
fn get_query_rejects_bad_limit() {
    let req = S3BucketGetRequest { ids: vec![], search_options: Some(SearchOptions { limit: 0, after_id: None, reverse: false, tags: vec![] }) };
    assert_eq!(req.build_query(&token(vec![])).unwrap_err(), ApiError::InvalidSearchOptions);
}

#[test]
fn scope_check() {
    let read = Scope { resource: Resource::S3Bucket, permission: Permission::Read };
    assert_eq!(check_scope(&token(vec![read]), read), Ok(()));
    let err = check_scope(&token(vec![]), read).unwrap_err();
    assert_eq!(err, ApiError::PermissionDenied);
    assert_eq!(err.code(), StatusCode::PermissionDenied);
    let server = S3BucketServer::new();
    let req = S3BucketGetRequest { ids: vec![], search_options: None };
    assert_eq!(server.get(&token(vec![]), true, &req).unwrap_err(), ApiError::PermissionDenied);
    let err = server.get(&token(vec![read]), false, &req).unwrap_err();
    assert_eq!(err, ApiError::ResourceExhausted);
    assert_eq!(err.code(), StatusCode::ResourceExhausted);
    let q = server.get(&token(vec![read]), true, &req).unwrap();
    assert!(matches!(q.filters[0], Filter::OrganizationId(ORG)));
}

#[test]
fn modify_query_needs_audio_and_video() {
    let tok = token(vec![]);
    let only_video = RecordingConfigModifyRequest {
        id: 3,
        stored_renditions: Some(vec![Rendition::VideoHd]),
        lifecycle_policies: None,
        tags: None,
    };
    let err = only_video.build_query(&tok).unwrap_err();
    assert_eq!(err, ApiError::MissingAudioRendition);
    assert_eq!(err.message(), "must specify at least one audio rendition");
    let only_audio = RecordingConfigModifyRequest {
        id: 3,
        stored_renditions: Some(vec![Rendition::AudioSource]),
        lifecycle_policies: None,
        tags: None,
    };
    assert_eq!(only_audio.build_query(&tok).unwrap_err(), ApiError::MissingVideoRendition);
    let both = RecordingConfigModifyRequest {
        id: 3,
        stored_renditions: Some(vec![Rendition::AudioSource, Rendition::VideoHd, Rendition::AudioSource]),
        lifecycle_policies: None,
        tags: Some(vec![t("env", "prod")]),
    };
    let q = both.build_query(&tok).unwrap();
    assert_eq!(q.organization_id, ORG);
    assert_eq!(q.id, 3);
    assert_eq!(q.assignments.len(), 3);
    assert!(matches!(&q.assignments[0], Assignment::Renditions(r) if r == &vec![Rendition::AudioSource, Rendition::VideoHd]));
    assert!(matches!(&q.assignments[1], Assignment::Tags(t) if t.len() == 1 && t[0].key == "env" && t[0].value == "prod"));
    assert!(matches!(q.assignments[2], Assignment::UpdatedAtNow));
}

#[test]
fn modify_query_checks_tags_first() {
    let req = RecordingConfigModifyRequest {
        id: 3,
        stored_renditions: Some(vec![]),
        lifecycle_policies: None,
        tags: Some(vec![t("", "x")]),
    };
    assert_eq!(req.build_query(&token(vec![])).unwrap_err(), ApiError::InvalidTagKey);
}

#[test]
fn modify_response_needs_exactly_one_row() {
    let row = |id| RecordingConfig { id, organization_id: ORG, renditions: vec![], updated_at: 0 };
    let err = RecordingConfigModifyResponse::from_query_object(vec![]).unwrap_err();
    assert_eq!(err, ApiError::NotFound);
    assert_eq!(err.code(), StatusCode::NotFound);
    assert_eq!(err.message(), "recording config not found");
    let err = RecordingConfigModifyResponse::from_query_object(vec![row(1), row(2)]).unwrap_err();
    assert_eq!(err, ApiError::MultipleRows);
    assert_eq!(err.code(), StatusCode::Internal);
    let ok = RecordingConfigModifyResponse::from_query_object(vec![row(7)]).unwrap();
    assert_eq!(ok.recording_config.unwrap().id, 7);
}

#[test]
fn tag_then_untag_restores_tags() {
    let before = vec![t("a", "1"), t("b", "2")];
    let tagged = tag(&before, &vec![t("k", "v")]).unwrap();
    assert_eq!(pairs(&tagged).len(), 3);
    let restored = untag(&tagged, &vec!["k".to_string()]);
    assert_eq!(pairs(&restored), pairs(&before));
}

#[test]
fn tag_replaces_existing_value() {
    let before = vec![t("a", "1"), t("b", "2")];
    let tagged = tag(&before, &vec![t("a", "9"), t("c", "3")]).unwrap();
    assert_eq!(
        pairs(&tagged),
        vec![("a".to_string(), "9".to_string()), ("b".to_string(), "2".to_string()), ("c".to_string(), "3".to_string())]
    );
}

#[test]
fn untag_missing_key_is_no_error() {
    let before = vec![t("a", "1")];
    assert_eq!(pairs(&untag(&before, &vec!["zz".to_string()])), pairs(&before));
}

#[test]
fn tag_limit_is_enforced() {
    let before: Vec<Tag> = (0..MAX_TAGS).map(|i| t(&format!("k{i}"), "v")).collect();
    assert_eq!(tag(&before, &vec![t("extra", "v")]).unwrap_err(), ApiError::TooManyTags);
    assert!(tag(&before, &vec![t("k0", "w")]).is_ok());
}

#[test]
fn tag_rules() {
    assert_eq!(validate_tags(&vec![t("a", "1")]), Ok(()));
    assert_eq!(validate_tags(&vec![t("a-very-long-key-indeed", "1")]), Err(ApiError::InvalidTagKey));
    assert_eq!(validate_tags(&vec![t("a", &"x".repeat(33))]), Err(ApiError::InvalidTagValue));
    let many: Vec<Tag> = (0..11).map(|i| t(&format!("k{i}"), "v")).collect();
    assert_eq!(validate_tags(&many), Err(ApiError::TooManyTags));
}

#[test]
fn modify_query_orders_assignments() {
    let req = RecordingConfigModifyRequest {
        id: 4,
        stored_renditions: None,
        lifecycle_policies: Some(vec![vec![1, 2, 3]]),
        tags: Some(vec![t("a", "b")]),
    };
    let q = req.build_query(&token(vec![])).unwrap();
    assert_eq!(q.assignments.len(), 3);
    assert!(matches!(&q.assignments[0], Assignment::LifecyclePolicies(p) if p == &vec![vec![1u8, 2, 3]]));
    assert!(matches!(&q.assignments[1], Assignment::Tags(_)));
    assert!(matches!(q.assignments[2], Assignment::UpdatedAtNow));
}

#[test]
fn get_query_filters_by_tags() {
    let search = Some(SearchOptions { limit: 10, after_id: Some(3), reverse: false, tags: vec![t("env", "prod"), t("team", "video")] });
    let q = build_get_query(Table::S3Buckets, &token(vec![]), &vec![], &search).unwrap();
    assert_eq!(q.filters.len(), 4);
    assert!(matches!(q.filters[0], Filter::OrganizationId(ORG)));
    assert!(matches!(&q.filters[1], Filter::HasTag(tag) if tag.key == "env" && tag.value == "prod"));
    assert!(matches!(&q.filters[2], Filter::HasTag(tag) if tag.key == "team" && tag.value == "video"));
    assert!(matches!(q.filters[3], Filter::AfterId(3)));
    let bad = Some(SearchOptions { limit: 10, after_id: None, reverse: false, tags: vec![t("", "x")] });
    assert_eq!(build_get_query(Table::S3Buckets, &token(vec![]), &vec![], &bad).unwrap_err(), ApiError::InvalidTagKey);
}

#[test]
fn bucket_tagging_is_admitted_first() {
    let modify = Scope { resource: Resource::S3Bucket, permission: Permission::Modify };
    let server = S3BucketServer::new();
    let before = vec![t("a", "1")];
    assert_eq!(server.tag(&token(vec![]), true, &before, &vec![t("b", "2")]).unwrap_err(), ApiError::PermissionDenied);
    assert_eq!(
        server.tag(&token(vec![modify]), false, &before, &vec![t("b", "2")]).unwrap_err(),
        ApiError::ResourceExhausted
    );
    let tagged = server.tag(&token(vec![modify]), true, &before, &vec![t("b", "2")]).unwrap();
    assert_eq!(pairs(&tagged).len(), 2);
    let back = server.untag(&token(vec![modify]), true, &tagged, &vec!["b".to_string()]).unwrap();
    assert_eq!(pairs(&back), pairs(&before));
    assert_eq!(
        server.untag(&token(vec![]), true, &tagged, &vec!["b".to_string()]).unwrap_err(),
        ApiError::PermissionDenied
    );
}
