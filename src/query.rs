use vstd::prelude::*;

use crate::delete::lemma_push_contains;
use crate::error::ApiError;
use crate::rendition::Rendition;
use crate::tags::{copy_tag, copy_tags, keys_unique, strip_keys, string_views, tag, tag_result, untag, tag_views, tags_check, validate_tags, Tag};
use vstd::slice::slice_to_vec;

verus! {

/// The most rows a listing may ask for.
pub const MAX_LIMIT: u32 = 1000;

/// The rows a listing returns when it names no limit.
pub const DEFAULT_LIMIT: u32 = 100;

/// Kinds of resource that access-token scopes name.
#[derive(Clone, Copy, Debug, PartialEq, Eq, Structural)]
pub enum Resource {
    Recording,
    RecordingConfig,
    S3Bucket,
    PlaybackKeyPair,
}

#[derive(Clone, Copy, Debug, PartialEq, Eq, Structural)]
pub enum Permission {
    Read,
    Create,
    Modify,
    Delete,
}

/// One thing an access token allows.
#[derive(Clone, Copy, Debug, PartialEq, Eq, Structural)]
pub struct Scope {
    pub resource: Resource,
    pub permission: Permission,
}

/// A server-to-server credential: the organization it acts for and what it
/// may do there.
#[derive(Debug)]
pub struct AccessToken {
    pub organization_id: u128,
    pub scopes: Vec<Scope>,
}

/// Lets a request through only when the token holds the scope it needs.
pub fn check_scope(token: &AccessToken, required: Scope) -> (r: Result<(), ApiError>)
    ensures
        r is Ok <==> token.scopes@.contains(required),
        r is Err ==> r == Err::<(), ApiError>(ApiError::PermissionDenied),
{
    let mut i: usize = 0;
    while i < token.scopes.len()
        invariant
            0 <= i <= token.scopes@.len(),
            forall|k: int| 0 <= k < i ==> token.scopes@[k] != required,
        decreases token.scopes@.len() - i,
    {
        if token.scopes[i] == required {
            assert(token.scopes@[i as int] == required);
            return Ok(());
        }
        i = i + 1;
    }
    Err(ApiError::PermissionDenied)
}

/// Tables that the resource queries read and write.
#[derive(Clone, Copy, Debug, PartialEq, Eq, Structural)]
pub enum Table {
    S3Buckets,
    PlaybackKeyPairs,
    RecordingConfigs,
    Recordings,
}

/// One condition of a query's `WHERE`, each with its value bound as a
/// parameter.
#[derive(Debug)]
pub enum Filter {
    /// `organization_id = $n`
    OrganizationId(u128),
    /// `id = ANY($n)`
    IdIn(Vec<u128>),
    /// `id > $n`, or `id < $n` when the listing runs backwards
    AfterId(u128),
    /// `tags->>key = $n`
    HasTag(Tag),
}

/// Paging, order and tag conditions of a listing.
#[derive(Debug)]
pub struct SearchOptions {
    pub limit: u32,
    pub after_id: Option<u128>,
    pub reverse: bool,
    /// Rows must carry each of these tags.
    pub tags: Vec<Tag>,
}

/// `SELECT * FROM table WHERE filters ORDER BY id LIMIT limit`.
#[derive(Debug)]
pub struct SelectQuery {
    pub table: Table,
    pub filters: Vec<Filter>,
    pub descending: bool,
    pub limit: u32,
}

/// One `SET` of an update.
#[derive(Debug)]
pub enum Assignment {
    Renditions(Vec<Rendition>),
    LifecyclePolicies(Vec<Vec<u8>>),
    Tags(Vec<Tag>),
    UpdatedAtNow,
}

/// `UPDATE table SET assignments WHERE id = $id AND organization_id = $org
/// RETURNING *`.
#[derive(Debug)]
pub struct UpdateQuery {
    pub table: Table,
    pub assignments: Vec<Assignment>,
    pub id: u128,
    pub organization_id: u128,
}

/// The query holds `organization_id = org` among its conditions.
pub open spec fn select_scoped_to(q: SelectQuery, org: u128) -> bool {
    exists|i: int| 0 <= i < q.filters@.len() && (#[trigger] q.filters@[i]) == Filter::OrganizationId(org)
}

pub open spec fn search_check(search: Option<SearchOptions>) -> Result<(), ApiError> {
    match search {
        Some(s) => if s.limit == 0 || s.limit > MAX_LIMIT {
            Err(ApiError::InvalidSearchOptions)
        } else {
            tags_check(s.tags@)
        },
        None => Ok(()),
    }
}

/// The tag conditions of a listing.
pub open spec fn search_tags(search: Option<SearchOptions>) -> Seq<Tag> {
    match search {
        Some(s) => s.tags@,
        None => Seq::empty(),
    }
}

/// Where the tag conditions start among a listing's filters.
pub open spec fn tag_filters_at(ids: Seq<u128>) -> int {
    if ids.len() > 0 {
        2
    } else {
        1
    }
}

/// The cursor of a listing, if it names one.
pub open spec fn after_of(search: Option<SearchOptions>) -> Option<u128> {
    match search {
        Some(s) => s.after_id,
        None => None,
    }
}

/// What `build_get_query` answers.
pub open spec fn get_query_result(
    table: Table,
    org: u128,
    ids: Seq<u128>,
    search: Option<SearchOptions>,
    r: Result<SelectQuery, ApiError>,
) -> bool {
    &&& search_check(search) is Err ==> r == Err::<SelectQuery, ApiError>(search_check(search)->Err_0)
    &&& search_check(search) is Ok ==> (r matches Ok(q) && {
        &&& q.table == table
        &&& q.filters@.len() == tag_filters_at(ids) + search_tags(search).len() + (if after_of(search) is Some {
            1int
        } else {
            0int
        })
        &&& forall|m: int|
            0 <= m < search_tags(search).len() ==> (#[trigger] q.filters@[tag_filters_at(ids) + m]) is HasTag && (
            q.filters@[tag_filters_at(ids) + m]->HasTag_0.key@,
            q.filters@[tag_filters_at(ids) + m]->HasTag_0.value@,
        ) == (search_tags(search)[m].key@, search_tags(search)[m].value@)
        &&& q.filters@[0] == Filter::OrganizationId(org)
        &&& ids.len() > 0 ==> (q.filters@[1] is IdIn && q.filters@[1]->IdIn_0@ == ids)
        &&& after_of(search) is Some ==> q.filters@.last() == Filter::AfterId(after_of(search)->0)
        &&& q.descending == (search matches Some(s) && s.reverse)
        &&& q.limit == (match search {
            Some(s) => s.limit,
            None => DEFAULT_LIMIT,
        })
        &&& select_scoped_to(q, org)
    })
}

/// The listing query of a get request: the organization's rows, narrowed to
/// `ids` when some are given, paged by the search options.
pub fn build_get_query(table: Table, access_token: &AccessToken, ids: &Vec<u128>, search: &Option<SearchOptions>) -> (r:
    Result<SelectQuery, ApiError>)
    ensures
        get_query_result(table, access_token.organization_id, ids@, *search, r),
{
    let (descending, limit, after) = match search {
        Some(s) => {
            if s.limit == 0 || s.limit > MAX_LIMIT {
                return Err(ApiError::InvalidSearchOptions);
            }
            match validate_tags(&s.tags) {
                Err(e) => {
                    return Err(e);
                },
                Ok(()) => {},
            }
            (s.reverse, s.limit, s.after_id)
        },
        None => (false, DEFAULT_LIMIT, None),
    };
    let mut filters: Vec<Filter> = Vec::new();
    filters.push(Filter::OrganizationId(access_token.organization_id));
    if ids.len() > 0 {
        let copied = ids.clone();
        assert(copied@ =~= ids@);
        filters.push(Filter::IdIn(copied));
    }
    let ghost head = filters@;
    let ghost wanted = search_tags(*search);
    match search {
        Some(s) => {
            let mut k: usize = 0;
            while k < s.tags.len()
                invariant
                    0 <= k <= s.tags@.len(),
                    wanted == s.tags@,
                    head.len() == tag_filters_at(ids@),
                    filters@.len() == head.len() + k,
                    forall|m: int| 0 <= m < head.len() ==> #[trigger] filters@[m] == head[m],
                    forall|m: int|
                        0 <= m < k ==> (#[trigger] filters@[head.len() + m]) is HasTag && (
                        filters@[head.len() + m]->HasTag_0.key@,
                        filters@[head.len() + m]->HasTag_0.value@,
                    ) == (wanted[m].key@, wanted[m].value@),
                decreases s.tags@.len() - k,
            {
                let t = copy_tag(&s.tags[k]);
                filters.push(Filter::HasTag(t));
                k = k + 1;
            }
        },
        None => {},
    }
    let ghost with_tags = filters@;
    match after {
        Some(a) => {
            filters.push(Filter::AfterId(a));
        },
        None => {},
    }
    assert(forall|m: int| 0 <= m < with_tags.len() ==> #[trigger] filters@[m] == with_tags[m]);
    let q = SelectQuery { table, filters, descending, limit };
    assert(q.filters@[0] == Filter::OrganizationId(access_token.organization_id));
    if ids.len() > 0 {
        assert(q.filters@[1]->IdIn_0@ =~= ids@);
    }
    assert(select_scoped_to(q, access_token.organization_id));
    Ok(q)
}

/// A request for S3 bucket descriptors.
#[derive(Debug)]
pub struct S3BucketGetRequest {
    pub ids: Vec<u128>,
    pub search_options: Option<SearchOptions>,
}

/// A request for playback key pairs.
#[derive(Debug)]
pub struct PlaybackKeyPairGetRequest {
    pub ids: Vec<u128>,
    pub search_options: Option<SearchOptions>,
}

impl S3BucketGetRequest {
    pub fn build_query(&self, access_token: &AccessToken) -> (r: Result<SelectQuery, ApiError>)
        ensures
            get_query_result(Table::S3Buckets, access_token.organization_id, self.ids@, self.search_options, r),
    {
        build_get_query(Table::S3Buckets, access_token, &self.ids, &self.search_options)
    }
}

impl PlaybackKeyPairGetRequest {
    pub fn build_query(&self, access_token: &AccessToken) -> (r: Result<SelectQuery, ApiError>)
        ensures
            get_query_result(Table::PlaybackKeyPairs, access_token.organization_id, self.ids@, self.search_options, r),
    {
        build_get_query(Table::PlaybackKeyPairs, access_token, &self.ids, &self.search_options)
    }
}

/// An S3 bucket descriptor row.
#[derive(Debug)]
pub struct S3Bucket {
    pub id: u128,
    pub organization_id: u128,
    pub name: String,
    pub region: String,
}

/// A playback key pair row.
#[derive(Debug)]
pub struct PlaybackKeyPair {
    pub id: u128,
    pub organization_id: u128,
    pub fingerprint: String,
}

#[derive(Debug)]
pub struct S3BucketGetResponse {
    pub s3_buckets: Vec<S3Bucket>,
}

#[derive(Debug)]
pub struct PlaybackKeyPairGetResponse {
    pub playback_key_pairs: Vec<PlaybackKeyPair>,
}

impl S3BucketGetResponse {
    /// Every row, in the order the store returned them.
    pub fn from_query_object(rows: Vec<S3Bucket>) -> (r: Result<S3BucketGetResponse, ApiError>)
        ensures
            r matches Ok(resp) && resp.s3_buckets@ == rows@,
    {
        Ok(S3BucketGetResponse { s3_buckets: rows })
    }
}

impl PlaybackKeyPairGetResponse {
    /// Every row, in the order the store returned them.
    pub fn from_query_object(rows: Vec<PlaybackKeyPair>) -> (r: Result<PlaybackKeyPairGetResponse, ApiError>)
        ensures
            r matches Ok(resp) && resp.playback_key_pairs@ == rows@,
    {
        Ok(PlaybackKeyPairGetResponse { playback_key_pairs: rows })
    }
}

/// A change to a recording configuration; absent fields stay as they are.
#[derive(Debug)]
pub struct RecordingConfigModifyRequest {
    pub id: u128,
    pub stored_renditions: Option<Vec<Rendition>>,
    pub lifecycle_policies: Option<Vec<Vec<u8>>>,
    pub tags: Option<Vec<Tag>>,
}

/// A recording configuration row.
#[derive(Debug)]
pub struct RecordingConfig {
    pub id: u128,
    pub organization_id: u128,
    pub renditions: Vec<Rendition>,
    pub updated_at: u64,
}

#[derive(Debug)]
pub struct RecordingConfigModifyResponse {
    pub recording_config: Option<RecordingConfig>,
}

/// The renditions of a list, each once, in order of first appearance.
pub open spec fn distinct_renditions(s: Seq<Rendition>) -> Seq<Rendition>
    decreases s.len(),
{
    if s.len() == 0 {
        Seq::empty()
    } else if distinct_renditions(s.drop_last()).contains(s.last()) {
        distinct_renditions(s.drop_last())
    } else {
        distinct_renditions(s.drop_last()).push(s.last())
    }
}

pub open spec fn renditions_check(s: Seq<Rendition>) -> Result<(), ApiError> {
    if !(exists|i: int| 0 <= i < s.len() && (#[trigger] s[i]).spec_is_audio()) {
        Err(ApiError::MissingAudioRendition)
    } else if !(exists|i: int| 0 <= i < s.len() && !(#[trigger] s[i]).spec_is_audio()) {
        Err(ApiError::MissingVideoRendition)
    } else {
        Ok(())
    }
}

pub open spec fn opt_tags_check(tags: Option<Vec<Tag>>) -> Result<(), ApiError> {
    match tags {
        Some(t) => tags_check(t@),
        None => Ok(()),
    }
}

/// The distinct renditions of a list.
fn dedup_renditions(s: &Vec<Rendition>) -> (r: Vec<Rendition>)
    ensures
        r@ == distinct_renditions(s@),
        forall|x: Rendition| r@.contains(x) <==> s@.contains(x),
{
    let mut out: Vec<Rendition> = Vec::new();
    let mut i: usize = 0;
    while i < s.len()
        invariant
            0 <= i <= s@.len(),
            out@ == distinct_renditions(s@.subrange(0, i as int)),
            forall|x: Rendition| out@.contains(x) <==> s@.subrange(0, i as int).contains(x),
        decreases s@.len() - i,
    {
        let x = s[i];
        let ghost before = s@.subrange(0, i as int);
        assert(s@.subrange(0, i + 1).drop_last() =~= before);
        assert(s@.subrange(0, i + 1).last() == x);
        let mut seen = false;
        let mut k: usize = 0;
        while k < out.len()
            invariant
                0 <= k <= out@.len(),
                seen <==> exists|m: int| 0 <= m < k && #[trigger] out@[m] == x,
            decreases out@.len() - k,
        {
            if out[k] == x {
                seen = true;
            }
            k = k + 1;
        }
        let ghost ghost_out = out@;
        if !seen {
            out.push(x);
        }
        proof {
            lemma_push_contains(before, x);
            if seen {
                let m = choose|m: int| 0 <= m < out@.len() && #[trigger] out@[m] == x;
                assert(out@.contains(x));
            } else {
                lemma_push_contains(ghost_out, x);
            }
        }
        i = i + 1;
    }
    assert(s@.subrange(0, s@.len() as int) =~= s@);
    out
}

pub open spec fn policy_views(s: Seq<Vec<u8>>) -> Seq<Seq<u8>> {
    s.map_values(|p: Vec<u8>| p@)
}

/// Where the lifecycle policies stand among a modify's assignments.
pub open spec fn policies_at(req: RecordingConfigModifyRequest) -> int {
    if req.stored_renditions is Some {
        1
    } else {
        0
    }
}

/// Where the tags stand among a modify's assignments.
pub open spec fn tags_at(req: RecordingConfigModifyRequest) -> int {
    policies_at(req) + if req.lifecycle_policies is Some {
        1int
    } else {
        0int
    }
}

/// The number of assignments: renditions, policies and tags where given, in
/// that order, then the update time.
pub open spec fn assignment_count(req: RecordingConfigModifyRequest) -> int {
    tags_at(req) + if req.tags is Some {
        2int
    } else {
        1int
    }
}

fn copy_policies(p: &Vec<Vec<u8>>) -> (r: Vec<Vec<u8>>)
    ensures
        policy_views(r@) == policy_views(p@),
{
    let mut out: Vec<Vec<u8>> = Vec::new();
    let mut i: usize = 0;
    while i < p.len()
        invariant
            0 <= i <= p@.len(),
            policy_views(out@) == policy_views(p@.subrange(0, i as int)),
        decreases p@.len() - i,
    {
        let copy = slice_to_vec(p[i].as_slice());
        proof {
            assert(policy_views(out@.push(copy)) =~= policy_views(out@).push(copy@));
            assert(policy_views(p@.subrange(0, i + 1)) =~= policy_views(p@.subrange(0, i as int)).push(p@[i as int]@));
        }
        out.push(copy);
        i = i + 1;
    }
    assert(p@.subrange(0, p@.len() as int) =~= p@);
    out
}

impl RecordingConfigModifyRequest {
    /// The update of a recording configuration, scoped to the token's
    /// organization. Tags are checked first; a rendition set needs an audio
    /// and a video rendition and is stored without repeats.
    pub fn build_query(&self, access_token: &AccessToken) -> (r: Result<UpdateQuery, ApiError>)
        ensures
            opt_tags_check(self.tags) is Err ==> r == Err::<UpdateQuery, ApiError>(opt_tags_check(self.tags)->Err_0),
            opt_tags_check(self.tags) is Ok && self.stored_renditions is Some && renditions_check(
                self.stored_renditions->0@,
            ) is Err ==> r == Err::<UpdateQuery, ApiError>(renditions_check(self.stored_renditions->0@)->Err_0),
            opt_tags_check(self.tags) is Ok && (self.stored_renditions matches Some(v) ==> renditions_check(v@) is Ok)
                ==> (r matches Ok(q) && {
                &&& q.table == Table::RecordingConfigs
                &&& q.id == self.id
                &&& q.organization_id == access_token.organization_id
                &&& q.assignments@.len() == assignment_count(*self)
                &&& q.assignments@[assignment_count(*self) - 1] is UpdatedAtNow
                &&& self.stored_renditions is Some ==> (q.assignments@[0] is Renditions
                    && q.assignments@[0]->Renditions_0@ == distinct_renditions(self.stored_renditions->0@))
                &&& self.lifecycle_policies is Some ==> (q.assignments@[policies_at(*self)] is LifecyclePolicies
                    && policy_views(q.assignments@[policies_at(*self)]->LifecyclePolicies_0@) == policy_views(
                    self.lifecycle_policies->0@,
                ))
                &&& self.tags is Some ==> (q.assignments@[tags_at(*self)] is Tags && tag_views(
                    q.assignments@[tags_at(*self)]->Tags_0@,
                ) == tag_views(self.tags->0@))
            }),
    {
        match &self.tags {
            Some(t) => {
                match validate_tags(t) {
                    Err(e) => {
                        return Err(e);
                    },
                    Ok(()) => {},
                }
            },
            None => {},
        }
        let mut assignments: Vec<Assignment> = Vec::new();
        match &self.stored_renditions {
            Some(v) => {
                let distinct = dedup_renditions(v);
                let mut audio = false;
                let mut video = false;
                let mut i: usize = 0;
                while i < distinct.len()
                    invariant
                        0 <= i <= distinct@.len(),
                        audio <==> exists|m: int| 0 <= m < i && (#[trigger] distinct@[m]).spec_is_audio(),
                        video <==> exists|m: int| 0 <= m < i && !(#[trigger] distinct@[m]).spec_is_audio(),
                    decreases distinct@.len() - i,
                {
                    if distinct[i].is_audio() {
                        audio = true;
                    }
                    if distinct[i].is_video() {
                        video = true;
                    }
                    i = i + 1;
                }
                proof {
                    assert((exists|m: int| 0 <= m < distinct@.len() && (#[trigger] distinct@[m]).spec_is_audio())
                        <==> (exists|m: int| 0 <= m < v@.len() && (#[trigger] v@[m]).spec_is_audio())) by {
                        if exists|m: int| 0 <= m < v@.len() && (#[trigger] v@[m]).spec_is_audio() {
                            let m = choose|m: int| 0 <= m < v@.len() && (#[trigger] v@[m]).spec_is_audio();
                            assert(v@.contains(v@[m]));
                        }
                        if exists|m: int| 0 <= m < distinct@.len() && (#[trigger] distinct@[m]).spec_is_audio() {
                            let m = choose|m: int| 0 <= m < distinct@.len() && (#[trigger] distinct@[m]).spec_is_audio();
                            assert(distinct@.contains(distinct@[m]));
                        }
                    }
                    assert((exists|m: int| 0 <= m < distinct@.len() && !(#[trigger] distinct@[m]).spec_is_audio())
                        <==> (exists|m: int| 0 <= m < v@.len() && !(#[trigger] v@[m]).spec_is_audio())) by {
                        if exists|m: int| 0 <= m < v@.len() && !(#[trigger] v@[m]).spec_is_audio() {
                            let m = choose|m: int| 0 <= m < v@.len() && !(#[trigger] v@[m]).spec_is_audio();
                            assert(v@.contains(v@[m]));
                        }
                        if exists|m: int| 0 <= m < distinct@.len() && !(#[trigger] distinct@[m]).spec_is_audio() {
                            let m = choose|m: int| 0 <= m < distinct@.len() && !(#[trigger] distinct@[m]).spec_is_audio();
                            assert(distinct@.contains(distinct@[m]));
                        }
                    }
                }
                if !audio {
                    return Err(ApiError::MissingAudioRendition);
                }
                if !video {
                    return Err(ApiError::MissingVideoRendition);
                }
                assignments.push(Assignment::Renditions(distinct));
            },
            None => {},
        }
        let ghost after_renditions = assignments@;
        match &self.lifecycle_policies {
            Some(p) => {
                assignments.push(Assignment::LifecyclePolicies(copy_policies(p)));
            },
            None => {},
        }
        let ghost after_policies = assignments@;
        match &self.tags {
            Some(t) => {
                assignments.push(Assignment::Tags(copy_tags(t)));
            },
            None => {},
        }
        let ghost after_tags = assignments@;
        assignments.push(Assignment::UpdatedAtNow);
        proof {
            assert(after_renditions.len() == policies_at(*self));
            assert(after_policies.len() == tags_at(*self));
            assert(assignments@.len() == assignment_count(*self));
            assert(forall|i: int| 0 <= i < after_renditions.len() ==> #[trigger] assignments@[i] == after_renditions[i]);
            assert(forall|i: int| 0 <= i < after_policies.len() ==> #[trigger] assignments@[i] == after_policies[i]);
            assert(forall|i: int| 0 <= i < after_tags.len() ==> #[trigger] assignments@[i] == after_tags[i]);
        }
        Ok(
            UpdateQuery {
                table: Table::RecordingConfigs,
                assignments,
                id: self.id,
                organization_id: access_token.organization_id,
            },
        )
    }
}

impl RecordingConfigModifyResponse {
    /// A modify matches exactly one row: none is `NotFound`, more than one
    /// is an internal fault.
    pub fn from_query_object(rows: Vec<RecordingConfig>) -> (r: Result<RecordingConfigModifyResponse, ApiError>)
        ensures
            rows@.len() == 0 ==> r == Err::<RecordingConfigModifyResponse, ApiError>(ApiError::NotFound),
            rows@.len() > 1 ==> r == Err::<RecordingConfigModifyResponse, ApiError>(ApiError::MultipleRows),
            rows@.len() == 1 ==> (r matches Ok(resp) && resp.recording_config == Some(rows@[0])),
    {
        if rows.len() == 0 {
            return Err(ApiError::NotFound);
        }
        if rows.len() > 1 {
            return Err(ApiError::MultipleRows);
        }
        let mut rows = rows;
        let row = rows.remove(0);
        Ok(RecordingConfigModifyResponse { recording_config: Some(row) })
    }
}

/// The S3 bucket service: each call is checked against the access token's
/// scopes and scoped to its organization.
#[derive(Clone, Copy, Debug)]
pub struct S3BucketServer;

/// The scope that listing S3 buckets needs.
pub open spec fn s3_bucket_read() -> Scope {
    Scope { resource: Resource::S3Bucket, permission: Permission::Read }
}

/// The scope that tagging S3 buckets needs.
pub open spec fn s3_bucket_modify() -> Scope {
    Scope { resource: Resource::S3Bucket, permission: Permission::Modify }
}

/// The checks every S3 bucket call passes first: the scope, then the rate
/// limiter's verdict.
pub open spec fn admission(access_token: &AccessToken, scope: Scope, within_rate_limit: bool) -> Result<(), ApiError> {
    if !access_token.scopes@.contains(scope) {
        Err(ApiError::PermissionDenied)
    } else if !within_rate_limit {
        Err(ApiError::ResourceExhausted)
    } else {
        Ok(())
    }
}

fn check_admission(access_token: &AccessToken, scope: Scope, within_rate_limit: bool) -> (r: Result<(), ApiError>)
    ensures
        r == admission(access_token, scope, within_rate_limit),
{
    match check_scope(access_token, scope) {
        Err(e) => {
            return Err(e);
        },
        Ok(()) => {},
    }
    if !within_rate_limit {
        return Err(ApiError::ResourceExhausted);
    }
    Ok(())
}

impl S3BucketServer {
    /// Merges tags into a bucket's tags, once the call is admitted.
    pub fn tag(&self, access_token: &AccessToken, within_rate_limit: bool, existing: &Vec<Tag>, new: &Vec<Tag>) -> (r:
        Result<Vec<Tag>, ApiError>)
        requires
            keys_unique(tag_views(existing@)),
        ensures
            admission(access_token, s3_bucket_modify(), within_rate_limit) is Err ==> r == Err::<Vec<Tag>, ApiError>(
                admission(access_token, s3_bucket_modify(), within_rate_limit)->Err_0,
            ),
            admission(access_token, s3_bucket_modify(), within_rate_limit) is Ok ==> tag_result(existing@, new@, r),
    {
        match check_admission(access_token, Scope { resource: Resource::S3Bucket, permission: Permission::Modify }, within_rate_limit) {
            Err(e) => {
                return Err(e);
            },
            Ok(()) => {},
        }
        tag(existing, new)
    }

    /// Removes tags from a bucket's tags, once the call is admitted.
    pub fn untag(&self, access_token: &AccessToken, within_rate_limit: bool, existing: &Vec<Tag>, keys: &Vec<String>) -> (r:
        Result<Vec<Tag>, ApiError>)
        ensures
            admission(access_token, s3_bucket_modify(), within_rate_limit) is Err ==> r == Err::<Vec<Tag>, ApiError>(
                admission(access_token, s3_bucket_modify(), within_rate_limit)->Err_0,
            ),
            admission(access_token, s3_bucket_modify(), within_rate_limit) is Ok ==> (r matches Ok(t) && tag_views(t@)
                == strip_keys(tag_views(existing@), string_views(keys@))),
    {
        match check_admission(access_token, Scope { resource: Resource::S3Bucket, permission: Permission::Modify }, within_rate_limit) {
            Err(e) => {
                return Err(e);
            },
            Ok(()) => {},
        }
        Ok(untag(existing, keys))
    }

    pub fn new() -> (r: S3BucketServer)
        ensures
            r == S3BucketServer,
    {
        S3BucketServer
    }

    /// The query that answers a get, once the token is allowed to read buckets
    /// and `within_rate_limit`, the rate limiter's verdict for the
    /// organization's bucket-get budget, lets the request through.
    pub fn get(&self, access_token: &AccessToken, within_rate_limit: bool, request: &S3BucketGetRequest) -> (r: Result<
        SelectQuery,
        ApiError,
    >)
        ensures
            !access_token.scopes@.contains(s3_bucket_read()) ==> r == Err::<SelectQuery, ApiError>(
                ApiError::PermissionDenied,
            ),
            access_token.scopes@.contains(s3_bucket_read()) && !within_rate_limit ==> r == Err::<SelectQuery, ApiError>(
                ApiError::ResourceExhausted,
            ),
            access_token.scopes@.contains(s3_bucket_read()) && within_rate_limit ==> get_query_result(
                Table::S3Buckets,
                access_token.organization_id,
                request.ids@,
                request.search_options,
                r,
            ),
    {
        match check_scope(access_token, Scope { resource: Resource::S3Bucket, permission: Permission::Read }) {
            Err(e) => {
                return Err(e);
            },
            Ok(()) => {},
        }
        if !within_rate_limit {
            return Err(ApiError::ResourceExhausted);
        }
        request.build_query(access_token)
    }
}

} // verus!
