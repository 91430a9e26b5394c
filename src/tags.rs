use vstd::prelude::*;

use vstd::string::*;

use crate::error::ApiError;

verus! {

/// The most tags a row may carry.
pub const MAX_TAGS: usize = 10;

pub const MAX_TAG_KEY_LEN: usize = 16;

pub const MAX_TAG_VALUE_LEN: usize = 32;

/// A key and its value on a tagged row.
#[derive(Clone, Debug)]
pub struct Tag {
    pub key: String,
    pub value: String,
}

pub type TagView = (Seq<char>, Seq<char>);

pub open spec fn tag_views(s: Seq<Tag>) -> Seq<TagView> {
    s.map_values(|t: Tag| (t.key@, t.value@))
}

pub open spec fn has_key(s: Seq<TagView>, k: Seq<char>) -> bool {
    exists|i: int| 0 <= i < s.len() && (#[trigger] s[i]).0 == k
}

pub open spec fn keys_unique(s: Seq<TagView>) -> bool {
    forall|i: int, j: int| 0 <= i < s.len() && 0 <= j < s.len() && i != j ==> (#[trigger] s[i]).0 != (#[trigger] s[j]).0
}

pub open spec fn key_index(s: Seq<TagView>, k: Seq<char>) -> int {
    choose|i: int| 0 <= i < s.len() && (#[trigger] s[i]).0 == k
}

/// Sets one tag: its value replaces that of the same key, or it is added last.
pub open spec fn upsert(s: Seq<TagView>, t: TagView) -> Seq<TagView> {
    if has_key(s, t.0) {
        s.update(key_index(s, t.0), t)
    } else {
        s.push(t)
    }
}

/// Sets each new tag in turn.
pub open spec fn merge_tags(s: Seq<TagView>, new: Seq<TagView>) -> Seq<TagView>
    decreases new.len(),
{
    if new.len() == 0 {
        s
    } else {
        upsert(merge_tags(s, new.drop_last()), new.last())
    }
}

/// The tags whose keys are not among `keys`, in order.
pub open spec fn strip_keys(s: Seq<TagView>, keys: Seq<Seq<char>>) -> Seq<TagView>
    decreases s.len(),
{
    if s.len() == 0 {
        s
    } else if keys.contains(s.last().0) {
        strip_keys(s.drop_last(), keys)
    } else {
        strip_keys(s.drop_last(), keys).push(s.last())
    }
}

pub open spec fn string_views(s: Seq<String>) -> Seq<Seq<char>> {
    s.map_values(|k: String| k@)
}

/// The tag rules: a bound on their number, keys of one to sixteen
/// characters, values of at most thirty-two.
pub open spec fn tags_check(s: Seq<Tag>) -> Result<(), ApiError> {
    if s.len() > MAX_TAGS {
        Err(ApiError::TooManyTags)
    } else if exists|i: int|
        0 <= i < s.len() && ((#[trigger] s[i]).key@.len() == 0 || s[i].key@.len() > MAX_TAG_KEY_LEN) {
        Err(ApiError::InvalidTagKey)
    } else if exists|i: int| 0 <= i < s.len() && (#[trigger] s[i]).value@.len() > MAX_TAG_VALUE_LEN {
        Err(ApiError::InvalidTagValue)
    } else {
        Ok(())
    }
}

pub fn validate_tags(tags: &Vec<Tag>) -> (r: Result<(), ApiError>)
    ensures
        r == tags_check(tags@),
{
    if tags.len() > MAX_TAGS {
        return Err(ApiError::TooManyTags);
    }
    let mut i: usize = 0;
    while i < tags.len()
        invariant
            0 <= i <= tags@.len() <= MAX_TAGS,
            forall|k: int|
                0 <= k < i ==> !((#[trigger] tags@[k]).key@.len() == 0 || tags@[k].key@.len() > MAX_TAG_KEY_LEN),
        decreases tags@.len() - i,
    {
        let n = tags[i].key.as_str().unicode_len();
        if n == 0 || n > MAX_TAG_KEY_LEN {
            assert(tags@[i as int].key@.len() == n);
            return Err(ApiError::InvalidTagKey);
        }
        i = i + 1;
    }
    let mut i: usize = 0;
    while i < tags.len()
        invariant
            0 <= i <= tags@.len() <= MAX_TAGS,
            forall|k: int|
                0 <= k < tags@.len() ==> !((#[trigger] tags@[k]).key@.len() == 0 || tags@[k].key@.len()
                    > MAX_TAG_KEY_LEN),
            forall|k: int| 0 <= k < i ==> (#[trigger] tags@[k]).value@.len() <= MAX_TAG_VALUE_LEN,
        decreases tags@.len() - i,
    {
        let n = tags[i].value.as_str().unicode_len();
        if n > MAX_TAG_VALUE_LEN {
            assert(tags@[i as int].value@.len() == n);
            return Err(ApiError::InvalidTagValue);
        }
        i = i + 1;
    }
    Ok(())
}

pub(crate) fn copy_tag(t: &Tag) -> (r: Tag)
    ensures
        r.key@ == t.key@,
        r.value@ == t.value@,
{
    Tag { key: t.key.clone(), value: t.value.clone() }
}

/// A copy of a tag list, tag for tag.
pub(crate) fn copy_tags(tags: &Vec<Tag>) -> (r: Vec<Tag>)
    ensures
        tag_views(r@) == tag_views(tags@),
{
    let mut out: Vec<Tag> = Vec::new();
    let mut i: usize = 0;
    while i < tags.len()
        invariant
            0 <= i <= tags@.len(),
            tag_views(out@) == tag_views(tags@.subrange(0, i as int)),
        decreases tags@.len() - i,
    {
        let t = copy_tag(&tags[i]);
        proof {
            lemma_views_push(out@, t);
            lemma_views_push(tags@.subrange(0, i as int), tags@[i as int]);
            assert(tags@.subrange(0, i + 1) =~= tags@.subrange(0, i as int).push(tags@[i as int]));
        }
        out.push(t);
        i = i + 1;
    }
    assert(tags@.subrange(0, tags@.len() as int) =~= tags@);
    out
}

proof fn lemma_views_update(s: Seq<Tag>, i: int, t: Tag)
    requires
        0 <= i < s.len(),
    ensures
        tag_views(s.update(i, t)) == tag_views(s).update(i, (t.key@, t.value@)),
{
    assert(tag_views(s.update(i, t)) =~= tag_views(s).update(i, (t.key@, t.value@)));
}

proof fn lemma_views_push(s: Seq<Tag>, t: Tag)
    ensures
        tag_views(s.push(t)) == tag_views(s).push((t.key@, t.value@)),
{
    assert(tag_views(s.push(t)) =~= tag_views(s).push((t.key@, t.value@)));
}

/// Sets one tag on a list with unique keys.
fn upsert_tag(tags: &mut Vec<Tag>, t: &Tag)
    requires
        keys_unique(tag_views(old(tags)@)),
    ensures
        tag_views(final(tags)@) == upsert(tag_views(old(tags)@), (t.key@, t.value@)),
        keys_unique(tag_views(final(tags)@)),
{
    let ghost s = tag_views(tags@);
    let ghost kv = (t.key@, t.value@);
    let mut i: usize = 0;
    while i < tags.len()
        invariant
            0 <= i <= tags@.len(),
            s == tag_views(tags@),
            tags@ == old(tags)@,
            kv == (t.key@, t.value@),
            keys_unique(s),
            forall|m: int| 0 <= m < i ==> (#[trigger] tags@[m]).key@ != t.key@,
        decreases tags@.len() - i,
    {
        if tags[i].key == t.key {
            assert(s[i as int].0 == t.key@);
            assert(key_index(s, t.key@) == i) by {
                let k = key_index(s, t.key@);
                assert(s[k].0 == t.key@);
            }
            let ghost old_tags = tags@;
            let nt = copy_tag(t);
            tags.set(i, nt);
            proof {
                lemma_views_update(old_tags, i as int, nt);
                assert((nt.key@, nt.value@) == kv);
            }
            assert(tag_views(tags@) =~= s.update(i as int, kv));
            proof {
                assert forall|a: int, b: int|
                    0 <= a < s.len() && 0 <= b < s.len() && a != b implies (#[trigger] s.update(i as int, kv)[a]).0
                    != (#[trigger] s.update(i as int, kv)[b]).0 by {
                    assert(s[a].0 != s[b].0);
                }
            }
            return;
        }
        i = i + 1;
    }
    assert(!has_key(s, t.key@)) by {
        if has_key(s, t.key@) {
            let k = choose|k: int| 0 <= k < s.len() && (#[trigger] s[k]).0 == t.key@;
            assert(tags@[k].key@ == t.key@);
        }
    }
    tags.push(copy_tag(t));
    assert(tag_views(tags@) =~= s.push(kv));
    proof {
        assert forall|a: int, b: int|
            0 <= a < s.len() + 1 && 0 <= b < s.len() + 1 && a != b implies (#[trigger] s.push(kv)[a]).0 != (
            #[trigger] s.push(kv)[b]).0 by {
            if a == s.len() {
                assert(s[b].0 != t.key@);
            } else if b == s.len() {
                assert(s[a].0 != t.key@);
            } else {
                assert(s[a].0 != s[b].0);
            }
        }
    }
}

/// What `tag` answers.
pub open spec fn tag_result(existing: Seq<Tag>, new: Seq<Tag>, r: Result<Vec<Tag>, ApiError>) -> bool {
    &&& tags_check(new) is Err ==> r == Err::<Vec<Tag>, ApiError>(tags_check(new)->Err_0)
    &&& tags_check(new) is Ok && merge_tags(tag_views(existing), tag_views(new)).len() > MAX_TAGS ==> r == Err::<
        Vec<Tag>,
        ApiError,
    >(ApiError::TooManyTags)
    &&& tags_check(new) is Ok && merge_tags(tag_views(existing), tag_views(new)).len() <= MAX_TAGS ==> (r matches Ok(
        t,
    ) && tag_views(t@) == merge_tags(tag_views(existing), tag_views(new)))
}

/// Merges `new` into a row's tags: a new value replaces the old one of its
/// key, new keys come last. Refused when the new tags break the tag rules or
/// the merged set would pass the tag limit.
pub fn tag(existing: &Vec<Tag>, new: &Vec<Tag>) -> (r: Result<Vec<Tag>, ApiError>)
    requires
        keys_unique(tag_views(existing@)),
    ensures
        tag_result(existing@, new@, r),
{
    match validate_tags(new) {
        Err(e) => {
            return Err(e);
        },
        Ok(()) => {},
    }
    let mut out: Vec<Tag> = Vec::new();
    let mut i: usize = 0;
    while i < existing.len()
        invariant
            0 <= i <= existing@.len(),
            tag_views(out@) == tag_views(existing@.subrange(0, i as int)),
        decreases existing@.len() - i,
    {
        let t = copy_tag(&existing[i]);
        proof {
            lemma_views_push(out@, t);
            lemma_views_push(existing@.subrange(0, i as int), existing@[i as int]);
            assert(existing@.subrange(0, i + 1) =~= existing@.subrange(0, i as int).push(existing@[i as int]));
        }
        out.push(t);
        i = i + 1;
    }
    assert(existing@.subrange(0, existing@.len() as int) =~= existing@);
    let mut j: usize = 0;
    while j < new.len()
        invariant
            0 <= j <= new@.len(),
            keys_unique(tag_views(out@)),
            tag_views(out@) == merge_tags(tag_views(existing@), tag_views(new@.subrange(0, j as int))),
        decreases new@.len() - j,
    {
        upsert_tag(&mut out, &new[j]);
        proof {
            let nv = tag_views(new@.subrange(0, j + 1));
            assert(nv.drop_last() =~= tag_views(new@.subrange(0, j as int)));
            assert(nv.last() == (new@[j as int].key@, new@[j as int].value@));
        }
        j = j + 1;
    }
    assert(new@.subrange(0, new@.len() as int) =~= new@);
    if out.len() > MAX_TAGS {
        return Err(ApiError::TooManyTags);
    }
    Ok(out)
}

/// Removes the tags whose keys are named; keys that are absent are no error.
pub fn untag(existing: &Vec<Tag>, keys: &Vec<String>) -> (r: Vec<Tag>)
    ensures
        tag_views(r@) == strip_keys(tag_views(existing@), string_views(keys@)),
{
    let ghost kv = string_views(keys@);
    let mut out: Vec<Tag> = Vec::new();
    let mut i: usize = 0;
    while i < existing.len()
        invariant
            0 <= i <= existing@.len(),
            kv == string_views(keys@),
            tag_views(out@) == strip_keys(tag_views(existing@.subrange(0, i as int)), kv),
        decreases existing@.len() - i,
    {
        let mut named = false;
        let mut k: usize = 0;
        while k < keys.len()
            invariant
                0 <= k <= keys@.len(),
                i < existing@.len(),
                kv == string_views(keys@),
                named <==> exists|m: int| 0 <= m < k && #[trigger] kv[m] == existing@[i as int].key@,
            decreases keys@.len() - k,
        {
            assert(kv[k as int] == keys@[k as int]@);
            if keys[k] == existing[i].key {
                named = true;
            }
            k = k + 1;
        }
        let ghost sv = tag_views(existing@.subrange(0, i + 1));
        assert(sv.drop_last() =~= tag_views(existing@.subrange(0, i as int)));
        assert(sv.last() == (existing@[i as int].key@, existing@[i as int].value@));
        assert(named == kv.contains(existing@[i as int].key@));
        if !named {
            let t = copy_tag(&existing[i]);
            proof {
                lemma_views_push(out@, t);
            }
            out.push(t);
        }
        i = i + 1;
    }
    assert(existing@.subrange(0, existing@.len() as int) =~= existing@);
    out
}

proof fn lemma_strip_absent(s: Seq<TagView>, k: Seq<char>)
    requires
        !has_key(s, k),
    ensures
        strip_keys(s, seq![k]) == s,
    decreases s.len(),
{
    if s.len() > 0 {
        assert(!has_key(s.drop_last(), k)) by {
            if has_key(s.drop_last(), k) {
                let i = choose|i: int| 0 <= i < s.drop_last().len() && (#[trigger] s.drop_last()[i]).0 == k;
                assert(s[i].0 == k);
            }
        }
        lemma_strip_absent(s.drop_last(), k);
        assert(s.last() == s[s.len() - 1]);
        assert(!seq![k].contains(s.last().0)) by {
            if seq![k].contains(s.last().0) {
                assert(seq![k][0] == k);
            }
        }
        assert(s.drop_last().push(s.last()) =~= s);
    }
}

/// Tagging a key that a row did not have, then untagging it, gives back the
/// row's tags as they were.
pub proof fn law_tag_then_untag(before: Seq<TagView>, key: Seq<char>, value: Seq<char>)
    requires
        !has_key(before, key),
    ensures
        strip_keys(merge_tags(before, seq![(key, value)]), seq![key]) == before,
{
    let one = seq![(key, value)];
    assert(one.drop_last() =~= Seq::<TagView>::empty());
    assert(merge_tags(before, one.drop_last()) == before);
    assert(merge_tags(before, one) == before.push((key, value)));
    let pushed = before.push((key, value));
    assert(pushed.drop_last() =~= before);
    assert(seq![key].contains(key)) by {
        assert(seq![key][0] == key);
    }
    lemma_strip_absent(before, key);
}

} // verus!
