use vstd::prelude::*;
use super::{Database, DatabaseError};
use super::workflow::find_meeting_revision;
use super::workflow::{audit_values, lemma_meeting_state_names_distinct, meeting_state_label, meeting_state_name, spec_can_transition, MeetingState, WorkflowError, WorkflowFault};
use crate::sql::{
    begin_immediate, column_bool, column_i64, column_opt_i64, column_opt_text, column_text, commit,
    execute, guard_connection, guard_connection_mut, next_row, prepare, query, query_optional_text,
    sql_error_text, transaction_connection, key_params, params_view, text_pair_params, text_param,
    text_triple_params, ParamView, SqlParam,
};
use crate::text::{push_str, str_equals, texts_view, char_vec, chars_eq, chars_lt, lemma_text_lt_asymmetric, lemma_text_lt_irreflexive, lemma_text_lt_total, lemma_text_lt_transitive, lemma_trim_idempotent, text_lt, spec_lowercase, spec_trim, to_lowercase, trim};

verus! {

/// The key by which tags are compared: the lowercase text.
pub open spec fn tag_key(t: Seq<char>) -> Seq<char> {
    spec_lowercase(t)
}

/// Some tag of `list` has the same key as `t`.
pub open spec fn has_tag_key(list: Seq<Seq<char>>, t: Seq<char>) -> bool {
    exists|k: int| 0 <= k < list.len() && tag_key(#[trigger] list[k]) == tag_key(t)
}

/// The trimmed, non-empty tags, keeping the first of those that share a key.
pub open spec fn distinct_tags(tags: Seq<Seq<char>>) -> Seq<Seq<char>>
    decreases tags.len(),
{
    if tags.len() == 0 {
        Seq::empty()
    } else {
        let rest = distinct_tags(tags.drop_last());
        let t = spec_trim(tags.last());
        if t.len() > 0 && !has_tag_key(rest, t) {
            rest.push(t)
        } else {
            rest
        }
    }
}

/// `r` holds exactly the distinct tags of `tags`, ordered by strictly increasing key.
pub open spec fn is_normalized_tags(tags: Seq<Seq<char>>, r: Seq<Seq<char>>) -> bool {
    &&& forall|k: int| 0 <= k < r.len() ==> distinct_tags(tags).contains(#[trigger] r[k])
    &&& forall|k: int| 0 <= k < distinct_tags(tags).len() ==> r.contains(#[trigger] distinct_tags(tags)[k])
    &&& forall|a: int, b: int| 0 <= a < b < r.len() ==> text_lt(tag_key(#[trigger] r[a]), tag_key(#[trigger] r[b]))
}


/// Each tag is trimmed and not empty, and no two share a key.
pub open spec fn trimmed_distinct_tags(r: Seq<Seq<char>>) -> bool {
    &&& forall|k: int| 0 <= k < r.len() ==> spec_trim(#[trigger] r[k]) == r[k] && r[k].len() > 0
    &&& forall|i: int, j: int| 0 <= i < j < r.len() ==> tag_key(#[trigger] r[i]) != tag_key(#[trigger] r[j])
}

/// The tags are ordered by strictly increasing key.
pub open spec fn sorted_by_key(r: Seq<Seq<char>>) -> bool {
    forall|a: int, b: int| 0 <= a < b < r.len() ==> text_lt(tag_key(#[trigger] r[a]), tag_key(#[trigger] r[b]))
}

/// The distinct tags of any list are trimmed, not empty, and keyed apart.
proof fn lemma_distinct_tags_shape(tags: Seq<Seq<char>>)
    ensures
        trimmed_distinct_tags(distinct_tags(tags)),
    decreases tags.len(),
{
    if tags.len() > 0 {
        lemma_distinct_tags_shape(tags.drop_last());
        let rest = distinct_tags(tags.drop_last());
        let t = spec_trim(tags.last());
        lemma_trim_idempotent(tags.last());
        if t.len() > 0 && !has_tag_key(rest, t) {
            let d = rest.push(t);
            assert forall|i: int, j: int| 0 <= i < j < d.len() implies tag_key(#[trigger] d[i]) != tag_key(#[trigger] d[j]) by {
                if j == rest.len() {
                    if tag_key(rest[i]) == tag_key(t) {
                        assert(has_tag_key(rest, t));
                    }
                } else {
                    assert(d[i] == rest[i] && d[j] == rest[j]);
                }
            }
            assert forall|k: int| 0 <= k < d.len() implies spec_trim(#[trigger] d[k]) == d[k] && d[k].len() > 0 by {
                if k < rest.len() {
                    assert(d[k] == rest[k]);
                }
            }
        }
    }
}

/// Tags that are already trimmed, not empty and keyed apart are their own distinct tags.
proof fn lemma_distinct_tags_fixed(r: Seq<Seq<char>>)
    requires
        trimmed_distinct_tags(r),
    ensures
        distinct_tags(r) == r,
    decreases r.len(),
{
    if r.len() > 0 {
        let front = r.drop_last();
        assert(trimmed_distinct_tags(front)) by {
            assert forall|i: int, j: int| 0 <= i < j < front.len() implies tag_key(#[trigger] front[i]) != tag_key(#[trigger] front[j]) by {
                assert(front[i] == r[i] && front[j] == r[j]);
            }
            assert forall|k: int| 0 <= k < front.len() implies spec_trim(#[trigger] front[k]) == front[k] && front[k].len() > 0 by {
                assert(front[k] == r[k]);
            }
        }
        lemma_distinct_tags_fixed(front);
        let t = spec_trim(r.last());
        assert(t == r[r.len() - 1]);
        if has_tag_key(front, t) {
            let k = choose|k: int| 0 <= k < front.len() && tag_key(#[trigger] front[k]) == tag_key(t);
            assert(front[k] == r[k]);
            assert(tag_key(r[k]) != tag_key(r[r.len() - 1]));
        }
        assert(front.push(t) =~= r);
    }
}

/// Two lists sorted by strictly increasing key that hold the same tags are the same list.
proof fn lemma_sorted_same_tags_equal(r1: Seq<Seq<char>>, r2: Seq<Seq<char>>)
    requires
        sorted_by_key(r1),
        sorted_by_key(r2),
        forall|k: int| 0 <= k < r1.len() ==> r2.contains(#[trigger] r1[k]),
        forall|k: int| 0 <= k < r2.len() ==> r1.contains(#[trigger] r2[k]),
    ensures
        r1 == r2,
    decreases r1.len(),
{
    if r1.len() == 0 {
        if r2.len() > 0 {
            assert(r1.contains(r2[0]));
        }
        assert(r1 =~= r2);
    } else {
        assert(r2.contains(r1[0]));
        let j = choose|j: int| 0 <= j < r2.len() && r2[j] == r1[0];
        assert(r1.contains(r2[0]));
        let i = choose|i: int| 0 <= i < r1.len() && r1[i] == r2[0];
        if i > 0 {
            assert(text_lt(tag_key(r1[0]), tag_key(r1[i])));
            if j > 0 {
                assert(text_lt(tag_key(r2[0]), tag_key(r2[j])));
                lemma_text_lt_asymmetric(tag_key(r1[0]), tag_key(r1[i]));
            } else {
                lemma_text_lt_irreflexive(tag_key(r1[0]));
            }
        }
        assert(r1[0] == r2[0]);
        let t1 = r1.drop_first();
        let t2 = r2.drop_first();
        assert forall|k: int| 0 <= k < t1.len() implies t2.contains(#[trigger] t1[k]) by {
            assert(t1[k] == r1[k + 1]);
            assert(r2.contains(r1[k + 1]));
            let m = choose|m: int| 0 <= m < r2.len() && r2[m] == r1[k + 1];
            if m == 0 {
                assert(text_lt(tag_key(r1[0]), tag_key(r1[k + 1])));
                lemma_text_lt_irreflexive(tag_key(r1[0]));
            }
            assert(t2[m - 1] == r2[m]);
        }
        assert forall|k: int| 0 <= k < t2.len() implies t1.contains(#[trigger] t2[k]) by {
            assert(t2[k] == r2[k + 1]);
            assert(r1.contains(r2[k + 1]));
            let m = choose|m: int| 0 <= m < r1.len() && r1[m] == r2[k + 1];
            if m == 0 {
                assert(text_lt(tag_key(r2[0]), tag_key(r2[k + 1])));
                lemma_text_lt_irreflexive(tag_key(r2[0]));
            }
            assert(t1[m - 1] == r1[m]);
        }
        assert(sorted_by_key(t1)) by {
            assert forall|a: int, b: int| 0 <= a < b < t1.len() implies text_lt(tag_key(#[trigger] t1[a]), tag_key(#[trigger] t1[b])) by {
                assert(t1[a] == r1[a + 1] && t1[b] == r1[b + 1]);
            }
        }
        assert(sorted_by_key(t2)) by {
            assert forall|a: int, b: int| 0 <= a < b < t2.len() implies text_lt(tag_key(#[trigger] t2[a]), tag_key(#[trigger] t2[b])) by {
                assert(t2[a] == r2[a + 1] && t2[b] == r2[b + 1]);
            }
        }
        lemma_sorted_same_tags_equal(t1, t2);
        assert(r1 =~= r2) by {
            assert forall|k: int| 0 <= k < r1.len() implies r1[k] == r2[k] by {
                if k > 0 {
                    assert(r1[k] == t1[k - 1] && r2[k] == t2[k - 1]);
                }
            }
        }
    }
}

/// The normalized form of a tag list is unique: two results that both meet `is_normalized_tags`
/// for the same tags are the same list.
pub proof fn lemma_normalized_tags_unique(tags: Seq<Seq<char>>, r1: Seq<Seq<char>>, r2: Seq<Seq<char>>)
    requires
        is_normalized_tags(tags, r1),
        is_normalized_tags(tags, r2),
    ensures
        r1 == r2,
{
    let d = distinct_tags(tags);
    assert forall|k: int| 0 <= k < r1.len() implies r2.contains(#[trigger] r1[k]) by {
        assert(d.contains(r1[k]));
        let m = choose|m: int| 0 <= m < d.len() && d[m] == r1[k];
        assert(r2.contains(d[m]));
    }
    assert forall|k: int| 0 <= k < r2.len() implies r1.contains(#[trigger] r2[k]) by {
        assert(d.contains(r2[k]));
        let m = choose|m: int| 0 <= m < d.len() && d[m] == r2[k];
        assert(r1.contains(d[m]));
    }
    lemma_sorted_same_tags_equal(r1, r2);
}

/// Normalizing tags twice changes nothing: whatever meets `is_normalized_tags` for the tags of an
/// already normalized list is that list again (so `normalize_tags` returns its own argument on it).
pub proof fn lemma_normalizing_twice_changes_nothing(tags: Seq<Seq<char>>, r: Seq<Seq<char>>, again: Seq<Seq<char>>)
    requires
        is_normalized_tags(tags, r),
        is_normalized_tags(r, again),
    ensures
        again == r,
{
    let d = distinct_tags(tags);
    lemma_distinct_tags_shape(tags);
    assert(trimmed_distinct_tags(r)) by {
        assert forall|k: int| 0 <= k < r.len() implies spec_trim(#[trigger] r[k]) == r[k] && r[k].len() > 0 by {
            assert(d.contains(r[k]));
            let m = choose|m: int| 0 <= m < d.len() && d[m] == r[k];
        }
        assert forall|i: int, j: int| 0 <= i < j < r.len() implies tag_key(#[trigger] r[i]) != tag_key(#[trigger] r[j]) by {
            assert(text_lt(tag_key(r[i]), tag_key(r[j])));
            lemma_text_lt_irreflexive(tag_key(r[i]));
        }
    }
    lemma_distinct_tags_fixed(r);
    assert(is_normalized_tags(r, r)) by {
        assert forall|k: int| 0 <= k < r.len() implies distinct_tags(r).contains(#[trigger] r[k]) by {
            assert(distinct_tags(r)[k] == r[k]);
        }
        assert forall|k: int| 0 <= k < distinct_tags(r).len() implies r.contains(#[trigger] distinct_tags(r)[k]) by {
            assert(r[k] == distinct_tags(r)[k]);
        }
    }
    lemma_normalized_tags_unique(r, r, again);
}

/// Trims the tags, drops empty ones and later duplicates that differ only in case,
/// and orders the rest by their lowercase text.
pub fn normalize_tags(tags: &[String]) -> (normalized: Vec<String>)
    ensures
        is_normalized_tags(texts_view(tags@), texts_view(normalized@)),
{
    let ghost tv = texts_view(tags@);
    let mut kept: Vec<String> = Vec::new();
    let mut keys: Vec<Vec<char>> = Vec::new();
    let mut i: usize = 0;
    while i < tags.len()
        invariant
            i <= tags.len(),
            tv == texts_view(tags@),
            kept.len() == keys.len(),
            texts_view(kept@) == distinct_tags(tv.take(i as int)),
            forall|k: int| 0 <= k < keys.len() ==> keys[k]@ == #[trigger] tag_key(kept@[k]@),
        decreases tags.len() - i,
    {
        let trimmed = trim(tags[i].as_str());
        let lower = to_lowercase(trimmed.as_str());
        let key = char_vec(lower.as_str());
        let ghost kv = texts_view(kept@);
        proof {
            assert(tv.take(i + 1).drop_last() =~= tv.take(i as int));
            assert(tv.take(i + 1).last() == tags@[i as int]@);
        }
        let mut seen = false;
        let mut k: usize = 0;
        while k < keys.len()
            invariant
                k <= keys.len(),
                kept.len() == keys.len(),
                kv == texts_view(kept@),
                forall|m: int| 0 <= m < keys.len() ==> keys[m]@ == #[trigger] tag_key(kept@[m]@),
                key@ == tag_key(trimmed@),
                seen == exists|m: int| 0 <= m < k && tag_key(#[trigger] kv[m]) == tag_key(trimmed@),
            decreases keys.len() - k,
        {
            if !seen && chars_eq(&keys[k], &key) {
                seen = true;
            }
            proof {
                assert(kv[k as int] == kept@[k as int]@);
                if tag_key(kv[k as int]) == tag_key(trimmed@) {
                    assert(keys[k as int]@ == key@);
                }
            }
            k = k + 1;
        }
        assert(seen == has_tag_key(kv, trimmed@));
        if !trimmed.as_str().is_empty() && !seen {
            kept.push(trimmed);
            keys.push(key);
            assert(texts_view(kept@) =~= kv.push(spec_trim(tags@[i as int]@)));
        }
        i = i + 1;
    }
    assert(tv.take(tags.len() as int) =~= tv);
    let ghost d = distinct_tags(tv);
    proof {
        lemma_distinct_tags_keys(tv);
        assert forall|k: int| 0 <= k < kept.len() implies #[trigger] kept@[k]@ == d[k] by {
            assert(texts_view(kept@)[k] == kept@[k]@);
        }
        assert forall|a: int, b: int| 0 <= a < b < kept.len() implies tag_key(#[trigger] kept@[a]@) != tag_key(#[trigger] kept@[b]@) by {
            assert(kept@[a]@ == d[a] && kept@[b]@ == d[b]);
        }
        assert forall|k: int| 0 <= k < kept.len() implies d.contains(#[trigger] kept@[k]@) by {
            assert(kept@[k]@ == d[k]);
        }
    }
    let mut out: Vec<String> = Vec::new();
    let mut out_keys: Vec<Vec<char>> = Vec::new();
    proof {
        assert forall|k: int| 0 <= k < d.len() implies #[trigger] texts_view(out@).contains(d[k]) || texts_view(kept@).contains(d[k]) by {
            assert(texts_view(kept@)[k] == d[k]);
        }
    }
    while kept.len() > 0
        invariant
            kept.len() == keys.len(),
            out.len() == out_keys.len(),
            forall|k: int| 0 <= k < keys.len() ==> keys[k]@ == #[trigger] tag_key(kept@[k]@),
            forall|k: int| 0 <= k < out_keys.len() ==> out_keys[k]@ == #[trigger] tag_key(out@[k]@),
            forall|a: int, b: int| 0 <= a < b < kept.len() ==> tag_key(#[trigger] kept@[a]@) != tag_key(#[trigger] kept@[b]@),
            forall|k: int| 0 <= k < kept.len() ==> d.contains(#[trigger] kept@[k]@),
            forall|k: int| 0 <= k < out.len() ==> d.contains(#[trigger] out@[k]@),
            forall|k: int| 0 <= k < d.len() ==> #[trigger] texts_view(out@).contains(d[k]) || texts_view(kept@).contains(d[k]),
            forall|a: int, b: int| 0 <= a < b < out.len() ==> text_lt(tag_key(#[trigger] out@[a]@), tag_key(#[trigger] out@[b]@)),
            forall|a: int, b: int| 0 <= a < out.len() && 0 <= b < kept.len() ==> text_lt(tag_key(#[trigger] out@[a]@), tag_key(#[trigger] kept@[b]@)),
        decreases kept.len(),
    {
        let mut m: usize = 0;
        let mut b: usize = 1;
        while b < kept.len()
            invariant
                kept.len() == keys.len(),
                forall|k: int| 0 <= k < keys.len() ==> keys[k]@ == #[trigger] tag_key(kept@[k]@),
                forall|a: int, c: int| 0 <= a < c < kept.len() ==> tag_key(#[trigger] kept@[a]@) != tag_key(#[trigger] kept@[c]@),
                1 <= b <= kept.len(),
                m < b,
                forall|c: int| 0 <= c < b && c != m ==> text_lt(tag_key(kept@[m as int]@), tag_key(#[trigger] kept@[c]@)),
            decreases kept.len() - b,
        {
            if chars_lt(&keys[b], &keys[m]) {
                proof {
                    assert forall|c: int| 0 <= c < b + 1 && c != b implies text_lt(tag_key(kept@[b as int]@), tag_key(#[trigger] kept@[c]@)) by {
                        if c != m {
                            lemma_text_lt_transitive(tag_key(kept@[b as int]@), tag_key(kept@[m as int]@), tag_key(kept@[c]@));
                        }
                    }
                }
                m = b;
            } else {
                proof {
                    lemma_text_lt_total(tag_key(kept@[b as int]@), tag_key(kept@[m as int]@));
                }
            }
            b = b + 1;
        }
        let ghost old_kept = kept@;
        let ghost old_out = out@;
        let chosen = kept.remove(m);
        let chosen_key = keys.remove(m);
        out.push(chosen);
        out_keys.push(chosen_key);
        proof {
            assert forall|k: int| 0 <= k < d.len() implies #[trigger] texts_view(out@).contains(d[k]) || texts_view(kept@).contains(d[k]) by {
                if texts_view(old_out).contains(d[k]) {
                    let p = choose|p: int| 0 <= p < texts_view(old_out).len() && texts_view(old_out)[p] == d[k];
                    assert(texts_view(out@)[p] == d[k]);
                } else {
                    let p = choose|p: int| 0 <= p < texts_view(old_kept).len() && texts_view(old_kept)[p] == d[k];
                    if p < m {
                        assert(texts_view(kept@)[p] == d[k]);
                    } else if p > m {
                        assert(texts_view(kept@)[p - 1] == d[k]);
                    } else {
                        assert(texts_view(out@)[out.len() - 1] == d[k]);
                    }
                }
            }
            assert forall|a: int, b2: int| 0 <= a < out.len() && 0 <= b2 < kept.len() implies text_lt(tag_key(#[trigger] out@[a]@), tag_key(#[trigger] kept@[b2]@)) by {
                let ob = if b2 < m { b2 } else { b2 + 1 };
                assert(kept@[b2] == old_kept[ob]);
                if a < out.len() - 1 {
                    assert(out@[a] == old_out[a]);
                }
            }
            assert forall|a: int, c: int| 0 <= a < c < out.len() implies text_lt(tag_key(#[trigger] out@[a]@), tag_key(#[trigger] out@[c]@)) by {
                if c < out.len() - 1 {
                    assert(out@[a] == old_out[a] && out@[c] == old_out[c]);
                } else {
                    assert(out@[a] == old_out[a]);
                    assert(out@[c] == old_kept[m as int]);
                }
            }
            assert forall|a: int, c: int| 0 <= a < c < kept.len() implies tag_key(#[trigger] kept@[a]@) != tag_key(#[trigger] kept@[c]@) by {
                let oa = if a < m { a } else { a + 1 };
                let oc = if c < m { c } else { c + 1 };
                assert(kept@[a] == old_kept[oa] && kept@[c] == old_kept[oc]);
            }
            assert forall|a: int| 0 <= a < kept.len() implies d.contains(#[trigger] kept@[a]@) by {
                let oa = if a < m { a } else { a + 1 };
                assert(kept@[a] == old_kept[oa]);
            }
            assert forall|a: int| 0 <= a < out.len() implies d.contains(#[trigger] out@[a]@) by {
                if a < out.len() - 1 {
                    assert(out@[a] == old_out[a]);
                }
            }
            assert forall|k: int| 0 <= k < keys.len() implies keys[k]@ == #[trigger] tag_key(kept@[k]@) by {
                let ok = if k < m { k } else { k + 1 };
                assert(kept@[k] == old_kept[ok]);
            }
        }
    }
    proof {
        assert forall|k: int| 0 <= k < d.len() implies texts_view(out@).contains(#[trigger] d[k]) by {
            assert(texts_view(out@).contains(d[k]) || texts_view(kept@).contains(d[k]));
        }
        assert forall|k: int| 0 <= k < out.len() implies d.contains(#[trigger] texts_view(out@)[k]) by {
            assert(d.contains(out@[k]@));
        }
    }
    out
}

proof fn lemma_distinct_tags_keys(tags: Seq<Seq<char>>)
    ensures
        forall|a: int, b: int|
            0 <= a < b < distinct_tags(tags).len() ==> tag_key(#[trigger] distinct_tags(tags)[a]) != tag_key(#[trigger] distinct_tags(tags)[b]),
    decreases tags.len(),
{
    if tags.len() > 0 {
        lemma_distinct_tags_keys(tags.drop_last());
        let rest = distinct_tags(tags.drop_last());
        let d = distinct_tags(tags);
        assert forall|a: int, b: int| 0 <= a < b < d.len() implies tag_key(#[trigger] d[a]) != tag_key(#[trigger] d[b]) by {
            if b == rest.len() {
                assert(d[a] == rest[a]);
            } else {
                assert(d[a] == rest[a] && d[b] == rest[b]);
            }
        }
    }
}

} // verus!

verus! {

/// A request to create a meeting under a stable idempotency key.
#[derive(Debug)]
pub struct CreateMeetingInput {
    pub id: String,
    pub idempotency_key: String,
    pub title: String,
}

/// A meeting as listed: its record, its tags and how many transcript segments it has.
#[derive(Debug)]
pub struct MeetingRecord {
    pub id: String,
    pub title: String,
    pub state: MeetingState,
    pub source_kind: String,
    pub duration_ms: Option<i64>,
    pub recording_path: Option<String>,
    pub created_at: String,
    pub updated_at: String,
    pub tags: Vec<String>,
    pub transcript_segment_count: i64,
}

/// Why a meeting request was refused or could not be carried out.
#[derive(Debug)]
pub enum MeetingError {
    Database(DatabaseError),
    Sql(rusqlite::Error),
    Workflow(WorkflowError),
    NotFound(String),
    EmptyTitle,
    IdempotencyConflict(String),
    CannotArchive(MeetingState),
    NotArchived,
}

/// A meeting error with its texts as character sequences and the outside errors it carries kept as they are.
pub enum MeetingFault {
    Database(DatabaseError),
    Sql(rusqlite::Error),
    Workflow(WorkflowFault),
    NotFound(Seq<char>),
    EmptyTitle,
    IdempotencyConflict(Seq<char>),
    CannotArchive(MeetingState),
    NotArchived,
}

impl View for MeetingError {
    type V = MeetingFault;

    open spec fn view(&self) -> MeetingFault {
        match self {
            MeetingError::Database(e) => MeetingFault::Database(*e),
            MeetingError::Sql(e) => MeetingFault::Sql(*e),
            MeetingError::Workflow(e) => MeetingFault::Workflow(e@),
            MeetingError::NotFound(id) => MeetingFault::NotFound(id@),
            MeetingError::EmptyTitle => MeetingFault::EmptyTitle,
            MeetingError::IdempotencyConflict(key) => MeetingFault::IdempotencyConflict(key@),
            MeetingError::CannotArchive(state) => MeetingFault::CannotArchive(*state),
            MeetingError::NotArchived => MeetingFault::NotArchived,
        }
    }
}

impl From<DatabaseError> for MeetingError {
    fn from(error: DatabaseError) -> (r: Self) {
        MeetingError::Database(error)
    }
}

impl vstd::std_specs::convert::FromSpecImpl<DatabaseError> for MeetingError {
    open spec fn obeys_from_spec() -> bool {
        true
    }

    open spec fn from_spec(v: DatabaseError) -> MeetingError {
        MeetingError::Database(v)
    }
}

impl From<rusqlite::Error> for MeetingError {
    fn from(error: rusqlite::Error) -> (r: Self) {
        MeetingError::Sql(error)
    }
}

impl vstd::std_specs::convert::FromSpecImpl<rusqlite::Error> for MeetingError {
    open spec fn obeys_from_spec() -> bool {
        true
    }

    open spec fn from_spec(v: rusqlite::Error) -> MeetingError {
        MeetingError::Sql(v)
    }
}

impl From<WorkflowError> for MeetingError {
    fn from(error: WorkflowError) -> (r: Self) {
        MeetingError::Workflow(error)
    }
}

impl vstd::std_specs::convert::FromSpecImpl<WorkflowError> for MeetingError {
    open spec fn obeys_from_spec() -> bool {
        true
    }

    open spec fn from_spec(v: WorkflowError) -> MeetingError {
        MeetingError::Workflow(v)
    }
}

impl MeetingError {
    /// A description of the error for the user.
    pub fn message(&self) -> (r: String)
        ensures
            self matches MeetingError::NotFound(id) ==> r@ == "meeting not found: "@ + id@,
            self matches MeetingError::EmptyTitle ==> r@ == "meeting title must not be empty"@,
            self matches MeetingError::IdempotencyConflict(key) ==> r@
                == "idempotency key was reused with different input: "@ + key@,
            self matches MeetingError::NotArchived ==> r@ == "meeting is not archived"@,
            self is Sql ==> "meeting database error: "@.is_prefix_of(r@),
            self matches MeetingError::CannotArchive(state) ==> r@ == "meeting cannot be archived while in state "@
                + meeting_state_label(*state),
    {
        match self {
            MeetingError::Database(error) => error.message(),
            MeetingError::Sql(error) => {
                let mut s = String::from_str("meeting database error: ");
                let ghost prefix = s@;
                push_str(&mut s, sql_error_text(error).as_str());
                assert(prefix =~= s@.subrange(0, prefix.len() as int));
                s
            },
            MeetingError::Workflow(error) => error.message(),
            MeetingError::NotFound(id) => {
                let mut s = String::from_str("meeting not found: ");
                push_str(&mut s, id.as_str());
                s
            },
            MeetingError::EmptyTitle => String::from_str("meeting title must not be empty"),
            MeetingError::IdempotencyConflict(key) => {
                let mut s = String::from_str("idempotency key was reused with different input: ");
                push_str(&mut s, key.as_str());
                s
            },
            MeetingError::CannotArchive(state) => {
                let mut s = String::from_str("meeting cannot be archived while in state ");
                push_str(&mut s, state.label());
                s
            },
            MeetingError::NotArchived => String::from_str("meeting is not archived"),
        }
    }
}

/// Answering a creation whose idempotency key already names `existing`: that meeting again when it
/// has the requested id and (trimmed) title, an idempotency conflict otherwise.
pub fn replay_creation(existing: MeetingRecord, input: &CreateMeetingInput, title: &str) -> (r: Result<MeetingRecord, MeetingError>)
    ensures
        existing.id@ == input.id@ && existing.title@ == title@ ==> (r matches Ok(m) && m == existing),
        !(existing.id@ == input.id@ && existing.title@ == title@) ==> (r matches Err(e)
            && e@ == MeetingFault::IdempotencyConflict(input.idempotency_key@)),
{
    if !str_equals(existing.id.as_str(), input.id.as_str()) || !str_equals(existing.title.as_str(), title) {
        return Err(MeetingError::IdempotencyConflict(input.idempotency_key.clone()));
    }
    Ok(existing)
}

/// The states from which a meeting may be archived.
pub open spec fn archivable(state: MeetingState) -> bool {
    state == MeetingState::Draft || state == MeetingState::Ready || state == MeetingState::Failed
}

/// Refuses to archive a meeting that is recording, paused, processing or already archived.
pub fn check_archivable(current: MeetingState) -> (r: Result<(), MeetingError>)
    ensures
        archivable(current) <==> r is Ok,
        r matches Err(e) ==> e@ == MeetingFault::CannotArchive(current),
{
    match current {
        MeetingState::Draft | MeetingState::Ready | MeetingState::Failed => Ok(()),
        _ => Err(MeetingError::CannotArchive(current)),
    }
}

/// The state a reopened meeting returns to: the one it was archived from, or draft when none
/// was recorded.
pub open spec fn spec_reopen_target(current: MeetingState, pre_archive: Option<MeetingState>) -> Result<MeetingState, MeetingFault> {
    if current != MeetingState::Archived {
        Err(MeetingFault::NotArchived)
    } else {
        match pre_archive {
            Some(state) => Ok(state),
            None => Ok(MeetingState::Draft),
        }
    }
}

/// Decides where a reopened meeting goes; only an archived meeting can be reopened.
pub fn reopen_target(current: MeetingState, pre_archive: Option<MeetingState>) -> (r: Result<MeetingState, MeetingError>)
    ensures
        match (r, spec_reopen_target(current, pre_archive)) {
            (Ok(a), Ok(b)) => a == b,
            (Err(e), Err(f)) => e@ == f,
            _ => false,
        },
{
    if current != MeetingState::Archived {
        return Err(MeetingError::NotArchived);
    }
    match pre_archive {
        Some(state) => Ok(state),
        None => Ok(MeetingState::Draft),
    }
}

/// Archiving then reopening brings a meeting back to the state it was archived from, and both
/// moves are edges of the lifecycle graph.
pub proof fn lemma_reopen_restores_archived_state(state: MeetingState)
    requires
        archivable(state),
    ensures
        spec_reopen_target(MeetingState::Archived, Some(state)) == Ok::<MeetingState, MeetingFault>(state),
        spec_can_transition(state, MeetingState::Archived),
        spec_can_transition(MeetingState::Archived, state),
{
}

/// Answering an archive or reopen whose idempotency key is already recorded for `meeting_id`
/// with target `recorded_target`: accepted again when the recorded move went the same way
/// (into archived for an archive, out of it for a reopen), refused otherwise.
pub fn replay_archive_move(recorded_target: &str, archiving: bool, idempotency_key: &str) -> (r: Result<(), MeetingError>)
    ensures
        (recorded_target@ == meeting_state_name(MeetingState::Archived)) == archiving <==> r is Ok,
        r matches Err(e) ==> e@ == MeetingFault::IdempotencyConflict(idempotency_key@),
{
    let into_archive = str_equals(recorded_target, "archived");
    if into_archive != archiving {
        return Err(MeetingError::IdempotencyConflict(idempotency_key.to_string()));
    }
    Ok(())
}

} // verus!

verus! {

/// A database call's result, with a failure reported as a SQL error of the meeting request.
fn lift_sql<T>(r: Result<T, rusqlite::Error>) -> (out: Result<T, MeetingError>)
    ensures
        r is Ok <==> out is Ok,
        r is Ok ==> out->Ok_0 == r->Ok_0,
        r is Err ==> out->Err_0@ == MeetingFault::Sql(r->Err_0),
{
    match r {
        Ok(value) => Ok(value),
        Err(error) => Err(MeetingError::Sql(error)),
    }
}

/// A store access's result, with a failure reported as a store error of the meeting request.
fn lift_database<T>(r: Result<T, DatabaseError>) -> (out: Result<T, MeetingError>)
    ensures
        r is Ok <==> out is Ok,
        r is Ok ==> out->Ok_0 == r->Ok_0,
        r is Err ==> out->Err_0@ == MeetingFault::Database(r->Err_0),
{
    match r {
        Ok(value) => Ok(value),
        Err(error) => Err(MeetingError::Database(error)),
    }
}

/// A workflow step's result, with a failure reported as a workflow error of the meeting request.
fn lift_workflow<T>(r: Result<T, WorkflowError>) -> (out: Result<T, MeetingError>)
    ensures
        r is Ok <==> out is Ok,
        r is Ok ==> out->Ok_0 == r->Ok_0,
        r is Err ==> out->Err_0@ == MeetingFault::Workflow(r->Err_0@),
{
    match r {
        Ok(value) => Ok(value),
        Err(error) => Err(MeetingError::Workflow(error)),
    }
}

/// An error that comes from the store or from what it holds, not from the request.
pub open spec fn meeting_storage_fault(e: MeetingFault) -> bool {
    e is Database || e is Sql || e is Workflow
}

/// Reads a meeting from a row of `id, title, lifecycle_state, source_kind, duration_ms,
/// recording_path, created_at, updated_at, segment count`; its tags are read separately.
fn map_meeting_row(row: &rusqlite::Row<'_>) -> (r: Result<MeetingRecord, MeetingError>)
    ensures
        r matches Err(e) ==> meeting_storage_fault(e@),
{
    let stored_state = lift_sql(column_text(row, 2))?;
    let state = lift_workflow(MeetingState::parse(stored_state.as_str()))?;
    Ok(MeetingRecord {
        id: lift_sql(column_text(row, 0))?,
        title: lift_sql(column_text(row, 1))?,
        state,
        source_kind: lift_sql(column_text(row, 3))?,
        duration_ms: lift_sql(column_opt_i64(row, 4))?,
        recording_path: lift_sql(column_opt_text(row, 5))?,
        created_at: lift_sql(column_text(row, 6))?,
        updated_at: lift_sql(column_text(row, 7))?,
        tags: Vec::new(),
        transcript_segment_count: lift_sql(column_i64(row, 8))?,
    })
}

/// The first meeting that `sql` selects for `value`, without its tags.
fn find_meeting_where(conn: &rusqlite::Connection, sql: &str, value: &str) -> (r: Result<Option<MeetingRecord>, MeetingError>)
    ensures
        r matches Err(e) ==> meeting_storage_fault(e@),
{
    let mut statement = lift_sql(prepare(conn, sql))?;
    let params = key_params(value);
    let mut rows = lift_sql(query(&mut statement, &params))?;
    match lift_sql(next_row(&mut rows))? {
        Some(row) => Ok(Some(map_meeting_row(row)?)),
        None => Ok(None),
    }
}

/// The meeting with id `meeting_id`, without its tags. A row read back under another id is
/// reported as an invalid stored state.
fn find_meeting(conn: &rusqlite::Connection, meeting_id: &str) -> (r: Result<Option<MeetingRecord>, MeetingError>)
    ensures
        r matches Ok(Some(m)) ==> m.id@ == meeting_id@,
        r matches Err(e) ==> meeting_storage_fault(e@),
{
    let found = find_meeting_where(
        conn,
        "SELECT id, title, lifecycle_state, source_kind, duration_ms, recording_path, created_at, updated_at,
            (SELECT COUNT(*) FROM transcript_segments WHERE meeting_id = meetings.id)
         FROM meetings WHERE id = ?1",
        meeting_id,
    )?;
    match found {
        Some(meeting) => {
            if str_equals(meeting.id.as_str(), meeting_id) {
                Ok(Some(meeting))
            } else {
                Err(MeetingError::Workflow(WorkflowError::InvalidStoredState(meeting.id)))
            }
        },
        None => Ok(None),
    }
}

/// The meeting created under `creation_key`, without its tags.
fn find_by_creation_key(conn: &rusqlite::Connection, creation_key: &str) -> (r: Result<Option<MeetingRecord>, MeetingError>)
    ensures
        r matches Err(e) ==> meeting_storage_fault(e@),
{
    find_meeting_where(
        conn,
        "SELECT id, title, lifecycle_state, source_kind, duration_ms, recording_path, created_at, updated_at,
            (SELECT COUNT(*) FROM transcript_segments WHERE meeting_id = meetings.id)
         FROM meetings WHERE creation_key = ?1",
        creation_key,
    )
}

/// The tags of a meeting, in order.
fn meeting_tags(conn: &rusqlite::Connection, meeting_id: &str) -> (r: Result<Vec<String>, rusqlite::Error>) {
    let mut statement = prepare(conn, "SELECT tag FROM meeting_tags WHERE meeting_id = ?1 ORDER BY tag")?;
    let params = key_params(meeting_id);
    let mut rows = query(&mut statement, &params)?;
    let mut tags: Vec<String> = Vec::new();
    loop
        decreases usize::MAX - tags.len(),
    {
        match next_row(&mut rows)? {
            Some(row) => {
                let tag = column_text(row, 0)?;
                if tags.len() == usize::MAX {
                    break;
                }
                tags.push(tag);
            },
            None => break,
        }
    }
    Ok(tags)
}

/// The target of the move recorded under `idempotency_key`, when it was recorded for this
/// meeting; a key recorded for another meeting is refused.
fn applied_transition_target(conn: &rusqlite::Connection, meeting_id: &str, idempotency_key: &str) -> (r: Result<Option<String>, MeetingError>)
    ensures
        r matches Err(e) ==> meeting_storage_fault(e@) || e@ == MeetingFault::IdempotencyConflict(idempotency_key@),
{
    let mut statement = lift_sql(prepare(
        conn,
        "SELECT meeting_id, to_state
         FROM meeting_transitions WHERE idempotency_key = ?1",
    ))?;
    let params = key_params(idempotency_key);
    let mut rows = lift_sql(query(&mut statement, &params))?;
    match lift_sql(next_row(&mut rows))? {
        Some(row) => {
            let stored_meeting = lift_sql(column_text(row, 0))?;
            let stored_target = lift_sql(column_text(row, 1))?;
            if str_equals(stored_meeting.as_str(), meeting_id) {
                Ok(Some(stored_target))
            } else {
                Err(MeetingError::IdempotencyConflict(idempotency_key.to_string()))
            }
        },
        None => Ok(None),
    }
}

/// What an archive or reopen move writes to the meeting row: the target state, the state to reopen
/// into (NULL when none), and the next revision, for the meeting as it was read at `revision`.
pub open spec fn spec_archive_update(meeting_id: Seq<char>, target: MeetingState, revision: int, pre_archive: Option<MeetingState>) -> Seq<ParamView> {
    archive_row(target, pre_archive, revision + 1) + seq![ParamView::Text(meeting_id), ParamView::Integer(revision)]
}

/// The lifecycle columns of a meeting row as values: its state, the state to reopen into (NULL when
/// none) and its revision.
pub open spec fn archive_row(state: MeetingState, pre_archive: Option<MeetingState>, revision: int) -> Seq<ParamView> {
    seq![
        ParamView::Text(meeting_state_name(state)),
        match pre_archive {
            Some(pre) => ParamView::Text(meeting_state_name(pre)),
            None => ParamView::Null,
        },
        ParamView::Integer(revision),
    ]
}

/// Archiving and then reopening restores the meeting: when the row a reopen reads holds what an
/// archive of a meeting in `state` at `revision` wrote, the reopen goes back to `state`, writes it
/// with no state to reopen into at revision `revision + 2`, and is a different move from the
/// archive, so repeating either key answers its own move and the other move's key is refused.
pub proof fn lemma_archive_then_reopen_restores(
    meeting_id: Seq<char>,
    state: MeetingState,
    revision: int,
    read_state: MeetingState,
    read_pre_archive: Option<MeetingState>,
    read_revision: int,
)
    requires
        archivable(state),
        archive_row(read_state, read_pre_archive, read_revision)
            == spec_archive_update(meeting_id, MeetingState::Archived, revision, Some(state)).take(3),
    ensures
        read_state == MeetingState::Archived,
        read_pre_archive == Some(state),
        read_revision == revision + 1,
        spec_reopen_target(read_state, read_pre_archive) == Ok::<MeetingState, MeetingFault>(state),
        spec_archive_update(meeting_id, state, read_revision, None)
            == archive_row(state, None, revision + 2) + seq![ParamView::Text(meeting_id), ParamView::Integer(revision + 1)],
        meeting_state_name(state) != meeting_state_name(MeetingState::Archived),
{
    let read = archive_row(read_state, read_pre_archive, read_revision);
    let written = spec_archive_update(meeting_id, MeetingState::Archived, revision, Some(state)).take(3);
    assert(written =~= archive_row(MeetingState::Archived, Some(state), revision + 1));
    assert(read[0] == written[0]);
    assert(read[1] == written[1]);
    assert(read[2] == written[2]);
    lemma_meeting_state_names_distinct(read_state, MeetingState::Archived);
    lemma_meeting_state_names_distinct(state, MeetingState::Archived);
    match read_pre_archive {
        Some(pre) => lemma_meeting_state_names_distinct(pre, state),
        None => {},
    }
}

/// The parameters of the meeting update of an archive or reopen move (see `spec_archive_update`).
pub fn archive_update_params(meeting_id: &str, target: MeetingState, revision: i64, pre_archive: Option<MeetingState>) -> (r: [SqlParam; 5])
    requires
        revision < i64::MAX,
    ensures
        params_view(r@) == spec_archive_update(meeting_id@, target, revision as int, pre_archive),
{
    let pre = match pre_archive {
        Some(state) => text_param(state.as_str()),
        None => SqlParam::Null,
    };
    let r: [SqlParam; 5] = [
        text_param(target.as_str()),
        pre,
        SqlParam::Integer(revision + 1),
        text_param(meeting_id),
        SqlParam::Integer(revision),
    ];
    assert(params_view(r@) =~= spec_archive_update(meeting_id@, target, revision as int, pre_archive));
    r
}

/// The parameters of the audit record of an archive or reopen move: its key, then the meeting, the
/// move from `current` to `target` and the revision it reaches.
pub fn archive_audit_params(meeting_id: &str, idempotency_key: &str, current: MeetingState, target: MeetingState, revision: i64) -> (r: [SqlParam; 5])
    requires
        revision < i64::MAX,
    ensures
        params_view(r@) == seq![ParamView::Text(idempotency_key@)]
            + audit_values(meeting_id@, current, target, revision + 1),
{
    let r: [SqlParam; 5] = [
        text_param(idempotency_key),
        text_param(meeting_id),
        text_param(current.as_str()),
        text_param(target.as_str()),
        SqlParam::Integer(revision + 1),
    ];
    assert(params_view(r@) =~= seq![ParamView::Text(idempotency_key@)]
        + audit_values(meeting_id@, current, target, revision + 1));
    r
}

/// What the end of a capture writes: its duration, where it is stored, for the meeting.
pub fn recording_finished_params(meeting_id: &str, duration_ms: i64, recording_path: &str) -> (r: [SqlParam; 3])
    ensures
        params_view(r@) == seq![
            ParamView::Integer(duration_ms as int),
            ParamView::Text(recording_path@),
            ParamView::Text(meeting_id@),
        ],
{
    let r: [SqlParam; 3] = [SqlParam::Integer(duration_ms), text_param(recording_path), text_param(meeting_id)];
    assert(params_view(r@) =~= seq![
        ParamView::Integer(duration_ms as int),
        ParamView::Text(recording_path@),
        ParamView::Text(meeting_id@),
    ]);
    r
}

/// Writes an archive or reopen move: the new state, the state to reopen into, the next revision,
/// and the audit record under `idempotency_key`.
fn apply_archive_transition(
    conn: &rusqlite::Connection,
    meeting_id: &str,
    idempotency_key: &str,
    current: MeetingState,
    target: MeetingState,
    revision: i64,
    pre_archive_state: Option<MeetingState>,
    stored_state: String,
) -> (r: Result<(), MeetingError>)
    ensures
        r matches Err(e) ==> meeting_storage_fault(e@),
        revision == i64::MAX ==> (r matches Err(e)
            && e@ == MeetingFault::Workflow(WorkflowFault::InvalidStoredState(stored_state@))),
{
    if revision == i64::MAX {
        return Err(MeetingError::Workflow(WorkflowError::InvalidStoredState(stored_state)));
    }
    let update = archive_update_params(meeting_id, target, revision, pre_archive_state);
    lift_sql(execute(
        conn,
        "UPDATE meetings
         SET lifecycle_state = ?1,
             pre_archive_state = ?2,
             state_revision = ?3,
             archived_at = CASE WHEN ?1 = 'archived'
                 THEN strftime('%Y-%m-%dT%H:%M:%fZ', 'now')
                 ELSE NULL
             END,
             updated_at = strftime('%Y-%m-%dT%H:%M:%fZ', 'now')
         WHERE id = ?4 AND state_revision = ?5",
        &update,
    ))?;
    let audit = archive_audit_params(meeting_id, idempotency_key, current, target, revision);
    lift_sql(execute(
        conn,
        "INSERT INTO meeting_transitions
            (idempotency_key, meeting_id, from_state, to_state, resulting_revision)
         VALUES (?1, ?2, ?3, ?4, ?5)",
        &audit,
    ))?;
    Ok(())
}

/// The stored state, the state to reopen into and the revision of a meeting, if it exists.
fn find_archive_state(conn: &rusqlite::Connection, meeting_id: &str) -> (r: Result<Option<(String, Option<String>, i64)>, rusqlite::Error>) {
    let mut statement = prepare(
        conn,
        "SELECT lifecycle_state, pre_archive_state, state_revision
         FROM meetings WHERE id = ?1",
    )?;
    let params = key_params(meeting_id);
    let mut rows = query(&mut statement, &params)?;
    match next_row(&mut rows)? {
        Some(row) => Ok(Some((column_text(row, 0)?, column_opt_text(row, 1)?, column_i64(row, 2)?))),
        None => Ok(None),
    }
}

/// The first column of the first row that `sql` selects for `value`, as optional text.
fn query_optional_nullable_text(conn: &rusqlite::Connection, sql: &str, value: &str) -> (r: Result<Option<Option<String>>, rusqlite::Error>) {
    let mut statement = prepare(conn, sql)?;
    let params = key_params(value);
    let mut rows = query(&mut statement, &params)?;
    match next_row(&mut rows)? {
        Some(row) => Ok(Some(column_opt_text(row, 0)?)),
        None => Ok(None),
    }
}

/// Whether `sql`, a boolean query for `value`, answers true.
fn query_flag(conn: &rusqlite::Connection, sql: &str, value: &str) -> (r: Result<bool, rusqlite::Error>) {
    let mut statement = prepare(conn, sql)?;
    let params = key_params(value);
    let mut rows = query(&mut statement, &params)?;
    match next_row(&mut rows)? {
        Some(row) => column_bool(row, 0),
        None => Ok(false),
    }
}

impl Database {
    /// Creates a meeting with a trimmed title, in one immediate transaction. A creation key that
    /// already names a meeting answers with it when the id and title are the same, and is refused
    /// otherwise. A blank title is refused before the store is touched.
    pub fn create_meeting(&self, input: &CreateMeetingInput) -> (r: Result<MeetingRecord, MeetingError>)
        ensures
            (r matches Err(e) && e@ == MeetingFault::EmptyTitle) <==> spec_trim(input.title@).len() == 0,
            r matches Ok(m) ==> m.id@ == input.id@,
            r matches Err(MeetingError::IdempotencyConflict(key)) ==> key@ == input.idempotency_key@,
            r matches Err(MeetingError::NotFound(id)) ==> id@ == input.id@,
    {
        let title = trim(input.title.as_str());
        if title.as_str().is_empty() {
            return Err(MeetingError::EmptyTitle);
        }
        let mut guard = lift_database(self.connection())?;
        let transaction = lift_sql(begin_immediate(guard_connection_mut(&mut guard)))?;
        let existing = find_by_creation_key(transaction_connection(&transaction), input.idempotency_key.as_str())?;
        if let Some(existing) = existing {
            let answer = replay_creation(existing, input, title.as_str());
            if answer.is_ok() {
                lift_sql(commit(transaction))?;
            }
            return answer;
        }
        let insert = text_triple_params(input.id.as_str(), input.idempotency_key.as_str(), title.as_str());
        lift_sql(execute(
            transaction_connection(&transaction),
            "INSERT INTO meetings (id, creation_key, title)
             VALUES (?1, ?2, ?3)",
            &insert,
        ))?;
        let meeting = match find_meeting(transaction_connection(&transaction), input.id.as_str())? {
            Some(meeting) => meeting,
            None => return Err(MeetingError::NotFound(input.id.clone())),
        };
        lift_sql(commit(transaction))?;
        Ok(meeting)
    }

    /// The meetings, most recently updated first, each with its tags; archived ones only when asked.
    pub fn list_meetings(&self, include_archived: bool) -> (r: Result<Vec<MeetingRecord>, MeetingError>) {
        let guard = lift_database(self.connection())?;
        let conn = guard_connection(&guard);
        let sql = if include_archived {
            "SELECT id, title, lifecycle_state, source_kind, duration_ms, recording_path, created_at, updated_at,
                (SELECT COUNT(*) FROM transcript_segments WHERE meeting_id = meetings.id)
             FROM meetings ORDER BY updated_at DESC, id"
        } else {
            "SELECT id, title, lifecycle_state, source_kind, duration_ms, recording_path, created_at, updated_at,
                (SELECT COUNT(*) FROM transcript_segments WHERE meeting_id = meetings.id)
             FROM meetings WHERE lifecycle_state != 'archived'
             ORDER BY updated_at DESC, id"
        };
        let mut statement = lift_sql(prepare(conn, sql))?;
        let mut rows = lift_sql(query(&mut statement, &[]))?;
        let mut meetings: Vec<MeetingRecord> = Vec::new();
        loop
            decreases usize::MAX - meetings.len(),
        {
            match lift_sql(next_row(&mut rows))? {
                Some(row) => {
                    let mut meeting = map_meeting_row(row)?;
                    meeting.tags = lift_sql(meeting_tags(conn, meeting.id.as_str()))?;
                    if meetings.len() == usize::MAX {
                        break;
                    }
                    meetings.push(meeting);
                },
                None => break,
            }
        }
        Ok(meetings)
    }

    /// Gives a meeting a new, trimmed title; a blank title is refused.
    pub fn rename_meeting(&self, meeting_id: &str, title: &str) -> (r: Result<(), MeetingError>)
        ensures
            (r matches Err(e) && e@ == MeetingFault::EmptyTitle) <==> spec_trim(title@).len() == 0,
            r matches Err(MeetingError::NotFound(id)) ==> id@ == meeting_id@,
    {
        let title = trim(title);
        if title.as_str().is_empty() {
            return Err(MeetingError::EmptyTitle);
        }
        let guard = lift_database(self.connection())?;
        let params = text_pair_params(title.as_str(), meeting_id);
        let changed = lift_sql(execute(
            guard_connection(&guard),
            "UPDATE meetings
             SET title = ?1, updated_at = strftime('%Y-%m-%dT%H:%M:%fZ', 'now')
             WHERE id = ?2",
            &params,
        ))?;
        if changed == 0 {
            Err(MeetingError::NotFound(meeting_id.to_string()))
        } else {
            Ok(())
        }
    }

    /// Replaces the tags of a meeting with their normalized form (see `normalize_tags`), which it
    /// returns.
    pub fn replace_meeting_tags(&self, meeting_id: &str, tags: &[String]) -> (r: Result<Vec<String>, MeetingError>)
        ensures
            r matches Ok(saved) ==> is_normalized_tags(texts_view(tags@), texts_view(saved@)),
            r matches Err(MeetingError::NotFound(id)) ==> id@ == meeting_id@,
    {
        let normalized = normalize_tags(tags);
        let mut guard = lift_database(self.connection())?;
        let transaction = lift_sql(begin_immediate(guard_connection_mut(&mut guard)))?;
        let exists = lift_sql(query_flag(
            transaction_connection(&transaction),
            "SELECT EXISTS(SELECT 1 FROM meetings WHERE id = ?1)",
            meeting_id,
        ))?;
        if !exists {
            return Err(MeetingError::NotFound(meeting_id.to_string()));
        }
        let params = key_params(meeting_id);
        lift_sql(execute(
            transaction_connection(&transaction),
            "DELETE FROM meeting_tags WHERE meeting_id = ?1",
            &params,
        ))?;
        let mut k: usize = 0;
        while k < normalized.len()
            invariant
                k <= normalized.len(),
            decreases normalized.len() - k,
        {
            let insert = text_pair_params(meeting_id, normalized[k].as_str());
            lift_sql(execute(
                transaction_connection(&transaction),
                "INSERT INTO meeting_tags (meeting_id, tag) VALUES (?1, ?2)",
                &insert,
            ))?;
            k = k + 1;
        }
        lift_sql(execute(
            transaction_connection(&transaction),
            "UPDATE meetings
             SET updated_at = strftime('%Y-%m-%dT%H:%M:%fZ', 'now')
             WHERE id = ?1",
            &params,
        ))?;
        lift_sql(commit(transaction))?;
        Ok(normalized)
    }

    /// Archives a draft, ready or failed meeting, remembering its state for a reopen. A key already
    /// recorded for this meeting's archive is accepted again; one recorded for another move or another
    /// meeting is refused.
    pub fn archive_meeting(&self, meeting_id: &str, idempotency_key: &str) -> (r: Result<(), MeetingError>)
        ensures
            r matches Err(MeetingError::CannotArchive(state)) ==> !archivable(state),
            r matches Err(MeetingError::NotFound(id)) ==> id@ == meeting_id@,
            r matches Err(MeetingError::IdempotencyConflict(key)) ==> key@ == idempotency_key@,
    {
        let mut guard = lift_database(self.connection())?;
        let transaction = lift_sql(begin_immediate(guard_connection_mut(&mut guard)))?;
        let recorded = applied_transition_target(transaction_connection(&transaction), meeting_id, idempotency_key)?;
        if let Some(target) = recorded {
            replay_archive_move(target.as_str(), true, idempotency_key)?;
            lift_sql(commit(transaction))?;
            return Ok(());
        }
        let (stored_state, revision) = match lift_sql(
            find_meeting_revision(transaction_connection(&transaction), meeting_id),
        )? {
            Some(found) => found,
            None => return Err(MeetingError::NotFound(meeting_id.to_string())),
        };
        let current = lift_workflow(MeetingState::parse(stored_state.as_str()))?;
        check_archivable(current)?;
        apply_archive_transition(
            transaction_connection(&transaction),
            meeting_id,
            idempotency_key,
            current,
            MeetingState::Archived,
            revision,
            Some(current),
            stored_state,
        )?;
        lift_sql(commit(transaction))?;
        Ok(())
    }

    /// Reopens an archived meeting into the state it was archived from (draft when none was
    /// recorded). A key already recorded for this meeting's reopen is accepted again; one recorded for
    /// an archive or another meeting is refused.
    pub fn reopen_meeting(&self, meeting_id: &str, idempotency_key: &str) -> (r: Result<(), MeetingError>)
        ensures
            r matches Err(MeetingError::NotFound(id)) ==> id@ == meeting_id@,
            r matches Err(MeetingError::IdempotencyConflict(key)) ==> key@ == idempotency_key@,
    {
        let mut guard = lift_database(self.connection())?;
        let transaction = lift_sql(begin_immediate(guard_connection_mut(&mut guard)))?;
        let recorded = applied_transition_target(transaction_connection(&transaction), meeting_id, idempotency_key)?;
        if let Some(target) = recorded {
            replay_archive_move(target.as_str(), false, idempotency_key)?;
            lift_sql(commit(transaction))?;
            return Ok(());
        }
        let (stored_state, pre_archive_state, revision) = match lift_sql(
            find_archive_state(transaction_connection(&transaction), meeting_id),
        )? {
            Some(found) => found,
            None => return Err(MeetingError::NotFound(meeting_id.to_string())),
        };
        let current = lift_workflow(MeetingState::parse(stored_state.as_str()))?;
        let pre_archive = match pre_archive_state {
            Some(name) => Some(lift_workflow(MeetingState::parse(name.as_str()))?),
            None => None,
        };
        let target = reopen_target(current, pre_archive)?;
        apply_archive_transition(
            transaction_connection(&transaction),
            meeting_id,
            idempotency_key,
            current,
            target,
            revision,
            None,
            stored_state,
        )?;
        lift_sql(commit(transaction))?;
        Ok(())
    }

    /// Deletes a meeting and, by the schema's cascades, everything it owns; tells whether it existed.
    pub fn delete_meeting(&self, meeting_id: &str) -> (r: Result<bool, MeetingError>)
        ensures
            r matches Err(e) ==> e is Database || e is Sql,
    {
        let guard = lift_database(self.connection())?;
        let params = key_params(meeting_id);
        let changed = lift_sql(execute(guard_connection(&guard), "DELETE FROM meetings WHERE id = ?1", &params))?;
        Ok(changed == 1)
    }

    /// Where the meeting's recording is stored, if it has one.
    pub fn meeting_recording_path(&self, meeting_id: &str) -> (r: Result<Option<String>, MeetingError>) {
        let guard = lift_database(self.connection())?;
        let stored = lift_sql(query_optional_nullable_text(
            guard_connection(&guard),
            "SELECT recording_path FROM meetings WHERE id = ?1",
            meeting_id,
        ))?;
        match stored {
            Some(path) => Ok(path),
            None => Ok(None),
        }
    }

    /// The title of a meeting.
    pub fn meeting_title(&self, meeting_id: &str) -> (r: Result<String, MeetingError>)
        ensures
            r matches Err(MeetingError::NotFound(id)) ==> id@ == meeting_id@,
    {
        let guard = lift_database(self.connection())?;
        let params = key_params(meeting_id);
        let title = lift_sql(query_optional_text(
            guard_connection(&guard),
            "SELECT title FROM meetings WHERE id = ?1",
            &params,
        ))?;
        match title {
            Some(title) => Ok(title),
            None => Err(MeetingError::NotFound(meeting_id.to_string())),
        }
    }

    /// Records that capture started into `recording_path`, clearing an earlier end and duration.
    pub fn mark_recording_started(&self, meeting_id: &str, recording_path: &str) -> (r: Result<(), MeetingError>)
        ensures
            r matches Err(MeetingError::NotFound(id)) ==> id@ == meeting_id@,
    {
        let guard = lift_database(self.connection())?;
        let params = text_pair_params(meeting_id, recording_path);
        let changed = lift_sql(execute(
            guard_connection(&guard),
            "UPDATE meetings
             SET started_at = strftime('%Y-%m-%dT%H:%M:%fZ', 'now'),
                 ended_at = NULL,
                 duration_ms = NULL,
                 recording_path = ?2,
                 updated_at = strftime('%Y-%m-%dT%H:%M:%fZ', 'now')
             WHERE id = ?1",
            &params,
        ))?;
        if changed == 1 {
            Ok(())
        } else {
            Err(MeetingError::NotFound(meeting_id.to_string()))
        }
    }

    /// Records that capture ended, with its duration and where it is stored.
    pub fn mark_recording_finished(&self, meeting_id: &str, duration_ms: i64, recording_path: &str) -> (r: Result<(), MeetingError>)
        ensures
            r matches Err(MeetingError::NotFound(id)) ==> id@ == meeting_id@,
    {
        let guard = lift_database(self.connection())?;
        let params = recording_finished_params(meeting_id, duration_ms, recording_path);
        let changed = lift_sql(execute(
            guard_connection(&guard),
            "UPDATE meetings
             SET ended_at = strftime('%Y-%m-%dT%H:%M:%fZ', 'now'),
                 duration_ms = ?1,
                 recording_path = ?2,
                 updated_at = strftime('%Y-%m-%dT%H:%M:%fZ', 'now')
             WHERE id = ?3",
            &params,
        ))?;
        if changed == 1 {
            Ok(())
        } else {
            Err(MeetingError::NotFound(meeting_id.to_string()))
        }
    }

    /// The meetings whose capture started into a recording directory but has no duration yet, with
    /// that directory.
    pub fn recordings_missing_duration(&self) -> (r: Result<Vec<(String, String)>, MeetingError>) {
        let guard = lift_database(self.connection())?;
        let mut statement = lift_sql(prepare(
            guard_connection(&guard),
            "SELECT id, recording_path FROM meetings
             WHERE recording_path IS NOT NULL AND duration_ms IS NULL
             ORDER BY id",
        ))?;
        let mut rows = lift_sql(query(&mut statement, &[]))?;
        let mut found: Vec<(String, String)> = Vec::new();
        loop
            decreases usize::MAX - found.len(),
        {
            match lift_sql(next_row(&mut rows))? {
                Some(row) => {
                    let entry = (lift_sql(column_text(row, 0))?, lift_sql(column_text(row, 1))?);
                    if found.len() == usize::MAX {
                        break;
                    }
                    found.push(entry);
                },
                None => break,
            }
        }
        Ok(found)
    }
}

} // verus!
