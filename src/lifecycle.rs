use vstd::prelude::*;

use crate::naming::{
    allocated_path, candidate_name, first_free, lemma_candidate_facts, no_slash, MAX_PROBES,
};
use crate::paths::{base_name, dir_part, file_name_of, join, last_index_of, lemma_last_index_bounds, lemma_last_index_prefix};
use crate::store::{
    active_index, active_listing, active_rows, by_recency, delete_spec, insert_by_recency, has_active_hash, has_id, id_index, ingested_row,
    insert_spec, is_active, placed, rows_placed, plan_delete_spec, plan_ingest_spec, promote_spec, rows_wf, trash_name,
    with_rows, DeletePlanView, IngestPlanView, PhotoView, StoreError, CatalogView,
};
use crate::tier::{tier_name, lemma_tier_name_round_trip, Tier};

verus! {

/// Ingestion from start to end, its copy having succeeded: a duplicate leaves the store as it
/// was, a new photo becomes a row.
pub open spec fn ingest_spec(
    s: CatalogView,
    id: Seq<char>,
    source: Seq<char>,
    hash: Seq<char>,
    taken: Seq<Seq<char>>,
    now: i64,
) -> Result<CatalogView, StoreError> {
    match plan_ingest_spec(s, source, hash, taken) {
        Ok(IngestPlanView::Duplicate) => Ok(s),
        Ok(IngestPlanView::CopyTo { dest }) => insert_spec(s, ingested_row(id, source, dest, hash, now)),
        Err(e) => Err(e),
    }
}

pub open spec fn holds_content(rows: Seq<PhotoView>, i: int, hash: Seq<char>) -> bool {
    0 <= i < rows.len() && is_active(rows[i]) && rows[i].hash == hash
}

/// Exactly one active row holds content `hash`.
pub open spec fn exactly_one_active(rows: Seq<PhotoView>, hash: Seq<char>) -> bool {
    exists|i: int|
        #[trigger] holds_content(rows, i, hash) && forall|j: int|
            #[trigger] holds_content(rows, j, hash) ==> j == i
}

proof fn lemma_id_index_at(rows: Seq<PhotoView>, id: Seq<char>, i: int)
    requires
        rows_wf(rows),
        0 <= i < rows.len(),
        rows[i].id == id,
    ensures
        id_index(rows, id) == Some(i),
{
    assert(has_id(rows, id));
    let k = choose|k: int| 0 <= k < rows.len() && rows[k].id == id;
    if k != i {
        if k < i {
            assert(rows[k].id != rows[i].id);
        } else {
            assert(rows[i].id != rows[k].id);
        }
    }
}

proof fn lemma_active_index_facts(rows: Seq<PhotoView>, id: Seq<char>)
    requires
        rows_wf(rows),
    ensures
        active_index(rows, id) matches Some(i) ==> 0 <= i < rows.len() && rows[i].id == id
            && is_active(rows[i]),
        id_index(rows, id) matches Some(i) ==> 0 <= i < rows.len() && rows[i].id == id,
{
}

/// Ingesting the same bytes twice, under any two file names, leaves exactly one active row
/// holding them; the second ingestion is a duplicate, which copies nothing and changes nothing.
pub proof fn lemma_ingest_dedup(
    s: CatalogView,
    id1: Seq<char>,
    id2: Seq<char>,
    first: Seq<char>,
    second: Seq<char>,
    hash: Seq<char>,
    taken1: Seq<Seq<char>>,
    taken2: Seq<Seq<char>>,
    now1: i64,
    now2: i64,
)
    requires
        rows_wf(s.rows),
        rows_placed(s.media_root, s.rows),
        !has_id(s.rows, id1),
        has_active_hash(s.rows, hash) || file_name_of(first) is Some,
    ensures
        ingest_spec(s, id1, first, hash, taken1, now1) is Ok,
        ({
            let s1 = ingest_spec(s, id1, first, hash, taken1, now1)->Ok_0;
            &&& rows_wf(s1.rows)
            &&& exactly_one_active(s1.rows, hash)
            &&& plan_ingest_spec(s1, second, hash, taken2) == Ok::<IngestPlanView, StoreError>(
                IngestPlanView::Duplicate,
            )
            &&& ingest_spec(s1, id2, second, hash, taken2, now2) == Ok::<CatalogView, StoreError>(s1)
        }),
{
    match plan_ingest_spec(s, first, hash, taken1) {
        Ok(IngestPlanView::Duplicate) => {
            lemma_unique_active(s.rows, hash);
        },
        Ok(IngestPlanView::CopyTo { dest }) => {
            lemma_allocated_placed(s.media_root, Tier::Bronze, first, taken1);
            let row = ingested_row(id1, first, dest, hash, now1);
            lemma_push_new_content(s.rows, row);
            let s1 = with_rows(s, s.rows.push(row));
            lemma_unique_active(s1.rows, hash);
        },
        Err(_) => {},
    }
}

/// Where ingestion allocates a file for `source`'s name in tier `t`'s directory, the path
/// found is a file of that tier.
proof fn lemma_allocated_placed(root: Seq<char>, t: Tier, source: Seq<char>, taken: Seq<Seq<char>>)
    requires
        file_name_of(source) is Some,
    ensures
        placed(root, allocated_path(join(join(root, tier_name(t)), file_name_of(source)->0), taken), t),
{
    let d = join(root, tier_name(t));
    let name = file_name_of(source)->0;
    let target = join(d, name);
    lemma_last_index_bounds(source, '/');
    assert(no_slash(name)) by {
        assert forall|j: int| 0 <= j < name.len() implies name[j] != '/' by {
            assert(name[j] == source[j + last_index_of(source, '/') + 1]);
        }
    }
    lemma_file_name_in_dir(d, source);
    let e: Seq<char> = Seq::empty();
    let prefix = if d.len() == 0 {
        e
    } else if d.last() == '/' {
        d
    } else {
        d + seq!['/']
    };
    assert(target =~= prefix + name);
    lemma_last_index_prefix(prefix, name, '/');
    if prefix.len() > 0 {
        assert(prefix.last() == '/');
    }
    assert(last_index_of(prefix, '/') == prefix.len() - 1);
    assert(base_name(target) =~= name);
    assert(dir_part(target) =~= prefix);
    if taken.contains(name) {
        if let Some(i) = first_free(name, taken, 1) {
            lemma_first_free_bound(name, taken, 1);
            let c = candidate_name(name, i);
            lemma_candidate_facts(name, i, i);
            lemma_last_index_prefix(prefix, c, '/');
            assert(base_name(prefix + c) =~= c);
            assert(join(d, c) =~= prefix + c);
            if c == seq!['.'] || c == seq!['.', '.'] {
                assert(c.len() < 4);
            }
            assert(file_name_of(prefix + c) == Some(c));
        }
    }
}

proof fn lemma_first_free_bound(name: Seq<char>, taken: Seq<Seq<char>>, i: nat)
    ensures
        first_free(name, taken, i) matches Some(j) ==> j >= i,
    decreases MAX_PROBES - i,
{
    if i < MAX_PROBES && taken.contains(candidate_name(name, i)) {
        lemma_first_free_bound(name, taken, i + 1);
    }
}

proof fn lemma_unique_active(rows: Seq<PhotoView>, hash: Seq<char>)
    requires
        rows_wf(rows),
        has_active_hash(rows, hash),
    ensures
        exactly_one_active(rows, hash),
{
    let i = choose|i: int| 0 <= i < rows.len() && is_active(rows[i]) && rows[i].hash == hash;
    assert(holds_content(rows, i, hash));
    assert forall|j: int| #[trigger] holds_content(rows, j, hash) implies j == i by {
        if j < i {
            assert(rows[j].hash != rows[i].hash);
        } else if i < j {
            assert(rows[i].hash != rows[j].hash);
        }
    }
}

proof fn lemma_push_new_content(rows: Seq<PhotoView>, row: PhotoView)
    requires
        rows_wf(rows),
        !has_id(rows, row.id),
        !has_active_hash(rows, row.hash),
        is_active(row),
    ensures
        rows_wf(rows.push(row)),
        has_active_hash(rows.push(row), row.hash),
{
    let r1 = rows.push(row);
    let n = rows.len() as int;
    assert(r1[n] == row);
    assert forall|a: int, b: int| 0 <= a < b < r1.len() implies r1[a].id != r1[b].id by {
        assert(r1[a] == rows[a]);
        if b < n {
            assert(r1[b] == rows[b]);
        }
    }
    assert forall|a: int, b: int|
        0 <= a < b < r1.len() && is_active(r1[a]) && is_active(r1[b]) implies r1[a].hash != r1[b].hash by {
        assert(r1[a] == rows[a]);
        if b < n {
            assert(r1[b] == rows[b]);
        }
    }
}

proof fn lemma_file_name_in_dir(dir: Seq<char>, p: Seq<char>)
    requires
        file_name_of(p) is Some,
    ensures
        file_name_of(join(dir, file_name_of(p)->0)) == file_name_of(p),
{
    let name = file_name_of(p)->0;
    lemma_last_index_bounds(p, '/');
    assert(no_slash(name)) by {
        assert forall|j: int| 0 <= j < name.len() implies name[j] != '/' by {
            assert(name[j] == p[j + last_index_of(p, '/') + 1]);
        }
    }
    let e: Seq<char> = Seq::empty();
    let prefix = if dir.len() == 0 {
        e
    } else if dir.last() == '/' {
        dir
    } else {
        dir + seq!['/']
    };
    assert(join(dir, name) =~= prefix + name);
    lemma_last_index_prefix(prefix, name, '/');
    if prefix.len() > 0 {
        assert(prefix.last() == '/');
    }
    assert(last_index_of(prefix, '/') == prefix.len() - 1);
    assert(base_name(join(dir, name)) =~= name);
}

/// Promoting a photo in tier `a` to tier `b` and back puts it at its old path in tier `a`,
/// with every row still there and in place; `taken_b` and `taken_a` are the names found in the
/// two tiers' directories at each move, neither holding another file of the photo's name.
pub proof fn lemma_promote_round_trip(
    s: CatalogView,
    id: Seq<char>,
    a: Tier,
    b: Tier,
    taken_b: Seq<Seq<char>>,
    taken_a: Seq<Seq<char>>,
    now1: i64,
    now2: i64,
)
    requires
        rows_wf(s.rows),
        rows_placed(s.media_root, s.rows),
        active_index(s.rows, id) is Some,
        s.rows[active_index(s.rows, id)->0].tier == a,
        !taken_b.contains(file_name_of(s.rows[active_index(s.rows, id)->0].storage_path)->0),
        !taken_a.contains(file_name_of(s.rows[active_index(s.rows, id)->0].storage_path)->0),
    ensures
        promote_spec(s, id, tier_name(b), taken_b, now1) is Ok,
        promote_spec(promote_spec(s, id, tier_name(b), taken_b, now1)->Ok_0, id, tier_name(a), taken_a, now2) is Ok,
        ({
            let i = active_index(s.rows, id)->0;
            let s1 = promote_spec(s, id, tier_name(b), taken_b, now1)->Ok_0;
            let s2 = promote_spec(s1, id, tier_name(a), taken_a, now2)->Ok_0;
            &&& s2.rows.len() == s.rows.len()
            &&& forall|k: int| 0 <= k < s.rows.len() ==> #[trigger] s2.rows[k].id == s.rows[k].id
            &&& forall|k: int| 0 <= k < s.rows.len() && k != i ==> #[trigger] s2.rows[k] == s.rows[k]
            &&& s2.rows[i].storage_path == s.rows[i].storage_path
            &&& s2.rows[i].tier == a
            &&& is_active(s2.rows[i])
            &&& s2.rows[i].hash == s.rows[i].hash
        }),
{
    lemma_active_index_facts(s.rows, id);
    lemma_tier_name_round_trip(a);
    lemma_tier_name_round_trip(b);
    let i = active_index(s.rows, id)->0;
    let p = s.rows[i];
    assert(placed(s.media_root, p.storage_path, p.tier));
    let name = file_name_of(p.storage_path)->0;
    let to1 = join(join(s.media_root, tier_name(b)), name);
    lemma_file_name_in_dir(join(s.media_root, tier_name(b)), p.storage_path);
    let s1 = with_rows(s, s.rows.update(i, PhotoView { storage_path: to1, tier: b, updated_at: now1, ..p }));
    assert(promote_spec(s, id, tier_name(b), taken_b, now1) == Ok::<CatalogView, StoreError>(s1));
    assert(rows_wf(s1.rows)) by {
        assert forall|k: int| 0 <= k < s1.rows.len() implies #[trigger] s1.rows[k].id == s.rows[k].id
            && s1.rows[k].hash == s.rows[k].hash && is_active(s1.rows[k]) == is_active(s.rows[k]) by {}
    }
    lemma_id_index_at(s1.rows, id, i);
    assert(file_name_of(s1.rows[i].storage_path) == Some(name));
    let s2 = with_rows(s1, s1.rows.update(i, PhotoView { storage_path: p.storage_path, tier: a, updated_at: now2, ..s1.rows[i] }));
    assert(promote_spec(s1, id, tier_name(a), taken_a, now2) == Ok::<CatalogView, StoreError>(s2));
}

proof fn lemma_active_rows_members(rows: Seq<PhotoView>)
    ensures
        forall|j: int| 0 <= j < active_rows(rows).len() ==> is_active(#[trigger] active_rows(rows)[j])
            && rows.contains(active_rows(rows)[j]),
    decreases rows.len(),
{
    if rows.len() > 0 {
        lemma_active_rows_members(rows.drop_last());
        let ar = active_rows(rows);
        let sub = active_rows(rows.drop_last());
        assert forall|j: int| 0 <= j < ar.len() implies is_active(#[trigger] ar[j]) && rows.contains(ar[j]) by {
            if j < sub.len() {
                assert(ar[j] == sub[j]);
                let k = choose|k: int| 0 <= k < rows.drop_last().len() && rows.drop_last()[k] == sub[j];
                assert(rows[k] == sub[j]);
            } else {
                assert(ar[j] == rows.last());
                assert(rows[rows.len() - 1] == rows.last());
            }
        }
    }
}

proof fn lemma_insert_by_recency_members(sorted: Seq<PhotoView>, x: PhotoView)
    ensures
        insert_by_recency(sorted, x).len() == sorted.len() + 1,
        forall|j: int|
            0 <= j < insert_by_recency(sorted, x).len() ==> #[trigger] insert_by_recency(sorted, x)[j]
                == x || sorted.contains(insert_by_recency(sorted, x)[j]),
    decreases sorted.len(),
{
    if sorted.len() > 0 && sorted.last().updated_at < x.updated_at {
        let sub = sorted.drop_last();
        lemma_insert_by_recency_members(sub, x);
        let r = insert_by_recency(sorted, x);
        assert forall|j: int| 0 <= j < r.len() implies #[trigger] r[j] == x || sorted.contains(r[j]) by {
            if j < r.len() - 1 {
                assert(r[j] == insert_by_recency(sub, x)[j]);
                if r[j] != x {
                    let k = choose|k: int| 0 <= k < sub.len() && sub[k] == r[j];
                    assert(sorted[k] == sub[k]);
                }
            } else {
                assert(sorted[sorted.len() - 1] == sorted.last());
            }
        }
    } else {
        let r = insert_by_recency(sorted, x);
        assert forall|j: int| 0 <= j < r.len() implies #[trigger] r[j] == x || sorted.contains(r[j]) by {
            if j < sorted.len() {
                assert(r[j] == sorted[j]);
            }
        }
    }
}

proof fn lemma_by_recency_members(rows: Seq<PhotoView>)
    ensures
        forall|j: int| 0 <= j < by_recency(rows).len() ==> rows.contains(#[trigger] by_recency(rows)[j]),
    decreases rows.len(),
{
    if rows.len() > 0 {
        let sub = rows.drop_last();
        lemma_by_recency_members(sub);
        lemma_insert_by_recency_members(by_recency(sub), rows.last());
        let r = by_recency(rows);
        assert forall|j: int| 0 <= j < r.len() implies rows.contains(#[trigger] r[j]) by {
            if r[j] == rows.last() {
                assert(rows[rows.len() - 1] == rows.last());
            } else {
                let k = choose|k: int| 0 <= k < by_recency(sub).len() && by_recency(sub)[k] == r[j];
                assert(sub.contains(by_recency(sub)[k]));
                let m = choose|m: int| 0 <= m < sub.len() && sub[m] == by_recency(sub)[k];
                assert(rows[m] == sub[m]);
            }
        }
    }
}

/// A soft delete keeps the row, stamps its deletion time, and hides it from the standard
/// listing.
pub proof fn lemma_soft_delete_hides_row(s: CatalogView, id: Seq<char>, taken: Seq<Seq<char>>, now: i64)
    requires
        rows_wf(s.rows),
        active_index(s.rows, id) is Some,
    ensures
        delete_spec(s, id, false, taken, now) is Ok,
        ({
            let s1 = delete_spec(s, id, false, taken, now)->Ok_0;
            &&& rows_wf(s1.rows)
            &&& s1.rows.len() == s.rows.len()
            &&& id_index(s1.rows, id) is Some
            &&& s1.rows[id_index(s1.rows, id)->0].deleted_at == Some(now)
            &&& forall|j: int|
                0 <= j < active_listing(s1.rows).len() ==> #[trigger] active_listing(s1.rows)[j].id
                    != id
        }),
{
    lemma_active_index_facts(s.rows, id);
    let i = active_index(s.rows, id)->0;
    let plan = plan_delete_spec(s, id, false, taken)->Ok_0;
    let to = allocated_path(join(s.trash_root, trash_name(s.rows[i].storage_path)), taken);
    assert(plan == DeletePlanView::Trash { id, from: s.rows[i].storage_path, to });
    let s1 = with_rows(
        s,
        s.rows.update(i, PhotoView { storage_path: to, deleted_at: Some(now), updated_at: now, ..s.rows[i] }),
    );
    assert(delete_spec(s, id, false, taken, now) == Ok::<CatalogView, StoreError>(s1));
    assert(rows_wf(s1.rows)) by {
        assert forall|k: int| 0 <= k < s1.rows.len() implies #[trigger] s1.rows[k].id == s.rows[k].id
            && s1.rows[k].hash == s.rows[k].hash && (is_active(s1.rows[k]) ==> is_active(s.rows[k])) by {}
    }
    lemma_id_index_at(s1.rows, id, i);
    lemma_active_rows_members(s1.rows);
    lemma_by_recency_members(active_rows(s1.rows));
    assert forall|j: int| 0 <= j < active_listing(s1.rows).len() implies #[trigger] active_listing(s1.rows)[j].id != id by {
        let r = active_listing(s1.rows)[j];
        let ar = active_rows(s1.rows);
        let a = choose|a: int| 0 <= a < ar.len() && ar[a] == r;
        assert(is_active(ar[a]) && s1.rows.contains(ar[a]));
        let k = choose|k: int| 0 <= k < s1.rows.len() && s1.rows[k] == r;
        if r.id == id {
            lemma_id_index_at(s1.rows, id, k);
        }
    }
}

/// A permanent delete removes the row entirely.
pub proof fn lemma_permanent_delete_removes_row(
    s: CatalogView,
    id: Seq<char>,
    taken: Seq<Seq<char>>,
    now: i64,
)
    requires
        rows_wf(s.rows),
        active_index(s.rows, id) is Some,
    ensures
        delete_spec(s, id, true, taken, now) is Ok,
        !has_id(delete_spec(s, id, true, taken, now)->Ok_0.rows, id),
        delete_spec(s, id, true, taken, now)->Ok_0.rows.len() == s.rows.len() - 1,
{
    lemma_active_index_facts(s.rows, id);
    let i = active_index(s.rows, id)->0;
    let s1 = with_rows(s, s.rows.remove(i));
    assert(delete_spec(s, id, true, taken, now) == Ok::<CatalogView, StoreError>(s1));
    if has_id(s1.rows, id) {
        let k = choose|k: int| 0 <= k < s1.rows.len() && s1.rows[k].id == id;
        let k0 = if k < i { k } else { k + 1 };
        assert(s1.rows[k] == s.rows[k0]);
        lemma_id_index_at(s.rows, id, k0);
    }
}

} // verus!
