//! Properties that hold across the operations on the budget tables.

use crate::buffers::{
    effective_row, opens_new_buffer,
    buffer_for, buffer_pred, is_buffer_of, merged_amount, takes_merged_amount,
    lemma_kept_ids, lemma_new_buffer_ids, lemma_new_buffers_len, kept_targets_in, merged_targets,
    new_buffer_count, new_buffers_in,
};
use crate::assignments::{assignment_id_for, same_category_pred, upsert_all, upsert_one};
use crate::groups::{delete_group_check, deleted_into};
use crate::rollovers::{category_rollover_pred, disabled, disabled_rollovers, new_rollover_row, same_rollover, same_rollover_pred, upserted_rollover};
use crate::targets::{same_target, copied_row, copied_targets, copy_into, new_target_row, period_filter, same_target_pred, upserted_target};
use crate::model::{AssignmentRequest, AssignmentRow, GroupRow, RolloverRequest, RolloverRow, TargetRequest, TargetRow};
use crate::tables::{
    assignment_ids, first_match, first_match_in, lemma_first_match_concat, lemma_first_match_in_full, lemma_first_match_is, BudgetError, group_ids, lemma_first_match_in, lemma_first_match_push,
    fresh_ids, rollover_ids, target_ids, TablesView,
};
use vstd::prelude::*;

verus! {

/// Removing elements keeps the remaining keys unique, each element one that was there.
pub proof fn lemma_filter_keys<T>(s: Seq<T>, p: spec_fn(T) -> bool, key: spec_fn(T) -> Seq<char>)
    requires
        s.map_values(key).no_duplicates(),
    ensures
        s.filter(p).map_values(key).no_duplicates(),
        forall|x: int| 0 <= x < s.filter(p).len() ==> #[trigger] s.contains(s.filter(p)[x]),
    decreases s.len(),
{
    reveal(Seq::filter);
    if s.len() > 0 {
        let init = s.drop_last();
        assert(init.map_values(key) =~= s.map_values(key).drop_last());
        lemma_filter_keys(init, p, key);
        let f0 = init.filter(p);
        let f = s.filter(p);
        assert forall|x: int| 0 <= x < f.len() implies #[trigger] s.contains(f[x]) by {
            if x < f0.len() {
                assert(f[x] == f0[x]);
                assert(init.contains(f0[x]));
                let j = choose|j: int| 0 <= j < init.len() && init[j] == f0[x];
                assert(s[j] == init[j]);
            } else {
                assert(f[x] == s.last());
                assert(s[s.len() - 1] == s.last());
            }
        }
        if p(s.last()) {
            assert forall|a: int, b: int|
                0 <= a < f.len() && 0 <= b < f.len() && a != b implies #[trigger] f.map_values(key)[a]
                    != #[trigger] f.map_values(key)[b] by {
                if a < f0.len() && b < f0.len() {
                    assert(f0.map_values(key)[a] != f0.map_values(key)[b]);
                } else if a < f0.len() {
                    assert(init.contains(f0[a]));
                    let j = choose|j: int| 0 <= j < init.len() && init[j] == f0[a];
                    assert(s.map_values(key)[j] == key(s[j]));
                    assert(s.map_values(key)[s.len() - 1] == key(s[s.len() - 1]));
                } else if b < f0.len() {
                    assert(init.contains(f0[b]));
                    let j = choose|j: int| 0 <= j < init.len() && init[j] == f0[b];
                    assert(s.map_values(key)[j] == key(s[j]));
                    assert(s.map_values(key)[s.len() - 1] == key(s[s.len() - 1]));
                }
            }
        }
    }
}

/// Removing groups keeps their identifiers unique.
pub proof fn lemma_group_filter_ids(s: Seq<GroupRow>, p: spec_fn(GroupRow) -> bool)
    requires
        group_ids(s).no_duplicates(),
    ensures
        group_ids(s.filter(p)).no_duplicates(),
{
    let key = |r: GroupRow| r.id;
    assert(s.map_values(key) =~= group_ids(s));
    lemma_filter_keys(s, p, key);
    assert(s.filter(p).map_values(key) =~= group_ids(s.filter(p)));
}

/// Removing targets keeps their identifiers unique.
pub proof fn lemma_target_filter_ids(s: Seq<TargetRow>, p: spec_fn(TargetRow) -> bool)
    requires
        target_ids(s).no_duplicates(),
    ensures
        target_ids(s.filter(p)).no_duplicates(),
{
    let key = |r: TargetRow| r.id;
    assert(s.map_values(key) =~= target_ids(s));
    lemma_filter_keys(s, p, key);
    assert(s.filter(p).map_values(key) =~= target_ids(s.filter(p)));
}

/// Removing rollover settings keeps their identifiers unique.
pub proof fn lemma_rollover_filter_ids(s: Seq<RolloverRow>, p: spec_fn(RolloverRow) -> bool)
    requires
        rollover_ids(s).no_duplicates(),
    ensures
        rollover_ids(s.filter(p)).no_duplicates(),
{
    let key = |r: RolloverRow| r.id;
    assert(s.map_values(key) =~= rollover_ids(s));
    lemma_filter_keys(s, p, key);
    assert(s.filter(p).map_values(key) =~= rollover_ids(s.filter(p)));
}

/// Deleting a group into another keeps the identifiers of every table unique,
/// provided the identifiers given to new buffer rows are distinct and unused.
pub proof fn lemma_delete_group_keeps_keys(
    t: TablesView,
    id: Seq<char>,
    dst: Seq<char>,
    now: Seq<char>,
    ids: Seq<Seq<char>>,
)
    requires
        t.wf(),
        ids.no_duplicates(),
        ids.len() >= new_buffer_count(t.targets, id, dst),
        forall|i: int| 0 <= i < ids.len() ==> !target_ids(t.targets).contains(#[trigger] ids[i]),
    ensures
        deleted_into(t, id, dst, now, ids).wf(),
{
    let d = deleted_into(t, id, dst, now, ids);
    lemma_group_filter_ids(t.groups, |g: GroupRow| g.id != id);
    assert(assignment_ids(d.assignments) =~= assignment_ids(t.assignments));
    let n = t.targets.len() as int;
    let kept = kept_targets_in(t.targets, id, dst, now, n);
    let fresh = new_buffers_in(t.targets, id, dst, now, ids, n);
    lemma_kept_ids(t.targets, id, dst, now, n);
    lemma_new_buffer_ids(t.targets, id, dst, now, ids, n);
    lemma_new_buffers_len(t.targets, id, dst, now, ids, n);
    let all = merged_targets(t.targets, id, dst, now, ids);
    assert(all == kept + fresh);
    assert forall|a: int, b: int|
        0 <= a < all.len() && 0 <= b < all.len() && a != b implies target_ids(all)[a] != target_ids(all)[b] by {
        if a < kept.len() && b < kept.len() {
            assert(all[a] == kept[a] && all[b] == kept[b]);
            assert(target_ids(kept)[a] != target_ids(kept)[b]);
        } else if a >= kept.len() && b >= kept.len() {
            assert(all[a] == fresh[a - kept.len()] && all[b] == fresh[b - kept.len()]);
            assert(target_ids(fresh)[a - kept.len()] == ids[a - kept.len()]);
            assert(target_ids(fresh)[b - kept.len()] == ids[b - kept.len()]);
        } else {
            let (k, f) = if a < kept.len() { (a, b) } else { (b, a) };
            assert(all[k] == kept[k]);
            assert(all[f] == fresh[f - kept.len()]);
            assert(target_ids(fresh)[f - kept.len()] == ids[f - kept.len()]);
            let j = choose|j: int| 0 <= j < n && #[trigger] kept[k].id == t.targets[j].id;
            assert(target_ids(t.targets)[j] == t.targets[j].id);
            assert(!target_ids(t.targets).contains(ids[f - kept.len()]));
        }
    }
}

/// Where the first buffer of `dst` for `p` among the kept rows is, and what it holds.
pub open spec fn kept_claim(rows: Seq<TargetRow>, src: Seq<char>, dst: Seq<char>, now: Seq<char>, p: Seq<char>, n: int) -> bool {
    match first_match_in(rows, buffer_pred(dst, p), n) {
        Some(k) => first_match(kept_targets_in(rows, src, dst, now, n), buffer_pred(dst, p)) matches Some(x)
            && kept_targets_in(rows, src, dst, now, n)[x].amount == merged_amount(rows, src, dst, p).unwrap(),
        None => first_match(kept_targets_in(rows, src, dst, now, n), buffer_pred(dst, p)) is None,
    }
}

/// In the kept rows, the first buffer of `dst` for period `p` is there exactly
/// where one was among the first `n` rows, and it holds the merged amount.
pub proof fn lemma_kept_dst_buffer(
    rows: Seq<TargetRow>,
    src: Seq<char>,
    dst: Seq<char>,
    now: Seq<char>,
    p: Seq<char>,
    n: int,
)
    requires
        0 <= n <= rows.len(),
        src != dst,
    ensures
        kept_claim(rows, src, dst, now, p, n),
    decreases n,
{
    let pred = buffer_pred(dst, p);
    if n > 0 {
        lemma_kept_dst_buffer(rows, src, dst, now, p, n - 1);
        let prev = kept_targets_in(rows, src, dst, now, n - 1);
        let r = rows[n - 1];
        lemma_first_match_in(rows, pred, n - 1);
        lemma_first_match_in(rows, pred, n);
        lemma_first_match_in(prev, pred, prev.len() as int);
        if is_buffer_of(r, src) {
            assert(!pred(r));
            assert(kept_targets_in(rows, src, dst, now, n) == prev);
        } else if takes_merged_amount(rows, dst, n - 1) {
            let e = TargetRow { amount: merged_amount(rows, src, dst, r.period_key).unwrap(), updated_at: now, ..r };
            assert(kept_targets_in(rows, src, dst, now, n) == prev.push(e));
            assert(prev.push(e)[prev.len() as int] == e);
            lemma_first_match_push(prev, e, pred);
            if r.period_key == p {
                lemma_first_match_in(rows, pred, rows.len() as int);
                assert(first_match_in(rows, pred, n - 1) is None);
                }
        } else {
            assert(kept_targets_in(rows, src, dst, now, n) == prev.push(r));
            lemma_first_match_push(prev, r, pred);
            if pred(r) {
                lemma_first_match_in(rows, pred, rows.len() as int);
                assert(buffer_for(rows, dst, p) != Some(n - 1));
                let k = buffer_for(rows, dst, p).unwrap();
                assert(k < n - 1);
                assert(first_match_in(rows, pred, n - 1) is Some) by {
                    if first_match_in(rows, pred, n - 1) is None {
                        assert(!pred(rows[k]));
                    }
                }
            }
        }
    }
}

/// Where the first new buffer row of `dst` for `p` is, and what it holds.
pub open spec fn new_claim(
    rows: Seq<TargetRow>,
    src: Seq<char>,
    dst: Seq<char>,
    now: Seq<char>,
    ids: Seq<Seq<char>>,
    p: Seq<char>,
    n: int,
) -> bool {
    let fresh = new_buffers_in(rows, src, dst, now, ids, n);
    if first_match_in(rows, buffer_pred(src, p), n) is Some && buffer_for(rows, dst, p) is None {
        first_match(fresh, buffer_pred(dst, p)) matches Some(x) && fresh[x].amount == merged_amount(
            rows,
            src,
            dst,
            p,
        ).unwrap()
    } else {
        first_match(fresh, buffer_pred(dst, p)) is None
    }
}

/// The new buffer rows hold one buffer of `dst` for each period that only
/// `src` had among the first `n` rows, with the merged amount.
pub proof fn lemma_new_dst_buffer(
    rows: Seq<TargetRow>,
    src: Seq<char>,
    dst: Seq<char>,
    now: Seq<char>,
    ids: Seq<Seq<char>>,
    p: Seq<char>,
    n: int,
)
    requires
        0 <= n <= rows.len(),
    ensures
        new_claim(rows, src, dst, now, ids, p, n),
    decreases n,
{
    let pred = buffer_pred(dst, p);
    let spred = buffer_pred(src, p);
    if n > 0 {
        lemma_new_dst_buffer(rows, src, dst, now, ids, p, n - 1);
        let prev = new_buffers_in(rows, src, dst, now, ids, n - 1);
        let r = rows[n - 1];
        lemma_first_match_in(rows, spred, n - 1);
        lemma_first_match_in(rows, spred, n);
        lemma_first_match_in(rows, spred, rows.len() as int);
        lemma_first_match_in(prev, pred, prev.len() as int);
        if opens_new_buffer(rows, src, dst, n - 1) {
            let e = TargetRow {
                id: ids[prev.len() as int],
                period_key: r.period_key,
                target_type: "group_buffer"@,
                taxonomy_id: None,
                category_id: None,
                group_id: Some(dst),
                amount: merged_amount(rows, src, dst, r.period_key).unwrap(),
                created_at: now,
                updated_at: now,
            };
            assert(new_buffers_in(rows, src, dst, now, ids, n) == prev.push(e));
            assert(prev.push(e)[prev.len() as int] == e);
            lemma_first_match_push(prev, e, pred);
            if r.period_key == p {
                assert(first_match_in(rows, spred, n - 1) is None);
            }
            assert(new_claim(rows, src, dst, now, ids, p, n));
        } else {
            assert(new_buffers_in(rows, src, dst, now, ids, n) == prev);
            if spred(r) && first_match_in(rows, spred, n - 1) is None {
                lemma_first_match_in_full(rows, spred, n);
            }
            assert(new_claim(rows, src, dst, now, ids, p, n));
        }
    }
}

/// No kept row is a buffer of `src`.
pub proof fn lemma_kept_no_src(rows: Seq<TargetRow>, src: Seq<char>, dst: Seq<char>, now: Seq<char>, n: int)
    requires
        0 <= n <= rows.len(),
    ensures
        forall|x: int|
            0 <= x < kept_targets_in(rows, src, dst, now, n).len() ==> !is_buffer_of(
                #[trigger] kept_targets_in(rows, src, dst, now, n)[x],
                src,
            ),
    decreases n,
{
    if n > 0 {
        lemma_kept_no_src(rows, src, dst, now, n - 1);
        let prev = kept_targets_in(rows, src, dst, now, n - 1);
        let cur = kept_targets_in(rows, src, dst, now, n);
        assert forall|x: int| 0 <= x < cur.len() implies !is_buffer_of(#[trigger] cur[x], src) by {
            if x < prev.len() {
                assert(cur[x] == prev[x]);
            }
        }
    }
}

/// The buffer of `dst` for period `p` after the merge: the merged amount where
/// either group had a buffer for `p`, none otherwise.
pub proof fn lemma_merged_buffer_for(
    rows: Seq<TargetRow>,
    src: Seq<char>,
    dst: Seq<char>,
    now: Seq<char>,
    ids: Seq<Seq<char>>,
    p: Seq<char>,
)
    requires
        src != dst,
    ensures
        (buffer_for(rows, src, p) is Some || buffer_for(rows, dst, p) is Some) ==> (buffer_for(
            merged_targets(rows, src, dst, now, ids),
            dst,
            p,
        ) matches Some(x) && merged_targets(rows, src, dst, now, ids)[x].amount == merged_amount(
            rows,
            src,
            dst,
            p,
        ).unwrap()),
        (buffer_for(rows, src, p) is None && buffer_for(rows, dst, p) is None) ==> buffer_for(
            merged_targets(rows, src, dst, now, ids),
            dst,
            p,
        ) is None,
{
    let n = rows.len() as int;
    let kept = kept_targets_in(rows, src, dst, now, n);
    let fresh = new_buffers_in(rows, src, dst, now, ids, n);
    let pred = buffer_pred(dst, p);
    lemma_kept_dst_buffer(rows, src, dst, now, p, n);
    lemma_new_dst_buffer(rows, src, dst, now, ids, p, n);
    lemma_first_match_concat(kept, fresh, pred);
    lemma_first_match_in(kept, pred, kept.len() as int);
    lemma_first_match_in(fresh, pred, fresh.len() as int);
    let all = kept + fresh;
    if first_match(kept, pred) is Some {
        let x = first_match(kept, pred).unwrap();
        assert(all[x] == kept[x]);
    } else if first_match(fresh, pred) is Some {
        let x = first_match(fresh, pred).unwrap();
        assert(all[x + kept.len()] == fresh[x]);
    }
}

/// The amount text of group `g`'s effective buffer for period `p`, if it has one.
pub open spec fn effective_text(rows: Seq<TargetRow>, g: Seq<char>, p: Seq<char>) -> Option<Seq<char>> {
    match effective_row(rows, g, p) {
        Some(k) => Some(rows[k].amount),
        None => None,
    }
}

/// Deleting group `id` into group `dst` merges their buffers: for every
/// period, the buffer that counts for `dst` afterwards holds the normalized
/// sum of the buffers that counted for `id` and for `dst` before (a month's
/// own row, else the default row, else zero), and `dst` has no buffer for a
/// period where neither had one. No buffer of `id` is left.
pub proof fn lemma_delete_merges_buffers(
    t: TablesView,
    id: Seq<char>,
    dst: Seq<char>,
    now: Seq<char>,
    ids: Seq<Seq<char>>,
    p: Seq<char>,
)
    requires
        delete_group_check(t, id, dst) is Ok,
    ensures
        effective_text(deleted_into(t, id, dst, now, ids).targets, dst, p) == if effective_row(
            t.targets,
            id,
            p,
        ) is None && effective_row(t.targets, dst, p) is None {
            None
        } else {
            merged_amount(t.targets, id, dst, p)
        },
        forall|k: int|
            0 <= k < deleted_into(t, id, dst, now, ids).targets.len() ==> !is_buffer_of(
                #[trigger] deleted_into(t, id, dst, now, ids).targets[k],
                id,
            ),
{
    let rows = t.targets;
    let new = deleted_into(t, id, dst, now, ids).targets;
    let n = rows.len() as int;
    lemma_merged_buffer_for(rows, id, dst, now, ids, p);
    lemma_merged_buffer_for(rows, id, dst, now, ids, "default"@);
    lemma_first_match_in(new, buffer_pred(dst, p), new.len() as int);
    lemma_first_match_in(new, buffer_pred(dst, "default"@), new.len() as int);
    // A buffer that exists has an amount that does not overflow.
    assert forall|q: Seq<char>| (buffer_for(rows, id, q) is Some || buffer_for(rows, dst, q) is Some) implies merged_amount(rows, id, dst, q) is Some by {
        lemma_first_match_in(rows, buffer_pred(id, q), n);
        lemma_first_match_in(rows, buffer_pred(dst, q), n);
        if buffer_for(rows, id, q) is Some {
            let k = buffer_for(rows, id, q).unwrap();
            assert(is_buffer_of(rows[k], id));
        } else {
            let k = buffer_for(rows, dst, q).unwrap();
            assert(is_buffer_of(rows[k], dst));
        }
    }
    // The rows that no longer exist are the buffers of `id`.
    let kept = kept_targets_in(rows, id, dst, now, n);
    let fresh = new_buffers_in(rows, id, dst, now, ids, n);
    lemma_kept_no_src(rows, id, dst, now, n);
    lemma_new_all_dst(rows, id, dst, now, ids, n);
    assert forall|k: int| 0 <= k < new.len() implies !is_buffer_of(#[trigger] new[k], id) by {
        if k < kept.len() {
            assert(new[k] == kept[k]);
        } else {
            assert(new[k] == fresh[k - kept.len()]);
        }
    }
}

/// Every new buffer row belongs to `dst`.
pub proof fn lemma_new_all_dst(
    rows: Seq<TargetRow>,
    src: Seq<char>,
    dst: Seq<char>,
    now: Seq<char>,
    ids: Seq<Seq<char>>,
    n: int,
)
    ensures
        forall|x: int|
            0 <= x < new_buffers_in(rows, src, dst, now, ids, n).len() ==> (#[trigger] new_buffers_in(
                rows,
                src,
                dst,
                now,
                ids,
                n,
            )[x]).group_id == Some(dst),
    decreases n,
{
    if n > 0 {
        lemma_new_all_dst(rows, src, dst, now, ids, n - 1);
    }
}

/// The key fields a new target needs to be found again: the taxonomy and
/// category of a category target, the group of a buffer.
pub open spec fn target_key_given(row: TargetRow) -> bool {
    if row.target_type == "category"@ {
        row.taxonomy_id is Some && row.category_id is Some
    } else {
        row.target_type == "group_buffer"@ && row.group_id is Some
    }
}

/// Setting a target and then looking up the target of its month and
/// category (or group buffer) finds the amount just set.
pub proof fn lemma_upsert_target_reads_back(rows: Seq<TargetRow>, row: TargetRow)
    requires
        target_key_given(row),
    ensures
        upserted_target(rows, row) matches Ok((t, r)) ==> {
            &&& first_match(t, same_target_pred(row)) matches Some(k)
            &&& t[k] == r
            &&& t[k].amount == row.amount
        },
{
    let pred = same_target_pred(row);
    lemma_first_match_in(rows, pred, rows.len() as int);
    match first_match(rows, pred) {
        Some(k) => {
            let u = TargetRow { amount: row.amount, updated_at: row.updated_at, ..rows[k] };
            let t = rows.update(k, u);
            assert forall|j: int| 0 <= j < k implies !pred(#[trigger] t[j]) by {
                assert(t[j] == rows[j]);
            }
            assert(pred(t[k]));
            lemma_first_match_is(t, pred, k);
        },
        None => {
            if !target_ids(rows).contains(row.id) {
                let t = rows.push(row);
                assert forall|j: int| 0 <= j < rows.len() implies !pred(#[trigger] t[j]) by {
                    assert(t[j] == rows[j]);
                }
                assert(pred(t[rows.len() as int]));
                lemma_first_match_is(t, pred, rows.len() as int);
            }
        },
    }
}

/// Setting the same target twice at the same time leaves the table as setting it once.
pub proof fn lemma_upsert_target_idempotent(rows: Seq<TargetRow>, row: TargetRow)
    requires
        target_key_given(row),
    ensures
        upserted_target(rows, row) matches Ok((t, r)) ==> upserted_target(t, row) == Ok::<(Seq<TargetRow>, TargetRow), BudgetError>((t, r)),
{
    lemma_upsert_target_reads_back(rows, row);
    if upserted_target(rows, row) is Ok {
        let (t, r) = upserted_target(rows, row).unwrap();
        let k = first_match(t, same_target_pred(row)).unwrap();
        lemma_first_match_in(t, same_target_pred(row), t.len() as int);
        lemma_first_match_in(rows, same_target_pred(row), rows.len() as int);
        let u = TargetRow { amount: row.amount, updated_at: row.updated_at, ..t[k] };
        assert(u == t[k]);
        assert(t.update(k, u) =~= t);
    }
}

/// The key fields a new rollover setting needs to be found again: the
/// taxonomy and category of a category setting, the group of a group setting.
pub open spec fn rollover_key_given(row: RolloverRow) -> bool {
    if row.target_type == "category"@ {
        row.taxonomy_id is Some && row.category_id is Some
    } else {
        row.target_type == "group"@ && row.group_id is Some
    }
}

/// Setting a rollover setting and then looking up the setting of its
/// category (or group) finds the values just set.
pub proof fn lemma_upsert_rollover_reads_back(rows: Seq<RolloverRow>, row: RolloverRow)
    requires
        rollover_key_given(row),
    ensures
        upserted_rollover(rows, row) matches Ok((t, r)) ==> {
            &&& first_match(t, same_rollover_pred(row)) matches Some(k)
            &&& t[k] == r
            &&& t[k].enabled == row.enabled
            &&& t[k].start_month == row.start_month
            &&& t[k].starting_balance == row.starting_balance
        },
{
    let pred = same_rollover_pred(row);
    lemma_first_match_in(rows, pred, rows.len() as int);
    match first_match(rows, pred) {
        Some(k) => {
            let u = RolloverRow {
                enabled: row.enabled,
                start_month: row.start_month,
                starting_balance: row.starting_balance,
                updated_at: row.updated_at,
                ..rows[k]
            };
            let t = rows.update(k, u);
            assert forall|j: int| 0 <= j < k implies !pred(#[trigger] t[j]) by {
                assert(t[j] == rows[j]);
            }
            assert(pred(t[k]));
            lemma_first_match_is(t, pred, k);
        },
        None => {
            if !rollover_ids(rows).contains(row.id) {
                let t = rows.push(row);
                assert forall|j: int| 0 <= j < rows.len() implies !pred(#[trigger] t[j]) by {
                    assert(t[j] == rows[j]);
                }
                assert(pred(t[rows.len() as int]));
                lemma_first_match_is(t, pred, rows.len() as int);
            }
        },
    }
}

/// Placing a category in a group and then looking up the category's
/// assignment finds that group and flag; placing it there again changes nothing.
pub proof fn lemma_upsert_assignment_reads_back(rows: Seq<AssignmentRow>, req: AssignmentRequest, is_system: i32, now: Seq<char>)
    ensures
        upsert_one(rows, req, is_system, now) matches Ok((t, r)) ==> {
            &&& first_match(t, same_category_pred(req)) matches Some(k)
            &&& t[k] == r
            &&& t[k].group_id == req.group_id
            &&& t[k].is_system == is_system
            &&& upsert_one(t, req, is_system, now) == Ok::<(Seq<AssignmentRow>, AssignmentRow), BudgetError>((t, r))
        },
{
    let pred = same_category_pred(req);
    lemma_first_match_in(rows, pred, rows.len() as int);
    match first_match(rows, pred) {
        Some(k) => {
            if !(rows[k].group_id == req.group_id && rows[k].is_system == is_system) {
                let u = AssignmentRow { group_id: req.group_id, is_system, updated_at: now, ..rows[k] };
                let t = rows.update(k, u);
                assert forall|j: int| 0 <= j < k implies !pred(#[trigger] t[j]) by {
                    assert(t[j] == rows[j]);
                }
                assert(pred(t[k]));
                lemma_first_match_is(t, pred, k);
            }
        },
        None => {
            let row = AssignmentRow {
                id: assignment_id_for(req),
                group_id: req.group_id,
                taxonomy_id: req.taxonomy_id,
                category_id: req.category_id,
                is_system,
                created_at: now,
                updated_at: now,
            };
            if !assignment_ids(rows).contains(row.id) {
                let t = rows.push(row);
                assert forall|j: int| 0 <= j < rows.len() implies !pred(#[trigger] t[j]) by {
                    assert(t[j] == rows[j]);
                }
                assert(pred(t[rows.len() as int]));
                lemma_first_match_is(t, pred, rows.len() as int);
            }
        },
    }
}

/// After deleting group `id` into group `dst`, nothing refers to `id`: the
/// group is gone, none of its categories stays with it, and it has no buffer.
pub proof fn lemma_delete_group_leaves_nothing(
    t: TablesView,
    id: Seq<char>,
    dst: Seq<char>,
    now: Seq<char>,
    ids: Seq<Seq<char>>,
)
    requires
        delete_group_check(t, id, dst) is Ok,
    ensures
        forall|k: int| 0 <= k < deleted_into(t, id, dst, now, ids).groups.len() ==> (#[trigger] deleted_into(t, id, dst, now, ids).groups[k]).id != id,
        forall|k: int| 0 <= k < deleted_into(t, id, dst, now, ids).assignments.len() ==> (#[trigger] deleted_into(t, id, dst, now, ids).assignments[k]).group_id != id,
        forall|k: int|
            0 <= k < deleted_into(t, id, dst, now, ids).targets.len() ==> !is_buffer_of(#[trigger] deleted_into(t, id, dst, now, ids).targets[k], id),
        deleted_into(t, id, dst, now, ids).assignments.len() == t.assignments.len(),
        deleted_into(t, id, dst, now, ids).rollovers == t.rollovers,
{
    let d = deleted_into(t, id, dst, now, ids);
    let keep = |g: GroupRow| g.id != id;
    assert forall|k: int| 0 <= k < d.groups.len() implies (#[trigger] d.groups[k]).id != id by {
        reveal(Seq::filter);
        t.groups.filter_lemma(keep);
    }
    lemma_delete_merges_buffers(t, id, dst, now, ids, "default"@);
}

/// Copying keeps every row already there and leaves a row under the
/// identifier of each copy made from the first `n` source rows.
pub proof fn lemma_copy_into_covers(base: Seq<TargetRow>, src: Seq<TargetRow>, p: Seq<char>, now: Seq<char>, n: int)
    requires
        0 <= n <= src.len(),
    ensures
        forall|x: int| 0 <= x < base.len() ==> copy_into(base, src, p, now, n).contains(#[trigger] base[x]),
        forall|k: int| 0 <= k < n ==> target_ids(copy_into(base, src, p, now, n)).contains(#[trigger] copied_row(src[k], p, now).id),
    decreases n,
{
    if n > 0 {
        lemma_copy_into_covers(base, src, p, now, n - 1);
        let prev = copy_into(base, src, p, now, n - 1);
        let cur = copy_into(base, src, p, now, n);
        let c = copied_row(src[n - 1], p, now);
        if !target_ids(prev).contains(c.id) {
            assert(cur == prev.push(c));
            assert forall|x: int| 0 <= x < base.len() implies cur.contains(#[trigger] base[x]) by {
                let j = choose|j: int| 0 <= j < prev.len() && prev[j] == base[x];
                assert(cur[j] == prev[j]);
            }
            assert forall|k: int| 0 <= k < n implies target_ids(cur).contains(#[trigger] copied_row(src[k], p, now).id) by {
                if k < n - 1 {
                    let j = choose|j: int| 0 <= j < target_ids(prev).len() && target_ids(prev)[j] == copied_row(src[k], p, now).id;
                    assert(target_ids(cur)[j] == target_ids(prev)[j]);
                } else {
                    assert(target_ids(cur)[prev.len() as int] == c.id);
                }
            }
        }
    }
}

/// After copying month `source` into month `target`, each target of
/// `source` has a row under the identifier its copy gets in `target`; without
/// `overwrite`, every row there before is still there.
pub proof fn lemma_copy_covers_source(rows: Seq<TargetRow>, source: Seq<char>, target: Seq<char>, overwrite: bool, now: Seq<char>)
    ensures
        forall|k: int|
            0 <= k < rows.len() && rows[k].period_key == source ==> target_ids(copied_targets(rows, source, target, overwrite, now)).contains(
                #[trigger] copied_row(rows[k], target, now).id,
            ),
        !overwrite ==> forall|x: int| 0 <= x < rows.len() ==> copied_targets(rows, source, target, overwrite, now).contains(#[trigger] rows[x]),
{
    let src = rows.filter(period_filter(source, true));
    let base = if overwrite {
        rows.filter(period_filter(target, false))
    } else {
        rows
    };
    lemma_copy_into_covers(base, src, target, now, src.len() as int);
    assert forall|k: int|
        0 <= k < rows.len() && rows[k].period_key == source implies target_ids(copied_targets(rows, source, target, overwrite, now)).contains(
            #[trigger] copied_row(rows[k], target, now).id,
        ) by {
        rows.filter_lemma(period_filter(source, true));
        assert(period_filter(source, true)(rows[k]));
        assert(src.contains(rows[k]));
        let j = choose|j: int| 0 <= j < src.len() && src[j] == rows[k];
        assert(copied_row(src[j], target, now) == copied_row(rows[k], target, now));
    }
}

/// Filtering by a test that every element passes changes nothing.
pub proof fn lemma_filter_all<T>(s: Seq<T>, p: spec_fn(T) -> bool)
    requires
        forall|i: int| 0 <= i < s.len() ==> p(#[trigger] s[i]),
    ensures
        s.filter(p) == s,
    decreases s.len(),
{
    reveal(Seq::filter);
    if s.len() > 0 {
        lemma_filter_all(s.drop_last(), p);
        assert(p(s[s.len() - 1]));
        assert(s.drop_last().push(s.last()) =~= s);
    }
}

/// Setting a target that is new and then deleting it by its identifier gives
/// back the table as it was.
pub proof fn lemma_insert_then_delete_target(rows: Seq<TargetRow>, row: TargetRow)
    requires
        first_match(rows, same_target_pred(row)) is None,
    ensures
        upserted_target(rows, row) matches Ok((t, r)) ==> t.filter(|x: TargetRow| x.id != r.id) == rows,
{
    if upserted_target(rows, row) is Ok {
        let t = rows.push(row);
        let keep = |x: TargetRow| x.id != row.id;
        assert forall|i: int| 0 <= i < rows.len() implies keep(#[trigger] rows[i]) by {
            assert(target_ids(rows)[i] == rows[i].id);
        }
        lemma_filter_all(rows, keep);
        reveal(Seq::filter);
        assert(t.drop_last() =~= rows);
    }
}

/// Filtering after mapping by a function that keeps the test is mapping
/// after filtering.
pub proof fn lemma_filter_map<T>(s: Seq<T>, p: spec_fn(T) -> bool, g: spec_fn(T) -> T)
    requires
        forall|x: T| #[trigger] p(g(x)) == p(x),
    ensures
        s.map_values(g).filter(p) == s.filter(p).map_values(g),
    decreases s.len(),
{
    reveal(Seq::filter);
    if s.len() > 0 {
        let t = s.drop_last();
        lemma_filter_map(t, p, g);
        assert(s.map_values(g).drop_last() =~= t.map_values(g));
        assert(s.map_values(g).last() == g(s.last()));
        if p(s.last()) {
            assert(s.filter(p).map_values(g) =~= t.filter(p).map_values(g).push(g(s.last())));
        } else {
            assert(s.filter(p).map_values(g) =~= t.filter(p).map_values(g));
        }
    } else {
        assert(s.map_values(g).filter(p) =~= Seq::<T>::empty());
        assert(s.filter(p).map_values(g) =~= Seq::<T>::empty());
    }
}

/// A setting with its change stamp set to `now`.
pub open spec fn restamped(r: RolloverRow, now: Seq<char>) -> RolloverRow {
    RolloverRow { updated_at: now, ..r }
}

/// Turning off the same categories' settings a second time, whenever,
/// is turning them off once at that later time: the same settings come back,
/// still off, equal to those of the first call but for their change stamps.
pub proof fn lemma_disable_twice(
    rows: Seq<RolloverRow>,
    taxonomy_id: Seq<char>,
    category_ids: Seq<Seq<char>>,
    now1: Seq<char>,
    now2: Seq<char>,
)
    ensures
        disabled_rollovers(disabled_rollovers(rows, taxonomy_id, category_ids, now1), taxonomy_id, category_ids, now2)
            == disabled_rollovers(rows, taxonomy_id, category_ids, now2),
        disabled_rollovers(disabled_rollovers(rows, taxonomy_id, category_ids, now1), taxonomy_id, category_ids, now2).filter(
            category_rollover_pred(taxonomy_id, category_ids),
        ) == disabled_rollovers(rows, taxonomy_id, category_ids, now1).filter(
            category_rollover_pred(taxonomy_id, category_ids),
        ).map_values(|r: RolloverRow| restamped(r, now2)),
        forall|i: int|
            0 <= i < disabled_rollovers(rows, taxonomy_id, category_ids, now1).filter(
                category_rollover_pred(taxonomy_id, category_ids),
            ).len() ==> (#[trigger] disabled_rollovers(rows, taxonomy_id, category_ids, now1).filter(
                category_rollover_pred(taxonomy_id, category_ids),
            )[i]).enabled == 0,
{
    let once = disabled_rollovers(rows, taxonomy_id, category_ids, now1);
    let pred = category_rollover_pred(taxonomy_id, category_ids);
    let g = |x: RolloverRow| disabled(x, taxonomy_id, category_ids, now2);
    assert(disabled_rollovers(once, taxonomy_id, category_ids, now2) =~= disabled_rollovers(rows, taxonomy_id, category_ids, now2));
    assert(disabled_rollovers(once, taxonomy_id, category_ids, now2) == once.map_values(g));
    assert forall|x: RolloverRow| #[trigger] pred(g(x)) == pred(x) by {}
    lemma_filter_map(once, pred, g);
    let f = once.filter(pred);
    once.filter_lemma(pred);
    assert forall|i: int| 0 <= i < f.len() implies (#[trigger] f[i]).enabled == 0 by {
        assert(f.contains(f[i]));
        once.lemma_filter_contains_rev(pred, f[i]);
        assert(pred(f[i]));
        let k = choose|k: int| 0 <= k < once.len() && once[k] == f[i];
        assert(once[k] == disabled(rows[k], taxonomy_id, category_ids, now1));
    }
    assert(f.map_values(g) =~= f.map_values(|r: RolloverRow| restamped(r, now2)));
}

/// No two assignments are for the same taxonomy and category.
pub open spec fn categories_unique(rows: Seq<AssignmentRow>) -> bool {
    forall|i: int, j: int|
        0 <= i < rows.len() && 0 <= j < rows.len() && i != j ==> !(#[trigger] rows[i].taxonomy_id == #[trigger] rows[j].taxonomy_id
            && rows[i].category_id == rows[j].category_id)
}

/// Placing a category in a group keeps one assignment per category.
pub proof fn lemma_upsert_keeps_categories_unique(rows: Seq<AssignmentRow>, req: AssignmentRequest, is_system: i32, now: Seq<char>)
    requires
        categories_unique(rows),
    ensures
        upsert_one(rows, req, is_system, now) matches Ok((t, r)) ==> categories_unique(t),
{
    let pred = same_category_pred(req);
    lemma_first_match_in(rows, pred, rows.len() as int);
    if upsert_one(rows, req, is_system, now) is Ok {
        let t = upsert_one(rows, req, is_system, now).unwrap().0;
        match first_match(rows, pred) {
            Some(k) => {
                assert forall|i: int, j: int|
                    0 <= i < t.len() && 0 <= j < t.len() && i != j implies !(#[trigger] t[i].taxonomy_id == #[trigger] t[j].taxonomy_id
                        && t[i].category_id == t[j].category_id) by {
                    assert(t[i].taxonomy_id == rows[i].taxonomy_id && t[i].category_id == rows[i].category_id);
                    assert(t[j].taxonomy_id == rows[j].taxonomy_id && t[j].category_id == rows[j].category_id);
                    assert(rows[i].taxonomy_id == rows[i].taxonomy_id);
                }
            },
            None => {
                assert forall|i: int, j: int|
                    0 <= i < t.len() && 0 <= j < t.len() && i != j implies !(#[trigger] t[i].taxonomy_id == #[trigger] t[j].taxonomy_id
                        && t[i].category_id == t[j].category_id) by {
                    if i < rows.len() && j < rows.len() {
                        assert(t[i] == rows[i] && t[j] == rows[j]);
                    } else if i < rows.len() {
                        assert(t[i] == rows[i]);
                        assert(!pred(rows[i]));
                    } else {
                        assert(t[j] == rows[j]);
                        assert(!pred(rows[j]));
                    }
                }
            },
        }
    }
}

/// No stored target that has its key fields is matched by another row as the
/// same target: one target per month and category, one buffer per month and group.
pub open spec fn target_keys_unique(rows: Seq<TargetRow>) -> bool {
    forall|i: int, j: int|
        0 <= i < rows.len() && 0 <= j < rows.len() && i != j && target_key_given(#[trigger] rows[i]) ==> !same_target(
            #[trigger] rows[j],
            rows[i],
        )
}

/// Setting a target keeps one target per key.
pub proof fn lemma_upsert_keeps_target_keys_unique(rows: Seq<TargetRow>, row: TargetRow)
    requires
        target_keys_unique(rows),
    ensures
        upserted_target(rows, row) matches Ok((t, r)) ==> target_keys_unique(t),
{
    let pred = same_target_pred(row);
    lemma_first_match_in(rows, pred, rows.len() as int);
    if upserted_target(rows, row) is Ok {
        let t = upserted_target(rows, row).unwrap().0;
        match first_match(rows, pred) {
            Some(k) => {
                assert forall|i: int, j: int|
                    0 <= i < t.len() && 0 <= j < t.len() && i != j && target_key_given(#[trigger] t[i]) implies !same_target(
                        #[trigger] t[j],
                        t[i],
                    ) by {
                    assert(target_key_given(rows[i]) == target_key_given(t[i]));
                    assert(same_target(t[j], t[i]) == same_target(rows[j], rows[i]));
                }
            },
            None => {
                assert forall|i: int, j: int|
                    0 <= i < t.len() && 0 <= j < t.len() && i != j && target_key_given(#[trigger] t[i]) implies !same_target(
                        #[trigger] t[j],
                        t[i],
                    ) by {
                    if i < rows.len() && j < rows.len() {
                        assert(t[i] == rows[i] && t[j] == rows[j]);
                    } else if i < rows.len() {
                        assert(t[i] == rows[i]);
                        assert(t[j] == row);
                        assert(!pred(rows[i]));
                    } else {
                        assert(t[j] == rows[j]);
                        assert(t[i] == row);
                        assert(!pred(rows[j]));
                    }
                }
            },
        }
    }
}

/// No stored rollover setting that has its key fields is matched by another
/// row as the same setting: one setting per category, one per group.
pub open spec fn rollover_keys_unique(rows: Seq<RolloverRow>) -> bool {
    forall|i: int, j: int|
        0 <= i < rows.len() && 0 <= j < rows.len() && i != j && rollover_key_given(#[trigger] rows[i]) ==> !same_rollover(
            #[trigger] rows[j],
            rows[i],
        )
}

/// Setting a rollover keeps one setting per key.
pub proof fn lemma_upsert_keeps_rollover_keys_unique(rows: Seq<RolloverRow>, row: RolloverRow)
    requires
        rollover_keys_unique(rows),
    ensures
        upserted_rollover(rows, row) matches Ok((t, r)) ==> rollover_keys_unique(t),
{
    let pred = same_rollover_pred(row);
    lemma_first_match_in(rows, pred, rows.len() as int);
    if upserted_rollover(rows, row) is Ok {
        let t = upserted_rollover(rows, row).unwrap().0;
        match first_match(rows, pred) {
            Some(k) => {
                assert forall|i: int, j: int|
                    0 <= i < t.len() && 0 <= j < t.len() && i != j && rollover_key_given(#[trigger] t[i]) implies !same_rollover(
                        #[trigger] t[j],
                        t[i],
                    ) by {
                    assert(rollover_key_given(rows[i]) == rollover_key_given(t[i]));
                    assert(same_rollover(t[j], t[i]) == same_rollover(rows[j], rows[i]));
                }
            },
            None => {
                assert forall|i: int, j: int|
                    0 <= i < t.len() && 0 <= j < t.len() && i != j && rollover_key_given(#[trigger] t[i]) implies !same_rollover(
                        #[trigger] t[j],
                        t[i],
                    ) by {
                    if i < rows.len() && j < rows.len() {
                        assert(t[i] == rows[i] && t[j] == rows[j]);
                    } else if i < rows.len() {
                        assert(t[i] == rows[i]);
                        assert(t[j] == row);
                        assert(!pred(rows[i]));
                    } else {
                        assert(t[j] == rows[j]);
                        assert(t[i] == row);
                        assert(!pred(rows[j]));
                    }
                }
            },
        }
    }
}

/// Every row after copying into month `p` was there before or is in month `p`.
pub proof fn lemma_copy_into_rows(base: Seq<TargetRow>, src: Seq<TargetRow>, p: Seq<char>, now: Seq<char>, n: int)
    ensures
        forall|x: int|
            0 <= x < copy_into(base, src, p, now, n).len() ==> base.contains(#[trigger] copy_into(base, src, p, now, n)[x])
                || copy_into(base, src, p, now, n)[x].period_key == p,
    decreases n,
{
    if n > 0 {
        lemma_copy_into_rows(base, src, p, now, n - 1);
        let prev = copy_into(base, src, p, now, n - 1);
        let cur = copy_into(base, src, p, now, n);
        assert forall|x: int| 0 <= x < cur.len() implies base.contains(#[trigger] cur[x]) || cur[x].period_key == p by {
            if x < prev.len() {
                assert(cur[x] == prev[x]);
            }
        }
    }
}

/// Copying rows whose copies are all there already changes nothing.
pub proof fn lemma_copy_into_nothing_new(base: Seq<TargetRow>, src: Seq<TargetRow>, p: Seq<char>, now: Seq<char>, n: int)
    requires
        0 <= n <= src.len(),
        forall|k: int| 0 <= k < n ==> target_ids(base).contains(#[trigger] copied_row(src[k], p, now).id),
    ensures
        copy_into(base, src, p, now, n) == base,
    decreases n,
{
    if n > 0 {
        lemma_copy_into_nothing_new(base, src, p, now, n - 1);
        assert(target_ids(base).contains(copied_row(src[n - 1], p, now).id));
    }
}

/// Copying a month into another month a second time, without overwriting,
/// changes nothing, whenever the second copy is made.
pub proof fn lemma_copy_twice(rows: Seq<TargetRow>, source: Seq<char>, target: Seq<char>, now1: Seq<char>, now2: Seq<char>)
    requires
        source != target,
    ensures
        copied_targets(copied_targets(rows, source, target, false, now1), source, target, false, now2) == copied_targets(
            rows,
            source,
            target,
            false,
            now1,
        ),
{
    let src0 = rows.filter(period_filter(source, true));
    let r1 = copied_targets(rows, source, target, false, now1);
    let src1 = r1.filter(period_filter(source, true));
    lemma_copy_into_rows(rows, src0, target, now1, src0.len() as int);
    lemma_copy_covers_source(rows, source, target, false, now1);
    r1.filter_lemma(period_filter(source, true));
    assert forall|k: int| 0 <= k < src1.len() implies target_ids(r1).contains(#[trigger] copied_row(src1[k], target, now2).id) by {
        assert(src1.contains(src1[k]));
        r1.lemma_filter_contains_rev(period_filter(source, true), src1[k]);
        assert(r1.contains(src1[k]));
        let x = choose|x: int| 0 <= x < r1.len() && r1[x] == src1[k];
        assert(period_filter(source, true)(src1[k]));
        assert(rows.contains(r1[x]) || r1[x].period_key == target);
        let j = choose|j: int| 0 <= j < rows.len() && rows[j] == src1[k];
        assert(rows[j].period_key == source);
        assert(copied_row(rows[j], target, now1).id == copied_row(src1[k], target, now2).id);
    }
    lemma_copy_into_nothing_new(r1, src1, target, now2, src1.len() as int);
}

/// Every kept row has the identifier of a row that was not a buffer of `src`.
pub proof fn lemma_kept_origin(rows: Seq<TargetRow>, src: Seq<char>, dst: Seq<char>, now: Seq<char>, n: int)
    requires
        0 <= n <= rows.len(),
    ensures
        forall|x: int|
            0 <= x < kept_targets_in(rows, src, dst, now, n).len() ==> exists|j: int|
                0 <= j < n && !is_buffer_of(rows[j], src) && #[trigger] kept_targets_in(rows, src, dst, now, n)[x].id
                    == rows[j].id,
    decreases n,
{
    if n > 0 {
        lemma_kept_origin(rows, src, dst, now, n - 1);
        let prev = kept_targets_in(rows, src, dst, now, n - 1);
        let cur = kept_targets_in(rows, src, dst, now, n);
        assert forall|x: int| 0 <= x < cur.len() implies exists|j: int|
            0 <= j < n && !is_buffer_of(rows[j], src) && #[trigger] cur[x].id == rows[j].id by {
            if x < prev.len() {
                assert(cur[x] == prev[x]);
                let j = choose|j: int| 0 <= j < n - 1 && !is_buffer_of(rows[j], src) && prev[x].id == rows[j].id;
                assert(cur[x].id == rows[j].id);
            } else {
                assert(cur[x].id == rows[n - 1].id);
            }
        }
    }
}

/// After deleting group `id` with fresh identifiers for new buffer rows, no
/// target keeps the identifier of one of `id`'s buffers: each of them is gone.
pub proof fn lemma_delete_group_drops_source_ids(
    t: TablesView,
    id: Seq<char>,
    dst: Seq<char>,
    now: Seq<char>,
    ids: Seq<Seq<char>>,
)
    requires
        t.wf(),
        fresh_ids(ids, t.targets),
        ids.len() >= new_buffer_count(t.targets, id, dst),
    ensures
        forall|k: int|
            0 <= k < t.targets.len() && is_buffer_of(#[trigger] t.targets[k], id) ==> !target_ids(
                deleted_into(t, id, dst, now, ids).targets,
            ).contains(t.targets[k].id),
{
    let rows = t.targets;
    let n = rows.len() as int;
    let kept = kept_targets_in(rows, id, dst, now, n);
    let fresh = new_buffers_in(rows, id, dst, now, ids, n);
    let all = deleted_into(t, id, dst, now, ids).targets;
    lemma_kept_origin(rows, id, dst, now, n);
    lemma_new_buffer_ids(rows, id, dst, now, ids, n);
    lemma_new_buffers_len(rows, id, dst, now, ids, n);
    assert(all == kept + fresh);
    assert forall|k: int| 0 <= k < rows.len() && is_buffer_of(#[trigger] rows[k], id) implies !target_ids(all).contains(rows[k].id) by {
        if target_ids(all).contains(rows[k].id) {
            let q = choose|q: int| 0 <= q < target_ids(all).len() && target_ids(all)[q] == rows[k].id;
            if q < kept.len() {
                assert(all[q] == kept[q]);
                let j = choose|j: int| 0 <= j < n && !is_buffer_of(rows[j], id) && #[trigger] kept[q].id == rows[j].id;
                assert(target_ids(rows)[j] == rows[j].id && target_ids(rows)[k] == rows[k].id);
            } else {
                assert(all[q] == fresh[q - kept.len()]);
                assert(target_ids(fresh)[q - kept.len()] == ids[q - kept.len()]);
                assert(target_ids(rows)[k] == rows[k].id);
                assert(!target_ids(rows).contains(ids[q - kept.len()]));
            }
        }
    }
}

/// Setting the same target a second time, whenever, finds the row the first
/// call stored: it keeps its identifier, amount and creation stamp, no row is
/// added, and only its change stamp moves.
pub proof fn lemma_upsert_target_again(rows: Seq<TargetRow>, req: TargetRequest, now1: Seq<char>, now2: Seq<char>)
    requires
        target_key_given(new_target_row(req, now1)),
    ensures
        upserted_target(rows, new_target_row(req, now1)) matches Ok((t, r)) ==> upserted_target(
            t,
            new_target_row(req, now2),
        ) matches Ok((t2, r2)) && {
            &&& r2 == (TargetRow { updated_at: now2, ..r })
            &&& first_match(t, same_target_pred(new_target_row(req, now1))) matches Some(k)
            &&& t[k] == r
            &&& t2 == t.update(k, r2)
        },
{
    let row1 = new_target_row(req, now1);
    let row2 = new_target_row(req, now2);
    assert(same_target_pred(row2) =~= same_target_pred(row1));
    lemma_upsert_target_reads_back(rows, row1);
}

/// Setting the same rollover setting a second time, whenever, finds the
/// row the first call stored: it keeps its identifier, values and creation
/// stamp, no row is added, and only its change stamp moves.
pub proof fn lemma_upsert_rollover_again(rows: Seq<RolloverRow>, req: RolloverRequest, now1: Seq<char>, now2: Seq<char>)
    requires
        rollover_key_given(new_rollover_row(req, now1)),
    ensures
        upserted_rollover(rows, new_rollover_row(req, now1)) matches Ok((t, r)) ==> upserted_rollover(
            t,
            new_rollover_row(req, now2),
        ) matches Ok((t2, r2)) && {
            &&& r2 == (RolloverRow { updated_at: now2, ..r })
            &&& first_match(t, same_rollover_pred(new_rollover_row(req, now1))) matches Some(k)
            &&& t[k] == r
            &&& t2 == t.update(k, r2)
        },
{
    let row1 = new_rollover_row(req, now1);
    let row2 = new_rollover_row(req, now2);
    assert(same_rollover_pred(row2) =~= same_rollover_pred(row1));
    lemma_upsert_rollover_reads_back(rows, row1);
}

/// Whether some row is the assignment of the given taxonomy and category.
pub open spec fn has_category(rows: Seq<AssignmentRow>, taxonomy_id: Seq<char>, category_id: Seq<char>) -> bool {
    exists|i: int| 0 <= i < rows.len() && rows[i].taxonomy_id == taxonomy_id && rows[i].category_id == category_id
}

/// Whether one of the first `n` requests is for the given taxonomy and category.
pub open spec fn requested_category(reqs: Seq<AssignmentRequest>, n: int, taxonomy_id: Seq<char>, category_id: Seq<char>) -> bool {
    exists|j: int| 0 <= j < n && reqs[j].taxonomy_id == taxonomy_id && reqs[j].category_id == category_id
}

/// Whether request `i` is for a category that has no assignment in `rows`
/// and that no earlier request names.
pub open spec fn opens_category(rows: Seq<AssignmentRow>, reqs: Seq<AssignmentRequest>, i: int) -> bool {
    &&& !has_category(rows, reqs[i].taxonomy_id, reqs[i].category_id)
    &&& !requested_category(reqs, i, reqs[i].taxonomy_id, reqs[i].category_id)
}

/// How many distinct categories the first `n` requests name that have no
/// assignment in `rows`.
pub open spec fn new_category_count(rows: Seq<AssignmentRow>, reqs: Seq<AssignmentRequest>, n: int) -> nat
    decreases n,
{
    if n <= 0 {
        0
    } else {
        new_category_count(rows, reqs, n - 1) + if opens_category(rows, reqs, n - 1) {
            1nat
        } else {
            0nat
        }
    }
}

/// Whether the search for a category's assignment finds one.
proof fn lemma_found_category(rows: Seq<AssignmentRow>, req: AssignmentRequest)
    ensures
        (first_match(rows, same_category_pred(req)) is Some) == has_category(rows, req.taxonomy_id, req.category_id),
{
    let pred = same_category_pred(req);
    lemma_first_match_in(rows, pred, rows.len() as int);
    if has_category(rows, req.taxonomy_id, req.category_id) {
        let i = choose|i: int| 0 <= i < rows.len() && rows[i].taxonomy_id == req.taxonomy_id && rows[i].category_id == req.category_id;
        assert(pred(rows[i]));
    }
}

/// A batch of placements adds one assignment for each distinct category it
/// names that had none, however often the batch names it: afterwards the
/// categories with an assignment are those that had one and those named,
/// and one assignment per category is kept.
pub proof fn lemma_upsert_all_counts(
    rows: Seq<AssignmentRow>,
    reqs: Seq<AssignmentRequest>,
    is_system: i32,
    now: Seq<char>,
    n: int,
)
    requires
        0 <= n <= reqs.len(),
    ensures
        upsert_all(rows, reqs, is_system, now, n) matches Ok((t, out)) ==> {
            &&& t.len() == rows.len() + new_category_count(rows, reqs, n)
            &&& forall|taxonomy_id: Seq<char>, category_id: Seq<char>|
                #[trigger] has_category(t, taxonomy_id, category_id) == (has_category(rows, taxonomy_id, category_id)
                    || requested_category(reqs, n, taxonomy_id, category_id))
            &&& categories_unique(rows) ==> categories_unique(t)
        },
    decreases n,
{
    if n > 0 {
        lemma_upsert_all_counts(rows, reqs, is_system, now, n - 1);
        if let Ok((t0, out0)) = upsert_all(rows, reqs, is_system, now, n - 1) {
            let req = reqs[n - 1];
            let pred = same_category_pred(req);
            lemma_found_category(t0, req);
            lemma_first_match_in(t0, pred, t0.len() as int);
            if categories_unique(rows) {
                lemma_upsert_keeps_categories_unique(t0, req, is_system, now);
            }
            assert(opens_category(rows, reqs, n - 1) == !has_category(t0, req.taxonomy_id, req.category_id));
            if let Ok((t1, r)) = upsert_one(t0, req, is_system, now) {
                assert forall|taxonomy_id: Seq<char>, category_id: Seq<char>|
                    #[trigger] has_category(t1, taxonomy_id, category_id) == (has_category(rows, taxonomy_id, category_id)
                        || requested_category(reqs, n, taxonomy_id, category_id)) by {
                    let named = taxonomy_id == req.taxonomy_id && category_id == req.category_id;
                    if requested_category(reqs, n, taxonomy_id, category_id) && !named {
                        let j = choose|j: int|
                            0 <= j < n && reqs[j].taxonomy_id == taxonomy_id && reqs[j].category_id == category_id;
                        assert(requested_category(reqs, n - 1, taxonomy_id, category_id));
                    }
                    if requested_category(reqs, n - 1, taxonomy_id, category_id) {
                        let j = choose|j: int|
                            0 <= j < n - 1 && reqs[j].taxonomy_id == taxonomy_id && reqs[j].category_id == category_id;
                        assert(requested_category(reqs, n, taxonomy_id, category_id));
                    }
                    if named {
                        assert(requested_category(reqs, n, taxonomy_id, category_id));
                    }
                    match first_match(t0, pred) {
                        Some(k) => {
                            assert forall|i: int| 0 <= i < t1.len() implies #[trigger] t1[i].taxonomy_id == t0[i].taxonomy_id
                                && t1[i].category_id == t0[i].category_id by {}
                            if has_category(t1, taxonomy_id, category_id) {
                                let i = choose|i: int|
                                    0 <= i < t1.len() && t1[i].taxonomy_id == taxonomy_id && t1[i].category_id == category_id;
                                assert(t0[i].taxonomy_id == taxonomy_id && t0[i].category_id == category_id);
                            }
                            if has_category(t0, taxonomy_id, category_id) {
                                let i = choose|i: int|
                                    0 <= i < t0.len() && t0[i].taxonomy_id == taxonomy_id && t0[i].category_id == category_id;
                                assert(t1[i].taxonomy_id == taxonomy_id && t1[i].category_id == category_id);
                            }
                            if named {
                                assert(pred(t0[k]));
                                assert(t1[k].taxonomy_id == taxonomy_id && t1[k].category_id == category_id);
                            }
                        },
                        None => {
                            assert(t1 == t0.push(r));
                            if has_category(t1, taxonomy_id, category_id) {
                                let i = choose|i: int|
                                    0 <= i < t1.len() && t1[i].taxonomy_id == taxonomy_id && t1[i].category_id == category_id;
                                if i < t0.len() {
                                    assert(t0[i] == t1[i]);
                                }
                            }
                            if has_category(t0, taxonomy_id, category_id) {
                                let i = choose|i: int|
                                    0 <= i < t0.len() && t0[i].taxonomy_id == taxonomy_id && t0[i].category_id == category_id;
                                assert(t1[i] == t0[i]);
                            }
                            if named {
                                assert(t1[t0.len() as int] == r);
                            }
                        },
                    }
                }
            }
        }
    }
}

/// Whether two targets agree on kind, month, taxonomy, category and group.
pub open spec fn same_key(a: TargetRow, b: TargetRow) -> bool {
    &&& a.target_type == b.target_type
    &&& a.period_key == b.period_key
    &&& a.taxonomy_id == b.taxonomy_id
    &&& a.category_id == b.category_id
    &&& a.group_id == b.group_id
}

/// Every kept row has the key of an earlier row that was not a buffer of `src`.
proof fn lemma_kept_key_origin(rows: Seq<TargetRow>, src: Seq<char>, dst: Seq<char>, now: Seq<char>, n: int)
    requires
        0 <= n <= rows.len(),
    ensures
        forall|x: int|
            0 <= x < kept_targets_in(rows, src, dst, now, n).len() ==> exists|j: int|
                0 <= j < n && !is_buffer_of(rows[j], src) && same_key(
                    #[trigger] kept_targets_in(rows, src, dst, now, n)[x],
                    rows[j],
                ),
    decreases n,
{
    if n > 0 {
        lemma_kept_key_origin(rows, src, dst, now, n - 1);
        let prev = kept_targets_in(rows, src, dst, now, n - 1);
        let cur = kept_targets_in(rows, src, dst, now, n);
        assert forall|x: int| 0 <= x < cur.len() implies exists|j: int|
            0 <= j < n && !is_buffer_of(rows[j], src) && same_key(#[trigger] cur[x], rows[j]) by {
            if x < prev.len() {
                assert(cur[x] == prev[x]);
                let j = choose|j: int| 0 <= j < n - 1 && !is_buffer_of(rows[j], src) && same_key(prev[x], rows[j]);
                assert(same_key(cur[x], rows[j]));
            } else {
                assert(same_key(cur[x], rows[n - 1]));
            }
        }
    }
}

/// The kept rows keep one target per key.
proof fn lemma_kept_keys(rows: Seq<TargetRow>, src: Seq<char>, dst: Seq<char>, now: Seq<char>, n: int)
    requires
        0 <= n <= rows.len(),
        target_keys_unique(rows),
    ensures
        target_keys_unique(kept_targets_in(rows, src, dst, now, n)),
    decreases n,
{
    if n > 0 {
        lemma_kept_keys(rows, src, dst, now, n - 1);
        lemma_kept_key_origin(rows, src, dst, now, n - 1);
        let prev = kept_targets_in(rows, src, dst, now, n - 1);
        let cur = kept_targets_in(rows, src, dst, now, n);
        let r = rows[n - 1];
        if !is_buffer_of(r, src) {
            assert(cur.len() == prev.len() + 1);
            assert(same_key(cur[prev.len() as int], r));
            assert forall|a: int, b: int|
                0 <= a < cur.len() && 0 <= b < cur.len() && a != b && target_key_given(#[trigger] cur[a]) implies !same_target(
                    #[trigger] cur[b],
                    cur[a],
                ) by {
                if a < prev.len() && b < prev.len() {
                    assert(cur[a] == prev[a] && cur[b] == prev[b]);
                } else if a < prev.len() {
                    assert(cur[a] == prev[a]);
                    let j = choose|j: int| 0 <= j < n - 1 && !is_buffer_of(rows[j], src) && same_key(prev[a], rows[j]);
                    assert(target_key_given(rows[j]));
                    assert(!same_target(rows[n - 1], rows[j]));
                } else {
                    assert(cur[b] == prev[b]);
                    let j = choose|j: int| 0 <= j < n - 1 && !is_buffer_of(rows[j], src) && same_key(prev[b], rows[j]);
                    assert(target_key_given(rows[n - 1]));
                    assert(!same_target(rows[j], rows[n - 1]));
                }
            }
        } else {
            assert(cur == prev);
        }
    }
}

/// Whether the first buffer of `src` for period `p` is among the first `n` rows.
pub open spec fn src_first_before(rows: Seq<TargetRow>, src: Seq<char>, p: Seq<char>, n: int) -> bool {
    buffer_for(rows, src, p) matches Some(k) && k < n
}

/// The new buffer rows are buffers of `dst` for periods that `dst` had no
/// buffer for, each period at most once.
proof fn lemma_new_buffer_keys(
    rows: Seq<TargetRow>,
    src: Seq<char>,
    dst: Seq<char>,
    now: Seq<char>,
    ids: Seq<Seq<char>>,
    n: int,
)
    requires
        0 <= n <= rows.len(),
    ensures
        forall|x: int|
            0 <= x < new_buffers_in(rows, src, dst, now, ids, n).len() ==> {
                let b = #[trigger] new_buffers_in(rows, src, dst, now, ids, n)[x];
                &&& is_buffer_of(b, dst)
                &&& b.taxonomy_id is None
                &&& b.category_id is None
                &&& buffer_for(rows, dst, b.period_key) is None
                &&& src_first_before(rows, src, b.period_key, n)
            },
        forall|x: int, y: int|
            0 <= x < new_buffers_in(rows, src, dst, now, ids, n).len() && 0 <= y < new_buffers_in(rows, src, dst, now, ids, n).len()
                && x != y ==> #[trigger] new_buffers_in(rows, src, dst, now, ids, n)[x].period_key
                != #[trigger] new_buffers_in(rows, src, dst, now, ids, n)[y].period_key,
    decreases n,
{
    if n > 0 {
        lemma_new_buffer_keys(rows, src, dst, now, ids, n - 1);
        let prev = new_buffers_in(rows, src, dst, now, ids, n - 1);
        let cur = new_buffers_in(rows, src, dst, now, ids, n);
        if opens_new_buffer(rows, src, dst, n - 1) {
            let p = rows[n - 1].period_key;
            assert(cur.len() == prev.len() + 1);
            assert forall|x: int| 0 <= x < cur.len() implies {
                let b = #[trigger] cur[x];
                &&& is_buffer_of(b, dst)
                &&& b.taxonomy_id is None
                &&& b.category_id is None
                &&& buffer_for(rows, dst, b.period_key) is None
                &&& src_first_before(rows, src, b.period_key, n)
            } by {
                if x < prev.len() {
                    assert(cur[x] == prev[x]);
                }
            }
            assert forall|x: int, y: int|
                0 <= x < cur.len() && 0 <= y < cur.len() && x != y implies #[trigger] cur[x].period_key
                    != #[trigger] cur[y].period_key by {
                if x < prev.len() && y < prev.len() {
                    assert(cur[x] == prev[x] && cur[y] == prev[y]);
                } else if x < prev.len() {
                    assert(cur[x] == prev[x]);
                    assert(cur[y].period_key == p);
                    assert(src_first_before(rows, src, prev[x].period_key, n - 1));
                } else {
                    assert(cur[y] == prev[y]);
                    assert(cur[x].period_key == p);
                    assert(src_first_before(rows, src, prev[y].period_key, n - 1));
                }
            }
        } else {
            assert(cur == prev);
        }
    }
}

/// Merging the buffers of `src` into those of `dst` keeps one target per
/// month and category and one buffer per month and group.
pub proof fn lemma_merge_keeps_target_keys_unique(
    rows: Seq<TargetRow>,
    src: Seq<char>,
    dst: Seq<char>,
    now: Seq<char>,
    ids: Seq<Seq<char>>,
)
    requires
        target_keys_unique(rows),
    ensures
        target_keys_unique(merged_targets(rows, src, dst, now, ids)),
{
    let n = rows.len() as int;
    let kept = kept_targets_in(rows, src, dst, now, n);
    let fresh = new_buffers_in(rows, src, dst, now, ids, n);
    let all = merged_targets(rows, src, dst, now, ids);
    lemma_kept_keys(rows, src, dst, now, n);
    lemma_kept_key_origin(rows, src, dst, now, n);
    lemma_new_buffer_keys(rows, src, dst, now, ids, n);
    assert(all == kept + fresh);
    assert forall|a: int, b: int|
        0 <= a < all.len() && 0 <= b < all.len() && a != b && target_key_given(#[trigger] all[a]) implies !same_target(
            #[trigger] all[b],
            all[a],
        ) by {
        if a < kept.len() && b < kept.len() {
            assert(all[a] == kept[a] && all[b] == kept[b]);
        } else if a >= kept.len() && b >= kept.len() {
            assert(all[a] == fresh[a - kept.len()] && all[b] == fresh[b - kept.len()]);
        } else {
            let (k, f) = if a < kept.len() { (a, b) } else { (b, a) };
            assert(all[k] == kept[k]);
            assert(all[f] == fresh[f - kept.len()]);
            let nb = fresh[f - kept.len()];
            let p = nb.period_key;
            let j = choose|j: int| 0 <= j < n && !is_buffer_of(rows[j], src) && same_key(kept[k], rows[j]);
            lemma_first_match_in(rows, buffer_pred(dst, p), n);
            assert(!buffer_pred(dst, p)(rows[j]));
        }
    }
}

/// Deleting a group into another keeps one target per month and category
/// and one buffer per month and group: the destination has a single buffer
/// row for each month afterwards.
pub proof fn lemma_delete_group_keeps_target_keys_unique(
    t: TablesView,
    id: Seq<char>,
    dst: Seq<char>,
    now: Seq<char>,
    ids: Seq<Seq<char>>,
)
    requires
        target_keys_unique(t.targets),
    ensures
        target_keys_unique(deleted_into(t, id, dst, now, ids).targets),
{
    lemma_merge_keeps_target_keys_unique(t.targets, id, dst, now, ids);
}

/// The natural key of a target: kind, month, taxonomy and category for a
/// category target; kind, month and group for any other.
pub open spec fn target_natural_key(r: TargetRow) -> (Seq<char>, Seq<char>, Option<Seq<char>>, Option<Seq<char>>, Option<Seq<char>>) {
    if r.target_type == "category"@ {
        (r.target_type, r.period_key, r.taxonomy_id, r.category_id, None)
    } else {
        (r.target_type, r.period_key, None, None, r.group_id)
    }
}

/// No two targets, whatever their key fields hold, share a natural key.
pub open spec fn target_keys_distinct(rows: Seq<TargetRow>) -> bool {
    forall|i: int, j: int|
        0 <= i < rows.len() && 0 <= j < rows.len() && i != j ==> target_natural_key(#[trigger] rows[i])
            != target_natural_key(#[trigger] rows[j])
}

/// Setting a target whose key fields are given keeps every natural key on
/// at most one row.
pub proof fn lemma_upsert_keeps_target_keys_distinct(rows: Seq<TargetRow>, row: TargetRow)
    requires
        target_keys_distinct(rows),
        target_key_given(row),
    ensures
        upserted_target(rows, row) matches Ok((t, r)) ==> target_keys_distinct(t),
{
    let pred = same_target_pred(row);
    lemma_first_match_in(rows, pred, rows.len() as int);
    if upserted_target(rows, row) is Ok {
        let t = upserted_target(rows, row).unwrap().0;
        match first_match(rows, pred) {
            Some(k) => {
                assert forall|i: int, j: int|
                    0 <= i < t.len() && 0 <= j < t.len() && i != j implies target_natural_key(#[trigger] t[i])
                        != target_natural_key(#[trigger] t[j]) by {
                    assert(target_natural_key(t[i]) == target_natural_key(rows[i]));
                    assert(target_natural_key(t[j]) == target_natural_key(rows[j]));
                }
            },
            None => {
                assert forall|i: int, j: int|
                    0 <= i < t.len() && 0 <= j < t.len() && i != j implies target_natural_key(#[trigger] t[i])
                        != target_natural_key(#[trigger] t[j]) by {
                    if i < rows.len() && j < rows.len() {
                        assert(t[i] == rows[i] && t[j] == rows[j]);
                    } else if i < rows.len() {
                        assert(t[i] == rows[i]);
                        assert(t[j] == row);
                        assert(!pred(rows[i]));
                    } else {
                        assert(t[j] == rows[j]);
                        assert(t[i] == row);
                        assert(!pred(rows[j]));
                    }
                }
            },
        }
    }
}

/// The natural key of a rollover setting: kind, taxonomy and category for a
/// category setting; kind and group for any other.
pub open spec fn rollover_natural_key(r: RolloverRow) -> (Seq<char>, Option<Seq<char>>, Option<Seq<char>>, Option<Seq<char>>) {
    if r.target_type == "category"@ {
        (r.target_type, r.taxonomy_id, r.category_id, None)
    } else {
        (r.target_type, None, None, r.group_id)
    }
}

/// No two rollover settings, whatever their key fields hold, share a natural key.
pub open spec fn rollover_keys_distinct(rows: Seq<RolloverRow>) -> bool {
    forall|i: int, j: int|
        0 <= i < rows.len() && 0 <= j < rows.len() && i != j ==> rollover_natural_key(#[trigger] rows[i])
            != rollover_natural_key(#[trigger] rows[j])
}

/// Setting a rollover setting whose key fields are given keeps every
/// natural key on at most one row.
pub proof fn lemma_upsert_keeps_rollover_keys_distinct(rows: Seq<RolloverRow>, row: RolloverRow)
    requires
        rollover_keys_distinct(rows),
        rollover_key_given(row),
    ensures
        upserted_rollover(rows, row) matches Ok((t, r)) ==> rollover_keys_distinct(t),
{
    let pred = same_rollover_pred(row);
    lemma_first_match_in(rows, pred, rows.len() as int);
    if upserted_rollover(rows, row) is Ok {
        let t = upserted_rollover(rows, row).unwrap().0;
        match first_match(rows, pred) {
            Some(k) => {
                assert forall|i: int, j: int|
                    0 <= i < t.len() && 0 <= j < t.len() && i != j implies rollover_natural_key(#[trigger] t[i])
                        != rollover_natural_key(#[trigger] t[j]) by {
                    assert(rollover_natural_key(t[i]) == rollover_natural_key(rows[i]));
                    assert(rollover_natural_key(t[j]) == rollover_natural_key(rows[j]));
                }
            },
            None => {
                assert forall|i: int, j: int|
                    0 <= i < t.len() && 0 <= j < t.len() && i != j implies rollover_natural_key(#[trigger] t[i])
                        != rollover_natural_key(#[trigger] t[j]) by {
                    if i < rows.len() && j < rows.len() {
                        assert(t[i] == rows[i] && t[j] == rows[j]);
                    } else if i < rows.len() {
                        assert(t[i] == rows[i]);
                        assert(t[j] == row);
                        assert(!pred(rows[i]));
                    } else {
                        assert(t[j] == rows[j]);
                        assert(t[i] == row);
                        assert(!pred(rows[j]));
                    }
                }
            },
        }
    }
}

} // verus!
