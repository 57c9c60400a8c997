//! Group buffers: the targets of type `group_buffer`. A group's effective
//! buffer for a month is its row for that month, else its `default` row; when
//! a group is deleted its buffers are merged into those of the group that
//! receives its categories.

use crate::decimal::{
    add_decimals, decimal_checked_add, decimal_display, decimal_from_str, decimal_to_string,
    decimal_zero, normalize, normalized, parse_decimal, valid_decimal,
};
use crate::model::{BudgetTargetDB, TargetRow};
use crate::tables::BudgetError;
use crate::tables::{
    first_match, first_match_in, lemma_first_match_in, lemma_first_match_is, target_ids, target_rows, texts,
};
use crate::text::{opt_is, opt_view, text_eq};
use vstd::prelude::*;

verus! {

/// A buffer row of the given group.
pub open spec fn is_buffer_of(r: TargetRow, g: Seq<char>) -> bool {
    r.target_type == "group_buffer"@ && r.group_id == Some(g)
}

/// Matches the buffer rows of group `g` for period `p`.
pub open spec fn buffer_pred(g: Seq<char>, p: Seq<char>) -> spec_fn(TargetRow) -> bool {
    |r: TargetRow| is_buffer_of(r, g) && r.period_key == p
}

/// The index of the first buffer row of group `g` for period `p`.
pub open spec fn buffer_for(rows: Seq<TargetRow>, g: Seq<char>, p: Seq<char>) -> Option<int> {
    first_match(rows, buffer_pred(g, p))
}

/// The buffer of group `g` that counts in period `p`: its row for `p`, else its default row.
pub open spec fn effective_row(rows: Seq<TargetRow>, g: Seq<char>, p: Seq<char>) -> Option<int> {
    match buffer_for(rows, g, p) {
        Some(k) => Some(k),
        None => buffer_for(rows, g, "default"@),
    }
}

/// The amount of group `g`'s buffer in period `p`: that of its effective row,
/// zero where there is none or its amount is not a decimal.
pub open spec fn effective_amount(rows: Seq<TargetRow>, g: Seq<char>, p: Seq<char>) -> (i128, u32) {
    match effective_row(rows, g, p) {
        Some(k) => match decimal_from_str(rows[k].amount) {
            Some(d) => d,
            None => decimal_zero(),
        },
        None => decimal_zero(),
    }
}

/// The stored text of the merged buffer for period `p`: the sum of the
/// effective amounts of `src` and `dst`, normalized; `None` where the sum overflows.
pub open spec fn merged_amount(rows: Seq<TargetRow>, src: Seq<char>, dst: Seq<char>, p: Seq<char>) -> Option<Seq<char>> {
    match decimal_checked_add(effective_amount(rows, src, p), effective_amount(rows, dst, p)) {
        Some(sum) => Some(decimal_display(normalized(sum))),
        None => None,
    }
}

/// Some period of a buffer of `src` or `dst` has a merged amount that overflows.
pub open spec fn merge_overflows(rows: Seq<TargetRow>, src: Seq<char>, dst: Seq<char>) -> bool {
    exists|k: int|
        0 <= k < rows.len() && (is_buffer_of(#[trigger] rows[k], src) || is_buffer_of(rows[k], dst))
            && merged_amount(rows, src, dst, rows[k].period_key) is None
}

/// Whether row `k` is the first buffer of `src` for its period and `dst` has none for it:
/// such a period gets a new buffer row of `dst`.
pub open spec fn opens_new_buffer(rows: Seq<TargetRow>, src: Seq<char>, dst: Seq<char>, k: int) -> bool {
    &&& is_buffer_of(rows[k], src)
    &&& buffer_for(rows, src, rows[k].period_key) == Some(k)
    &&& buffer_for(rows, dst, rows[k].period_key) is None
}

/// Whether row `k` is the first buffer of `dst` for its period: it takes the merged amount.
pub open spec fn takes_merged_amount(rows: Seq<TargetRow>, dst: Seq<char>, k: int) -> bool {
    &&& is_buffer_of(rows[k], dst)
    &&& buffer_for(rows, dst, rows[k].period_key) == Some(k)
}

/// The first `n` rows after the merge: buffers of `src` are gone, the first
/// buffer of `dst` of each period holds the merged amount, the rest stay.
pub open spec fn kept_targets_in(
    rows: Seq<TargetRow>,
    src: Seq<char>,
    dst: Seq<char>,
    now: Seq<char>,
    n: int,
) -> Seq<TargetRow>
    decreases n,
{
    if n <= 0 {
        Seq::empty()
    } else {
        let prev = kept_targets_in(rows, src, dst, now, n - 1);
        let r = rows[n - 1];
        if is_buffer_of(r, src) {
            prev
        } else if takes_merged_amount(rows, dst, n - 1) {
            prev.push(
                TargetRow {
                    amount: merged_amount(rows, src, dst, r.period_key).unwrap(),
                    updated_at: now,
                    ..r
                },
            )
        } else {
            prev.push(r)
        }
    }
}

/// The new buffer rows of `dst` that the first `n` rows call for, in their
/// order, the `i`-th with identifier `ids[i]`.
pub open spec fn new_buffers_in(
    rows: Seq<TargetRow>,
    src: Seq<char>,
    dst: Seq<char>,
    now: Seq<char>,
    ids: Seq<Seq<char>>,
    n: int,
) -> Seq<TargetRow>
    decreases n,
{
    if n <= 0 {
        Seq::empty()
    } else {
        let prev = new_buffers_in(rows, src, dst, now, ids, n - 1);
        let r = rows[n - 1];
        if opens_new_buffer(rows, src, dst, n - 1) {
            prev.push(
                TargetRow {
                    id: ids[prev.len() as int],
                    period_key: r.period_key,
                    target_type: "group_buffer"@,
                    taxonomy_id: None,
                    category_id: None,
                    group_id: Some(dst),
                    amount: merged_amount(rows, src, dst, r.period_key).unwrap(),
                    created_at: now,
                    updated_at: now,
                },
            )
        } else {
            prev
        }
    }
}

/// How many of the first `n` rows call for a new buffer row.
pub open spec fn new_buffer_count_in(rows: Seq<TargetRow>, src: Seq<char>, dst: Seq<char>, n: int) -> nat
    decreases n,
{
    if n <= 0 {
        0
    } else {
        new_buffer_count_in(rows, src, dst, n - 1) + if opens_new_buffer(rows, src, dst, n - 1) {
            1nat
        } else {
            0nat
        }
    }
}

/// The targets table after merging the buffers of `src` into those of `dst`.
pub open spec fn merged_targets(
    rows: Seq<TargetRow>,
    src: Seq<char>,
    dst: Seq<char>,
    now: Seq<char>,
    ids: Seq<Seq<char>>,
) -> Seq<TargetRow> {
    kept_targets_in(rows, src, dst, now, rows.len() as int) + new_buffers_in(
        rows,
        src,
        dst,
        now,
        ids,
        rows.len() as int,
    )
}

/// How many new buffer rows the merge needs.
pub open spec fn new_buffer_count(rows: Seq<TargetRow>, src: Seq<char>, dst: Seq<char>) -> nat {
    new_buffer_count_in(rows, src, dst, rows.len() as int)
}

pub proof fn lemma_new_buffers_len(
    rows: Seq<TargetRow>,
    src: Seq<char>,
    dst: Seq<char>,
    now: Seq<char>,
    ids: Seq<Seq<char>>,
    n: int,
)
    ensures
        new_buffers_in(rows, src, dst, now, ids, n).len() == new_buffer_count_in(rows, src, dst, n),
    decreases n,
{
    if n > 0 {
        lemma_new_buffers_len(rows, src, dst, now, ids, n - 1);
    }
}

/// Whether a target row is a buffer of the given group.
pub fn is_buffer_row(r: &BudgetTargetDB, g: &str) -> (b: bool)
    ensures
        b == is_buffer_of(r@, g@),
{
    text_eq(r.target_type.as_str(), "group_buffer") && opt_is(&r.group_id, g)
}

/// The index of the first buffer row of group `g` for period `p`.
pub fn find_buffer(rows: &Vec<BudgetTargetDB>, g: &str, p: &str) -> (r: Option<usize>)
    ensures
        match r {
            Some(k) => buffer_for(target_rows(rows@), g@, p@) == Some(k as int),
            None => buffer_for(target_rows(rows@), g@, p@) is None,
        },
{
    let ghost v = target_rows(rows@);
    let ghost pred = buffer_pred(g@, p@);
    let n = rows.len();
    let mut i: usize = 0;
    while i < n
        invariant
            n == rows.len(),
            v == target_rows(rows@),
            pred == buffer_pred(g@, p@),
            i <= n,
            forall|j: int| 0 <= j < i ==> !pred(#[trigger] v[j]),
        decreases n - i,
    {
        if is_buffer_row(&rows[i], g) && text_eq(rows[i].period_key.as_str(), p) {
            proof {
                lemma_first_match_is(v, pred, i as int);
            }
            return Some(i);
        }
        i = i + 1;
    }
    proof {
        lemma_first_match_in(v, pred, v.len() as int);
        if first_match(v, pred) is Some {
            let k = first_match(v, pred).unwrap();
            assert(pred(v[k]));
        }
    }
    None
}

/// The amount of group `g`'s buffer in period `p`.
pub fn effective_buffer(rows: &Vec<BudgetTargetDB>, g: &str, p: &str) -> (d: (i128, u32))
    ensures
        d == effective_amount(target_rows(rows@), g@, p@),
        valid_decimal(d),
{
    proof {
        lemma_first_match_in(target_rows(rows@), buffer_pred(g@, p@), rows@.len() as int);
        lemma_first_match_in(target_rows(rows@), buffer_pred(g@, "default"@), rows@.len() as int);
    }
    let found = match find_buffer(rows, g, p) {
        Some(k) => Some(k),
        None => find_buffer(rows, g, "default"),
    };
    match found {
        Some(k) => {
            assert(target_rows(rows@)[k as int] == rows@[k as int]@);
            match parse_decimal(rows[k].amount.as_str()) {
                Some(d) => d,
                None => (0, 0),
            }
        },
        None => (0, 0),
    }
}

/// The stored text of the merged buffer of `src` and `dst` for period `p`.
pub fn merged_buffer_amount(rows: &Vec<BudgetTargetDB>, src: &str, dst: &str, p: &str) -> (r: Option<String>)
    ensures
        opt_view(r) == merged_amount(target_rows(rows@), src@, dst@, p@),
{
    let a = effective_buffer(rows, src, p);
    let b = effective_buffer(rows, dst, p);
    match add_decimals(a, b) {
        Some(sum) => {
            let n = normalize(sum);
            Some(decimal_to_string(n))
        },
        None => None,
    }
}

/// Merges the buffers of group `src` into those of group `dst`, stamping
/// changed and new rows with `now` and giving the `i`-th new row the
/// identifier `ids[i]`. Refused where a merged amount overflows.
pub fn merge_buffers(
    rows: &Vec<BudgetTargetDB>,
    src: &str,
    dst: &str,
    now: &str,
    ids: &Vec<String>,
) -> (r: Result<Vec<BudgetTargetDB>, BudgetError>)
    requires
        ids@.len() >= new_buffer_count(target_rows(rows@), src@, dst@),
    ensures
        match r {
            Ok(v) => !merge_overflows(target_rows(rows@), src@, dst@) && target_rows(v@)
                == merged_targets(target_rows(rows@), src@, dst@, now@, texts(ids@)),
            Err(e) => e == BudgetError::AmountOverflow && merge_overflows(target_rows(rows@), src@, dst@),
        },
{
    let ghost v = target_rows(rows@);
    let ghost idv = texts(ids@);
    let n = rows.len();
    let mut kept: Vec<BudgetTargetDB> = Vec::new();
    let mut fresh: Vec<BudgetTargetDB> = Vec::new();
    let mut i: usize = 0;
    while i < n
        invariant
            n == rows.len(),
            v == target_rows(rows@),
            idv == texts(ids@),
            ids@.len() >= new_buffer_count(v, src@, dst@),
            i <= n,
            target_rows(kept@) == kept_targets_in(v, src@, dst@, now@, i as int),
            target_rows(fresh@) == new_buffers_in(v, src@, dst@, now@, idv, i as int),
            forall|j: int|
                0 <= j < i && (is_buffer_of(#[trigger] v[j], src@) || is_buffer_of(v[j], dst@))
                    ==> merged_amount(v, src@, dst@, v[j].period_key) is Some,
        decreases n - i,
    {
        let ghost kept0 = kept@;
        let ghost fresh0 = fresh@;
        proof {
            lemma_new_buffers_len(v, src@, dst@, now@, idv, i as int);
            lemma_new_buffers_len(v, src@, dst@, now@, idv, n as int);
            lemma_count_monotone(v, src@, dst@, i as int + 1, n as int);
        }
        let r = &rows[i];
        assert(v[i as int] == r@);
        let is_src = is_buffer_row(r, src);
        let is_dst = is_buffer_row(r, dst);
        if is_src || is_dst {
            let amount = match merged_buffer_amount(rows, src, dst, r.period_key.as_str()) {
                Some(a) => a,
                None => {
                    assert(is_buffer_of(v[i as int], src@) || is_buffer_of(v[i as int], dst@));
                    return Err(BudgetError::AmountOverflow);
                },
            };
            let first_src = match find_buffer(rows, src, r.period_key.as_str()) {
                Some(k) => k == i,
                None => false,
            };
            let first_dst = match find_buffer(rows, dst, r.period_key.as_str()) {
                Some(k) => k == i,
                None => false,
            };
            let none_dst = find_buffer(rows, dst, r.period_key.as_str()).is_none();
            if is_src {
                if first_src && none_dst {
                    let k = fresh.len();
                    let row = BudgetTargetDB {
                        id: ids[k].clone(),
                        period_key: r.period_key.clone(),
                        target_type: String::from_str("group_buffer"),
                        taxonomy_id: None,
                        category_id: None,
                        group_id: Some(dst.to_owned()),
                        amount,
                        created_at: now.to_owned(),
                        updated_at: now.to_owned(),
                    };
                    fresh.push(row);
                    assert(target_rows(fresh@) =~= target_rows(fresh0).push(row@));
                }
                assert(target_rows(kept@) =~= target_rows(kept0));
            } else if first_dst {
                let mut row = r.copy();
                row.amount = amount;
                row.updated_at = now.to_owned();
                kept.push(row);
                assert(target_rows(kept@) =~= target_rows(kept0).push(row@));
            } else {
                let row = r.copy();
                kept.push(row);
                assert(target_rows(kept@) =~= target_rows(kept0).push(row@));
            }
        } else {
            let row = r.copy();
            kept.push(row);
            assert(target_rows(kept@) =~= target_rows(kept0).push(row@));
        }
        i = i + 1;
    }
    proof {
        if merge_overflows(v, src@, dst@) {
            let k = choose|k: int|
                0 <= k < v.len() && (is_buffer_of(#[trigger] v[k], src@) || is_buffer_of(v[k], dst@))
                    && merged_amount(v, src@, dst@, v[k].period_key) is None;
            assert(is_buffer_of(v[k], src@) || is_buffer_of(v[k], dst@));
        }
    }
    let mut out = kept;
    let ghost kept_final = out@;
    let mut fresh = fresh;
    out.append(&mut fresh);
    assert(target_rows(out@) =~= target_rows(kept_final) + new_buffers_in(v, src@, dst@, now@, idv, n as int));
    Ok(out)
}

pub proof fn lemma_count_monotone(rows: Seq<TargetRow>, src: Seq<char>, dst: Seq<char>, m: int, n: int)
    requires
        m <= n,
    ensures
        new_buffer_count_in(rows, src, dst, m) <= new_buffer_count_in(rows, src, dst, n),
    decreases n - m,
{
    if m < n {
        lemma_count_monotone(rows, src, dst, m, n - 1);
    }
}

/// Every kept row keeps the identifier of a distinct earlier row.
pub proof fn lemma_kept_ids(rows: Seq<TargetRow>, src: Seq<char>, dst: Seq<char>, now: Seq<char>, n: int)
    requires
        0 <= n <= rows.len(),
        target_ids(rows).no_duplicates(),
    ensures
        target_ids(kept_targets_in(rows, src, dst, now, n)).no_duplicates(),
        forall|x: int|
            0 <= x < kept_targets_in(rows, src, dst, now, n).len() ==> exists|j: int|
                0 <= j < n && #[trigger] kept_targets_in(rows, src, dst, now, n)[x].id == rows[j].id,
    decreases n,
{
    if n > 0 {
        lemma_kept_ids(rows, src, dst, now, n - 1);
        let prev = kept_targets_in(rows, src, dst, now, n - 1);
        let cur = kept_targets_in(rows, src, dst, now, n);
        let r = rows[n - 1];
        if !is_buffer_of(r, src) {
            assert(cur.len() == prev.len() + 1);
            assert(cur[prev.len() as int].id == r.id);
            assert forall|x: int| 0 <= x < prev.len() implies #[trigger] cur[x].id != r.id by {
                assert(cur[x] == prev[x]);
                let j = choose|j: int| 0 <= j < n - 1 && prev[x].id == rows[j].id;
                assert(target_ids(rows)[j] == rows[j].id);
                assert(target_ids(rows)[n - 1] == rows[n - 1].id);
            }
            assert forall|x: int| 0 <= x < cur.len() implies exists|j: int|
                0 <= j < n && #[trigger] cur[x].id == rows[j].id by {
                if x < prev.len() {
                    assert(cur[x] == prev[x]);
                    let j = choose|j: int| 0 <= j < n - 1 && prev[x].id == rows[j].id;
                    assert(cur[x].id == rows[j].id);
                } else {
                    assert(cur[x].id == rows[n - 1].id);
                }
            }
            assert forall|a: int, b: int|
                0 <= a < cur.len() && 0 <= b < cur.len() && a != b implies target_ids(cur)[a] != target_ids(cur)[b] by {
                if a < prev.len() && b < prev.len() {
                    assert(cur[a] == prev[a] && cur[b] == prev[b]);
                    assert(target_ids(prev)[a] != target_ids(prev)[b]);
                }
            }
        }
    }
}

/// The new buffer rows take the first identifiers of `ids`, in order.
pub proof fn lemma_new_buffer_ids(
    rows: Seq<TargetRow>,
    src: Seq<char>,
    dst: Seq<char>,
    now: Seq<char>,
    ids: Seq<Seq<char>>,
    n: int,
)
    requires
        ids.len() >= new_buffer_count_in(rows, src, dst, n),
    ensures
        target_ids(new_buffers_in(rows, src, dst, now, ids, n)) =~= ids.take(
            new_buffers_in(rows, src, dst, now, ids, n).len() as int,
        ),
    decreases n,
{
    lemma_new_buffers_len(rows, src, dst, now, ids, n);
    if n > 0 {
        lemma_new_buffers_len(rows, src, dst, now, ids, n - 1);
        lemma_new_buffer_ids(rows, src, dst, now, ids, n - 1);
    }
}

/// How many new buffer rows the merge of `src` into `dst` needs.
pub fn count_new_buffers(rows: &Vec<BudgetTargetDB>, src: &str, dst: &str) -> (c: usize)
    ensures
        c == new_buffer_count(target_rows(rows@), src@, dst@),
{
    let ghost v = target_rows(rows@);
    let n = rows.len();
    let mut c: usize = 0;
    let mut i: usize = 0;
    while i < n
        invariant
            n == rows.len(),
            v == target_rows(rows@),
            i <= n,
            c == new_buffer_count_in(v, src@, dst@, i as int),
            c <= i,
        decreases n - i,
    {
        let r = &rows[i];
        assert(v[i as int] == r@);
        if is_buffer_row(r, src) {
            let first_src = match find_buffer(rows, src, r.period_key.as_str()) {
                Some(k) => k == i,
                None => false,
            };
            if first_src && find_buffer(rows, dst, r.period_key.as_str()).is_none() {
                c = c + 1;
            }
        }
        i = i + 1;
    }
    c
}

} // verus!
