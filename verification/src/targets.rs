//! Budget targets: setting one for a category or a group's buffer, deleting
//! one, and copying a month's targets to another month.

use crate::clock::{now_rfc3339, rfc3339_instant};
use crate::ids::{budget_target_id, target_key, uuid_v5_oid_text};
use crate::laws::lemma_target_filter_ids;
use crate::model::{
    target_record_of, target_type_text, BudgetTarget, BudgetTargetDB, NewBudgetTarget, NewBudgetTargetDB,
    TargetRequest, TargetRow,
};
use crate::tables::{
    first_match, lemma_first_match_in, lemma_first_match_is, target_id_taken, target_ids, target_rows, texts,
    BudgetError, BudgetTables, TablesView,
};
use crate::text::{copy_opt, opt_eq, text_eq};
use vstd::prelude::*;

verus! {

/// How SQL compares a nullable column with a bound value: a NULL on either
/// side matches nothing.
pub open spec fn sql_eq(col: Option<Seq<char>>, val: Option<Seq<char>>) -> bool {
    val is Some && col == val
}

/// Whether stored target `r` is the one that a new target `row` replaces:
/// a category target of the same month, taxonomy and category, or a buffer of
/// the same month and group.
pub open spec fn same_target(r: TargetRow, row: TargetRow) -> bool {
    if row.target_type == "category"@ {
        &&& r.target_type == "category"@
        &&& r.period_key == row.period_key
        &&& sql_eq(r.taxonomy_id, row.taxonomy_id)
        &&& sql_eq(r.category_id, row.category_id)
    } else {
        &&& r.target_type == "group_buffer"@
        &&& r.period_key == row.period_key
        &&& sql_eq(r.group_id, row.group_id)
    }
}

pub open spec fn same_target_pred(row: TargetRow) -> spec_fn(TargetRow) -> bool {
    |r: TargetRow| same_target(r, row)
}

/// The row that a target request makes at time `now`; without an identifier
/// it gets the deterministic one of its month, kind, taxonomy, category and group.
pub open spec fn new_target_row(req: TargetRequest, now: Seq<char>) -> TargetRow {
    let target_type = target_type_text(req.target_type);
    TargetRow {
        id: match req.id {
            Some(id) => id,
            None => uuid_v5_oid_text(
                target_key(req.period_key, target_type, req.taxonomy_id, req.category_id, req.group_id),
            ),
        },
        period_key: req.period_key,
        target_type,
        taxonomy_id: req.taxonomy_id,
        category_id: req.category_id,
        group_id: req.group_id,
        amount: req.amount,
        created_at: now,
        updated_at: now,
    }
}

/// The targets after setting `row`, and the row stored: the target it
/// replaces takes its amount and time stamp; otherwise it is inserted, which
/// fails where its identifier is taken.
pub open spec fn upserted_target(rows: Seq<TargetRow>, row: TargetRow) -> Result<(Seq<TargetRow>, TargetRow), BudgetError> {
    match first_match(rows, same_target_pred(row)) {
        Some(k) => {
            let u = TargetRow { amount: row.amount, updated_at: row.updated_at, ..rows[k] };
            Ok((rows.update(k, u), u))
        },
        None => if target_ids(rows).contains(row.id) {
            Err(BudgetError::DuplicateId)
        } else {
            Ok((rows.push(row), row))
        },
    }
}

/// Matches the rows of a month (`keep`) or the rows of other months (`!keep`).
pub open spec fn period_filter(p: Seq<char>, keep: bool) -> spec_fn(TargetRow) -> bool {
    |r: TargetRow| (r.period_key == p) == keep
}

/// A target copied into month `p` at time `now`, with the deterministic identifier there.
pub open spec fn copied_row(r: TargetRow, p: Seq<char>, now: Seq<char>) -> TargetRow {
    TargetRow {
        id: uuid_v5_oid_text(target_key(p, r.target_type, r.taxonomy_id, r.category_id, r.group_id)),
        period_key: p,
        created_at: now,
        updated_at: now,
        ..r
    }
}

/// The table after inserting copies of the first `n` of `src` into month
/// `p`, a copy whose identifier is taken being left out.
pub open spec fn copy_into(base: Seq<TargetRow>, src: Seq<TargetRow>, p: Seq<char>, now: Seq<char>, n: int) -> Seq<TargetRow>
    decreases n,
{
    if n <= 0 {
        base
    } else {
        let prev = copy_into(base, src, p, now, n - 1);
        let c = copied_row(src[n - 1], p, now);
        if target_ids(prev).contains(c.id) {
            prev
        } else {
            prev.push(c)
        }
    }
}

/// The targets after copying month `source` into month `target`, first
/// deleting the rows of `target` where `overwrite` is set.
pub open spec fn copied_targets(rows: Seq<TargetRow>, source: Seq<char>, target: Seq<char>, overwrite: bool, now: Seq<char>) -> Seq<TargetRow> {
    let src = rows.filter(period_filter(source, true));
    let base = if overwrite {
        rows.filter(period_filter(target, false))
    } else {
        rows
    };
    copy_into(base, src, target, now, src.len() as int)
}

/// The row that a target request makes at time `now`.
pub fn build_target_row(target: NewBudgetTarget, now: &str) -> (r: NewBudgetTargetDB)
    ensures
        r@ == new_target_row(target@, now@),
{
    let target_type = target.target_type.as_str();
    let id = match target.id {
        Some(id) => id,
        None => budget_target_id(
            target.period_key.as_str(),
            target_type,
            &target.taxonomy_id,
            &target.category_id,
            &target.group_id,
        ),
    };
    NewBudgetTargetDB {
        id,
        period_key: target.period_key,
        target_type: target_type.to_owned(),
        taxonomy_id: target.taxonomy_id,
        category_id: target.category_id,
        group_id: target.group_id,
        amount: target.amount,
        created_at: now.to_owned(),
        updated_at: now.to_owned(),
    }
}

/// Compares a nullable column with a bound value as SQL does.
pub fn sql_eq_exec(col: &Option<String>, val: &Option<String>) -> (b: bool)
    ensures
        b == sql_eq(crate::text::opt_view(*col), crate::text::opt_view(*val)),
{
    val.is_some() && opt_eq(col, val)
}

fn same_target_exec(r: &BudgetTargetDB, row: &NewBudgetTargetDB) -> (b: bool)
    ensures
        b == same_target(r@, row@),
{
    if text_eq(row.target_type.as_str(), "category") {
        text_eq(r.target_type.as_str(), "category") && r.period_key == row.period_key && sql_eq_exec(
            &r.taxonomy_id,
            &row.taxonomy_id,
        ) && sql_eq_exec(&r.category_id, &row.category_id)
    } else {
        text_eq(r.target_type.as_str(), "group_buffer") && r.period_key == row.period_key && sql_eq_exec(
            &r.group_id,
            &row.group_id,
        )
    }
}

/// The index of the target that a new row replaces.
pub fn find_same_target(rows: &Vec<BudgetTargetDB>, row: &NewBudgetTargetDB) -> (r: Option<usize>)
    ensures
        match r {
            Some(k) => first_match(target_rows(rows@), same_target_pred(row@)) == Some(k as int),
            None => first_match(target_rows(rows@), same_target_pred(row@)) is None,
        },
{
    let ghost v = target_rows(rows@);
    let ghost pred = same_target_pred(row@);
    let n = rows.len();
    let mut i: usize = 0;
    while i < n
        invariant
            n == rows.len(),
            v == target_rows(rows@),
            pred == same_target_pred(row@),
            i <= n,
            forall|j: int| 0 <= j < i ==> !pred(#[trigger] v[j]),
        decreases n - i,
    {
        if same_target_exec(&rows[i], row) {
            proof {
                lemma_first_match_is(v, pred, i as int);
            }
            return Some(i);
        }
        i = i + 1;
    }
    proof {
        lemma_first_match_in(v, pred, v.len() as int);
        if first_match(v, pred) is Some {
            let k = first_match(v, pred).unwrap();
            assert(pred(v[k]));
        }
    }
    None
}

/// The rows of month `p` (`keep`), or those of the other months (`!keep`).
pub fn filter_period(rows: &Vec<BudgetTargetDB>, p: &str, keep: bool) -> (r: Vec<BudgetTargetDB>)
    ensures
        target_rows(r@) == target_rows(rows@).filter(period_filter(p@, keep)),
{
    let ghost v = target_rows(rows@);
    let ghost pred = period_filter(p@, keep);
    let n = rows.len();
    let mut out: Vec<BudgetTargetDB> = Vec::new();
    let mut i: usize = 0;
    while i < n
        invariant
            n == rows.len(),
            v == target_rows(rows@),
            pred == period_filter(p@, keep),
            i <= n,
            target_rows(out@) == v.take(i as int).filter(pred),
        decreases n - i,
    {
        let ghost out0 = out@;
        proof {
            reveal(Seq::filter);
            assert(v.take(i as int + 1).drop_last() =~= v.take(i as int));
        }
        assert(v[i as int] == rows@[i as int]@);
        if text_eq(rows[i].period_key.as_str(), p) == keep {
            let row = rows[i].copy();
            out.push(row);
            assert(target_rows(out@) =~= target_rows(out0).push(row@));
        }
        i = i + 1;
    }
    assert(v.take(n as int) =~= v);
    out
}

/// A copy of every row.
pub fn copy_target_rows(rows: &Vec<BudgetTargetDB>) -> (r: Vec<BudgetTargetDB>)
    ensures
        r@ == rows@,
{
    let n = rows.len();
    let mut out: Vec<BudgetTargetDB> = Vec::new();
    let mut i: usize = 0;
    while i < n
        invariant
            n == rows.len(),
            i <= n,
            out@ == rows@.take(i as int),
        decreases n - i,
    {
        out.push(rows[i].copy());
        assert(out@ =~= rows@.take(i as int + 1));
        i = i + 1;
    }
    assert(rows@.take(n as int) =~= rows@);
    out
}

impl BudgetTables {
    /// Copies the targets of month `source` into month `target` at time
    /// `now`, each copy with the deterministic identifier of its month, kind,
    /// taxonomy, category and group. Where `overwrite` is set the targets of
    /// `target` are deleted first; a copy whose identifier is taken is left
    /// out. Gives the targets of month `target` afterwards.
    pub fn copy_period_targets_at(&mut self, source: &str, target: &str, overwrite: bool, now: &str) -> (r: Vec<BudgetTargetDB>)
        ensures
            final(self)@ == (TablesView {
                targets: copied_targets(old(self)@.targets, source@, target@, overwrite, now@),
                ..old(self)@
            }),
            target_rows(r@) == final(self)@.targets.filter(period_filter(target@, true)),
            old(self)@.wf() ==> final(self)@.wf(),
    {
        let ghost v = self@.targets;
        let ghost old_wf = target_ids(v).no_duplicates();
        let src = filter_period(&self.targets, source, true);
        let mut table = if overwrite {
            filter_period(&self.targets, target, false)
        } else {
            copy_target_rows(&self.targets)
        };
        proof {
            if old_wf && overwrite {
                lemma_target_filter_ids(v, period_filter(target@, false));
            }
        }
        let ghost base = target_rows(table@);
        let ghost sv = target_rows(src@);
        let n = src.len();
        let mut i: usize = 0;
        while i < n
            invariant
                n == src.len(),
                sv == target_rows(src@),
                i <= n,
                target_rows(table@) == copy_into(base, sv, target@, now@, i as int),
                old_wf ==> target_ids(target_rows(table@)).no_duplicates(),
            decreases n - i,
        {
            let s = &src[i];
            assert(sv[i as int] == s@);
            let id = budget_target_id(target, s.target_type.as_str(), &s.taxonomy_id, &s.category_id, &s.group_id);
            let ghost t0 = target_rows(table@);
            if !target_id_taken(&table, id.as_str()) {
                let row = BudgetTargetDB {
                    id,
                    period_key: target.to_owned(),
                    target_type: s.target_type.clone(),
                    taxonomy_id: copy_opt(&s.taxonomy_id),
                    category_id: copy_opt(&s.category_id),
                    group_id: copy_opt(&s.group_id),
                    amount: s.amount.clone(),
                    created_at: now.to_owned(),
                    updated_at: now.to_owned(),
                };
                assert(row@ == copied_row(sv[i as int], target@, now@));
                table.push(row);
                assert(target_rows(table@) =~= t0.push(row@));
                assert(target_ids(target_rows(table@)) =~= target_ids(t0).push(row@.id));
            }
            i = i + 1;
        }
        let out = filter_period(&table, target, true);
        self.targets = table;
        out
    }

    /// Copies month `source` into month `target` now; see `copy_period_targets_at`.
    pub fn copy_period_targets(&mut self, source: &str, target: &str, overwrite: bool) -> (r: Vec<BudgetTarget>)
        ensures
            exists|now: Seq<char>|
                #![trigger copied_targets(old(self)@.targets, source@, target@, overwrite, now)]
                rfc3339_instant(now) is Some && final(self)@ == (TablesView {
                    targets: copied_targets(old(self)@.targets, source@, target@, overwrite, now),
                    ..old(self)@
                }),
            r@.len() == final(self)@.targets.filter(period_filter(target@, true)).len(),
            forall|i: int|
                0 <= i < r@.len() ==> target_record_of(#[trigger] r@[i], final(self)@.targets.filter(period_filter(target@, true))[i]),
            old(self)@.wf() ==> final(self)@.wf(),
    {
        let now = now_rfc3339();
        let rows = self.copy_period_targets_at(source, target, overwrite, now.as_str());
        let mut out: Vec<BudgetTarget> = Vec::new();
        let n = rows.len();
        let mut i: usize = 0;
        while i < n
            invariant
                n == rows.len(),
                i <= n,
                out@.len() == i,
                forall|j: int| 0 <= j < i ==> target_record_of(#[trigger] out@[j], rows@[j]@),
            decreases n - i,
        {
            out.push(BudgetTarget::from_db(rows[i].copy()));
            i = i + 1;
        }
        proof {
            assert forall|j: int| 0 <= j < n implies rows@[j]@ == target_rows(rows@)[j] by {}
        }
        out
    }

    /// Sets a target at time `now`: the stored target of the same month and
    /// category (or group buffer) takes the new amount, or else the target is
    /// inserted. Gives the stored row; refused, with the tables unchanged,
    /// where an inserted row's identifier is taken.
    pub fn upsert_target_at(&mut self, target: NewBudgetTarget, now: &str) -> (r: Result<BudgetTargetDB, BudgetError>)
        ensures
            match upserted_target(old(self)@.targets, new_target_row(target@, now@)) {
                Ok((rows, row)) => r matches Ok(x) && x@ == row && final(self)@ == (TablesView { targets: rows, ..old(self)@ }),
                Err(e) => r == Err::<BudgetTargetDB, BudgetError>(e) && final(self)@ == old(self)@,
            },
            old(self)@.wf() ==> final(self)@.wf(),
    {
        let row = build_target_row(target, now);
        let ghost v = self@.targets;
        match find_same_target(&self.targets, &row) {
            Some(k) => {
                proof {
                    lemma_first_match_in(v, same_target_pred(row@), v.len() as int);
                }
                let mut u = self.targets[k].copy();
                u.amount = row.amount;
                u.updated_at = row.updated_at;
                let out = u.copy();
                self.targets[k] = u;
                assert(self@.targets =~= v.update(k as int, out@));
                assert(target_ids(self@.targets) =~= target_ids(v));
                Ok(out)
            },
            None => {
                if target_id_taken(&self.targets, row.id.as_str()) {
                    return Err(BudgetError::DuplicateId);
                }
                let stored = row.into_row();
                let out = stored.copy();
                self.targets.push(stored);
                assert(self@.targets =~= v.push(out@));
                assert(target_ids(self@.targets) =~= target_ids(v).push(out@.id));
                Ok(out)
            },
        }
    }

    /// Sets a target now; see `upsert_target_at`.
    pub fn upsert_target(&mut self, target: NewBudgetTarget) -> (r: Result<BudgetTarget, BudgetError>)
        ensures
            old(self)@.wf() ==> final(self)@.wf(),
            match r {
                Ok(t) => exists|now: Seq<char>, rows: Seq<TargetRow>, row: TargetRow|
                    rfc3339_instant(now) is Some &&
                    upserted_target(old(self)@.targets, new_target_row(target@, now)) == Ok::<(Seq<TargetRow>, TargetRow), BudgetError>((rows, row))
                        && final(self)@ == (TablesView { targets: rows, ..old(self)@ }) && target_record_of(t, row),
                Err(e) => final(self)@ == old(self)@ && exists|now: Seq<char>|
                    upserted_target(old(self)@.targets, new_target_row(target@, now)) == Err::<(Seq<TargetRow>, TargetRow), BudgetError>(e),
            },
    {
        let now = now_rfc3339();
        match self.upsert_target_at(target, now.as_str()) {
            Ok(row) => Ok(BudgetTarget::from_db(row)),
            Err(e) => Err(e),
        }
    }

    /// The identifiers of the targets of month `period`, in table order: the
    /// rows that a copy with `overwrite` into that month deletes first.
    pub fn period_target_ids(&self, period: &str) -> (r: Vec<String>)
        ensures
            texts(r@) == target_ids(self@.targets.filter(period_filter(period@, true))),
    {
        let rows = filter_period(&self.targets, period, true);
        let ghost v = target_rows(rows@);
        let n = rows.len();
        let mut out: Vec<String> = Vec::new();
        let mut i: usize = 0;
        while i < n
            invariant
                n == rows.len(),
                v == target_rows(rows@),
                i <= n,
                texts(out@) == target_ids(v.take(i as int)),
            decreases n - i,
        {
            let ghost out0 = out@;
            let id = rows[i].id.clone();
            out.push(id);
            assert(v[i as int] == rows@[i as int]@);
            assert(texts(out@) =~= texts(out0).push(id@));
            assert(target_ids(v.take(i as int + 1)) =~= target_ids(v.take(i as int)).push(v[i as int].id));
            i = i + 1;
        }
        assert(v.take(n as int) =~= v);
        out
    }

    /// Deletes the target with the given identifier, if there is one.
    pub fn delete_target(&mut self, id: &str)
        ensures
            final(self)@ == (TablesView {
                targets: old(self)@.targets.filter(|r: TargetRow| r.id != id@),
                ..old(self)@
            }),
            old(self)@.wf() ==> final(self)@.wf(),
    {
        let ghost v = self@.targets;
        let ghost keep = |r: TargetRow| r.id != id@;
        let n = self.targets.len();
        let mut out: Vec<BudgetTargetDB> = Vec::new();
        let mut i: usize = 0;
        while i < n
            invariant
                n == self.targets.len(),
                v == target_rows(self.targets@),
                keep == (|r: TargetRow| r.id != id@),
                i <= n,
                target_rows(out@) == v.take(i as int).filter(keep),
            decreases n - i,
        {
            let ghost out0 = out@;
            proof {
                reveal(Seq::filter);
                assert(v.take(i as int + 1).drop_last() =~= v.take(i as int));
            }
            assert(v[i as int] == self.targets@[i as int]@);
            if !text_eq(self.targets[i].id.as_str(), id) {
                let row = self.targets[i].copy();
                out.push(row);
                assert(target_rows(out@) =~= target_rows(out0).push(row@));
            }
            i = i + 1;
        }
        assert(v.take(n as int) =~= v);
        proof {
            if target_ids(v).no_duplicates() {
                lemma_target_filter_ids(v, keep);
            }
        }
        self.targets = out;
    }
}

} // verus!
