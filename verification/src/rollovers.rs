//! Rollover settings: setting one for a category or group, deleting one, and
//! turning off those of a set of categories.

use crate::clock::{now_rfc3339, rfc3339_instant};
use crate::ids::{budget_rollover_setting_id, rollover_key, uuid_v5_oid_text};
use crate::laws::lemma_rollover_filter_ids;
use crate::model::{
    rollover_record_of, rollover_target_type_text, BudgetRolloverSetting, BudgetRolloverSettingDB,
    NewBudgetRolloverSetting, NewBudgetRolloverSettingDB, RolloverRequest, RolloverRow,
};
use crate::tables::{
    first_match, lemma_first_match_in, lemma_first_match_is, rollover_id_taken, rollover_ids, rollover_rows,
    texts, BudgetError, BudgetTables, TablesView,
};
use crate::targets::{sql_eq, sql_eq_exec};
use crate::text::{opt_is, text_eq};
use vstd::prelude::*;

verus! {

/// Whether stored setting `r` is the one that a new setting `row` replaces:
/// that of the same taxonomy and category, or of the same group.
pub open spec fn same_rollover(r: RolloverRow, row: RolloverRow) -> bool {
    if row.target_type == "category"@ {
        &&& r.target_type == "category"@
        &&& sql_eq(r.taxonomy_id, row.taxonomy_id)
        &&& sql_eq(r.category_id, row.category_id)
    } else {
        &&& r.target_type == "group"@
        &&& sql_eq(r.group_id, row.group_id)
    }
}

pub open spec fn same_rollover_pred(row: RolloverRow) -> spec_fn(RolloverRow) -> bool {
    |r: RolloverRow| same_rollover(r, row)
}

/// The row that a rollover request makes at time `now`; without an
/// identifier it gets the deterministic one of its kind, taxonomy, category and group.
pub open spec fn new_rollover_row(req: RolloverRequest, now: Seq<char>) -> RolloverRow {
    let target_type = rollover_target_type_text(req.target_type);
    RolloverRow {
        id: match req.id {
            Some(id) => id,
            None => uuid_v5_oid_text(rollover_key(target_type, req.taxonomy_id, req.category_id, req.group_id)),
        },
        target_type,
        taxonomy_id: req.taxonomy_id,
        category_id: req.category_id,
        group_id: req.group_id,
        enabled: if req.enabled {
            1
        } else {
            0
        },
        start_month: req.start_month,
        starting_balance: req.starting_balance,
        created_at: now,
        updated_at: now,
    }
}

/// The settings after setting `row`, and the row stored: the setting it
/// replaces takes its flag, start month, starting balance and time stamp;
/// otherwise it is inserted, which fails where its identifier is taken.
pub open spec fn upserted_rollover(rows: Seq<RolloverRow>, row: RolloverRow) -> Result<(Seq<RolloverRow>, RolloverRow), BudgetError> {
    match first_match(rows, same_rollover_pred(row)) {
        Some(k) => {
            let u = RolloverRow {
                enabled: row.enabled,
                start_month: row.start_month,
                starting_balance: row.starting_balance,
                updated_at: row.updated_at,
                ..rows[k]
            };
            Ok((rows.update(k, u), u))
        },
        None => if rollover_ids(rows).contains(row.id) {
            Err(BudgetError::DuplicateId)
        } else {
            Ok((rows.push(row), row))
        },
    }
}

/// Whether a setting is that of one of the given categories of a taxonomy.
pub open spec fn is_category_rollover_in(r: RolloverRow, taxonomy_id: Seq<char>, category_ids: Seq<Seq<char>>) -> bool {
    &&& r.target_type == "category"@
    &&& r.taxonomy_id == Some(taxonomy_id)
    &&& r.category_id matches Some(c) && category_ids.contains(c)
}

pub open spec fn category_rollover_pred(taxonomy_id: Seq<char>, category_ids: Seq<Seq<char>>) -> spec_fn(RolloverRow) -> bool {
    |r: RolloverRow| is_category_rollover_in(r, taxonomy_id, category_ids)
}

/// A setting after the settings of the given categories were turned off at time `now`.
pub open spec fn disabled(r: RolloverRow, taxonomy_id: Seq<char>, category_ids: Seq<Seq<char>>, now: Seq<char>) -> RolloverRow {
    if is_category_rollover_in(r, taxonomy_id, category_ids) {
        RolloverRow { enabled: 0, updated_at: now, ..r }
    } else {
        r
    }
}

/// The settings after those of the given categories were turned off at time `now`.
pub open spec fn disabled_rollovers(rows: Seq<RolloverRow>, taxonomy_id: Seq<char>, category_ids: Seq<Seq<char>>, now: Seq<char>) -> Seq<RolloverRow> {
    rows.map_values(|x: RolloverRow| disabled(x, taxonomy_id, category_ids, now))
}

/// The row that a rollover request makes at time `now`.
pub fn build_rollover_row(setting: NewBudgetRolloverSetting, now: &str) -> (r: NewBudgetRolloverSettingDB)
    ensures
        r@ == new_rollover_row(setting@, now@),
{
    let target_type = setting.target_type.as_str();
    let id = match setting.id {
        Some(id) => id,
        None => budget_rollover_setting_id(target_type, &setting.taxonomy_id, &setting.category_id, &setting.group_id),
    };
    NewBudgetRolloverSettingDB {
        id,
        target_type: target_type.to_owned(),
        taxonomy_id: setting.taxonomy_id,
        category_id: setting.category_id,
        group_id: setting.group_id,
        enabled: if setting.enabled {
            1
        } else {
            0
        },
        start_month: setting.start_month,
        starting_balance: setting.starting_balance,
        created_at: now.to_owned(),
        updated_at: now.to_owned(),
    }
}

fn same_rollover_exec(r: &BudgetRolloverSettingDB, row: &NewBudgetRolloverSettingDB) -> (b: bool)
    ensures
        b == same_rollover(r@, row@),
{
    if text_eq(row.target_type.as_str(), "category") {
        text_eq(r.target_type.as_str(), "category") && sql_eq_exec(&r.taxonomy_id, &row.taxonomy_id)
            && sql_eq_exec(&r.category_id, &row.category_id)
    } else {
        text_eq(r.target_type.as_str(), "group") && sql_eq_exec(&r.group_id, &row.group_id)
    }
}

/// The index of the setting that a new row replaces.
pub fn find_same_rollover(rows: &Vec<BudgetRolloverSettingDB>, row: &NewBudgetRolloverSettingDB) -> (r: Option<usize>)
    ensures
        match r {
            Some(k) => first_match(rollover_rows(rows@), same_rollover_pred(row@)) == Some(k as int),
            None => first_match(rollover_rows(rows@), same_rollover_pred(row@)) is None,
        },
{
    let ghost v = rollover_rows(rows@);
    let ghost pred = same_rollover_pred(row@);
    let n = rows.len();
    let mut i: usize = 0;
    while i < n
        invariant
            n == rows.len(),
            v == rollover_rows(rows@),
            pred == same_rollover_pred(row@),
            i <= n,
            forall|j: int| 0 <= j < i ==> !pred(#[trigger] v[j]),
        decreases n - i,
    {
        if same_rollover_exec(&rows[i], row) {
            proof {
                lemma_first_match_is(v, pred, i as int);
            }
            return Some(i);
        }
        i = i + 1;
    }
    proof {
        lemma_first_match_in(v, pred, v.len() as int);
        if first_match(v, pred) is Some {
            let k = first_match(v, pred).unwrap();
            assert(pred(v[k]));
        }
    }
    None
}

/// Whether a text is among the first `n` of a list.
fn text_listed(list: &[String], s: &str) -> (b: bool)
    ensures
        b == texts(list@).contains(s@),
{
    let ghost v = texts(list@);
    let n = list.len();
    let mut i: usize = 0;
    while i < n
        invariant
            n == list@.len(),
            v == texts(list@),
            i <= n,
            forall|j: int| 0 <= j < i ==> v[j] != s@,
        decreases n - i,
    {
        if text_eq(list[i].as_str(), s) {
            assert(v[i as int] == s@);
            return true;
        }
        i = i + 1;
    }
    false
}

fn is_category_rollover_exec(r: &BudgetRolloverSettingDB, taxonomy_id: &str, category_ids: &[String]) -> (b: bool)
    ensures
        b == is_category_rollover_in(r@, taxonomy_id@, texts(category_ids@)),
{
    text_eq(r.target_type.as_str(), "category") && opt_is(&r.taxonomy_id, taxonomy_id) && match &r.category_id {
        Some(c) => text_listed(category_ids, c.as_str()),
        None => false,
    }
}

impl BudgetTables {
    /// Sets a rollover setting at time `now`: the stored setting of the same
    /// category (or group) takes the new values, or else the setting is
    /// inserted. Gives the stored row; refused, with the tables unchanged,
    /// where an inserted row's identifier is taken.
    pub fn upsert_rollover_setting_at(&mut self, setting: NewBudgetRolloverSetting, now: &str) -> (r: Result<BudgetRolloverSettingDB, BudgetError>)
        ensures
            match upserted_rollover(old(self)@.rollovers, new_rollover_row(setting@, now@)) {
                Ok((rows, row)) => r matches Ok(x) && x@ == row && final(self)@ == (TablesView { rollovers: rows, ..old(self)@ }),
                Err(e) => r == Err::<BudgetRolloverSettingDB, BudgetError>(e) && final(self)@ == old(self)@,
            },
            old(self)@.wf() ==> final(self)@.wf(),
    {
        let row = build_rollover_row(setting, now);
        let ghost v = self@.rollovers;
        match find_same_rollover(&self.rollovers, &row) {
            Some(k) => {
                proof {
                    lemma_first_match_in(v, same_rollover_pred(row@), v.len() as int);
                }
                let mut u = self.rollovers[k].copy();
                u.enabled = row.enabled;
                u.start_month = row.start_month;
                u.starting_balance = row.starting_balance;
                u.updated_at = row.updated_at;
                let out = u.copy();
                self.rollovers[k] = u;
                assert(self@.rollovers =~= v.update(k as int, out@));
                assert(rollover_ids(self@.rollovers) =~= rollover_ids(v));
                Ok(out)
            },
            None => {
                if rollover_id_taken(&self.rollovers, row.id.as_str()) {
                    return Err(BudgetError::DuplicateId);
                }
                let stored = row.into_row();
                let out = stored.copy();
                self.rollovers.push(stored);
                assert(self@.rollovers =~= v.push(out@));
                assert(rollover_ids(self@.rollovers) =~= rollover_ids(v).push(out@.id));
                Ok(out)
            },
        }
    }

    /// Sets a rollover setting now; see `upsert_rollover_setting_at`.
    pub fn upsert_rollover_setting(&mut self, setting: NewBudgetRolloverSetting) -> (r: Result<BudgetRolloverSetting, BudgetError>)
        ensures
            old(self)@.wf() ==> final(self)@.wf(),
            match r {
                Ok(t) => exists|now: Seq<char>, rows: Seq<RolloverRow>, row: RolloverRow|
                    rfc3339_instant(now) is Some &&
                    upserted_rollover(old(self)@.rollovers, new_rollover_row(setting@, now)) == Ok::<(Seq<RolloverRow>, RolloverRow), BudgetError>((rows, row))
                        && final(self)@ == (TablesView { rollovers: rows, ..old(self)@ }) && rollover_record_of(t, row),
                Err(e) => final(self)@ == old(self)@ && exists|now: Seq<char>|
                    upserted_rollover(old(self)@.rollovers, new_rollover_row(setting@, now)) == Err::<(Seq<RolloverRow>, RolloverRow), BudgetError>(e),
            },
    {
        let now = now_rfc3339();
        match self.upsert_rollover_setting_at(setting, now.as_str()) {
            Ok(row) => Ok(BudgetRolloverSetting::from_db(row)),
            Err(e) => Err(e),
        }
    }

    /// Deletes the rollover setting with the given identifier, if there is one.
    pub fn delete_rollover_setting(&mut self, id: &str)
        ensures
            final(self)@ == (TablesView {
                rollovers: old(self)@.rollovers.filter(|r: RolloverRow| r.id != id@),
                ..old(self)@
            }),
            old(self)@.wf() ==> final(self)@.wf(),
    {
        let ghost v = self@.rollovers;
        let ghost keep = |r: RolloverRow| r.id != id@;
        let n = self.rollovers.len();
        let mut out: Vec<BudgetRolloverSettingDB> = Vec::new();
        let mut i: usize = 0;
        while i < n
            invariant
                n == self.rollovers.len(),
                v == rollover_rows(self.rollovers@),
                keep == (|r: RolloverRow| r.id != id@),
                i <= n,
                rollover_rows(out@) == v.take(i as int).filter(keep),
            decreases n - i,
        {
            let ghost out0 = out@;
            proof {
                reveal(Seq::filter);
                assert(v.take(i as int + 1).drop_last() =~= v.take(i as int));
            }
            assert(v[i as int] == self.rollovers@[i as int]@);
            if !text_eq(self.rollovers[i].id.as_str(), id) {
                let row = self.rollovers[i].copy();
                out.push(row);
                assert(rollover_rows(out@) =~= rollover_rows(out0).push(row@));
            }
            i = i + 1;
        }
        assert(v.take(n as int) =~= v);
        proof {
            if rollover_ids(v).no_duplicates() {
                lemma_rollover_filter_ids(v, keep);
            }
        }
        self.rollovers = out;
    }

    /// Turns off, at time `now`, the rollover settings of the given categories
    /// of a taxonomy, and gives those settings afterwards. With no categories
    /// nothing changes.
    pub fn disable_category_rollovers_at(&mut self, taxonomy_id: &str, category_ids: &[String], now: &str) -> (r: Vec<BudgetRolloverSettingDB>)
        ensures
            category_ids@.len() == 0 ==> final(self)@ == old(self)@ && r@.len() == 0,
            category_ids@.len() > 0 ==> {
                &&& final(self)@ == (TablesView {
                    rollovers: disabled_rollovers(old(self)@.rollovers, taxonomy_id@, texts(category_ids@), now@),
                    ..old(self)@
                })
                &&& rollover_rows(r@) == final(self)@.rollovers.filter(
                    category_rollover_pred(taxonomy_id@, texts(category_ids@)),
                )
            },
            old(self)@.wf() ==> final(self)@.wf(),
    {
        if category_ids.len() == 0 {
            return Vec::new();
        }
        let ghost v = self@.rollovers;
        let ghost cats = texts(category_ids@);
        let ghost f = |x: RolloverRow| disabled(x, taxonomy_id@, cats, now@);
        let ghost pred = category_rollover_pred(taxonomy_id@, cats);
        let n = self.rollovers.len();
        let mut table: Vec<BudgetRolloverSettingDB> = Vec::new();
        let mut out: Vec<BudgetRolloverSettingDB> = Vec::new();
        let mut i: usize = 0;
        while i < n
            invariant
                n == self.rollovers.len(),
                v == rollover_rows(self.rollovers@),
                cats == texts(category_ids@),
                f == (|x: RolloverRow| disabled(x, taxonomy_id@, cats, now@)),
                pred == category_rollover_pred(taxonomy_id@, cats),
                i <= n,
                rollover_rows(table@) == v.take(i as int).map_values(f),
                rollover_rows(out@) == v.take(i as int).map_values(f).filter(pred),
            decreases n - i,
        {
            let ghost table0 = table@;
            let ghost out0 = out@;
            let mut row = self.rollovers[i].copy();
            assert(row@ == v[i as int]);
            let hit = is_category_rollover_exec(&row, taxonomy_id, category_ids);
            if hit {
                row.enabled = 0;
                row.updated_at = now.to_owned();
            }
            assert(row@ == f(v[i as int]));
            assert(pred(row@) == hit);
            proof {
                reveal(Seq::filter);
                assert(v.take(i as int + 1).map_values(f) =~= v.take(i as int).map_values(f).push(row@));
                assert(v.take(i as int + 1).map_values(f).drop_last() =~= v.take(i as int).map_values(f));
            }
            if hit {
                let c = row.copy();
                out.push(c);
                assert(rollover_rows(out@) =~= rollover_rows(out0).push(c@));
            }
            table.push(row);
            assert(rollover_rows(table@) =~= rollover_rows(table0).push(row@));
            i = i + 1;
        }
        assert(v.take(n as int) =~= v);
        assert(rollover_ids(v.map_values(f)) =~= rollover_ids(v));
        self.rollovers = table;
        out
    }

    /// Turns off now the rollover settings of the given categories; see
    /// `disable_category_rollovers_at`.
    pub fn disable_category_rollovers(&mut self, taxonomy_id: &str, category_ids: &[String]) -> (r: Vec<BudgetRolloverSetting>)
        ensures
            category_ids@.len() == 0 ==> final(self)@ == old(self)@ && r@.len() == 0,
            category_ids@.len() > 0 ==> exists|now: Seq<char>|
                rfc3339_instant(now) is Some && final(self)@ == (TablesView {
                    rollovers: #[trigger] disabled_rollovers(old(self)@.rollovers, taxonomy_id@, texts(category_ids@), now),
                    ..old(self)@
                }),
            r@.len() == final(self)@.rollovers.filter(category_rollover_pred(taxonomy_id@, texts(category_ids@))).len(),
            forall|i: int|
                0 <= i < r@.len() ==> rollover_record_of(
                    #[trigger] r@[i],
                    final(self)@.rollovers.filter(category_rollover_pred(taxonomy_id@, texts(category_ids@)))[i],
                ),
            old(self)@.wf() ==> final(self)@.wf(),
    {
        if category_ids.len() == 0 {
            proof {
                reveal(Seq::filter);
                assert(forall|i: int| 0 <= i < self@.rollovers.len() ==> !category_rollover_pred(taxonomy_id@, texts(category_ids@))(#[trigger] self@.rollovers[i]));
                lemma_filter_none(self@.rollovers, category_rollover_pred(taxonomy_id@, texts(category_ids@)));
            }
            return Vec::new();
        }
        let now = now_rfc3339();
        let rows = self.disable_category_rollovers_at(taxonomy_id, category_ids, now.as_str());
        let mut out: Vec<BudgetRolloverSetting> = Vec::new();
        let n = rows.len();
        let mut i: usize = 0;
        while i < n
            invariant
                n == rows.len(),
                i <= n,
                out@.len() == i,
                forall|j: int| 0 <= j < i ==> rollover_record_of(#[trigger] out@[j], rows@[j]@),
            decreases n - i,
        {
            out.push(BudgetRolloverSetting::from_db(rows[i].copy()));
            i = i + 1;
        }
        proof {
            assert forall|j: int| 0 <= j < n implies rows@[j]@ == rollover_rows(rows@)[j] by {}
            assert(self@.rollovers == disabled_rollovers(old(self)@.rollovers, taxonomy_id@, texts(category_ids@), now@));
        }
        out
    }
}

/// Nothing passes a filter that nothing satisfies.
pub proof fn lemma_filter_none<T>(s: Seq<T>, p: spec_fn(T) -> bool)
    requires
        forall|i: int| 0 <= i < s.len() ==> !p(#[trigger] s[i]),
    ensures
        s.filter(p).len() == 0,
    decreases s.len(),
{
    reveal(Seq::filter);
    if s.len() > 0 {
        lemma_filter_none(s.drop_last(), p);
        assert(!p(s[s.len() - 1]));
    }
}

} // verus!
