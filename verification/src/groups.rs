//! Budget groups: deleting one moves its categories and buffers to another.

use crate::buffers::{count_new_buffers, effective_row, is_buffer_of, merge_buffers, merged_amount, merge_overflows, merged_targets, new_buffer_count};
use crate::clock::{now_rfc3339, rfc3339_instant};
use crate::ids::{is_uuid_text, new_uuid};
use crate::laws::{effective_text, lemma_delete_group_drops_source_ids, lemma_delete_group_keeps_keys, lemma_delete_merges_buffers};
use crate::model::{
    group_record_of, AssignmentRow, BudgetGroup, BudgetGroupAssignmentDB, BudgetGroupDB, BudgetRolloverSettingDB,
    GroupPatch, GroupRequest, GroupRow, NewBudgetGroup, NewBudgetGroupDB, RolloverRow, UpdateBudgetGroup,
};
use crate::tables::{
    assignment_rows, first_match, group_id_taken, group_ids, group_rows, lemma_first_match_in, lemma_first_match_is, rollover_rows,
    fresh_ids, fresh_target_ids, target_ids, texts, BudgetError, BudgetTables, TablesView,
};
use crate::text::{opt_is, text_eq};
use vstd::prelude::*;

verus! {

/// Matches the group with the given identifier.
pub open spec fn group_pred(id: Seq<char>) -> spec_fn(GroupRow) -> bool {
    |g: GroupRow| g.id == id
}

/// The index of the group with the given identifier.
pub open spec fn find_group(groups: Seq<GroupRow>, id: Seq<char>) -> Option<int> {
    first_match(groups, group_pred(id))
}

/// Whether a rollover setting is that of the given group.
pub open spec fn is_group_rollover(r: RolloverRow, id: Seq<char>) -> bool {
    r.target_type == "group"@ && r.group_id == Some(id)
}

/// Whether the group has a rollover setting.
pub open spec fn has_group_rollover(rollovers: Seq<RolloverRow>, id: Seq<char>) -> bool {
    exists|k: int| 0 <= k < rollovers.len() && is_group_rollover(#[trigger] rollovers[k], id)
}

/// An assignment after its group `src` was deleted into `dst`.
pub open spec fn reassigned(a: AssignmentRow, src: Seq<char>, dst: Seq<char>, now: Seq<char>) -> AssignmentRow {
    if a.group_id == src {
        AssignmentRow { group_id: dst, is_system: 0, updated_at: now, ..a }
    } else {
        a
    }
}

/// The checks made before group `id` is deleted into group `dst`: that both
/// exist, that `id` is not the "Other" group nor `dst`, and that `id` has no
/// rollover setting.
pub open spec fn delete_group_guard(t: TablesView, id: Seq<char>, dst: Seq<char>) -> Result<(), BudgetError> {
    match find_group(t.groups, id) {
        None => Err(BudgetError::GroupNotFound),
        Some(k) => if t.groups[k].key == "other"@ {
            Err(BudgetError::OtherGroupUndeletable)
        } else if id == dst {
            Err(BudgetError::ReassignToSameGroup)
        } else if find_group(t.groups, dst) is None {
            Err(BudgetError::ReassignmentGroupNotFound)
        } else if has_group_rollover(t.rollovers, id) {
            Err(BudgetError::GroupHasRolloverSetting)
        } else {
            Ok(())
        },
    }
}

/// Whether group `id` may be deleted into group `dst`, and if not, why: the
/// checks, then that no merged buffer amount overflows.
pub open spec fn delete_group_check(t: TablesView, id: Seq<char>, dst: Seq<char>) -> Result<(), BudgetError> {
    match delete_group_guard(t, id, dst) {
        Err(e) => Err(e),
        Ok(()) => if merge_overflows(t.targets, id, dst) {
            Err(BudgetError::AmountOverflow)
        } else {
            Ok(())
        },
    }
}

/// The tables after deleting group `id` into group `dst` at time `now`, new
/// buffer rows taking their identifiers from `ids` in order.
pub open spec fn deleted_into(t: TablesView, id: Seq<char>, dst: Seq<char>, now: Seq<char>, ids: Seq<Seq<char>>) -> TablesView {
    TablesView {
        groups: t.groups.filter(|g: GroupRow| g.id != id),
        assignments: t.assignments.map_values(|a: AssignmentRow| reassigned(a, id, dst, now)),
        targets: merged_targets(t.targets, id, dst, now, ids),
        rollovers: t.rollovers,
    }
}

/// The index of the group with the given identifier.
pub fn find_group_index(groups: &Vec<BudgetGroupDB>, id: &str) -> (r: Option<usize>)
    ensures
        match r {
            Some(k) => find_group(group_rows(groups@), id@) == Some(k as int),
            None => find_group(group_rows(groups@), id@) is None,
        },
{
    let ghost v = group_rows(groups@);
    let ghost pred = group_pred(id@);
    let n = groups.len();
    let mut i: usize = 0;
    while i < n
        invariant
            n == groups.len(),
            v == group_rows(groups@),
            pred == group_pred(id@),
            i <= n,
            forall|j: int| 0 <= j < i ==> !pred(#[trigger] v[j]),
        decreases n - i,
    {
        if text_eq(groups[i].id.as_str(), id) {
            proof {
                lemma_first_match_is(v, pred, i as int);
            }
            return Some(i);
        }
        i = i + 1;
    }
    proof {
        lemma_first_match_in(v, pred, v.len() as int);
        if first_match(v, pred) is Some {
            let k = first_match(v, pred).unwrap();
            assert(pred(v[k]));
        }
    }
    None
}

/// Whether the group has a rollover setting.
pub fn has_group_rollover_row(rollovers: &Vec<BudgetRolloverSettingDB>, id: &str) -> (b: bool)
    ensures
        b == has_group_rollover(rollover_rows(rollovers@), id@),
{
    let ghost v = rollover_rows(rollovers@);
    let n = rollovers.len();
    let mut i: usize = 0;
    while i < n
        invariant
            n == rollovers.len(),
            v == rollover_rows(rollovers@),
            i <= n,
            forall|j: int| 0 <= j < i ==> !is_group_rollover(#[trigger] v[j], id@),
        decreases n - i,
    {
        let r = &rollovers[i];
        if text_eq(r.target_type.as_str(), "group") && opt_is(&r.group_id, id) {
            assert(is_group_rollover(v[i as int], id@));
            return true;
        }
        i = i + 1;
    }
    false
}

/// The groups without the one with the given identifier.
pub fn groups_without(groups: &Vec<BudgetGroupDB>, id: &str) -> (r: Vec<BudgetGroupDB>)
    ensures
        group_rows(r@) == group_rows(groups@).filter(|g: GroupRow| g.id != id@),
{
    let ghost v = group_rows(groups@);
    let ghost keep = |g: GroupRow| g.id != id@;
    let n = groups.len();
    let mut out: Vec<BudgetGroupDB> = Vec::new();
    let mut i: usize = 0;
    while i < n
        invariant
            n == groups.len(),
            v == group_rows(groups@),
            keep == (|g: GroupRow| g.id != id@),
            i <= n,
            group_rows(out@) == v.take(i as int).filter(keep),
        decreases n - i,
    {
        let ghost out0 = out@;
        proof {
            reveal(Seq::filter);
            assert(v.take(i as int + 1).drop_last() =~= v.take(i as int));
        }
        if !text_eq(groups[i].id.as_str(), id) {
            let row = groups[i].copy();
            out.push(row);
            assert(group_rows(out@) =~= group_rows(out0).push(row@));
        }
        i = i + 1;
    }
    assert(v.take(n as int) =~= v);
    out
}

/// The assignments after group `src` was deleted into `dst` at time `now`.
pub fn reassign_rows(assignments: &Vec<BudgetGroupAssignmentDB>, src: &str, dst: &str, now: &str) -> (r: Vec<BudgetGroupAssignmentDB>)
    ensures
        assignment_rows(r@) == assignment_rows(assignments@).map_values(
            |a: AssignmentRow| reassigned(a, src@, dst@, now@),
        ),
{
    let ghost v = assignment_rows(assignments@);
    let ghost f = |a: AssignmentRow| reassigned(a, src@, dst@, now@);
    let n = assignments.len();
    let mut out: Vec<BudgetGroupAssignmentDB> = Vec::new();
    let mut i: usize = 0;
    while i < n
        invariant
            n == assignments.len(),
            v == assignment_rows(assignments@),
            f == (|a: AssignmentRow| reassigned(a, src@, dst@, now@)),
            i <= n,
            assignment_rows(out@) == v.take(i as int).map_values(f),
        decreases n - i,
    {
        let ghost out0 = out@;
        let mut row = assignments[i].copy();
        assert(row@ == v[i as int]);
        if text_eq(row.group_id.as_str(), src) {
            row.group_id = dst.to_owned();
            row.is_system = 0;
            row.updated_at = now.to_owned();
        }
        out.push(row);
        assert(assignment_rows(out@) =~= assignment_rows(out0).push(row@));
        assert(v.take(i as int + 1).map_values(f) =~= v.take(i as int).map_values(f).push(f(v[i as int])));
        i = i + 1;
    }
    assert(v.take(n as int) =~= v);
    out
}

/// The row that a group request makes at time `now`; an absent identifier
/// or key is taken from `gen_id` or `gen_key`, an absent sort order is 0.
pub open spec fn new_group_row(req: GroupRequest, now: Seq<char>, gen_id: Seq<char>, gen_key: Seq<char>) -> GroupRow {
    GroupRow {
        id: match req.id {
            Some(id) => id,
            None => gen_id,
        },
        name: req.name,
        key: match req.key {
            Some(k) => k,
            None => gen_key,
        },
        color: req.color,
        icon: req.icon,
        sort_order: match req.sort_order {
            Some(o) => o,
            None => 0,
        },
        is_system: if req.is_system {
            1
        } else {
            0
        },
        created_at: now,
        updated_at: now,
    }
}

/// A group after a change at time `now`: each given field replaced.
pub open spec fn patched_group(g: GroupRow, patch: GroupPatch, now: Seq<char>) -> GroupRow {
    GroupRow {
        name: match patch.name {
            Some(n) => n,
            None => g.name,
        },
        color: match patch.color {
            Some(c) => c,
            None => g.color,
        },
        icon: match patch.icon {
            Some(i) => i,
            None => g.icon,
        },
        sort_order: match patch.sort_order {
            Some(o) => o,
            None => g.sort_order,
        },
        updated_at: now,
        ..g
    }
}

/// The groups after a change to group `id`, and the changed row; refused
/// where there is no such group.
pub open spec fn updated_group(groups: Seq<GroupRow>, id: Seq<char>, patch: GroupPatch, now: Seq<char>) -> Result<(Seq<GroupRow>, GroupRow), BudgetError> {
    match find_group(groups, id) {
        None => Err(BudgetError::RecordNotFound),
        Some(k) => {
            let g = patched_group(groups[k], patch, now);
            Ok((groups.update(k, g), g))
        },
    }
}

/// The random identifier and key drawn for a new group: each, where the
/// request lacks it, has the shape of a version 4 UUID.
pub open spec fn drawn_for(req: GroupRequest, gen_id: Seq<char>, gen_key: Seq<char>) -> bool {
    &&& req.id is None ==> is_uuid_text(gen_id, '4')
    &&& req.key is None ==> is_uuid_text(gen_key, '4')
}

impl BudgetTables {
    /// Creates a group at time `now`, taking `gen_id` and `gen_key` where the
    /// request has no identifier or key. Refused, with the tables unchanged,
    /// where the identifier is taken.
    pub fn create_group_at(&mut self, new_group: NewBudgetGroup, now: &str, gen_id: &str, gen_key: &str) -> (r: Result<BudgetGroupDB, BudgetError>)
        ensures
            ({
                let row = new_group_row(new_group@, now@, gen_id@, gen_key@);
                if group_ids(old(self)@.groups).contains(row.id) {
                    r == Err::<BudgetGroupDB, BudgetError>(BudgetError::DuplicateId) && final(self)@ == old(self)@
                } else {
                    r matches Ok(x) && x@ == row && final(self)@ == (TablesView {
                        groups: old(self)@.groups.push(row),
                        ..old(self)@
                    })
                }
            }),
            old(self)@.wf() ==> final(self)@.wf(),
            r matches Ok(x) ==> x@.name == new_group@.name && x@.color == new_group@.color && x@.icon
                == new_group@.icon && (x@.is_system != 0) == new_group@.is_system,
    {
        let row = NewBudgetGroupDB {
            id: match new_group.id {
                Some(id) => id,
                None => gen_id.to_owned(),
            },
            key: match new_group.key {
                Some(k) => k,
                None => gen_key.to_owned(),
            },
            name: new_group.name,
            color: new_group.color,
            icon: new_group.icon,
            sort_order: match new_group.sort_order {
                Some(o) => o,
                None => 0,
            },
            is_system: if new_group.is_system {
                1
            } else {
                0
            },
            created_at: now.to_owned(),
            updated_at: now.to_owned(),
        };
        if group_id_taken(&self.groups, row.id.as_str()) {
            return Err(BudgetError::DuplicateId);
        }
        let ghost v = self@.groups;
        let stored = row.into_row();
        let out = stored.copy();
        self.groups.push(stored);
        assert(self@.groups =~= v.push(out@));
        assert(group_ids(self@.groups) =~= group_ids(v).push(out@.id));
        Ok(out)
    }

    /// Creates a group now, with fresh random identifier and key where the
    /// request has none; see `create_group_at`.
    pub fn create_group(&mut self, new_group: NewBudgetGroup) -> (r: Result<BudgetGroup, BudgetError>)
        ensures
            old(self)@.wf() ==> final(self)@.wf(),
            match r {
                Ok(g) => g.created_at == g.updated_at && exists|now: Seq<char>, gen_id: Seq<char>, gen_key: Seq<char>|
                    rfc3339_instant(now) is Some && drawn_for(new_group@, gen_id, gen_key) &&
                    !group_ids(old(self)@.groups).contains(#[trigger] new_group_row(new_group@, now, gen_id, gen_key).id)
                        && final(self)@ == (TablesView {
                            groups: old(self)@.groups.push(new_group_row(new_group@, now, gen_id, gen_key)),
                            ..old(self)@
                        }) && group_record_of(g, new_group_row(new_group@, now, gen_id, gen_key)),
                Err(e) => e == BudgetError::DuplicateId && final(self)@ == old(self)@ && exists|now: Seq<char>, gen_id: Seq<char>, gen_key: Seq<char>|
                    drawn_for(new_group@, gen_id, gen_key) && group_ids(old(self)@.groups).contains(#[trigger] new_group_row(new_group@, now, gen_id, gen_key).id),
            },
            new_group@.id matches Some(i) && !group_ids(old(self)@.groups).contains(i) ==> r is Ok,
            r matches Ok(g) ==> (new_group@.id is None ==> is_uuid_text(g.id@, '4')) && (new_group@.key is None
                ==> is_uuid_text(g.key@, '4')),
    {
        let now = now_rfc3339();
        let gen_id = if new_group.id.is_none() {
            new_uuid()
        } else {
            String::new()
        };
        let gen_key = if new_group.key.is_none() {
            new_uuid()
        } else {
            String::new()
        };
        match self.create_group_at(new_group, now.as_str(), gen_id.as_str(), gen_key.as_str()) {
            Ok(row) => Ok(BudgetGroup::from_db(row)),
            Err(e) => Err(e),
        }
    }

    /// Changes group `id` at time `now`, replacing each field the change
    /// gives. Gives the changed row; refused, with the tables unchanged,
    /// where there is no such group.
    pub fn update_group_at(&mut self, id: &str, patch: UpdateBudgetGroup, now: &str) -> (r: Result<BudgetGroupDB, BudgetError>)
        ensures
            match updated_group(old(self)@.groups, id@, patch@, now@) {
                Ok((groups, row)) => r matches Ok(x) && x@ == row && final(self)@ == (TablesView { groups, ..old(self)@ }),
                Err(e) => r == Err::<BudgetGroupDB, BudgetError>(e) && final(self)@ == old(self)@,
            },
            old(self)@.wf() ==> final(self)@.wf(),
            r matches Ok(x) ==> {
                &&& (patch@.name matches Some(v) ==> x@.name == v)
                &&& (patch@.color matches Some(v) ==> x@.color == v)
                &&& (patch@.icon matches Some(v) ==> x@.icon == v)
                &&& (patch@.sort_order matches Some(v) ==> x@.sort_order == v)
                &&& x@.id == id@
                &&& x@.updated_at == now@
            },
    {
        let k = match find_group_index(&self.groups, id) {
            Some(k) => k,
            None => return Err(BudgetError::RecordNotFound),
        };
        let ghost v = self@.groups;
        proof {
            lemma_first_match_in(v, group_pred(id@), v.len() as int);
        }
        let mut g = self.groups[k].copy();
        if let Some(name) = patch.name {
            g.name = name;
        }
        if let Some(color) = patch.color {
            g.color = color;
        }
        if let Some(icon) = patch.icon {
            g.icon = icon;
        }
        if let Some(sort_order) = patch.sort_order {
            g.sort_order = sort_order;
        }
        g.updated_at = now.to_owned();
        let out = g.copy();
        self.groups[k] = g;
        assert(self@.groups =~= v.update(k as int, out@));
        assert(group_ids(self@.groups) =~= group_ids(v));
        Ok(out)
    }

    /// Changes group `id` now; see `update_group_at`.
    pub fn update_group(&mut self, id: &str, patch: UpdateBudgetGroup) -> (r: Result<BudgetGroup, BudgetError>)
        ensures
            old(self)@.wf() ==> final(self)@.wf(),
            match r {
                Ok(g) => exists|now: Seq<char>, groups: Seq<GroupRow>, row: GroupRow|
                    rfc3339_instant(now) is Some &&
                    updated_group(old(self)@.groups, id@, patch@, now) == Ok::<(Seq<GroupRow>, GroupRow), BudgetError>((groups, row))
                        && final(self)@ == (TablesView { groups, ..old(self)@ }) && group_record_of(g, row),
                Err(e) => e == BudgetError::RecordNotFound && find_group(old(self)@.groups, id@) is None
                    && final(self)@ == old(self)@,
            },
    {
        let now = now_rfc3339();
        match self.update_group_at(id, patch, now.as_str()) {
            Ok(row) => Ok(BudgetGroup::from_db(row)),
            Err(e) => Err(e),
        }
    }

    /// Checks whether group `id` may be deleted into group `dst`.
    pub fn check_group_deletion(&self, id: &str, dst: &str) -> (r: Result<(), BudgetError>)
        ensures
            r == delete_group_guard(self@, id@, dst@),
    {
        let k = match find_group_index(&self.groups, id) {
            Some(k) => k,
            None => return Err(BudgetError::GroupNotFound),
        };
        proof {
            lemma_first_match_in(self@.groups, group_pred(id@), self@.groups.len() as int);
        }
        assert(self@.groups[k as int] == self.groups@[k as int]@);
        if text_eq(self.groups[k].key.as_str(), "other") {
            return Err(BudgetError::OtherGroupUndeletable);
        }
        if text_eq(id, dst) {
            return Err(BudgetError::ReassignToSameGroup);
        }
        if find_group_index(&self.groups, dst).is_none() {
            return Err(BudgetError::ReassignmentGroupNotFound);
        }
        if has_group_rollover_row(&self.rollovers, id) {
            return Err(BudgetError::GroupHasRolloverSetting);
        }
        Ok(())
    }

    /// Deletes group `id`, moving its categories to group `dst` and merging
    /// its buffers into those of `dst`, at time `now`; the `i`-th new buffer
    /// row gets the identifier `ids[i]`. Refused, with the tables unchanged,
    /// where `id` does not exist or is the "Other" group, where `dst` is `id`
    /// or does not exist, where `id` has a rollover setting, or where a merged
    /// amount overflows.
    pub fn delete_group_and_reassign_at(&mut self, id: &str, dst: &str, now: &str, ids: &Vec<String>) -> (r: Result<(), BudgetError>)
        requires
            ids@.len() >= new_buffer_count(old(self)@.targets, id@, dst@),
        ensures
            match delete_group_check(old(self)@, id@, dst@) {
                Ok(()) => r is Ok && final(self)@ == deleted_into(old(self)@, id@, dst@, now@, texts(ids@)),
                Err(e) => r == Err::<(), BudgetError>(e) && final(self)@ == old(self)@,
            },
            delete_group_check(old(self)@, id@, dst@) is Ok ==> forall|p: Seq<char>|
                #[trigger] effective_text(final(self)@.targets, dst@, p) == if effective_row(old(self)@.targets, id@, p) is None
                    && effective_row(old(self)@.targets, dst@, p) is None {
                    None
                } else {
                    merged_amount(old(self)@.targets, id@, dst@, p)
                },
    {
        match self.check_group_deletion(id, dst) {
            Ok(()) => {},
            Err(e) => return Err(e),
        }
        let targets = match merge_buffers(&self.targets, id, dst, now, ids) {
            Ok(v) => v,
            Err(e) => return Err(e),
        };
        let ghost before = self@;
        let groups = groups_without(&self.groups, id);
        let assignments = reassign_rows(&self.assignments, id, dst, now);
        self.groups = groups;
        self.assignments = assignments;
        self.targets = targets;
        proof {
            assert forall|p: Seq<char>|
                #[trigger] effective_text(self@.targets, dst@, p) == if effective_row(before.targets, id@, p) is None
                    && effective_row(before.targets, dst@, p) is None {
                    None
                } else {
                    merged_amount(before.targets, id@, dst@, p)
                } by {
                lemma_delete_merges_buffers(before, id@, dst@, now@, texts(ids@), p);
            }
        }
        Ok(())
    }

    /// Deletes group `id` into group `dst` now: its categories move to `dst`
    /// and its buffers merge into those of `dst`, new buffer rows getting
    /// fresh random identifiers, distinct and unused by any stored target.
    /// Refused, with the tables unchanged, where `delete_group_check`
    /// refuses, or where the drawn random identifiers repeat or one is
    /// already taken by a target; where
    /// the checks pass and no new buffer row is needed it succeeds.
    pub fn delete_group_and_reassign(&mut self, id: &str, dst: &str) -> (r: Result<(), BudgetError>)
        requires
            old(self)@.wf(),
        ensures
            final(self)@.wf(),
            match r {
                Ok(()) => delete_group_check(old(self)@, id@, dst@) is Ok && exists|now: Seq<char>, ids: Seq<Seq<char>>|
                    rfc3339_instant(now) is Some && ids.len() == new_buffer_count(old(self)@.targets, id@, dst@)
                        && fresh_ids(ids, old(self)@.targets)
                        && (forall|i: int| 0 <= i < ids.len() ==> is_uuid_text(#[trigger] ids[i], '4'))
                        && final(self)@ == #[trigger] deleted_into(old(self)@, id@, dst@, now, ids),
                Err(e) => final(self)@ == old(self)@ && ((e == BudgetError::DuplicateId && delete_group_guard(
                    old(self)@,
                    id@,
                    dst@,
                ) is Ok && new_buffer_count(old(self)@.targets, id@, dst@) > 0 && exists|ids: Seq<Seq<char>>|
                    ids.len() == new_buffer_count(old(self)@.targets, id@, dst@) && (forall|i: int|
                        0 <= i < ids.len() ==> is_uuid_text(#[trigger] ids[i], '4')) && !#[trigger] fresh_ids(
                        ids,
                        old(self)@.targets,
                    )) || delete_group_check(old(self)@, id@, dst@) == Err::<(), BudgetError>(e)),
            },
            delete_group_guard(old(self)@, id@, dst@) is Err ==> r == delete_group_guard(old(self)@, id@, dst@),
            delete_group_check(old(self)@, id@, dst@) is Ok && new_buffer_count(old(self)@.targets, id@, dst@) == 0
                ==> r is Ok,
            r is Ok ==> forall|k: int|
                0 <= k < old(self)@.targets.len() && is_buffer_of(#[trigger] old(self)@.targets[k], id@) ==> !target_ids(
                    final(self)@.targets,
                ).contains(old(self)@.targets[k].id),
            r is Ok ==> forall|p: Seq<char>|
                #[trigger] effective_text(final(self)@.targets, dst@, p) == if effective_row(old(self)@.targets, id@, p) is None
                    && effective_row(old(self)@.targets, dst@, p) is None {
                    None
                } else {
                    merged_amount(old(self)@.targets, id@, dst@, p)
                },

    {
        match self.check_group_deletion(id, dst) {
            Ok(()) => {},
            Err(e) => return Err(e),
        }
        let now = now_rfc3339();
        let count = count_new_buffers(&self.targets, id, dst);
        let mut ids: Vec<String> = Vec::new();
        let mut i: usize = 0;
        while i < count
            invariant
                i <= count,
                ids@.len() == i,
                forall|j: int| 0 <= j < i ==> is_uuid_text(#[trigger] ids@[j]@, '4'),
            decreases count - i,
        {
            ids.push(new_uuid());
            i = i + 1;
        }
        assert(forall|j: int| 0 <= j < ids@.len() ==> #[trigger] texts(ids@)[j] == ids@[j]@);
        if !fresh_target_ids(&ids, &self.targets) {
            proof {
                assert(texts(ids@).len() == count);
                assert(!fresh_ids(texts(ids@), self@.targets));
                assert(forall|i: int| 0 <= i < texts(ids@).len() ==> is_uuid_text(#[trigger] texts(ids@)[i], '4'));
                if count == 0 {
                    assert(texts(ids@) =~= Seq::<Seq<char>>::empty());
                }
            }
            return Err(BudgetError::DuplicateId);
        }
        let ghost before = self@;
        let r = self.delete_group_and_reassign_at(id, dst, now.as_str(), &ids);
        proof {
            if r is Ok {
                lemma_delete_group_keeps_keys(before, id@, dst@, now@, texts(ids@));
                lemma_delete_group_drops_source_ids(before, id@, dst@, now@, texts(ids@));
                assert(self@ == deleted_into(before, id@, dst@, now@, texts(ids@)));
                assert forall|p: Seq<char>|
                    #[trigger] effective_text(self@.targets, dst@, p) == if effective_row(before.targets, id@, p) is None
                        && effective_row(before.targets, dst@, p) is None {
                        None
                    } else {
                        merged_amount(before.targets, id@, dst@, p)
                    } by {
                    lemma_delete_merges_buffers(before, id@, dst@, now@, texts(ids@), p);
                }
            }
        }
        r
    }
}

} // verus!
