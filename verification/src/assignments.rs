//! Group assignments: placing categories of a taxonomy in budget groups.

use crate::clock::{now_rfc3339, rfc3339_instant};
use crate::ids::{assignment_key, budget_group_assignment_id, uuid_v5_oid_text};
use crate::model::{
    assignment_record_of, AssignmentRequest, AssignmentRow, BudgetGroupAssignment, BudgetGroupAssignmentDB,
    NewBudgetGroupAssignment,
};
use crate::tables::{
    assignment_id_taken, assignment_ids, assignment_rows, first_match, lemma_first_match_in,
    lemma_first_match_is, BudgetError, BudgetTables, TablesView,
};
use crate::text::text_eq;
use vstd::prelude::*;

verus! {

/// The identifier an assignment request gives its row: its own, else the
/// deterministic one of its taxonomy and category.
pub open spec fn assignment_id_for(req: AssignmentRequest) -> Seq<char> {
    match req.id {
        Some(id) => id,
        None => uuid_v5_oid_text(assignment_key(req.taxonomy_id, req.category_id)),
    }
}

/// Matches the assignment of the request's taxonomy and category.
pub open spec fn same_category_pred(req: AssignmentRequest) -> spec_fn(AssignmentRow) -> bool {
    |a: AssignmentRow| a.taxonomy_id == req.taxonomy_id && a.category_id == req.category_id
}

/// The assignments after one request, and the row stored for it: the
/// category's assignment is left alone where it already has the group and
/// flag, else it takes them and time stamp `now`; a category with no
/// assignment gets a new one, which fails where its identifier is taken.
pub open spec fn upsert_one(rows: Seq<AssignmentRow>, req: AssignmentRequest, is_system: i32, now: Seq<char>) -> Result<(Seq<AssignmentRow>, AssignmentRow), BudgetError> {
    match first_match(rows, same_category_pred(req)) {
        Some(k) => if rows[k].group_id == req.group_id && rows[k].is_system == is_system {
            Ok((rows, rows[k]))
        } else {
            let u = AssignmentRow { group_id: req.group_id, is_system, updated_at: now, ..rows[k] };
            Ok((rows.update(k, u), u))
        },
        None => {
            let row = AssignmentRow {
                id: assignment_id_for(req),
                group_id: req.group_id,
                taxonomy_id: req.taxonomy_id,
                category_id: req.category_id,
                is_system,
                created_at: now,
                updated_at: now,
            };
            if assignment_ids(rows).contains(row.id) {
                Err(BudgetError::DuplicateId)
            } else {
                Ok((rows.push(row), row))
            }
        },
    }
}

/// The assignments after the first `n` requests in order, and the rows
/// stored for them; the first refusal refuses all.
pub open spec fn upsert_all(rows: Seq<AssignmentRow>, reqs: Seq<AssignmentRequest>, is_system: i32, now: Seq<char>, n: int) -> Result<(Seq<AssignmentRow>, Seq<AssignmentRow>), BudgetError>
    decreases n,
{
    if n <= 0 {
        Ok((rows, Seq::empty()))
    } else {
        match upsert_all(rows, reqs, is_system, now, n - 1) {
            Err(e) => Err(e),
            Ok((t, out)) => match upsert_one(t, reqs[n - 1], is_system, now) {
                Err(e) => Err(e),
                Ok((t2, r)) => Ok((t2, out.push(r))),
            },
        }
    }
}

/// The requests by their characters.
pub open spec fn requests(v: Seq<NewBudgetGroupAssignment>) -> Seq<AssignmentRequest> {
    v.map_values(|a: NewBudgetGroupAssignment| a@)
}

/// Each request stores one row.
pub proof fn lemma_upsert_all_len(rows: Seq<AssignmentRow>, reqs: Seq<AssignmentRequest>, is_system: i32, now: Seq<char>, n: int)
    requires
        n >= 0,
    ensures
        upsert_all(rows, reqs, is_system, now, n) matches Ok((t, out)) ==> out.len() == n,
    decreases n,
{
    if n > 0 {
        lemma_upsert_all_len(rows, reqs, is_system, now, n - 1);
    }
}

/// Once a request is refused, so is every longer run of requests.
pub proof fn lemma_upsert_all_err(rows: Seq<AssignmentRow>, reqs: Seq<AssignmentRequest>, is_system: i32, now: Seq<char>, m: int, n: int)
    requires
        0 <= m <= n,
        upsert_all(rows, reqs, is_system, now, m) is Err,
    ensures
        upsert_all(rows, reqs, is_system, now, n) == upsert_all(rows, reqs, is_system, now, m),
    decreases n - m,
{
    if m < n {
        lemma_upsert_all_err(rows, reqs, is_system, now, m, n - 1);
    }
}

/// One request keeps the identifiers of the assignments unique.
pub proof fn lemma_upsert_one_keys(rows: Seq<AssignmentRow>, req: AssignmentRequest, is_system: i32, now: Seq<char>)
    requires
        assignment_ids(rows).no_duplicates(),
    ensures
        upsert_one(rows, req, is_system, now) matches Ok((t, r)) ==> assignment_ids(t).no_duplicates(),
{
    lemma_first_match_in(rows, same_category_pred(req), rows.len() as int);
    match first_match(rows, same_category_pred(req)) {
        Some(k) => {
            let u = AssignmentRow { group_id: req.group_id, is_system, updated_at: now, ..rows[k] };
            assert(assignment_ids(rows.update(k, u)) =~= assignment_ids(rows));
        },
        None => {
            let row = AssignmentRow {
                id: assignment_id_for(req),
                group_id: req.group_id,
                taxonomy_id: req.taxonomy_id,
                category_id: req.category_id,
                is_system,
                created_at: now,
                updated_at: now,
            };
            assert(assignment_ids(rows.push(row)) =~= assignment_ids(rows).push(row.id));
        },
    }
}

fn same_category_exec(a: &BudgetGroupAssignmentDB, req: &NewBudgetGroupAssignment) -> (b: bool)
    ensures
        b == same_category_pred(req@)(a@),
{
    a.taxonomy_id == req.taxonomy_id && a.category_id == req.category_id
}

/// The index of the assignment of the request's category.
fn find_category(rows: &Vec<BudgetGroupAssignmentDB>, req: &NewBudgetGroupAssignment) -> (r: Option<usize>)
    ensures
        match r {
            Some(k) => first_match(assignment_rows(rows@), same_category_pred(req@)) == Some(k as int),
            None => first_match(assignment_rows(rows@), same_category_pred(req@)) is None,
        },
{
    let ghost v = assignment_rows(rows@);
    let ghost pred = same_category_pred(req@);
    let n = rows.len();
    let mut i: usize = 0;
    while i < n
        invariant
            n == rows.len(),
            v == assignment_rows(rows@),
            pred == same_category_pred(req@),
            i <= n,
            forall|j: int| 0 <= j < i ==> !pred(#[trigger] v[j]),
        decreases n - i,
    {
        if same_category_exec(&rows[i], req) {
            proof {
                lemma_first_match_is(v, pred, i as int);
            }
            return Some(i);
        }
        i = i + 1;
    }
    proof {
        lemma_first_match_in(v, pred, v.len() as int);
        if first_match(v, pred) is Some {
            let k = first_match(v, pred).unwrap();
            assert(pred(v[k]));
        }
    }
    None
}

/// A copy of every assignment.
fn copy_assignment_rows(rows: &Vec<BudgetGroupAssignmentDB>) -> (r: Vec<BudgetGroupAssignmentDB>)
    ensures
        r@ == rows@,
{
    let n = rows.len();
    let mut out: Vec<BudgetGroupAssignmentDB> = Vec::new();
    let mut i: usize = 0;
    while i < n
        invariant
            n == rows.len(),
            i <= n,
            out@ == rows@.take(i as int),
        decreases n - i,
    {
        out.push(rows[i].copy());
        assert(out@ =~= rows@.take(i as int + 1));
        i = i + 1;
    }
    assert(rows@.take(n as int) =~= rows@);
    out
}

impl BudgetTables {
    /// Places categories in groups at time `now`, one request after the
    /// other, with the given system flag. Gives the row stored for each
    /// request; where one is refused, all are, and the tables stay unchanged.
    pub fn upsert_group_assignments_with_system_flag_at(
        &mut self,
        assignments: Vec<NewBudgetGroupAssignment>,
        is_system: i32,
        now: &str,
    ) -> (r: Result<Vec<BudgetGroupAssignmentDB>, BudgetError>)
        ensures
            match upsert_all(old(self)@.assignments, requests(assignments@), is_system, now@, assignments@.len() as int) {
                Ok((rows, out)) => r matches Ok(x) && assignment_rows(x@) == out && final(self)@ == (TablesView { assignments: rows, ..old(self)@ }),
                Err(e) => r == Err::<Vec<BudgetGroupAssignmentDB>, BudgetError>(e) && final(self)@ == old(self)@,
            },
            old(self)@.wf() ==> final(self)@.wf(),
    {
        let ghost reqs = requests(assignments@);
        let ghost start = self@.assignments;
        let ghost old_wf = assignment_ids(start).no_duplicates();
        let mut table = copy_assignment_rows(&self.assignments);
        let mut out: Vec<BudgetGroupAssignmentDB> = Vec::new();
        let n = assignments.len();
        let mut i: usize = 0;
        assert(assignment_rows(out@) =~= Seq::<AssignmentRow>::empty());
        while i < n
            invariant
                n == assignments.len(),
                reqs == requests(assignments@),
                start == old(self)@.assignments,
                self@ == old(self)@,
                i <= n,
                upsert_all(start, reqs, is_system, now@, i as int) == Ok::<(Seq<AssignmentRow>, Seq<AssignmentRow>), BudgetError>((assignment_rows(table@), assignment_rows(out@))),
                old_wf ==> assignment_ids(assignment_rows(table@)).no_duplicates(),
            decreases n - i,
        {
            let req = &assignments[i];
            assert(reqs[i as int] == req@);
            let ghost t0 = assignment_rows(table@);
            let ghost o0 = assignment_rows(out@);
            proof {
                lemma_first_match_in(t0, same_category_pred(req@), t0.len() as int);
                if old_wf {
                    lemma_upsert_one_keys(t0, req@, is_system, now@);
                }
            }
            match find_category(&table, req) {
                Some(k) => {
                    if table[k].group_id == req.group_id && table[k].is_system == is_system {
                        let row = table[k].copy();
                        out.push(row);
                        assert(assignment_rows(out@) =~= o0.push(row@));
                    } else {
                        let mut u = table[k].copy();
                        u.group_id = req.group_id.clone();
                        u.is_system = is_system;
                        u.updated_at = now.to_owned();
                        let row = u.copy();
                        table[k] = u;
                        assert(assignment_rows(table@) =~= t0.update(k as int, row@));
                        out.push(row);
                        assert(assignment_rows(out@) =~= o0.push(row@));
                    }
                },
                None => {
                    let id = match &req.id {
                        Some(id) => id.clone(),
                        None => budget_group_assignment_id(req.taxonomy_id.as_str(), req.category_id.as_str()),
                    };
                    if assignment_id_taken(&table, id.as_str()) {
                        proof {
                            lemma_upsert_all_err(start, reqs, is_system, now@, i as int + 1, n as int);
                        }
                        return Err(BudgetError::DuplicateId);
                    }
                    let row = BudgetGroupAssignmentDB {
                        id,
                        group_id: req.group_id.clone(),
                        taxonomy_id: req.taxonomy_id.clone(),
                        category_id: req.category_id.clone(),
                        is_system,
                        created_at: now.to_owned(),
                        updated_at: now.to_owned(),
                    };
                    let c = row.copy();
                    table.push(row);
                    assert(assignment_rows(table@) =~= t0.push(c@));
                    out.push(c);
                    assert(assignment_rows(out@) =~= o0.push(c@));
                },
            }
            i = i + 1;
        }
        self.assignments = table;
        Ok(out)
    }

    /// Places categories in groups now, with the given system flag; see
    /// `upsert_group_assignments_with_system_flag_at`.
    pub fn upsert_group_assignments_with_system_flag(
        &mut self,
        assignments: Vec<NewBudgetGroupAssignment>,
        is_system: i32,
    ) -> (r: Result<Vec<BudgetGroupAssignment>, BudgetError>)
        ensures
            old(self)@.wf() ==> final(self)@.wf(),
            match r {
                Ok(v) => exists|now: Seq<char>, rows: Seq<AssignmentRow>, out: Seq<AssignmentRow>|
                    rfc3339_instant(now) is Some &&
                    upsert_all(old(self)@.assignments, requests(assignments@), is_system, now, assignments@.len() as int) == Ok::<(Seq<AssignmentRow>, Seq<AssignmentRow>), BudgetError>((rows, out))
                        && final(self)@ == (TablesView { assignments: rows, ..old(self)@ })
                        && v@.len() == out.len()
                        && forall|i: int| 0 <= i < v@.len() ==> assignment_record_of(#[trigger] v@[i], out[i]),
                Err(e) => final(self)@ == old(self)@ && exists|now: Seq<char>|
                    upsert_all(old(self)@.assignments, requests(assignments@), is_system, now, assignments@.len() as int) == Err::<(Seq<AssignmentRow>, Seq<AssignmentRow>), BudgetError>(e),
            },
    {
        let now = now_rfc3339();
        let rows = match self.upsert_group_assignments_with_system_flag_at(assignments, is_system, now.as_str()) {
            Ok(rows) => rows,
            Err(e) => return Err(e),
        };
        let mut out: Vec<BudgetGroupAssignment> = Vec::new();
        let n = rows.len();
        let mut i: usize = 0;
        while i < n
            invariant
                n == rows.len(),
                i <= n,
                out@.len() == i,
                forall|j: int| 0 <= j < i ==> assignment_record_of(#[trigger] out@[j], rows@[j]@),
            decreases n - i,
        {
            out.push(BudgetGroupAssignment::from_db(rows[i].copy()));
            i = i + 1;
        }
        proof {
            assert forall|j: int| 0 <= j < n implies rows@[j]@ == assignment_rows(rows@)[j] by {}
        }
        Ok(out)
    }

    /// Places categories in groups now, as user choices (system flag 0).
    pub fn upsert_group_assignments(&mut self, assignments: Vec<NewBudgetGroupAssignment>) -> (r: Result<Vec<BudgetGroupAssignment>, BudgetError>)
        ensures
            old(self)@.wf() ==> final(self)@.wf(),
            match r {
                Ok(v) => exists|now: Seq<char>, rows: Seq<AssignmentRow>, out: Seq<AssignmentRow>|
                    rfc3339_instant(now) is Some &&
                    upsert_all(old(self)@.assignments, requests(assignments@), 0, now, assignments@.len() as int) == Ok::<(Seq<AssignmentRow>, Seq<AssignmentRow>), BudgetError>((rows, out))
                        && final(self)@ == (TablesView { assignments: rows, ..old(self)@ })
                        && v@.len() == out.len()
                        && forall|i: int| 0 <= i < v@.len() ==> assignment_record_of(#[trigger] v@[i], out[i]),
                Err(e) => final(self)@ == old(self)@ && exists|now: Seq<char>|
                    upsert_all(old(self)@.assignments, requests(assignments@), 0, now, assignments@.len() as int) == Err::<(Seq<AssignmentRow>, Seq<AssignmentRow>), BudgetError>(e),
            },
    {
        self.upsert_group_assignments_with_system_flag(assignments, 0)
    }

    /// Places one category in a group now, as a user choice.
    pub fn upsert_group_assignment(&mut self, assignment: NewBudgetGroupAssignment) -> (r: Result<BudgetGroupAssignment, BudgetError>)
        ensures
            old(self)@.wf() ==> final(self)@.wf(),
            match r {
                Ok(a) => exists|now: Seq<char>, rows: Seq<AssignmentRow>, row: AssignmentRow|
                    rfc3339_instant(now) is Some &&
                    upsert_one(old(self)@.assignments, assignment@, 0, now) == Ok::<(Seq<AssignmentRow>, AssignmentRow), BudgetError>((rows, row))
                        && final(self)@ == (TablesView { assignments: rows, ..old(self)@ })
                        && assignment_record_of(a, row),
                Err(e) => final(self)@ == old(self)@ && exists|now: Seq<char>|
                    upsert_one(old(self)@.assignments, assignment@, 0, now) == Err::<(Seq<AssignmentRow>, AssignmentRow), BudgetError>(e),
            },
    {
        let ghost req = assignment@;
        let now = now_rfc3339();
        let reqs = vec![assignment];
        assert(requests(reqs@) =~= seq![req]);
        let ghost rq = reqs@;
        let ghost start = self@.assignments;
        assert(upsert_all(start, seq![req], 0, now@, 0) == Ok::<(Seq<AssignmentRow>, Seq<AssignmentRow>), BudgetError>((start, Seq::empty())));
        let mut rows = match self.upsert_group_assignments_with_system_flag_at(reqs, 0, now.as_str()) {
            Ok(rows) => rows,
            Err(e) => {
                proof {
                    assert(seq![req][0] == req);
                    assert(upsert_all(start, seq![req], 0, now@, 1) == match upsert_one(start, req, 0, now@) {
                        Err(e) => Err(e),
                        Ok((t2, r)) => Ok((t2, Seq::<AssignmentRow>::empty().push(r))),
                    });
                }
                return Err(e);
            },
        };
        proof {
            assert(seq![req][0] == req);
            assert(requests(rq) == seq![req]);
            assert(rq.len() == 1);
            assert(upsert_all(start, seq![req], 0, now@, 1) == match upsert_one(start, req, 0, now@) {
                Err(e) => Err(e),
                Ok((t2, r)) => Ok((t2, Seq::<AssignmentRow>::empty().push(r))),
            });
            assert(assignment_rows(rows@).len() == rows@.len());
        }
        assert(rows@.len() == 1);
        let ghost out_rows = assignment_rows(rows@);
        let row = rows.pop().unwrap();
        assert(row@ == out_rows[0]);
        assert(upsert_one(start, req, 0, now@) == Ok::<(Seq<AssignmentRow>, AssignmentRow), BudgetError>((self@.assignments, out_rows[0])));
        Ok(BudgetGroupAssignment::from_db(row))
    }
}

} // verus!
