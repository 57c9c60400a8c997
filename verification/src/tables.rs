//! The four budget tables held as rows, the errors their operations give, and
//! the well-formedness that the database's primary keys impose.

use crate::model::{
    AssignmentRow, BudgetGroupAssignmentDB, BudgetGroupDB, BudgetRolloverSettingDB, BudgetTargetDB,
    GroupRow, RolloverRow, TargetRow,
};
use crate::changes::{id_taken, stored_ids};
use vstd::prelude::*;

verus! {

/// The budget tables: `budget_groups`, `budget_group_assignments`,
/// `budget_targets` and `budget_rollover_settings`, each as its rows.
pub struct BudgetTables {
    pub groups: Vec<BudgetGroupDB>,
    pub assignments: Vec<BudgetGroupAssignmentDB>,
    pub targets: Vec<BudgetTargetDB>,
    pub rollovers: Vec<BudgetRolloverSettingDB>,
}

/// The budget tables by the characters of their rows.
pub struct TablesView {
    pub groups: Seq<GroupRow>,
    pub assignments: Seq<AssignmentRow>,
    pub targets: Seq<TargetRow>,
    pub rollovers: Seq<RolloverRow>,
}

pub open spec fn group_rows(v: Seq<BudgetGroupDB>) -> Seq<GroupRow> {
    v.map_values(|r: BudgetGroupDB| r@)
}

pub open spec fn assignment_rows(v: Seq<BudgetGroupAssignmentDB>) -> Seq<AssignmentRow> {
    v.map_values(|r: BudgetGroupAssignmentDB| r@)
}

pub open spec fn target_rows(v: Seq<BudgetTargetDB>) -> Seq<TargetRow> {
    v.map_values(|r: BudgetTargetDB| r@)
}

pub open spec fn rollover_rows(v: Seq<BudgetRolloverSettingDB>) -> Seq<RolloverRow> {
    v.map_values(|r: BudgetRolloverSettingDB| r@)
}

impl View for BudgetTables {
    type V = TablesView;

    open spec fn view(&self) -> TablesView {
        TablesView {
            groups: group_rows(self.groups@),
            assignments: assignment_rows(self.assignments@),
            targets: target_rows(self.targets@),
            rollovers: rollover_rows(self.rollovers@),
        }
    }
}

pub open spec fn group_ids(s: Seq<GroupRow>) -> Seq<Seq<char>> {
    s.map_values(|r: GroupRow| r.id)
}

pub open spec fn assignment_ids(s: Seq<AssignmentRow>) -> Seq<Seq<char>> {
    s.map_values(|r: AssignmentRow| r.id)
}

pub open spec fn target_ids(s: Seq<TargetRow>) -> Seq<Seq<char>> {
    s.map_values(|r: TargetRow| r.id)
}

pub open spec fn rollover_ids(s: Seq<RolloverRow>) -> Seq<Seq<char>> {
    s.map_values(|r: RolloverRow| r.id)
}

impl TablesView {
    /// No two rows of a table share an identifier, as each table's primary key demands.
    pub open spec fn wf(self) -> bool {
        &&& group_ids(self.groups).no_duplicates()
        &&& assignment_ids(self.assignments).no_duplicates()
        &&& target_ids(self.targets).no_duplicates()
        &&& rollover_ids(self.rollovers).no_duplicates()
    }
}

/// Why an operation on the budget tables was refused.
#[derive(Debug, Clone, Copy, PartialEq, Eq)]
pub enum BudgetError {
    /// The group to delete does not exist.
    GroupNotFound,
    /// The group to delete is the "Other" group.
    OtherGroupUndeletable,
    /// The group would be deleted into itself.
    ReassignToSameGroup,
    /// The group that would receive the categories does not exist.
    ReassignmentGroupNotFound,
    /// The group to delete still has a rollover setting.
    GroupHasRolloverSetting,
    /// The row to change does not exist.
    RecordNotFound,
    /// A new row would share the identifier of another one.
    DuplicateId,
    /// Two buffer amounts add up to more than a decimal holds.
    AmountOverflow,
}

/// The message of each error, as the storage layer reports it.
pub open spec fn error_message(e: BudgetError) -> Seq<char> {
    match e {
        BudgetError::GroupNotFound => "Invalid input: Budget group not found"@,
        BudgetError::OtherGroupUndeletable => "Invalid input: The \"Other\" budget group cannot be deleted - it is the default bucket for unassigned categories"@,
        BudgetError::ReassignToSameGroup => "Invalid input: Cannot reassign categories to the group being deleted"@,
        BudgetError::ReassignmentGroupNotFound => "Invalid input: Reassignment budget group not found"@,
        BudgetError::GroupHasRolloverSetting => "Invalid input: Delete the group's rollover setting before deleting the group"@,
        BudgetError::RecordNotFound => "Record not found"@,
        BudgetError::DuplicateId => "UNIQUE constraint failed: duplicate id"@,
        BudgetError::AmountOverflow => "Addition overflowed"@,
    }
}

impl BudgetError {
    /// The message of the error, as the storage layer reports it.
    pub fn message(&self) -> (r: String)
        ensures
            r@ == error_message(*self),
    {
        match self {
            BudgetError::GroupNotFound => String::from_str("Invalid input: Budget group not found"),
            BudgetError::OtherGroupUndeletable => String::from_str(
                "Invalid input: The \"Other\" budget group cannot be deleted - it is the default bucket for unassigned categories",
            ),
            BudgetError::ReassignToSameGroup => String::from_str(
                "Invalid input: Cannot reassign categories to the group being deleted",
            ),
            BudgetError::ReassignmentGroupNotFound => String::from_str(
                "Invalid input: Reassignment budget group not found",
            ),
            BudgetError::GroupHasRolloverSetting => String::from_str(
                "Invalid input: Delete the group's rollover setting before deleting the group",
            ),
            BudgetError::RecordNotFound => String::from_str("Record not found"),
            BudgetError::DuplicateId => String::from_str("UNIQUE constraint failed: duplicate id"),
            BudgetError::AmountOverflow => String::from_str("Addition overflowed"),
        }
    }
}

/// The index of the first of the first `n` elements that satisfies `p`.
pub open spec fn first_match_in<T>(s: Seq<T>, p: spec_fn(T) -> bool, n: int) -> Option<int>
    decreases n,
{
    if n <= 0 {
        None
    } else {
        match first_match_in(s, p, n - 1) {
            Some(k) => Some(k),
            None => if p(s[n - 1]) {
                Some(n - 1)
            } else {
                None
            },
        }
    }
}

/// The index of the first element of `s` that satisfies `p`.
pub open spec fn first_match<T>(s: Seq<T>, p: spec_fn(T) -> bool) -> Option<int> {
    first_match_in(s, p, s.len() as int)
}

/// What the search finds: the first match, or that none of the first `n` matches.
pub proof fn lemma_first_match_in<T>(s: Seq<T>, p: spec_fn(T) -> bool, n: int)
    requires
        0 <= n <= s.len(),
    ensures
        first_match_in(s, p, n) matches Some(k) ==> {
            &&& 0 <= k < n
            &&& p(s[k])
            &&& forall|j: int| 0 <= j < k ==> !p(#[trigger] s[j])
        },
        first_match_in(s, p, n) is None ==> forall|j: int| 0 <= j < n ==> !p(#[trigger] s[j]),
    decreases n,
{
    if n > 0 {
        lemma_first_match_in(s, p, n - 1);
    }
}

/// The first match is the element that satisfies `p` with none before it.
pub proof fn lemma_first_match_is<T>(s: Seq<T>, p: spec_fn(T) -> bool, k: int)
    requires
        0 <= k < s.len(),
        p(s[k]),
        forall|j: int| 0 <= j < k ==> !p(#[trigger] s[j]),
    ensures
        first_match(s, p) == Some(k),
{
    lemma_first_match_in(s, p, s.len() as int);
    if first_match(s, p) is None {
        assert(!p(s[k]));
    }
}

/// The search among the first `n` elements does not see what follows them.
pub proof fn lemma_first_match_prefix<T>(s: Seq<T>, t: Seq<T>, p: spec_fn(T) -> bool, n: int)
    requires
        0 <= n <= s.len(),
        n <= t.len(),
        forall|i: int| 0 <= i < n ==> s[i] == t[i],
    ensures
        first_match_in(s, p, n) == first_match_in(t, p, n),
    decreases n,
{
    if n > 0 {
        lemma_first_match_prefix(s, t, p, n - 1);
    }
}

/// The first match in a concatenation: in the first part, else in the second, shifted.
pub proof fn lemma_first_match_concat<T>(a: Seq<T>, b: Seq<T>, p: spec_fn(T) -> bool)
    ensures
        first_match(a + b, p) == match first_match(a, p) {
            Some(k) => Some(k),
            None => match first_match(b, p) {
                Some(k) => Some(k + a.len()),
                None => None,
            },
        },
{
    let ab = a + b;
    lemma_first_match_in(a, p, a.len() as int);
    lemma_first_match_in(b, p, b.len() as int);
    lemma_first_match_in(ab, p, ab.len() as int);
    match first_match(a, p) {
        Some(k) => {
            assert(ab[k] == a[k]);
            assert forall|j: int| 0 <= j < k implies !p(#[trigger] ab[j]) by {
                assert(ab[j] == a[j]);
            }
            lemma_first_match_is(ab, p, k);
        },
        None => {
            match first_match(b, p) {
                Some(k) => {
                    assert(ab[k + a.len()] == b[k]);
                    assert forall|j: int| 0 <= j < k + a.len() implies !p(#[trigger] ab[j]) by {
                        if j < a.len() {
                            assert(ab[j] == a[j]);
                        } else {
                            assert(ab[j] == b[j - a.len()]);
                        }
                    }
                    lemma_first_match_is(ab, p, k + a.len());
                },
                None => {
                    if first_match(ab, p) is Some {
                        let k = first_match(ab, p).unwrap();
                        if k < a.len() {
                            assert(ab[k] == a[k]);
                        } else {
                            assert(ab[k] == b[k - a.len()]);
                        }
                    }
                },
            }
        },
    }
}

/// The first match after appending an element.
pub proof fn lemma_first_match_push<T>(s: Seq<T>, e: T, p: spec_fn(T) -> bool)
    ensures
        first_match(s.push(e), p) == match first_match(s, p) {
            Some(k) => Some(k),
            None => if p(e) {
                Some(s.len() as int)
            } else {
                None
            },
        },
{
    lemma_first_match_prefix(s, s.push(e), p, s.len() as int);
}

/// A match among the first `n` elements is the first match of all.
pub proof fn lemma_first_match_in_full<T>(s: Seq<T>, p: spec_fn(T) -> bool, n: int)
    requires
        0 <= n <= s.len(),
        first_match_in(s, p, n) is Some,
    ensures
        first_match(s, p) == first_match_in(s, p, n),
{
    lemma_first_match_in(s, p, n);
    lemma_first_match_is(s, p, first_match_in(s, p, n).unwrap());
}

/// The characters of each text.
pub open spec fn texts(v: Seq<String>) -> Seq<Seq<char>> {
    v.map_values(|s: String| s@)
}

/// Whether a group row has the given identifier.
pub fn group_id_taken(rows: &Vec<BudgetGroupDB>, id: &str) -> (b: bool)
    ensures
        b == group_ids(group_rows(rows@)).contains(id@),
{
    assert(group_ids(group_rows(rows@)) =~= stored_ids(rows@));
    id_taken(rows, id)
}

/// Whether an assignment row has the given identifier.
pub fn assignment_id_taken(rows: &Vec<BudgetGroupAssignmentDB>, id: &str) -> (b: bool)
    ensures
        b == assignment_ids(assignment_rows(rows@)).contains(id@),
{
    assert(assignment_ids(assignment_rows(rows@)) =~= stored_ids(rows@));
    id_taken(rows, id)
}

/// Whether a target row has the given identifier.
pub fn target_id_taken(rows: &Vec<BudgetTargetDB>, id: &str) -> (b: bool)
    ensures
        b == target_ids(target_rows(rows@)).contains(id@),
{
    assert(target_ids(target_rows(rows@)) =~= stored_ids(rows@));
    id_taken(rows, id)
}

/// Whether a rollover row has the given identifier.
pub fn rollover_id_taken(rows: &Vec<BudgetRolloverSettingDB>, id: &str) -> (b: bool)
    ensures
        b == rollover_ids(rollover_rows(rows@)).contains(id@),
{
    assert(rollover_ids(rollover_rows(rows@)) =~= stored_ids(rows@));
    id_taken(rows, id)
}

/// Identifiers that are distinct and none of them that of a stored target.
pub open spec fn fresh_ids(ids: Seq<Seq<char>>, rows: Seq<TargetRow>) -> bool {
    &&& ids.no_duplicates()
    &&& forall|i: int| 0 <= i < ids.len() ==> !target_ids(rows).contains(#[trigger] ids[i])
}

/// Whether the identifiers are distinct and none is that of a target row.
pub fn fresh_target_ids(ids: &Vec<String>, rows: &Vec<BudgetTargetDB>) -> (b: bool)
    ensures
        b == fresh_ids(texts(ids@), target_rows(rows@)),
{
    let ghost v = texts(ids@);
    let n = ids.len();
    let mut i: usize = 0;
    while i < n
        invariant
            n == ids.len(),
            v == texts(ids@),
            i <= n,
            v.take(i as int).no_duplicates(),
            forall|j: int| 0 <= j < i ==> !target_ids(target_rows(rows@)).contains(#[trigger] v[j]),
        decreases n - i,
    {
        assert(v[i as int] == ids@[i as int]@);
        if target_id_taken(rows, ids[i].as_str()) {
            return false;
        }
        let mut j: usize = 0;
        while j < i
            invariant
                n == ids.len(),
                v == texts(ids@),
                j <= i < n,
                forall|k: int| 0 <= k < j ==> v[k] != v[i as int],
            decreases i - j,
        {
            if ids[j] == ids[i] {
                assert(v[j as int] == v[i as int]);
                return false;
            }
            j = j + 1;
        }
        assert forall|a: int, b: int|
            0 <= a < i + 1 && 0 <= b < i + 1 && a != b implies #[trigger] v.take(i as int + 1)[a] != #[trigger] v.take(i as int + 1)[b] by {
            if a < i && b < i {
                assert(v.take(i as int)[a] == v[a] && v.take(i as int)[b] == v[b]);
            }
        }
        i = i + 1;
    }
    proof {
        assert(v.take(n as int) =~= v);
        if !v.no_duplicates() {
            let (a, b) = choose|a: int, b: int| 0 <= a < v.len() && 0 <= b < v.len() && a != b && v[a] == v[b];
            assert(v.take(n as int)[a] == v[a]);
        }
    }
    true
}

} // verus!
