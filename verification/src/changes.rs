//! The changes between two states of the tables: the rows to write and the
//! identifiers to delete, which the storage layer applies to the database and
//! records in the sync outbox.

use crate::model::{BudgetGroupAssignmentDB, BudgetGroupDB, BudgetRolloverSettingDB, BudgetTargetDB};
use crate::tables::{assignment_ids, group_ids, rollover_ids, target_ids, texts, BudgetTables};
use crate::text::{opt_eq, text_eq};
use vstd::prelude::*;

verus! {

/// A stored row with an identifier.
pub trait StoredRow: View + Sized {
    /// The row's identifier.
    spec fn stored_id(&self) -> Seq<char>;

    /// The row's identifier.
    fn id_text(&self) -> (r: &str)
        ensures
            r@ == self.stored_id(),
    ;

    /// Whether two rows hold the same values.
    fn same_row(&self, other: &Self) -> (b: bool)
        ensures
            b == (self@ == other@),
    ;

    /// A copy of the row.
    fn copy_row(&self) -> (r: Self)
        ensures
            r@ == self@,
            r.stored_id() == self.stored_id(),
    ;
}

impl StoredRow for BudgetGroupDB {
    open spec fn stored_id(&self) -> Seq<char> {
        self.id@
    }

    fn id_text(&self) -> (r: &str) {
        self.id.as_str()
    }

    fn same_row(&self, other: &Self) -> (b: bool) {
        self.id == other.id && self.name == other.name && self.key == other.key && opt_eq(&self.color, &other.color)
            && opt_eq(&self.icon, &other.icon) && self.sort_order == other.sort_order && self.is_system
            == other.is_system && self.created_at == other.created_at && self.updated_at == other.updated_at
    }

    fn copy_row(&self) -> (r: Self) {
        self.copy()
    }
}

impl StoredRow for BudgetGroupAssignmentDB {
    open spec fn stored_id(&self) -> Seq<char> {
        self.id@
    }

    fn id_text(&self) -> (r: &str) {
        self.id.as_str()
    }

    fn same_row(&self, other: &Self) -> (b: bool) {
        self.id == other.id && self.group_id == other.group_id && self.taxonomy_id == other.taxonomy_id
            && self.category_id == other.category_id && self.is_system == other.is_system && self.created_at
            == other.created_at && self.updated_at == other.updated_at
    }

    fn copy_row(&self) -> (r: Self) {
        self.copy()
    }
}

impl StoredRow for BudgetTargetDB {
    open spec fn stored_id(&self) -> Seq<char> {
        self.id@
    }

    fn id_text(&self) -> (r: &str) {
        self.id.as_str()
    }

    fn same_row(&self, other: &Self) -> (b: bool) {
        self.id == other.id && self.period_key == other.period_key && self.target_type == other.target_type
            && opt_eq(&self.taxonomy_id, &other.taxonomy_id) && opt_eq(&self.category_id, &other.category_id)
            && opt_eq(&self.group_id, &other.group_id) && self.amount == other.amount && self.created_at
            == other.created_at && self.updated_at == other.updated_at
    }

    fn copy_row(&self) -> (r: Self) {
        self.copy()
    }
}

impl StoredRow for BudgetRolloverSettingDB {
    open spec fn stored_id(&self) -> Seq<char> {
        self.id@
    }

    fn id_text(&self) -> (r: &str) {
        self.id.as_str()
    }

    fn same_row(&self, other: &Self) -> (b: bool) {
        self.id == other.id && self.target_type == other.target_type && opt_eq(&self.taxonomy_id, &other.taxonomy_id)
            && opt_eq(&self.category_id, &other.category_id) && opt_eq(&self.group_id, &other.group_id)
            && self.enabled == other.enabled && self.start_month == other.start_month && self.starting_balance
            == other.starting_balance && self.created_at == other.created_at && self.updated_at == other.updated_at
    }

    fn copy_row(&self) -> (r: Self) {
        self.copy()
    }
}

/// Some row has the identifier.
pub open spec fn has_id<T: StoredRow>(s: Seq<T>, id: Seq<char>) -> bool {
    exists|i: int| 0 <= i < s.len() && (#[trigger] s[i]).stored_id() == id
}

/// Some row holds exactly these values.
pub open spec fn has_row<T: StoredRow>(s: Seq<T>, r: T::V) -> bool {
    exists|i: int| 0 <= i < s.len() && (#[trigger] s[i])@ == r
}

/// The changes to one table.
pub struct RowChanges<T> {
    /// Rows to write: new ones, and changed ones under their identifier.
    pub upserts: Vec<T>,
    /// Identifiers of rows to delete.
    pub deletes: Vec<String>,
}

fn id_present<T: StoredRow>(s: &Vec<T>, id: &str) -> (b: bool)
    ensures
        b == has_id(s@, id@),
{
    let n = s.len();
    let mut i: usize = 0;
    while i < n
        invariant
            n == s@.len(),
            i <= n,
            forall|j: int| 0 <= j < i ==> (#[trigger] s@[j]).stored_id() != id@,
        decreases n - i,
    {
        if text_eq(s[i].id_text(), id) {
            return true;
        }
        i = i + 1;
    }
    false
}

fn row_present<T: StoredRow>(s: &Vec<T>, r: &T) -> (b: bool)
    ensures
        b == has_row(s@, r@),
{
    let n = s.len();
    let mut i: usize = 0;
    while i < n
        invariant
            n == s@.len(),
            i <= n,
            forall|j: int| 0 <= j < i ==> (#[trigger] s@[j])@ != r@,
        decreases n - i,
    {
        if s[i].same_row(r) {
            return true;
        }
        i = i + 1;
    }
    false
}

/// What turns table `before` into table `after`: the rows of `after` that
/// `before` does not hold as they are, and the identifiers of `before` that
/// `after` no longer has.
pub fn diff_rows<T: StoredRow>(before: &Vec<T>, after: &Vec<T>) -> (c: RowChanges<T>)
    ensures
        forall|k: Seq<char>| texts(c.deletes@).contains(k) <==> (has_id(before@, k) && !has_id(after@, k)),
        forall|x: T::V| has_row(c.upserts@, x) <==> (has_row(after@, x) && !has_row(before@, x)),
{
    let mut upserts: Vec<T> = Vec::new();
    let mut deletes: Vec<String> = Vec::new();
    let n = after.len();
    let mut i: usize = 0;
    while i < n
        invariant
            n == after@.len(),
            i <= n,
            forall|x: T::V| has_row(upserts@, x) <==> (exists|j: int| 0 <= j < i && (#[trigger] after@[j])@ == x) && !has_row(before@, x),
        decreases n - i,
    {
        let ghost u0 = upserts@;
        if !row_present(before, &after[i]) {
            let r = after[i].copy_row();
            upserts.push(r);
            assert forall|x: T::V| has_row(upserts@, x) <==> (exists|j: int| 0 <= j < i + 1 && (#[trigger] after@[j])@ == x) && !has_row(before@, x) by {
                if has_row(upserts@, x) {
                    let k = choose|k: int| 0 <= k < upserts@.len() && (#[trigger] upserts@[k])@ == x;
                    if k < u0.len() {
                        assert(u0[k] == upserts@[k]);
                    }
                }
                if (exists|j: int| 0 <= j < i + 1 && (#[trigger] after@[j])@ == x) && !has_row(before@, x) {
                    let j = choose|j: int| 0 <= j < i + 1 && (#[trigger] after@[j])@ == x;
                    if j < i {
                        assert(has_row(u0, x));
                        let k = choose|k: int| 0 <= k < u0.len() && (#[trigger] u0[k])@ == x;
                        assert(upserts@[k] == u0[k]);
                    } else {
                        assert(upserts@[u0.len() as int]@ == x);
                    }
                }
            }
        } else {
            assert forall|x: T::V| has_row(upserts@, x) <==> (exists|j: int| 0 <= j < i + 1 && (#[trigger] after@[j])@ == x) && !has_row(before@, x) by {
                if (exists|j: int| 0 <= j < i + 1 && (#[trigger] after@[j])@ == x) && !has_row(before@, x) {
                    let j = choose|j: int| 0 <= j < i + 1 && (#[trigger] after@[j])@ == x;
                    if j == i {
                        assert(has_row(before@, after@[i as int]@));
                    }
                }
            }
        }
        i = i + 1;
    }
    let m = before.len();
    let mut i: usize = 0;
    while i < m
        invariant
            m == before@.len(),
            i <= m,
            forall|k: Seq<char>| texts(deletes@).contains(k) <==> (exists|j: int| 0 <= j < i && (#[trigger] before@[j]).stored_id() == k) && !has_id(after@, k),
        decreases m - i,
    {
        let ghost d0 = texts(deletes@);
        let id = before[i].id_text();
        if !id_present(after, id) {
            deletes.push(id.to_owned());
            assert(texts(deletes@) =~= d0.push(id@));
            assert forall|k: Seq<char>| texts(deletes@).contains(k) <==> (exists|j: int| 0 <= j < i + 1 && (#[trigger] before@[j]).stored_id() == k) && !has_id(after@, k) by {
                if texts(deletes@).contains(k) {
                    let q = choose|q: int| 0 <= q < texts(deletes@).len() && texts(deletes@)[q] == k;
                    if q < d0.len() {
                        assert(d0[q] == k);
                        assert(d0.contains(k));
                    }
                }
                if (exists|j: int| 0 <= j < i + 1 && (#[trigger] before@[j]).stored_id() == k) && !has_id(after@, k) {
                    let j = choose|j: int| 0 <= j < i + 1 && (#[trigger] before@[j]).stored_id() == k;
                    if j < i {
                        assert(d0.contains(k));
                        let q = choose|q: int| 0 <= q < d0.len() && d0[q] == k;
                        assert(texts(deletes@)[q] == k);
                    } else {
                        assert(texts(deletes@)[d0.len() as int] == k);
                    }
                }
            }
        } else {
            assert forall|k: Seq<char>| texts(deletes@).contains(k) <==> (exists|j: int| 0 <= j < i + 1 && (#[trigger] before@[j]).stored_id() == k) && !has_id(after@, k) by {
                if (exists|j: int| 0 <= j < i + 1 && (#[trigger] before@[j]).stored_id() == k) && !has_id(after@, k) {
                    let j = choose|j: int| 0 <= j < i + 1 && (#[trigger] before@[j]).stored_id() == k;
                    if j == i {
                        assert(has_id(after@, before@[i as int].stored_id()));
                    }
                }
            }
        }
        i = i + 1;
    }
    RowChanges { upserts, deletes }
}

/// The changes to each of the four tables.
pub struct TableChanges {
    pub groups: RowChanges<BudgetGroupDB>,
    pub assignments: RowChanges<BudgetGroupAssignmentDB>,
    pub targets: RowChanges<BudgetTargetDB>,
    pub rollovers: RowChanges<BudgetRolloverSettingDB>,
}

/// What turns the tables `before` into the tables `after`, table by table.
pub fn diff_tables(before: &BudgetTables, after: &BudgetTables) -> (c: TableChanges)
    ensures
        forall|k: Seq<char>| texts(c.groups.deletes@).contains(k) <==> (has_id(before.groups@, k) && !has_id(after.groups@, k)),
        forall|x| has_row(c.groups.upserts@, x) <==> (has_row(after.groups@, x) && !has_row(before.groups@, x)),
        forall|k: Seq<char>| texts(c.assignments.deletes@).contains(k) <==> (has_id(before.assignments@, k) && !has_id(after.assignments@, k)),
        forall|x| has_row(c.assignments.upserts@, x) <==> (has_row(after.assignments@, x) && !has_row(before.assignments@, x)),
        forall|k: Seq<char>| texts(c.targets.deletes@).contains(k) <==> (has_id(before.targets@, k) && !has_id(after.targets@, k)),
        forall|x| has_row(c.targets.upserts@, x) <==> (has_row(after.targets@, x) && !has_row(before.targets@, x)),
        forall|k: Seq<char>| texts(c.rollovers.deletes@).contains(k) <==> (has_id(before.rollovers@, k) && !has_id(after.rollovers@, k)),
        forall|x| has_row(c.rollovers.upserts@, x) <==> (has_row(after.rollovers@, x) && !has_row(before.rollovers@, x)),
{
    TableChanges {
        groups: diff_rows(&before.groups, &after.groups),
        assignments: diff_rows(&before.assignments, &after.assignments),
        targets: diff_rows(&before.targets, &after.targets),
        rollovers: diff_rows(&before.rollovers, &after.rollovers),
    }
}

/// A copy of every row.
pub fn copy_rows<T: StoredRow>(v: &Vec<T>) -> (r: Vec<T>)
    ensures
        r@.len() == v@.len(),
        forall|i: int| 0 <= i < v@.len() ==> (#[trigger] r@[i])@ == v@[i]@,
{
    let n = v.len();
    let mut out: Vec<T> = Vec::new();
    let mut i: usize = 0;
    while i < n
        invariant
            n == v@.len(),
            i <= n,
            out@.len() == i,
            forall|j: int| 0 <= j < i ==> (#[trigger] out@[j])@ == v@[j]@,
        decreases n - i,
    {
        out.push(v[i].copy_row());
        i = i + 1;
    }
    out
}

impl BudgetTables {
    /// A copy of the tables.
    pub fn snapshot(&self) -> (r: BudgetTables)
        ensures
            r@ == self@,
    {
        let r = BudgetTables {
            groups: copy_rows(&self.groups),
            assignments: copy_rows(&self.assignments),
            targets: copy_rows(&self.targets),
            rollovers: copy_rows(&self.rollovers),
        };
        assert(r@.groups =~= self@.groups);
        assert(r@.assignments =~= self@.assignments);
        assert(r@.targets =~= self@.targets);
        assert(r@.rollovers =~= self@.rollovers);
        r
    }
}

/// The identifiers of the rows.
pub open spec fn stored_ids<T: StoredRow>(v: Seq<T>) -> Seq<Seq<char>> {
    v.map_values(|r: T| r.stored_id())
}

/// Whether some row has the given identifier.
pub fn id_taken<T: StoredRow>(rows: &Vec<T>, id: &str) -> (b: bool)
    ensures
        b == stored_ids(rows@).contains(id@),
{
    let ghost v = stored_ids(rows@);
    let n = rows.len();
    let mut i: usize = 0;
    while i < n
        invariant
            n == rows.len(),
            v == stored_ids(rows@),
            i <= n,
            forall|j: int| 0 <= j < i ==> v[j] != id@,
        decreases n - i,
    {
        if text_eq(rows[i].id_text(), id) {
            assert(v[i as int] == id@);
            return true;
        }
        i = i + 1;
    }
    false
}

/// Whether no two rows share an identifier.
pub fn ids_unique<T: StoredRow>(v: &Vec<T>) -> (b: bool)
    ensures
        b == stored_ids(v@).no_duplicates(),
{
    let ghost ids = stored_ids(v@);
    let n = v.len();
    let mut i: usize = 0;
    while i < n
        invariant
            n == v@.len(),
            ids == stored_ids(v@),
            i <= n,
            forall|a: int, b: int| 0 <= a < b < i ==> #[trigger] ids[a] != #[trigger] ids[b],
        decreases n - i,
    {
        let mut j: usize = 0;
        while j < i
            invariant
                n == v@.len(),
                ids == stored_ids(v@),
                j <= i < n,
                forall|a: int| 0 <= a < j ==> #[trigger] ids[a] != ids[i as int],
            decreases i - j,
        {
            if text_eq(v[j].id_text(), v[i].id_text()) {
                assert(ids[j as int] == ids[i as int]);
                return false;
            }
            j = j + 1;
        }
        i = i + 1;
    }
    assert forall|a: int, b: int| 0 <= a < n && 0 <= b < n && a != b implies ids[a] != ids[b] by {
        if a > b {
            assert(ids[b] != ids[a]);
        }
    }
    true
}

impl BudgetTables {
    /// Whether no two rows of a table share an identifier.
    pub fn is_well_formed(&self) -> (b: bool)
        ensures
            b == self@.wf(),
    {
        assert(group_ids(self@.groups) =~= stored_ids(self.groups@));
        assert(assignment_ids(self@.assignments) =~= stored_ids(self.assignments@));
        assert(target_ids(self@.targets) =~= stored_ids(self.targets@));
        assert(rollover_ids(self@.rollovers) =~= stored_ids(self.rollovers@));
        ids_unique(&self.groups) && ids_unique(&self.assignments) && ids_unique(&self.targets) && ids_unique(
            &self.rollovers,
        )
    }
}

} // verus!
