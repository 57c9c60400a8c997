//! Listing the tables: groups come ordered by their sort order and then by
//! name, names compared byte by byte as SQLite's BINARY collation does.

use crate::model::{
    assignment_record_of, group_record_of, rollover_record_of, target_record_of, BudgetGroup,
    BudgetGroupAssignment, BudgetGroupDB, BudgetRolloverSetting, BudgetTarget, GroupRow,
};
use crate::guarantees::{lexicographic_le, lemma_listing_order};
use crate::tables::{assignment_rows, group_rows, rollover_rows, target_rows, BudgetTables};
use vstd::prelude::*;
use vstd::utf8::encode_utf8;

verus! {

broadcast use {vstd::seq_lib::to_multiset_insert, vstd::seq_lib::to_multiset_build};

/// Byte strings in lexicographic order: `a` is no greater than `b`.
pub open spec fn bytes_le(a: Seq<u8>, b: Seq<u8>) -> bool
    decreases a.len(),
{
    if a.len() == 0 {
        true
    } else if b.len() == 0 {
        false
    } else if a[0] != b[0] {
        a[0] < b[0]
    } else {
        bytes_le(a.drop_first(), b.drop_first())
    }
}

/// Any two byte strings are ordered one way or the other.
pub proof fn lemma_bytes_le_total(a: Seq<u8>, b: Seq<u8>)
    ensures
        bytes_le(a, b) || bytes_le(b, a),
    decreases a.len(),
{
    if a.len() > 0 && b.len() > 0 && a[0] == b[0] {
        lemma_bytes_le_total(a.drop_first(), b.drop_first());
    }
}

/// The byte order is transitive.
pub proof fn lemma_bytes_le_transitive(a: Seq<u8>, b: Seq<u8>, c: Seq<u8>)
    requires
        bytes_le(a, b),
        bytes_le(b, c),
    ensures
        bytes_le(a, c),
    decreases a.len(),
{
    if a.len() > 0 && b.len() > 0 && c.len() > 0 && a[0] == b[0] && b[0] == c[0] {
        lemma_bytes_le_transitive(a.drop_first(), b.drop_first(), c.drop_first());
    }
}

/// Group `a` may be listed before group `b`: a lower sort order, or the same
/// sort order and a name no greater in bytes.
pub open spec fn group_before(a: GroupRow, b: GroupRow) -> bool {
    a.sort_order < b.sort_order || (a.sort_order == b.sort_order && bytes_le(
        encode_utf8(a.name),
        encode_utf8(b.name),
    ))
}

/// Groups in listing order.
pub open spec fn sorted_groups(s: Seq<GroupRow>) -> bool {
    forall|i: int, j: int| 0 <= i < j < s.len() ==> group_before(#[trigger] s[i], #[trigger] s[j])
}

pub proof fn lemma_group_before_total(a: GroupRow, b: GroupRow)
    ensures
        group_before(a, b) || group_before(b, a),
{
    lemma_bytes_le_total(encode_utf8(a.name), encode_utf8(b.name));
}

pub proof fn lemma_group_before_transitive(a: GroupRow, b: GroupRow, c: GroupRow)
    requires
        group_before(a, b),
        group_before(b, c),
    ensures
        group_before(a, c),
{
    if a.sort_order == b.sort_order && b.sort_order == c.sort_order {
        lemma_bytes_le_transitive(encode_utf8(a.name), encode_utf8(b.name), encode_utf8(c.name));
    }
}

/// Compares two byte strings lexicographically.
pub fn bytes_le_exec(a: &[u8], b: &[u8]) -> (r: bool)
    ensures
        r == bytes_le(a@, b@),
{
    let mut i: usize = 0;
    assert(a@.skip(0) =~= a@);
    assert(b@.skip(0) =~= b@);
    while i < a.len() && i < b.len() && a[i] == b[i]
        invariant
            i <= a@.len(),
            i <= b@.len(),
            bytes_le(a@, b@) == bytes_le(a@.skip(i as int), b@.skip(i as int)),
        decreases a@.len() - i,
    {
        assert(a@.skip(i as int).drop_first() =~= a@.skip(i as int + 1));
        assert(b@.skip(i as int).drop_first() =~= b@.skip(i as int + 1));
        i = i + 1;
    }
    if i == a.len() {
        true
    } else if i == b.len() {
        false
    } else {
        a[i] < b[i]
    }
}

/// Whether group `a` may be listed before group `b`.
pub fn group_before_exec(a: &BudgetGroupDB, b: &BudgetGroupDB) -> (r: bool)
    ensures
        r == group_before(a@, b@),
{
    if a.sort_order != b.sort_order {
        a.sort_order < b.sort_order
    } else {
        bytes_le_exec(a.name.as_str().as_bytes(), b.name.as_str().as_bytes())
    }
}

impl BudgetTables {
    /// The group rows in listing order: the same rows, ordered by sort order
    /// and then by name.
    pub fn sorted_group_rows(&self) -> (r: Vec<BudgetGroupDB>)
        ensures
            sorted_groups(group_rows(r@)),
            group_rows(r@).to_multiset() == self@.groups.to_multiset(),
    {
        let ghost v = self@.groups;
        let n = self.groups.len();
        let mut out: Vec<BudgetGroupDB> = Vec::new();
        let mut i: usize = 0;
        assert(group_rows(out@) =~= v.take(0));
        while i < n
            invariant
                n == self.groups.len(),
                v == group_rows(self.groups@),
                i <= n,
                sorted_groups(group_rows(out@)),
                group_rows(out@).to_multiset() == v.take(i as int).to_multiset(),
                out@.len() == i,
            decreases n - i,
        {
            let x = self.groups[i].copy();
            assert(x@ == v[i as int]);
            let m = out.len();
            let mut pos: usize = 0;
            while pos < m && group_before_exec(&out[pos], &x)
                invariant
                    m == out@.len(),
                    pos <= m,
                    forall|k: int| 0 <= k < pos ==> group_before(#[trigger] out@[k]@, x@),
                decreases m - pos,
            {
                pos = pos + 1;
            }
            let ghost o0 = group_rows(out@);
            proof {
                assert forall|k: int| 0 <= k < pos implies group_before(#[trigger] o0[k], x@) by {
                    assert(o0[k] == out@[k]@);
                }
                if pos < m {
                    assert(o0[pos as int] == out@[pos as int]@);
                    lemma_group_before_total(o0[pos as int], x@);
                    assert forall|k: int| pos <= k < m implies group_before(x@, #[trigger] o0[k]) by {
                        if k > pos {
                            lemma_group_before_transitive(x@, o0[pos as int], o0[k]);
                        }
                    }
                }
            }
            out.insert(pos, x);
            let ghost o1 = group_rows(out@);
            assert(o1 =~= o0.insert(pos as int, x@));
            assert(v.take(i as int + 1) =~= v.take(i as int).push(x@));
            assert forall|a: int, b: int| 0 <= a < b < o1.len() implies group_before(#[trigger] o1[a], #[trigger] o1[b]) by {
                if b < pos {
                    assert(o1[a] == o0[a] && o1[b] == o0[b]);
                } else if b == pos {
                    assert(o1[a] == o0[a]);
                } else if a < pos {
                    assert(o1[a] == o0[a] && o1[b] == o0[b - 1]);
                    assert(group_before(o0[a], x@));
                    assert(group_before(x@, o0[b - 1]));
                    lemma_group_before_transitive(o0[a], x@, o0[b - 1]);
                } else if a == pos {
                    assert(o1[b] == o0[b - 1]);
                } else {
                    assert(o1[a] == o0[a - 1] && o1[b] == o0[b - 1]);
                }
            }
            i = i + 1;
        }
        assert(v.take(n as int) =~= v);
        out
    }

    /// The groups in listing order.
    pub fn list_groups(&self) -> (r: Vec<BudgetGroup>)
        ensures
            exists|s: Seq<GroupRow>|
                sorted_groups(s) && s.to_multiset() == self@.groups.to_multiset() && r@.len() == s.len()
                    && forall|i: int| 0 <= i < s.len() ==> group_record_of(#[trigger] r@[i], s[i]),
            forall|i: int, j: int|
                0 <= i < j < r@.len() ==> {
                    &&& (#[trigger] r@[i]).sort_order <= (#[trigger] r@[j]).sort_order
                    &&& r@[i].sort_order == r@[j].sort_order ==> lexicographic_le(
                        encode_utf8(r@[i].name@),
                        encode_utf8(r@[j].name@),
                    )
                },
    {
        let rows = self.sorted_group_rows();
        let mut out: Vec<BudgetGroup> = Vec::new();
        let n = rows.len();
        let mut i: usize = 0;
        while i < n
            invariant
                n == rows.len(),
                i <= n,
                out@.len() == i,
                forall|j: int| 0 <= j < i ==> group_record_of(#[trigger] out@[j], rows@[j]@),
            decreases n - i,
        {
            out.push(BudgetGroup::from_db(rows[i].copy()));
            i = i + 1;
        }
        assert(forall|j: int| 0 <= j < n ==> rows@[j]@ == #[trigger] group_rows(rows@)[j]);
        proof {
            lemma_listing_order(group_rows(rows@));
            assert forall|i: int, j: int| 0 <= i < j < out@.len() implies {
                &&& (#[trigger] out@[i]).sort_order <= (#[trigger] out@[j]).sort_order
                &&& out@[i].sort_order == out@[j].sort_order ==> lexicographic_le(
                    encode_utf8(out@[i].name@),
                    encode_utf8(out@[j].name@),
                )
            } by {
                assert(group_record_of(out@[i], rows@[i]@));
                assert(group_record_of(out@[j], rows@[j]@));
                assert(group_rows(rows@)[i] == rows@[i]@ && group_rows(rows@)[j] == rows@[j]@);
            }
        }
        out
    }

    /// All group assignments, in table order.
    pub fn list_group_assignments(&self) -> (r: Vec<BudgetGroupAssignment>)
        ensures
            r@.len() == self@.assignments.len(),
            forall|i: int| 0 <= i < r@.len() ==> assignment_record_of(#[trigger] r@[i], self@.assignments[i]),
    {
        let mut out: Vec<BudgetGroupAssignment> = Vec::new();
        let n = self.assignments.len();
        let mut i: usize = 0;
        while i < n
            invariant
                n == self.assignments.len(),
                i <= n,
                out@.len() == i,
                forall|j: int| 0 <= j < i ==> assignment_record_of(#[trigger] out@[j], self.assignments@[j]@),
            decreases n - i,
        {
            out.push(BudgetGroupAssignment::from_db(self.assignments[i].copy()));
            i = i + 1;
        }
        assert(forall|j: int| 0 <= j < n ==> self.assignments@[j]@ == #[trigger] assignment_rows(self.assignments@)[j]);
        out
    }

    /// All targets, in table order.
    pub fn list_targets(&self) -> (r: Vec<BudgetTarget>)
        ensures
            r@.len() == self@.targets.len(),
            forall|i: int| 0 <= i < r@.len() ==> target_record_of(#[trigger] r@[i], self@.targets[i]),
    {
        let mut out: Vec<BudgetTarget> = Vec::new();
        let n = self.targets.len();
        let mut i: usize = 0;
        while i < n
            invariant
                n == self.targets.len(),
                i <= n,
                out@.len() == i,
                forall|j: int| 0 <= j < i ==> target_record_of(#[trigger] out@[j], self.targets@[j]@),
            decreases n - i,
        {
            out.push(BudgetTarget::from_db(self.targets[i].copy()));
            i = i + 1;
        }
        assert(forall|j: int| 0 <= j < n ==> self.targets@[j]@ == #[trigger] target_rows(self.targets@)[j]);
        out
    }

    /// All rollover settings, in table order.
    pub fn list_rollover_settings(&self) -> (r: Vec<BudgetRolloverSetting>)
        ensures
            r@.len() == self@.rollovers.len(),
            forall|i: int| 0 <= i < r@.len() ==> rollover_record_of(#[trigger] r@[i], self@.rollovers[i]),
    {
        let mut out: Vec<BudgetRolloverSetting> = Vec::new();
        let n = self.rollovers.len();
        let mut i: usize = 0;
        while i < n
            invariant
                n == self.rollovers.len(),
                i <= n,
                out@.len() == i,
                forall|j: int| 0 <= j < i ==> rollover_record_of(#[trigger] out@[j], self.rollovers@[j]@),
            decreases n - i,
        {
            out.push(BudgetRolloverSetting::from_db(self.rollovers[i].copy()));
            i = i + 1;
        }
        assert(forall|j: int| 0 <= j < n ==> self.rollovers@[j]@ == #[trigger] rollover_rows(self.rollovers@)[j]);
        out
    }
}

} // verus!
