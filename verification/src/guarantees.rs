//! What the single operations promise, stated over their inputs and results
//! directly rather than through the spec functions their contracts use.

use crate::groups::{find_group, new_group_row, updated_group};
use crate::listing::{bytes_le, group_before, sorted_groups};
use crate::assignments::{same_category_pred, upsert_one};
use crate::laws::{rollover_natural_key, target_natural_key};
use crate::model::{AssignmentRequest, AssignmentRow, GroupPatch, GroupRequest, GroupRow, RolloverRequest, RolloverRow, TargetRequest, TargetRow};
use crate::rollovers::{category_rollover_pred, disabled_rollovers, new_rollover_row, same_rollover_pred, upserted_rollover};
use crate::targets::{new_target_row, same_target_pred, upserted_target};
use crate::tables::{first_match, lemma_first_match_in};
use vstd::prelude::*;
use vstd::utf8::encode_utf8;

verus! {

/// Byte string `a` comes no later than `b` in lexicographic order: it is a
/// prefix of `b`, or at the first place where they differ its byte is the
/// smaller, whatever the lengths.
pub open spec fn lexicographic_le(a: Seq<u8>, b: Seq<u8>) -> bool {
    ||| (a.len() <= b.len() && a == b.take(a.len() as int))
    ||| exists|k: int| 0 <= k < a.len() && k < b.len() && a.take(k) == b.take(k) && #[trigger] a[k] < b[k]
}

/// The byte comparison used for listing is lexicographic order.
pub proof fn lemma_bytes_le_is_lexicographic(a: Seq<u8>, b: Seq<u8>)
    requires
        bytes_le(a, b),
    ensures
        lexicographic_le(a, b),
    decreases a.len(),
{
    if a.len() == 0 {
        assert(a =~= b.take(0));
    } else if a[0] != b[0] {
        assert(a.take(0) =~= b.take(0));
        assert(a[0] < b[0]);
    } else {
        let a1 = a.drop_first();
        let b1 = b.drop_first();
        lemma_bytes_le_is_lexicographic(a1, b1);
        if a1.len() <= b1.len() && a1 == b1.take(a1.len() as int) {
            assert forall|i: int| 0 <= i < a.len() implies a[i] == b.take(a.len() as int)[i] by {
                if i > 0 {
                    assert(a[i] == a1[i - 1]);
                    assert(b1.take(a1.len() as int)[i - 1] == b[i]);
                }
            }
            assert(a =~= b.take(a.len() as int));
        } else {
            let k = choose|k: int| 0 <= k < a1.len() && k < b1.len() && a1.take(k) == b1.take(k) && #[trigger] a1[k] < b1[k];
            assert forall|i: int| 0 <= i < k + 1 implies #[trigger] a.take(k + 1)[i] == b.take(k + 1)[i] by {
                if i > 0 {
                    assert(a1.take(k)[i - 1] == b1.take(k)[i - 1]);
                }
            }
            assert(a.take(k + 1) =~= b.take(k + 1));
            assert(a[k + 1] == a1[k] && b[k + 1] == b1[k]);
        }
    }
}

/// Groups are listed by ascending sort order, and groups of equal sort order
/// by their names in lexicographic byte order, whatever the names' lengths.
pub proof fn lemma_listing_order(s: Seq<GroupRow>)
    requires
        sorted_groups(s),
    ensures
        forall|i: int, j: int|
            0 <= i < j < s.len() ==> {
                &&& (#[trigger] s[i]).sort_order <= (#[trigger] s[j]).sort_order
                &&& s[i].sort_order == s[j].sort_order ==> lexicographic_le(
                    encode_utf8(s[i].name),
                    encode_utf8(s[j].name),
                )
            },
{
    assert forall|i: int, j: int| 0 <= i < j < s.len() implies {
        &&& (#[trigger] s[i]).sort_order <= (#[trigger] s[j]).sort_order
        &&& s[i].sort_order == s[j].sort_order ==> lexicographic_le(encode_utf8(s[i].name), encode_utf8(s[j].name))
    } by {
        assert(group_before(s[i], s[j]));
        if s[i].sort_order == s[j].sort_order {
            lemma_bytes_le_is_lexicographic(encode_utf8(s[i].name), encode_utf8(s[j].name));
        }
    }
}

/// A created group carries the request's name, color, icon and system flag;
/// its identifier and key are the request's where given, else the drawn
/// ones; its sort order is the request's, else 0; both stamps are `now`.
pub proof fn lemma_created_group_fields(req: GroupRequest, now: Seq<char>, gen_id: Seq<char>, gen_key: Seq<char>)
    ensures
        ({
            let row = new_group_row(req, now, gen_id, gen_key);
            &&& row.name == req.name
            &&& row.color == req.color
            &&& row.icon == req.icon
            &&& (row.is_system != 0) == req.is_system
            &&& (req.id matches Some(i) ==> row.id == i)
            &&& (req.id is None ==> row.id == gen_id)
            &&& (req.key matches Some(k) ==> row.key == k)
            &&& (req.key is None ==> row.key == gen_key)
            &&& (req.sort_order matches Some(o) ==> row.sort_order == o)
            &&& (req.sort_order is None ==> row.sort_order == 0)
            &&& row.created_at == now
            &&& row.updated_at == now
        }),
{
}

/// Changing a group replaces exactly the fields the change gives, keeps the
/// others and the identifier, key, system flag and creation stamp, sets the
/// change stamp, and touches no other group; it is refused only where no
/// group has the identifier.
pub proof fn lemma_updated_group_fields(groups: Seq<GroupRow>, id: Seq<char>, patch: GroupPatch, now: Seq<char>)
    ensures
        updated_group(groups, id, patch, now) is Err <==> forall|k: int| 0 <= k < groups.len() ==> (#[trigger] groups[k]).id != id,
        updated_group(groups, id, patch, now) matches Ok((gs, row)) ==> exists|k: int| {
            &&& 0 <= k < groups.len()
            &&& #[trigger] groups[k].id == id
            &&& gs == groups.update(k, row)
            &&& row.id == groups[k].id
            &&& row.key == groups[k].key
            &&& row.is_system == groups[k].is_system
            &&& row.created_at == groups[k].created_at
            &&& row.updated_at == now
            &&& (patch.name matches Some(x) ==> row.name == x)
            &&& (patch.name is None ==> row.name == groups[k].name)
            &&& (patch.color matches Some(x) ==> row.color == x)
            &&& (patch.color is None ==> row.color == groups[k].color)
            &&& (patch.icon matches Some(x) ==> row.icon == x)
            &&& (patch.icon is None ==> row.icon == groups[k].icon)
            &&& (patch.sort_order matches Some(x) ==> row.sort_order == x)
            &&& (patch.sort_order is None ==> row.sort_order == groups[k].sort_order)
        },
{
    let pred = |g: GroupRow| g.id == id;
    assert(crate::groups::group_pred(id) =~= pred);
    lemma_first_match_in(groups, pred, groups.len() as int);
    if let Some(k) = find_group(groups, id) {
        assert(groups[k].id == id);
    } else {
        assert forall|k: int| 0 <= k < groups.len() implies (#[trigger] groups[k]).id != id by {
            assert(!pred(groups[k]));
        }
    }
}

/// Turning off the settings of listed categories turns off every category
/// setting of the taxonomy whose category is anywhere in the list, each of
/// which is among the settings given back; every other setting is left as
/// it was, and no setting is added or removed.
pub proof fn lemma_disable_covers_every_listed_category(
    rows: Seq<RolloverRow>,
    taxonomy_id: Seq<char>,
    category_ids: Seq<Seq<char>>,
    now: Seq<char>,
)
    ensures
        disabled_rollovers(rows, taxonomy_id, category_ids, now).len() == rows.len(),
        forall|i: int|
            0 <= i < rows.len() ==> {
                let listed = rows[i].target_type == "category"@ && rows[i].taxonomy_id == Some(taxonomy_id) && exists|j: int|
                    0 <= j < category_ids.len() && rows[i].category_id == Some(#[trigger] category_ids[j]);
                let after = #[trigger] disabled_rollovers(rows, taxonomy_id, category_ids, now)[i];
                &&& listed ==> after.enabled == 0 && after.updated_at == now && disabled_rollovers(
                    rows,
                    taxonomy_id,
                    category_ids,
                    now,
                ).filter(category_rollover_pred(taxonomy_id, category_ids)).contains(after)
                &&& !listed ==> after == rows[i]
            },
{
    let d = disabled_rollovers(rows, taxonomy_id, category_ids, now);
    let pred = category_rollover_pred(taxonomy_id, category_ids);
    d.filter_lemma(pred);
    assert forall|i: int| 0 <= i < rows.len() implies {
        let listed = rows[i].target_type == "category"@ && rows[i].taxonomy_id == Some(taxonomy_id) && exists|j: int|
            0 <= j < category_ids.len() && rows[i].category_id == Some(#[trigger] category_ids[j]);
        let after = #[trigger] d[i];
        &&& listed ==> after.enabled == 0 && after.updated_at == now && d.filter(pred).contains(after)
        &&& !listed ==> after == rows[i]
    } by {
        let listed = rows[i].target_type == "category"@ && rows[i].taxonomy_id == Some(taxonomy_id) && exists|j: int|
            0 <= j < category_ids.len() && rows[i].category_id == Some(#[trigger] category_ids[j]);
        if listed {
            let j = choose|j: int| 0 <= j < category_ids.len() && rows[i].category_id == Some(#[trigger] category_ids[j]);
            assert(category_ids.contains(category_ids[j]));
            assert(pred(d[i]));
        } else {
            if let Some(c) = rows[i].category_id {
                if category_ids.contains(c) {
                    let j = choose|j: int| 0 <= j < category_ids.len() && category_ids[j] == c;
                    assert(rows[i].category_id == Some(category_ids[j]));
                }
            }
        }
    }
}

/// Setting a target changes only a stored target of the requested month:
/// every target of another month, the default included, stays as it was,
/// the row stored is one of the requested month, and where the month has no
/// target at all the row is added at the end with nothing else changed.
pub proof fn lemma_upsert_target_same_month(rows: Seq<TargetRow>, req: TargetRequest, now: Seq<char>)
    ensures
        upserted_target(rows, new_target_row(req, now)) matches Ok((t, r)) ==> {
            &&& r.period_key == req.period_key
            &&& t.len() >= rows.len()
            &&& forall|k: int| 0 <= k < rows.len() && (#[trigger] rows[k]).period_key != req.period_key ==> t[k] == rows[k]
            &&& (forall|k: int| 0 <= k < rows.len() ==> (#[trigger] rows[k]).period_key != req.period_key) ==> t
                == rows.push(r)
        },
{
    let row = new_target_row(req, now);
    let pred = same_target_pred(row);
    lemma_first_match_in(rows, pred, rows.len() as int);
    if let Some(k) = first_match(rows, pred) {
        assert(pred(rows[k]));
        assert(rows[k].period_key == req.period_key);
    }
}

/// Setting a target replaces, if any, only a stored target with the
/// request's natural key (kind, month, and taxonomy and category, or group):
/// every target with another natural key stays as it was, and the row stored
/// has the request's natural key and amount.
pub proof fn lemma_upsert_target_touches_its_key(rows: Seq<TargetRow>, req: TargetRequest, now: Seq<char>)
    ensures
        upserted_target(rows, new_target_row(req, now)) matches Ok((t, r)) ==> {
            &&& target_natural_key(r) == target_natural_key(new_target_row(req, now))
            &&& r.amount == req.amount
            &&& forall|k: int|
                0 <= k < rows.len() && target_natural_key(#[trigger] rows[k]) != target_natural_key(
                    new_target_row(req, now),
                ) ==> t[k] == rows[k]
        },
{
    let row = new_target_row(req, now);
    let pred = same_target_pred(row);
    lemma_first_match_in(rows, pred, rows.len() as int);
    reveal_strlit("category");
    reveal_strlit("group_buffer");
    if let Some(k) = first_match(rows, pred) {
        assert(pred(rows[k]));
        assert(target_natural_key(rows[k]) == target_natural_key(row));
    }
}

/// Setting a rollover setting replaces, if any, only a stored setting with
/// the request's natural key (kind, and taxonomy and category, or group):
/// every setting with another natural key stays as it was, and the row
/// stored has the request's natural key, flag, start month and balance.
pub proof fn lemma_upsert_rollover_touches_its_key(rows: Seq<RolloverRow>, req: RolloverRequest, now: Seq<char>)
    ensures
        upserted_rollover(rows, new_rollover_row(req, now)) matches Ok((t, r)) ==> {
            &&& rollover_natural_key(r) == rollover_natural_key(new_rollover_row(req, now))
            &&& (r.enabled != 0) == req.enabled
            &&& r.start_month == req.start_month
            &&& r.starting_balance == req.starting_balance
            &&& forall|k: int|
                0 <= k < rows.len() && rollover_natural_key(#[trigger] rows[k]) != rollover_natural_key(
                    new_rollover_row(req, now),
                ) ==> t[k] == rows[k]
        },
{
    let row = new_rollover_row(req, now);
    let pred = same_rollover_pred(row);
    lemma_first_match_in(rows, pred, rows.len() as int);
    reveal_strlit("category");
    reveal_strlit("group");
    if let Some(k) = first_match(rows, pred) {
        assert(pred(rows[k]));
        assert(rollover_natural_key(rows[k]) == rollover_natural_key(row));
    }
}

/// Placing a category in a group changes, if any, only the assignment of
/// that taxonomy and category: every other assignment stays as it was, and
/// the row stored is for that taxonomy and category, in the requested group
/// with the requested system flag.
pub proof fn lemma_upsert_assignment_touches_its_category(
    rows: Seq<AssignmentRow>,
    req: AssignmentRequest,
    is_system: i32,
    now: Seq<char>,
)
    ensures
        upsert_one(rows, req, is_system, now) matches Ok((t, r)) ==> {
            &&& r.taxonomy_id == req.taxonomy_id
            &&& r.category_id == req.category_id
            &&& r.group_id == req.group_id
            &&& r.is_system == is_system
            &&& forall|k: int|
                0 <= k < rows.len() && !((#[trigger] rows[k]).taxonomy_id == req.taxonomy_id && rows[k].category_id
                    == req.category_id) ==> t[k] == rows[k]
        },
{
    let pred = same_category_pred(req);
    lemma_first_match_in(rows, pred, rows.len() as int);
    if let Some(k) = first_match(rows, pred) {
        assert(pred(rows[k]));
    }
}

} // verus!
