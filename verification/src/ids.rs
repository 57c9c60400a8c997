//! Identifiers of budget rows: random ones for new groups and buffers, and
//! deterministic ones for rows that every device must name alike.

use uuid::Uuid;
use crate::text::opt_view;
use vstd::prelude::*;

verus! {

/// The hyphenated text of `Uuid::new_v5(&Uuid::NAMESPACE_OID, name)` for the
/// UTF-8 bytes of a name.
pub uninterp spec fn uuid_v5_oid_text(name: Seq<char>) -> Seq<char>;

/// A lower-case hexadecimal digit.
pub open spec fn is_lower_hex(c: char) -> bool {
    ('0' <= c && c <= '9') || ('a' <= c && c <= 'f')
}

/// Whether a text is the hyphenated lower-case form of an RFC 4122 UUID of
/// the given version digit: 36 characters, hyphens at 8, 13, 18 and 23,
/// hexadecimal digits elsewhere, the version digit at 14 and a variant digit
/// of `8`, `9`, `a` or `b` at 19.
pub open spec fn is_uuid_text(s: Seq<char>, version: char) -> bool {
    &&& s.len() == 36
    &&& forall|i: int|
        0 <= i < 36 ==> if i == 8 || i == 13 || i == 18 || i == 23 {
            #[trigger] s[i] == '-'
        } else {
            is_lower_hex(s[i])
        }
    &&& s[14] == version
    &&& (s[19] == '8' || s[19] == '9' || s[19] == 'a' || s[19] == 'b')
}

/// A fresh random identifier, the text of `Uuid::new_v4`. Claimed: only its
/// shape, which `new_v4` fixes by masking in version 4 and the RFC 4122
/// variant and `Display` writes hyphenated in lower case. Which random
/// value comes back is left unsaid.
#[verifier::external_body]
pub fn new_uuid() -> (r: String)
    ensures
        is_uuid_text(r@, '4'),
{
    Uuid::new_v4().to_string()
}

/// The text of `Uuid::new_v5` in the OID namespace for a name. Claimed: it is
/// the named `uuid_v5_oid_text` of the name, and it has the shape of a
/// version 5 UUID (`from_sha1_bytes` sets version 5 and the RFC 4122 variant).
#[verifier::external_body]
pub fn uuid_v5_oid(name: &str) -> (r: String)
    ensures
        r@ == uuid_v5_oid_text(name@),
        is_uuid_text(r@, '5'),
{
    Uuid::new_v5(&Uuid::NAMESPACE_OID, name.as_bytes()).to_string()
}

/// The characters of an optional part of a key; an absent part is empty.
pub open spec fn part(o: Option<Seq<char>>) -> Seq<char> {
    match o {
        Some(s) => s,
        None => Seq::empty(),
    }
}

/// The name from which a group assignment's identifier is made.
pub open spec fn assignment_key(taxonomy_id: Seq<char>, category_id: Seq<char>) -> Seq<char> {
    "budget_group_assignment:"@ + taxonomy_id + ":"@ + category_id
}

/// The name from which a target's identifier is made.
pub open spec fn target_key(
    period_key: Seq<char>,
    target_type: Seq<char>,
    taxonomy_id: Option<Seq<char>>,
    category_id: Option<Seq<char>>,
    group_id: Option<Seq<char>>,
) -> Seq<char> {
    "budget_target:"@ + period_key + ":"@ + target_type + ":"@ + part(taxonomy_id) + ":"@
        + part(category_id) + ":"@ + part(group_id)
}

/// The name from which a rollover setting's identifier is made.
pub open spec fn rollover_key(
    target_type: Seq<char>,
    taxonomy_id: Option<Seq<char>>,
    category_id: Option<Seq<char>>,
    group_id: Option<Seq<char>>,
) -> Seq<char> {
    "budget_rollover_setting:"@ + target_type + ":"@ + part(taxonomy_id) + ":"@ + part(
        category_id,
    ) + ":"@ + part(group_id)
}

fn push_part(out: &mut String, o: &Option<String>)
    ensures
        final(out)@ == old(out)@ + part(opt_view(*o)),
{
    match o {
        Some(s) => {
            out.append(s.as_str());
        },
        None => {},
    }
}

/// The identifier of the assignment of a category to a group: the same on every device.
pub fn budget_group_assignment_id(taxonomy_id: &str, category_id: &str) -> (r: String)
    ensures
        r@ == uuid_v5_oid_text(assignment_key(taxonomy_id@, category_id@)),
        is_uuid_text(r@, '5'),
{
    let mut key = String::from_str("budget_group_assignment:");
    key.append(taxonomy_id);
    key.append(":");
    key.append(category_id);
    uuid_v5_oid(key.as_str())
}

/// The identifier of a budget target: the same on every device.
pub fn budget_target_id(
    period_key: &str,
    target_type: &str,
    taxonomy_id: &Option<String>,
    category_id: &Option<String>,
    group_id: &Option<String>,
) -> (r: String)
    ensures
        r@ == uuid_v5_oid_text(
            target_key(
                period_key@,
                target_type@,
                opt_view(*taxonomy_id),
                opt_view(*category_id),
                opt_view(*group_id),
            ),
        ),
        is_uuid_text(r@, '5'),
{
    let mut key = String::from_str("budget_target:");
    key.append(period_key);
    key.append(":");
    key.append(target_type);
    key.append(":");
    push_part(&mut key, taxonomy_id);
    key.append(":");
    push_part(&mut key, category_id);
    key.append(":");
    push_part(&mut key, group_id);
    uuid_v5_oid(key.as_str())
}

/// The identifier of a rollover setting: the same on every device.
pub fn budget_rollover_setting_id(
    target_type: &str,
    taxonomy_id: &Option<String>,
    category_id: &Option<String>,
    group_id: &Option<String>,
) -> (r: String)
    ensures
        r@ == uuid_v5_oid_text(
            rollover_key(target_type@, opt_view(*taxonomy_id), opt_view(*category_id), opt_view(*group_id)),
        ),
        is_uuid_text(r@, '5'),
{
    let mut key = String::from_str("budget_rollover_setting:");
    key.append(target_type);
    key.append(":");
    push_part(&mut key, taxonomy_id);
    key.append(":");
    push_part(&mut key, category_id);
    key.append(":");
    push_part(&mut key, group_id);
    uuid_v5_oid(key.as_str())
}

} // verus!
