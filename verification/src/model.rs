//! Rows of the four budget tables as they are stored, the records handed to
//! callers, and the requests that create or change them.

use crate::clock::{parse_dt, rfc3339_instant, UtcTime};
use crate::text::{copy_opt, opt_view, text_eq};
use vstd::prelude::*;

verus! {

/// What a change to a row is, for the sync outbox.
#[derive(Debug, Clone, Copy, PartialEq, Eq)]
pub enum SyncOperation {
    Create,
    Update,
    Delete,
}

/// A row of `budget_groups`.
#[derive(Debug, Clone, PartialEq, Eq)]
pub struct BudgetGroupDB {
    pub id: String,
    pub name: String,
    pub key: String,
    pub color: Option<String>,
    pub icon: Option<String>,
    pub sort_order: i32,
    pub is_system: i32,
    pub created_at: String,
    pub updated_at: String,
}

/// A row to insert into `budget_groups`.
#[derive(Debug, Clone, PartialEq, Eq)]
pub struct NewBudgetGroupDB {
    pub id: String,
    pub name: String,
    pub key: String,
    pub color: Option<String>,
    pub icon: Option<String>,
    pub sort_order: i32,
    pub is_system: i32,
    pub created_at: String,
    pub updated_at: String,
}

/// A row of `budget_group_assignments`: a category of a taxonomy placed in a group.
#[derive(Debug, Clone, PartialEq, Eq)]
pub struct BudgetGroupAssignmentDB {
    pub id: String,
    pub group_id: String,
    pub taxonomy_id: String,
    pub category_id: String,
    pub is_system: i32,
    pub created_at: String,
    pub updated_at: String,
}

/// A row to insert into `budget_group_assignments`.
#[derive(Debug, Clone, PartialEq, Eq)]
pub struct NewBudgetGroupAssignmentDB {
    pub id: String,
    pub group_id: String,
    pub taxonomy_id: String,
    pub category_id: String,
    pub is_system: i32,
    pub created_at: String,
    pub updated_at: String,
}

/// A row of `budget_targets`: the amount budgeted for a category or as a
/// group's buffer, for one month or as the default of every month.
#[derive(Debug, Clone, PartialEq, Eq)]
pub struct BudgetTargetDB {
    pub id: String,
    pub period_key: String,
    pub target_type: String,
    pub taxonomy_id: Option<String>,
    pub category_id: Option<String>,
    pub group_id: Option<String>,
    pub amount: String,
    pub created_at: String,
    pub updated_at: String,
}

/// A row to insert into `budget_targets`.
#[derive(Debug, Clone, PartialEq, Eq)]
pub struct NewBudgetTargetDB {
    pub id: String,
    pub period_key: String,
    pub target_type: String,
    pub taxonomy_id: Option<String>,
    pub category_id: Option<String>,
    pub group_id: Option<String>,
    pub amount: String,
    pub created_at: String,
    pub updated_at: String,
}

/// A row of `budget_rollover_settings`: whether unspent budget of a category
/// or group carries over, from which month and with what starting balance.
#[derive(Debug, Clone, PartialEq, Eq)]
pub struct BudgetRolloverSettingDB {
    pub id: String,
    pub target_type: String,
    pub taxonomy_id: Option<String>,
    pub category_id: Option<String>,
    pub group_id: Option<String>,
    pub enabled: i32,
    pub start_month: String,
    pub starting_balance: String,
    pub created_at: String,
    pub updated_at: String,
}

/// A row to insert into `budget_rollover_settings`.
#[derive(Debug, Clone, PartialEq, Eq)]
pub struct NewBudgetRolloverSettingDB {
    pub id: String,
    pub target_type: String,
    pub taxonomy_id: Option<String>,
    pub category_id: Option<String>,
    pub group_id: Option<String>,
    pub enabled: i32,
    pub start_month: String,
    pub starting_balance: String,
    pub created_at: String,
    pub updated_at: String,
}


/// A `budget_groups` row by its characters.
pub struct GroupRow {
    pub id: Seq<char>,
    pub name: Seq<char>,
    pub key: Seq<char>,
    pub color: Option<Seq<char>>,
    pub icon: Option<Seq<char>>,
    pub sort_order: i32,
    pub is_system: i32,
    pub created_at: Seq<char>,
    pub updated_at: Seq<char>,
}

impl View for BudgetGroupDB {
    type V = GroupRow;

    open spec fn view(&self) -> GroupRow {
        GroupRow {
            id: self.id@,
            name: self.name@,
            key: self.key@,
            color: opt_view(self.color),
            icon: opt_view(self.icon),
            sort_order: self.sort_order,
            is_system: self.is_system,
            created_at: self.created_at@,
            updated_at: self.updated_at@,
        }
    }
}

impl View for NewBudgetGroupDB {
    type V = GroupRow;

    open spec fn view(&self) -> GroupRow {
        GroupRow {
            id: self.id@,
            name: self.name@,
            key: self.key@,
            color: opt_view(self.color),
            icon: opt_view(self.icon),
            sort_order: self.sort_order,
            is_system: self.is_system,
            created_at: self.created_at@,
            updated_at: self.updated_at@,
        }
    }
}

/// A `budget_group_assignments` row by its characters.
pub struct AssignmentRow {
    pub id: Seq<char>,
    pub group_id: Seq<char>,
    pub taxonomy_id: Seq<char>,
    pub category_id: Seq<char>,
    pub is_system: i32,
    pub created_at: Seq<char>,
    pub updated_at: Seq<char>,
}

impl View for BudgetGroupAssignmentDB {
    type V = AssignmentRow;

    open spec fn view(&self) -> AssignmentRow {
        AssignmentRow {
            id: self.id@,
            group_id: self.group_id@,
            taxonomy_id: self.taxonomy_id@,
            category_id: self.category_id@,
            is_system: self.is_system,
            created_at: self.created_at@,
            updated_at: self.updated_at@,
        }
    }
}

impl View for NewBudgetGroupAssignmentDB {
    type V = AssignmentRow;

    open spec fn view(&self) -> AssignmentRow {
        AssignmentRow {
            id: self.id@,
            group_id: self.group_id@,
            taxonomy_id: self.taxonomy_id@,
            category_id: self.category_id@,
            is_system: self.is_system,
            created_at: self.created_at@,
            updated_at: self.updated_at@,
        }
    }
}

/// A `budget_targets` row by its characters.
pub struct TargetRow {
    pub id: Seq<char>,
    pub period_key: Seq<char>,
    pub target_type: Seq<char>,
    pub taxonomy_id: Option<Seq<char>>,
    pub category_id: Option<Seq<char>>,
    pub group_id: Option<Seq<char>>,
    pub amount: Seq<char>,
    pub created_at: Seq<char>,
    pub updated_at: Seq<char>,
}

impl View for BudgetTargetDB {
    type V = TargetRow;

    open spec fn view(&self) -> TargetRow {
        TargetRow {
            id: self.id@,
            period_key: self.period_key@,
            target_type: self.target_type@,
            taxonomy_id: opt_view(self.taxonomy_id),
            category_id: opt_view(self.category_id),
            group_id: opt_view(self.group_id),
            amount: self.amount@,
            created_at: self.created_at@,
            updated_at: self.updated_at@,
        }
    }
}

impl View for NewBudgetTargetDB {
    type V = TargetRow;

    open spec fn view(&self) -> TargetRow {
        TargetRow {
            id: self.id@,
            period_key: self.period_key@,
            target_type: self.target_type@,
            taxonomy_id: opt_view(self.taxonomy_id),
            category_id: opt_view(self.category_id),
            group_id: opt_view(self.group_id),
            amount: self.amount@,
            created_at: self.created_at@,
            updated_at: self.updated_at@,
        }
    }
}

/// A `budget_rollover_settings` row by its characters.
pub struct RolloverRow {
    pub id: Seq<char>,
    pub target_type: Seq<char>,
    pub taxonomy_id: Option<Seq<char>>,
    pub category_id: Option<Seq<char>>,
    pub group_id: Option<Seq<char>>,
    pub enabled: i32,
    pub start_month: Seq<char>,
    pub starting_balance: Seq<char>,
    pub created_at: Seq<char>,
    pub updated_at: Seq<char>,
}

impl View for BudgetRolloverSettingDB {
    type V = RolloverRow;

    open spec fn view(&self) -> RolloverRow {
        RolloverRow {
            id: self.id@,
            target_type: self.target_type@,
            taxonomy_id: opt_view(self.taxonomy_id),
            category_id: opt_view(self.category_id),
            group_id: opt_view(self.group_id),
            enabled: self.enabled,
            start_month: self.start_month@,
            starting_balance: self.starting_balance@,
            created_at: self.created_at@,
            updated_at: self.updated_at@,
        }
    }
}

impl View for NewBudgetRolloverSettingDB {
    type V = RolloverRow;

    open spec fn view(&self) -> RolloverRow {
        RolloverRow {
            id: self.id@,
            target_type: self.target_type@,
            taxonomy_id: opt_view(self.taxonomy_id),
            category_id: opt_view(self.category_id),
            group_id: opt_view(self.group_id),
            enabled: self.enabled,
            start_month: self.start_month@,
            starting_balance: self.starting_balance@,
            created_at: self.created_at@,
            updated_at: self.updated_at@,
        }
    }
}

impl BudgetGroupDB {
    /// A copy of the row.
    pub fn copy(&self) -> (r: Self)
        ensures
            r == *self,
    {
        BudgetGroupDB {
            id: self.id.clone(),
            name: self.name.clone(),
            key: self.key.clone(),
            color: copy_opt(&self.color),
            icon: copy_opt(&self.icon),
            sort_order: self.sort_order,
            is_system: self.is_system,
            created_at: self.created_at.clone(),
            updated_at: self.updated_at.clone(),
        }
    }

    /// The identifier under which the row is synced.
    pub fn sync_entity_id(&self) -> (r: &str)
        ensures
            r@ == self.id@,
    {
        self.id.as_str()
    }

    /// A group goes to the sync outbox unless it is a system group that was
    /// never changed after its creation.
    pub fn should_sync_outbox(&self, op: SyncOperation) -> (r: bool)
        ensures
            r == (self.is_system == 0 || self.updated_at@ != self.created_at@),
    {
        self.is_system == 0 || !(self.updated_at == self.created_at)
    }
}

impl NewBudgetGroupDB {
    /// The stored row that inserting this one gives.
    pub fn into_row(self) -> (r: BudgetGroupDB)
        ensures
            r.id == self.id,
            r.name == self.name,
            r.key == self.key,
            r.color == self.color,
            r.icon == self.icon,
            r.sort_order == self.sort_order,
            r.is_system == self.is_system,
            r.created_at == self.created_at,
            r.updated_at == self.updated_at,
    {
        BudgetGroupDB {
            id: self.id,
            name: self.name,
            key: self.key,
            color: self.color,
            icon: self.icon,
            sort_order: self.sort_order,
            is_system: self.is_system,
            created_at: self.created_at,
            updated_at: self.updated_at,
        }
    }
}

impl BudgetGroupAssignmentDB {
    /// A copy of the row.
    pub fn copy(&self) -> (r: Self)
        ensures
            r == *self,
    {
        BudgetGroupAssignmentDB {
            id: self.id.clone(),
            group_id: self.group_id.clone(),
            taxonomy_id: self.taxonomy_id.clone(),
            category_id: self.category_id.clone(),
            is_system: self.is_system,
            created_at: self.created_at.clone(),
            updated_at: self.updated_at.clone(),
        }
    }

    /// The identifier under which the row is synced.
    pub fn sync_entity_id(&self) -> (r: &str)
        ensures
            r@ == self.id@,
    {
        self.id.as_str()
    }

    /// An assignment goes to the sync outbox unless it is a system assignment
    /// that was never changed after its creation.
    pub fn should_sync_outbox(&self, op: SyncOperation) -> (r: bool)
        ensures
            r == (self.is_system == 0 || self.updated_at@ != self.created_at@),
    {
        self.is_system == 0 || !(self.updated_at == self.created_at)
    }
}

impl NewBudgetGroupAssignmentDB {
    /// The stored row that inserting this one gives.
    pub fn into_row(self) -> (r: BudgetGroupAssignmentDB)
        ensures
            r.id == self.id,
            r.group_id == self.group_id,
            r.taxonomy_id == self.taxonomy_id,
            r.category_id == self.category_id,
            r.is_system == self.is_system,
            r.created_at == self.created_at,
            r.updated_at == self.updated_at,
    {
        BudgetGroupAssignmentDB {
            id: self.id,
            group_id: self.group_id,
            taxonomy_id: self.taxonomy_id,
            category_id: self.category_id,
            is_system: self.is_system,
            created_at: self.created_at,
            updated_at: self.updated_at,
        }
    }
}

impl BudgetTargetDB {
    /// A copy of the row.
    pub fn copy(&self) -> (r: Self)
        ensures
            r == *self,
    {
        BudgetTargetDB {
            id: self.id.clone(),
            period_key: self.period_key.clone(),
            target_type: self.target_type.clone(),
            taxonomy_id: copy_opt(&self.taxonomy_id),
            category_id: copy_opt(&self.category_id),
            group_id: copy_opt(&self.group_id),
            amount: self.amount.clone(),
            created_at: self.created_at.clone(),
            updated_at: self.updated_at.clone(),
        }
    }

    /// The identifier under which the row is synced.
    pub fn sync_entity_id(&self) -> (r: &str)
        ensures
            r@ == self.id@,
    {
        self.id.as_str()
    }
}

impl NewBudgetTargetDB {
    /// The stored row that inserting this one gives.
    pub fn into_row(self) -> (r: BudgetTargetDB)
        ensures
            r.id == self.id,
            r.period_key == self.period_key,
            r.target_type == self.target_type,
            r.taxonomy_id == self.taxonomy_id,
            r.category_id == self.category_id,
            r.group_id == self.group_id,
            r.amount == self.amount,
            r.created_at == self.created_at,
            r.updated_at == self.updated_at,
    {
        BudgetTargetDB {
            id: self.id,
            period_key: self.period_key,
            target_type: self.target_type,
            taxonomy_id: self.taxonomy_id,
            category_id: self.category_id,
            group_id: self.group_id,
            amount: self.amount,
            created_at: self.created_at,
            updated_at: self.updated_at,
        }
    }
}

impl BudgetRolloverSettingDB {
    /// A copy of the row.
    pub fn copy(&self) -> (r: Self)
        ensures
            r == *self,
    {
        BudgetRolloverSettingDB {
            id: self.id.clone(),
            target_type: self.target_type.clone(),
            taxonomy_id: copy_opt(&self.taxonomy_id),
            category_id: copy_opt(&self.category_id),
            group_id: copy_opt(&self.group_id),
            enabled: self.enabled,
            start_month: self.start_month.clone(),
            starting_balance: self.starting_balance.clone(),
            created_at: self.created_at.clone(),
            updated_at: self.updated_at.clone(),
        }
    }

    /// The identifier under which the row is synced.
    pub fn sync_entity_id(&self) -> (r: &str)
        ensures
            r@ == self.id@,
    {
        self.id.as_str()
    }
}

impl NewBudgetRolloverSettingDB {
    /// The stored row that inserting this one gives.
    pub fn into_row(self) -> (r: BudgetRolloverSettingDB)
        ensures
            r.id == self.id,
            r.target_type == self.target_type,
            r.taxonomy_id == self.taxonomy_id,
            r.category_id == self.category_id,
            r.group_id == self.group_id,
            r.enabled == self.enabled,
            r.start_month == self.start_month,
            r.starting_balance == self.starting_balance,
            r.created_at == self.created_at,
            r.updated_at == self.updated_at,
    {
        BudgetRolloverSettingDB {
            id: self.id,
            target_type: self.target_type,
            taxonomy_id: self.taxonomy_id,
            category_id: self.category_id,
            group_id: self.group_id,
            enabled: self.enabled,
            start_month: self.start_month,
            starting_balance: self.starting_balance,
            created_at: self.created_at,
            updated_at: self.updated_at,
        }
    }
}

/// What a budget target is for: a category, or a group's buffer.
#[derive(Debug, Clone, Copy, PartialEq, Eq)]
pub enum BudgetTargetType {
    Category,
    GroupBuffer,
}

impl BudgetTargetType {
    /// The text under which the kind is stored.
    pub fn as_str(&self) -> (r: &'static str)
        ensures
            r@ == target_type_text(*self),
    {
        match self {
            BudgetTargetType::Category => "category",
            BudgetTargetType::GroupBuffer => "group_buffer",
        }
    }
}

/// The stored text of a target kind.
pub open spec fn target_type_text(t: BudgetTargetType) -> Seq<char> {
    match t {
        BudgetTargetType::Category => "category"@,
        BudgetTargetType::GroupBuffer => "group_buffer"@,
    }
}

/// What a rollover setting is for: a category, or a group.
#[derive(Debug, Clone, Copy, PartialEq, Eq)]
pub enum BudgetRolloverTargetType {
    Category,
    Group,
}

impl BudgetRolloverTargetType {
    /// The text under which the kind is stored.
    pub fn as_str(&self) -> (r: &'static str)
        ensures
            r@ == rollover_target_type_text(*self),
    {
        match self {
            BudgetRolloverTargetType::Category => "category",
            BudgetRolloverTargetType::Group => "group",
        }
    }
}

/// The stored text of a rollover kind.
pub open spec fn rollover_target_type_text(t: BudgetRolloverTargetType) -> Seq<char> {
    match t {
        BudgetRolloverTargetType::Category => "category"@,
        BudgetRolloverTargetType::Group => "group"@,
    }
}

/// Reads a stored target kind: `group_buffer` is a group's buffer, any other
/// text a category.
pub fn target_type_from_str(value: &str) -> (r: BudgetTargetType)
    ensures
        r == (if value@ == "group_buffer"@ {
            BudgetTargetType::GroupBuffer
        } else {
            BudgetTargetType::Category
        }),
{
    if text_eq(value, "group_buffer") {
        BudgetTargetType::GroupBuffer
    } else {
        BudgetTargetType::Category
    }
}

/// Reads a stored rollover kind: `group` is a group, any other text a category.
pub fn rollover_target_type_from_str(value: &str) -> (r: BudgetRolloverTargetType)
    ensures
        r == (if value@ == "group"@ {
            BudgetRolloverTargetType::Group
        } else {
            BudgetRolloverTargetType::Category
        }),
{
    if text_eq(value, "group") {
        BudgetRolloverTargetType::Group
    } else {
        BudgetRolloverTargetType::Category
    }
}

/// The instant read from a stored time stamp, where it is RFC 3339.
pub open spec fn stamp_read(s: Seq<char>, t: UtcTime) -> bool {
    rfc3339_instant(s) matches Some(i) ==> t == (UtcTime { secs: i.0, nanos: i.1 })
}

/// A budget group as callers see it.
#[derive(Debug, Clone, PartialEq, Eq)]
pub struct BudgetGroup {
    pub id: String,
    pub name: String,
    pub key: String,
    pub color: Option<String>,
    pub icon: Option<String>,
    pub sort_order: i32,
    pub is_system: bool,
    pub created_at: UtcTime,
    pub updated_at: UtcTime,
}

impl BudgetGroup {
    /// The record of a stored group.
    pub fn from_db(db: BudgetGroupDB) -> (r: Self)
        ensures
            r.id == db.id,
            r.name == db.name,
            r.key == db.key,
            r.color == db.color,
            r.icon == db.icon,
            r.sort_order == db.sort_order,
            r.is_system == (db.is_system != 0),
            stamp_read(db.created_at@, r.created_at),
            stamp_read(db.updated_at@, r.updated_at),
    {
        let created_at = parse_dt(db.created_at.as_str());
        let updated_at = parse_dt(db.updated_at.as_str());
        BudgetGroup {
            id: db.id,
            name: db.name,
            key: db.key,
            color: db.color,
            icon: db.icon,
            sort_order: db.sort_order,
            is_system: db.is_system != 0,
            created_at,
            updated_at,
        }
    }
}

/// The assignment of a category to a budget group, as callers see it.
#[derive(Debug, Clone, PartialEq, Eq)]
pub struct BudgetGroupAssignment {
    pub id: String,
    pub group_id: String,
    pub taxonomy_id: String,
    pub category_id: String,
    pub created_at: UtcTime,
    pub updated_at: UtcTime,
}

impl BudgetGroupAssignment {
    /// The record of a stored assignment.
    pub fn from_db(db: BudgetGroupAssignmentDB) -> (r: Self)
        ensures
            r.id == db.id,
            r.group_id == db.group_id,
            r.taxonomy_id == db.taxonomy_id,
            r.category_id == db.category_id,
            stamp_read(db.created_at@, r.created_at),
            stamp_read(db.updated_at@, r.updated_at),
    {
        let created_at = parse_dt(db.created_at.as_str());
        let updated_at = parse_dt(db.updated_at.as_str());
        BudgetGroupAssignment {
            id: db.id,
            group_id: db.group_id,
            taxonomy_id: db.taxonomy_id,
            category_id: db.category_id,
            created_at,
            updated_at,
        }
    }
}

/// A budget target as callers see it.
#[derive(Debug, Clone, PartialEq, Eq)]
pub struct BudgetTarget {
    pub id: String,
    pub period_key: String,
    pub target_type: BudgetTargetType,
    pub taxonomy_id: Option<String>,
    pub category_id: Option<String>,
    pub group_id: Option<String>,
    pub amount: String,
    pub created_at: UtcTime,
    pub updated_at: UtcTime,
}

impl BudgetTarget {
    /// The record of a stored target.
    pub fn from_db(db: BudgetTargetDB) -> (r: Self)
        ensures
            r.id == db.id,
            r.period_key == db.period_key,
            r.target_type == (if db.target_type@ == "group_buffer"@ {
                BudgetTargetType::GroupBuffer
            } else {
                BudgetTargetType::Category
            }),
            r.taxonomy_id == db.taxonomy_id,
            r.category_id == db.category_id,
            r.group_id == db.group_id,
            r.amount == db.amount,
            stamp_read(db.created_at@, r.created_at),
            stamp_read(db.updated_at@, r.updated_at),
    {
        let target_type = target_type_from_str(db.target_type.as_str());
        let created_at = parse_dt(db.created_at.as_str());
        let updated_at = parse_dt(db.updated_at.as_str());
        BudgetTarget {
            id: db.id,
            period_key: db.period_key,
            target_type,
            taxonomy_id: db.taxonomy_id,
            category_id: db.category_id,
            group_id: db.group_id,
            amount: db.amount,
            created_at,
            updated_at,
        }
    }
}

/// A rollover setting as callers see it.
#[derive(Debug, Clone, PartialEq, Eq)]
pub struct BudgetRolloverSetting {
    pub id: String,
    pub target_type: BudgetRolloverTargetType,
    pub taxonomy_id: Option<String>,
    pub category_id: Option<String>,
    pub group_id: Option<String>,
    pub enabled: bool,
    pub start_month: String,
    pub starting_balance: String,
    pub created_at: UtcTime,
    pub updated_at: UtcTime,
}

impl BudgetRolloverSetting {
    /// The record of a stored rollover setting.
    pub fn from_db(db: BudgetRolloverSettingDB) -> (r: Self)
        ensures
            r.id == db.id,
            r.target_type == (if db.target_type@ == "group"@ {
                BudgetRolloverTargetType::Group
            } else {
                BudgetRolloverTargetType::Category
            }),
            r.taxonomy_id == db.taxonomy_id,
            r.category_id == db.category_id,
            r.group_id == db.group_id,
            r.enabled == (db.enabled != 0),
            r.start_month == db.start_month,
            r.starting_balance == db.starting_balance,
            stamp_read(db.created_at@, r.created_at),
            stamp_read(db.updated_at@, r.updated_at),
    {
        let target_type = rollover_target_type_from_str(db.target_type.as_str());
        let created_at = parse_dt(db.created_at.as_str());
        let updated_at = parse_dt(db.updated_at.as_str());
        BudgetRolloverSetting {
            id: db.id,
            target_type,
            taxonomy_id: db.taxonomy_id,
            category_id: db.category_id,
            group_id: db.group_id,
            enabled: db.enabled != 0,
            start_month: db.start_month,
            starting_balance: db.starting_balance,
            created_at,
            updated_at,
        }
    }
}

/// A request to create a budget group; absent fields take their defaults.
#[derive(Debug, Clone, PartialEq, Eq)]
pub struct NewBudgetGroup {
    pub id: Option<String>,
    pub name: String,
    pub key: Option<String>,
    pub color: Option<String>,
    pub icon: Option<String>,
    pub sort_order: Option<i32>,
    pub is_system: bool,
}

/// A change to a budget group; absent fields stay as they are.
#[derive(Debug, Clone, PartialEq, Eq)]
pub struct UpdateBudgetGroup {
    pub name: Option<String>,
    pub color: Option<Option<String>>,
    pub icon: Option<Option<String>>,
    pub sort_order: Option<i32>,
}

/// A request to place a category in a budget group.
#[derive(Debug, Clone, PartialEq, Eq)]
pub struct NewBudgetGroupAssignment {
    pub id: Option<String>,
    pub group_id: String,
    pub taxonomy_id: String,
    pub category_id: String,
}

/// A request to set a budget target.
#[derive(Debug, Clone, PartialEq, Eq)]
pub struct NewBudgetTarget {
    pub id: Option<String>,
    pub period_key: String,
    pub target_type: BudgetTargetType,
    pub taxonomy_id: Option<String>,
    pub category_id: Option<String>,
    pub group_id: Option<String>,
    pub amount: String,
}

/// A request to set a rollover setting.
#[derive(Debug, Clone, PartialEq, Eq)]
pub struct NewBudgetRolloverSetting {
    pub id: Option<String>,
    pub target_type: BudgetRolloverTargetType,
    pub taxonomy_id: Option<String>,
    pub category_id: Option<String>,
    pub group_id: Option<String>,
    pub enabled: bool,
    pub start_month: String,
    pub starting_balance: String,
}

/// A group request by its characters.
pub struct GroupRequest {
    pub id: Option<Seq<char>>,
    pub name: Seq<char>,
    pub key: Option<Seq<char>>,
    pub color: Option<Seq<char>>,
    pub icon: Option<Seq<char>>,
    pub sort_order: Option<i32>,
    pub is_system: bool,
}

impl View for NewBudgetGroup {
    type V = GroupRequest;

    open spec fn view(&self) -> GroupRequest {
        GroupRequest {
            id: opt_view(self.id),
            name: self.name@,
            key: opt_view(self.key),
            color: opt_view(self.color),
            icon: opt_view(self.icon),
            sort_order: self.sort_order,
            is_system: self.is_system,
        }
    }
}

/// The characters of an optional optional text.
pub open spec fn opt_opt_view(o: Option<Option<String>>) -> Option<Option<Seq<char>>> {
    match o {
        Some(x) => Some(opt_view(x)),
        None => None,
    }
}

/// A group change by its characters.
pub struct GroupPatch {
    pub name: Option<Seq<char>>,
    pub color: Option<Option<Seq<char>>>,
    pub icon: Option<Option<Seq<char>>>,
    pub sort_order: Option<i32>,
}

impl View for UpdateBudgetGroup {
    type V = GroupPatch;

    open spec fn view(&self) -> GroupPatch {
        GroupPatch {
            name: opt_view(self.name),
            color: opt_opt_view(self.color),
            icon: opt_opt_view(self.icon),
            sort_order: self.sort_order,
        }
    }
}

/// An assignment request by its characters.
pub struct AssignmentRequest {
    pub id: Option<Seq<char>>,
    pub group_id: Seq<char>,
    pub taxonomy_id: Seq<char>,
    pub category_id: Seq<char>,
}

impl View for NewBudgetGroupAssignment {
    type V = AssignmentRequest;

    open spec fn view(&self) -> AssignmentRequest {
        AssignmentRequest {
            id: opt_view(self.id),
            group_id: self.group_id@,
            taxonomy_id: self.taxonomy_id@,
            category_id: self.category_id@,
        }
    }
}

/// A target request by its characters.
pub struct TargetRequest {
    pub id: Option<Seq<char>>,
    pub period_key: Seq<char>,
    pub target_type: BudgetTargetType,
    pub taxonomy_id: Option<Seq<char>>,
    pub category_id: Option<Seq<char>>,
    pub group_id: Option<Seq<char>>,
    pub amount: Seq<char>,
}

impl View for NewBudgetTarget {
    type V = TargetRequest;

    open spec fn view(&self) -> TargetRequest {
        TargetRequest {
            id: opt_view(self.id),
            period_key: self.period_key@,
            target_type: self.target_type,
            taxonomy_id: opt_view(self.taxonomy_id),
            category_id: opt_view(self.category_id),
            group_id: opt_view(self.group_id),
            amount: self.amount@,
        }
    }
}

/// A rollover request by its characters.
pub struct RolloverRequest {
    pub id: Option<Seq<char>>,
    pub target_type: BudgetRolloverTargetType,
    pub taxonomy_id: Option<Seq<char>>,
    pub category_id: Option<Seq<char>>,
    pub group_id: Option<Seq<char>>,
    pub enabled: bool,
    pub start_month: Seq<char>,
    pub starting_balance: Seq<char>,
}

impl View for NewBudgetRolloverSetting {
    type V = RolloverRequest;

    open spec fn view(&self) -> RolloverRequest {
        RolloverRequest {
            id: opt_view(self.id),
            target_type: self.target_type,
            taxonomy_id: opt_view(self.taxonomy_id),
            category_id: opt_view(self.category_id),
            group_id: opt_view(self.group_id),
            enabled: self.enabled,
            start_month: self.start_month@,
            starting_balance: self.starting_balance@,
        }
    }
}

/// A target record read from a stored row.
pub open spec fn target_record_of(t: BudgetTarget, row: TargetRow) -> bool {
    &&& t.id@ == row.id
    &&& t.period_key@ == row.period_key
    &&& t.target_type == (if row.target_type == "group_buffer"@ {
        BudgetTargetType::GroupBuffer
    } else {
        BudgetTargetType::Category
    })
    &&& opt_view(t.taxonomy_id) == row.taxonomy_id
    &&& opt_view(t.category_id) == row.category_id
    &&& opt_view(t.group_id) == row.group_id
    &&& t.amount@ == row.amount
    &&& stamp_read(row.created_at, t.created_at)
    &&& stamp_read(row.updated_at, t.updated_at)
}

/// A rollover record read from a stored row.
pub open spec fn rollover_record_of(t: BudgetRolloverSetting, row: RolloverRow) -> bool {
    &&& t.id@ == row.id
    &&& t.target_type == (if row.target_type == "group"@ {
        BudgetRolloverTargetType::Group
    } else {
        BudgetRolloverTargetType::Category
    })
    &&& opt_view(t.taxonomy_id) == row.taxonomy_id
    &&& opt_view(t.category_id) == row.category_id
    &&& opt_view(t.group_id) == row.group_id
    &&& t.enabled == (row.enabled != 0)
    &&& t.start_month@ == row.start_month
    &&& t.starting_balance@ == row.starting_balance
    &&& stamp_read(row.created_at, t.created_at)
    &&& stamp_read(row.updated_at, t.updated_at)
}

/// A group record read from a stored row.
pub open spec fn group_record_of(g: BudgetGroup, row: GroupRow) -> bool {
    &&& g.id@ == row.id
    &&& g.name@ == row.name
    &&& g.key@ == row.key
    &&& opt_view(g.color) == row.color
    &&& opt_view(g.icon) == row.icon
    &&& g.sort_order == row.sort_order
    &&& g.is_system == (row.is_system != 0)
    &&& stamp_read(row.created_at, g.created_at)
    &&& stamp_read(row.updated_at, g.updated_at)
}

/// An assignment record read from a stored row.
pub open spec fn assignment_record_of(a: BudgetGroupAssignment, row: AssignmentRow) -> bool {
    &&& a.id@ == row.id
    &&& a.group_id@ == row.group_id
    &&& a.taxonomy_id@ == row.taxonomy_id
    &&& a.category_id@ == row.category_id
    &&& stamp_read(row.created_at, a.created_at)
    &&& stamp_read(row.updated_at, a.updated_at)
}

} // verus!
