use storage_sqlite::clock::{parse_dt, UtcTime};
use storage_sqlite::decimal::{add_decimals, decimal_to_string, normalize, parse_decimal};
use storage_sqlite::ids::{budget_group_assignment_id, budget_rollover_setting_id, budget_target_id};
use storage_sqlite::model::{
    rollover_target_type_from_str, target_type_from_str, BudgetGroupDB, BudgetGroupAssignmentDB,
    BudgetRolloverTargetType, BudgetTargetType, NewBudgetGroup, NewBudgetGroupAssignment, NewBudgetRolloverSetting,
    NewBudgetTarget, SyncOperation, UpdateBudgetGroup,
};
use storage_sqlite::tables::{BudgetError, BudgetTables};

const STAMP: &str = "2026-01-01T00:00:00+00:00";

fn empty() -> BudgetTables {
    BudgetTables { groups: Vec::new(), assignments: Vec::new(), targets: Vec::new(), rollovers: Vec::new() }
}

fn new_group(id: &str, name: &str, sort_order: Option<i32>) -> NewBudgetGroup {
    NewBudgetGroup {
        id: Some(id.to_string()),
        name: name.to_string(),
        key: None,
        color: None,
        icon: None,
        sort_order,
        is_system: false,
    }
}

fn category_target(period: &str, category: Option<&str>, amount: &str) -> NewBudgetTarget {
    NewBudgetTarget {
        id: None,
        period_key: period.to_string(),
        target_type: BudgetTargetType::Category,
        taxonomy_id: Some("spending_categories".to_string()),
        category_id: category.map(|c| c.to_string()),
        group_id: None,
        amount: amount.to_string(),
    }
}

#[test]
fn decimal_parts_round_trip_through_normalize() {
    assert_eq!(parse_decimal("3.100"), Some((3100, 3)));
    assert_eq!(normalize((3100, 3)), (31, 1));
    assert_eq!(normalize((0, 5)), (0, 0));
    assert_eq!(normalize((-2000, 2)), (-20, 0));
    assert_eq!(normalize((-2000, 4)), (-2, 1));
    assert_eq!(decimal_to_string(normalize((3100, 3))), "3.1");
    assert_eq!(parse_decimal("abc"), None);
    let sum = add_decimals((11, 1), (2, 2)).unwrap();
    assert_eq!(decimal_to_string(normalize(sum)), "1.12");
    assert_eq!(add_decimals((79228162514264337593543950335, 0), (1, 0)), None);
}

#[test]
fn target_kinds_read_from_text() {
    assert_eq!(target_type_from_str("group_buffer"), BudgetTargetType::GroupBuffer);
    assert_eq!(target_type_from_str("category"), BudgetTargetType::Category);
    assert_eq!(target_type_from_str("anything"), BudgetTargetType::Category);
    assert_eq!(rollover_target_type_from_str("group"), BudgetRolloverTargetType::Group);
    assert_eq!(rollover_target_type_from_str("category"), BudgetRolloverTargetType::Category);
    assert_eq!(BudgetTargetType::GroupBuffer.as_str(), "group_buffer");
    assert_eq!(BudgetRolloverTargetType::Group.as_str(), "group");
}

#[test]
fn stamps_parse_as_rfc3339() {
    assert_eq!(parse_dt("1970-01-01T00:00:10+00:00"), UtcTime { secs: 10, nanos: 0 });
    assert_eq!(parse_dt("1970-01-01T01:00:00+01:00"), UtcTime { secs: 0, nanos: 0 });
    let now = parse_dt("not a date");
    assert!(now.secs > 1_600_000_000);
}

#[test]
fn deterministic_ids_depend_on_every_part() {
    let a = budget_target_id("2026-01", "category", &Some("t".to_string()), &Some("c".to_string()), &None);
    let b = budget_target_id("2026-01", "category", &Some("t".to_string()), &Some("c".to_string()), &None);
    let c = budget_target_id("2026-02", "category", &Some("t".to_string()), &Some("c".to_string()), &None);
    assert_eq!(a, b);
    assert_ne!(a, c);
    assert_eq!(a.len(), 36);
    assert_eq!(budget_group_assignment_id("t", "c"), budget_group_assignment_id("t", "c"));
    assert_ne!(budget_group_assignment_id("t", "c"), budget_group_assignment_id("t", "d"));
    assert_ne!(
        budget_rollover_setting_id("group", &None, &None, &Some("g".to_string())),
        budget_rollover_setting_id("group", &None, &None, &Some("h".to_string()))
    );
}

#[test]
fn outbox_skips_untouched_system_rows() {
    let mut g = BudgetGroupDB {
        id: "g".to_string(),
        name: "n".to_string(),
        key: "k".to_string(),
        color: None,
        icon: None,
        sort_order: 0,
        is_system: 1,
        created_at: STAMP.to_string(),
        updated_at: STAMP.to_string(),
    };
    assert!(!g.should_sync_outbox(SyncOperation::Create));
    g.updated_at = "2026-02-01T00:00:00+00:00".to_string();
    assert!(g.should_sync_outbox(SyncOperation::Update));
    g.is_system = 0;
    g.updated_at = STAMP.to_string();
    assert!(g.should_sync_outbox(SyncOperation::Update));
    assert_eq!(g.sync_entity_id(), "g");
    let a = BudgetGroupAssignmentDB {
        id: "a".to_string(),
        group_id: "g".to_string(),
        taxonomy_id: "t".to_string(),
        category_id: "c".to_string(),
        is_system: 1,
        created_at: STAMP.to_string(),
        updated_at: STAMP.to_string(),
    };
    assert!(!a.should_sync_outbox(SyncOperation::Delete));
}

#[test]
fn groups_list_by_sort_order_then_name() {
    let mut t = empty();
    t.create_group(new_group("g1", "Zeta", Some(2))).unwrap();
    t.create_group(new_group("g2", "alpha", Some(2))).unwrap();
    t.create_group(new_group("g3", "Beta", Some(2))).unwrap();
    t.create_group(new_group("g4", "Last", None)).unwrap();
    t.create_group(new_group("g5", "First", Some(-1))).unwrap();
    let names: Vec<String> = t.list_groups().into_iter().map(|g| g.name).collect();
    assert_eq!(names, vec!["First", "Last", "Beta", "Zeta", "alpha"]);
}

#[test]
fn create_group_fills_defaults_and_refuses_taken_ids() {
    let mut t = empty();
    let g = t
        .create_group(NewBudgetGroup {
            id: None,
            name: "Fun".to_string(),
            key: None,
            color: Some("#fff".to_string()),
            icon: None,
            sort_order: None,
            is_system: true,
        })
        .unwrap();
    assert_eq!(g.sort_order, 0);
    assert!(g.is_system);
    assert_eq!(g.id.len(), 36);
    assert_eq!(g.key.len(), 36);
    assert_ne!(g.id, g.key);
    assert_eq!(t.groups[0].is_system, 1);
    assert_eq!(t.groups[0].created_at, t.groups[0].updated_at);
    let again = t.create_group(new_group(&g.id, "Again", None));
    assert_eq!(again, Err(BudgetError::DuplicateId));
    assert_eq!(t.groups.len(), 1);
}

#[test]
fn update_group_changes_given_fields_only() {
    let mut t = empty();
    t.create_group_at(new_group("g", "Old", Some(4)), STAMP, "", "key").unwrap();
    let row = t
        .update_group_at(
            "g",
            UpdateBudgetGroup { name: Some("New".to_string()), color: Some(Some("red".to_string())), icon: None, sort_order: None },
            "2026-03-01T00:00:00+00:00",
        )
        .unwrap();
    assert_eq!(row.name, "New");
    assert_eq!(row.color.as_deref(), Some("red"));
    assert_eq!(row.sort_order, 4);
    assert_eq!(row.key, "key");
    assert_eq!(row.created_at, STAMP);
    assert_eq!(row.updated_at, "2026-03-01T00:00:00+00:00");
    let cleared = t
        .update_group_at("g", UpdateBudgetGroup { name: None, color: Some(None), icon: None, sort_order: Some(1) }, STAMP)
        .unwrap();
    assert_eq!(cleared.color, None);
    assert_eq!(cleared.sort_order, 1);
    assert_eq!(cleared.name, "New");
    let missing = t.update_group("nope", UpdateBudgetGroup { name: None, color: None, icon: None, sort_order: None });
    assert_eq!(missing, Err(BudgetError::RecordNotFound));
}

#[test]
fn upsert_target_updates_the_matching_row() {
    let mut t = empty();
    let first = t.upsert_target_at(category_target("2026-01", Some("food"), "10"), STAMP).unwrap();
    let second = t.upsert_target_at(category_target("2026-01", Some("food"), "12.5"), "2026-02-01T00:00:00+00:00").unwrap();
    assert_eq!(t.targets.len(), 1);
    assert_eq!(second.id, first.id);
    assert_eq!(t.targets[0].amount, "12.5");
    assert_eq!(t.targets[0].created_at, STAMP);
    assert_eq!(t.targets[0].updated_at, "2026-02-01T00:00:00+00:00");
    t.upsert_target_at(category_target("2026-02", Some("food"), "3"), STAMP).unwrap();
    assert_eq!(t.targets.len(), 2);
    t.delete_target(&first.id);
    assert_eq!(t.targets.len(), 1);
    assert_eq!(t.targets[0].period_key, "2026-02");
}

#[test]
fn upsert_target_without_category_never_matches() {
    let mut t = empty();
    t.upsert_target_at(category_target("2026-01", None, "10"), STAMP).unwrap();
    let again = t.upsert_target_at(category_target("2026-01", None, "11"), STAMP);
    assert_eq!(again, Err(BudgetError::DuplicateId));
    assert_eq!(t.targets.len(), 1);
    assert_eq!(t.targets[0].amount, "10");
}

#[test]
fn copy_period_targets_skips_taken_ids_unless_overwriting() {
    let mut t = empty();
    t.upsert_target_at(category_target("2026-01", Some("food"), "10"), STAMP).unwrap();
    t.upsert_target_at(category_target("2026-01", Some("rent"), "900"), STAMP).unwrap();
    t.upsert_target_at(category_target("2026-02", Some("food"), "20"), STAMP).unwrap();
    let copied = t.copy_period_targets_at("2026-01", "2026-02", false, "2026-02-15T00:00:00+00:00");
    assert_eq!(copied.len(), 2);
    let food = copied.iter().find(|r| r.category_id.as_deref() == Some("food")).unwrap();
    assert_eq!(food.amount, "20");
    let rent = copied.iter().find(|r| r.category_id.as_deref() == Some("rent")).unwrap();
    assert_eq!(rent.amount, "900");
    assert_eq!(rent.created_at, "2026-02-15T00:00:00+00:00");
    let overwritten = t.copy_period_targets("2026-01", "2026-02", true);
    assert_eq!(overwritten.len(), 2);
    let food = overwritten.iter().find(|r| r.category_id.as_deref() == Some("food")).unwrap();
    assert_eq!(food.amount, "10");
    assert_eq!(t.targets.len(), 4);
}

#[test]
fn rollover_settings_upsert_and_disable() {
    let mut t = empty();
    let setting = |category: &str, enabled: bool| NewBudgetRolloverSetting {
        id: None,
        target_type: BudgetRolloverTargetType::Category,
        taxonomy_id: Some("spending_categories".to_string()),
        category_id: Some(category.to_string()),
        group_id: None,
        enabled,
        start_month: "2026-01".to_string(),
        starting_balance: "5".to_string(),
    };
    t.upsert_rollover_setting_at(setting("food", true), STAMP).unwrap();
    t.upsert_rollover_setting_at(setting("rent", true), STAMP).unwrap();
    let again = t.upsert_rollover_setting(setting("food", false)).unwrap();
    assert!(!again.enabled);
    assert_eq!(t.rollovers.len(), 2);
    t.upsert_rollover_setting_at(setting("food", true), STAMP).unwrap();
    let off = t.disable_category_rollovers_at("spending_categories", &["food".to_string()], "2026-05-01T00:00:00+00:00");
    assert_eq!(off.len(), 1);
    assert_eq!(off[0].enabled, 0);
    assert_eq!(off[0].updated_at, "2026-05-01T00:00:00+00:00");
    assert_eq!(t.rollovers.iter().filter(|r| r.enabled == 1).count(), 1);
    assert!(t.disable_category_rollovers("spending_categories", &[]).is_empty());
    assert!(t.disable_category_rollovers("other_taxonomy", &["rent".to_string()]).is_empty());
    let id = t.rollovers[0].id.clone();
    t.delete_rollover_setting(&id);
    assert_eq!(t.rollovers.len(), 1);
}

#[test]
fn assignments_upsert_in_order_and_keep_unchanged_rows() {
    let mut t = empty();
    let req = |group: &str, category: &str| NewBudgetGroupAssignment {
        id: None,
        group_id: group.to_string(),
        taxonomy_id: "spending_categories".to_string(),
        category_id: category.to_string(),
    };
    let out = t.upsert_group_assignments_with_system_flag_at(vec![req("g1", "food"), req("g2", "food")], 0, STAMP).unwrap();
    assert_eq!(out.len(), 2);
    assert_eq!(out[0].id, out[1].id);
    assert_eq!(out[1].group_id, "g2");
    assert_eq!(t.assignments.len(), 1);
    let same = t.upsert_group_assignments_with_system_flag_at(vec![req("g2", "food")], 0, "2027-01-01T00:00:00+00:00").unwrap();
    assert_eq!(same[0].updated_at, STAMP);
    let one = t.upsert_group_assignment(req("g3", "rent")).unwrap();
    assert_eq!(one.group_id, "g3");
    assert_eq!(t.assignments.len(), 2);
    let mut taken = req("g1", "travel");
    taken.id = Some(t.assignments[0].id.clone());
    let before = t.snapshot();
    assert_eq!(t.upsert_group_assignments(vec![req("g1", "bills"), taken]), Err(BudgetError::DuplicateId));
    assert_eq!(t.assignments, before.assignments);
}

#[test]
fn diff_lists_written_and_deleted_rows() {
    let mut t = empty();
    t.upsert_target_at(category_target("2026-01", Some("food"), "10"), STAMP).unwrap();
    t.upsert_target_at(category_target("2026-01", Some("rent"), "5"), STAMP).unwrap();
    let before = t.snapshot();
    let food = t.targets[0].id.clone();
    t.delete_target(&food);
    t.upsert_target_at(category_target("2026-01", Some("rent"), "6"), STAMP).unwrap();
    let changes = storage_sqlite::changes::diff_tables(&before, &t);
    assert_eq!(changes.targets.deletes, vec![food]);
    assert_eq!(changes.targets.upserts.len(), 1);
    assert_eq!(changes.targets.upserts[0].amount, "6");
    assert!(changes.groups.upserts.is_empty());
}
