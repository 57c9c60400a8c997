use storage_sqlite::decimal::{decimal_to_string, normalize, parse_decimal};
use storage_sqlite::model::{
    BudgetGroupDB, BudgetTargetType, NewBudgetGroupAssignment, NewBudgetRolloverSetting, NewBudgetTarget,
    BudgetRolloverTargetType,
};
use storage_sqlite::tables::BudgetTables;

const STAMP: &str = "2026-01-01T00:00:00+00:00";

fn group(id: &str, key: &str) -> BudgetGroupDB {
    BudgetGroupDB {
        id: id.to_string(),
        name: id.to_string(),
        key: key.to_string(),
        color: None,
        icon: None,
        sort_order: 0,
        is_system: 0,
        created_at: STAMP.to_string(),
        updated_at: STAMP.to_string(),
    }
}

fn buffer(group: &str, period: &str, amount: &str) -> NewBudgetTarget {
    NewBudgetTarget {
        id: None,
        period_key: period.to_string(),
        target_type: BudgetTargetType::GroupBuffer,
        taxonomy_id: None,
        category_id: None,
        group_id: Some(group.to_string()),
        amount: amount.to_string(),
    }
}

#[test]
fn operations_keep_identifiers_unique() {
    let mut t = BudgetTables {
        groups: vec![group("a", "a"), group("b", "other")],
        assignments: Vec::new(),
        targets: Vec::new(),
        rollovers: Vec::new(),
    };
    assert!(t.is_well_formed());
    t.upsert_target(buffer("a", "default", "1")).unwrap();
    t.upsert_target(buffer("a", "2026-01", "2")).unwrap();
    t.upsert_target(buffer("b", "2026-02", "3")).unwrap();
    t.upsert_group_assignments(vec![NewBudgetGroupAssignment {
        id: None,
        group_id: "a".to_string(),
        taxonomy_id: "t".to_string(),
        category_id: "c".to_string(),
    }])
    .unwrap();
    t.copy_period_targets("2026-01", "2026-03", false);
    assert!(t.is_well_formed());
    t.delete_group_and_reassign("a", "b").unwrap();
    assert!(t.is_well_formed());
    assert!(t.targets.iter().all(|r| r.group_id.as_deref() == Some("b")));
    assert!(t.assignments.iter().all(|r| r.group_id == "b"));
    assert!(t.groups.iter().all(|g| g.id != "a"));
    t.targets.push(t.targets[0].clone());
    assert!(!t.is_well_formed());
}

#[test]
fn setting_a_target_twice_changes_nothing_more() {
    let mut t = BudgetTables { groups: Vec::new(), assignments: Vec::new(), targets: Vec::new(), rollovers: Vec::new() };
    t.upsert_target_at(buffer("g", "2026-01", "7.25"), STAMP).unwrap();
    let once = t.snapshot();
    let again = t.upsert_target_at(buffer("g", "2026-01", "7.25"), STAMP).unwrap();
    assert_eq!(t.targets, once.targets);
    assert_eq!(again.amount, "7.25");
}

#[test]
fn setting_a_rollover_then_reading_it_back() {
    let mut t = BudgetTables { groups: Vec::new(), assignments: Vec::new(), targets: Vec::new(), rollovers: Vec::new() };
    let setting = NewBudgetRolloverSetting {
        id: None,
        target_type: BudgetRolloverTargetType::Group,
        taxonomy_id: None,
        category_id: None,
        group_id: Some("g".to_string()),
        enabled: true,
        start_month: "2026-04".to_string(),
        starting_balance: "-12.3456789".to_string(),
    };
    t.upsert_rollover_setting_at(setting.clone(), STAMP).unwrap();
    let mut changed = setting.clone();
    changed.enabled = false;
    changed.starting_balance = "3".to_string();
    t.upsert_rollover_setting_at(changed, "2026-05-01T00:00:00+00:00").unwrap();
    assert_eq!(t.rollovers.len(), 1);
    assert_eq!(t.rollovers[0].enabled, 0);
    assert_eq!(t.rollovers[0].starting_balance, "3");
    assert_eq!(t.rollovers[0].start_month, "2026-04");
    assert_eq!(t.rollovers[0].created_at, STAMP);
}

#[test]
fn normalizing_keeps_the_value() {
    for text in ["1.2300", "100", "0.000", "-45.10", "123.456789"] {
        let d = parse_decimal(text).unwrap();
        let n = normalize(d);
        assert!(n.1 <= d.1);
        assert_eq!(n.0 * 10i128.pow(d.1 - n.1), d.0);
        assert_eq!(normalize(n), n);
    }
}

#[test]
fn delete_group_without_new_buffers_succeeds() {
    let mut t = BudgetTables {
        groups: vec![group("a", "a"), group("b", "other")],
        assignments: Vec::new(),
        targets: Vec::new(),
        rollovers: Vec::new(),
    };
    t.upsert_target(buffer("b", "2026-01", "1")).unwrap();
    t.upsert_target(buffer("a", "2026-01", "2")).unwrap();
    let source_id = t.targets[1].id.clone();
    assert_eq!(t.delete_group_and_reassign("a", "b"), Ok(()));
    assert_eq!(t.targets.len(), 1);
    assert_eq!(t.targets[0].amount, "3");
    assert!(t.targets.iter().all(|r| r.id != source_id));
}

#[test]
fn new_records_carry_equal_time_stamps() {
    let mut t = BudgetTables { groups: Vec::new(), assignments: Vec::new(), targets: Vec::new(), rollovers: Vec::new() };
    let target = t.upsert_target(buffer("g", "2026-01", "1")).unwrap();
    assert_eq!(target.created_at, target.updated_at);
    let again = t.upsert_target(buffer("g", "2026-01", "2")).unwrap();
    assert_eq!(again.created_at, target.created_at);
    assert_eq!(again.id, target.id);
}

#[test]
fn copying_twice_and_disabling_twice_change_nothing_more() {
    let mut t = BudgetTables { groups: Vec::new(), assignments: Vec::new(), targets: Vec::new(), rollovers: Vec::new() };
    t.upsert_target_at(buffer("g", "2026-01", "1"), STAMP).unwrap();
    t.copy_period_targets_at("2026-01", "2026-02", false, STAMP);
    let once = t.snapshot();
    t.copy_period_targets_at("2026-01", "2026-02", false, STAMP);
    assert_eq!(t.targets, once.targets);
    t.upsert_rollover_setting_at(
        NewBudgetRolloverSetting {
            id: None,
            target_type: BudgetRolloverTargetType::Category,
            taxonomy_id: Some("tx".to_string()),
            category_id: Some("c".to_string()),
            group_id: None,
            enabled: true,
            start_month: "2026-01".to_string(),
            starting_balance: "0".to_string(),
        },
        STAMP,
    )
    .unwrap();
    t.disable_category_rollovers_at("tx", &["c".to_string()], STAMP);
    let disabled = t.snapshot();
    t.disable_category_rollovers_at("tx", &["c".to_string()], STAMP);
    assert_eq!(t.rollovers, disabled.rollovers);
}

#[test]
fn inserting_then_deleting_a_target_restores_the_table() {
    let mut t = BudgetTables { groups: Vec::new(), assignments: Vec::new(), targets: Vec::new(), rollovers: Vec::new() };
    t.upsert_target_at(buffer("g", "2026-01", "1"), STAMP).unwrap();
    let before = t.snapshot();
    let row = t.upsert_target_at(buffer("g", "2026-02", "5"), STAMP).unwrap();
    t.delete_target(&row.id);
    assert_eq!(t.targets, before.targets);
}

const LATER: &str = "2026-03-04T05:06:07+00:00";

fn is_uuid_text(s: &str, version: char) -> bool {
    let c: Vec<char> = s.chars().collect();
    c.len() == 36
        && c.iter().enumerate().all(|(i, ch)| {
            if i == 8 || i == 13 || i == 18 || i == 23 {
                *ch == '-'
            } else {
                ch.is_ascii_digit() || ('a'..='f').contains(ch)
            }
        })
        && c[14] == version
        && "89ab".contains(c[19])
}

#[test]
fn setting_a_target_again_later_keeps_its_row() {
    let mut t = BudgetTables { groups: Vec::new(), assignments: Vec::new(), targets: Vec::new(), rollovers: Vec::new() };
    let first = t.upsert_target_at(buffer("g", "2026-01", "7.25"), STAMP).unwrap();
    let again = t.upsert_target_at(buffer("g", "2026-01", "7.25"), LATER).unwrap();
    assert_eq!(t.targets.len(), 1);
    assert_eq!(again.id, first.id);
    assert_eq!(again.amount, first.amount);
    assert_eq!(again.created_at, STAMP);
    assert_eq!(again.updated_at, LATER);
}

#[test]
fn setting_a_rollover_again_later_keeps_its_row() {
    let mut t = BudgetTables { groups: Vec::new(), assignments: Vec::new(), targets: Vec::new(), rollovers: Vec::new() };
    let setting = NewBudgetRolloverSetting {
        id: None,
        target_type: BudgetRolloverTargetType::Category,
        taxonomy_id: Some("tx".to_string()),
        category_id: Some("c".to_string()),
        group_id: None,
        enabled: true,
        start_month: "2026-01".to_string(),
        starting_balance: "4".to_string(),
    };
    let first = t.upsert_rollover_setting_at(setting.clone(), STAMP).unwrap();
    let again = t.upsert_rollover_setting_at(setting, LATER).unwrap();
    assert_eq!(t.rollovers.len(), 1);
    assert_eq!(again.id, first.id);
    assert_eq!(again.created_at, STAMP);
    assert_eq!(again.updated_at, LATER);
}

#[test]
fn copying_and_disabling_again_later_change_only_stamps() {
    let mut t = BudgetTables { groups: Vec::new(), assignments: Vec::new(), targets: Vec::new(), rollovers: Vec::new() };
    t.upsert_target_at(buffer("g", "2026-01", "1"), STAMP).unwrap();
    let first = t.copy_period_targets_at("2026-01", "2026-02", false, STAMP);
    let once = t.snapshot();
    let second = t.copy_period_targets_at("2026-01", "2026-02", false, LATER);
    assert_eq!(t.targets, once.targets);
    assert_eq!(first, second);
    t.upsert_rollover_setting_at(
        NewBudgetRolloverSetting {
            id: None,
            target_type: BudgetRolloverTargetType::Category,
            taxonomy_id: Some("tx".to_string()),
            category_id: Some("c".to_string()),
            group_id: None,
            enabled: true,
            start_month: "2026-01".to_string(),
            starting_balance: "0".to_string(),
        },
        STAMP,
    )
    .unwrap();
    let v1 = t.disable_category_rollovers_at("tx", &["c".to_string()], STAMP);
    let v2 = t.disable_category_rollovers_at("tx", &["c".to_string()], LATER);
    assert_eq!(v1.len(), 1);
    assert_eq!(v2.len(), 1);
    assert_eq!(v2[0].id, v1[0].id);
    assert_eq!(v2[0].enabled, 0);
    assert_eq!(v2[0].created_at, v1[0].created_at);
    assert_eq!(v2[0].updated_at, LATER);
}

#[test]
fn a_batch_adds_one_assignment_per_new_category() {
    let mut t = BudgetTables { groups: Vec::new(), assignments: Vec::new(), targets: Vec::new(), rollovers: Vec::new() };
    let place = |g: &str, c: &str| NewBudgetGroupAssignment {
        id: None,
        group_id: g.to_string(),
        taxonomy_id: "tx".to_string(),
        category_id: c.to_string(),
    };
    t.upsert_group_assignments_with_system_flag_at(vec![place("a", "c1")], 0, STAMP).unwrap();
    let out = t
        .upsert_group_assignments_with_system_flag_at(vec![place("b", "c1"), place("a", "c2"), place("b", "c2"), place("a", "c3")], 0, LATER)
        .unwrap();
    assert_eq!(out.len(), 4);
    assert_eq!(t.assignments.len(), 3);
    assert!(t.is_well_formed());
}

#[test]
fn a_deleted_group_leaves_one_buffer_per_month() {
    let mut t = BudgetTables {
        groups: vec![group("a", "a"), group("b", "other")],
        assignments: Vec::new(),
        targets: Vec::new(),
        rollovers: Vec::new(),
    };
    t.upsert_target_at(buffer("a", "default", "1"), STAMP).unwrap();
    t.upsert_target_at(buffer("a", "2026-01", "2"), STAMP).unwrap();
    t.upsert_target_at(buffer("b", "2026-01", "3"), STAMP).unwrap();
    t.upsert_target_at(buffer("a", "2026-02", "4"), STAMP).unwrap();
    t.delete_group_and_reassign("a", "b").unwrap();
    let mut periods: Vec<&str> = t.targets.iter().map(|r| r.period_key.as_str()).collect();
    periods.sort();
    assert_eq!(periods, vec!["2026-01", "2026-02", "default"]);
    assert!(t.targets.iter().all(|r| r.group_id.as_deref() == Some("b")));
    for r in &t.targets {
        if r.period_key != "2026-01" {
            assert!(is_uuid_text(&r.id, '4'));
        } else {
            assert!(is_uuid_text(&r.id, '5'));
        }
    }
}

#[test]
fn drawn_and_derived_identifiers_have_uuid_shapes() {
    let mut t = BudgetTables { groups: Vec::new(), assignments: Vec::new(), targets: Vec::new(), rollovers: Vec::new() };
    let g = t
        .create_group(storage_sqlite::model::NewBudgetGroup {
            id: None,
            name: "Fun".to_string(),
            key: None,
            color: None,
            icon: None,
            sort_order: None,
            is_system: false,
        })
        .unwrap();
    assert!(is_uuid_text(&g.id, '4'));
    assert!(is_uuid_text(&g.key, '4'));
    assert_ne!(g.id, g.key);
    let target = t.upsert_target_at(buffer("g", "2026-01", "1"), STAMP).unwrap();
    assert!(is_uuid_text(&target.id, '5'));
}

#[test]
fn period_target_ids_lists_the_rows_of_a_month() {
    let mut t = BudgetTables { groups: Vec::new(), assignments: Vec::new(), targets: Vec::new(), rollovers: Vec::new() };
    let a = t.upsert_target_at(buffer("g", "2026-01", "1"), STAMP).unwrap();
    t.upsert_target_at(buffer("g", "2026-02", "1"), STAMP).unwrap();
    let b = t.upsert_target_at(buffer("h", "2026-01", "1"), STAMP).unwrap();
    assert_eq!(t.period_target_ids("2026-01"), vec![a.id, b.id]);
    assert!(t.period_target_ids("2026-09").is_empty());
}

#[test]
fn decimals_are_written_as_display_writes_them() {
    assert_eq!(decimal_to_string((-5, 3)), "-0.005");
    assert_eq!(decimal_to_string((1200, 2)), "12.00");
    assert_eq!(decimal_to_string((0, 0)), "0");
    assert_eq!(decimal_to_string((0, 2)), "0.00");
    assert_eq!(decimal_to_string((1123456789012345678, 18)), "1.123456789012345678");
    assert_eq!(decimal_to_string((-120, 0)), "-120");
}

#[test]
fn setting_targets_keeps_one_row_per_natural_key() {
    let mut t = BudgetTables { groups: Vec::new(), assignments: Vec::new(), targets: Vec::new(), rollovers: Vec::new() };
    t.upsert_target_at(buffer("g", "2026-01", "1"), STAMP).unwrap();
    t.upsert_target_at(buffer("g", "2026-01", "2"), LATER).unwrap();
    t.upsert_target_at(buffer("h", "2026-01", "3"), LATER).unwrap();
    assert_eq!(t.targets.len(), 2);
    assert_eq!(t.targets[0].amount, "2");
}
