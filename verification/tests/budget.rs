use rust_decimal::Decimal;
use storage_sqlite::model::{
    BudgetGroupDB, BudgetGroupAssignment, BudgetRolloverSettingDB, BudgetTargetDB, BudgetTargetType,
    NewBudgetGroupAssignment, NewBudgetTarget,
};
use storage_sqlite::tables::{BudgetError, BudgetTables};

const SOURCE: &str = "032ecb02-5912-42e8-9724-2cd566fc08d5";
const DESTINATION: &str = "6e25d097-0c73-4521-9407-d47e8dfb73e2";
const UNRELATED: &str = "a409e0d6-9152-49c8-a5b4-a147a8ac636e";
const STAMP: &str = "2026-01-01T00:00:00+00:00";

fn group(id: &str, name: &str, key: &str, sort_order: i32) -> BudgetGroupDB {
    BudgetGroupDB {
        id: id.to_string(),
        name: name.to_string(),
        key: key.to_string(),
        color: None,
        icon: None,
        sort_order,
        is_system: 1,
        created_at: STAMP.to_string(),
        updated_at: STAMP.to_string(),
    }
}

fn fixture() -> BudgetTables {
    BudgetTables {
        groups: vec![
            group(SOURCE, "Essentials", "essentials", 1),
            group(DESTINATION, "Other", "other", 3),
            group(UNRELATED, "Lifestyle", "lifestyle", 2),
        ],
        assignments: Vec::new(),
        targets: Vec::new(),
        rollovers: Vec::new(),
    }
}

fn buffer(repo: &mut BudgetTables, group: &str, period: &str, amount: &str) {
    repo.upsert_target(NewBudgetTarget {
        id: None,
        period_key: period.to_string(),
        target_type: BudgetTargetType::GroupBuffer,
        taxonomy_id: None,
        category_id: None,
        group_id: Some(group.to_string()),
        amount: amount.to_string(),
    })
    .unwrap();
}

#[derive(Debug, PartialEq)]
struct State {
    groups: Vec<storage_sqlite::model::BudgetGroup>,
    assignments: Vec<BudgetGroupAssignment>,
    targets: Vec<storage_sqlite::model::BudgetTarget>,
    rollovers: Vec<storage_sqlite::model::BudgetRolloverSetting>,
}

fn state(repo: &BudgetTables) -> State {
    State {
        groups: repo.list_groups(),
        assignments: repo.list_group_assignments(),
        targets: repo.list_targets(),
        rollovers: repo.list_rollover_settings(),
    }
}

#[test]
fn delete_group_merges_defaults_and_monthly_overrides() {
    for (source_default, destination_default) in [(true, true), (true, false), (false, true), (false, false)] {
        let mut repo = fixture();
        if source_default {
            buffer(&mut repo, SOURCE, "default", "0.1");
        }
        if destination_default {
            buffer(&mut repo, DESTINATION, "default", "0.2");
        }
        buffer(&mut repo, SOURCE, "2026-01", "0");
        buffer(&mut repo, SOURCE, "2026-02", "1.123456789012345678");
        buffer(&mut repo, DESTINATION, "2026-02", "2.987654321098765432");
        buffer(&mut repo, DESTINATION, "2026-03", "0");
        let before = repo.list_targets();
        repo.delete_group_and_reassign(SOURCE, DESTINATION).unwrap();
        let targets = repo.list_targets();
        let source = Decimal::new(i64::from(source_default), 1);
        let destination = Decimal::new(2 * i64::from(destination_default), 1);
        for (period, expected) in [
            ("default", source + destination),
            ("2026-01", destination),
            ("2026-02", "4.11111111011111111".parse().unwrap()),
            ("2026-03", source),
            ("2026-04", source + destination),
        ] {
            let actual = targets
                .iter()
                .find(|t| t.period_key == period)
                .or_else(|| targets.iter().find(|t| t.period_key == "default"))
                .map(|t| t.amount.parse::<Decimal>().unwrap())
                .unwrap_or(Decimal::ZERO);
            assert_eq!(actual, expected, "{period}");
        }
        for target in targets {
            assert_eq!(target.group_id.as_deref(), Some(DESTINATION));
            assert!(!before
                .iter()
                .any(|row| { row.group_id.as_deref() == Some(SOURCE) && row.id == target.id }));
            if let Some(existing) = before
                .iter()
                .find(|row| row.group_id.as_deref() == Some(DESTINATION) && row.period_key == target.period_key)
            {
                assert_eq!(target.id, existing.id);
            }
        }
        let groups = repo.list_groups();
        assert!(!groups.iter().any(|g| g.id == SOURCE));
    }
}

#[test]
fn delete_group_does_not_reuse_deleted_destination_buffer_id() {
    let mut repo = fixture();
    buffer(&mut repo, DESTINATION, "default", "42");
    let deleted_id = repo.list_targets().remove(0).id;
    repo.delete_target(&deleted_id);
    buffer(&mut repo, SOURCE, "default", "1.123456789012345678");
    let source_id = repo.list_targets().remove(0).id;

    repo.delete_group_and_reassign(SOURCE, DESTINATION).unwrap();

    let targets = repo.list_targets();
    assert_eq!(targets.len(), 1);
    let target = &targets[0];
    assert_eq!(target.group_id.as_deref(), Some(DESTINATION));
    assert_eq!(target.period_key, "default");
    assert_ne!(target.id, deleted_id);
    assert_ne!(target.id, source_id);
    assert_eq!(target.amount, "1.123456789012345678");
}

#[test]
fn delete_group_reads_current_assignments_and_preserves_category_state() {
    let mut repo = fixture();
    for (category, group) in [("cat_housing", UNRELATED), ("cat_food", SOURCE)] {
        repo.upsert_group_assignment(NewBudgetGroupAssignment {
            id: None,
            group_id: group.to_string(),
            taxonomy_id: "spending_categories".to_string(),
            category_id: category.to_string(),
        })
        .unwrap();
    }
    repo.targets.push(BudgetTargetDB {
        id: "category-target".to_string(),
        period_key: "default".to_string(),
        target_type: "category".to_string(),
        taxonomy_id: Some("spending_categories".to_string()),
        category_id: Some("cat_food".to_string()),
        group_id: None,
        amount: "123.456789".to_string(),
        created_at: STAMP.to_string(),
        updated_at: STAMP.to_string(),
    });
    repo.rollovers.push(BudgetRolloverSettingDB {
        id: "category-rollover".to_string(),
        target_type: "category".to_string(),
        taxonomy_id: Some("spending_categories".to_string()),
        category_id: Some("cat_food".to_string()),
        group_id: None,
        enabled: 1,
        start_month: "2026-01".to_string(),
        starting_balance: "12.34".to_string(),
        created_at: STAMP.to_string(),
        updated_at: STAMP.to_string(),
    });
    buffer(&mut repo, UNRELATED, "default", "56.78");
    let before = state(&repo);
    let mut assignments = repo.list_group_assignments();
    repo.delete_group_and_reassign(SOURCE, DESTINATION).unwrap();
    let after = state(&repo);
    assert_eq!(before.targets, after.targets);
    assert_eq!(before.rollovers, after.rollovers);
    let updated = repo.list_group_assignments();
    assert_eq!(assignments.len(), updated.len());
    for assignment in &mut assignments {
        let row = updated.iter().find(|row| row.id == assignment.id).unwrap();
        if assignment.group_id == SOURCE {
            assignment.group_id = DESTINATION.to_string();
            assignment.updated_at = row.updated_at;
        }
        assert_eq!(row, assignment);
    }
}

#[test]
fn delete_group_guards_leave_state_unchanged() {
    let mut repo = fixture();
    repo.rollovers.push(BudgetRolloverSettingDB {
        id: "rollover".to_string(),
        target_type: "group".to_string(),
        taxonomy_id: None,
        category_id: None,
        group_id: Some(SOURCE.to_string()),
        enabled: 0,
        start_month: "2026-01".to_string(),
        starting_balance: "0".to_string(),
        created_at: STAMP.to_string(),
        updated_at: STAMP.to_string(),
    });
    let before = state(&repo);
    let rows_before = repo.snapshot();
    for (source, destination, message) in [
        (DESTINATION, SOURCE, "The \"Other\" budget group cannot be deleted"),
        (SOURCE, SOURCE, "Cannot reassign categories to the group being deleted"),
        (SOURCE, "missing", "Reassignment budget group not found"),
        ("missing", DESTINATION, "Budget group not found"),
        (SOURCE, DESTINATION, "Delete the group's rollover setting"),
    ] {
        let error = repo.delete_group_and_reassign(source, destination).unwrap_err();
        assert!(error.message().contains(message), "{error:?}");
        assert_eq!(state(&repo), before);
        let changes = storage_sqlite::changes::diff_tables(&rows_before, &repo);
        assert_eq!(changes.groups.upserts.len() + changes.groups.deletes.len(), 0);
        assert_eq!(changes.targets.upserts.len() + changes.targets.deletes.len(), 0);
        assert_eq!(changes.assignments.upserts.len() + changes.assignments.deletes.len(), 0);
        assert_eq!(changes.rollovers.upserts.len() + changes.rollovers.deletes.len(), 0);
    }
    repo.delete_rollover_setting("rollover");
    repo.delete_group_and_reassign(SOURCE, DESTINATION).unwrap();
}

#[test]
fn delete_group_errors_name_each_guard() {
    let mut repo = fixture();
    assert_eq!(repo.delete_group_and_reassign("missing", DESTINATION), Err(BudgetError::GroupNotFound));
    assert_eq!(repo.delete_group_and_reassign(DESTINATION, SOURCE), Err(BudgetError::OtherGroupUndeletable));
    assert_eq!(repo.delete_group_and_reassign(SOURCE, SOURCE), Err(BudgetError::ReassignToSameGroup));
    assert_eq!(repo.delete_group_and_reassign(SOURCE, "missing"), Err(BudgetError::ReassignmentGroupNotFound));
    assert_eq!(repo.groups.len(), 3);
}

#[test]
fn delete_group_overflowing_buffers_is_refused() {
    let mut repo = fixture();
    buffer(&mut repo, SOURCE, "default", "79228162514264337593543950335");
    buffer(&mut repo, DESTINATION, "default", "1");
    let before = repo.snapshot();
    assert_eq!(repo.delete_group_and_reassign(SOURCE, DESTINATION), Err(BudgetError::AmountOverflow));
    assert_eq!(repo.targets, before.targets);
    assert_eq!(repo.groups, before.groups);
}

#[test]
fn delete_group_moves_assignments_and_drops_system_flag() {
    let mut repo = fixture();
    repo.upsert_group_assignments_with_system_flag(
        vec![NewBudgetGroupAssignment {
            id: Some("a1".to_string()),
            group_id: SOURCE.to_string(),
            taxonomy_id: "spending_categories".to_string(),
            category_id: "cat_food".to_string(),
        }],
        1,
    )
    .unwrap();
    assert_eq!(repo.assignments[0].is_system, 1);
    repo.delete_group_and_reassign(SOURCE, DESTINATION).unwrap();
    assert_eq!(repo.assignments[0].group_id, DESTINATION);
    assert_eq!(repo.assignments[0].is_system, 0);
    assert_eq!(repo.groups.len(), 2);
}

#[test]
fn delete_group_at_merges_with_given_ids() {
    let mut repo = fixture();
    buffer(&mut repo, SOURCE, "2026-05", "1.50");
    buffer(&mut repo, DESTINATION, "default", "2.50");
    let ids = vec!["new-buffer".to_string()];
    repo.delete_group_and_reassign_at(SOURCE, DESTINATION, "2026-06-01T00:00:00+00:00", &ids).unwrap();
    assert_eq!(repo.targets.len(), 2);
    assert_eq!(repo.targets[0].group_id.as_deref(), Some(DESTINATION));
    assert_eq!(repo.targets[0].period_key, "default");
    assert_eq!(repo.targets[0].amount, "2.5");
    assert_eq!(repo.targets[1].id, "new-buffer");
    assert_eq!(repo.targets[1].period_key, "2026-05");
    assert_eq!(repo.targets[1].amount, "4");
    assert_eq!(repo.targets[1].created_at, "2026-06-01T00:00:00+00:00");
    assert_eq!(repo.targets[1].target_type, "group_buffer");
}
