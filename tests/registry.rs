use std::collections::HashSet;

use scp_containment_unit::registry::{
    roles_to_strip, ContainError, ContainPlan, Registry, ReleaseError, RoleInfo, StoreError,
};
use scp_containment_unit::store::{Config, ContainedUser, Status};

fn config() -> Config {
    Config {
        bot_token: "SECRET-REDACTED".to_string(),
        role_to_add: 99,
        role_prefix_to_remove: "Dept-".to_string(),
    }
}

fn role(id: u64, name: &str) -> RoleInfo {
    RoleInfo { id, name: name.to_string() }
}

fn dept_roles() -> Vec<RoleInfo> {
    vec![role(1, "Dept-Engineering"), role(2, "VIP"), role(3, "Dept-OnCall")]
}

fn contain(reg: &mut Registry, user_id: u64, name: &str, roles: &[RoleInfo]) -> ContainPlan {
    match reg.begin_contain(&config(), user_id, name, roles) {
        Ok(plan) => plan,
        Err(_) => panic!("containment refused"),
    }
}

#[test]
fn contained_user_new_copies_fields() {
    let u = ContainedUser::new(&5, "Alice", &[10, 20]);
    assert_eq!(u.user_id, 5);
    assert_eq!(u.name, "Alice");
    assert_eq!(u.role_ids_to_restore, vec![10, 20]);
    let d = u.duplicate();
    assert_eq!(d.user_id, 5);
    assert_eq!(d.name, "Alice");
    assert_eq!(d.role_ids_to_restore, vec![10, 20]);
}

#[test]
fn default_status_is_empty() {
    let s = Status::default();
    assert!(s.to_restore.is_empty());
}

#[test]
fn strip_keeps_prefixed_roles_in_order() {
    assert_eq!(roles_to_strip(&dept_roles(), "Dept-"), vec![1, 3]);
    assert_eq!(roles_to_strip(&dept_roles(), ""), vec![1, 2, 3]);
    assert_eq!(roles_to_strip(&dept_roles(), "dept-"), Vec::<u64>::new());
    assert_eq!(roles_to_strip(&[], "Dept-"), Vec::<u64>::new());
    assert_eq!(roles_to_strip(&[role(4, "Dept")], "Dept-"), Vec::<u64>::new());
}

#[test]
fn dept_prefix_scenario() {
    let mut reg = Registry::new();
    let plan = contain(&mut reg, 42, "Bob", &dept_roles());
    assert_eq!(plan.user_id, 42);
    assert_eq!(plan.name, "Bob");
    assert_eq!(plan.remove_roles, vec![1, 3]);
    assert_eq!(plan.add_role, 99);
    assert!(reg.is_reserved(42));
    assert!(reg.finish_contain(plan, None).is_ok());
    assert!(!reg.is_reserved(42));
    let rec = reg.query(42).expect("contained");
    assert_eq!(rec.user_id, 42);
    assert_eq!(rec.name, "Bob");
    assert_eq!(rec.role_ids_to_restore, vec![1, 3]);
}

#[test]
fn contain_then_query_gives_stripped_roles() {
    let mut reg = Registry::new();
    let plan = contain(&mut reg, 1, "A", &[role(5, "Dept-X")]);
    assert!(reg.finish_contain(plan, None).is_ok());
    let roles = vec![role(7, "Dept-B"), role(8, "Other"), role(6, "Dept-A")];
    let plan = contain(&mut reg, 2, "B", &roles);
    assert!(reg.finish_contain(plan, None).is_ok());
    assert_eq!(reg.query(2).expect("contained").role_ids_to_restore, vec![7, 6]);
    assert_eq!(reg.query(1).expect("contained").role_ids_to_restore, vec![5]);
    assert!(reg.query(3).is_none());
    let listed = reg.list_contained();
    assert_eq!(listed.len(), 2);
    assert_eq!(listed[0].user_id, 1);
    assert_eq!(listed[1].user_id, 2);
}

#[test]
fn second_contain_is_refused() {
    let mut reg = Registry::new();
    let plan = contain(&mut reg, 42, "Bob", &dept_roles());
    assert!(matches!(
        reg.begin_contain(&config(), 42, "Bob", &dept_roles()),
        Err(ContainError::AlreadyContained)
    ));
    assert!(reg.finish_contain(plan, None).is_ok());
    assert!(matches!(
        reg.begin_contain(&config(), 42, "Bob", &[role(9, "Dept-New")]),
        Err(ContainError::AlreadyContained)
    ));
    let listed = reg.list_contained();
    assert_eq!(listed.len(), 1);
    assert_eq!(listed[0].role_ids_to_restore, vec![1, 3]);
}

#[test]
fn failed_role_records_nothing() {
    let mut reg = Registry::new();
    let plan = contain(&mut reg, 42, "Bob", &dept_roles());
    match reg.finish_contain(plan, Some(3)) {
        Err(ContainError::RoleOperationFailed { role_id }) => assert_eq!(role_id, 3),
        _ => panic!("expected a role failure"),
    }
    assert!(!reg.is_contained(42));
    assert!(!reg.is_reserved(42));
    let plan = contain(&mut reg, 42, "Bob", &dept_roles());
    assert!(reg.finish_contain(plan, None).is_ok());
    assert!(reg.is_contained(42));
}

#[test]
fn release_of_uncontained_member() {
    let mut reg = Registry::new();
    assert!(matches!(reg.begin_release(&config(), 7), Err(ReleaseError::NotContained)));
    assert!(matches!(reg.finish_release(7, &[]), Err(ReleaseError::NotContained)));
    assert!(matches!(reg.finish_release(7, &[1]), Err(ReleaseError::NotContained)));
}

#[test]
fn release_with_failures_keeps_record() {
    let mut reg = Registry::new();
    let plan = contain(&mut reg, 42, "Bob", &dept_roles());
    assert!(reg.finish_contain(plan, None).is_ok());
    match reg.finish_release(42, &[3, 99]) {
        Err(ReleaseError::RoleOperationFailed { role_ids }) => assert_eq!(role_ids, vec![3, 99]),
        _ => panic!("expected role failures"),
    }
    assert!(reg.is_contained(42));
    let back = reg.finish_release(42, &[]).ok().expect("released");
    assert_eq!(back.role_ids_to_restore, vec![1, 3]);
    assert!(!reg.is_contained(42));
}

#[test]
fn contain_then_release_restores_roles() {
    let roles = dept_roles();
    let before: HashSet<u64> = roles.iter().map(|r| r.id).collect();
    let mut held = before.clone();
    let mut reg = Registry::new();
    let plan = contain(&mut reg, 42, "Bob", &roles);
    for r in &plan.remove_roles {
        held.remove(r);
    }
    held.insert(plan.add_role);
    assert!(reg.finish_contain(plan, None).is_ok());
    assert_eq!(held, [2, 99].into_iter().collect::<HashSet<u64>>());

    let release = reg.begin_release(&config(), 42).ok().expect("contained");
    assert_eq!(release.user_id, 42);
    assert_eq!(release.restore_roles, vec![1, 3]);
    assert_eq!(release.remove_role, 99);
    for r in &release.restore_roles {
        held.insert(*r);
    }
    held.remove(&release.remove_role);
    assert!(reg.finish_release(42, &[]).is_ok());
    assert_eq!(held, before);
    assert!(reg.list_contained().is_empty());
}

#[test]
fn persist_round_trip() {
    let mut reg = Registry::new();
    let plan = contain(&mut reg, 42, "Bob", &dept_roles());
    assert!(reg.finish_contain(plan, None).is_ok());
    let plan = contain(&mut reg, 7, "Eve", &[role(4, "Dept-Ops")]);
    assert!(reg.finish_contain(plan, None).is_ok());
    let saved = reg.to_status();
    let again = Registry::from_status(saved).ok().expect("loads");
    let resaved = again.to_status();
    assert_eq!(resaved.to_restore.len(), 2);
    assert_eq!(resaved.to_restore[0].user_id, 42);
    assert_eq!(resaved.to_restore[0].name, "Bob");
    assert_eq!(resaved.to_restore[0].role_ids_to_restore, vec![1, 3]);
    assert_eq!(resaved.to_restore[1].user_id, 7);
    assert_eq!(resaved.to_restore[1].name, "Eve");
    assert_eq!(resaved.to_restore[1].role_ids_to_restore, vec![4]);
}

#[test]
fn duplicate_records_are_refused() {
    let status = Status {
        to_restore: vec![
            ContainedUser::new(&1, "A", &[]),
            ContainedUser::new(&2, "B", &[5]),
            ContainedUser::new(&1, "A again", &[6]),
        ],
    };
    match Registry::from_status(status) {
        Err(StoreError::StoreCorrupt { user_id }) => assert_eq!(user_id, 1),
        Ok(_) => panic!("duplicates accepted"),
    }
}

#[test]
fn startup_without_state_is_empty() {
    let reg = Registry::startup(None);
    assert!(reg.list_contained().is_empty());
    let reg = Registry::startup(Some(Status::default()));
    assert!(reg.list_contained().is_empty());
}

#[test]
fn startup_keeps_or_drops_persisted_records() {
    let good = Status { to_restore: vec![ContainedUser::new(&3, "C", &[8, 9])] };
    let reg = Registry::startup(Some(good));
    assert_eq!(reg.query(3).expect("kept").role_ids_to_restore, vec![8, 9]);
    let bad = Status {
        to_restore: vec![ContainedUser::new(&3, "C", &[]), ContainedUser::new(&3, "C", &[])],
    };
    assert!(Registry::startup(Some(bad)).list_contained().is_empty());
}
