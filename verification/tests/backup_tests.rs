use tasksync::backup::{export_backup, restore_backup};
use tasksync::domain::{seed_grant, seed_list, seed_membership, seed_space, seed_task, seed_user};
use tasksync::domain::{ApiError, Ctx, Db, GrantRow, ListRow, MembershipRow, Role, SpaceRow};
use tasksync::domain::{Task, TaskStatus, UserRow};
use tasksync::identity::hash_password;

fn user_row(id: &str, email: &str, display: &str, hash: Option<String>) -> UserRow {
    UserRow {
        id: id.to_string(),
        email: email.to_string(),
        display: display.to_string(),
        avatar_icon: None,
        password_hash: hash,
        sound_enabled: true,
        sound_volume: 60,
        sound_theme: "chime_soft".to_string(),
        custom_sound_file_id: None,
        custom_sound_file_name: None,
        custom_sound_data_url: None,
        profile_attachments: None,
    }
}

fn setup_db() -> Db {
    let mut db = Db::new();
    let hash = hash_password("test-pass").expect("hash test password");
    seed_space(&mut db, SpaceRow { id: "s1".to_string(), name: "Default".to_string() })
        .expect("insert space");
    seed_user(&mut db, user_row("u-admin", "admin@example.com", "Admin", Some(hash.clone())))
        .expect("insert user");
    seed_membership(&mut db, MembershipRow {
        id: "m-admin".to_string(),
        space_id: "s1".to_string(),
        user_id: "u-admin".to_string(),
        role: Role::Admin,
    })
    .expect("insert membership");
    seed_user(&mut db, user_row("u-contrib", "contrib@example.com", "Contributor", Some(hash)))
        .expect("insert contributor");
    seed_membership(&mut db, MembershipRow {
        id: "m-contrib".to_string(),
        space_id: "s1".to_string(),
        user_id: "u-contrib".to_string(),
        role: Role::Contributor,
    })
    .expect("insert contributor membership");
    seed_list(&mut db, ListRow {
        id: "goal-management".to_string(),
        space_id: "s1".to_string(),
        name: "Goal Management".to_string(),
        icon: None,
        color: None,
        list_order: "a".to_string(),
    })
    .expect("insert list");
    seed_grant(&mut db, GrantRow {
        id: "g-contrib-goal".to_string(),
        space_id: "s1".to_string(),
        list_id: "goal-management".to_string(),
        user_id: "u-contrib".to_string(),
    })
    .expect("insert grant");
    db
}

fn admin_ctx() -> Ctx {
    Ctx { space_id: "s1".to_string(), user_id: "u-admin".to_string(), role: Role::Admin }
}

fn task_row(id: &str, title: &str) -> Task {
    Task {
        id: id.to_string(),
        space_id: "s1".to_string(),
        title: title.to_string(),
        status: TaskStatus::Pending,
        list_id: "goal-management".to_string(),
        my_day: false,
        task_order: "a".to_string(),
        updated_ts: 1,
        created_ts: 1,
        url: None,
        recur_rule: None,
        attachments: None,
        due_date: None,
        occurrences_completed: 0,
        completed_ts: None,
        notes: None,
        assignee_user_id: Some("u-admin".to_string()),
        created_by_user_id: Some("u-admin".to_string()),
    }
}

#[test]
fn admin_can_export_space_backup_snapshot() {
    let mut db = setup_db();
    seed_task(&mut db, task_row("t-backup", "Backup seed task")).expect("insert seed task");
    let ctx = admin_ctx();
    let backup = export_backup(&db, &ctx).expect("export backup should work");

    assert_eq!(backup.schema, "tasksync-space-backup-v1");
    assert_eq!(backup.space.id, "s1");
    assert!(backup.users.iter().any(|user| user.id == "u-admin"));
    assert!(backup.memberships.iter().any(|membership| membership.user_id == "u-admin"));
    assert!(backup.lists.iter().any(|list| list.id == "goal-management"));
    assert!(backup.tasks.iter().any(|task| task.id == "t-backup"));
}

#[test]
fn contributor_cannot_export_or_restore() {
    let mut db = setup_db();
    let ctx = Ctx {
        space_id: "s1".to_string(),
        user_id: "u-contrib".to_string(),
        role: Role::Contributor,
    };
    assert_eq!(export_backup(&db, &ctx).err(), Some(ApiError::Forbidden));
    let bundle = export_backup(&db, &admin_ctx()).expect("export");
    assert_eq!(restore_backup(&mut db, &ctx, &bundle).err(), Some(ApiError::Forbidden));
}

#[test]
fn admin_can_restore_space_backup_snapshot() {
    let mut db = setup_db();
    seed_task(&mut db, task_row("t-restore", "Restore seed task")).expect("insert seed task");
    let ctx = admin_ctx();
    let backup = export_backup(&db, &ctx).expect("export backup should work");

    // Damage the space before restoring.
    for s in db.spaces.iter_mut() {
        if s.id == "s1" {
            s.name = "Broken".to_string();
        }
    }
    db.tasks.clear();
    db.grants.clear();
    db.lists.retain(|l| !(l.id == "goal-management" && l.space_id == "s1"));

    let restored = restore_backup(&mut db, &ctx, &backup).expect("restore backup should work");
    assert_eq!(restored.space_id, "s1");
    assert!(restored.tasks >= 1);
    assert!(restored.lists >= 1);

    let space_name = db.spaces.iter().find(|s| s.id == "s1").map(|s| s.name.clone());
    assert_eq!(space_name.as_deref(), Some("Default"));

    let restored_task_title = db
        .tasks
        .iter()
        .find(|t| t.id == "t-restore" && t.space_id == "s1")
        .map(|t| t.title.clone());
    assert_eq!(restored_task_title.as_deref(), Some("Restore seed task"));
}

#[test]
fn restore_validates_schema_space_and_actor() {
    let mut db = setup_db();
    let ctx = admin_ctx();
    let good = export_backup(&db, &ctx).expect("export");

    let mut wrong_schema = export_backup(&db, &ctx).expect("export");
    wrong_schema.schema = "tasksync-space-backup-v0".to_string();
    assert_eq!(restore_backup(&mut db, &ctx, &wrong_schema).err(), Some(ApiError::BadRequest));

    let mut wrong_space = export_backup(&db, &ctx).expect("export");
    wrong_space.space.id = "s2".to_string();
    assert_eq!(restore_backup(&mut db, &ctx, &wrong_space).err(), Some(ApiError::BadRequest));

    let mut no_actor = export_backup(&db, &ctx).expect("export");
    no_actor.memberships.retain(|m| m.user_id != "u-admin");
    assert_eq!(restore_backup(&mut db, &ctx, &no_actor).err(), Some(ApiError::BadRequest));

    // The untouched bundle still restores.
    restore_backup(&mut db, &ctx, &good).expect("good bundle restores");
}

#[test]
fn restore_rejects_task_without_its_list() {
    let mut db = setup_db();
    seed_task(&mut db, task_row("t-fk", "Task with list")).expect("insert");
    let ctx = admin_ctx();
    let mut bundle = export_backup(&db, &ctx).expect("export");
    bundle.lists.clear();
    assert_eq!(restore_backup(&mut db, &ctx, &bundle).err(), Some(ApiError::Internal));
    // Nothing changed: the task's list is still present.
    assert!(db.lists.iter().any(|l| l.id == "goal-management"));
}

#[test]
fn restore_rejects_membership_without_its_user() {
    let mut db = setup_db();
    let ctx = admin_ctx();
    let mut bundle = export_backup(&db, &ctx).expect("export");
    bundle.memberships.push(MembershipRow {
        id: "m-ghost".to_string(),
        space_id: "s1".to_string(),
        user_id: "u-ghost".to_string(),
        role: Role::Contributor,
    });
    assert_eq!(restore_backup(&mut db, &ctx, &bundle).err(), Some(ApiError::Internal));
    // Nothing changed.
    assert!(db.memberships.iter().all(|m| m.user_id != "u-ghost"));
}

#[test]
fn export_after_restore_round_trips_the_bundle() {
    let mut db = setup_db();
    seed_task(&mut db, task_row("t-rt", "Round trip")).expect("insert");
    let ctx = admin_ctx();
    let bundle = export_backup(&db, &ctx).expect("export");
    restore_backup(&mut db, &ctx, &bundle).expect("restore");
    let again = export_backup(&db, &ctx).expect("re-export");

    let ids = |v: &Vec<Task>| {
        let mut out: Vec<(String, i64)> = v.iter().map(|t| (t.id.clone(), t.updated_ts)).collect();
        out.sort();
        out
    };
    assert_eq!(again.space.id, bundle.space.id);
    assert_eq!(again.space.name, bundle.space.name);
    assert_eq!(again.users.len(), bundle.users.len());
    assert_eq!(again.memberships.len(), bundle.memberships.len());
    assert_eq!(again.lists.len(), bundle.lists.len());
    assert_eq!(again.list_grants.len(), bundle.list_grants.len());
    assert_eq!(ids(&again.tasks), ids(&bundle.tasks));
}
