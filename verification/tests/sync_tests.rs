use tasksync::domain::{seed_grant, seed_list, seed_membership, seed_space, seed_task, seed_user};
use tasksync::domain::{Ctx, Db, GrantRow, ListRow, MembershipRow, Role, SpaceRow};
use tasksync::domain::{Task, TaskStatus, UserRow};
use tasksync::identity::hash_password;
use tasksync::sync::{sync_cursor_for_ctx, sync_pull, sync_push, SyncPushChange};
use tasksync::tasks::CreateTaskBody;

fn user_row(id: &str, email: &str, display: &str, hash: Option<String>) -> UserRow {
    UserRow {
        id: id.to_string(),
        email: email.to_string(),
        display: display.to_string(),
        avatar_icon: None,
        password_hash: hash,
        sound_enabled: true,
        sound_volume: 60,
        sound_theme: "chime_soft".to_string(),
        custom_sound_file_id: None,
        custom_sound_file_name: None,
        custom_sound_data_url: None,
        profile_attachments: None,
    }
}

fn setup_db() -> Db {
    let mut db = Db::new();
    let hash = hash_password("test-pass").expect("hash test password");
    seed_space(&mut db, SpaceRow { id: "s1".to_string(), name: "Default".to_string() })
        .expect("insert space");
    seed_user(&mut db, user_row("u-admin", "admin@example.com", "Admin", Some(hash.clone())))
        .expect("insert user");
    seed_membership(&mut db, MembershipRow {
        id: "m-admin".to_string(),
        space_id: "s1".to_string(),
        user_id: "u-admin".to_string(),
        role: Role::Admin,
    })
    .expect("insert membership");
    seed_user(&mut db, user_row("u-contrib", "contrib@example.com", "Contributor", Some(hash)))
        .expect("insert contributor");
    seed_membership(&mut db, MembershipRow {
        id: "m-contrib".to_string(),
        space_id: "s1".to_string(),
        user_id: "u-contrib".to_string(),
        role: Role::Contributor,
    })
    .expect("insert contributor membership");
    seed_list(&mut db, ListRow {
        id: "goal-management".to_string(),
        space_id: "s1".to_string(),
        name: "Goal Management".to_string(),
        icon: None,
        color: None,
        list_order: "a".to_string(),
    })
    .expect("insert list");
    seed_grant(&mut db, GrantRow {
        id: "g-contrib-goal".to_string(),
        space_id: "s1".to_string(),
        list_id: "goal-management".to_string(),
        user_id: "u-contrib".to_string(),
    })
    .expect("insert grant");
    db
}

fn admin_ctx() -> Ctx {
    Ctx { space_id: "s1".to_string(), user_id: "u-admin".to_string(), role: Role::Admin }
}

fn contrib_ctx() -> Ctx {
    Ctx { space_id: "s1".to_string(), user_id: "u-contrib".to_string(), role: Role::Contributor }
}

fn task_row(id: &str, title: &str, list: &str, order: &str, ts: i64) -> Task {
    Task {
        id: id.to_string(),
        space_id: "s1".to_string(),
        title: title.to_string(),
        status: TaskStatus::Pending,
        list_id: list.to_string(),
        my_day: false,
        task_order: order.to_string(),
        updated_ts: ts,
        created_ts: 1,
        url: None,
        recur_rule: None,
        attachments: None,
        due_date: None,
        occurrences_completed: 0,
        completed_ts: None,
        notes: None,
        assignee_user_id: Some("u-admin".to_string()),
        created_by_user_id: Some("u-admin".to_string()),
    }
}

#[test]
fn sync_pull_filters_by_since_and_role_scope() {
    let mut db = setup_db();
    seed_list(&mut db, ListRow {
        id: "admin-private".to_string(),
        space_id: "s1".to_string(),
        name: "Admin Private".to_string(),
        icon: None,
        color: None,
        list_order: "z".to_string(),
    })
    .expect("insert private list");
    seed_task(&mut db, task_row("t-old", "Old visible task", "goal-management", "a", 100))
        .expect("insert old visible task");
    seed_task(&mut db, task_row("t-new", "New visible task", "goal-management", "b", 200))
        .expect("insert new visible task");
    seed_task(&mut db, task_row("t-hidden", "Hidden task", "admin-private", "c", 300))
        .expect("insert hidden task");

    let ctx = contrib_ctx();
    let response = sync_pull(&db, &ctx, Some(150));
    assert_eq!(response.protocol, "delta-v1");
    assert_eq!(response.cursor_ts, 200);
    assert_eq!(response.lists.len(), 1);
    assert_eq!(response.lists[0].id, "goal-management");
    assert_eq!(response.tasks.len(), 1);
    assert_eq!(response.tasks[0].id, "t-new");
}

#[test]
fn sync_pull_since_is_inclusive() {
    let mut db = setup_db();
    seed_task(&mut db, task_row("t-equal", "Equal cursor", "goal-management", "a", 150))
        .expect("insert task");
    let ctx = admin_ctx();
    let response = sync_pull(&db, &ctx, Some(150));
    assert_eq!(response.tasks.len(), 1);
    assert_eq!(response.tasks[0].id, "t-equal");
}

#[test]
fn sync_cursor_is_stable_without_mutations() {
    let mut db = setup_db();
    seed_task(&mut db, task_row("t-a", "A", "goal-management", "a", 100)).expect("insert");
    seed_task(&mut db, task_row("t-b", "B", "goal-management", "b", 250)).expect("insert");
    let ctx = admin_ctx();
    let first = sync_cursor_for_ctx(&db, &ctx);
    let second = sync_cursor_for_ctx(&db, &ctx);
    assert_eq!(first, 250);
    assert!(second >= first);
}

#[test]
fn sync_push_applies_create_then_status_update_for_admin() {
    let mut db = setup_db();
    let ctx = admin_ctx();
    let changes = vec![
        SyncPushChange::CreateTask {
            op_id: "op-create".to_string(),
            body: CreateTaskBody {
                id: Some("123e4567-e89b-12d3-a456-426614174900".to_string()),
                title: "Created by sync push".to_string(),
                list_id: "goal-management".to_string(),
                order: Some("z".to_string()),
                my_day: Some(false),
                url: None,
                recur_rule: None,
                attachments: None,
                due_date: None,
                notes: None,
                assignee_user_id: Some("u-admin".to_string()),
            },
        },
        SyncPushChange::UpdateTaskStatus {
            op_id: "op-status".to_string(),
            task_id: "123e4567-e89b-12d3-a456-426614174900".to_string(),
            status: "done".to_string(),
        },
    ];
    let response = sync_push(&mut db, &ctx, &changes, 1000).expect("sync push should work");
    assert_eq!(response.protocol, "delta-v1");
    assert!(response.rejected.is_empty());
    assert_eq!(response.applied.len(), 2);
    assert_eq!(response.applied[1].status, TaskStatus::Done);

    let saved = db
        .tasks
        .iter()
        .find(|t| t.id == "123e4567-e89b-12d3-a456-426614174900")
        .expect("task stored");
    assert_eq!(saved.status, TaskStatus::Done);
}

#[test]
fn sync_push_rejects_contributor_status_update() {
    let mut db = setup_db();
    seed_task(&mut db, task_row("t-locked", "Locked task", "goal-management", "a", 1))
        .expect("insert locked task");
    let ctx = contrib_ctx();
    let changes = vec![SyncPushChange::UpdateTaskStatus {
        op_id: "op-forbidden".to_string(),
        task_id: "t-locked".to_string(),
        status: "done".to_string(),
    }];
    let response = sync_push(&mut db, &ctx, &changes, 1000)
        .expect("sync push should return payload");
    assert!(response.applied.is_empty());
    assert_eq!(response.rejected.len(), 1);
    assert_eq!(response.rejected[0].op_id, "op-forbidden");
    assert_eq!(response.rejected[0].status, 403);
    assert_eq!(response.rejected[0].error, "Forbidden");
}

#[test]
fn sync_push_caps_the_batch_at_500() {
    let mut db = setup_db();
    let ctx = admin_ctx();
    let mut changes: Vec<SyncPushChange> = Vec::new();
    for i in 0..501 {
        changes.push(SyncPushChange::UpdateTaskStatus {
            op_id: format!("op-{}", i),
            task_id: "missing".to_string(),
            status: "done".to_string(),
        });
    }
    let result = sync_push(&mut db, &ctx, &changes, 1000);
    assert_eq!(result.err(), Some(tasksync::domain::ApiError::BadRequest));
}
