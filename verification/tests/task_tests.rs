use tasksync::domain::{seed_grant, seed_list, seed_membership, seed_space, seed_task, seed_user};
use tasksync::domain::{ApiError, Ctx, Db, GrantRow, ListRow, MembershipRow, Role, SpaceRow};
use tasksync::domain::{Task, TaskStatus, UserRow};
use tasksync::identity::hash_password;
use tasksync::tasks::{create_task, delete_task, get_tasks, update_task_meta, update_task_status};
use tasksync::tasks::{CreateTaskBody, CreateTaskOutcome, UpdateTaskMetaBody};
use tasksync::lists::get_lists;

fn user_row(id: &str, email: &str, display: &str, hash: Option<String>) -> UserRow {
    UserRow {
        id: id.to_string(),
        email: email.to_string(),
        display: display.to_string(),
        avatar_icon: None,
        password_hash: hash,
        sound_enabled: true,
        sound_volume: 60,
        sound_theme: "chime_soft".to_string(),
        custom_sound_file_id: None,
        custom_sound_file_name: None,
        custom_sound_data_url: None,
        profile_attachments: None,
    }
}

fn setup_db() -> Db {
    let mut db = Db::new();
    let hash = hash_password("test-pass").expect("hash test password");
    seed_space(&mut db, SpaceRow { id: "s1".to_string(), name: "Default".to_string() })
        .expect("insert space");
    seed_user(&mut db, user_row("u-admin", "admin@example.com", "Admin", Some(hash.clone())))
        .expect("insert user");
    seed_membership(&mut db, MembershipRow {
        id: "m-admin".to_string(),
        space_id: "s1".to_string(),
        user_id: "u-admin".to_string(),
        role: Role::Admin,
    })
    .expect("insert membership");
    seed_user(&mut db, user_row("u-contrib", "contrib@example.com", "Contributor", Some(hash)))
        .expect("insert contributor");
    seed_membership(&mut db, MembershipRow {
        id: "m-contrib".to_string(),
        space_id: "s1".to_string(),
        user_id: "u-contrib".to_string(),
        role: Role::Contributor,
    })
    .expect("insert contributor membership");
    seed_list(&mut db, ListRow {
        id: "goal-management".to_string(),
        space_id: "s1".to_string(),
        name: "Goal Management".to_string(),
        icon: None,
        color: None,
        list_order: "a".to_string(),
    })
    .expect("insert list");
    seed_grant(&mut db, GrantRow {
        id: "g-contrib-goal".to_string(),
        space_id: "s1".to_string(),
        list_id: "goal-management".to_string(),
        user_id: "u-contrib".to_string(),
    })
    .expect("insert grant");
    db
}

fn admin_ctx() -> Ctx {
    Ctx { space_id: "s1".to_string(), user_id: "u-admin".to_string(), role: Role::Admin }
}

fn contrib_ctx() -> Ctx {
    Ctx { space_id: "s1".to_string(), user_id: "u-contrib".to_string(), role: Role::Contributor }
}

fn task_row(id: &str, title: &str, list: &str, order: &str, created_by: &str, ts: i64) -> Task {
    Task {
        id: id.to_string(),
        space_id: "s1".to_string(),
        title: title.to_string(),
        status: TaskStatus::Pending,
        list_id: list.to_string(),
        my_day: false,
        task_order: order.to_string(),
        updated_ts: ts,
        created_ts: ts,
        url: None,
        recur_rule: None,
        attachments: None,
        due_date: None,
        occurrences_completed: 0,
        completed_ts: None,
        notes: None,
        assignee_user_id: Some("u-admin".to_string()),
        created_by_user_id: Some(created_by.to_string()),
    }
}

fn create_body(id: Option<&str>, title: &str, list: &str) -> CreateTaskBody {
    CreateTaskBody {
        id: id.map(|s| s.to_string()),
        title: title.to_string(),
        list_id: list.to_string(),
        order: Some("z".to_string()),
        my_day: Some(false),
        url: None,
        recur_rule: None,
        attachments: None,
        due_date: None,
        notes: None,
        assignee_user_id: Some("u-admin".to_string()),
    }
}

fn empty_meta() -> UpdateTaskMetaBody {
    UpdateTaskMetaBody {
        title: None,
        status: None,
        list_id: None,
        my_day: None,
        url: None,
        recur_rule: None,
        attachments: None,
        due_date: None,
        notes: None,
        occurrences_completed: None,
        completed_ts: None,
        assignee_user_id: None,
    }
}

#[test]
fn contributor_can_create_task_assigned_to_admin() {
    let mut db = setup_db();
    let ctx = contrib_ctx();
    let mut body = create_body(None, "Assigned by contributor", "goal-management");
    body.my_day = Some(true);
    let created = match create_task(&mut db, &ctx, &body, 1000).expect("create should work") {
        CreateTaskOutcome::Created(t) => t,
        CreateTaskOutcome::Existed(_) => panic!("expected a fresh task"),
    };
    assert_eq!(created.assignee_user_id.as_deref(), Some("u-admin"));
    assert_eq!(created.created_by_user_id.as_deref(), Some("u-contrib"));
    assert!(!created.my_day);
}

#[test]
fn create_task_is_idempotent_when_client_retries_same_id() {
    let mut db = setup_db();
    let ctx = admin_ctx();
    let retried_id = "123e4567-e89b-12d3-a456-426614174000";
    let body = create_body(Some(retried_id), "Idempotent create", "goal-management");

    let first = create_task(&mut db, &ctx, &body, 1000).expect("first create should succeed");
    let first_task = match first {
        CreateTaskOutcome::Created(t) => t,
        CreateTaskOutcome::Existed(_) => panic!("first create should be fresh"),
    };
    assert_eq!(first_task.id, retried_id);

    let second = create_task(&mut db, &ctx, &body, 2000).expect("retry create should succeed");
    let second_task = match second {
        CreateTaskOutcome::Existed(t) => t,
        CreateTaskOutcome::Created(_) => panic!("retry must return the existing row"),
    };
    assert_eq!(second_task.id, retried_id);

    let count = db.tasks.iter().filter(|t| t.id == retried_id).count();
    assert_eq!(count, 1);
}

#[test]
fn create_task_requires_known_list_and_assignee() {
    let mut db = setup_db();
    let ctx = admin_ctx();
    let body = create_body(None, "No list", "missing-list");
    assert_eq!(create_task(&mut db, &ctx, &body, 1000).err(), Some(ApiError::NotFound));

    let mut body2 = create_body(None, "No assignee", "goal-management");
    body2.assignee_user_id = Some("u-ghost".to_string());
    assert_eq!(create_task(&mut db, &ctx, &body2, 1000).err(), Some(ApiError::NotFound));
}

#[test]
fn contributor_needs_grant_to_create() {
    let mut db = setup_db();
    seed_list(&mut db, ListRow {
        id: "admin-private".to_string(),
        space_id: "s1".to_string(),
        name: "Admin Private".to_string(),
        icon: None,
        color: None,
        list_order: "z".to_string(),
    })
    .expect("insert private list");
    let ctx = contrib_ctx();
    let mut body = create_body(None, "Not allowed", "admin-private");
    body.assignee_user_id = None;
    assert_eq!(create_task(&mut db, &ctx, &body, 1000).err(), Some(ApiError::Forbidden));
}

#[test]
fn admin_can_delete_task() {
    let mut db = setup_db();
    seed_task(&mut db, task_row("t-delete", "Delete me", "goal-management", "a", "u-admin", 1))
        .expect("insert task");
    let ctx = admin_ctx();
    delete_task(&mut db, &ctx, &"t-delete".to_string()).expect("delete task should work");
    let remaining = db.tasks.iter().filter(|t| t.id == "t-delete").count();
    assert_eq!(remaining, 0);
}

#[test]
fn contributor_cannot_delete_admin_task() {
    let mut db = setup_db();
    seed_task(&mut db, task_row("t-admin-owned", "Locked", "goal-management", "a", "u-admin", 1))
        .expect("insert task");
    let ctx = contrib_ctx();
    let status = delete_task(&mut db, &ctx, &"t-admin-owned".to_string());
    assert_eq!(status.err(), Some(ApiError::Forbidden));
}

#[test]
fn admin_can_clear_my_day_flag_via_task_meta_update() {
    let mut db = setup_db();
    let mut seeded = task_row("t-myday", "My Day item", "goal-management", "a", "u-admin", 1);
    seeded.my_day = true;
    seed_task(&mut db, seeded).expect("insert task");
    let ctx = admin_ctx();
    let mut body = empty_meta();
    body.my_day = Some(false);
    let updated = update_task_meta(&mut db, &ctx, &"t-myday".to_string(), &body, 2000)
        .expect("update should work");
    assert!(!updated.my_day);
}

#[test]
fn admin_can_preserve_completed_ts_when_recurring_instance_rolls_forward() {
    let mut db = setup_db();
    let mut seeded = task_row("t-recurring", "Stretch", "goal-management", "a", "u-admin", 1);
    seeded.due_date = Some("2026-02-05".to_string());
    seeded.recur_rule = Some("daily".to_string());
    seed_task(&mut db, seeded).expect("insert recurring task");

    let ctx = admin_ctx();
    let completed_ts: i64 = 1739000000000;
    let mut body = empty_meta();
    body.status = Some("pending".to_string());
    body.due_date = Some("2026-02-06".to_string());
    body.occurrences_completed = Some(1);
    body.completed_ts = Some(completed_ts);
    let updated = update_task_meta(&mut db, &ctx, &"t-recurring".to_string(), &body, 2000)
        .expect("recurring roll-forward should keep completion timestamp");

    assert_eq!(updated.status, TaskStatus::Pending);
    assert_eq!(updated.occurrences_completed, 1);
    assert_eq!(updated.due_date.as_deref(), Some("2026-02-06"));
    assert_eq!(updated.completed_ts, Some(completed_ts));
}

#[test]
fn contributor_cannot_update_or_reassign_task() {
    let mut db = setup_db();
    seed_task(&mut db, task_row("t1", "Task", "goal-management", "a", "u-admin", 1))
        .expect("insert task");
    let ctx = contrib_ctx();
    let mut body = empty_meta();
    body.assignee_user_id = Some("u-contrib".to_string());
    let result = update_task_meta(&mut db, &ctx, &"t1".to_string(), &body, 2000);
    assert_eq!(result.err(), Some(ApiError::Forbidden));
}

#[test]
fn contributor_can_update_and_complete_owned_task() {
    let mut db = setup_db();
    seed_task(&mut db, task_row("t-owned", "Contributor task", "goal-management", "a", "u-contrib", 1))
        .expect("insert owned task");
    let ctx = contrib_ctx();
    let mut body = empty_meta();
    body.title = Some("Updated by contributor".to_string());
    body.my_day = Some(false);
    body.due_date = Some("2026-02-09".to_string());
    body.notes = Some("note".to_string());
    body.assignee_user_id = Some("u-admin".to_string());
    let updated = update_task_meta(&mut db, &ctx, &"t-owned".to_string(), &body, 2000)
        .expect("owned task update should work");
    assert_eq!(updated.title, "Updated by contributor");
    assert_eq!(updated.due_date.as_deref(), Some("2026-02-09"));
    assert!(!updated.my_day);

    let completed = update_task_status(&mut db, &ctx, &"t-owned".to_string(), &"done".to_string(), 3000)
        .expect("owned task status update should work");
    assert_eq!(completed.status, TaskStatus::Done);
    assert_eq!(completed.completed_ts, Some(3000));
}

#[test]
fn contributor_cannot_set_my_day_on_owned_task() {
    let mut db = setup_db();
    seed_task(&mut db, task_row("t-owned-myday", "Contributor task", "goal-management", "a", "u-contrib", 1))
        .expect("insert owned task");
    let ctx = contrib_ctx();
    let mut body = empty_meta();
    body.my_day = Some(true);
    let result = update_task_meta(&mut db, &ctx, &"t-owned-myday".to_string(), &body, 2000);
    assert_eq!(result.err(), Some(ApiError::Forbidden));
}

#[test]
fn contributor_reads_only_granted_lists_and_admin_tasks_within_them() {
    let mut db = setup_db();
    seed_list(&mut db, ListRow {
        id: "admin-private".to_string(),
        space_id: "s1".to_string(),
        name: "Admin Private".to_string(),
        icon: None,
        color: None,
        list_order: "z".to_string(),
    })
    .expect("insert private list");
    seed_task(&mut db, task_row("t-visible", "Admin visible task", "goal-management", "a", "u-admin", 1))
        .expect("insert visible task");
    seed_task(&mut db, task_row("t-hidden", "Admin hidden task", "admin-private", "b", "u-admin", 1))
        .expect("insert hidden task");

    let ctx = contrib_ctx();
    let visible_lists = get_lists(&db, &ctx);
    assert_eq!(visible_lists.len(), 1);
    assert_eq!(visible_lists[0].id, "goal-management");

    let visible_tasks = get_tasks(&db, &ctx);
    assert_eq!(visible_tasks.len(), 1);
    assert_eq!(visible_tasks[0].id, "t-visible");
    assert_eq!(visible_tasks[0].created_by_user_id.as_deref(), Some("u-admin"));
}

#[test]
fn status_update_clears_completion_when_leaving_done() {
    let mut db = setup_db();
    let mut seeded = task_row("t-status", "Cycle", "goal-management", "a", "u-admin", 1);
    seeded.status = TaskStatus::Done;
    seeded.completed_ts = Some(500);
    seed_task(&mut db, seeded).expect("insert task");
    let ctx = admin_ctx();
    let reopened = update_task_status(&mut db, &ctx, &"t-status".to_string(), &"pending".to_string(), 2000)
        .expect("status update should work");
    assert_eq!(reopened.status, TaskStatus::Pending);
    assert_eq!(reopened.completed_ts, None);
    assert_eq!(reopened.updated_ts, 2000);
}

#[test]
fn status_update_rejects_unknown_literal() {
    let mut db = setup_db();
    seed_task(&mut db, task_row("t-lit", "Literal", "goal-management", "a", "u-admin", 1))
        .expect("insert task");
    let ctx = admin_ctx();
    let result = update_task_status(&mut db, &ctx, &"t-lit".to_string(), &"paused".to_string(), 2000);
    assert_eq!(result.err(), Some(ApiError::BadRequest));
}

#[test]
fn tasks_are_sorted_by_task_order() {
    let mut db = setup_db();
    seed_task(&mut db, task_row("t-c", "Third", "goal-management", "c", "u-admin", 1))
        .expect("insert");
    seed_task(&mut db, task_row("t-a", "First", "goal-management", "a", "u-admin", 1))
        .expect("insert");
    seed_task(&mut db, task_row("t-b", "Second", "goal-management", "b", "u-admin", 1))
        .expect("insert");
    let ctx = admin_ctx();
    let tasks = get_tasks(&db, &ctx);
    let ids: Vec<&str> = tasks.iter().map(|t| t.id.as_str()).collect();
    assert_eq!(ids, vec!["t-a", "t-b", "t-c"]);
}

#[test]
fn delete_list_is_refused_while_tasks_reference_it() {
    let mut db = setup_db();
    seed_task(&mut db, task_row("t-keep", "Keeps list alive", "goal-management", "a", "u-admin", 1))
        .expect("insert task");
    let ctx = admin_ctx();
    let result = tasksync::lists::delete_list(&mut db, &ctx, &"goal-management".to_string());
    assert_eq!(result.err(), Some(ApiError::Conflict));

    delete_task(&mut db, &ctx, &"t-keep".to_string()).expect("delete task");
    tasksync::lists::delete_list(&mut db, &ctx, &"goal-management".to_string())
        .expect("empty list deletes");
    assert_eq!(
        tasksync::lists::delete_list(&mut db, &ctx, &"goal-management".to_string()).err(),
        Some(ApiError::NotFound),
    );
}
