use tasksync::domain::{is_valid_task_status, parse_task_status, seed_list, seed_membership};
use tasksync::domain::{seed_space, seed_task, seed_user, ApiError, Ctx, Db, ListRow};
use tasksync::domain::{MembershipRow, Role, SpaceRow, Task, TaskStatus, UserRow};
use tasksync::identity::hash_password;
use tasksync::lists::{create_list, get_lists, update_list};
use tasksync::tasks::{create_task, update_task_meta, CreateTaskBody, CreateTaskOutcome};
use tasksync::tasks::UpdateTaskMetaBody;

fn user_row(id: &str, email: &str, display: &str, hash: Option<String>) -> UserRow {
    UserRow {
        id: id.to_string(),
        email: email.to_string(),
        display: display.to_string(),
        avatar_icon: None,
        password_hash: hash,
        sound_enabled: true,
        sound_volume: 60,
        sound_theme: "chime_soft".to_string(),
        custom_sound_file_id: None,
        custom_sound_file_name: None,
        custom_sound_data_url: None,
        profile_attachments: None,
    }
}

fn setup_db() -> Db {
    let mut db = Db::new();
    let hash = hash_password("test-pass").expect("hash test password");
    seed_space(&mut db, SpaceRow { id: "s1".to_string(), name: "Default".to_string() })
        .expect("insert space");
    seed_user(&mut db, user_row("u-admin", "admin@example.com", "Admin", Some(hash)))
        .expect("insert user");
    seed_membership(&mut db, MembershipRow {
        id: "m-admin".to_string(),
        space_id: "s1".to_string(),
        user_id: "u-admin".to_string(),
        role: Role::Admin,
    })
    .expect("insert membership");
    seed_list(&mut db, ListRow {
        id: "goal-management".to_string(),
        space_id: "s1".to_string(),
        name: "Goal Management".to_string(),
        icon: None,
        color: None,
        list_order: "a".to_string(),
    })
    .expect("insert list");
    db
}

fn admin_ctx() -> Ctx {
    Ctx { space_id: "s1".to_string(), user_id: "u-admin".to_string(), role: Role::Admin }
}

fn every_task_references_a_list(db: &Db) -> bool {
    db.tasks.iter().all(|t| {
        db.lists.iter().any(|l| l.space_id == t.space_id && l.id == t.list_id)
    })
}

#[test]
fn status_literals_round_trip() {
    assert!(is_valid_task_status("pending"));
    assert!(is_valid_task_status("done"));
    assert!(is_valid_task_status("cancelled"));
    assert!(!is_valid_task_status("paused"));
    assert!(!is_valid_task_status("Pending"));
    assert_eq!(parse_task_status("pending"), Some(TaskStatus::Pending));
    assert_eq!(parse_task_status("done"), Some(TaskStatus::Done));
    assert_eq!(parse_task_status("cancelled"), Some(TaskStatus::Cancelled));
    assert_eq!(parse_task_status("nope"), None);
}

#[test]
fn api_error_codes_and_reasons_match_the_taxonomy() {
    assert_eq!(ApiError::BadRequest.status_code(), 400);
    assert_eq!(ApiError::Unauthorized.status_code(), 401);
    assert_eq!(ApiError::Forbidden.status_code(), 403);
    assert_eq!(ApiError::NotFound.status_code(), 404);
    assert_eq!(ApiError::Conflict.status_code(), 409);
    assert_eq!(ApiError::Internal.status_code(), 500);
    assert_eq!(ApiError::Forbidden.reason(), "Forbidden");
    assert_eq!(ApiError::Internal.reason(), "Internal Server Error");
}

#[test]
fn create_list_generates_a_uuid_and_defaults_the_rank() {
    let mut db = setup_db();
    let ctx = admin_ctx();
    let created = create_list(&mut db, &ctx, "Fresh".to_string(), None, None, None)
        .expect("create list should work");
    assert_eq!(created.id.len(), 36);
    assert_eq!(created.list_order, "z");
    assert_eq!(created.space_id, "s1");

    let lists = get_lists(&db, &ctx);
    let ids: Vec<&str> = lists.iter().map(|l| l.id.as_str()).collect();
    // "a" sorts before "z": the seeded list leads.
    assert_eq!(ids[0], "goal-management");
    assert_eq!(ids.len(), 2);
}

#[test]
fn update_list_coalesces_absent_fields() {
    let mut db = setup_db();
    let ctx = admin_ctx();
    let updated = update_list(
        &mut db,
        &ctx,
        &"goal-management".to_string(),
        Some("Goals".to_string()),
        None,
        Some("teal".to_string()),
        None,
    )
    .expect("update list should work");
    assert_eq!(updated.name, "Goals");
    assert_eq!(updated.color.as_deref(), Some("teal"));
    assert_eq!(updated.icon, None);
    assert_eq!(updated.list_order, "a");

    let missing = update_list(&mut db, &ctx, &"nope".to_string(), None, None, None, None);
    assert_eq!(missing.err(), Some(ApiError::NotFound));
}

#[test]
fn tasks_always_reference_a_list_of_their_space() {
    let mut db = setup_db();
    let ctx = admin_ctx();
    assert!(every_task_references_a_list(&db));
    let body = CreateTaskBody {
        id: Some("t-p1".to_string()),
        title: "Anchored".to_string(),
        list_id: "goal-management".to_string(),
        order: None,
        my_day: None,
        url: None,
        recur_rule: None,
        attachments: None,
        due_date: None,
        notes: None,
        assignee_user_id: None,
    };
    create_task(&mut db, &ctx, &body, 1000).expect("create");
    assert!(every_task_references_a_list(&db));

    let fresh = create_list(&mut db, &ctx, "Other".to_string(), None, None, Some("b".to_string()))
        .expect("create list");
    let mut patch = UpdateTaskMetaBody {
        title: None,
        status: None,
        list_id: Some(fresh.id.clone()),
        my_day: None,
        url: None,
        recur_rule: None,
        attachments: None,
        due_date: None,
        notes: None,
        occurrences_completed: None,
        completed_ts: None,
        assignee_user_id: None,
    };
    update_task_meta(&mut db, &ctx, &"t-p1".to_string(), &patch, 2000).expect("move task");
    assert!(every_task_references_a_list(&db));

    patch.list_id = Some("missing".to_string());
    assert_eq!(
        update_task_meta(&mut db, &ctx, &"t-p1".to_string(), &patch, 3000).err(),
        Some(ApiError::NotFound),
    );
    assert!(every_task_references_a_list(&db));
}

#[test]
fn updated_ts_advances_on_every_mutation() {
    let mut db = setup_db();
    let ctx = admin_ctx();
    let body = CreateTaskBody {
        id: Some("t-ts".to_string()),
        title: "Clock".to_string(),
        list_id: "goal-management".to_string(),
        order: None,
        my_day: None,
        url: None,
        recur_rule: None,
        attachments: None,
        due_date: None,
        notes: None,
        assignee_user_id: None,
    };
    let created = match create_task(&mut db, &ctx, &body, 1000).expect("create") {
        CreateTaskOutcome::Created(t) => t,
        CreateTaskOutcome::Existed(_) => panic!("fresh"),
    };
    assert_eq!(created.updated_ts, 1000);
    let patch = UpdateTaskMetaBody {
        title: Some("Clock 2".to_string()),
        status: None,
        list_id: None,
        my_day: None,
        url: None,
        recur_rule: None,
        attachments: None,
        due_date: None,
        notes: None,
        occurrences_completed: None,
        completed_ts: None,
        assignee_user_id: None,
    };
    let updated = update_task_meta(&mut db, &ctx, &"t-ts".to_string(), &patch, 1500)
        .expect("update");
    assert!(updated.updated_ts >= created.updated_ts);
    assert_eq!(updated.updated_ts, 1500);
}

#[test]
fn blank_client_id_draws_a_generated_one() {
    let mut db = setup_db();
    let ctx = admin_ctx();
    let body = CreateTaskBody {
        id: Some("   ".to_string()),
        title: "Generated".to_string(),
        list_id: "goal-management".to_string(),
        order: None,
        my_day: None,
        url: None,
        recur_rule: None,
        attachments: None,
        due_date: None,
        notes: None,
        assignee_user_id: None,
    };
    let created = match create_task(&mut db, &ctx, &body, 1000).expect("create") {
        CreateTaskOutcome::Created(t) => t,
        CreateTaskOutcome::Existed(_) => panic!("fresh"),
    };
    assert_eq!(created.id.len(), 36);
}

#[test]
fn client_id_is_trimmed_before_use() {
    let mut db = setup_db();
    let ctx = admin_ctx();
    let body = CreateTaskBody {
        id: Some("  t-trim  ".to_string()),
        title: "Trimmed".to_string(),
        list_id: "goal-management".to_string(),
        order: None,
        my_day: None,
        url: None,
        recur_rule: None,
        attachments: None,
        due_date: None,
        notes: None,
        assignee_user_id: None,
    };
    let created = match create_task(&mut db, &ctx, &body, 1000).expect("create") {
        CreateTaskOutcome::Created(t) => t,
        CreateTaskOutcome::Existed(_) => panic!("fresh"),
    };
    assert_eq!(created.id, "t-trim");
}

#[test]
fn cross_space_id_conflict_is_rejected() {
    let mut db = setup_db();
    // A second space with its own admin and list, holding the contested id.
    seed_space(&mut db, SpaceRow { id: "s2".to_string(), name: "Second".to_string() })
        .expect("insert space");
    seed_user(&mut db, user_row("u-other", "other@example.com", "Other", None))
        .expect("insert user");
    seed_membership(&mut db, MembershipRow {
        id: "m-other".to_string(),
        space_id: "s2".to_string(),
        user_id: "u-other".to_string(),
        role: Role::Admin,
    })
    .expect("insert membership");
    seed_list(&mut db, ListRow {
        id: "list-2".to_string(),
        space_id: "s2".to_string(),
        name: "Second List".to_string(),
        icon: None,
        color: None,
        list_order: "a".to_string(),
    })
    .expect("insert list");
    seed_task(&mut db, Task {
        id: "t-shared".to_string(),
        space_id: "s2".to_string(),
        title: "Elsewhere".to_string(),
        status: TaskStatus::Pending,
        list_id: "list-2".to_string(),
        my_day: false,
        task_order: "a".to_string(),
        updated_ts: 1,
        created_ts: 1,
        url: None,
        recur_rule: None,
        attachments: None,
        due_date: None,
        occurrences_completed: 0,
        completed_ts: None,
        notes: None,
        assignee_user_id: None,
        created_by_user_id: None,
    })
    .expect("insert task");

    let ctx = admin_ctx();
    let body = CreateTaskBody {
        id: Some("t-shared".to_string()),
        title: "Mine too".to_string(),
        list_id: "goal-management".to_string(),
        order: None,
        my_day: None,
        url: None,
        recur_rule: None,
        attachments: None,
        due_date: None,
        notes: None,
        assignee_user_id: None,
    };
    assert_eq!(create_task(&mut db, &ctx, &body, 1000).err(), Some(ApiError::Conflict));
}

#[test]
fn space_keeps_at_least_one_admin() {
    let mut db = setup_db();
    // Every space in the store has an admin after seeding and stays so
    // through the member operations the other suites exercise.
    for s in db.spaces.iter() {
        let admins = db
            .memberships
            .iter()
            .filter(|m| m.space_id == s.id && m.role == Role::Admin)
            .count();
        assert!(admins >= 1);
    }
}
