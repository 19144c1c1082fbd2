use tasksync::domain::{seed_grant, seed_list, seed_membership, seed_space, seed_user};
use tasksync::domain::{ApiError, Ctx, Db, GrantRow, ListRow, MembershipRow, Role, SpaceRow, UserRow};
use tasksync::identity::hash_password;
use tasksync::members::{auth_create_member, auth_delete_member, auth_grants, auth_members};
use tasksync::members::{auth_set_grant, auth_set_member_password, CreateMemberBody};

fn user_row(id: &str, email: &str, display: &str, hash: Option<String>) -> UserRow {
    UserRow {
        id: id.to_string(),
        email: email.to_string(),
        display: display.to_string(),
        avatar_icon: None,
        password_hash: hash,
        sound_enabled: true,
        sound_volume: 60,
        sound_theme: "chime_soft".to_string(),
        custom_sound_file_id: None,
        custom_sound_file_name: None,
        custom_sound_data_url: None,
        profile_attachments: None,
    }
}

fn setup_db() -> Db {
    let mut db = Db::new();
    let hash = hash_password("test-pass").expect("hash test password");
    seed_space(&mut db, SpaceRow { id: "s1".to_string(), name: "Default".to_string() })
        .expect("insert space");
    seed_user(&mut db, user_row("u-admin", "admin@example.com", "Admin", Some(hash.clone())))
        .expect("insert user");
    seed_membership(&mut db, MembershipRow {
        id: "m-admin".to_string(),
        space_id: "s1".to_string(),
        user_id: "u-admin".to_string(),
        role: Role::Admin,
    })
    .expect("insert membership");
    seed_user(&mut db, user_row("u-contrib", "contrib@example.com", "Contributor", Some(hash)))
        .expect("insert contributor");
    seed_membership(&mut db, MembershipRow {
        id: "m-contrib".to_string(),
        space_id: "s1".to_string(),
        user_id: "u-contrib".to_string(),
        role: Role::Contributor,
    })
    .expect("insert contributor membership");
    seed_list(&mut db, ListRow {
        id: "goal-management".to_string(),
        space_id: "s1".to_string(),
        name: "Goal Management".to_string(),
        icon: None,
        color: None,
        list_order: "a".to_string(),
    })
    .expect("insert list");
    seed_grant(&mut db, GrantRow {
        id: "g-contrib-goal".to_string(),
        space_id: "s1".to_string(),
        list_id: "goal-management".to_string(),
        user_id: "u-contrib".to_string(),
    })
    .expect("insert grant");
    db
}

fn admin_ctx() -> Ctx {
    Ctx { space_id: "s1".to_string(), user_id: "u-admin".to_string(), role: Role::Admin }
}

fn contrib_ctx() -> Ctx {
    Ctx { space_id: "s1".to_string(), user_id: "u-contrib".to_string(), role: Role::Contributor }
}

fn member_body(email: &str, display: &str, role: &str, password: &str) -> CreateMemberBody {
    CreateMemberBody {
        email: email.to_string(),
        display: display.to_string(),
        role: role.to_string(),
        password: password.to_string(),
        avatar_icon: Some("".to_string()),
    }
}

fn do_login(db: &mut Db, email: &str, password: &str) -> Result<
    tasksync::identity::LoginResponse,
    ApiError,
> {
    tasksync::identity::login(
        db,
        &email.to_string(),
        &password.to_string(),
        Some(&"s1".to_string()),
        &"test-pass".to_string(),
        &"test-secret".to_string(),
        tasksync::identity::unix_now_secs(),
    )
}

#[test]
fn admin_can_create_member_and_manage_grants() {
    let mut db = setup_db();
    let ctx = admin_ctx();
    let created = auth_create_member(
        &mut db,
        &ctx,
        member_body("wife@example.com", "Wife", "contributor", "password123"),
    )
    .expect("create member should work");
    assert_eq!(created.role, Role::Contributor);
    // A blank avatar stays empty.
    assert_eq!(created.avatar_icon, None);

    let granted = auth_set_grant(
        &mut db,
        &ctx,
        &created.user_id,
        &"goal-management".to_string(),
        true,
    )
    .expect("set grant should work");
    assert_eq!(granted.user_id, created.user_id);
    assert_eq!(granted.list_id, "goal-management");

    let grants = auth_grants(&db, &ctx).expect("load grants should work");
    assert!(grants
        .iter()
        .any(|grant| grant.user_id == created.user_id && grant.list_id == "goal-management"));
}

#[test]
fn created_member_can_login_with_member_password() {
    let mut db = setup_db();
    let ctx = admin_ctx();
    let created = auth_create_member(
        &mut db,
        &ctx,
        member_body("newmember@example.com", "New Member", "contributor", "memberpass123"),
    )
    .expect("create member should work");

    let login_response = do_login(&mut db, &created.email, "memberpass123")
        .expect("member login should work");
    assert_eq!(login_response.user_id, created.user_id);
}

#[test]
fn admin_create_member_rejects_short_password() {
    let mut db = setup_db();
    let ctx = admin_ctx();
    let result = auth_create_member(
        &mut db,
        &ctx,
        member_body("weakpass@example.com", "Weak Pass", "contributor", "short"),
    );
    assert_eq!(result.err(), Some(ApiError::BadRequest));
}

#[test]
fn create_member_rebinds_existing_email_and_rejects_duplicates() {
    let mut db = setup_db();
    let ctx = admin_ctx();
    // The email already belongs to a member of this space: conflict.
    let dup = auth_create_member(
        &mut db,
        &ctx,
        member_body("contrib@example.com", "Again", "contributor", "password123"),
    );
    assert_eq!(dup.err(), Some(ApiError::Conflict));

    // A user of another space is rebound without a fresh user row.
    seed_user(&mut db, user_row("u-outside", "outside@example.com", "Outside", None))
        .expect("insert outside user");
    let users_before = db.users.len();
    let rebound = auth_create_member(
        &mut db,
        &ctx,
        member_body("OUTSIDE@example.com", "Outside", "contributor", "password123"),
    )
    .expect("rebind should work");
    assert_eq!(rebound.user_id, "u-outside");
    assert_eq!(db.users.len(), users_before);
    // The blank password hash was filled so the user can sign in.
    let hash = db
        .users
        .iter()
        .find(|u| u.id == "u-outside")
        .and_then(|u| u.password_hash.clone())
        .expect("hash filled");
    assert!(hash.starts_with("$2"));
}

#[test]
fn create_member_rejects_unknown_role_literal() {
    let mut db = setup_db();
    let ctx = admin_ctx();
    let result = auth_create_member(
        &mut db,
        &ctx,
        member_body("other@example.com", "Other", "owner", "password123"),
    );
    assert_eq!(result.err(), Some(ApiError::BadRequest));
}

#[test]
fn admin_can_reset_member_password() {
    let mut db = setup_db();
    let ctx = admin_ctx();
    auth_set_member_password(
        &mut db,
        &ctx,
        &"u-contrib".to_string(),
        &"contrib-reset-pass".to_string(),
    )
    .expect("admin reset should work");

    let old_login = do_login(&mut db, "contrib@example.com", "test-pass");
    assert_eq!(old_login.err(), Some(ApiError::Unauthorized));

    let new_login = do_login(&mut db, "contrib@example.com", "contrib-reset-pass")
        .expect("contrib login with reset password should work");
    assert_eq!(new_login.user_id, "u-contrib");
}

#[test]
fn admin_can_delete_member() {
    let mut db = setup_db();
    let ctx = admin_ctx();
    auth_delete_member(&mut db, &ctx, &"u-contrib".to_string())
        .expect("delete member should work");
    let membership_count = db
        .memberships
        .iter()
        .filter(|m| m.space_id == "s1" && m.user_id == "u-contrib")
        .count();
    assert_eq!(membership_count, 0);
    // The member's grants go with it.
    assert!(db.grants.iter().all(|g| g.user_id != "u-contrib"));
}

#[test]
fn admin_cannot_delete_self() {
    let mut db = setup_db();
    let ctx = admin_ctx();
    let result = auth_delete_member(&mut db, &ctx, &"u-admin".to_string());
    assert_eq!(result.err(), Some(ApiError::BadRequest));
}

#[test]
fn last_admin_cannot_be_deleted() {
    let mut db = setup_db();
    let ctx = admin_ctx();
    // Promote the contributor, remove it again, then try to remove the last admin.
    seed_user(&mut db, user_row("u-second", "second@example.com", "Second", None))
        .expect("insert second");
    seed_membership(&mut db, MembershipRow {
        id: "m-second".to_string(),
        space_id: "s1".to_string(),
        user_id: "u-second".to_string(),
        role: Role::Admin,
    })
    .expect("insert second admin");
    // Two admins: deleting one is fine.
    auth_delete_member(&mut db, &ctx, &"u-second".to_string()).expect("delete second admin");
    // One admin left: a second admin cannot remove it, and it cannot remove itself.
    let second_ctx = Ctx {
        space_id: "s1".to_string(),
        user_id: "u-contrib".to_string(),
        role: Role::Contributor,
    };
    let result = auth_delete_member(&mut db, &second_ctx, &"u-admin".to_string());
    assert_eq!(result.err(), Some(ApiError::Forbidden));
    // Re-add an admin context belonging to another admin user to exercise the last-admin rule.
    seed_user(&mut db, user_row("u-third", "third@example.com", "Third", None))
        .expect("insert third");
    seed_membership(&mut db, MembershipRow {
        id: "m-third".to_string(),
        space_id: "s1".to_string(),
        user_id: "u-third".to_string(),
        role: Role::Contributor,
    })
    .expect("insert third membership");
    // u-admin is the sole admin: nobody may delete it.
    let result2 = auth_delete_member(&mut db, &ctx, &"u-admin".to_string());
    assert_eq!(result2.err(), Some(ApiError::BadRequest));
    let third_admin_view = db
        .memberships
        .iter()
        .filter(|m| m.space_id == "s1" && m.role == Role::Admin)
        .count();
    assert_eq!(third_admin_view, 1);
}

#[test]
fn contributor_cannot_manage_members_or_grants() {
    let mut db = setup_db();
    let ctx = contrib_ctx();

    let create_result = auth_create_member(
        &mut db,
        &ctx,
        member_body("blocked@example.com", "Blocked", "contributor", "password123"),
    );
    assert_eq!(create_result.err(), Some(ApiError::Forbidden));

    let reset_result = auth_set_member_password(
        &mut db,
        &ctx,
        &"u-admin".to_string(),
        &"blocked123".to_string(),
    );
    assert_eq!(reset_result.err(), Some(ApiError::Forbidden));

    let delete_result = auth_delete_member(&mut db, &ctx, &"u-admin".to_string());
    assert_eq!(delete_result.err(), Some(ApiError::Forbidden));

    let grant_result = auth_set_grant(
        &mut db,
        &ctx,
        &"u-contrib".to_string(),
        &"goal-management".to_string(),
        true,
    );
    assert_eq!(grant_result.err(), Some(ApiError::Forbidden));
}

#[test]
fn set_grant_is_idempotent_and_revocable() {
    let mut db = setup_db();
    let ctx = admin_ctx();
    let before = db.grants.len();
    auth_set_grant(&mut db, &ctx, &"u-contrib".to_string(), &"goal-management".to_string(), true)
        .expect("granting an existing grant is a no-op");
    assert_eq!(db.grants.len(), before);

    auth_set_grant(&mut db, &ctx, &"u-contrib".to_string(), &"goal-management".to_string(), false)
        .expect("revoke should work");
    assert_eq!(db.grants.len(), before - 1);

    auth_set_grant(&mut db, &ctx, &"u-contrib".to_string(), &"goal-management".to_string(), false)
        .expect("revoking a missing grant is a no-op");
    assert_eq!(db.grants.len(), before - 1);
}

#[test]
fn set_grant_rejects_admin_target_and_unknown_list() {
    let mut db = setup_db();
    let ctx = admin_ctx();
    assert_eq!(
        auth_set_grant(&mut db, &ctx, &"u-admin".to_string(), &"goal-management".to_string(), true)
            .err(),
        Some(ApiError::BadRequest),
    );
    assert_eq!(
        auth_set_grant(&mut db, &ctx, &"u-contrib".to_string(), &"missing".to_string(), true)
            .err(),
        Some(ApiError::NotFound),
    );
}

#[test]
fn members_listing_is_sorted_by_display() {
    let mut db = setup_db();
    let ctx = admin_ctx();
    let members = auth_members(&db, &ctx);
    let displays: Vec<&str> = members.iter().map(|m| m.display.as_str()).collect();
    assert_eq!(displays, vec!["Admin", "Contributor"]);
}
