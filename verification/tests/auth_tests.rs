use tasksync::domain::{seed_grant, seed_list, seed_membership, seed_space, seed_user};
use tasksync::domain::{Ctx, Db, GrantRow, ListRow, MembershipRow, Role, SpaceRow, UserRow};
use tasksync::domain::ApiError;
use tasksync::identity::{ctx_from_credentials, hash_password, login, password_meets_policy};
use tasksync::profile::{auth_change_password, auth_get_sound, auth_update_me, auth_update_sound};
use tasksync::profile::{normalize_avatar_icon, UpdateSoundBody};

fn user_row(id: &str, email: &str, display: &str, hash: Option<String>) -> UserRow {
    UserRow {
        id: id.to_string(),
        email: email.to_string(),
        display: display.to_string(),
        avatar_icon: None,
        password_hash: hash,
        sound_enabled: true,
        sound_volume: 60,
        sound_theme: "chime_soft".to_string(),
        custom_sound_file_id: None,
        custom_sound_file_name: None,
        custom_sound_data_url: None,
        profile_attachments: None,
    }
}

fn setup_db() -> Db {
    let mut db = Db::new();
    let hash = hash_password("test-pass").expect("hash test password");
    seed_space(&mut db, SpaceRow { id: "s1".to_string(), name: "Default".to_string() })
        .expect("insert space");
    seed_user(&mut db, user_row("u-admin", "admin@example.com", "Admin", Some(hash.clone())))
        .expect("insert user");
    seed_membership(&mut db, MembershipRow {
        id: "m-admin".to_string(),
        space_id: "s1".to_string(),
        user_id: "u-admin".to_string(),
        role: Role::Admin,
    })
    .expect("insert membership");
    seed_user(
        &mut db,
        user_row("u-contrib", "contrib@example.com", "Contributor", Some(hash)),
    )
    .expect("insert contributor");
    seed_membership(&mut db, MembershipRow {
        id: "m-contrib".to_string(),
        space_id: "s1".to_string(),
        user_id: "u-contrib".to_string(),
        role: Role::Contributor,
    })
    .expect("insert contributor membership");
    seed_list(&mut db, ListRow {
        id: "goal-management".to_string(),
        space_id: "s1".to_string(),
        name: "Goal Management".to_string(),
        icon: None,
        color: None,
        list_order: "a".to_string(),
    })
    .expect("insert list");
    seed_grant(&mut db, GrantRow {
        id: "g-contrib-goal".to_string(),
        space_id: "s1".to_string(),
        list_id: "goal-management".to_string(),
        user_id: "u-contrib".to_string(),
    })
    .expect("insert grant");
    db
}

fn admin_ctx() -> Ctx {
    Ctx { space_id: "s1".to_string(), user_id: "u-admin".to_string(), role: Role::Admin }
}

fn do_login(db: &mut Db, email: &str, password: &str) -> Result<
    tasksync::identity::LoginResponse,
    ApiError,
> {
    login(
        db,
        &email.to_string(),
        &password.to_string(),
        Some(&"s1".to_string()),
        &"test-pass".to_string(),
        &"test-secret".to_string(),
        tasksync::identity::unix_now_secs(),
    )
}

#[test]
fn login_returns_token_for_valid_credentials() {
    let mut db = setup_db();
    let response = do_login(&mut db, "admin@example.com", "test-pass")
        .expect("login should succeed");
    assert!(!response.token.is_empty());

    let bearer = format!("Bearer {}", response.token);
    let ctx = ctx_from_credentials(
        &db,
        Some(&bearer),
        &"test-secret".to_string(),
        None,
        None,
    )
    .expect("ctx");
    assert_eq!(ctx.user_id, "u-admin");
    assert_eq!(ctx.space_id, "s1");
    assert_eq!(ctx.role, Role::Admin);
}

#[test]
fn login_rejects_invalid_password() {
    let mut db = setup_db();
    let result = do_login(&mut db, "admin@example.com", "wrong");
    assert_eq!(result.err(), Some(ApiError::Unauthorized));
}

#[test]
fn login_supports_legacy_password_and_upgrades_hash() {
    let mut db = setup_db();
    for u in db.users.iter_mut() {
        if u.id == "u-admin" {
            u.password_hash = None;
        }
    }
    let response = do_login(&mut db, "admin@example.com", "test-pass")
        .expect("login should succeed");
    assert!(!response.token.is_empty());

    let upgraded_hash = db
        .users
        .iter()
        .find(|u| u.id == "u-admin")
        .and_then(|u| u.password_hash.clone());
    assert!(upgraded_hash.as_deref().map(|value| value.starts_with("$2")).unwrap_or(false));
}

#[test]
fn login_matches_email_case_insensitively() {
    let mut db = setup_db();
    let response = do_login(&mut db, "ADMIN@Example.COM", "test-pass")
        .expect("login should match regardless of case");
    assert_eq!(response.user_id, "u-admin");
}

#[test]
fn login_trims_credentials() {
    let mut db = setup_db();
    let response = do_login(&mut db, "  admin@example.com  ", "  test-pass  ")
        .expect("login should trim email and password");
    assert_eq!(response.user_id, "u-admin");
}

#[test]
fn bearer_with_garbage_token_is_rejected() {
    let db = setup_db();
    let bearer = "Bearer not.a.token".to_string();
    let result = ctx_from_credentials(&db, Some(&bearer), &"test-secret".to_string(), None, None);
    assert_eq!(result.err(), Some(ApiError::Unauthorized));
}

#[test]
fn header_fallback_requires_membership() {
    let db = setup_db();
    let ctx = ctx_from_credentials(
        &db,
        None,
        &"test-secret".to_string(),
        Some(&"s1".to_string()),
        Some(&"u-contrib".to_string()),
    )
    .expect("contributor headers resolve");
    assert_eq!(ctx.role, Role::Contributor);

    let result = ctx_from_credentials(
        &db,
        None,
        &"test-secret".to_string(),
        Some(&"s1".to_string()),
        Some(&"u-nobody".to_string()),
    );
    assert_eq!(result.err(), Some(ApiError::Unauthorized));
}

#[test]
fn update_profile_sets_avatar_icon() {
    let mut db = setup_db();
    let ctx = admin_ctx();
    let updated = auth_update_me(
        &mut db,
        &ctx,
        Some("Admin Prime".to_string()),
        Some("".to_string()),
    )
    .expect("update profile should work");
    assert_eq!(updated.display, "Admin Prime");
    // A blank avatar clears the stored icon.
    assert_eq!(updated.avatar_icon, None);
}

#[test]
fn normalize_avatar_icon_keeps_four_characters() {
    assert_eq!(normalize_avatar_icon(None), None);
    assert_eq!(normalize_avatar_icon(Some("   ".to_string())), None);
    assert_eq!(normalize_avatar_icon(Some(" abcdef ".to_string())), Some("abcd".to_string()));
    assert_eq!(normalize_avatar_icon(Some("ab".to_string())), Some("ab".to_string()));
}

#[test]
fn user_can_update_and_clear_sound_settings() {
    let mut db = setup_db();
    let ctx = admin_ctx();

    let defaults = auth_get_sound(&db, &ctx).expect("sound defaults should load");
    assert_eq!(defaults.theme, "chime_soft");
    assert_eq!(defaults.volume, 60);
    assert!(defaults.enabled);

    let updated = auth_update_sound(&mut db, &ctx, UpdateSoundBody {
        enabled: Some(false),
        volume: Some(23),
        theme: Some("wood_tick".to_string()),
        custom_sound_file_id: Some("snd-1".to_string()),
        custom_sound_file_name: Some("ding.wav".to_string()),
        custom_sound_data_url: Some("data:audio/wav;base64,AAAA".to_string()),
        profile_attachments_json: Some("[{\"id\":\"att-1\"}]".to_string()),
        clear_custom_sound: Some(false),
    })
    .expect("update sound should work");
    assert!(!updated.enabled);
    assert_eq!(updated.volume, 23);
    assert_eq!(updated.theme, "wood_tick");
    assert_eq!(updated.custom_sound_file_name.as_deref(), Some("ding.wav"));
    assert_eq!(updated.custom_sound_data_url.as_deref(), Some("data:audio/wav;base64,AAAA"));
    assert_eq!(updated.profile_attachments_json.as_deref(), Some("[{\"id\":\"att-1\"}]"));

    let cleared = auth_update_sound(&mut db, &ctx, UpdateSoundBody {
        enabled: None,
        volume: None,
        theme: None,
        custom_sound_file_id: None,
        custom_sound_file_name: None,
        custom_sound_data_url: None,
        profile_attachments_json: None,
        clear_custom_sound: Some(true),
    })
    .expect("clear custom sound should work");
    assert_eq!(cleared.custom_sound_file_id, None);
    assert_eq!(cleared.custom_sound_file_name, None);
    assert_eq!(cleared.custom_sound_data_url, None);
    assert_eq!(cleared.profile_attachments_json.as_deref(), Some("[{\"id\":\"att-1\"}]"));
}

#[test]
fn sound_update_rejects_unknown_theme_and_bad_payloads() {
    let mut db = setup_db();
    let ctx = admin_ctx();
    let body = |theme: Option<&str>, url: Option<&str>, json: Option<&str>| UpdateSoundBody {
        enabled: None,
        volume: None,
        theme: theme.map(|s| s.to_string()),
        custom_sound_file_id: None,
        custom_sound_file_name: None,
        custom_sound_data_url: url.map(|s| s.to_string()),
        profile_attachments_json: json.map(|s| s.to_string()),
        clear_custom_sound: None,
    };
    assert_eq!(
        auth_update_sound(&mut db, &ctx, body(Some("airhorn"), None, None)).err(),
        Some(ApiError::BadRequest),
    );
    assert_eq!(
        auth_update_sound(&mut db, &ctx, body(None, Some("data:video/mp4;AAAA"), None)).err(),
        Some(ApiError::BadRequest),
    );
    assert_eq!(
        auth_update_sound(&mut db, &ctx, body(None, None, Some("{not json"))).err(),
        Some(ApiError::BadRequest),
    );
}

#[test]
fn sound_volume_is_clamped() {
    let mut db = setup_db();
    let ctx = admin_ctx();
    let updated = auth_update_sound(&mut db, &ctx, UpdateSoundBody {
        enabled: None,
        volume: Some(1000),
        theme: None,
        custom_sound_file_id: None,
        custom_sound_file_name: None,
        custom_sound_data_url: None,
        profile_attachments_json: None,
        clear_custom_sound: None,
    })
    .expect("update sound should work");
    assert_eq!(updated.volume, 100);
}

#[test]
fn user_can_change_password_and_login_with_new_password() {
    let mut db = setup_db();
    let ctx = admin_ctx();
    auth_change_password(
        &mut db,
        &ctx,
        &"test-pass".to_string(),
        &"new-test-pass".to_string(),
        &"test-pass".to_string(),
    )
    .expect("change password should work");

    let old_login = do_login(&mut db, "admin@example.com", "test-pass");
    assert_eq!(old_login.err(), Some(ApiError::Unauthorized));

    let new_login = do_login(&mut db, "admin@example.com", "new-test-pass")
        .expect("new password login should work");
    assert_eq!(new_login.user_id, "u-admin");
}

#[test]
fn change_password_rejects_wrong_current_password() {
    let mut db = setup_db();
    let ctx = admin_ctx();
    let result = auth_change_password(
        &mut db,
        &ctx,
        &"wrong-pass".to_string(),
        &"new-test-pass".to_string(),
        &"test-pass".to_string(),
    );
    assert_eq!(result.err(), Some(ApiError::Unauthorized));
}

#[test]
fn password_policy_requires_eight_characters() {
    assert!(!password_meets_policy("short"));
    assert!(!password_meets_policy("  1234567  "));
    assert!(password_meets_policy("12345678"));
    assert!(password_meets_policy("  12345678  "));
}
