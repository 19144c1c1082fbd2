//! The caller's own profile: identity card, display and avatar updates,
//! password change, and notification sound settings.

use vstd::prelude::*;
use vstd::string::StrSliceExecFns;
use crate::domain::{ApiError, Ctx, Db, MemberInfo, UserRow};
use crate::domain::{clone_opt_string, ctx_ok, find_user, replace_at, user_at, user_exists};
use crate::domain::{admin_covered, lemma_user_at, lemma_wf_users_patch, unique_users, wf};
use crate::identity::{hash_password, password_matches_for_user, password_matches_spec};
use crate::identity::{password_policy_ok, password_meets_policy, same_but_hash, verify_of};
use crate::strutil::{is_json, json_is_valid, str_eq, trim_of, trim_str, view_opt};

verus! {

broadcast use vstd::string::group_string_axioms;

/// The caller's identity card: the user row joined with the caller's
/// membership.
pub open spec fn my_info_ok(db: Db, ctx: Ctx, m: MemberInfo) -> bool {
    let u = db.users@[user_at(db, ctx.user_id@)];
    &&& m.user_id@ == u.id@
    &&& m.email@ == u.email@
    &&& m.display@ == u.display@
    &&& view_opt(m.avatar_icon) == view_opt(u.avatar_icon)
    &&& m.space_id@ == ctx.space_id@
    &&& m.role == ctx.role
}

/// Returns the caller's identity card.  The role is the one resolved fresh
/// from the membership table when the context was built.
pub fn auth_me(db: &Db, ctx: &Ctx) -> (r: Result<MemberInfo, ApiError>)
    requires
        unique_users(db.users@),
        ctx_ok(*db, *ctx),
    ensures
        user_exists(*db, ctx.user_id@) ==> (r matches Ok(m) && my_info_ok(*db, *ctx, m)),
        !user_exists(*db, ctx.user_id@) ==> r == Err::<MemberInfo, ApiError>(
            ApiError::Unauthorized,
        ),
{
    match find_user(db, &ctx.user_id) {
        Some(i) => {
            proof {
                lemma_user_at(*db, i as int);
            }
            Ok(MemberInfo {
                user_id: db.users[i].id.clone(),
                email: db.users[i].email.clone(),
                display: db.users[i].display.clone(),
                avatar_icon: clone_opt_string(&db.users[i].avatar_icon),
                space_id: ctx.space_id.clone(),
                role: ctx.role,
            })
        },
        None => Err(ApiError::Unauthorized),
    }
}

/// The avatar icon an update stores: the trimmed value cut to four
/// characters, or nothing when the trimmed value is empty.
pub open spec fn normalized_avatar_spec(raw: Option<String>) -> Option<Seq<char>> {
    match raw {
        Option::None => None,
        Option::Some(v) => {
            let t = trim_of(v@);
            if t.len() == 0 {
                None
            } else if t.len() <= 4 {
                Some(t)
            } else {
                Some(t.subrange(0, 4))
            }
        },
    }
}

/// Trims an avatar icon and keeps at most its first four characters.
pub fn normalize_avatar_icon(raw: Option<String>) -> (r: Option<String>)
    ensures
        view_opt(r) == normalized_avatar_spec(raw),
{
    match raw {
        None => None,
        Some(v) => {
            let t = trim_str(v.as_str());
            let n = t.unicode_len();
            if n == 0 {
                None
            } else if n <= 4 {
                Some(t.to_owned())
            } else {
                proof {
                    assert(t@.subrange(0, 4) =~= trim_of(v@).subrange(0, 4));
                }
                Some(t.substring_char(0, 4).to_owned())
            }
        },
    }
}

/// The user row after a profile update: `display` replaced by its trimmed
/// value when one was supplied and non-blank, the avatar icon cleared or
/// normalized when one was supplied, everything else untouched.
pub open spec fn profile_patch_ok(
    u: UserRow,
    v: UserRow,
    display: Option<String>,
    avatar_icon: Option<String>,
) -> bool {
    &&& v == (UserRow { display: v.display, avatar_icon: v.avatar_icon, ..u })
    &&& v.display@ == (match display {
        Option::Some(d) => if trim_of(d@).len() > 0 {
            trim_of(d@)
        } else {
            u.display@
        },
        Option::None => u.display@,
    })
    &&& view_opt(v.avatar_icon) == (match avatar_icon {
        Option::Some(_) => normalized_avatar_spec(avatar_icon),
        Option::None => view_opt(u.avatar_icon),
    })
}

/// Updates the caller's display name and avatar icon with coalesce
/// semantics: an absent field keeps the stored value, a blank avatar clears
/// it.
pub fn auth_update_me(
    db: &mut Db,
    ctx: &Ctx,
    display: Option<String>,
    avatar_icon: Option<String>,
) -> (r: Result<MemberInfo, ApiError>)
    requires
        wf(*old(db)),
        ctx_ok(*old(db), *ctx),
    ensures
        wf(*final(db)),
        admin_covered(*old(db)) ==> admin_covered(*final(db)),
        final(db).spaces@ == old(db).spaces@,
        final(db).memberships@ == old(db).memberships@,
        final(db).lists@ == old(db).lists@,
        final(db).grants@ == old(db).grants@,
        final(db).tasks@ == old(db).tasks@,
        !user_exists(*old(db), ctx.user_id@) ==> (final(db).users@ == old(db).users@
            && r == Err::<MemberInfo, ApiError>(ApiError::Unauthorized)),
        user_exists(*old(db), ctx.user_id@) ==> {
            let i = user_at(*old(db), ctx.user_id@);
            &&& final(db).users@.len() == old(db).users@.len()
            &&& (forall|j: int| 0 <= j < old(db).users@.len() && j != i
                ==> final(db).users@[j] == old(db).users@[j])
            &&& profile_patch_ok(old(db).users@[i], final(db).users@[i], display, avatar_icon)
            &&& (r matches Ok(m) && my_info_ok(*final(db), *ctx, m))
        },
{
    let i = match find_user(&*db, &ctx.user_id) {
        Some(i) => i,
        None => {
            return Err(ApiError::Unauthorized);
        },
    };
    proof {
        lemma_user_at(*db, i as int);
    }
    let mut u2 = db.users[i].clone();
    match &display {
        Some(d) => {
            let t = trim_str(d.as_str());
            if t.unicode_len() > 0 {
                u2.display = t.to_owned();
            }
        },
        None => {},
    }
    match &avatar_icon {
        Some(_) => {
            u2.avatar_icon = normalize_avatar_icon(avatar_icon_clone(&avatar_icon));
        },
        None => {},
    }
    replace_at(&mut db.users, i, u2);
    proof {
        lemma_wf_users_patch(*old(db), *db);
        lemma_user_at(*db, i as int);
    }
    Ok(MemberInfo {
        user_id: db.users[i].id.clone(),
        email: db.users[i].email.clone(),
        display: db.users[i].display.clone(),
        avatar_icon: clone_opt_string(&db.users[i].avatar_icon),
        space_id: ctx.space_id.clone(),
        role: ctx.role,
    })
}

/// Clones an optional avatar value.
fn avatar_icon_clone(a: &Option<String>) -> (r: Option<String>)
    ensures
        r == *a,
{
    clone_opt_string(a)
}

/// Changes the caller's password after checking the current one; the new
/// password must satisfy the policy.
pub fn auth_change_password(
    db: &mut Db,
    ctx: &Ctx,
    current_password: &String,
    new_password: &String,
    login_password: &String,
) -> (r: Result<(), ApiError>)
    requires
        wf(*old(db)),
        ctx_ok(*old(db), *ctx),
    ensures
        wf(*final(db)),
        admin_covered(*old(db)) ==> admin_covered(*final(db)),
        final(db).spaces@ == old(db).spaces@,
        final(db).memberships@ == old(db).memberships@,
        final(db).lists@ == old(db).lists@,
        final(db).grants@ == old(db).grants@,
        final(db).tasks@ == old(db).tasks@,
        final(db).users@.len() == old(db).users@.len(),
        (trim_of(current_password@).len() == 0 || !password_policy_ok(new_password@)) ==> (r
            == Err::<(), ApiError>(ApiError::BadRequest) && final(db).users@ == old(db).users@),
        (trim_of(current_password@).len() > 0 && password_policy_ok(new_password@)) ==> {
            let outcome = password_matches_spec(
                *old(db),
                ctx.user_id@,
                trim_of(current_password@),
                login_password@,
            );
            &&& (outcome == Some(false) ==> (r == Err::<(), ApiError>(ApiError::Unauthorized)
                && final(db).users@ == old(db).users@))
            &&& (outcome is None ==> (r == Err::<(), ApiError>(ApiError::Internal)
                && final(db).users@ == old(db).users@))
            &&& (outcome == Some(true) && !user_exists(*old(db), ctx.user_id@) ==> (r == Ok::<
                (),
                ApiError,
            >(()) && final(db).users@ == old(db).users@))
            &&& (outcome == Some(true) && user_exists(*old(db), ctx.user_id@) ==> {
                let i = user_at(*old(db), ctx.user_id@);
                &&& (r matches Ok(u) ==> (forall|j: int| 0 <= j < old(db).users@.len() && j != i
                    ==> final(db).users@[j] == old(db).users@[j])
                    && same_but_hash(old(db).users@[i], final(db).users@[i])
                    && (match final(db).users@[i].password_hash {
                        Option::Some(h) => verify_of(trim_of(new_password@), h@) == Some(true),
                        Option::None => false,
                    }))
                &&& (r is Err ==> r == Err::<(), ApiError>(ApiError::Internal))
            })
        },
{
    let cur = trim_str(current_password.as_str());
    let nw = trim_str(new_password.as_str());
    if cur.unicode_len() == 0 || !password_meets_policy(new_password.as_str()) {
        return Err(ApiError::BadRequest);
    }
    let ok = match password_matches_for_user(&*db, &ctx.user_id, cur, login_password.as_str()) {
        Ok(b) => b,
        Err(e) => {
            return Err(e);
        },
    };
    if !ok {
        return Err(ApiError::Unauthorized);
    }
    let i = match find_user(&*db, &ctx.user_id) {
        Some(i) => i,
        None => {
            return Ok(());
        },
    };
    proof {
        lemma_user_at(*db, i as int);
    }
    let new_hash = match hash_password(nw) {
        Ok(h) => h,
        Err(e) => {
            return Err(e);
        },
    };
    proof {
        assert(nw@ == trim_of(new_password@));
    }
    let mut u2 = db.users[i].clone();
    u2.password_hash = Some(new_hash);
    replace_at(&mut db.users, i, u2);
    proof {
        lemma_wf_users_patch(*old(db), *db);
    }
    Ok(())
}

/// The eight fixed sound theme names.
pub open spec fn is_sound_theme(s: Seq<char>) -> bool {
    ||| s == "chime_soft"@
    ||| s == "click_pop"@
    ||| s == "sparkle_short"@
    ||| s == "wood_tick"@
    ||| s == "bell_crisp"@
    ||| s == "marimba_blip"@
    ||| s == "pulse_soft"@
    ||| s == "custom_file"@
}

/// Validates a sound theme: absent stays absent, a blank or unknown name is
/// rejected, a known name is kept trimmed.
pub fn normalize_sound_theme(raw: Option<String>) -> (r: Result<Option<String>, ApiError>)
    ensures
        match raw {
            Option::None => r == Ok::<Option<String>, ApiError>(None),
            Option::Some(v) => {
                let t = trim_of(v@);
                &&& (t.len() == 0 || !is_sound_theme(t)) ==> r == Err::<Option<String>, ApiError>(
                    ApiError::BadRequest,
                )
                &&& (t.len() > 0 && is_sound_theme(t)) ==> (r matches Ok(o) && o matches Some(s)
                    && s@ == t)
            },
        },
{
    let value = match raw {
        None => {
            return Ok(None);
        },
        Some(v) => v,
    };
    let t = trim_str(value.as_str());
    if t.unicode_len() == 0 {
        return Err(ApiError::BadRequest);
    }
    if str_eq(t, "chime_soft") || str_eq(t, "click_pop") || str_eq(t, "sparkle_short")
        || str_eq(t, "wood_tick") || str_eq(t, "bell_crisp") || str_eq(t, "marimba_blip")
        || str_eq(t, "pulse_soft") || str_eq(t, "custom_file") {
        return Ok(Some(t.to_owned()));
    }
    Err(ApiError::BadRequest)
}

/// Validates a custom sound file name or id: blank clears it, more than 180
/// characters is rejected, anything else is kept trimmed.
pub fn normalize_sound_file_name(raw: Option<String>) -> (r: Result<Option<String>, ApiError>)
    ensures
        match raw {
            Option::None => r == Ok::<Option<String>, ApiError>(None),
            Option::Some(v) => {
                let t = trim_of(v@);
                &&& t.len() == 0 ==> r == Ok::<Option<String>, ApiError>(None)
                &&& t.len() > 180 ==> r == Err::<Option<String>, ApiError>(ApiError::BadRequest)
                &&& (0 < t.len() <= 180) ==> (r matches Ok(o) && o matches Some(s) && s@ == t)
            },
        },
{
    let value = match raw {
        None => {
            return Ok(None);
        },
        Some(v) => v,
    };
    let t = trim_str(value.as_str());
    if t.unicode_len() == 0 {
        return Ok(None);
    }
    if t.unicode_len() > 180 {
        return Err(ApiError::BadRequest);
    }
    Ok(Some(t.to_owned()))
}

/// The value opens with the `data:audio/` scheme.
pub open spec fn is_audio_data_url(t: Seq<char>) -> bool {
    t.len() >= 11 && t.subrange(0, 11) == "data:audio/"@
}

/// Validates a custom sound payload: blank clears it, it must be a
/// `data:audio/` URL of at most 3,000,000 characters.
pub fn normalize_sound_data_url(raw: Option<String>) -> (r: Result<Option<String>, ApiError>)
    ensures
        match raw {
            Option::None => r == Ok::<Option<String>, ApiError>(None),
            Option::Some(v) => {
                let t = trim_of(v@);
                &&& t.len() == 0 ==> r == Ok::<Option<String>, ApiError>(None)
                &&& (t.len() > 0 && !is_audio_data_url(t)) ==> r == Err::<Option<String>, ApiError>(
                    ApiError::BadRequest,
                )
                &&& (is_audio_data_url(t) && t.len() > 3000000) ==> r == Err::<
                    Option<String>,
                    ApiError,
                >(ApiError::BadRequest)
                &&& (is_audio_data_url(t) && 0 < t.len() <= 3000000) ==> (r matches Ok(o)
                    && o matches Some(s) && s@ == t)
            },
        },
{
    proof {
        reveal_strlit("data:audio/");
        assert("data:audio/"@.len() == 11);
    }
    let value = match raw {
        None => {
            return Ok(None);
        },
        Some(v) => v,
    };
    let t = trim_str(value.as_str());
    let n = t.unicode_len();
    if n == 0 {
        return Ok(None);
    }
    if n < 11 {
        return Err(ApiError::BadRequest);
    }
    let pre = t.substring_char(0, 11);
    if !str_eq(pre, "data:audio/") {
        return Err(ApiError::BadRequest);
    }
    if n > 3000000 {
        return Err(ApiError::BadRequest);
    }
    Ok(Some(t.to_owned()))
}

/// Validates an opaque profile attachment payload: blank clears it, it must
/// be JSON of at most 120,000 characters.
pub fn normalize_profile_attachments(raw: Option<String>) -> (r: Result<Option<String>, ApiError>)
    ensures
        match raw {
            Option::None => r == Ok::<Option<String>, ApiError>(None),
            Option::Some(v) => {
                let t = trim_of(v@);
                &&& t.len() == 0 ==> r == Ok::<Option<String>, ApiError>(None)
                &&& t.len() > 120000 ==> r == Err::<Option<String>, ApiError>(ApiError::BadRequest)
                &&& (0 < t.len() <= 120000 && !is_json(t)) ==> r == Err::<Option<String>, ApiError>(
                    ApiError::BadRequest,
                )
                &&& (0 < t.len() <= 120000 && is_json(t)) ==> (r matches Ok(o) && o matches Some(s)
                    && s@ == t)
            },
        },
{
    let value = match raw {
        None => {
            return Ok(None);
        },
        Some(v) => v,
    };
    let t = trim_str(value.as_str());
    if t.unicode_len() == 0 {
        return Ok(None);
    }
    if t.unicode_len() > 120000 {
        return Err(ApiError::BadRequest);
    }
    if !json_is_valid(t) {
        return Err(ApiError::BadRequest);
    }
    Ok(Some(t.to_owned()))
}

/// The caller's notification sound settings.
#[derive(PartialEq, Eq, Debug)]
pub struct SoundSettings {
    pub enabled: bool,
    pub volume: i64,
    pub theme: String,
    pub custom_sound_file_id: Option<String>,
    pub custom_sound_file_name: Option<String>,
    pub custom_sound_data_url: Option<String>,
    pub profile_attachments_json: Option<String>,
}

/// The settings mirror the user row.
pub open spec fn sound_settings_ok(u: UserRow, s: SoundSettings) -> bool {
    &&& s.enabled == u.sound_enabled
    &&& s.volume == u.sound_volume
    &&& s.theme@ == u.sound_theme@
    &&& view_opt(s.custom_sound_file_id) == view_opt(u.custom_sound_file_id)
    &&& view_opt(s.custom_sound_file_name) == view_opt(u.custom_sound_file_name)
    &&& view_opt(s.custom_sound_data_url) == view_opt(u.custom_sound_data_url)
    &&& view_opt(s.profile_attachments_json) == view_opt(u.profile_attachments)
}

/// Reads the caller's sound settings off the user row.
fn sound_settings_of_row(u: &UserRow) -> (s: SoundSettings)
    ensures
        sound_settings_ok(*u, s),
{
    SoundSettings {
        enabled: u.sound_enabled,
        volume: u.sound_volume,
        theme: u.sound_theme.clone(),
        custom_sound_file_id: clone_opt_string(&u.custom_sound_file_id),
        custom_sound_file_name: clone_opt_string(&u.custom_sound_file_name),
        custom_sound_data_url: clone_opt_string(&u.custom_sound_data_url),
        profile_attachments_json: clone_opt_string(&u.profile_attachments),
    }
}

/// Returns the caller's sound settings.
pub fn auth_get_sound(db: &Db, ctx: &Ctx) -> (r: Result<SoundSettings, ApiError>)
    requires
        unique_users(db.users@),
        ctx_ok(*db, *ctx),
    ensures
        user_exists(*db, ctx.user_id@) ==> (r matches Ok(s) && sound_settings_ok(
            db.users@[user_at(*db, ctx.user_id@)],
            s,
        )),
        !user_exists(*db, ctx.user_id@) ==> r == Err::<SoundSettings, ApiError>(
            ApiError::Unauthorized,
        ),
{
    match find_user(db, &ctx.user_id) {
        Some(i) => {
            proof {
                lemma_user_at(*db, i as int);
            }
            Ok(sound_settings_of_row(&db.users[i]))
        },
        None => Err(ApiError::Unauthorized),
    }
}

/// A sound settings update; an absent field keeps the stored value.
pub struct UpdateSoundBody {
    pub enabled: Option<bool>,
    pub volume: Option<i64>,
    pub theme: Option<String>,
    pub custom_sound_file_id: Option<String>,
    pub custom_sound_file_name: Option<String>,
    pub custom_sound_data_url: Option<String>,
    pub profile_attachments_json: Option<String>,
    pub clear_custom_sound: Option<bool>,
}

/// A volume forced into the 0..100 range.
pub open spec fn clamp_volume(v: int) -> int {
    if v < 0 {
        0
    } else if v > 100 {
        100
    } else {
        v
    }
}

/// A supplied file name is invalid when its trimmed form is too long.
pub open spec fn bad_file_name(raw: Option<String>) -> bool {
    match raw {
        Option::Some(v) => trim_of(v@).len() > 180,
        Option::None => false,
    }
}

/// A supplied sound update is rejected when the theme is blank or unknown,
/// a custom sound field is invalid while not being cleared, or the
/// attachments are oversized or not JSON.
pub open spec fn sound_body_invalid(body: UpdateSoundBody) -> bool {
    let clear = body.clear_custom_sound == Some(true);
    ||| (match body.theme {
        Option::Some(v) => trim_of(v@).len() == 0 || !is_sound_theme(trim_of(v@)),
        Option::None => false,
    })
    ||| (!clear && bad_file_name(body.custom_sound_file_id))
    ||| (!clear && bad_file_name(body.custom_sound_file_name))
    ||| (!clear && (match body.custom_sound_data_url {
        Option::Some(v) => {
            let t = trim_of(v@);
            t.len() > 0 && (!is_audio_data_url(t) || t.len() > 3000000)
        },
        Option::None => false,
    }))
    ||| (match body.profile_attachments_json {
        Option::Some(v) => {
            let t = trim_of(v@);
            t.len() > 120000 || (t.len() > 0 && !is_json(t))
        },
        Option::None => false,
    })
}

/// The cleared-or-normalized value a custom sound field takes.
pub open spec fn custom_field_next(
    clear: bool,
    raw: Option<String>,
    current: Option<String>,
) -> Option<Seq<char>> {
    if clear {
        None
    } else {
        match raw {
            Option::Some(v) => if trim_of(v@).len() == 0 {
                None
            } else {
                Some(trim_of(v@))
            },
            Option::None => view_opt(current),
        }
    }
}

/// The user row after a valid sound update.
pub open spec fn sound_patch_ok(u: UserRow, v: UserRow, body: UpdateSoundBody) -> bool {
    let clear = body.clear_custom_sound == Some(true);
    &&& v == (UserRow {
        sound_enabled: v.sound_enabled,
        sound_volume: v.sound_volume,
        sound_theme: v.sound_theme,
        custom_sound_file_id: v.custom_sound_file_id,
        custom_sound_file_name: v.custom_sound_file_name,
        custom_sound_data_url: v.custom_sound_data_url,
        profile_attachments: v.profile_attachments,
        ..u
    })
    &&& v.sound_enabled == (match body.enabled {
        Option::Some(b) => b,
        Option::None => u.sound_enabled,
    })
    &&& v.sound_volume as int == (match body.volume {
        Option::Some(x) => clamp_volume(x as int),
        Option::None => clamp_volume(u.sound_volume as int),
    })
    &&& v.sound_theme@ == (match body.theme {
        Option::Some(t) => trim_of(t@),
        Option::None => u.sound_theme@,
    })
    &&& view_opt(v.custom_sound_file_id) == custom_field_next(
        clear,
        body.custom_sound_file_id,
        u.custom_sound_file_id,
    )
    &&& view_opt(v.custom_sound_file_name) == custom_field_next(
        clear,
        body.custom_sound_file_name,
        u.custom_sound_file_name,
    )
    &&& view_opt(v.custom_sound_data_url) == custom_field_next(
        clear,
        body.custom_sound_data_url,
        u.custom_sound_data_url,
    )
    &&& view_opt(v.profile_attachments) == (match body.profile_attachments_json {
        Option::Some(w) => if trim_of(w@).len() == 0 {
            None
        } else {
            Some(trim_of(w@))
        },
        Option::None => view_opt(u.profile_attachments),
    })
}

/// Updates the caller's sound settings with coalesce semantics.  Values are
/// validated and clamped; `clear_custom_sound` forces the three custom sound
/// fields to empty.
pub fn auth_update_sound(db: &mut Db, ctx: &Ctx, body: UpdateSoundBody) -> (r: Result<
    SoundSettings,
    ApiError,
>)
    requires
        wf(*old(db)),
        ctx_ok(*old(db), *ctx),
    ensures
        wf(*final(db)),
        admin_covered(*old(db)) ==> admin_covered(*final(db)),
        final(db).spaces@ == old(db).spaces@,
        final(db).memberships@ == old(db).memberships@,
        final(db).lists@ == old(db).lists@,
        final(db).grants@ == old(db).grants@,
        final(db).tasks@ == old(db).tasks@,
        !user_exists(*old(db), ctx.user_id@) ==> (final(db).users@ == old(db).users@
            && r == Err::<SoundSettings, ApiError>(ApiError::Unauthorized)),
        (user_exists(*old(db), ctx.user_id@) && sound_body_invalid(body)) ==> (final(db).users@
            == old(db).users@ && r == Err::<SoundSettings, ApiError>(ApiError::BadRequest)),
        (user_exists(*old(db), ctx.user_id@) && !sound_body_invalid(body)) ==> {
            let i = user_at(*old(db), ctx.user_id@);
            &&& final(db).users@.len() == old(db).users@.len()
            &&& (forall|j: int| 0 <= j < old(db).users@.len() && j != i
                ==> final(db).users@[j] == old(db).users@[j])
            &&& sound_patch_ok(old(db).users@[i], final(db).users@[i], body)
            &&& (r matches Ok(s) && sound_settings_ok(final(db).users@[i], s))
        },
{
    let i = match find_user(&*db, &ctx.user_id) {
        Some(i) => i,
        None => {
            return Err(ApiError::Unauthorized);
        },
    };
    proof {
        lemma_user_at(*db, i as int);
    }
    let clear = match body.clear_custom_sound {
        Some(b) => b,
        None => false,
    };
    let next_theme = match normalize_sound_theme(body.theme) {
        Ok(t) => t,
        Err(e) => {
            return Err(e);
        },
    };
    let next_file_id = if clear {
        None
    } else {
        match body.custom_sound_file_id {
            Some(v) => match normalize_sound_file_name(Some(v)) {
                Ok(x) => x,
                Err(e) => {
                    return Err(e);
                },
            },
            None => clone_opt_string(&db.users[i].custom_sound_file_id),
        }
    };
    let next_file_name = if clear {
        None
    } else {
        match body.custom_sound_file_name {
            Some(v) => match normalize_sound_file_name(Some(v)) {
                Ok(x) => x,
                Err(e) => {
                    return Err(e);
                },
            },
            None => clone_opt_string(&db.users[i].custom_sound_file_name),
        }
    };
    let next_data_url = if clear {
        None
    } else {
        match body.custom_sound_data_url {
            Some(v) => match normalize_sound_data_url(Some(v)) {
                Ok(x) => x,
                Err(e) => {
                    return Err(e);
                },
            },
            None => clone_opt_string(&db.users[i].custom_sound_data_url),
        }
    };
    let next_attachments = match body.profile_attachments_json {
        Some(v) => match normalize_profile_attachments(Some(v)) {
            Ok(x) => x,
            Err(e) => {
                return Err(e);
            },
        },
        None => clone_opt_string(&db.users[i].profile_attachments),
    };
    let mut u2 = db.users[i].clone();
    u2.sound_enabled = match body.enabled {
        Some(b) => b,
        None => u2.sound_enabled,
    };
    let vol_in: i64 = match body.volume {
        Some(x) => x,
        None => u2.sound_volume,
    };
    u2.sound_volume = if vol_in < 0 {
        0
    } else if vol_in > 100 {
        100
    } else {
        vol_in
    };
    u2.sound_theme = match next_theme {
        Some(t) => t,
        None => u2.sound_theme,
    };
    u2.custom_sound_file_id = next_file_id;
    u2.custom_sound_file_name = next_file_name;
    u2.custom_sound_data_url = next_data_url;
    u2.profile_attachments = next_attachments;
    let settings = sound_settings_of_row(&u2);
    replace_at(&mut db.users, i, u2);
    proof {
        lemma_wf_users_patch(*old(db), *db);
    }
    Ok(settings)
}

} // verus!
