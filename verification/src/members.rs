//! Member and grant administration: listing members, inviting or rebinding
//! a user, password resets, the last-admin protection, and per-list grants.

use vstd::prelude::*;
use crate::domain::{admin_covered, ApiError, Ctx, Db, GrantInfo, GrantRow, MemberInfo};
use crate::domain::{MembershipRow, Role, UserRow};
use crate::domain::{clone_opt_string, ctx_ok, email_at, email_taken, find_grant, find_list};
use crate::domain::{find_membership, find_user, find_user_by_email, grant_at, has_grant};
use crate::domain::{is_member, list_in_space, member_role, membership_at, replace_at, user_at, user_exists};
use crate::domain::{lemma_email_at, lemma_grant_at, lemma_membership_at, lemma_user_at};
use crate::domain::{lemma_unique_grants_filter, lemma_unique_grants_push};
use crate::domain::{lemma_unique_grants_remove, lemma_unique_memberships_push};
use crate::domain::{lemma_unique_memberships_remove, lemma_wf_members_grants_swap};
use crate::domain::{lemma_wf_users_patch, space_has_admin, unique_emails, wf};
use crate::identity::{hash_password, password_policy_ok, password_meets_policy, same_but_hash, usable_hash, verify_of};
use crate::order::{lemma_filter_take_step, sort_by_key, sorted_keys};
use crate::strutil::{lower_of, lowercase_str, prefixed_uuid, str_eq, trim_of, trim_str, view_opt};
use crate::profile::normalize_avatar_icon;

verus! {

broadcast use vstd::string::group_string_axioms;

/// The membership rows one space's member listing joins: those of the
/// space whose user row exists.
pub open spec fn member_row_pred(db: Db, space: Seq<char>) -> spec_fn(MembershipRow) -> bool {
    |m: MembershipRow| m.space_id@ == space && user_exists(db, m.user_id@)
}

/// A listed member mirrors its membership row joined with its user row.
pub open spec fn member_info_matches(db: Db, mr: MembershipRow, m: MemberInfo) -> bool {
    &&& user_exists(db, mr.user_id@)
    &&& m.user_id@ == mr.user_id@
    &&& m.space_id@ == mr.space_id@
    &&& m.role == mr.role
    &&& m.email@ == db.users@[user_at(db, mr.user_id@)].email@
    &&& m.display@ == db.users@[user_at(db, mr.user_id@)].display@
    &&& view_opt(m.avatar_icon) == view_opt(db.users@[user_at(db, mr.user_id@)].avatar_icon)
}

/// Some membership row of the space joins to this listed member.
pub open spec fn listed_member_ok(db: Db, space: Seq<char>, m: MemberInfo) -> bool {
    exists|j: int| 0 <= j < db.memberships@.len()
        && (#[trigger] db.memberships@[j]).space_id@ == space
        && member_info_matches(db, db.memberships@[j], m)
}

/// Some listed entry carries this user id.
pub open spec fn contains_user(s: Seq<MemberInfo>, uid: Seq<char>) -> bool {
    exists|k: int| 0 <= k < s.len() && (#[trigger] s[k].user_id@) == uid
}

/// Lists the members of the caller's space, sorted by display name: one
/// entry for every membership row whose user row exists, and nothing else.
pub fn auth_members(db: &Db, ctx: &Ctx) -> (r: Vec<MemberInfo>)
    requires
        wf(*db),
        ctx_ok(*db, *ctx),
    ensures
        sorted_keys::<MemberInfo>(r@),
        r@.len() == db.memberships@.filter(member_row_pred(*db, ctx.space_id@)).len(),
        forall|k: int| 0 <= k < r@.len() ==> listed_member_ok(*db, ctx.space_id@, #[trigger] r@[k]),
        forall|j: int| 0 <= j < db.memberships@.len()
            && (#[trigger] db.memberships@[j].space_id@) == ctx.space_id@ && user_exists(
            *db,
            db.memberships@[j].user_id@,
        ) ==> contains_user(r@, db.memberships@[j].user_id@),
{
    let mut out: Vec<MemberInfo> = Vec::new();
    let n = db.memberships.len();
    let mut i: usize = 0;
    while i < n
        invariant
            i <= n,
            n == db.memberships@.len(),
            wf(*db),
            out@.len() == db.memberships@.take(i as int).filter(
                member_row_pred(*db, ctx.space_id@),
            ).len(),
            forall|k: int| 0 <= k < out@.len() ==> listed_member_ok(
                *db,
                ctx.space_id@,
                #[trigger] out@[k],
            ),
            forall|j: int| 0 <= j < i && (#[trigger] db.memberships@[j].space_id@)
                == ctx.space_id@ && user_exists(*db, db.memberships@[j].user_id@)
                ==> contains_user(out@, db.memberships@[j].user_id@),
        decreases n - i,
    {
        let ghost pre = out@;
        proof {
            lemma_filter_take_step(db.memberships@, member_row_pred(*db, ctx.space_id@), i as int);
        }
        if db.memberships[i].space_id == ctx.space_id {
            match find_user(db, &db.memberships[i].user_id) {
                Some(u) => {
                    proof {
                        lemma_user_at(*db, u as int);
                        assert(member_row_pred(*db, ctx.space_id@)(db.memberships@[i as int]));
                    }
                    out.push(MemberInfo {
                        user_id: db.users[u].id.clone(),
                        email: db.users[u].email.clone(),
                        display: db.users[u].display.clone(),
                        avatar_icon: clone_opt_string(&db.users[u].avatar_icon),
                        space_id: db.memberships[i].space_id.clone(),
                        role: db.memberships[i].role,
                    });
                    proof {
                        let last = out@.len() - 1;
                        assert(member_info_matches(*db, db.memberships@[i as int], out@[last]));
                        assert(listed_member_ok(*db, ctx.space_id@, out@[last]));
                    }
                },
                None => {
                    proof {
                        assert(!member_row_pred(*db, ctx.space_id@)(db.memberships@[i as int]));
                    }
                },
            }
        } else {
            proof {
                assert(!member_row_pred(*db, ctx.space_id@)(db.memberships@[i as int]));
            }
        }
        proof {
            assert forall|k: int| 0 <= k < out@.len() implies listed_member_ok(
                *db,
                ctx.space_id@,
                #[trigger] out@[k],
            ) by {
                if k < pre.len() {
                    assert(out@[k] == pre[k]);
                }
            }
            assert forall|j: int| 0 <= j < i + 1 && (#[trigger] db.memberships@[j].space_id@)
                == ctx.space_id@ && user_exists(*db, db.memberships@[j].user_id@)
                implies contains_user(out@, db.memberships@[j].user_id@) by {
                if j < i {
                    let k0 = choose|k0: int| 0 <= k0 < pre.len() && (#[trigger] pre[k0].user_id@)
                        == db.memberships@[j].user_id@;
                    assert(out@[k0] == pre[k0]);
                } else {
                    let last = out@.len() - 1;
                    assert(out@[last].user_id@ == db.memberships@[j].user_id@);
                }
            }
        }
        i = i + 1;
    }
    proof {
        assert(db.memberships@.take(n as int) =~= db.memberships@);
    }
    let ghost pre_sort = out@;
    sort_by_key(&mut out);
    proof {
        broadcast use vstd::seq_lib::group_to_multiset_ensures;

        assert forall|k: int| 0 <= k < out@.len() implies listed_member_ok(
            *db,
            ctx.space_id@,
            #[trigger] out@[k],
        ) by {
            assert(out@.contains(out@[k]));
            assert(out@.to_multiset().count(out@[k]) > 0);
            assert(pre_sort.to_multiset().count(out@[k]) > 0);
            assert(pre_sort.contains(out@[k]));
            let w = choose|w: int| 0 <= w < pre_sort.len() && pre_sort[w] == out@[k];
            assert(listed_member_ok(*db, ctx.space_id@, pre_sort[w]));
        }
        assert forall|j: int| 0 <= j < db.memberships@.len()
            && (#[trigger] db.memberships@[j].space_id@) == ctx.space_id@ && user_exists(
            *db,
            db.memberships@[j].user_id@,
        ) implies contains_user(out@, db.memberships@[j].user_id@) by {
            let k0 = choose|k0: int| 0 <= k0 < pre_sort.len() && (#[trigger] pre_sort[k0].user_id@)
                == db.memberships@[j].user_id@;
            assert(pre_sort.contains(pre_sort[k0]));
            assert(pre_sort.to_multiset().count(pre_sort[k0]) > 0);
            assert(out@.to_multiset().count(pre_sort[k0]) > 0);
            assert(out@.contains(pre_sort[k0]));
            let k = choose|k: int| 0 <= k < out@.len() && out@[k] == pre_sort[k0];
            assert(out@[k].user_id@ == db.memberships@[j].user_id@);
        }
    }
    out
}

/// The role literal of an invite.
pub open spec fn valid_role_literal(s: Seq<char>) -> bool {
    s == "admin"@ || s == "contributor"@
}

/// The role an invite literal denotes.
pub open spec fn role_of_literal(s: Seq<char>) -> Role {
    if s == "admin"@ {
        Role::Admin
    } else {
        Role::Contributor
    }
}

/// What a member invite carries.
pub struct CreateMemberBody {
    pub email: String,
    pub display: String,
    pub role: String,
    pub password: String,
    pub avatar_icon: Option<String>,
}

/// The freshly inserted user row of an invite: lowercased email, trimmed
/// display, normalized avatar, a hash that verifies the password, and the
/// default sound settings.
pub open spec fn invited_user_ok(u: UserRow, body: CreateMemberBody, pw: Seq<char>) -> bool {
    &&& u.id@.len() == 38
    &&& u.email@ == lower_of(trim_of(body.email@))
    &&& u.display@ == trim_of(body.display@)
    &&& view_opt(u.avatar_icon) == crate::profile::normalized_avatar_spec(body.avatar_icon)
    &&& (match u.password_hash {
        Option::Some(h) => verify_of(pw, h@) == Some(true),
        Option::None => false,
    })
    &&& u.sound_enabled == true
    &&& u.sound_volume == 60
    &&& u.sound_theme@ == "chime_soft"@
    &&& u.custom_sound_file_id is None
    &&& u.custom_sound_file_name is None
    &&& u.custom_sound_data_url is None
    &&& u.profile_attachments is None
}

/// Invites a member.  An email already on file rebinds that user to the
/// space (filling a blank password hash); a new email makes a user row.
/// A membership that already exists is a conflict.
#[verifier::rlimit(100)]
pub fn auth_create_member(db: &mut Db, ctx: &Ctx, body: CreateMemberBody) -> (r: Result<
    MemberInfo,
    ApiError,
>)
    requires
        wf(*old(db)),
        ctx_ok(*old(db), *ctx),
    ensures
        wf(*final(db)),
        admin_covered(*old(db)) ==> admin_covered(*final(db)),
        final(db).spaces@ == old(db).spaces@,
        final(db).lists@ == old(db).lists@,
        final(db).grants@ == old(db).grants@,
        final(db).tasks@ == old(db).tasks@,
        ctx.role != Role::Admin ==> (r == Err::<MemberInfo, ApiError>(ApiError::Forbidden)
            && final(db).users@ == old(db).users@
            && final(db).memberships@ == old(db).memberships@),
        (ctx.role == Role::Admin && (lower_of(trim_of(body.email@)).len() == 0
            || trim_of(body.display@).len() == 0 || !password_policy_ok(body.password@))) ==> (r
            == Err::<MemberInfo, ApiError>(ApiError::BadRequest)
            && final(db).users@ == old(db).users@
            && final(db).memberships@ == old(db).memberships@),
        (ctx.role == Role::Admin && lower_of(trim_of(body.email@)).len() > 0
            && trim_of(body.display@).len() > 0 && password_policy_ok(body.password@)
            && !valid_role_literal(body.role@)) ==> (r == Err::<MemberInfo, ApiError>(
            ApiError::BadRequest,
        ) && final(db).users@ == old(db).users@
            && final(db).memberships@ == old(db).memberships@),
        (ctx.role == Role::Admin && lower_of(trim_of(body.email@)).len() > 0
            && trim_of(body.display@).len() > 0 && password_policy_ok(body.password@)
            && valid_role_literal(body.role@)) ==> {
            let elow = lower_of(trim_of(body.email@));
            let pw = trim_of(body.password@);
            let probe = lower_of(elow);
            &&& (r == Err::<MemberInfo, ApiError>(ApiError::Internal) ==> (final(db).users@
                == old(db).users@ && final(db).memberships@ == old(db).memberships@))
            &&& (email_taken(*old(db), probe) && r != Err::<MemberInfo, ApiError>(
                ApiError::Internal,
            ) ==> {
                let i = email_at(*old(db), probe);
                let uid = old(db).users@[i].id@;
                &&& final(db).users@.len() == old(db).users@.len()
                &&& (forall|j: int| 0 <= j < old(db).users@.len() && j != i
                    ==> final(db).users@[j] == old(db).users@[j])
                &&& same_but_hash(old(db).users@[i], final(db).users@[i])
                &&& (usable_hash(old(db).users@[i]) is Some ==> final(db).users@[i].password_hash
                    == old(db).users@[i].password_hash)
                &&& (usable_hash(old(db).users@[i]) is None ==> (match final(db).users@[i].password_hash {
                    Option::Some(h) => verify_of(pw, h@) == Some(true),
                    Option::None => false,
                }))
                &&& (is_member(*old(db), ctx.space_id@, uid) ==> (r == Err::<MemberInfo, ApiError>(
                    ApiError::Conflict,
                ) && final(db).memberships@ == old(db).memberships@))
                &&& (!is_member(*old(db), ctx.space_id@, uid) ==> (r matches Ok(m)
                    && final(db).memberships@.len() == old(db).memberships@.len() + 1
                    && (forall|j: int| 0 <= j < old(db).memberships@.len()
                        ==> final(db).memberships@[j] == old(db).memberships@[j])
                    && final(db).memberships@.last().space_id@ == ctx.space_id@
                    && final(db).memberships@.last().user_id@ == uid
                    && final(db).memberships@.last().role == role_of_literal(body.role@)
                    && m.user_id@ == uid && m.space_id@ == ctx.space_id@
                    && m.role == role_of_literal(body.role@)))
            })
            &&& (!email_taken(*old(db), probe) ==> {
                &&& (r is Err ==> (r == Err::<MemberInfo, ApiError>(ApiError::Internal) || (r
                    == Err::<MemberInfo, ApiError>(ApiError::Conflict)
                    && final(db).memberships@ == old(db).memberships@)))
                &&& (r matches Ok(m) ==> {
                    let u = final(db).users@.last();
                    &&& final(db).users@.len() == old(db).users@.len() + 1
                    &&& (forall|j: int| 0 <= j < old(db).users@.len()
                        ==> final(db).users@[j] == old(db).users@[j])
                    &&& invited_user_ok(u, body, pw)
                    &&& final(db).memberships@.len() == old(db).memberships@.len() + 1
                    &&& (forall|j: int| 0 <= j < old(db).memberships@.len()
                        ==> final(db).memberships@[j] == old(db).memberships@[j])
                    &&& final(db).memberships@.last().space_id@ == ctx.space_id@
                    &&& final(db).memberships@.last().user_id@ == u.id@
                    &&& final(db).memberships@.last().role == role_of_literal(body.role@)
                    &&& m.user_id@ == u.id@ && m.space_id@ == ctx.space_id@
                    &&& m.role == role_of_literal(body.role@)
                })
            })
        },
{
    if ctx.role != Role::Admin {
        return Err(ApiError::Forbidden);
    }
    let email = lowercase_str(trim_str(body.email.as_str()));
    let display = trim_str(body.display.as_str()).to_owned();
    let password = trim_str(body.password.as_str());
    if email.as_str().unicode_len() == 0 || display.as_str().unicode_len() == 0
        || !password_meets_policy(body.password.as_str()) {
        return Err(ApiError::BadRequest);
    }
    let role_is_admin = str_eq(body.role.as_str(), "admin");
    if !role_is_admin && !str_eq(body.role.as_str(), "contributor") {
        return Err(ApiError::BadRequest);
    }
    let role = if role_is_admin {
        Role::Admin
    } else {
        Role::Contributor
    };
    proof {
        reveal_strlit("admin");
        reveal_strlit("contributor");
        assert("admin"@.len() == 5);
        assert("contributor"@.len() == 11);
        assert(role == role_of_literal(body.role@));
    }
    let password_hash = match hash_password(password) {
        Ok(h) => h,
        Err(e) => {
            return Err(e);
        },
    };
    let probe = lowercase_str(email.as_str());
    let ui: usize = match find_user_by_email(&*db, &probe) {
        Some(i) => {
            proof {
                lemma_email_at(*db, i as int);
            }
            let blank = match &db.users[i].password_hash {
                Some(h) => trim_str(h.as_str()).unicode_len() == 0,
                None => true,
            };
            if blank {
                let mut u2 = db.users[i].clone();
                u2.password_hash = Some(password_hash);
                replace_at(&mut db.users, i, u2);
                proof {
                    lemma_wf_users_patch(*old(db), *db);
                }
            }
            i
        },
        None => {
            let new_id = prefixed_uuid("u-");
            match find_user(&*db, &new_id) {
                Some(_) => {
                    return Err(ApiError::Internal);
                },
                None => {},
            }
            let u = UserRow {
                id: new_id,
                email: email.clone(),
                display,
                avatar_icon: normalize_avatar_icon(clone_opt_string(&body.avatar_icon)),
                password_hash: Some(password_hash),
                sound_enabled: true,
                sound_volume: 60,
                sound_theme: "chime_soft".to_owned(),
                custom_sound_file_id: None,
                custom_sound_file_name: None,
                custom_sound_data_url: None,
                profile_attachments: None,
            };
            let ghost gu = u;
            db.users.push(u);
            proof {
                reveal_strlit("u-");
                assert("u-"@.len() == 2);
                assert forall|a: int, b: int| 0 <= a < b < db.users@.len() implies
                    (#[trigger] db.users@[a].id@) != (#[trigger] db.users@[b].id@) by {
                    if b < old(db).users@.len() {
                        assert(db.users@[a] == old(db).users@[a]
                            && db.users@[b] == old(db).users@[b]);
                    } else {
                        assert(db.users@[b] == gu && db.users@[a] == old(db).users@[a]);
                    }
                }
                assert forall|a: int, b: int| 0 <= a < b < db.users@.len() implies lower_of(
                    (#[trigger] db.users@[a].email@),
                ) != lower_of((#[trigger] db.users@[b].email@)) by {
                    if b < old(db).users@.len() {
                        assert(db.users@[a] == old(db).users@[a]
                            && db.users@[b] == old(db).users@[b]);
                    } else {
                        assert(db.users@[b] == gu && db.users@[a] == old(db).users@[a]);
                        assert(!email_taken(*old(db), probe@));
                        assert(lower_of(gu.email@) == probe@);
                    }
                }
                assert forall|a2: int| 0 <= a2 < old(db).users@.len() implies user_exists(
                    *db,
                    (#[trigger] old(db).users@[a2]).id@,
                ) by {
                    assert(db.users@[a2] == old(db).users@[a2]);
                }
                lemma_wf_users_patch2(*old(db), *db);
            }
            db.users.len() - 1
        },
    };
    let user_id: String = db.users[ui].id.clone();
    match find_membership(&*db, &ctx.space_id, &user_id) {
        Some(_) => {
            return Err(ApiError::Conflict);
        },
        None => {},
    }
    let mrow = MembershipRow {
        id: prefixed_uuid("m-"),
        space_id: ctx.space_id.clone(),
        user_id: user_id.clone(),
        role,
    };
    let ghost gm = mrow;
    let ghost pre_members = *db;
    db.memberships.push(mrow);
    proof {
        lemma_unique_memberships_push(pre_members.memberships@, gm);
        lemma_wf_members_grants_swap(pre_members, *db);
        if admin_covered(*old(db)) {
            assert forall|s: int| 0 <= s < db.spaces@.len() implies space_has_admin(
                *db,
                (#[trigger] db.spaces@[s]).id@,
            ) by {
                assert(space_has_admin(*old(db), old(db).spaces@[s].id@));
                let w = choose|k: int| 0 <= k < old(db).memberships@.len()
                    && (#[trigger] old(db).memberships@[k].space_id@) == old(db).spaces@[s].id@
                    && old(db).memberships@[k].role == Role::Admin;
                assert(db.memberships@[w] == old(db).memberships@[w]);
            }
        }
    }
    proof {
        lemma_user_at(*db, ui as int);
    }
    Ok(MemberInfo {
        user_id: db.users[ui].id.clone(),
        email: db.users[ui].email.clone(),
        display: db.users[ui].display.clone(),
        avatar_icon: clone_opt_string(&db.users[ui].avatar_icon),
        space_id: ctx.space_id.clone(),
        role,
    })
}

/// Some admin membership of the space belongs to a different user.
pub open spec fn other_admin_exists(db: Db, space: Seq<char>, user: Seq<char>) -> bool {
    exists|i: int| 0 <= i < db.memberships@.len()
        && (#[trigger] db.memberships@[i].space_id@) == space
        && db.memberships@[i].role == Role::Admin && db.memberships@[i].user_id@ != user
}

/// The grant rows kept when a member leaves a space.
pub open spec fn grants_not_of(space: Seq<char>, user: Seq<char>) -> spec_fn(GrantRow) -> bool {
    |g: GrantRow| !(g.space_id@ == space && g.user_id@ == user)
}

/// Removes a member from the caller's space, with its grants.  Admins may
/// not remove themselves, and the last admin of a space can never be
/// removed — so a space that has an admin always keeps one.
pub fn auth_delete_member(db: &mut Db, ctx: &Ctx, user_id: &String) -> (r: Result<(), ApiError>)
    requires
        wf(*old(db)),
        ctx_ok(*old(db), *ctx),
    ensures
        wf(*final(db)),
        admin_covered(*old(db)) ==> admin_covered(*final(db)),
        final(db).spaces@ == old(db).spaces@,
        final(db).users@ == old(db).users@,
        final(db).lists@ == old(db).lists@,
        final(db).tasks@ == old(db).tasks@,
        ctx.role != Role::Admin ==> (r == Err::<(), ApiError>(ApiError::Forbidden)
            && final(db).memberships@ == old(db).memberships@
            && final(db).grants@ == old(db).grants@),
        (ctx.role == Role::Admin && user_id@ == ctx.user_id@) ==> (r == Err::<(), ApiError>(
            ApiError::BadRequest,
        ) && final(db).memberships@ == old(db).memberships@
            && final(db).grants@ == old(db).grants@),
        (ctx.role == Role::Admin && user_id@ != ctx.user_id@ && !is_member(
            *old(db),
            ctx.space_id@,
            user_id@,
        )) ==> (r == Err::<(), ApiError>(ApiError::NotFound)
            && final(db).memberships@ == old(db).memberships@
            && final(db).grants@ == old(db).grants@),
        (ctx.role == Role::Admin && user_id@ != ctx.user_id@ && is_member(
            *old(db),
            ctx.space_id@,
            user_id@,
        ) && member_role(*old(db), ctx.space_id@, user_id@) == Role::Admin && !other_admin_exists(
            *old(db),
            ctx.space_id@,
            user_id@,
        )) ==> (r == Err::<(), ApiError>(ApiError::BadRequest)
            && final(db).memberships@ == old(db).memberships@
            && final(db).grants@ == old(db).grants@),
        (ctx.role == Role::Admin && user_id@ != ctx.user_id@ && is_member(
            *old(db),
            ctx.space_id@,
            user_id@,
        ) && (member_role(*old(db), ctx.space_id@, user_id@) == Role::Contributor
            || other_admin_exists(*old(db), ctx.space_id@, user_id@))) ==> (r == Ok::<(), ApiError>(
            (),
        ) && final(db).memberships@ == old(db).memberships@.remove(
            membership_at(*old(db), ctx.space_id@, user_id@),
        ) && final(db).grants@ == old(db).grants@.filter(grants_not_of(ctx.space_id@, user_id@))),
{
    if ctx.role != Role::Admin {
        return Err(ApiError::Forbidden);
    }
    if *user_id == ctx.user_id {
        return Err(ApiError::BadRequest);
    }
    let k = match find_membership(&*db, &ctx.space_id, user_id) {
        Some(k) => k,
        None => {
            return Err(ApiError::NotFound);
        },
    };
    proof {
        lemma_membership_at(*db, k as int);
    }
    if db.memberships[k].role == Role::Admin {
        let n = db.memberships.len();
        let mut found = false;
        let mut i: usize = 0;
        while i < n
            invariant
                i <= n,
                n == db.memberships@.len(),
                found ==> other_admin_exists(*db, ctx.space_id@, user_id@),
                !found ==> forall|j: int| 0 <= j < i
                    ==> !((#[trigger] db.memberships@[j].space_id@) == ctx.space_id@
                        && db.memberships@[j].role == Role::Admin
                        && db.memberships@[j].user_id@ != user_id@),
            decreases n - i,
        {
            if db.memberships[i].space_id == ctx.space_id
                && db.memberships[i].role == Role::Admin && db.memberships[i].user_id != *user_id {
                found = true;
            }
            i = i + 1;
        }
        if !found {
            return Err(ApiError::BadRequest);
        }
    }
    let mut kept: Vec<GrantRow> = Vec::new();
    let gn = db.grants.len();
    let mut gi: usize = 0;
    while gi < gn
        invariant
            gi <= gn,
            gn == db.grants@.len(),
            kept@ == db.grants@.take(gi as int).filter(grants_not_of(ctx.space_id@, user_id@)),
        decreases gn - gi,
    {
        let keep = !(db.grants[gi].space_id == ctx.space_id && db.grants[gi].user_id == *user_id);
        proof {
            assert(keep == grants_not_of(ctx.space_id@, user_id@)(db.grants@[gi as int]));
            lemma_filter_take_step(db.grants@, grants_not_of(ctx.space_id@, user_id@), gi as int);
        }
        if keep {
            kept.push(db.grants[gi].clone());
        }
        gi = gi + 1;
    }
    proof {
        assert(db.grants@.take(gn as int) =~= db.grants@);
    }
    db.grants = kept;
    let _ = db.memberships.remove(k);
    proof {
        lemma_unique_memberships_remove(old(db).memberships@, k as int);
        lemma_unique_grants_filter(old(db).grants@, grants_not_of(ctx.space_id@, user_id@));
        lemma_wf_members_grants_swap(*old(db), *db);
        if admin_covered(*old(db)) {
            assert forall|s: int| 0 <= s < db.spaces@.len() implies space_has_admin(
                *db,
                (#[trigger] db.spaces@[s]).id@,
            ) by {
                assert(space_has_admin(*old(db), old(db).spaces@[s].id@));
                let w = choose|w: int| 0 <= w < old(db).memberships@.len()
                    && (#[trigger] old(db).memberships@[w].space_id@) == old(db).spaces@[s].id@
                    && old(db).memberships@[w].role == Role::Admin;
                if w != k as int {
                    let w2 = if w < k as int {
                        w
                    } else {
                        w - 1
                    };
                    assert(db.memberships@[w2] == old(db).memberships@[w]);
                } else {
                    assert(other_admin_exists(*old(db), ctx.space_id@, user_id@));
                    let w3 = choose|w3: int| 0 <= w3 < old(db).memberships@.len()
                        && (#[trigger] old(db).memberships@[w3].space_id@) == ctx.space_id@
                        && old(db).memberships@[w3].role == Role::Admin
                        && old(db).memberships@[w3].user_id@ != user_id@;
                    assert(w3 != k as int);
                    let w4 = if w3 < k as int {
                        w3
                    } else {
                        w3 - 1
                    };
                    assert(db.memberships@[w4] == old(db).memberships@[w3]);
                }
            }
        }
    }
    Ok(())
}

/// Resets a member's password; admin only, and the policy applies.
pub fn auth_set_member_password(db: &mut Db, ctx: &Ctx, user_id: &String, password: &String) -> (r:
    Result<(), ApiError>)
    requires
        wf(*old(db)),
        ctx_ok(*old(db), *ctx),
    ensures
        wf(*final(db)),
        admin_covered(*old(db)) ==> admin_covered(*final(db)),
        final(db).spaces@ == old(db).spaces@,
        final(db).memberships@ == old(db).memberships@,
        final(db).lists@ == old(db).lists@,
        final(db).grants@ == old(db).grants@,
        final(db).tasks@ == old(db).tasks@,
        ctx.role != Role::Admin ==> (r == Err::<(), ApiError>(ApiError::Forbidden)
            && final(db).users@ == old(db).users@),
        (ctx.role == Role::Admin && !password_policy_ok(password@)) ==> (r == Err::<(), ApiError>(
            ApiError::BadRequest,
        ) && final(db).users@ == old(db).users@),
        (ctx.role == Role::Admin && password_policy_ok(password@) && !is_member(
            *old(db),
            ctx.space_id@,
            user_id@,
        )) ==> (r == Err::<(), ApiError>(ApiError::NotFound)
            && final(db).users@ == old(db).users@),
        (ctx.role == Role::Admin && password_policy_ok(password@) && is_member(
            *old(db),
            ctx.space_id@,
            user_id@,
        )) ==> {
            &&& (r == Err::<(), ApiError>(ApiError::Internal) ==> final(db).users@
                == old(db).users@)
            &&& (r matches Ok(u) ==> {
                &&& (!user_exists(*old(db), user_id@) ==> final(db).users@ == old(db).users@)
                &&& (user_exists(*old(db), user_id@) ==> {
                    let i = user_at(*old(db), user_id@);
                    &&& final(db).users@.len() == old(db).users@.len()
                    &&& (forall|j: int| 0 <= j < old(db).users@.len() && j != i
                        ==> final(db).users@[j] == old(db).users@[j])
                    &&& same_but_hash(old(db).users@[i], final(db).users@[i])
                    &&& (match final(db).users@[i].password_hash {
                        Option::Some(h) => verify_of(trim_of(password@), h@) == Some(true),
                        Option::None => false,
                    })
                })
            })
        },
{
    if ctx.role != Role::Admin {
        return Err(ApiError::Forbidden);
    }
    let pw = trim_str(password.as_str());
    if !password_meets_policy(password.as_str()) {
        return Err(ApiError::BadRequest);
    }
    match find_membership(&*db, &ctx.space_id, user_id) {
        Some(_) => {},
        None => {
            return Err(ApiError::NotFound);
        },
    }
    let password_hash = match hash_password(pw) {
        Ok(h) => h,
        Err(e) => {
            return Err(e);
        },
    };
    match find_user(&*db, user_id) {
        Some(i) => {
            proof {
                lemma_user_at(*db, i as int);
            }
            let mut u2 = db.users[i].clone();
            u2.password_hash = Some(password_hash);
            replace_at(&mut db.users, i, u2);
            proof {
                lemma_wf_users_patch(*old(db), *db);
            }
        },
        None => {},
    }
    Ok(())
}

/// The grant rows the grants listing shows: grants of the space whose user
/// is a contributor member.
pub open spec fn contrib_grant_pred(db: Db, space: Seq<char>) -> spec_fn(GrantRow) -> bool {
    |g: GrantRow| g.space_id@ == space && is_member(db, space, g.user_id@)
        && member_role(db, space, g.user_id@) == Role::Contributor
}

/// Some contributor grant row of the space matches this listed entry.
pub open spec fn listed_grant_ok(db: Db, space: Seq<char>, gi: GrantInfo) -> bool {
    exists|j: int| 0 <= j < db.grants@.len() && (#[trigger] db.grants@[j]).space_id@ == space
        && db.grants@[j].user_id@ == gi.user_id@ && db.grants@[j].list_id@ == gi.list_id@
        && is_member(db, space, gi.user_id@)
        && member_role(db, space, gi.user_id@) == Role::Contributor
}

/// Some listed entry carries this `(user, list)` pair.
pub open spec fn contains_grant(s: Seq<GrantInfo>, user: Seq<char>, list: Seq<char>) -> bool {
    exists|k: int| 0 <= k < s.len() && (#[trigger] s[k]).user_id@ == user && s[k].list_id@ == list
}

/// Lists the contributors' grants of the caller's space; admin only.
pub fn auth_grants(db: &Db, ctx: &Ctx) -> (r: Result<Vec<GrantInfo>, ApiError>)
    requires
        wf(*db),
        ctx_ok(*db, *ctx),
    ensures
        ctx.role != Role::Admin ==> r == Err::<Vec<GrantInfo>, ApiError>(ApiError::Forbidden),
        ctx.role == Role::Admin ==> (r matches Ok(v) && sorted_keys::<GrantInfo>(v@)
            && v@.len() == db.grants@.filter(contrib_grant_pred(*db, ctx.space_id@)).len()
            && (forall|k: int| 0 <= k < v@.len() ==> listed_grant_ok(
                *db,
                ctx.space_id@,
                #[trigger] v@[k],
            ))
            && (forall|j: int| 0 <= j < db.grants@.len()
                && (#[trigger] db.grants@[j].space_id@) == ctx.space_id@ && is_member(
                *db,
                ctx.space_id@,
                db.grants@[j].user_id@,
            ) && member_role(*db, ctx.space_id@, db.grants@[j].user_id@) == Role::Contributor
                ==> contains_grant(v@, db.grants@[j].user_id@, db.grants@[j].list_id@))),
{
    if ctx.role != Role::Admin {
        return Err(ApiError::Forbidden);
    }
    let mut out: Vec<GrantInfo> = Vec::new();
    let n = db.grants.len();
    let mut i: usize = 0;
    while i < n
        invariant
            i <= n,
            n == db.grants@.len(),
            wf(*db),
            out@.len() == db.grants@.take(i as int).filter(
                contrib_grant_pred(*db, ctx.space_id@),
            ).len(),
            forall|k: int| 0 <= k < out@.len() ==> listed_grant_ok(
                *db,
                ctx.space_id@,
                #[trigger] out@[k],
            ),
            forall|j: int| 0 <= j < i && (#[trigger] db.grants@[j].space_id@) == ctx.space_id@
                && is_member(*db, ctx.space_id@, db.grants@[j].user_id@) && member_role(
                *db,
                ctx.space_id@,
                db.grants@[j].user_id@,
            ) == Role::Contributor ==> contains_grant(
                out@,
                db.grants@[j].user_id@,
                db.grants@[j].list_id@,
            ),
        decreases n - i,
    {
        let ghost pre = out@;
        proof {
            lemma_filter_take_step(db.grants@, contrib_grant_pred(*db, ctx.space_id@), i as int);
        }
        let mut keep = false;
        if db.grants[i].space_id == ctx.space_id {
            match find_membership(&*db, &ctx.space_id, &db.grants[i].user_id) {
                Some(m) => {
                    proof {
                        lemma_membership_at(*db, m as int);
                    }
                    if db.memberships[m].role == Role::Contributor {
                        keep = true;
                    }
                },
                None => {},
            }
        }
        proof {
            assert(keep == contrib_grant_pred(*db, ctx.space_id@)(db.grants@[i as int]));
        }
        if keep {
            out.push(GrantInfo {
                user_id: db.grants[i].user_id.clone(),
                list_id: db.grants[i].list_id.clone(),
            });
            proof {
                let last = out@.len() - 1;
                assert(listed_grant_ok(*db, ctx.space_id@, out@[last]));
            }
        }
        proof {
            assert forall|k: int| 0 <= k < out@.len() implies listed_grant_ok(
                *db,
                ctx.space_id@,
                #[trigger] out@[k],
            ) by {
                if k < pre.len() {
                    assert(out@[k] == pre[k]);
                }
            }
            assert forall|j: int| 0 <= j < i + 1 && (#[trigger] db.grants@[j].space_id@)
                == ctx.space_id@ && is_member(*db, ctx.space_id@, db.grants@[j].user_id@)
                && member_role(*db, ctx.space_id@, db.grants@[j].user_id@) == Role::Contributor
                implies contains_grant(out@, db.grants@[j].user_id@, db.grants@[j].list_id@) by {
                if j < i {
                    let k0 = choose|k0: int| 0 <= k0 < pre.len()
                        && (#[trigger] pre[k0]).user_id@ == db.grants@[j].user_id@
                        && pre[k0].list_id@ == db.grants@[j].list_id@;
                    assert(out@[k0] == pre[k0]);
                } else {
                    let last = out@.len() - 1;
                    assert(out@[last].user_id@ == db.grants@[j].user_id@
                        && out@[last].list_id@ == db.grants@[j].list_id@);
                }
            }
        }
        i = i + 1;
    }
    proof {
        assert(db.grants@.take(n as int) =~= db.grants@);
    }
    let ghost pre_sort = out@;
    sort_by_key(&mut out);
    proof {
        broadcast use vstd::seq_lib::group_to_multiset_ensures;

        assert forall|k: int| 0 <= k < out@.len() implies listed_grant_ok(
            *db,
            ctx.space_id@,
            #[trigger] out@[k],
        ) by {
            assert(out@.contains(out@[k]));
            assert(out@.to_multiset().count(out@[k]) > 0);
            assert(pre_sort.to_multiset().count(out@[k]) > 0);
            assert(pre_sort.contains(out@[k]));
            let w = choose|w: int| 0 <= w < pre_sort.len() && pre_sort[w] == out@[k];
            assert(listed_grant_ok(*db, ctx.space_id@, pre_sort[w]));
        }
        assert forall|j: int| 0 <= j < db.grants@.len()
            && (#[trigger] db.grants@[j].space_id@) == ctx.space_id@ && is_member(
            *db,
            ctx.space_id@,
            db.grants@[j].user_id@,
        ) && member_role(*db, ctx.space_id@, db.grants@[j].user_id@) == Role::Contributor
            implies contains_grant(out@, db.grants@[j].user_id@, db.grants@[j].list_id@) by {
            let k0 = choose|k0: int| 0 <= k0 < pre_sort.len()
                && (#[trigger] pre_sort[k0]).user_id@ == db.grants@[j].user_id@
                && pre_sort[k0].list_id@ == db.grants@[j].list_id@;
            assert(pre_sort.contains(pre_sort[k0]));
            assert(pre_sort.to_multiset().count(pre_sort[k0]) > 0);
            assert(out@.to_multiset().count(pre_sort[k0]) > 0);
            assert(out@.contains(pre_sort[k0]));
            let k = choose|k: int| 0 <= k < out@.len() && out@[k] == pre_sort[k0];
            assert(out@[k].user_id@ == db.grants@[j].user_id@
                && out@[k].list_id@ == db.grants@[j].list_id@);
        }
    }
    Ok(out)
}

/// Grants or revokes one contributor's access to one list; admin only,
/// idempotent in both directions.
pub fn auth_set_grant(
    db: &mut Db,
    ctx: &Ctx,
    user_id: &String,
    list_id: &String,
    granted: bool,
) -> (r: Result<GrantInfo, ApiError>)
    requires
        wf(*old(db)),
        ctx_ok(*old(db), *ctx),
    ensures
        wf(*final(db)),
        admin_covered(*old(db)) ==> admin_covered(*final(db)),
        final(db).spaces@ == old(db).spaces@,
        final(db).users@ == old(db).users@,
        final(db).memberships@ == old(db).memberships@,
        final(db).lists@ == old(db).lists@,
        final(db).tasks@ == old(db).tasks@,
        ctx.role != Role::Admin ==> (r == Err::<GrantInfo, ApiError>(ApiError::Forbidden)
            && final(db).grants@ == old(db).grants@),
        (ctx.role == Role::Admin && !(is_member(*old(db), ctx.space_id@, user_id@) && member_role(
            *old(db),
            ctx.space_id@,
            user_id@,
        ) == Role::Contributor)) ==> (r == Err::<GrantInfo, ApiError>(ApiError::BadRequest)
            && final(db).grants@ == old(db).grants@),
        (ctx.role == Role::Admin && is_member(*old(db), ctx.space_id@, user_id@) && member_role(
            *old(db),
            ctx.space_id@,
            user_id@,
        ) == Role::Contributor && !list_in_space(*old(db), ctx.space_id@, list_id@)) ==> (r
            == Err::<GrantInfo, ApiError>(ApiError::NotFound)
            && final(db).grants@ == old(db).grants@),
        (ctx.role == Role::Admin && is_member(*old(db), ctx.space_id@, user_id@) && member_role(
            *old(db),
            ctx.space_id@,
            user_id@,
        ) == Role::Contributor && list_in_space(*old(db), ctx.space_id@, list_id@)) ==> {
            &&& (r matches Ok(gi) && gi.user_id@ == user_id@ && gi.list_id@ == list_id@)
            &&& (granted && has_grant(*old(db), ctx.space_id@, user_id@, list_id@)
                ==> final(db).grants@ == old(db).grants@)
            &&& (granted && !has_grant(*old(db), ctx.space_id@, user_id@, list_id@)
                ==> (final(db).grants@.len() == old(db).grants@.len() + 1 && (forall|j: int| 0 <= j
                < old(db).grants@.len() ==> final(db).grants@[j] == old(db).grants@[j])
                && final(db).grants@.last().space_id@ == ctx.space_id@
                && final(db).grants@.last().list_id@ == list_id@
                && final(db).grants@.last().user_id@ == user_id@))
            &&& (!granted && has_grant(*old(db), ctx.space_id@, user_id@, list_id@)
                ==> final(db).grants@ == old(db).grants@.remove(
                grant_at(*old(db), ctx.space_id@, list_id@, user_id@),
            ))
            &&& (!granted && !has_grant(*old(db), ctx.space_id@, user_id@, list_id@)
                ==> final(db).grants@ == old(db).grants@)
        },
{
    if ctx.role != Role::Admin {
        return Err(ApiError::Forbidden);
    }
    let target_is_contributor = match find_membership(&*db, &ctx.space_id, user_id) {
        Some(m) => {
            proof {
                lemma_membership_at(*db, m as int);
            }
            db.memberships[m].role == Role::Contributor
        },
        None => false,
    };
    if !target_is_contributor {
        return Err(ApiError::BadRequest);
    }
    match find_list(&*db, &ctx.space_id, list_id) {
        Some(_) => {},
        None => {
            return Err(ApiError::NotFound);
        },
    }
    if granted {
        match find_grant(&*db, &ctx.space_id, list_id, user_id) {
            Some(_) => {},
            None => {
                let g = GrantRow {
                    id: prefixed_uuid("g-"),
                    space_id: ctx.space_id.clone(),
                    list_id: list_id.clone(),
                    user_id: user_id.clone(),
                };
                let ghost gg = g;
                db.grants.push(g);
                proof {
                    lemma_unique_grants_push(old(db).grants@, gg);
                    lemma_wf_members_grants_swap(*old(db), *db);
                }
            },
        }
    } else {
        match find_grant(&*db, &ctx.space_id, list_id, user_id) {
            Some(gidx) => {
                proof {
                    lemma_grant_at(*db, gidx as int);
                }
                let _ = db.grants.remove(gidx);
                proof {
                    lemma_unique_grants_remove(old(db).grants@, gidx as int);
                    lemma_wf_members_grants_swap(*old(db), *db);
                }
            },
            None => {},
        }
    }
    proof {
        if admin_covered(*old(db)) {
            assert forall|s: int| 0 <= s < db.spaces@.len() implies space_has_admin(
                *db,
                (#[trigger] db.spaces@[s]).id@,
            ) by {
                assert(space_has_admin(*old(db), old(db).spaces@[s].id@));
                let w = choose|w: int| 0 <= w < old(db).memberships@.len()
                    && (#[trigger] old(db).memberships@[w].space_id@) == old(db).spaces@[s].id@
                    && old(db).memberships@[w].role == Role::Admin;
                assert(db.memberships@[w] == old(db).memberships@[w]);
            }
        }
    }
    Ok(GrantInfo { user_id: user_id.clone(), list_id: list_id.clone() })
}

/// A well-formedness patch for a user table that only grew: the pushed
/// rows' keys were checked fresh by the caller.
proof fn lemma_wf_users_patch2(db1: Db, db2: Db)
    requires
        wf(db1),
        db2.spaces@ == db1.spaces@,
        db2.memberships@ == db1.memberships@,
        db2.lists@ == db1.lists@,
        db2.grants@ == db1.grants@,
        db2.tasks@ == db1.tasks@,
        crate::domain::unique_users(db2.users@),
        unique_emails(db2.users@),
        forall|i: int| 0 <= i < db1.users@.len() ==> user_exists(
            db2,
            (#[trigger] db1.users@[i]).id@,
        ),
    ensures
        wf(db2),
{
    assert forall|i: int| 0 <= i < db2.memberships@.len() implies user_exists(
        db2,
        (#[trigger] db2.memberships@[i]).user_id@,
    ) by {
        assert(user_exists(db1, db1.memberships@[i].user_id@));
        let j = choose|j: int| 0 <= j < db1.users@.len()
            && (#[trigger] db1.users@[j].id@) == db1.memberships@[i].user_id@;
        assert(user_exists(db2, db1.users@[j].id@));
    }
    assert forall|i: int| 0 <= i < db2.tasks@.len() implies list_in_space(
        db2,
        (#[trigger] db2.tasks@[i]).space_id@,
        db2.tasks@[i].list_id@,
    ) by {
        assert(list_in_space(db1, db1.tasks@[i].space_id@, db1.tasks@[i].list_id@));
        let w = choose|k: int| 0 <= k < db1.lists@.len()
            && (#[trigger] db1.lists@[k].space_id@) == db1.tasks@[i].space_id@
            && db1.lists@[k].id@ == db1.tasks@[i].list_id@;
        assert(0 <= w < db2.lists@.len() && db2.lists@[w].space_id@ == db2.tasks@[i].space_id@
            && db2.lists@[w].id@ == db2.tasks@[i].list_id@);
    }
}

} // verus!
