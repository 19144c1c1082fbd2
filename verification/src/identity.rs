//! Identity: password hashing and checking, bearer tokens, and the
//! resolution of a request's context.
//!
//! The role of a caller is always looked up fresh from the membership table,
//! never taken from the token, so a revocation takes effect within one
//! request.

use vstd::prelude::*;
use vstd::string::StrSliceExecFns;
use crate::domain::{admin_covered, ApiError, Ctx, Db, Role, UserRow};
use crate::domain::{clone_opt_string, ctx_ok, find_user, find_user_by_email, is_member};
use crate::domain::{member_role, replace_at, role_from_membership, user_at, user_exists};
use crate::domain::{lemma_user_at, lemma_wf_users_patch, unique_memberships, unique_users, wf};
use crate::strutil::{lower_of, lowercase_str, str_eq, trim_of, trim_str, view_opt};

verus! {

broadcast use vstd::string::group_string_axioms;

/// Seconds of a bearer token's 30-day lifetime.
pub const TOKEN_LIFETIME_SECS: usize = 2592000;

/// What `bcrypt::verify` answers for a password and a stored hash: `Some`
/// of the comparison outcome, `None` where the stored hash is malformed.
/// The answer is recomputed deterministically from the two arguments alone.
pub uninterp spec fn verify_of(password: Seq<char>, hash: Seq<char>) -> Option<bool>;

/// The `(sub, space_id)` claim fields carried by a bearer token, if its
/// payload parses to claims with both; a deterministic function of the
/// token text alone.
pub uninterp spec fn payload_of(token: Seq<char>) -> Option<(Seq<char>, Seq<char>)>;

/// Relies on std's `SystemTime::now`: seconds since the Unix epoch, or 0
/// when the clock fails.
#[verifier::external_body]
pub fn unix_now_secs() -> usize {
    std::time::SystemTime::now()
        .duration_since(std::time::UNIX_EPOCH)
        .map(|d| d.as_secs() as usize)
        .unwrap_or(0)
}

/// Relies on `bcrypt::hash` with the default cost: on success the result is
/// the 60-character `$2b$...` form, and `bcrypt::verify` recomputes the same
/// digest from the embedded salt, so it accepts the pair.
#[verifier::external_body]
fn bcrypt_hash(password: &str) -> (r: Result<String, ApiError>)
    ensures
        r matches Ok(h) ==> (h@.len() == 60 && h@[0] == '$' && h@[1] == '2'
            && verify_of(password@, h@) == Some(true)),
        r matches Err(e) ==> e == ApiError::Internal,
{
    match bcrypt::hash(password, bcrypt::DEFAULT_COST) {
        Ok(h) => Ok(h),
        Err(_) => Err(ApiError::Internal),
    }
}

/// Relies on `bcrypt::verify`, which re-derives the digest from the password
/// and the cost and salt embedded in the hash: a deterministic function of
/// its two arguments, failing exactly on malformed hashes.
#[verifier::external_body]
fn bcrypt_verify(password: &str, hash: &str) -> (r: Result<bool, ApiError>)
    ensures
        r matches Ok(b) ==> verify_of(password@, hash@) == Some(b),
        r matches Err(e) ==> (e == ApiError::Internal && verify_of(password@, hash@) is None),
{
    match bcrypt::verify(password, hash) {
        Ok(b) => Ok(b),
        Err(_) => Err(ApiError::Internal),
    }
}

/// Relies on `jsonwebtoken::encode` with an HMAC key: the token it signs
/// carries exactly the claims handed to it, and HMAC encoding of a
/// serializable claims object cannot fail.
#[verifier::external_body]
fn jwt_encode(sub: &str, space_id: &str, exp: usize, secret: &str) -> (r: Result<String, ApiError>)
    ensures
        r is Ok,
        r matches Ok(t) ==> payload_of(t@) == Some((sub@, space_id@)),
{
    let mut claims = serde_json::Map::new();
    claims.insert("sub".to_owned(), serde_json::Value::from(sub));
    claims.insert("space_id".to_owned(), serde_json::Value::from(space_id));
    claims.insert("exp".to_owned(), serde_json::Value::from(exp as u64));
    let key = jsonwebtoken::EncodingKey::from_secret(secret.as_bytes());
    match jsonwebtoken::encode(&jsonwebtoken::Header::default(), &serde_json::Value::Object(claims), &key) {
        Ok(t) => Ok(t),
        Err(_) => Err(ApiError::Internal),
    }
}

/// Relies on `jsonwebtoken::decode` with an HMAC key and default validation:
/// on acceptance it returns the claims deserialized from the token's own
/// payload.
#[verifier::external_body]
fn jwt_decode(token: &str, secret: &str) -> (r: Option<(String, String)>)
    ensures
        r matches Some(p) ==> payload_of(token@) == Some((p.0@, p.1@)),
{
    let key = jsonwebtoken::DecodingKey::from_secret(secret.as_bytes());
    let validation = jsonwebtoken::Validation::default();
    let data = jsonwebtoken::decode::<serde_json::Value>(token, &key, &validation).ok()?;
    let sub = data.claims.get("sub")?.as_str()?.to_owned();
    let space_id = data.claims.get("space_id")?.as_str()?.to_owned();
    Some((sub, space_id))
}

/// Whether a password satisfies the policy: at least 8 characters once
/// trimmed.
pub open spec fn password_policy_ok(password: Seq<char>) -> bool {
    trim_of(password).len() >= 8
}

/// Checks the password policy: at least 8 characters after trimming.
pub fn password_meets_policy(password: &str) -> (r: bool)
    ensures
        r == password_policy_ok(password@),
{
    let trimmed = trim_str(password);
    trimmed.unicode_len() >= 8
}

/// Hashes a password for storage.  On success the hash starts with `$2` and
/// [`verify_of`] accepts the pair.
pub fn hash_password(password: &str) -> (r: Result<String, ApiError>)
    ensures
        r matches Ok(h) ==> (h@.len() == 60 && h@[0] == '$' && h@[1] == '2'
            && verify_of(password@, h@) == Some(true)),
        r matches Err(e) ==> e == ApiError::Internal,
{
    bcrypt_hash(password)
}

/// Checks a password against a stored hash.
pub fn verify_password(password: &str, password_hash: &str) -> (r: Result<bool, ApiError>)
    ensures
        r matches Ok(b) ==> verify_of(password@, password_hash@) == Some(b),
        r matches Err(e) ==> (e == ApiError::Internal
            && verify_of(password@, password_hash@) is None),
{
    bcrypt_verify(password, password_hash)
}

/// Issues a bearer token for `(user, space)` with a 30-day lifetime.
pub fn issue_token(user_id: &str, space_id: &str, secret: &str, now_s: usize) -> (r: Result<
    String,
    ApiError,
>)
    ensures
        r is Ok,
        r matches Ok(t) ==> payload_of(t@) == Some((user_id@, space_id@)),
{
    let exp = if now_s <= usize::MAX - TOKEN_LIFETIME_SECS {
        now_s + TOKEN_LIFETIME_SECS
    } else {
        usize::MAX
    };
    jwt_encode(user_id, space_id, exp, secret)
}

/// The usable stored hash of a user row: present and not blank.
pub open spec fn usable_hash(u: UserRow) -> Option<Seq<char>> {
    match u.password_hash {
        Option::Some(h) => if trim_of(h@).len() > 0 {
            Some(h@)
        } else {
            None
        },
        Option::None => None,
    }
}

/// What the password check answers for a user, a candidate and the fallback
/// login password: against the stored hash when the user has a usable one,
/// against the trimmed fallback otherwise.  `None` when the stored hash is
/// malformed.
pub open spec fn password_matches_spec(
    db: Db,
    user_id: Seq<char>,
    candidate: Seq<char>,
    fallback: Seq<char>,
) -> Option<bool> {
    if user_exists(db, user_id) {
        match usable_hash(db.users@[user_at(db, user_id)]) {
            Option::Some(h) => verify_of(candidate, h),
            Option::None => Some(candidate == trim_of(fallback)),
        }
    } else {
        Some(candidate == trim_of(fallback))
    }
}

/// Checks a candidate password for a user: against the stored hash when
/// there is a usable one, against the fallback login password otherwise.
pub fn password_matches_for_user(
    db: &Db,
    user_id: &String,
    candidate: &str,
    login_password: &str,
) -> (r: Result<bool, ApiError>)
    requires
        unique_users(db.users@),
    ensures
        r matches Ok(b) ==> password_matches_spec(*db, user_id@, candidate@, login_password@)
            == Some(b),
        r matches Err(e) ==> (e == ApiError::Internal
            && password_matches_spec(*db, user_id@, candidate@, login_password@) is None),
{
    match find_user(db, user_id) {
        Some(i) => {
            proof {
                lemma_user_at(*db, i as int);
            }
            match &db.users[i].password_hash {
                Option::Some(h) => {
                    let ht = trim_str(h.as_str());
                    if ht.unicode_len() > 0 {
                        verify_password(candidate, h.as_str())
                    } else {
                        Ok(str_eq(candidate, trim_str(login_password)))
                    }
                },
                Option::None => Ok(str_eq(candidate, trim_str(login_password))),
            }
        },
        None => Ok(str_eq(candidate, trim_str(login_password))),
    }
}

/// The `authorization` value opens with the bearer scheme.
pub open spec fn has_bearer_prefix(a: Seq<char>) -> bool {
    a.len() >= 7 && a.subrange(0, 7) == "Bearer "@
}

/// The token carried after the `Bearer ` prefix.
pub open spec fn bearer_token_of(a: Seq<char>) -> Seq<char> {
    a.skip(7)
}

/// Resolves a context from the dev fallback headers.
fn ctx_from_headers_path(
    db: &Db,
    header_space: Option<&String>,
    header_user: Option<&String>,
) -> (r: Result<Ctx, ApiError>)
    requires
        unique_memberships(db.memberships@),
    ensures
        r matches Ok(ctx) ==> ctx_ok(*db, ctx),
        match (header_space, header_user) {
            (Some(sp), Some(us)) => {
                &&& is_member(*db, sp@, us@) ==> (r matches Ok(ctx) && ctx.space_id@ == sp@
                    && ctx.user_id@ == us@ && ctx.role == member_role(*db, sp@, us@))
                &&& !is_member(*db, sp@, us@) ==> r == Err::<Ctx, ApiError>(ApiError::Unauthorized)
            },
            _ => r == Err::<Ctx, ApiError>(ApiError::Unauthorized),
        },
{
    match (header_space, header_user) {
        (Some(sp), Some(us)) => match role_from_membership(db, sp, us) {
            Ok(role) => Ok(Ctx { space_id: sp.clone(), user_id: us.clone(), role }),
            Err(e) => Err(e),
        },
        _ => Err(ApiError::Unauthorized),
    }
}

/// Resolves the caller of a request.  A bearer token is preferred: its
/// `(sub, space_id)` claims must correspond to an existing membership, whose
/// role is looked up fresh — a token can never carry a role of its own.
/// Without a token, the explicit space and user headers are checked the same
/// way.
pub fn ctx_from_credentials(
    db: &Db,
    authorization: Option<&String>,
    jwt_secret: &String,
    header_space: Option<&String>,
    header_user: Option<&String>,
) -> (r: Result<Ctx, ApiError>)
    requires
        unique_memberships(db.memberships@),
    ensures
        r matches Ok(ctx) ==> ctx_ok(*db, ctx),
        match authorization {
            Some(a) => has_bearer_prefix(a@) ==> ((r matches Ok(ctx)
                ==> payload_of(bearer_token_of(a@)) == Some((ctx.user_id@, ctx.space_id@)))
                && (r is Err ==> r == Err::<Ctx, ApiError>(ApiError::Unauthorized))),
            None => true,
        },
        (match authorization {
            Some(a) => !has_bearer_prefix(a@),
            None => true,
        }) ==> match (header_space, header_user) {
            (Some(sp), Some(us)) => {
                &&& is_member(*db, sp@, us@) ==> (r matches Ok(ctx) && ctx.space_id@ == sp@
                    && ctx.user_id@ == us@ && ctx.role == member_role(*db, sp@, us@))
                &&& !is_member(*db, sp@, us@) ==> r == Err::<Ctx, ApiError>(ApiError::Unauthorized)
            },
            _ => r == Err::<Ctx, ApiError>(ApiError::Unauthorized),
        },
{
    proof {
        reveal_strlit("Bearer ");
        assert("Bearer "@.len() == 7);
    }
    match authorization {
        Some(a) => {
            let astr = a.as_str();
            let n = astr.unicode_len();
            if n >= 7 {
                let pre = astr.substring_char(0, 7);
                if str_eq(pre, "Bearer ") {
                    let token = astr.substring_char(7, n);
                    proof {
                        assert(token@ =~= bearer_token_of(a@));
                    }
                    match jwt_decode(token, jwt_secret.as_str()) {
                        Some(p) => {
                            let (sub, sp) = p;
                            match role_from_membership(db, &sp, &sub) {
                                Ok(role) => {
                                    return Ok(Ctx { space_id: sp, user_id: sub, role });
                                },
                                Err(_) => {
                                    return Err(ApiError::Unauthorized);
                                },
                            }
                        },
                        None => {
                            return Err(ApiError::Unauthorized);
                        },
                    }
                }
            }
            proof {
                assert(!has_bearer_prefix(a@));
            }
            ctx_from_headers_path(db, header_space, header_user)
        },
        None => ctx_from_headers_path(db, header_space, header_user),
    }
}

/// What a successful login returns.
#[derive(PartialEq, Eq, Debug)]
pub struct LoginResponse {
    pub token: String,
    pub user_id: String,
    pub email: String,
    pub display: String,
    pub avatar_icon: Option<String>,
    pub space_id: String,
    pub role: Role,
}

/// The space a login targets: the requested one, or the default space.
pub open spec fn login_space(space_id: Option<&String>) -> Seq<char> {
    match space_id {
        Option::Some(s) => s@,
        Option::None => "s1"@,
    }
}

/// Some user matches the lowercased email and is a member of the space.
pub open spec fn login_user_exists(db: Db, email_low: Seq<char>, space: Seq<char>) -> bool {
    exists|i: int| 0 <= i < db.users@.len()
        && lower_of((#[trigger] db.users@[i].email@)) == email_low
        && is_member(db, space, db.users@[i].id@)
}

/// The index of the user a login binds to.
pub open spec fn login_user_at(db: Db, email_low: Seq<char>, space: Seq<char>) -> int {
    choose|i: int| 0 <= i < db.users@.len()
        && lower_of((#[trigger] db.users@[i].email@)) == email_low
        && is_member(db, space, db.users@[i].id@)
}

/// The response fields of a successful login for the user at `i`.
pub open spec fn login_response_ok(db: Db, resp: LoginResponse, i: int, space: Seq<char>) -> bool {
    &&& 0 <= i < db.users@.len()
    &&& resp.user_id@ == db.users@[i].id@
    &&& resp.email@ == db.users@[i].email@
    &&& resp.display@ == db.users@[i].display@
    &&& view_opt(resp.avatar_icon) == view_opt(db.users@[i].avatar_icon)
    &&& resp.space_id@ == space
    &&& resp.role == member_role(db, space, db.users@[i].id@)
    &&& payload_of(resp.token@) == Some((db.users@[i].id@, space))
}

/// The two rows agree on everything but the stored password hash.
pub open spec fn same_but_hash(u: UserRow, v: UserRow) -> bool {
    v == (UserRow { password_hash: v.password_hash, ..u })
}

/// The user table after a legacy login: row `i` now stores a fresh bcrypt
/// hash that verifies the password, everything else is as it was.
pub open spec fn hash_upgraded(
    old_users: Seq<UserRow>,
    new_users: Seq<UserRow>,
    i: int,
    pw: Seq<char>,
) -> bool {
    &&& new_users.len() == old_users.len()
    &&& forall|j: int| 0 <= j < old_users.len() && j != i ==> new_users[j] == old_users[j]
    &&& 0 <= i < old_users.len()
    &&& same_but_hash(old_users[i], new_users[i])
    &&& match new_users[i].password_hash {
        Option::Some(h) => h@.len() == 60 && h@[0] == '$' && h@[1] == '2'
            && verify_of(pw, h@) == Some(true),
        Option::None => false,
    }
}

/// Authenticates a user against a space and issues a bearer token.
///
/// The email is matched case-insensitively; the role comes from the
/// membership table.  A user without a usable stored hash may sign in once
/// with the fallback login password, and the row is upgraded to a bcrypt
/// hash of it.
pub fn login(
    db: &mut Db,
    email: &String,
    password: &String,
    space_id: Option<&String>,
    login_password: &String,
    jwt_secret: &String,
    now_s: usize,
) -> (r: Result<LoginResponse, ApiError>)
    requires
        wf(*old(db)),
    ensures
        wf(*final(db)),
        admin_covered(*old(db)) ==> admin_covered(*final(db)),
        final(db).spaces@ == old(db).spaces@,
        final(db).memberships@ == old(db).memberships@,
        final(db).lists@ == old(db).lists@,
        final(db).grants@ == old(db).grants@,
        final(db).tasks@ == old(db).tasks@,
        final(db).users@.len() == old(db).users@.len(),
        trim_of(password@).len() == 0 ==> (r == Err::<LoginResponse, ApiError>(ApiError::BadRequest)
            && final(db).users@ == old(db).users@),
        trim_of(password@).len() > 0 && trim_of(email@).len() == 0 ==> (r == Err::<
            LoginResponse,
            ApiError,
        >(ApiError::BadRequest) && final(db).users@ == old(db).users@),
        trim_of(password@).len() > 0 && trim_of(email@).len() > 0 && !login_user_exists(
            *old(db),
            lower_of(trim_of(email@)),
            login_space(space_id),
        ) ==> (r == Err::<LoginResponse, ApiError>(ApiError::Unauthorized)
            && final(db).users@ == old(db).users@),
        (trim_of(password@).len() > 0 && trim_of(email@).len() > 0 && login_user_exists(
            *old(db),
            lower_of(trim_of(email@)),
            login_space(space_id),
        )) ==> login_outcome_ok(
            *old(db),
            *final(db),
            r,
            trim_of(password@),
            lower_of(trim_of(email@)),
            login_space(space_id),
            login_password@,
        ),
{
    let pw = trim_str(password.as_str());
    if pw.unicode_len() == 0 {
        return Err(ApiError::BadRequest);
    }
    let em = trim_str(email.as_str());
    if em.unicode_len() == 0 {
        return Err(ApiError::BadRequest);
    }
    let space: String = match space_id {
        Some(s) => s.clone(),
        None => "s1".to_owned(),
    };
    let email_low = lowercase_str(em);
    let ghost sp_spec = login_space(space_id);
    let ghost el = lower_of(trim_of(email@));
    proof {
        assert(space@ == sp_spec);
        assert(email_low@ == el);
    }
    let ui = match find_user_by_email(&*db, &email_low) {
        Some(i) => i,
        None => {
            proof {
                assert(!login_user_exists(*db, el, sp_spec));
            }
            return Err(ApiError::Unauthorized);
        },
    };
    let uid = db.users[ui].id.clone();
    let role = match role_from_membership(&*db, &space, &uid) {
        Ok(ro) => ro,
        Err(_) => {
            proof {
                assert forall|j: int| 0 <= j < db.users@.len()
                    && lower_of((#[trigger] db.users@[j].email@)) == el implies !is_member(
                    *db,
                    sp_spec,
                    db.users@[j].id@,
                ) by {
                    if j != ui as int {
                        assert(lower_of(db.users@[ui as int].email@) == el);
                        assert(false);
                    }
                }
                assert(!login_user_exists(*db, el, sp_spec));
            }
            return Err(ApiError::Unauthorized);
        },
    };
    proof {
        assert(login_user_exists(*db, el, sp_spec));
        let j = login_user_at(*db, el, sp_spec);
        if j != ui as int {
            assert(lower_of(db.users@[ui as int].email@) == el);
            assert(false);
        }
    }
    let hash_opt = clone_opt_string(&db.users[ui].password_hash);
    let usable: Option<String> = match hash_opt {
        Some(h) => {
            if trim_str(h.as_str()).unicode_len() > 0 {
                Some(h)
            } else {
                None
            }
        },
        None => None,
    };
    match usable {
        Some(h) => {
            match verify_password(pw, h.as_str()) {
                Ok(ok) => {
                    if !ok {
                        return Err(ApiError::Unauthorized);
                    }
                },
                Err(e) => {
                    return Err(e);
                },
            }
        },
        None => {
            if !str_eq(pw, trim_str(login_password.as_str())) {
                return Err(ApiError::Unauthorized);
            }
            let new_hash = match hash_password(pw) {
                Ok(h) => h,
                Err(e) => {
                    return Err(e);
                },
            };
            let mut u2 = db.users[ui].clone();
            u2.password_hash = Some(new_hash);
            replace_at(&mut db.users, ui, u2);
            proof {
                lemma_wf_users_patch(*old(db), *db);
            }
        },
    }
    let token = match issue_token(uid.as_str(), space.as_str(), jwt_secret.as_str(), now_s) {
        Ok(t) => t,
        Err(e) => {
            return Err(e);
        },
    };
    Ok(LoginResponse {
        token,
        user_id: uid,
        email: db.users[ui].email.clone(),
        display: db.users[ui].display.clone(),
        avatar_icon: clone_opt_string(&db.users[ui].avatar_icon),
        space_id: space,
        role,
    })
}

/// The outcome a login owes once the user is found: acceptance against the
/// stored hash, rejection on a wrong password, the one-time legacy upgrade,
/// and `Internal` only where the hash primitive fails.
pub open spec fn login_outcome_ok(
    pre: Db,
    post: Db,
    r: Result<LoginResponse, ApiError>,
    pw: Seq<char>,
    email_low: Seq<char>,
    space: Seq<char>,
    fallback: Seq<char>,
) -> bool {
    let i = login_user_at(pre, email_low, space);
    let u = pre.users@[i];
    match usable_hash(u) {
        Option::Some(h) => {
            &&& post.users@ == pre.users@
            &&& (verify_of(pw, h) == Some(true) ==> (r matches Ok(resp) ==> login_response_ok(
                pre,
                resp,
                i,
                space,
            )) && (r is Err ==> r == Err::<LoginResponse, ApiError>(ApiError::Internal)))
            &&& (verify_of(pw, h) == Some(false) ==> r == Err::<LoginResponse, ApiError>(
                ApiError::Unauthorized,
            ))
            &&& (verify_of(pw, h) is None ==> r == Err::<LoginResponse, ApiError>(
                ApiError::Internal,
            ))
        },
        Option::None => {
            &&& (pw != trim_of(fallback) ==> (r == Err::<LoginResponse, ApiError>(
                ApiError::Unauthorized,
            ) && post.users@ == pre.users@))
            &&& (pw == trim_of(fallback) ==> ((r matches Ok(resp) ==> hash_upgraded(
                pre.users@,
                post.users@,
                i,
                pw,
            ) && login_response_ok(pre, resp, i, space)) && (r is Err ==> r == Err::<
                LoginResponse,
                ApiError,
            >(ApiError::Internal))))
        },
    }
}

} // verus!
