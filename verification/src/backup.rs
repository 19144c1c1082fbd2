//! The backup engine: an admin-only snapshot of one space, and its atomic
//! restore.  A restore validates the whole bundle first and then swaps the
//! space's rows in one step, so on any failure nothing has changed.

use vstd::prelude::*;
use vstd::string::StrSliceExecFns;
use crate::domain::{admin_covered, ApiError, Ctx, Db, GrantRow, ListRow, MembershipRow};
use crate::domain::{Role, SpaceRow, Task, UserRow};
use crate::domain::{ctx_ok, find_space, has_space, is_member, list_in_space};
use crate::domain::{lemma_filter_subset, lemma_space_at, space_at, space_has_admin};
use crate::domain::{unique_emails, unique_grants, unique_lists, unique_memberships};
use crate::domain::{unique_tasks, unique_users, wf, user_exists};
use crate::identity::unix_now_secs;
use crate::order::{lemma_filter_take_step, sort_by_key, sorted_keys};
use crate::strutil::{lower_of, lowercase_str, str_eq, trim_of, trim_str};
use crate::profile::is_sound_theme;

verus! {

broadcast use vstd::string::group_string_axioms;

/// A self-describing snapshot of one space.
pub struct SpaceBackupBundle {
    pub schema: String,
    pub exported_at_ts: i64,
    pub space: SpaceRow,
    pub users: Vec<UserRow>,
    pub memberships: Vec<MembershipRow>,
    pub lists: Vec<ListRow>,
    pub list_grants: Vec<GrantRow>,
    pub tasks: Vec<Task>,
}

/// What a restore reports: the entity counts and the moment of restore.
pub struct RestoreBackupResponse {
    pub restored_at_ts: i64,
    pub space_id: String,
    pub users: usize,
    pub memberships: usize,
    pub lists: usize,
    pub list_grants: usize,
    pub tasks: usize,
}

/// The users an export gathers: those holding a membership in the space.
pub open spec fn space_user_pred(db: Db, space: Seq<char>) -> spec_fn(UserRow) -> bool {
    |u: UserRow| is_member(db, space, u.id@)
}

/// The membership rows of the space.
pub open spec fn space_membership_pred(space: Seq<char>) -> spec_fn(MembershipRow) -> bool {
    |m: MembershipRow| m.space_id@ == space
}

/// The list rows of the space.
pub open spec fn space_list_pred(space: Seq<char>) -> spec_fn(ListRow) -> bool {
    |l: ListRow| l.space_id@ == space
}

/// The grant rows of the space.
pub open spec fn space_grant_pred(space: Seq<char>) -> spec_fn(GrantRow) -> bool {
    |g: GrantRow| g.space_id@ == space
}

/// The task rows of the space.
pub open spec fn space_task_pred(space: Seq<char>) -> spec_fn(Task) -> bool {
    |t: Task| t.space_id@ == space
}

/// An exported bundle snapshots exactly the space's rows: the space row,
/// its member users ordered by id, its memberships ordered by id, lists by
/// `list_order`, grants by id and tasks by `task_order`.
pub open spec fn export_bundle_ok(db: Db, space: Seq<char>, b: SpaceBackupBundle) -> bool {
    &&& b.schema@ == "tasksync-space-backup-v1"@
    &&& b.space == db.spaces@[space_at(db, space)]
    &&& b.users@.to_multiset() == db.users@.filter(space_user_pred(db, space)).to_multiset()
    &&& sorted_keys::<UserRow>(b.users@)
    &&& b.memberships@.to_multiset() == db.memberships@.filter(
        space_membership_pred(space),
    ).to_multiset()
    &&& sorted_keys::<MembershipRow>(b.memberships@)
    &&& b.lists@.to_multiset() == db.lists@.filter(space_list_pred(space)).to_multiset()
    &&& sorted_keys::<ListRow>(b.lists@)
    &&& b.list_grants@.to_multiset() == db.grants@.filter(space_grant_pred(space)).to_multiset()
    &&& sorted_keys::<GrantRow>(b.list_grants@)
    &&& b.tasks@.to_multiset() == db.tasks@.filter(space_task_pred(space)).to_multiset()
    &&& sorted_keys::<Task>(b.tasks@)
}

/// Snapshots the caller's space; admin only.
pub fn export_backup(db: &Db, ctx: &Ctx) -> (r: Result<SpaceBackupBundle, ApiError>)
    requires
        wf(*db),
        ctx_ok(*db, *ctx),
    ensures
        ctx.role != Role::Admin ==> r == Err::<SpaceBackupBundle, ApiError>(ApiError::Forbidden),
        (ctx.role == Role::Admin && !has_space(*db, ctx.space_id@)) ==> r == Err::<
            SpaceBackupBundle,
            ApiError,
        >(ApiError::NotFound),
        (ctx.role == Role::Admin && has_space(*db, ctx.space_id@)) ==> (r matches Ok(b)
            && export_bundle_ok(*db, ctx.space_id@, b)),
{
    if ctx.role != Role::Admin {
        return Err(ApiError::Forbidden);
    }
    let sk = match find_space(db, &ctx.space_id) {
        Some(k) => k,
        None => {
            return Err(ApiError::NotFound);
        },
    };
    proof {
        lemma_space_at(*db, sk as int);
    }
    let space_row = db.spaces[sk].clone();

    let mut users: Vec<UserRow> = Vec::new();
    let un = db.users.len();
    let mut i: usize = 0;
    while i < un
        invariant
            i <= un,
            un == db.users@.len(),
            users@ == db.users@.take(i as int).filter(space_user_pred(*db, ctx.space_id@)),
        decreases un - i,
    {
        let keep = match crate::domain::find_membership(db, &ctx.space_id, &db.users[i].id) {
            Some(_) => true,
            None => false,
        };
        proof {
            assert(keep == space_user_pred(*db, ctx.space_id@)(db.users@[i as int]));
            lemma_filter_take_step(db.users@, space_user_pred(*db, ctx.space_id@), i as int);
        }
        if keep {
            users.push(db.users[i].clone());
        }
        i = i + 1;
    }
    proof {
        assert(db.users@.take(un as int) =~= db.users@);
    }
    sort_by_key(&mut users);

    let mut memberships: Vec<MembershipRow> = Vec::new();
    let mn = db.memberships.len();
    let mut j: usize = 0;
    while j < mn
        invariant
            j <= mn,
            mn == db.memberships@.len(),
            memberships@ == db.memberships@.take(j as int).filter(
                space_membership_pred(ctx.space_id@),
            ),
        decreases mn - j,
    {
        let keep = db.memberships[j].space_id == ctx.space_id;
        proof {
            assert(keep == space_membership_pred(ctx.space_id@)(db.memberships@[j as int]));
            lemma_filter_take_step(db.memberships@, space_membership_pred(ctx.space_id@), j as int);
        }
        if keep {
            memberships.push(db.memberships[j].clone());
        }
        j = j + 1;
    }
    proof {
        assert(db.memberships@.take(mn as int) =~= db.memberships@);
    }
    sort_by_key(&mut memberships);

    let mut lists: Vec<ListRow> = Vec::new();
    let ln = db.lists.len();
    let mut k: usize = 0;
    while k < ln
        invariant
            k <= ln,
            ln == db.lists@.len(),
            lists@ == db.lists@.take(k as int).filter(space_list_pred(ctx.space_id@)),
        decreases ln - k,
    {
        let keep = db.lists[k].space_id == ctx.space_id;
        proof {
            assert(keep == space_list_pred(ctx.space_id@)(db.lists@[k as int]));
            lemma_filter_take_step(db.lists@, space_list_pred(ctx.space_id@), k as int);
        }
        if keep {
            lists.push(db.lists[k].clone());
        }
        k = k + 1;
    }
    proof {
        assert(db.lists@.take(ln as int) =~= db.lists@);
    }
    sort_by_key(&mut lists);

    let mut grants: Vec<GrantRow> = Vec::new();
    let gn = db.grants.len();
    let mut g: usize = 0;
    while g < gn
        invariant
            g <= gn,
            gn == db.grants@.len(),
            grants@ == db.grants@.take(g as int).filter(space_grant_pred(ctx.space_id@)),
        decreases gn - g,
    {
        let keep = db.grants[g].space_id == ctx.space_id;
        proof {
            assert(keep == space_grant_pred(ctx.space_id@)(db.grants@[g as int]));
            lemma_filter_take_step(db.grants@, space_grant_pred(ctx.space_id@), g as int);
        }
        if keep {
            grants.push(db.grants[g].clone());
        }
        g = g + 1;
    }
    proof {
        assert(db.grants@.take(gn as int) =~= db.grants@);
    }
    sort_by_key(&mut grants);

    let mut tasks: Vec<Task> = Vec::new();
    let tn = db.tasks.len();
    let mut t: usize = 0;
    while t < tn
        invariant
            t <= tn,
            tn == db.tasks@.len(),
            tasks@ == db.tasks@.take(t as int).filter(space_task_pred(ctx.space_id@)),
        decreases tn - t,
    {
        let keep = db.tasks[t].space_id == ctx.space_id;
        proof {
            assert(keep == space_task_pred(ctx.space_id@)(db.tasks@[t as int]));
            lemma_filter_take_step(db.tasks@, space_task_pred(ctx.space_id@), t as int);
        }
        if keep {
            tasks.push(db.tasks[t].clone());
        }
        t = t + 1;
    }
    proof {
        assert(db.tasks@.take(tn as int) =~= db.tasks@);
    }
    sort_by_key(&mut tasks);

    let now: u64 = unix_now_secs() as u64;
    let exported_at_ts: i64 = if now > (i64::MAX as u64) {
        i64::MAX
    } else {
        now as i64
    };
    Ok(SpaceBackupBundle {
        schema: "tasksync-space-backup-v1".to_owned(),
        exported_at_ts,
        space: space_row,
        users,
        memberships,
        lists,
        list_grants: grants,
        tasks,
    })
}

// ---------------------------------------------------------------------------
// Bundle validation
// ---------------------------------------------------------------------------

/// One bundled user row is structurally sound.
pub open spec fn bundle_user_valid(u: UserRow) -> bool {
    &&& trim_of(u.id@).len() > 0
    &&& trim_of(u.email@).len() > 0
    &&& trim_of(u.display@).len() > 0
    &&& 0 <= u.sound_volume <= 100
    &&& is_sound_theme(u.sound_theme@)
}

/// One bundled membership row belongs to the space and has its ids.
pub open spec fn bundle_membership_valid(m: MembershipRow, space: Seq<char>) -> bool {
    &&& m.space_id@ == space
    &&& trim_of(m.user_id@).len() > 0
    &&& trim_of(m.id@).len() > 0
}

/// One bundled list row belongs to the space and has id and name.
pub open spec fn bundle_list_valid(l: ListRow, space: Seq<char>) -> bool {
    &&& l.space_id@ == space
    &&& trim_of(l.id@).len() > 0
    &&& trim_of(l.name@).len() > 0
}

/// One bundled grant row belongs to the space and has its ids.
pub open spec fn bundle_grant_valid(g: GrantRow, space: Seq<char>) -> bool {
    &&& g.space_id@ == space
    &&& trim_of(g.id@).len() > 0
    &&& trim_of(g.list_id@).len() > 0
    &&& trim_of(g.user_id@).len() > 0
}

/// One bundled task row belongs to the space and has id, list and title.
pub open spec fn bundle_task_valid(t: Task, space: Seq<char>) -> bool {
    &&& t.space_id@ == space
    &&& trim_of(t.id@).len() > 0
    &&& trim_of(t.list_id@).len() > 0
    &&& trim_of(t.title@).len() > 0
}

/// Every bundled row is structurally sound for this space.
pub open spec fn bundle_rows_valid(b: SpaceBackupBundle, space: Seq<char>) -> bool {
    &&& (forall|i: int| 0 <= i < b.users@.len() ==> bundle_user_valid(#[trigger] b.users@[i]))
    &&& (forall|i: int| 0 <= i < b.memberships@.len() ==> bundle_membership_valid(
        #[trigger] b.memberships@[i],
        space,
    ))
    &&& (forall|i: int| 0 <= i < b.lists@.len() ==> bundle_list_valid(#[trigger] b.lists@[i], space))
    &&& (forall|i: int| 0 <= i < b.list_grants@.len() ==> bundle_grant_valid(
        #[trigger] b.list_grants@[i],
        space,
    ))
    &&& (forall|i: int| 0 <= i < b.tasks@.len() ==> bundle_task_valid(#[trigger] b.tasks@[i], space))
}

/// The acting admin's own admin membership appears in the bundle, so a
/// restore can never lock the actor out.
pub open spec fn actor_admin_in_bundle(b: SpaceBackupBundle, ctx: Ctx) -> bool {
    exists|i: int| 0 <= i < b.memberships@.len()
        && (#[trigger] b.memberships@[i]).space_id@ == ctx.space_id@
        && b.memberships@[i].user_id@ == ctx.user_id@ && b.memberships@[i].role == Role::Admin
}

/// The bundled task's list is itself in the bundle.
pub open spec fn task_list_in_bundle(b: SpaceBackupBundle, t: Task) -> bool {
    exists|i: int| 0 <= i < b.lists@.len() && (#[trigger] b.lists@[i]).space_id@ == t.space_id@
        && b.lists@[i].id@ == t.list_id@
}

/// No bundled user's lowercased email collides with a different stored
/// user's.
pub open spec fn cross_emails_ok(old_users: Seq<UserRow>, bu: Seq<UserRow>) -> bool {
    forall|j: int, k: int| 0 <= j < old_users.len() && 0 <= k < bu.len()
        && (#[trigger] old_users[j].id@) != (#[trigger] bu[k].id@)
        ==> lower_of(old_users[j].email@) != lower_of(bu[k].email@)
}

/// What the schema's key and foreign-key constraints ask of the bundle
/// against the store: without it the swap would break the store invariants
/// and the whole restore is rolled back.
pub open spec fn bundle_integrity_ok(db: Db, b: SpaceBackupBundle) -> bool {
    &&& unique_users(b.users@)
    &&& unique_emails(b.users@)
    &&& cross_emails_ok(db.users@, b.users@)
    &&& unique_memberships(b.memberships@)
    &&& unique_lists(b.lists@)
    &&& unique_grants(b.list_grants@)
    &&& unique_tasks(b.tasks@)
    &&& (forall|i: int| 0 <= i < b.tasks@.len() ==> task_list_in_bundle(b, #[trigger] b.tasks@[i]))
    &&& (forall|i: int| 0 <= i < b.memberships@.len() ==> (bundle_has_user_id(
        b,
        (#[trigger] b.memberships@[i]).user_id@,
    ) || user_exists(db, b.memberships@[i].user_id@)))
}

/// Checks that bundled user ids and lowercased emails are pairwise
/// distinct.
fn users_pairwise_ok(v: &Vec<UserRow>) -> (r: bool)
    ensures
        r == (unique_users(v@) && unique_emails(v@)),
{
    let n = v.len();
    let mut i: usize = 0;
    while i < n
        invariant
            i <= n,
            n == v@.len(),
            forall|a: int, b2: int| 0 <= a < b2 < i ==> (#[trigger] v@[a].id@)
                != (#[trigger] v@[b2].id@),
            forall|a: int, b2: int| 0 <= a < b2 < i ==> lower_of((#[trigger] v@[a].email@))
                != lower_of((#[trigger] v@[b2].email@)),
        decreases n - i,
    {
        let mut j: usize = 0;
        while j < i
            invariant
                j <= i < n,
                n == v@.len(),
                forall|a: int, b2: int| 0 <= a < b2 < i ==> (#[trigger] v@[a].id@)
                    != (#[trigger] v@[b2].id@),
                forall|a: int, b2: int| 0 <= a < b2 < i ==> lower_of((#[trigger] v@[a].email@))
                    != lower_of((#[trigger] v@[b2].email@)),
                forall|b2: int| 0 <= b2 < j ==> (#[trigger] v@[b2].id@) != v@[i as int].id@,
                forall|b2: int| 0 <= b2 < j ==> lower_of((#[trigger] v@[b2].email@))
                    != lower_of(v@[i as int].email@),
            decreases i - j,
        {
            if v[j].id == v[i].id {
                return false;
            }
            let e1 = lowercase_str(v[j].email.as_str());
            let e2 = lowercase_str(v[i].email.as_str());
            if e1 == e2 {
                return false;
            }
            j = j + 1;
        }
        proof {
            assert forall|a: int, b2: int| 0 <= a < b2 < i + 1 implies (#[trigger] v@[a].id@)
                != (#[trigger] v@[b2].id@) by {
                if b2 == i as int {
                    assert(v@[a].id@ != v@[i as int].id@);
                }
            }
            assert forall|a: int, b2: int| 0 <= a < b2 < i + 1 implies lower_of(
                (#[trigger] v@[a].email@),
            ) != lower_of((#[trigger] v@[b2].email@)) by {
                if b2 == i as int {
                    assert(lower_of(v@[a].email@) != lower_of(v@[i as int].email@));
                }
            }
        }
        i = i + 1;
    }
    true
}

/// Checks that no bundled user's lowercased email collides with a
/// different stored user's.
fn cross_emails_check(old_users: &Vec<UserRow>, bu: &Vec<UserRow>) -> (r: bool)
    ensures
        r == cross_emails_ok(old_users@, bu@),
{
    let n = old_users.len();
    let m = bu.len();
    let mut j: usize = 0;
    while j < n
        invariant
            j <= n,
            n == old_users@.len(),
            m == bu@.len(),
            forall|a: int, k: int| 0 <= a < j && 0 <= k < m
                && (#[trigger] old_users@[a].id@) != (#[trigger] bu@[k].id@)
                ==> lower_of(old_users@[a].email@) != lower_of(bu@[k].email@),
        decreases n - j,
    {
        let mut k: usize = 0;
        while k < m
            invariant
                k <= m,
                j < n,
                n == old_users@.len(),
                m == bu@.len(),
                forall|a: int, k2: int| 0 <= a < j && 0 <= k2 < m
                    && (#[trigger] old_users@[a].id@) != (#[trigger] bu@[k2].id@)
                    ==> lower_of(old_users@[a].email@) != lower_of(bu@[k2].email@),
                forall|k2: int| 0 <= k2 < k && old_users@[j as int].id@
                    != (#[trigger] bu@[k2].id@) ==> lower_of(old_users@[j as int].email@)
                    != lower_of(bu@[k2].email@),
            decreases m - k,
        {
            if old_users[j].id != bu[k].id {
                let e1 = lowercase_str(old_users[j].email.as_str());
                let e2 = lowercase_str(bu[k].email.as_str());
                if e1 == e2 {
                    return false;
                }
            }
            k = k + 1;
        }
        j = j + 1;
    }
    true
}

/// Checks that bundled memberships are unique per `(space, user)`.
fn memberships_pairwise_ok(v: &Vec<MembershipRow>) -> (r: bool)
    ensures
        r == unique_memberships(v@),
{
    let n = v.len();
    let mut i: usize = 0;
    while i < n
        invariant
            i <= n,
            n == v@.len(),
            forall|a: int, b2: int| 0 <= a < b2 < i
                ==> !((#[trigger] v@[a].space_id@) == (#[trigger] v@[b2].space_id@)
                    && v@[a].user_id@ == v@[b2].user_id@),
        decreases n - i,
    {
        let mut j: usize = 0;
        while j < i
            invariant
                j <= i < n,
                n == v@.len(),
                forall|a: int, b2: int| 0 <= a < b2 < i
                    ==> !((#[trigger] v@[a].space_id@) == (#[trigger] v@[b2].space_id@)
                        && v@[a].user_id@ == v@[b2].user_id@),
                forall|b2: int| 0 <= b2 < j
                    ==> !((#[trigger] v@[b2].space_id@) == v@[i as int].space_id@
                        && v@[b2].user_id@ == v@[i as int].user_id@),
            decreases i - j,
        {
            if v[j].space_id == v[i].space_id && v[j].user_id == v[i].user_id {
                return false;
            }
            j = j + 1;
        }
        i = i + 1;
    }
    true
}

/// Checks that bundled lists are unique per `(space, id)`.
fn lists_pairwise_ok(v: &Vec<ListRow>) -> (r: bool)
    ensures
        r == unique_lists(v@),
{
    let n = v.len();
    let mut i: usize = 0;
    while i < n
        invariant
            i <= n,
            n == v@.len(),
            forall|a: int, b2: int| 0 <= a < b2 < i
                ==> !((#[trigger] v@[a].space_id@) == (#[trigger] v@[b2].space_id@)
                    && v@[a].id@ == v@[b2].id@),
        decreases n - i,
    {
        let mut j: usize = 0;
        while j < i
            invariant
                j <= i < n,
                n == v@.len(),
                forall|a: int, b2: int| 0 <= a < b2 < i
                    ==> !((#[trigger] v@[a].space_id@) == (#[trigger] v@[b2].space_id@)
                        && v@[a].id@ == v@[b2].id@),
                forall|b2: int| 0 <= b2 < j
                    ==> !((#[trigger] v@[b2].space_id@) == v@[i as int].space_id@
                        && v@[b2].id@ == v@[i as int].id@),
            decreases i - j,
        {
            if v[j].space_id == v[i].space_id && v[j].id == v[i].id {
                return false;
            }
            j = j + 1;
        }
        i = i + 1;
    }
    true
}

/// Checks that bundled grants are unique per `(space, list, user)`.
fn grants_pairwise_ok(v: &Vec<GrantRow>) -> (r: bool)
    ensures
        r == unique_grants(v@),
{
    let n = v.len();
    let mut i: usize = 0;
    while i < n
        invariant
            i <= n,
            n == v@.len(),
            forall|a: int, b2: int| 0 <= a < b2 < i
                ==> !((#[trigger] v@[a].space_id@) == (#[trigger] v@[b2].space_id@)
                    && v@[a].list_id@ == v@[b2].list_id@ && v@[a].user_id@ == v@[b2].user_id@),
        decreases n - i,
    {
        let mut j: usize = 0;
        while j < i
            invariant
                j <= i < n,
                n == v@.len(),
                forall|a: int, b2: int| 0 <= a < b2 < i
                    ==> !((#[trigger] v@[a].space_id@) == (#[trigger] v@[b2].space_id@)
                        && v@[a].list_id@ == v@[b2].list_id@ && v@[a].user_id@ == v@[b2].user_id@),
                forall|b2: int| 0 <= b2 < j
                    ==> !((#[trigger] v@[b2].space_id@) == v@[i as int].space_id@
                        && v@[b2].list_id@ == v@[i as int].list_id@
                        && v@[b2].user_id@ == v@[i as int].user_id@),
            decreases i - j,
        {
            if v[j].space_id == v[i].space_id && v[j].list_id == v[i].list_id
                && v[j].user_id == v[i].user_id {
                return false;
            }
            j = j + 1;
        }
        i = i + 1;
    }
    true
}

/// Checks that bundled tasks are unique per `(space, id)`.
fn tasks_pairwise_ok(v: &Vec<Task>) -> (r: bool)
    ensures
        r == unique_tasks(v@),
{
    let n = v.len();
    let mut i: usize = 0;
    while i < n
        invariant
            i <= n,
            n == v@.len(),
            forall|a: int, b2: int| 0 <= a < b2 < i
                ==> !((#[trigger] v@[a].space_id@) == (#[trigger] v@[b2].space_id@)
                    && v@[a].id@ == v@[b2].id@),
        decreases n - i,
    {
        let mut j: usize = 0;
        while j < i
            invariant
                j <= i < n,
                n == v@.len(),
                forall|a: int, b2: int| 0 <= a < b2 < i
                    ==> !((#[trigger] v@[a].space_id@) == (#[trigger] v@[b2].space_id@)
                        && v@[a].id@ == v@[b2].id@),
                forall|b2: int| 0 <= b2 < j
                    ==> !((#[trigger] v@[b2].space_id@) == v@[i as int].space_id@
                        && v@[b2].id@ == v@[i as int].id@),
            decreases i - j,
        {
            if v[j].space_id == v[i].space_id && v[j].id == v[i].id {
                return false;
            }
            j = j + 1;
        }
        i = i + 1;
    }
    true
}

/// Checks that every bundled task's list is itself in the bundle.
fn tasks_fk_ok(tasks: &Vec<Task>, lists: &Vec<ListRow>, b: &SpaceBackupBundle) -> (r: bool)
    requires
        tasks@ == b.tasks@,
        lists@ == b.lists@,
    ensures
        r == (forall|i: int| 0 <= i < b.tasks@.len() ==> task_list_in_bundle(
            *b,
            #[trigger] b.tasks@[i],
        )),
{
    let n = tasks.len();
    let m = lists.len();
    let mut i: usize = 0;
    while i < n
        invariant
            i <= n,
            n == tasks@.len(),
            m == lists@.len(),
            tasks@ == b.tasks@,
            lists@ == b.lists@,
            forall|a: int| 0 <= a < i ==> task_list_in_bundle(*b, #[trigger] b.tasks@[a]),
        decreases n - i,
    {
        let mut found = false;
        let mut j: usize = 0;
        while j < m
            invariant
                j <= m,
                i < n,
                n == tasks@.len(),
                m == lists@.len(),
                tasks@ == b.tasks@,
                lists@ == b.lists@,
                found ==> task_list_in_bundle(*b, b.tasks@[i as int]),
                !found ==> forall|c: int| 0 <= c < j
                    ==> !((#[trigger] b.lists@[c].space_id@) == b.tasks@[i as int].space_id@
                        && b.lists@[c].id@ == b.tasks@[i as int].list_id@),
            decreases m - j,
        {
            if lists[j].space_id == tasks[i].space_id && lists[j].id == tasks[i].list_id {
                found = true;
            }
            j = j + 1;
        }
        if !found {
            proof {
                assert(!task_list_in_bundle(*b, b.tasks@[i as int]));
            }
            return false;
        }
        i = i + 1;
    }
    true
}

/// Checks that every bundled membership's user is carried by the bundle
/// or already stored.
fn memberships_fk_ok(
    memberships: &Vec<MembershipRow>,
    users: &Vec<UserRow>,
    old_users: &Vec<UserRow>,
    b: &SpaceBackupBundle,
    db: &Db,
) -> (r: bool)
    requires
        memberships@ == b.memberships@,
        users@ == b.users@,
        old_users@ == db.users@,
    ensures
        r == (forall|i: int| 0 <= i < b.memberships@.len() ==> (bundle_has_user_id(
            *b,
            (#[trigger] b.memberships@[i]).user_id@,
        ) || user_exists(*db, b.memberships@[i].user_id@))),
{
    let n = memberships.len();
    let m = users.len();
    let p = old_users.len();
    let mut i: usize = 0;
    while i < n
        invariant
            i <= n,
            n == memberships@.len(),
            m == users@.len(),
            p == old_users@.len(),
            memberships@ == b.memberships@,
            users@ == b.users@,
            old_users@ == db.users@,
            forall|a: int| 0 <= a < i ==> (bundle_has_user_id(
                *b,
                (#[trigger] b.memberships@[a]).user_id@,
            ) || user_exists(*db, b.memberships@[a].user_id@)),
        decreases n - i,
    {
        let mut found = false;
        let mut j: usize = 0;
        while j < m
            invariant
                j <= m,
                i < n,
                n == memberships@.len(),
                m == users@.len(),
                memberships@ == b.memberships@,
                users@ == b.users@,
                found ==> bundle_has_user_id(*b, b.memberships@[i as int].user_id@),
                !found ==> forall|c: int| 0 <= c < j
                    ==> (#[trigger] b.users@[c].id@) != b.memberships@[i as int].user_id@,
            decreases m - j,
        {
            if users[j].id == memberships[i].user_id {
                found = true;
            }
            j = j + 1;
        }
        if !found {
            let mut k: usize = 0;
            while k < p
                invariant
                    k <= p,
                    i < n,
                    n == memberships@.len(),
                    p == old_users@.len(),
                    memberships@ == b.memberships@,
                    old_users@ == db.users@,
                    found ==> user_exists(*db, b.memberships@[i as int].user_id@),
                    !found ==> forall|c: int| 0 <= c < k
                        ==> (#[trigger] db.users@[c].id@) != b.memberships@[i as int].user_id@,
                decreases p - k,
            {
                if old_users[k].id == memberships[i].user_id {
                    found = true;
                }
                k = k + 1;
            }
        }
        if !found {
            return false;
        }
        i = i + 1;
    }
    true
}

// ---------------------------------------------------------------------------
// Restore
// ---------------------------------------------------------------------------

/// The membership rows a restore keeps: those of other spaces.
pub open spec fn other_membership_pred(space: Seq<char>) -> spec_fn(MembershipRow) -> bool {
    |m: MembershipRow| m.space_id@ != space
}

/// The list rows a restore keeps.
pub open spec fn other_list_pred(space: Seq<char>) -> spec_fn(ListRow) -> bool {
    |l: ListRow| l.space_id@ != space
}

/// The grant rows a restore keeps.
pub open spec fn other_grant_pred(space: Seq<char>) -> spec_fn(GrantRow) -> bool {
    |g: GrantRow| g.space_id@ != space
}

/// The task rows a restore keeps.
pub open spec fn other_task_pred(space: Seq<char>) -> spec_fn(Task) -> bool {
    |t: Task| t.space_id@ != space
}

/// Some bundled user carries this id.
pub open spec fn bundle_has_user_id(b: SpaceBackupBundle, id: Seq<char>) -> bool {
    exists|k: int| 0 <= k < b.users@.len() && (#[trigger] b.users@[k].id@) == id
}

/// The user rows a restore keeps as they are: those the bundle does not
/// carry; a bundled id replaces the stored row.
pub open spec fn user_kept_pred(b: SpaceBackupBundle) -> spec_fn(UserRow) -> bool {
    |u: UserRow| !bundle_has_user_id(b, u.id@)
}

/// The store after a successful restore: the space's rows are exactly the
/// bundle's, every other space's rows are untouched, bundled users are
/// stored verbatim, and the space row carries the bundled name.
pub open spec fn restore_applied(pre: Db, post: Db, b: SpaceBackupBundle, space: Seq<char>) -> bool {
    &&& post.users@ == pre.users@.filter(user_kept_pred(b)) + b.users@
    &&& post.memberships@ == pre.memberships@.filter(other_membership_pred(space)) + b.memberships@
    &&& post.lists@ == pre.lists@.filter(other_list_pred(space)) + b.lists@
    &&& post.grants@ == pre.grants@.filter(other_grant_pred(space)) + b.list_grants@
    &&& post.tasks@ == pre.tasks@.filter(other_task_pred(space)) + b.tasks@
    &&& (has_space(pre, space) ==> {
        let k = space_at(pre, space);
        &&& post.spaces@.len() == pre.spaces@.len()
        &&& (forall|j: int| 0 <= j < pre.spaces@.len() && j != k
            ==> post.spaces@[j] == pre.spaces@[j])
        &&& post.spaces@[k].id@ == space
        &&& post.spaces@[k].name@ == b.space.name@
    })
    &&& (!has_space(pre, space) ==> {
        &&& post.spaces@.len() == pre.spaces@.len() + 1
        &&& (forall|j: int| 0 <= j < pre.spaces@.len() ==> post.spaces@[j] == pre.spaces@[j])
        &&& post.spaces@.last().id@ == space
        &&& post.spaces@.last().name@ == b.space.name@
    })
}

/// Restores a space from a bundle; admin only, atomic: the bundle is
/// validated in full before anything is written, so a failed restore
/// leaves the store exactly as it was.
#[verifier::rlimit(100)]
#[verifier::loop_isolation(false)]
pub fn restore_backup(db: &mut Db, ctx: &Ctx, b: &SpaceBackupBundle) -> (r: Result<
    RestoreBackupResponse,
    ApiError,
>)
    requires
        wf(*old(db)),
        ctx_ok(*old(db), *ctx),
    ensures
        wf(*final(db)),
        admin_covered(*old(db)) ==> admin_covered(*final(db)),
        ctx.role != Role::Admin ==> (r == Err::<RestoreBackupResponse, ApiError>(
            ApiError::Forbidden,
        ) && *final(db) == *old(db)),
        (ctx.role == Role::Admin && b.schema@ != "tasksync-space-backup-v1"@) ==> (r == Err::<
            RestoreBackupResponse,
            ApiError,
        >(ApiError::BadRequest) && *final(db) == *old(db)),
        (ctx.role == Role::Admin && b.schema@ == "tasksync-space-backup-v1"@ && (trim_of(
            b.space.id@,
        ).len() == 0 || b.space.id@ != ctx.space_id@)) ==> (r == Err::<
            RestoreBackupResponse,
            ApiError,
        >(ApiError::BadRequest) && *final(db) == *old(db)),
        (ctx.role == Role::Admin && b.schema@ == "tasksync-space-backup-v1"@ && trim_of(
            b.space.id@,
        ).len() > 0 && b.space.id@ == ctx.space_id@ && !actor_admin_in_bundle(*b, *ctx)) ==> (r
            == Err::<RestoreBackupResponse, ApiError>(ApiError::BadRequest)
            && *final(db) == *old(db)),
        (ctx.role == Role::Admin && b.schema@ == "tasksync-space-backup-v1"@ && trim_of(
            b.space.id@,
        ).len() > 0 && b.space.id@ == ctx.space_id@ && actor_admin_in_bundle(*b, *ctx)
            && !bundle_rows_valid(*b, ctx.space_id@)) ==> (r == Err::<
            RestoreBackupResponse,
            ApiError,
        >(ApiError::BadRequest) && *final(db) == *old(db)),
        (ctx.role == Role::Admin && b.schema@ == "tasksync-space-backup-v1"@ && trim_of(
            b.space.id@,
        ).len() > 0 && b.space.id@ == ctx.space_id@ && actor_admin_in_bundle(*b, *ctx)
            && bundle_rows_valid(*b, ctx.space_id@)) ==> {
            &&& (!bundle_integrity_ok(*old(db), *b) ==> (r == Err::<
                RestoreBackupResponse,
                ApiError,
            >(ApiError::Internal) && *final(db) == *old(db)))
            &&& (bundle_integrity_ok(*old(db), *b) ==> (r matches Ok(resp) && restore_applied(
                *old(db),
                *final(db),
                *b,
                ctx.space_id@,
            ) && resp.space_id@ == ctx.space_id@ && resp.users == b.users@.len()
                && resp.memberships == b.memberships@.len() && resp.lists == b.lists@.len()
                && resp.list_grants == b.list_grants@.len() && resp.tasks == b.tasks@.len()))
        },
{
    if ctx.role != Role::Admin {
        return Err(ApiError::Forbidden);
    }
    if !str_eq(b.schema.as_str(), "tasksync-space-backup-v1") {
        return Err(ApiError::BadRequest);
    }
    if trim_str(b.space.id.as_str()).unicode_len() == 0 || !(b.space.id == ctx.space_id) {
        return Err(ApiError::BadRequest);
    }

    // The acting admin must stay an admin of the restored space.
    let mn = b.memberships.len();
    let mut actor_ok = false;
    let mut i: usize = 0;
    while i < mn
        invariant
            i <= mn,
            mn == b.memberships@.len(),
            actor_ok ==> actor_admin_in_bundle(*b, *ctx),
            !actor_ok ==> forall|j: int| 0 <= j < i
                ==> !((#[trigger] b.memberships@[j]).space_id@ == ctx.space_id@
                    && b.memberships@[j].user_id@ == ctx.user_id@
                    && b.memberships@[j].role == Role::Admin),
        decreases mn - i,
    {
        if b.memberships[i].space_id == ctx.space_id && b.memberships[i].user_id == ctx.user_id
            && b.memberships[i].role == Role::Admin {
            actor_ok = true;
        }
        i = i + 1;
    }
    if !actor_ok {
        return Err(ApiError::BadRequest);
    }

    // Structural validation of every bundled row.
    let un = b.users.len();
    let mut ui: usize = 0;
    while ui < un
        invariant
            ui <= un,
            un == b.users@.len(),
            forall|j: int| 0 <= j < ui ==> bundle_user_valid(#[trigger] b.users@[j]),
        decreases un - ui,
    {
        let u = &b.users[ui];
        let theme_ok = str_eq(u.sound_theme.as_str(), "chime_soft")
            || str_eq(u.sound_theme.as_str(), "click_pop")
            || str_eq(u.sound_theme.as_str(), "sparkle_short")
            || str_eq(u.sound_theme.as_str(), "wood_tick")
            || str_eq(u.sound_theme.as_str(), "bell_crisp")
            || str_eq(u.sound_theme.as_str(), "marimba_blip")
            || str_eq(u.sound_theme.as_str(), "pulse_soft")
            || str_eq(u.sound_theme.as_str(), "custom_file");
        if trim_str(u.id.as_str()).unicode_len() == 0
            || trim_str(u.email.as_str()).unicode_len() == 0
            || trim_str(u.display.as_str()).unicode_len() == 0 || u.sound_volume < 0
            || u.sound_volume > 100 || !theme_ok {
            return Err(ApiError::BadRequest);
        }
        ui = ui + 1;
    }
    let mut mi: usize = 0;
    while mi < mn
        invariant
            mi <= mn,
            mn == b.memberships@.len(),
            forall|j: int| 0 <= j < mi ==> bundle_membership_valid(
                #[trigger] b.memberships@[j],
                ctx.space_id@,
            ),
        decreases mn - mi,
    {
        let m = &b.memberships[mi];
        if !(m.space_id == ctx.space_id) || trim_str(m.user_id.as_str()).unicode_len() == 0
            || trim_str(m.id.as_str()).unicode_len() == 0 {
            return Err(ApiError::BadRequest);
        }
        mi = mi + 1;
    }
    let ln = b.lists.len();
    let mut li: usize = 0;
    while li < ln
        invariant
            li <= ln,
            ln == b.lists@.len(),
            forall|j: int| 0 <= j < li ==> bundle_list_valid(#[trigger] b.lists@[j], ctx.space_id@),
        decreases ln - li,
    {
        let l = &b.lists[li];
        if !(l.space_id == ctx.space_id) || trim_str(l.id.as_str()).unicode_len() == 0
            || trim_str(l.name.as_str()).unicode_len() == 0 {
            return Err(ApiError::BadRequest);
        }
        li = li + 1;
    }
    let gn = b.list_grants.len();
    let mut gi: usize = 0;
    while gi < gn
        invariant
            gi <= gn,
            gn == b.list_grants@.len(),
            forall|j: int| 0 <= j < gi ==> bundle_grant_valid(
                #[trigger] b.list_grants@[j],
                ctx.space_id@,
            ),
        decreases gn - gi,
    {
        let g = &b.list_grants[gi];
        if !(g.space_id == ctx.space_id) || trim_str(g.id.as_str()).unicode_len() == 0
            || trim_str(g.list_id.as_str()).unicode_len() == 0
            || trim_str(g.user_id.as_str()).unicode_len() == 0 {
            return Err(ApiError::BadRequest);
        }
        gi = gi + 1;
    }
    let tn = b.tasks.len();
    let mut ti: usize = 0;
    while ti < tn
        invariant
            ti <= tn,
            tn == b.tasks@.len(),
            forall|j: int| 0 <= j < ti ==> bundle_task_valid(#[trigger] b.tasks@[j], ctx.space_id@),
        decreases tn - ti,
    {
        let t = &b.tasks[ti];
        if !(t.space_id == ctx.space_id) || trim_str(t.id.as_str()).unicode_len() == 0
            || trim_str(t.list_id.as_str()).unicode_len() == 0
            || trim_str(t.title.as_str()).unicode_len() == 0 {
            return Err(ApiError::BadRequest);
        }
        ti = ti + 1;
    }

    // Key and foreign-key integrity; a violation would abort the whole
    // transaction, leaving the store untouched.
    if !users_pairwise_ok(&b.users) {
        return Err(ApiError::Internal);
    }
    if !cross_emails_check(&db.users, &b.users) {
        return Err(ApiError::Internal);
    }
    if !memberships_pairwise_ok(&b.memberships) {
        return Err(ApiError::Internal);
    }
    if !lists_pairwise_ok(&b.lists) {
        return Err(ApiError::Internal);
    }
    if !grants_pairwise_ok(&b.list_grants) {
        return Err(ApiError::Internal);
    }
    if !tasks_pairwise_ok(&b.tasks) {
        return Err(ApiError::Internal);
    }
    if !tasks_fk_ok(&b.tasks, &b.lists, b) {
        return Err(ApiError::Internal);
    }
    if !memberships_fk_ok(&b.memberships, &b.users, &db.users, b, &*db) {
        return Err(ApiError::Internal);
    }

    // Build the new tables: other spaces' rows, then the bundle's rows.
    let mut new_users: Vec<UserRow> = Vec::new();
    let oun = db.users.len();
    let mut x: usize = 0;
    while x < oun
        invariant
            x <= oun,
            oun == db.users@.len(),
            new_users@ == db.users@.take(x as int).filter(user_kept_pred(*b)),
        decreases oun - x,
    {
        let mut found = false;
        let bn = b.users.len();
        let mut y: usize = 0;
        while y < bn
            invariant
                y <= bn,
                x < oun,
                oun == db.users@.len(),
                bn == b.users@.len(),
                found ==> bundle_has_user_id(*b, db.users@[x as int].id@),
                !found ==> forall|c: int| 0 <= c < y
                    ==> (#[trigger] b.users@[c].id@) != db.users@[x as int].id@,
            decreases bn - y,
        {
            if b.users[y].id == db.users[x].id {
                found = true;
            }
            y = y + 1;
        }
        proof {
            assert((!found) == user_kept_pred(*b)(db.users@[x as int]));
            lemma_filter_take_step(db.users@, user_kept_pred(*b), x as int);
        }
        if !found {
            new_users.push(db.users[x].clone());
        }
        x = x + 1;
    }
    proof {
        assert(db.users@.take(oun as int) =~= db.users@);
    }
    let ghost kept_users = new_users@;
    let bn2 = b.users.len();
    let mut y2: usize = 0;
    while y2 < bn2
        invariant
            y2 <= bn2,
            bn2 == b.users@.len(),
            new_users@ == kept_users + b.users@.take(y2 as int),
        decreases bn2 - y2,
    {
        new_users.push(b.users[y2].clone());
        proof {
            assert(kept_users + b.users@.take(y2 as int + 1) =~= (kept_users + b.users@.take(
                y2 as int,
            )).push(b.users@[y2 as int]));
        }
        y2 = y2 + 1;
    }
    proof {
        assert(b.users@.take(bn2 as int) =~= b.users@);
    }

    let mut new_memberships: Vec<MembershipRow> = Vec::new();
    let omn = db.memberships.len();
    let mut x2: usize = 0;
    while x2 < omn
        invariant
            x2 <= omn,
            omn == db.memberships@.len(),
            new_memberships@ == db.memberships@.take(x2 as int).filter(
                other_membership_pred(ctx.space_id@),
            ),
        decreases omn - x2,
    {
        let keep = !(db.memberships[x2].space_id == ctx.space_id);
        proof {
            assert(keep == other_membership_pred(ctx.space_id@)(db.memberships@[x2 as int]));
            lemma_filter_take_step(
                db.memberships@,
                other_membership_pred(ctx.space_id@),
                x2 as int,
            );
        }
        if keep {
            new_memberships.push(db.memberships[x2].clone());
        }
        x2 = x2 + 1;
    }
    proof {
        assert(db.memberships@.take(omn as int) =~= db.memberships@);
    }
    let ghost kept_memberships = new_memberships@;
    let mut y3: usize = 0;
    while y3 < mn
        invariant
            y3 <= mn,
            mn == b.memberships@.len(),
            new_memberships@ == kept_memberships + b.memberships@.take(y3 as int),
        decreases mn - y3,
    {
        new_memberships.push(b.memberships[y3].clone());
        proof {
            assert(kept_memberships + b.memberships@.take(y3 as int + 1) =~= (kept_memberships
                + b.memberships@.take(y3 as int)).push(b.memberships@[y3 as int]));
        }
        y3 = y3 + 1;
    }
    proof {
        assert(b.memberships@.take(mn as int) =~= b.memberships@);
    }

    let mut new_lists: Vec<ListRow> = Vec::new();
    let oln = db.lists.len();
    let mut x3: usize = 0;
    while x3 < oln
        invariant
            x3 <= oln,
            oln == db.lists@.len(),
            new_lists@ == db.lists@.take(x3 as int).filter(other_list_pred(ctx.space_id@)),
        decreases oln - x3,
    {
        let keep = !(db.lists[x3].space_id == ctx.space_id);
        proof {
            assert(keep == other_list_pred(ctx.space_id@)(db.lists@[x3 as int]));
            lemma_filter_take_step(db.lists@, other_list_pred(ctx.space_id@), x3 as int);
        }
        if keep {
            new_lists.push(db.lists[x3].clone());
        }
        x3 = x3 + 1;
    }
    proof {
        assert(db.lists@.take(oln as int) =~= db.lists@);
    }
    let ghost kept_lists = new_lists@;
    let mut y4: usize = 0;
    while y4 < ln
        invariant
            y4 <= ln,
            ln == b.lists@.len(),
            new_lists@ == kept_lists + b.lists@.take(y4 as int),
        decreases ln - y4,
    {
        new_lists.push(b.lists[y4].clone());
        proof {
            assert(kept_lists + b.lists@.take(y4 as int + 1) =~= (kept_lists + b.lists@.take(
                y4 as int,
            )).push(b.lists@[y4 as int]));
        }
        y4 = y4 + 1;
    }
    proof {
        assert(b.lists@.take(ln as int) =~= b.lists@);
    }

    let mut new_grants: Vec<GrantRow> = Vec::new();
    let ogn = db.grants.len();
    let mut x4: usize = 0;
    while x4 < ogn
        invariant
            x4 <= ogn,
            ogn == db.grants@.len(),
            new_grants@ == db.grants@.take(x4 as int).filter(other_grant_pred(ctx.space_id@)),
        decreases ogn - x4,
    {
        let keep = !(db.grants[x4].space_id == ctx.space_id);
        proof {
            assert(keep == other_grant_pred(ctx.space_id@)(db.grants@[x4 as int]));
            lemma_filter_take_step(db.grants@, other_grant_pred(ctx.space_id@), x4 as int);
        }
        if keep {
            new_grants.push(db.grants[x4].clone());
        }
        x4 = x4 + 1;
    }
    proof {
        assert(db.grants@.take(ogn as int) =~= db.grants@);
    }
    let ghost kept_grants = new_grants@;
    let mut y5: usize = 0;
    while y5 < gn
        invariant
            y5 <= gn,
            gn == b.list_grants@.len(),
            new_grants@ == kept_grants + b.list_grants@.take(y5 as int),
        decreases gn - y5,
    {
        new_grants.push(b.list_grants[y5].clone());
        proof {
            assert(kept_grants + b.list_grants@.take(y5 as int + 1) =~= (kept_grants
                + b.list_grants@.take(y5 as int)).push(b.list_grants@[y5 as int]));
        }
        y5 = y5 + 1;
    }
    proof {
        assert(b.list_grants@.take(gn as int) =~= b.list_grants@);
    }

    let mut new_tasks: Vec<Task> = Vec::new();
    let otn = db.tasks.len();
    let mut x5: usize = 0;
    while x5 < otn
        invariant
            x5 <= otn,
            otn == db.tasks@.len(),
            new_tasks@ == db.tasks@.take(x5 as int).filter(other_task_pred(ctx.space_id@)),
        decreases otn - x5,
    {
        let keep = !(db.tasks[x5].space_id == ctx.space_id);
        proof {
            assert(keep == other_task_pred(ctx.space_id@)(db.tasks@[x5 as int]));
            lemma_filter_take_step(db.tasks@, other_task_pred(ctx.space_id@), x5 as int);
        }
        if keep {
            new_tasks.push(db.tasks[x5].clone());
        }
        x5 = x5 + 1;
    }
    proof {
        assert(db.tasks@.take(otn as int) =~= db.tasks@);
    }
    let ghost kept_tasks = new_tasks@;
    let mut y6: usize = 0;
    while y6 < tn
        invariant
            y6 <= tn,
            tn == b.tasks@.len(),
            new_tasks@ == kept_tasks + b.tasks@.take(y6 as int),
        decreases tn - y6,
    {
        new_tasks.push(b.tasks[y6].clone());
        proof {
            assert(kept_tasks + b.tasks@.take(y6 as int + 1) =~= (kept_tasks + b.tasks@.take(
                y6 as int,
            )).push(b.tasks@[y6 as int]));
        }
        y6 = y6 + 1;
    }
    proof {
        assert(b.tasks@.take(tn as int) =~= b.tasks@);
    }

    // Commit: swap every table in one step.
    db.users = new_users;
    db.memberships = new_memberships;
    db.lists = new_lists;
    db.grants = new_grants;
    db.tasks = new_tasks;
    match find_space(&*db, &ctx.space_id) {
        Some(sk) => {
            proof {
                lemma_space_at(*old(db), sk as int);
            }
            let mut s2 = db.spaces[sk].clone();
            s2.name = b.space.name.clone();
            crate::domain::replace_at(&mut db.spaces, sk, s2);
        },
        None => {
            db.spaces.push(SpaceRow { id: ctx.space_id.clone(), name: b.space.name.clone() });
        },
    }

    proof {
        lemma_restore_wf(*old(db), *db, *b, *ctx);
    }

    let now: u64 = unix_now_secs() as u64;
    let restored_at_ts: i64 = if now > (i64::MAX as u64) {
        i64::MAX
    } else {
        now as i64
    };
    Ok(RestoreBackupResponse {
        restored_at_ts,
        space_id: ctx.space_id.clone(),
        users: b.users.len(),
        memberships: b.memberships.len(),
        lists: b.lists.len(),
        list_grants: b.list_grants.len(),
        tasks: b.tasks.len(),
    })
}

/// After the swap the store is well-formed again and every space that had
/// an admin still has one.
proof fn lemma_restore_wf(pre: Db, post: Db, b: SpaceBackupBundle, ctx: Ctx)
    requires
        wf(pre),
        bundle_rows_valid(b, ctx.space_id@),
        actor_admin_in_bundle(b, ctx),
        bundle_integrity_ok(pre, b),
        restore_applied(pre, post, b, ctx.space_id@),
    ensures
        wf(post),
        admin_covered(pre) ==> admin_covered(post),
{
    let space = ctx.space_id@;
    let kept_u = pre.users@.filter(user_kept_pred(b));
    let kept_m = pre.memberships@.filter(other_membership_pred(space));
    let kept_l = pre.lists@.filter(other_list_pred(space));
    let kept_g = pre.grants@.filter(other_grant_pred(space));
    let kept_t = pre.tasks@.filter(other_task_pred(space));
    crate::domain::lemma_unique_users_filter(pre.users@, user_kept_pred(b));
    crate::domain::lemma_unique_memberships_filter(pre.memberships@, other_membership_pred(space));
    crate::domain::lemma_unique_lists_filter(pre.lists@, other_list_pred(space));
    crate::domain::lemma_unique_grants_filter(pre.grants@, other_grant_pred(space));
    crate::domain::lemma_unique_tasks_filter(pre.tasks@, other_task_pred(space));
    lemma_filter_subset(pre.users@, user_kept_pred(b));
    lemma_filter_subset(pre.memberships@, other_membership_pred(space));
    lemma_filter_subset(pre.lists@, other_list_pred(space));
    lemma_filter_subset(pre.grants@, other_grant_pred(space));
    lemma_filter_subset(pre.tasks@, other_task_pred(space));

    // Unique space ids.
    assert forall|i: int, j: int| 0 <= i < j < post.spaces@.len() implies
        (#[trigger] post.spaces@[i].id@) != (#[trigger] post.spaces@[j].id@) by {
        if has_space(pre, space) {
            let k = space_at(pre, space);
            assert(pre.spaces@[k].id@ == space);
            assert(post.spaces@[i].id@ == pre.spaces@[i].id@);
            assert(post.spaces@[j].id@ == pre.spaces@[j].id@);
        } else {
            if j < pre.spaces@.len() {
                assert(post.spaces@[i] == pre.spaces@[i] && post.spaces@[j] == pre.spaces@[j]);
            } else {
                assert(post.spaces@[j].id@ == space);
                assert(post.spaces@[i] == pre.spaces@[i]);
                assert(!has_space(pre, space));
            }
        }
    }

    // Unique users and emails across kept and bundled rows.
    assert forall|i: int, j: int| 0 <= i < j < post.users@.len() implies
        (#[trigger] post.users@[i].id@) != (#[trigger] post.users@[j].id@) by {
        let kl = kept_u.len() as int;
        if j < kl {
            assert(post.users@[i] == kept_u[i] && post.users@[j] == kept_u[j]);
        } else if i < kl {
            assert(post.users@[i] == kept_u[i] && post.users@[j] == b.users@[j - kl]);
            assert(user_kept_pred(b)(kept_u[i]));
            assert(!bundle_has_user_id(b, kept_u[i].id@));
        } else {
            assert(post.users@[i] == b.users@[i - kl] && post.users@[j] == b.users@[j - kl]);
        }
    }
    assert forall|i: int, j: int| 0 <= i < j < post.users@.len() implies lower_of(
        (#[trigger] post.users@[i].email@),
    ) != lower_of((#[trigger] post.users@[j].email@)) by {
        let kl = kept_u.len() as int;
        if j < kl {
            assert(post.users@[i] == kept_u[i] && post.users@[j] == kept_u[j]);
        } else if i < kl {
            assert(post.users@[i] == kept_u[i] && post.users@[j] == b.users@[j - kl]);
            assert(pre.users@.contains(kept_u[i]));
            let a = choose|a: int| 0 <= a < pre.users@.len() && pre.users@[a] == kept_u[i];
            assert(user_kept_pred(b)(kept_u[i]));
            assert(!bundle_has_user_id(b, kept_u[i].id@));
            assert(pre.users@[a].id@ != b.users@[j - kl].id@);
        } else {
            assert(post.users@[i] == b.users@[i - kl] && post.users@[j] == b.users@[j - kl]);
        }
    }

    // Unique memberships.
    assert forall|i: int, j: int| 0 <= i < j < post.memberships@.len() implies
        !((#[trigger] post.memberships@[i].space_id@) == (#[trigger] post.memberships@[j].space_id@)
            && post.memberships@[i].user_id@ == post.memberships@[j].user_id@) by {
        let kl = kept_m.len() as int;
        if j < kl {
            assert(post.memberships@[i] == kept_m[i] && post.memberships@[j] == kept_m[j]);
        } else if i < kl {
            assert(post.memberships@[i] == kept_m[i]
                && post.memberships@[j] == b.memberships@[j - kl]);
            assert(other_membership_pred(space)(kept_m[i]));
            assert(bundle_membership_valid(b.memberships@[j - kl], space));
        } else {
            assert(post.memberships@[i] == b.memberships@[i - kl]
                && post.memberships@[j] == b.memberships@[j - kl]);
        }
    }

    // Unique lists.
    assert forall|i: int, j: int| 0 <= i < j < post.lists@.len() implies
        !((#[trigger] post.lists@[i].space_id@) == (#[trigger] post.lists@[j].space_id@)
            && post.lists@[i].id@ == post.lists@[j].id@) by {
        let kl = kept_l.len() as int;
        if j < kl {
            assert(post.lists@[i] == kept_l[i] && post.lists@[j] == kept_l[j]);
        } else if i < kl {
            assert(post.lists@[i] == kept_l[i] && post.lists@[j] == b.lists@[j - kl]);
            assert(other_list_pred(space)(kept_l[i]));
            assert(bundle_list_valid(b.lists@[j - kl], space));
        } else {
            assert(post.lists@[i] == b.lists@[i - kl] && post.lists@[j] == b.lists@[j - kl]);
        }
    }

    // Unique grants.
    assert forall|i: int, j: int| 0 <= i < j < post.grants@.len() implies
        !((#[trigger] post.grants@[i].space_id@) == (#[trigger] post.grants@[j].space_id@)
            && post.grants@[i].list_id@ == post.grants@[j].list_id@
            && post.grants@[i].user_id@ == post.grants@[j].user_id@) by {
        let kl = kept_g.len() as int;
        if j < kl {
            assert(post.grants@[i] == kept_g[i] && post.grants@[j] == kept_g[j]);
        } else if i < kl {
            assert(post.grants@[i] == kept_g[i] && post.grants@[j] == b.list_grants@[j - kl]);
            assert(other_grant_pred(space)(kept_g[i]));
            assert(bundle_grant_valid(b.list_grants@[j - kl], space));
        } else {
            assert(post.grants@[i] == b.list_grants@[i - kl]
                && post.grants@[j] == b.list_grants@[j - kl]);
        }
    }

    // Unique tasks.
    assert forall|i: int, j: int| 0 <= i < j < post.tasks@.len() implies
        !((#[trigger] post.tasks@[i].space_id@) == (#[trigger] post.tasks@[j].space_id@)
            && post.tasks@[i].id@ == post.tasks@[j].id@) by {
        let kl = kept_t.len() as int;
        if j < kl {
            assert(post.tasks@[i] == kept_t[i] && post.tasks@[j] == kept_t[j]);
        } else if i < kl {
            assert(post.tasks@[i] == kept_t[i] && post.tasks@[j] == b.tasks@[j - kl]);
            assert(other_task_pred(space)(kept_t[i]));
            assert(bundle_task_valid(b.tasks@[j - kl], space));
        } else {
            assert(post.tasks@[i] == b.tasks@[i - kl] && post.tasks@[j] == b.tasks@[j - kl]);
        }
    }

    // Every task still references a list of its space.
    assert forall|i: int| 0 <= i < post.tasks@.len() implies list_in_space(
        post,
        (#[trigger] post.tasks@[i]).space_id@,
        post.tasks@[i].list_id@,
    ) by {
        let kl = kept_t.len() as int;
        let ll = kept_l.len() as int;
        if i < kl {
            assert(post.tasks@[i] == kept_t[i]);
            assert(pre.tasks@.contains(kept_t[i]));
            let a = choose|a: int| 0 <= a < pre.tasks@.len() && pre.tasks@[a] == kept_t[i];
            assert(list_in_space(pre, pre.tasks@[a].space_id@, pre.tasks@[a].list_id@));
            let w = choose|w: int| 0 <= w < pre.lists@.len()
                && (#[trigger] pre.lists@[w].space_id@) == pre.tasks@[a].space_id@
                && pre.lists@[w].id@ == pre.tasks@[a].list_id@;
            assert(other_task_pred(space)(kept_t[i]));
            assert(pre.lists@[w].space_id@ != space);
            assert(other_list_pred(space)(pre.lists@[w]));
            pre.lists@.lemma_filter_contains(other_list_pred(space), w);
            assert(kept_l.contains(pre.lists@[w]));
            let w2 = choose|w2: int| 0 <= w2 < kept_l.len() && kept_l[w2] == pre.lists@[w];
            assert(post.lists@[w2] == kept_l[w2]);
        } else {
            assert(post.tasks@[i] == b.tasks@[i - kl]);
            assert(task_list_in_bundle(b, b.tasks@[i - kl]));
            let w = choose|w: int| 0 <= w < b.lists@.len()
                && (#[trigger] b.lists@[w]).space_id@ == b.tasks@[i - kl].space_id@
                && b.lists@[w].id@ == b.tasks@[i - kl].list_id@;
            assert(post.lists@[ll + w] == b.lists@[w]);
        }
    }

    // Every membership still references a user row.
    assert forall|i: int| 0 <= i < post.memberships@.len() implies user_exists(
        post,
        (#[trigger] post.memberships@[i]).user_id@,
    ) by {
        let kl = kept_m.len() as int;
        let ul = kept_u.len() as int;
        let uid = post.memberships@[i].user_id@;
        if i < kl {
            assert(post.memberships@[i] == kept_m[i]);
            assert(pre.memberships@.contains(kept_m[i]));
            let a = choose|a: int| 0 <= a < pre.memberships@.len()
                && pre.memberships@[a] == kept_m[i];
            assert(user_exists(pre, pre.memberships@[a].user_id@));
            let j = choose|j: int| 0 <= j < pre.users@.len()
                && (#[trigger] pre.users@[j].id@) == pre.memberships@[a].user_id@;
            if bundle_has_user_id(b, pre.users@[j].id@) {
                let k = choose|k: int| 0 <= k < b.users@.len()
                    && (#[trigger] b.users@[k].id@) == pre.users@[j].id@;
                assert(post.users@[ul + k] == b.users@[k]);
            } else {
                assert(user_kept_pred(b)(pre.users@[j]));
                pre.users@.lemma_filter_contains(user_kept_pred(b), j);
                assert(kept_u.contains(pre.users@[j]));
                let w = choose|w: int| 0 <= w < kept_u.len() && kept_u[w] == pre.users@[j];
                assert(post.users@[w] == kept_u[w]);
            }
        } else {
            assert(post.memberships@[i] == b.memberships@[i - kl]);
            assert(bundle_has_user_id(b, uid) || user_exists(pre, uid));
            if bundle_has_user_id(b, uid) {
                let k = choose|k: int| 0 <= k < b.users@.len()
                    && (#[trigger] b.users@[k].id@) == uid;
                assert(post.users@[ul + k] == b.users@[k]);
            } else {
                let j = choose|j: int| 0 <= j < pre.users@.len()
                    && (#[trigger] pre.users@[j].id@) == uid;
                assert(user_kept_pred(b)(pre.users@[j]));
                pre.users@.lemma_filter_contains(user_kept_pred(b), j);
                assert(kept_u.contains(pre.users@[j]));
                let w = choose|w: int| 0 <= w < kept_u.len() && kept_u[w] == pre.users@[j];
                assert(post.users@[w] == kept_u[w]);
            }
        }
    }

    // Every space that had an admin keeps one.
    if admin_covered(pre) {
        assert forall|s: int| 0 <= s < post.spaces@.len() implies space_has_admin(
            post,
            (#[trigger] post.spaces@[s]).id@,
        ) by {
            let kl = kept_m.len() as int;
            if post.spaces@[s].id@ == space {
                let w = choose|w: int| 0 <= w < b.memberships@.len()
                    && (#[trigger] b.memberships@[w]).space_id@ == space
                    && b.memberships@[w].user_id@ == ctx.user_id@
                    && b.memberships@[w].role == Role::Admin;
                assert(post.memberships@[kl + w] == b.memberships@[w]);
            } else {
                let sid = post.spaces@[s].id@;
                assert(s < pre.spaces@.len() && pre.spaces@[s].id@ == sid) by {
                    if has_space(pre, space) {
                        assert(post.spaces@.len() == pre.spaces@.len());
                        assert(post.spaces@[s].id@ == pre.spaces@[s].id@);
                    } else {
                        assert(post.spaces@.last().id@ == space);
                        assert(s < pre.spaces@.len());
                    }
                }
                assert(space_has_admin(pre, sid));
                let w = choose|w: int| 0 <= w < pre.memberships@.len()
                    && (#[trigger] pre.memberships@[w].space_id@) == sid
                    && pre.memberships@[w].role == Role::Admin;
                assert(pre.memberships@[w].space_id@ != space);
                assert(other_membership_pred(space)(pre.memberships@[w]));
                pre.memberships@.lemma_filter_contains(other_membership_pred(space), w);
                assert(kept_m.contains(pre.memberships@[w]));
                let w2 = choose|w2: int| 0 <= w2 < kept_m.len()
                    && kept_m[w2] == pre.memberships@[w];
                assert(post.memberships@[w2] == kept_m[w2]);
            }
        }
    }
}

/// The space-scoped rows of a swapped table are exactly the bundle's.
proof fn lemma_swap_memberships(pre_rows: Seq<MembershipRow>, bu: Seq<MembershipRow>, space: Seq<char>)
    requires
        forall|i: int| 0 <= i < bu.len() ==> (#[trigger] bu[i]).space_id@ == space,
    ensures
        (pre_rows.filter(other_membership_pred(space)) + bu).filter(space_membership_pred(space))
            == bu,
{
    let kept = pre_rows.filter(other_membership_pred(space));
    crate::domain::lemma_filter_app(kept, bu, space_membership_pred(space));
    assert forall|i: int| 0 <= i < kept.len() implies !space_membership_pred(space)(
        #[trigger] kept[i],
    ) by {
        pre_rows.lemma_filter_pred(other_membership_pred(space), i);
    }
    crate::domain::lemma_filter_none(kept, space_membership_pred(space));
    assert forall|i: int| 0 <= i < bu.len() implies space_membership_pred(space)(
        #[trigger] bu[i],
    ) by {
        assert(bu[i].space_id@ == space);
    }
    crate::domain::lemma_filter_all(bu, space_membership_pred(space));
    assert((pre_rows.filter(other_membership_pred(space)) + bu).filter(
        space_membership_pred(space),
    ) =~= bu);
}

/// The space-scoped list rows of a swapped table are exactly the bundle's.
proof fn lemma_swap_lists(pre_rows: Seq<ListRow>, bu: Seq<ListRow>, space: Seq<char>)
    requires
        forall|i: int| 0 <= i < bu.len() ==> (#[trigger] bu[i]).space_id@ == space,
    ensures
        (pre_rows.filter(other_list_pred(space)) + bu).filter(space_list_pred(space)) == bu,
{
    let kept = pre_rows.filter(other_list_pred(space));
    crate::domain::lemma_filter_app(kept, bu, space_list_pred(space));
    assert forall|i: int| 0 <= i < kept.len() implies !space_list_pred(space)(
        #[trigger] kept[i],
    ) by {
        pre_rows.lemma_filter_pred(other_list_pred(space), i);
    }
    crate::domain::lemma_filter_none(kept, space_list_pred(space));
    assert forall|i: int| 0 <= i < bu.len() implies space_list_pred(space)(#[trigger] bu[i]) by {
        assert(bu[i].space_id@ == space);
    }
    crate::domain::lemma_filter_all(bu, space_list_pred(space));
    assert((pre_rows.filter(other_list_pred(space)) + bu).filter(space_list_pred(space)) =~= bu);
}

/// The space-scoped grant rows of a swapped table are exactly the bundle's.
proof fn lemma_swap_grants(pre_rows: Seq<GrantRow>, bu: Seq<GrantRow>, space: Seq<char>)
    requires
        forall|i: int| 0 <= i < bu.len() ==> (#[trigger] bu[i]).space_id@ == space,
    ensures
        (pre_rows.filter(other_grant_pred(space)) + bu).filter(space_grant_pred(space)) == bu,
{
    let kept = pre_rows.filter(other_grant_pred(space));
    crate::domain::lemma_filter_app(kept, bu, space_grant_pred(space));
    assert forall|i: int| 0 <= i < kept.len() implies !space_grant_pred(space)(
        #[trigger] kept[i],
    ) by {
        pre_rows.lemma_filter_pred(other_grant_pred(space), i);
    }
    crate::domain::lemma_filter_none(kept, space_grant_pred(space));
    assert forall|i: int| 0 <= i < bu.len() implies space_grant_pred(space)(#[trigger] bu[i]) by {
        assert(bu[i].space_id@ == space);
    }
    crate::domain::lemma_filter_all(bu, space_grant_pred(space));
    assert((pre_rows.filter(other_grant_pred(space)) + bu).filter(space_grant_pred(space)) =~= bu);
}

/// The space-scoped task rows of a swapped table are exactly the bundle's.
proof fn lemma_swap_tasks(pre_rows: Seq<Task>, bu: Seq<Task>, space: Seq<char>)
    requires
        forall|i: int| 0 <= i < bu.len() ==> (#[trigger] bu[i]).space_id@ == space,
    ensures
        (pre_rows.filter(other_task_pred(space)) + bu).filter(space_task_pred(space)) == bu,
{
    let kept = pre_rows.filter(other_task_pred(space));
    crate::domain::lemma_filter_app(kept, bu, space_task_pred(space));
    assert forall|i: int| 0 <= i < kept.len() implies !space_task_pred(space)(
        #[trigger] kept[i],
    ) by {
        pre_rows.lemma_filter_pred(other_task_pred(space), i);
    }
    crate::domain::lemma_filter_none(kept, space_task_pred(space));
    assert forall|i: int| 0 <= i < bu.len() implies space_task_pred(space)(#[trigger] bu[i]) by {
        assert(bu[i].space_id@ == space);
    }
    crate::domain::lemma_filter_all(bu, space_task_pred(space));
    assert((pre_rows.filter(other_task_pred(space)) + bu).filter(space_task_pred(space)) =~= bu);
}

/// The member users of the restored store are exactly the bundle's users,
/// as long as the bundle pairs its users and its memberships.
#[verifier::rlimit(100)]
proof fn lemma_swap_users(pre: Db, post: Db, b: SpaceBackupBundle, space: Seq<char>)
    requires
        restore_applied(pre, post, b, space),
        forall|m: int| 0 <= m < b.memberships@.len()
            ==> (#[trigger] b.memberships@[m]).space_id@ == space,
        forall|k: int| 0 <= k < b.users@.len() ==> exists|m: int| 0 <= m < b.memberships@.len()
            && (#[trigger] b.memberships@[m]).user_id@ == (#[trigger] b.users@[k]).id@,
        forall|m: int| 0 <= m < b.memberships@.len() ==> bundle_has_user_id(
            b,
            (#[trigger] b.memberships@[m]).user_id@,
        ),
    ensures
        post.users@.filter(space_user_pred(post, space)) == b.users@,
{
    let kept_m = pre.memberships@.filter(other_membership_pred(space));
    let kept_u = pre.users@.filter(user_kept_pred(b));
    let kml = kept_m.len() as int;
    crate::domain::lemma_filter_app(kept_u, b.users@, space_user_pred(post, space));
    assert forall|i: int| 0 <= i < kept_u.len() implies !space_user_pred(post, space)(
        #[trigger] kept_u[i],
    ) by {
        pre.users@.lemma_filter_pred(user_kept_pred(b), i);
        assert(!bundle_has_user_id(b, kept_u[i].id@));
        if is_member(post, space, kept_u[i].id@) {
            let m = choose|m: int| 0 <= m < post.memberships@.len()
                && (#[trigger] post.memberships@[m].space_id@) == space
                && post.memberships@[m].user_id@ == kept_u[i].id@;
            if m < kml {
                assert(post.memberships@[m] == kept_m[m]);
                pre.memberships@.lemma_filter_pred(other_membership_pred(space), m);
            } else {
                assert(post.memberships@[m] == b.memberships@[m - kml]);
                assert(bundle_has_user_id(b, b.memberships@[m - kml].user_id@));
            }
        }
    }
    crate::domain::lemma_filter_none(kept_u, space_user_pred(post, space));
    assert forall|k: int| 0 <= k < b.users@.len() implies space_user_pred(post, space)(
        #[trigger] b.users@[k],
    ) by {
        let m = choose|m: int| 0 <= m < b.memberships@.len()
            && (#[trigger] b.memberships@[m]).user_id@ == b.users@[k].id@;
        assert(b.memberships@[m].space_id@ == space);
        assert(post.memberships@[kml + m] == b.memberships@[m]);
        assert(is_member(post, space, b.users@[k].id@));
    }
    crate::domain::lemma_filter_all(b.users@, space_user_pred(post, space));
    assert(post.users@.filter(space_user_pred(post, space)) =~= b.users@);
}

/// An exported bundle is internally paired: every snapshotted user holds a
/// snapshotted membership and the other way round, and every snapshotted
/// row belongs to the exported space.
pub proof fn lemma_export_bundle_paired(db: Db, space: Seq<char>, b: SpaceBackupBundle)
    requires
        wf(db),
        export_bundle_ok(db, space, b),
    ensures
        forall|k: int| 0 <= k < b.users@.len() ==> exists|m: int| 0 <= m < b.memberships@.len()
            && (#[trigger] b.memberships@[m]).user_id@ == (#[trigger] b.users@[k]).id@,
        forall|m: int| 0 <= m < b.memberships@.len() ==> bundle_has_user_id(
            b,
            (#[trigger] b.memberships@[m]).user_id@,
        ),
        forall|m: int| 0 <= m < b.memberships@.len()
            ==> (#[trigger] b.memberships@[m]).space_id@ == space,
        forall|i: int| 0 <= i < b.lists@.len() ==> (#[trigger] b.lists@[i]).space_id@ == space,
        forall|i: int| 0 <= i < b.list_grants@.len()
            ==> (#[trigger] b.list_grants@[i]).space_id@ == space,
        forall|i: int| 0 <= i < b.tasks@.len() ==> (#[trigger] b.tasks@[i]).space_id@ == space,
{
    broadcast use vstd::seq_lib::group_to_multiset_ensures;

    let mf = db.memberships@.filter(space_membership_pred(space));
    let uf = db.users@.filter(space_user_pred(db, space));
    lemma_filter_subset(db.memberships@, space_membership_pred(space));

    assert forall|m: int| 0 <= m < b.memberships@.len() implies
        ((#[trigger] b.memberships@[m]).space_id@ == space && bundle_has_user_id(
        b,
        b.memberships@[m].user_id@,
    )) by {
        let row = b.memberships@[m];
        assert(b.memberships@.contains(row));
        assert(b.memberships@.to_multiset().count(row) > 0);
        assert(mf.to_multiset().count(row) > 0);
        assert(mf.contains(row));
        let w = choose|w: int| 0 <= w < mf.len() && mf[w] == row;
        db.memberships@.lemma_filter_pred(space_membership_pred(space), w);
        assert(row.space_id@ == space);
        let jm = choose|jm: int| 0 <= jm < db.memberships@.len() && db.memberships@[jm] == row;
        assert(user_exists(db, db.memberships@[jm].user_id@));
        let j = choose|j: int| 0 <= j < db.users@.len()
            && (#[trigger] db.users@[j].id@) == row.user_id@;
        assert(is_member(db, space, db.users@[j].id@));
        assert(space_user_pred(db, space)(db.users@[j]));
        db.users@.lemma_filter_contains(space_user_pred(db, space), j);
        assert(uf.contains(db.users@[j]));
        assert(uf.to_multiset().count(db.users@[j]) > 0);
        assert(b.users@.to_multiset().count(db.users@[j]) > 0);
        assert(b.users@.contains(db.users@[j]));
        let k = choose|k: int| 0 <= k < b.users@.len() && b.users@[k] == db.users@[j];
        assert(b.users@[k].id@ == row.user_id@);
    }

    assert forall|k: int| 0 <= k < b.users@.len() implies exists|m: int| 0 <= m
        < b.memberships@.len() && (#[trigger] b.memberships@[m]).user_id@ == (
    #[trigger] b.users@[k]).id@ by {
        let u = b.users@[k];
        assert(b.users@.contains(u));
        assert(b.users@.to_multiset().count(u) > 0);
        assert(uf.to_multiset().count(u) > 0);
        assert(uf.contains(u));
        let w = choose|w: int| 0 <= w < uf.len() && uf[w] == u;
        db.users@.lemma_filter_pred(space_user_pred(db, space), w);
        assert(is_member(db, space, u.id@));
        let jm = choose|jm: int| 0 <= jm < db.memberships@.len()
            && (#[trigger] db.memberships@[jm].space_id@) == space
            && db.memberships@[jm].user_id@ == u.id@;
        assert(space_membership_pred(space)(db.memberships@[jm]));
        db.memberships@.lemma_filter_contains(space_membership_pred(space), jm);
        assert(mf.contains(db.memberships@[jm]));
        assert(mf.to_multiset().count(db.memberships@[jm]) > 0);
        assert(b.memberships@.to_multiset().count(db.memberships@[jm]) > 0);
        assert(b.memberships@.contains(db.memberships@[jm]));
        let m = choose|m: int| 0 <= m < b.memberships@.len()
            && b.memberships@[m] == db.memberships@[jm];
        assert(b.memberships@[m].user_id@ == u.id@);
    }

    assert forall|i: int| 0 <= i < b.lists@.len() implies (#[trigger] b.lists@[i]).space_id@
        == space by {
        let lf = db.lists@.filter(space_list_pred(space));
        let row = b.lists@[i];
        assert(b.lists@.contains(row));
        assert(b.lists@.to_multiset().count(row) > 0);
        assert(lf.to_multiset().count(row) > 0);
        assert(lf.contains(row));
        let w = choose|w: int| 0 <= w < lf.len() && lf[w] == row;
        db.lists@.lemma_filter_pred(space_list_pred(space), w);
    }
    assert forall|i: int| 0 <= i < b.list_grants@.len() implies (
    #[trigger] b.list_grants@[i]).space_id@ == space by {
        let gf = db.grants@.filter(space_grant_pred(space));
        let row = b.list_grants@[i];
        assert(b.list_grants@.contains(row));
        assert(b.list_grants@.to_multiset().count(row) > 0);
        assert(gf.to_multiset().count(row) > 0);
        assert(gf.contains(row));
        let w = choose|w: int| 0 <= w < gf.len() && gf[w] == row;
        db.grants@.lemma_filter_pred(space_grant_pred(space), w);
    }
    assert forall|i: int| 0 <= i < b.tasks@.len() implies (#[trigger] b.tasks@[i]).space_id@
        == space by {
        let tf = db.tasks@.filter(space_task_pred(space));
        let row = b.tasks@[i];
        assert(b.tasks@.contains(row));
        assert(b.tasks@.to_multiset().count(row) > 0);
        assert(tf.to_multiset().count(row) > 0);
        assert(tf.contains(row));
        let w = choose|w: int| 0 <= w < tf.len() && tf[w] == row;
        db.tasks@.lemma_filter_pred(space_task_pred(space), w);
    }
}

/// Exporting right after a restore hands the restored bundle back: a
/// bundle exported from a well-formed store and restored unchanged is
/// re-exported with exactly the same rows — the same ids, the same counts,
/// the same per-task timestamps — in every table of the space.
#[verifier::rlimit(100)]
#[verifier::spinoff_prover]
pub proof fn lemma_restore_then_export_round_trip(
    db0: Db,
    pre: Db,
    post: Db,
    b: SpaceBackupBundle,
    again: SpaceBackupBundle,
    ctx: Ctx,
)
    requires
        wf(db0),
        export_bundle_ok(db0, ctx.space_id@, b),
        restore_applied(pre, post, b, ctx.space_id@),
        export_bundle_ok(post, ctx.space_id@, again),
    ensures
        again.users@.to_multiset() == b.users@.to_multiset(),
        again.memberships@.to_multiset() == b.memberships@.to_multiset(),
        again.lists@.to_multiset() == b.lists@.to_multiset(),
        again.list_grants@.to_multiset() == b.list_grants@.to_multiset(),
        again.tasks@.to_multiset() == b.tasks@.to_multiset(),
{
    let space = ctx.space_id@;
    lemma_export_bundle_paired(db0, space, b);
    lemma_swap_memberships(pre.memberships@, b.memberships@, space);
    lemma_swap_lists(pre.lists@, b.lists@, space);
    lemma_swap_grants(pre.grants@, b.list_grants@, space);
    lemma_swap_tasks(pre.tasks@, b.tasks@, space);
    lemma_swap_users(pre, post, b, space);
}

} // verus!
