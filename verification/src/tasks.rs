//! The task service: scoped reads, idempotent create-by-client-id, the
//! coalescing meta update with the recurring roll-forward rule, status
//! transitions, and deletion.

use vstd::prelude::*;
use vstd::string::StrSliceExecFns;
use crate::domain::{admin_covered, ApiError, Ctx, Db, Role, Task, TaskStatus};
use crate::domain::{clone_opt_string, ctx_ok, find_grant, find_list, find_membership, find_task};
use crate::domain::{find_task_elsewhere, has_grant, is_member, list_in_space, parse_task_status};
use crate::domain::{lemma_task_at, lemma_unique_tasks_push, lemma_unique_tasks_remove};
use crate::domain::{lemma_unique_tasks_update, lemma_wf_tasks_swap, replace_at, status_of};
use crate::domain::{task_at, task_id_elsewhere, task_in_space, visible_task, wf};
use crate::order::{lemma_filter_take_step, sort_by_key, sorted_keys};
use crate::strutil::{new_uuid, trim_of, trim_str, view_opt};

verus! {

/// What a task-creation request carries.
pub struct CreateTaskBody {
    pub id: Option<String>,
    pub title: String,
    pub list_id: String,
    pub order: Option<String>,
    pub my_day: Option<bool>,
    pub url: Option<String>,
    pub recur_rule: Option<String>,
    pub attachments: Option<String>,
    pub due_date: Option<String>,
    pub notes: Option<String>,
    pub assignee_user_id: Option<String>,
}

/// What a task-meta update carries; an absent field keeps the stored value.
pub struct UpdateTaskMetaBody {
    pub title: Option<String>,
    pub status: Option<String>,
    pub list_id: Option<String>,
    pub my_day: Option<bool>,
    pub url: Option<String>,
    pub recur_rule: Option<String>,
    pub attachments: Option<String>,
    pub due_date: Option<String>,
    pub notes: Option<String>,
    pub occurrences_completed: Option<i64>,
    pub completed_ts: Option<i64>,
    pub assignee_user_id: Option<String>,
}

/// The two ways a create can succeed: a fresh row, or the row an earlier
/// call with the same id already made.
pub enum CreateTaskOutcome {
    Created(Task),
    Existed(Task),
}

/// The visibility predicate of one caller.
pub open spec fn visible_to(db: Db, ctx: Ctx) -> spec_fn(Task) -> bool {
    |t: Task| visible_task(db, ctx, t)
}

/// Lists the tasks the caller may see, ordered by `task_order`.
pub fn get_tasks(db: &Db, ctx: &Ctx) -> (r: Vec<Task>)
    requires
        wf(*db),
        ctx_ok(*db, *ctx),
    ensures
        r@.to_multiset() == db.tasks@.filter(visible_to(*db, *ctx)).to_multiset(),
        sorted_keys::<Task>(r@),
        forall|k: int| 0 <= k < r@.len() ==> visible_task(*db, *ctx, #[trigger] r@[k]),
{
    let mut out: Vec<Task> = Vec::new();
    let n = db.tasks.len();
    let mut i: usize = 0;
    while i < n
        invariant
            i <= n,
            n == db.tasks@.len(),
            out@ == db.tasks@.take(i as int).filter(visible_to(*db, *ctx)),
        decreases n - i,
    {
        let in_space = db.tasks[i].space_id == ctx.space_id;
        let visible = if !in_space {
            false
        } else if ctx.role == Role::Admin {
            true
        } else {
            match find_grant(db, &ctx.space_id, &db.tasks[i].list_id, &ctx.user_id) {
                Some(_) => true,
                None => false,
            }
        };
        proof {
            let t = db.tasks@[i as int];
            if visible {
                assert(t.space_id@ == ctx.space_id@);
                assert(visible_task(*db, *ctx, t));
            } else {
                assert(!visible_task(*db, *ctx, t));
            }
            assert(visible_to(*db, *ctx)(t) == visible_task(*db, *ctx, t));
            lemma_filter_take_step(db.tasks@, visible_to(*db, *ctx), i as int);
        }
        if visible {
            out.push(db.tasks[i].clone());
        }
        i = i + 1;
    }
    proof {
        assert(db.tasks@.take(n as int) =~= db.tasks@);
    }
    sort_by_key(&mut out);
    proof {
        broadcast use vstd::seq_lib::group_to_multiset_ensures;

        let filtered = db.tasks@.filter(visible_to(*db, *ctx));
        assert forall|k: int| 0 <= k < out@.len() implies visible_task(
            *db,
            *ctx,
            #[trigger] out@[k],
        ) by {
            assert(out@.contains(out@[k]));
            assert(out@.to_multiset().count(out@[k]) > 0);
            assert(filtered.to_multiset().count(out@[k]) > 0);
            assert(filtered.contains(out@[k]));
            let w = choose|j: int| 0 <= j < filtered.len() && filtered[j] == out@[k];
            db.tasks@.lemma_filter_pred(visible_to(*db, *ctx), w);
        }
    }
    out
}

/// The assignee a create resolves to: the requested user, or the caller.
pub open spec fn assignee_of(body: CreateTaskBody, ctx: Ctx) -> Seq<char> {
    match body.assignee_user_id {
        Option::Some(a) => a@,
        Option::None => ctx.user_id@,
    }
}

/// The client-supplied task id, when one was given and not blank.
pub open spec fn chosen_id(body: CreateTaskBody) -> Option<Seq<char>> {
    match body.id {
        Option::Some(v) => if trim_of(v@).len() > 0 {
            Some(trim_of(v@))
        } else {
            None
        },
        Option::None => None,
    }
}

/// The validation a create must pass: the list exists in the caller's
/// space, contributors hold a grant on it, and the assignee is a member.
pub open spec fn create_checks_pass(db: Db, ctx: Ctx, body: CreateTaskBody) -> bool {
    &&& list_in_space(db, ctx.space_id@, body.list_id@)
    &&& (ctx.role == Role::Admin || has_grant(db, ctx.space_id@, ctx.user_id@, body.list_id@))
    &&& is_member(db, ctx.space_id@, assignee_of(body, ctx))
}

/// The fields of a freshly created task: pending, stamped with the server
/// clock, owned by the caller, with `my_day` honored for admins only.
pub open spec fn created_fields(t: Task, body: CreateTaskBody, ctx: Ctx, now_ms: i64, id: Seq<char>) -> bool {
    &&& t.id@ == id
    &&& t.space_id@ == ctx.space_id@
    &&& t.title@ == body.title@
    &&& t.status == TaskStatus::Pending
    &&& t.list_id@ == body.list_id@
    &&& t.my_day == (ctx.role == Role::Admin && body.my_day == Some(true))
    &&& t.task_order@ == (match body.order {
        Option::Some(o) => o@,
        Option::None => "z"@,
    })
    &&& t.updated_ts == now_ms
    &&& t.created_ts == now_ms
    &&& view_opt(t.url) == view_opt(body.url)
    &&& view_opt(t.recur_rule) == view_opt(body.recur_rule)
    &&& view_opt(t.attachments) == view_opt(body.attachments)
    &&& view_opt(t.due_date) == view_opt(body.due_date)
    &&& view_opt(t.notes) == view_opt(body.notes)
    &&& t.occurrences_completed == 0
    &&& t.completed_ts is None
    &&& view_opt(t.assignee_user_id) == Some(assignee_of(body, ctx))
    &&& view_opt(t.created_by_user_id) == Some(ctx.user_id@)
}

/// Everything a finished create promises: the validation errors exactly
/// when their conditions hold, the idempotent `Existed` answer on a known
/// id, the cross-space conflict, and the pushed row's fields on a fresh
/// create — over the store before (`pre`) and after (`post`) the call.
pub open spec fn create_task_post(
    pre: Db,
    post: Db,
    ctx: Ctx,
    body: CreateTaskBody,
    now_ms: i64,
    r: Result<CreateTaskOutcome, ApiError>,
) -> bool {
    &&& wf(post)
    &&& (admin_covered(pre) ==> admin_covered(post))
    &&& post.spaces@ == pre.spaces@
    &&& post.users@ == pre.users@
    &&& post.memberships@ == pre.memberships@
    &&& post.lists@ == pre.lists@
    &&& post.grants@ == pre.grants@
    &&& (!list_in_space(pre, ctx.space_id@, body.list_id@) ==> (r == Err::<
        CreateTaskOutcome,
        ApiError,
    >(ApiError::NotFound) && post.tasks@ == pre.tasks@))
    &&& ((list_in_space(pre, ctx.space_id@, body.list_id@) && ctx.role == Role::Contributor
        && !has_grant(pre, ctx.space_id@, ctx.user_id@, body.list_id@)) ==> (r == Err::<
        CreateTaskOutcome,
        ApiError,
    >(ApiError::Forbidden) && post.tasks@ == pre.tasks@))
    &&& ((list_in_space(pre, ctx.space_id@, body.list_id@) && (ctx.role == Role::Admin
        || has_grant(pre, ctx.space_id@, ctx.user_id@, body.list_id@)) && !is_member(
        pre,
        ctx.space_id@,
        assignee_of(body, ctx),
    )) ==> (r == Err::<CreateTaskOutcome, ApiError>(ApiError::NotFound)
        && post.tasks@ == pre.tasks@))
    &&& (create_checks_pass(pre, ctx, body) ==> match chosen_id(body) {
        Some(cid) => {
            &&& task_in_space(pre, ctx.space_id@, cid) ==> (post.tasks@ == pre.tasks@ && (r
                matches Ok(o) && o matches CreateTaskOutcome::Existed(t)
                && t == pre.tasks@[task_at(pre, ctx.space_id@, cid)]))
            &&& (!task_in_space(pre, ctx.space_id@, cid) && task_id_elsewhere(
                pre,
                ctx.space_id@,
                cid,
            )) ==> (r == Err::<CreateTaskOutcome, ApiError>(ApiError::Conflict)
                && post.tasks@ == pre.tasks@)
            &&& (!task_in_space(pre, ctx.space_id@, cid) && !task_id_elsewhere(
                pre,
                ctx.space_id@,
                cid,
            )) ==> (r matches Ok(o) && o matches CreateTaskOutcome::Created(t)
                && created_fields(t, body, ctx, now_ms, cid)
                && post.tasks@ == pre.tasks@.push(t))
        },
        None => {
            &&& (r matches Ok(o) ==> match o {
                CreateTaskOutcome::Created(t) => created_fields(t, body, ctx, now_ms, t.id@)
                    && t.id@.len() == 36 && post.tasks@ == pre.tasks@.push(t),
                CreateTaskOutcome::Existed(t) => post.tasks@ == pre.tasks@ && t.id@.len() == 36
                    && task_in_space(pre, ctx.space_id@, t.id@)
                    && t == pre.tasks@[task_at(pre, ctx.space_id@, t.id@)],
            })
            &&& (r is Err ==> (r == Err::<CreateTaskOutcome, ApiError>(ApiError::Conflict)
                && post.tasks@ == pre.tasks@))
        },
    })
}

/// Creates a task.  The client-supplied id is the idempotency anchor: a
/// retry with the same id in the same space returns the existing row as
/// `Existed` and writes nothing; the same id in another space is a
/// conflict.
pub fn create_task(db: &mut Db, ctx: &Ctx, body: &CreateTaskBody, now_ms: i64) -> (r: Result<
    CreateTaskOutcome,
    ApiError,
>)
    requires
        wf(*old(db)),
        ctx_ok(*old(db), *ctx),
    ensures
        create_task_post(*old(db), *final(db), *ctx, *body, now_ms, r),
{
    match find_list(&*db, &ctx.space_id, &body.list_id) {
        Some(_) => {},
        None => {
            return Err(ApiError::NotFound);
        },
    }
    if ctx.role == Role::Contributor {
        match find_grant(&*db, &ctx.space_id, &body.list_id, &ctx.user_id) {
            Some(_) => {},
            None => {
                return Err(ApiError::Forbidden);
            },
        }
    }
    let assignee: String = match &body.assignee_user_id {
        Some(a) => a.clone(),
        None => ctx.user_id.clone(),
    };
    match find_membership(&*db, &ctx.space_id, &assignee) {
        Some(_) => {},
        None => {
            return Err(ApiError::NotFound);
        },
    }
    let id: String = match &body.id {
        Some(v) => {
            let t = trim_str(v.as_str());
            if t.unicode_len() > 0 {
                t.to_owned()
            } else {
                new_uuid()
            }
        },
        None => new_uuid(),
    };
    match find_task(&*db, &ctx.space_id, &id) {
        Some(k) => {
            proof {
                lemma_task_at(*db, k as int);
            }
            return Ok(CreateTaskOutcome::Existed(db.tasks[k].clone()));
        },
        None => {},
    }
    match find_task_elsewhere(&*db, &ctx.space_id, &id) {
        Some(_) => {
            return Err(ApiError::Conflict);
        },
        None => {},
    }
    let order: String = match &body.order {
        Some(o) => o.clone(),
        None => "z".to_owned(),
    };
    let my_day = if ctx.role == Role::Contributor {
        false
    } else {
        match body.my_day {
            Some(b) => b,
            None => false,
        }
    };
    let t = Task {
        id,
        space_id: ctx.space_id.clone(),
        title: body.title.clone(),
        status: TaskStatus::Pending,
        list_id: body.list_id.clone(),
        my_day,
        task_order: order,
        updated_ts: now_ms,
        created_ts: now_ms,
        url: clone_opt_string(&body.url),
        recur_rule: clone_opt_string(&body.recur_rule),
        attachments: clone_opt_string(&body.attachments),
        due_date: clone_opt_string(&body.due_date),
        occurrences_completed: 0,
        completed_ts: None,
        notes: clone_opt_string(&body.notes),
        assignee_user_id: Some(assignee),
        created_by_user_id: Some(ctx.user_id.clone()),
    };
    let out = t.clone();
    let ghost gt = t;
    db.tasks.push(t);
    proof {
        lemma_unique_tasks_push(old(db).tasks@, gt);
        assert forall|i: int| 0 <= i < db.tasks@.len() implies list_in_space(
            *old(db),
            (#[trigger] db.tasks@[i]).space_id@,
            db.tasks@[i].list_id@,
        ) by {
            if i < old(db).tasks@.len() {
                assert(db.tasks@[i] == old(db).tasks@[i]);
            } else {
                assert(db.tasks@[i] == gt);
            }
        }
        lemma_wf_tasks_swap(*old(db), *db);
    }
    Ok(CreateTaskOutcome::Created(out))
}

/// Whether the caller created the task.
pub open spec fn owns_task(t: Task, ctx: Ctx) -> bool {
    view_opt(t.created_by_user_id) == Some(ctx.user_id@)
}

/// A supplied status literal is unknown.
pub open spec fn meta_status_bad(body: UpdateTaskMetaBody) -> bool {
    match body.status {
        Option::Some(s) => !(s@ == "pending"@ || s@ == "done"@ || s@ == "cancelled"@),
        Option::None => false,
    }
}

/// A supplied target list does not exist in the caller's space.
pub open spec fn meta_list_missing(db: Db, ctx: Ctx, body: UpdateTaskMetaBody) -> bool {
    match body.list_id {
        Option::Some(l) => !list_in_space(db, ctx.space_id@, l@),
        Option::None => false,
    }
}

/// Why a contributor's meta patch is refused: not the owner, raising
/// `my_day`, reassigning to someone else, or moving to an ungranted list.
pub open spec fn contrib_meta_forbidden(db: Db, ctx: Ctx, body: UpdateTaskMetaBody, t: Task) -> bool {
    ||| !owns_task(t, ctx)
    ||| body.my_day == Some(true)
    ||| (match body.assignee_user_id {
        Option::Some(a) => view_opt(t.assignee_user_id) != Some(a@),
        Option::None => false,
    })
    ||| (match body.list_id {
        Option::Some(l) => !has_grant(db, ctx.space_id@, ctx.user_id@, l@),
        Option::None => false,
    })
}

/// An admin's requested assignee is not a member of the space.
pub open spec fn meta_assignee_missing(db: Db, ctx: Ctx, body: UpdateTaskMetaBody) -> bool {
    ctx.role == Role::Admin && (match body.assignee_user_id {
        Option::Some(a) => !is_member(db, ctx.space_id@, a@),
        Option::None => false,
    })
}

/// All gates of a meta update pass.
pub open spec fn meta_checks_pass(db: Db, ctx: Ctx, id: Seq<char>, body: UpdateTaskMetaBody) -> bool {
    &&& !meta_status_bad(body)
    &&& !meta_list_missing(db, ctx, body)
    &&& (ctx.role == Role::Contributor ==> task_in_space(db, ctx.space_id@, id)
        && !contrib_meta_forbidden(db, ctx, body, db.tasks@[task_at(db, ctx.space_id@, id)]))
    &&& !meta_assignee_missing(db, ctx, body)
}

/// The completion timestamp after a meta patch: an explicit value is
/// adopted verbatim (the recurring roll-forward), an unchanged status keeps
/// the stored value, moving to `done` keeps or stamps it, and any other
/// transition clears it.
pub open spec fn completed_next_meta(
    old_ct: Option<i64>,
    body_ct: Option<i64>,
    body_status: Option<String>,
    now_ms: i64,
) -> Option<i64> {
    match body_ct {
        Option::Some(c) => Some(c),
        Option::None => match body_status {
            Option::None => old_ct,
            Option::Some(s) => if s@ == "done"@ {
                match old_ct {
                    Option::Some(c) => Some(c),
                    Option::None => Some(now_ms),
                }
            } else {
                None
            },
        },
    }
}

/// The task row after a meta patch: field-level coalesce, contributors'
/// `my_day` and assignee changes stripped, the completion rule applied, and
/// the update stamped with the server clock.
pub open spec fn meta_patch_ok(t: Task, v: Task, body: UpdateTaskMetaBody, role: Role, now_ms: i64) -> bool {
    let myday_eff = if role == Role::Contributor {
        Option::<bool>::None
    } else {
        body.my_day
    };
    &&& v.id@ == t.id@
    &&& v.space_id@ == t.space_id@
    &&& v.title@ == (match body.title {
        Option::Some(x) => x@,
        Option::None => t.title@,
    })
    &&& v.status == (match body.status {
        Option::Some(s) => status_of(s@),
        Option::None => t.status,
    })
    &&& v.list_id@ == (match body.list_id {
        Option::Some(x) => x@,
        Option::None => t.list_id@,
    })
    &&& v.my_day == (match myday_eff {
        Option::Some(b) => b,
        Option::None => t.my_day,
    })
    &&& v.task_order@ == t.task_order@
    &&& v.updated_ts == now_ms
    &&& v.created_ts == t.created_ts
    &&& view_opt(v.url) == (match body.url {
        Option::Some(x) => Some(x@),
        Option::None => view_opt(t.url),
    })
    &&& view_opt(v.recur_rule) == (match body.recur_rule {
        Option::Some(x) => Some(x@),
        Option::None => view_opt(t.recur_rule),
    })
    &&& view_opt(v.attachments) == (match body.attachments {
        Option::Some(x) => Some(x@),
        Option::None => view_opt(t.attachments),
    })
    &&& view_opt(v.due_date) == (match body.due_date {
        Option::Some(x) => Some(x@),
        Option::None => view_opt(t.due_date),
    })
    &&& view_opt(v.notes) == (match body.notes {
        Option::Some(x) => Some(x@),
        Option::None => view_opt(t.notes),
    })
    &&& v.occurrences_completed == (match body.occurrences_completed {
        Option::Some(x) => x,
        Option::None => t.occurrences_completed,
    })
    &&& v.completed_ts == completed_next_meta(t.completed_ts, body.completed_ts, body.status, now_ms)
    &&& view_opt(v.assignee_user_id) == (if role == Role::Contributor {
        view_opt(t.assignee_user_id)
    } else {
        match body.assignee_user_id {
            Option::Some(a) => Some(a@),
            Option::None => view_opt(t.assignee_user_id),
        }
    })
    &&& view_opt(v.created_by_user_id) == view_opt(t.created_by_user_id)
}

/// Everything a finished meta update promises: each rejection exactly when
/// its condition holds (bad status literal, missing target list, the
/// contributor gates, an unknown admin assignee, an absent task), and on
/// success the single patched row pinned by [`meta_patch_ok`] — over the
/// store before (`pre`) and after (`post`) the call.
pub open spec fn update_task_meta_post(
    pre: Db,
    post: Db,
    ctx: Ctx,
    id: String,
    body: UpdateTaskMetaBody,
    now_ms: i64,
    r: Result<Task, ApiError>,
) -> bool {
    &&& wf(post)
    &&& (admin_covered(pre) ==> admin_covered(post))
    &&& post.spaces@ == pre.spaces@
    &&& post.users@ == pre.users@
    &&& post.memberships@ == pre.memberships@
    &&& post.lists@ == pre.lists@
    &&& post.grants@ == pre.grants@
    &&& (meta_status_bad(body) ==> (r == Err::<Task, ApiError>(ApiError::BadRequest)
        && post.tasks@ == pre.tasks@))
    &&& ((!meta_status_bad(body) && meta_list_missing(pre, ctx, body)) ==> (r == Err::<
        Task,
        ApiError,
    >(ApiError::NotFound) && post.tasks@ == pre.tasks@))
    &&& ((!meta_status_bad(body) && !meta_list_missing(pre, ctx, body)
        && ctx.role == Role::Contributor && !task_in_space(pre, ctx.space_id@, id@)) ==> (r
        == Err::<Task, ApiError>(ApiError::NotFound) && post.tasks@ == pre.tasks@))
    &&& ((!meta_status_bad(body) && !meta_list_missing(pre, ctx, body)
        && ctx.role == Role::Contributor && task_in_space(pre, ctx.space_id@, id@)
        && contrib_meta_forbidden(
        pre,
        ctx,
        body,
        pre.tasks@[task_at(pre, ctx.space_id@, id@)],
    )) ==> (r == Err::<Task, ApiError>(ApiError::Forbidden) && post.tasks@ == pre.tasks@))
    &&& ((!meta_status_bad(body) && !meta_list_missing(pre, ctx, body)
        && (ctx.role == Role::Contributor ==> (task_in_space(pre, ctx.space_id@, id@)
        && !contrib_meta_forbidden(
        pre,
        ctx,
        body,
        pre.tasks@[task_at(pre, ctx.space_id@, id@)],
    ))) && meta_assignee_missing(pre, ctx, body)) ==> (r == Err::<Task, ApiError>(
        ApiError::NotFound,
    ) && post.tasks@ == pre.tasks@))
    &&& ((meta_checks_pass(pre, ctx, id@, body) && !task_in_space(pre, ctx.space_id@, id@)) ==> (r
        == Err::<Task, ApiError>(ApiError::NotFound) && post.tasks@ == pre.tasks@))
    &&& ((meta_checks_pass(pre, ctx, id@, body) && task_in_space(pre, ctx.space_id@, id@)) ==> {
        let k = task_at(pre, ctx.space_id@, id@);
        &&& post.tasks@ == pre.tasks@.update(k, post.tasks@[k])
        &&& meta_patch_ok(pre.tasks@[k], post.tasks@[k], body, ctx.role, now_ms)
        &&& (r matches Ok(t) && t == post.tasks@[k])
    })
}

/// Updates a task's fields with coalesce semantics.  Contributors may only
/// touch tasks they created, never raise `my_day`, never reassign, and may
/// move a task only onto a granted list.  A successful update stamps
/// `updated_ts` with the server clock, so the row's timestamp advances
/// whenever the clock has.
#[verifier::rlimit(100)]
pub fn update_task_meta(
    db: &mut Db,
    ctx: &Ctx,
    id: &String,
    body: &UpdateTaskMetaBody,
    now_ms: i64,
) -> (r: Result<Task, ApiError>)
    requires
        wf(*old(db)),
        ctx_ok(*old(db), *ctx),
    ensures
        wf(*final(db)),
        admin_covered(*old(db)) ==> admin_covered(*final(db)),
        final(db).spaces@ == old(db).spaces@,
        final(db).users@ == old(db).users@,
        final(db).memberships@ == old(db).memberships@,
        final(db).lists@ == old(db).lists@,
        final(db).grants@ == old(db).grants@,
        meta_status_bad(*body) ==> (r == Err::<Task, ApiError>(ApiError::BadRequest)
            && final(db).tasks@ == old(db).tasks@),
        (!meta_status_bad(*body) && meta_list_missing(*old(db), *ctx, *body)) ==> (r == Err::<
            Task,
            ApiError,
        >(ApiError::NotFound) && final(db).tasks@ == old(db).tasks@),
        (!meta_status_bad(*body) && !meta_list_missing(*old(db), *ctx, *body)
            && ctx.role == Role::Contributor && !task_in_space(*old(db), ctx.space_id@, id@)) ==> (r
            == Err::<Task, ApiError>(ApiError::NotFound) && final(db).tasks@ == old(db).tasks@),
        (!meta_status_bad(*body) && !meta_list_missing(*old(db), *ctx, *body)
            && ctx.role == Role::Contributor && task_in_space(*old(db), ctx.space_id@, id@)
            && contrib_meta_forbidden(
            *old(db),
            *ctx,
            *body,
            old(db).tasks@[task_at(*old(db), ctx.space_id@, id@)],
        )) ==> (r == Err::<Task, ApiError>(ApiError::Forbidden)
            && final(db).tasks@ == old(db).tasks@),
        (!meta_status_bad(*body) && !meta_list_missing(*old(db), *ctx, *body)
            && (ctx.role == Role::Contributor ==> (task_in_space(*old(db), ctx.space_id@, id@)
            && !contrib_meta_forbidden(
            *old(db),
            *ctx,
            *body,
            old(db).tasks@[task_at(*old(db), ctx.space_id@, id@)],
        ))) && meta_assignee_missing(*old(db), *ctx, *body)) ==> (r == Err::<Task, ApiError>(
            ApiError::NotFound,
        ) && final(db).tasks@ == old(db).tasks@),
        (meta_checks_pass(*old(db), *ctx, id@, *body) && !task_in_space(
            *old(db),
            ctx.space_id@,
            id@,
        )) ==> (r == Err::<Task, ApiError>(ApiError::NotFound)
            && final(db).tasks@ == old(db).tasks@),
        (meta_checks_pass(*old(db), *ctx, id@, *body) && task_in_space(
            *old(db),
            ctx.space_id@,
            id@,
        )) ==> {
            let k = task_at(*old(db), ctx.space_id@, id@);
            &&& final(db).tasks@ == old(db).tasks@.update(k, final(db).tasks@[k])
            &&& meta_patch_ok(old(db).tasks@[k], final(db).tasks@[k], *body, ctx.role, now_ms)
            &&& (r matches Ok(t) && t == final(db).tasks@[k])
        },
{
    let st_parsed: Option<TaskStatus> = match &body.status {
        Some(s) => match parse_task_status(s.as_str()) {
            Some(st) => Some(st),
            None => {
                return Err(ApiError::BadRequest);
            },
        },
        None => None,
    };
    match &body.list_id {
        Some(l) => match find_list(&*db, &ctx.space_id, l) {
            Some(_) => {},
            None => {
                return Err(ApiError::NotFound);
            },
        },
        None => {},
    }
    if ctx.role == Role::Contributor {
        let k0 = match find_task(&*db, &ctx.space_id, id) {
            Some(k) => k,
            None => {
                return Err(ApiError::NotFound);
            },
        };
        proof {
            lemma_task_at(*db, k0 as int);
        }
        let owns = match &db.tasks[k0].created_by_user_id {
            Some(c) => *c == ctx.user_id,
            None => false,
        };
        if !owns {
            return Err(ApiError::Forbidden);
        }
        let myday_raised = match body.my_day {
            Some(b) => b,
            None => false,
        };
        if myday_raised {
            return Err(ApiError::Forbidden);
        }
        match &body.assignee_user_id {
            Some(a) => {
                let same = match &db.tasks[k0].assignee_user_id {
                    Some(cur) => *cur == *a,
                    None => false,
                };
                if !same {
                    return Err(ApiError::Forbidden);
                }
            },
            None => {},
        }
        match &body.list_id {
            Some(l) => match find_grant(&*db, &ctx.space_id, l, &ctx.user_id) {
                Some(_) => {},
                None => {
                    return Err(ApiError::Forbidden);
                },
            },
            None => {},
        }
    } else {
        match &body.assignee_user_id {
            Some(a) => match find_membership(&*db, &ctx.space_id, a) {
                Some(_) => {},
                None => {
                    return Err(ApiError::NotFound);
                },
            },
            None => {},
        }
    }
    let k = match find_task(&*db, &ctx.space_id, id) {
        Some(k) => k,
        None => {
            return Err(ApiError::NotFound);
        },
    };
    proof {
        lemma_task_at(*db, k as int);
    }
    let is_contrib = ctx.role == Role::Contributor;
    let mut v = db.tasks[k].clone();
    let old_completed = v.completed_ts;
    match &body.title {
        Some(x) => {
            v.title = x.clone();
        },
        None => {},
    }
    match st_parsed {
        Some(st) => {
            v.status = st;
        },
        None => {},
    }
    match &body.list_id {
        Some(x) => {
            v.list_id = x.clone();
        },
        None => {},
    }
    if !is_contrib {
        match body.my_day {
            Some(b) => {
                v.my_day = b;
            },
            None => {},
        }
    }
    match &body.url {
        Some(x) => {
            v.url = Some(x.clone());
        },
        None => {},
    }
    match &body.recur_rule {
        Some(x) => {
            v.recur_rule = Some(x.clone());
        },
        None => {},
    }
    match &body.attachments {
        Some(x) => {
            v.attachments = Some(x.clone());
        },
        None => {},
    }
    match &body.due_date {
        Some(x) => {
            v.due_date = Some(x.clone());
        },
        None => {},
    }
    match &body.notes {
        Some(x) => {
            v.notes = Some(x.clone());
        },
        None => {},
    }
    match body.occurrences_completed {
        Some(x) => {
            v.occurrences_completed = x;
        },
        None => {},
    }
    if !is_contrib {
        match &body.assignee_user_id {
            Some(a) => {
                v.assignee_user_id = Some(a.clone());
            },
            None => {},
        }
    }
    v.completed_ts = match body.completed_ts {
        Some(c) => Some(c),
        None => match st_parsed {
            None => old_completed,
            Some(TaskStatus::Done) => match old_completed {
                Some(c) => Some(c),
                None => Some(now_ms),
            },
            Some(_) => None,
        },
    };
    v.updated_ts = now_ms;
    let out = v.clone();
    let ghost gv = v;
    replace_at(&mut db.tasks, k, v);
    proof {
        lemma_unique_tasks_update(old(db).tasks@, k as int, gv);
        assert forall|i: int| 0 <= i < db.tasks@.len() implies list_in_space(
            *old(db),
            (#[trigger] db.tasks@[i]).space_id@,
            db.tasks@[i].list_id@,
        ) by {
            if i != k as int {
                assert(db.tasks@[i] == old(db).tasks@[i]);
            }
        }
        lemma_wf_tasks_swap(*old(db), *db);
    }
    Ok(out)
}

/// The task row after a pure status transition.
pub open spec fn status_patch_ok(t: Task, v: Task, st: TaskStatus, now_ms: i64) -> bool {
    &&& v == (Task { status: v.status, completed_ts: v.completed_ts, updated_ts: v.updated_ts, ..t })
    &&& v.status == st
    &&& v.updated_ts == now_ms
    &&& v.completed_ts == (if st == TaskStatus::Done {
        match t.completed_ts {
            Option::Some(c) => Some(c),
            Option::None => Some(now_ms),
        }
    } else {
        Option::<i64>::None
    })
}

/// Everything a finished status transition promises: the unknown-literal
/// rejection, the contributor ownership gate, the absent-task answer, and
/// on success the single transitioned row pinned by [`status_patch_ok`] —
/// over the store before (`pre`) and after (`post`) the call.
pub open spec fn update_task_status_post(
    pre: Db,
    post: Db,
    ctx: Ctx,
    id: String,
    status: String,
    now_ms: i64,
    r: Result<Task, ApiError>,
) -> bool {
    &&& wf(post)
    &&& (admin_covered(pre) ==> admin_covered(post))
    &&& post.spaces@ == pre.spaces@
    &&& post.users@ == pre.users@
    &&& post.memberships@ == pre.memberships@
    &&& post.lists@ == pre.lists@
    &&& post.grants@ == pre.grants@
    &&& (!(status@ == "pending"@ || status@ == "done"@ || status@ == "cancelled"@) ==> (r == Err::<
        Task,
        ApiError,
    >(ApiError::BadRequest) && post.tasks@ == pre.tasks@))
    &&& (((status@ == "pending"@ || status@ == "done"@ || status@ == "cancelled"@)
        && ctx.role == Role::Contributor && !task_in_space(pre, ctx.space_id@, id@)) ==> (r
        == Err::<Task, ApiError>(ApiError::NotFound) && post.tasks@ == pre.tasks@))
    &&& (((status@ == "pending"@ || status@ == "done"@ || status@ == "cancelled"@)
        && ctx.role == Role::Contributor && task_in_space(pre, ctx.space_id@, id@)
        && !owns_task(pre.tasks@[task_at(pre, ctx.space_id@, id@)], ctx)) ==> (r == Err::<
        Task,
        ApiError,
    >(ApiError::Forbidden) && post.tasks@ == pre.tasks@))
    &&& (((status@ == "pending"@ || status@ == "done"@ || status@ == "cancelled"@)
        && ctx.role == Role::Admin && !task_in_space(pre, ctx.space_id@, id@)) ==> (r == Err::<
        Task,
        ApiError,
    >(ApiError::NotFound) && post.tasks@ == pre.tasks@))
    &&& (((status@ == "pending"@ || status@ == "done"@ || status@ == "cancelled"@)
        && task_in_space(pre, ctx.space_id@, id@) && (ctx.role == Role::Admin || owns_task(
        pre.tasks@[task_at(pre, ctx.space_id@, id@)],
        ctx,
    ))) ==> {
        let k = task_at(pre, ctx.space_id@, id@);
        &&& post.tasks@ == pre.tasks@.update(k, post.tasks@[k])
        &&& status_patch_ok(pre.tasks@[k], post.tasks@[k], status_of(status@), now_ms)
        &&& (r matches Ok(t) && t == post.tasks@[k])
    })
}

/// Sets a task's status.  Contributors must own the task.  Moving to
/// `done` keeps or stamps the completion timestamp, any other transition
/// clears it; the update is stamped with the server clock.
pub fn update_task_status(db: &mut Db, ctx: &Ctx, id: &String, status: &String, now_ms: i64) -> (r:
    Result<Task, ApiError>)
    requires
        wf(*old(db)),
        ctx_ok(*old(db), *ctx),
    ensures
        wf(*final(db)),
        admin_covered(*old(db)) ==> admin_covered(*final(db)),
        final(db).spaces@ == old(db).spaces@,
        final(db).users@ == old(db).users@,
        final(db).memberships@ == old(db).memberships@,
        final(db).lists@ == old(db).lists@,
        final(db).grants@ == old(db).grants@,
        !(status@ == "pending"@ || status@ == "done"@ || status@ == "cancelled"@) ==> (r == Err::<
            Task,
            ApiError,
        >(ApiError::BadRequest) && final(db).tasks@ == old(db).tasks@),
        ((status@ == "pending"@ || status@ == "done"@ || status@ == "cancelled"@)
            && ctx.role == Role::Contributor && !task_in_space(*old(db), ctx.space_id@, id@)) ==> (r
            == Err::<Task, ApiError>(ApiError::NotFound) && final(db).tasks@ == old(db).tasks@),
        ((status@ == "pending"@ || status@ == "done"@ || status@ == "cancelled"@)
            && ctx.role == Role::Contributor && task_in_space(*old(db), ctx.space_id@, id@)
            && !owns_task(old(db).tasks@[task_at(*old(db), ctx.space_id@, id@)], *ctx)) ==> (r
            == Err::<Task, ApiError>(ApiError::Forbidden) && final(db).tasks@ == old(db).tasks@),
        ((status@ == "pending"@ || status@ == "done"@ || status@ == "cancelled"@)
            && ctx.role == Role::Admin && !task_in_space(*old(db), ctx.space_id@, id@)) ==> (r
            == Err::<Task, ApiError>(ApiError::NotFound) && final(db).tasks@ == old(db).tasks@),
        ((status@ == "pending"@ || status@ == "done"@ || status@ == "cancelled"@)
            && task_in_space(*old(db), ctx.space_id@, id@) && (ctx.role == Role::Admin || owns_task(
            old(db).tasks@[task_at(*old(db), ctx.space_id@, id@)],
            *ctx,
        ))) ==> {
            let k = task_at(*old(db), ctx.space_id@, id@);
            &&& final(db).tasks@ == old(db).tasks@.update(k, final(db).tasks@[k])
            &&& status_patch_ok(old(db).tasks@[k], final(db).tasks@[k], status_of(status@), now_ms)
            &&& (r matches Ok(t) && t == final(db).tasks@[k])
        },
{
    let st = match parse_task_status(status.as_str()) {
        Some(st) => st,
        None => {
            return Err(ApiError::BadRequest);
        },
    };
    if ctx.role == Role::Contributor {
        let k0 = match find_task(&*db, &ctx.space_id, id) {
            Some(k) => k,
            None => {
                return Err(ApiError::NotFound);
            },
        };
        proof {
            lemma_task_at(*db, k0 as int);
        }
        let owns = match &db.tasks[k0].created_by_user_id {
            Some(c) => *c == ctx.user_id,
            None => false,
        };
        if !owns {
            return Err(ApiError::Forbidden);
        }
    }
    let k = match find_task(&*db, &ctx.space_id, id) {
        Some(k) => k,
        None => {
            return Err(ApiError::NotFound);
        },
    };
    proof {
        lemma_task_at(*db, k as int);
    }
    let mut v = db.tasks[k].clone();
    v.completed_ts = if matches!(st, TaskStatus::Done) {
        match v.completed_ts {
            Some(c) => Some(c),
            None => Some(now_ms),
        }
    } else {
        None
    };
    v.status = st;
    v.updated_ts = now_ms;
    let out = v.clone();
    let ghost gv = v;
    replace_at(&mut db.tasks, k, v);
    proof {
        lemma_unique_tasks_update(old(db).tasks@, k as int, gv);
        assert forall|i: int| 0 <= i < db.tasks@.len() implies list_in_space(
            *old(db),
            (#[trigger] db.tasks@[i]).space_id@,
            db.tasks@[i].list_id@,
        ) by {
            if i != k as int {
                assert(db.tasks@[i] == old(db).tasks@[i]);
            }
        }
        lemma_wf_tasks_swap(*old(db), *db);
    }
    Ok(out)
}

/// Deletes a task.  Contributors must own it; any admin of the space may
/// delete any of its tasks.
pub fn delete_task(db: &mut Db, ctx: &Ctx, id: &String) -> (r: Result<(), ApiError>)
    requires
        wf(*old(db)),
        ctx_ok(*old(db), *ctx),
    ensures
        wf(*final(db)),
        admin_covered(*old(db)) ==> admin_covered(*final(db)),
        final(db).spaces@ == old(db).spaces@,
        final(db).users@ == old(db).users@,
        final(db).memberships@ == old(db).memberships@,
        final(db).lists@ == old(db).lists@,
        final(db).grants@ == old(db).grants@,
        !task_in_space(*old(db), ctx.space_id@, id@) ==> (r == Err::<(), ApiError>(
            ApiError::NotFound,
        ) && final(db).tasks@ == old(db).tasks@),
        (task_in_space(*old(db), ctx.space_id@, id@) && ctx.role == Role::Contributor && !owns_task(
            old(db).tasks@[task_at(*old(db), ctx.space_id@, id@)],
            *ctx,
        )) ==> (r == Err::<(), ApiError>(ApiError::Forbidden)
            && final(db).tasks@ == old(db).tasks@),
        (task_in_space(*old(db), ctx.space_id@, id@) && (ctx.role == Role::Admin || owns_task(
            old(db).tasks@[task_at(*old(db), ctx.space_id@, id@)],
            *ctx,
        ))) ==> (r == Ok::<(), ApiError>(())
            && final(db).tasks@ == old(db).tasks@.remove(task_at(*old(db), ctx.space_id@, id@))),
{
    if ctx.role == Role::Contributor {
        let k0 = match find_task(&*db, &ctx.space_id, id) {
            Some(k) => k,
            None => {
                return Err(ApiError::NotFound);
            },
        };
        proof {
            lemma_task_at(*db, k0 as int);
        }
        let owns = match &db.tasks[k0].created_by_user_id {
            Some(c) => *c == ctx.user_id,
            None => false,
        };
        if !owns {
            return Err(ApiError::Forbidden);
        }
    }
    let k = match find_task(&*db, &ctx.space_id, id) {
        Some(k) => k,
        None => {
            return Err(ApiError::NotFound);
        },
    };
    proof {
        lemma_task_at(*db, k as int);
    }
    let _ = db.tasks.remove(k);
    proof {
        lemma_unique_tasks_remove(old(db).tasks@, k as int);
        assert forall|i: int| 0 <= i < db.tasks@.len() implies list_in_space(
            *old(db),
            (#[trigger] db.tasks@[i]).space_id@,
            db.tasks@[i].list_id@,
        ) by {
            let i0 = if i < k as int {
                i
            } else {
                i + 1
            };
            assert(db.tasks@[i] == old(db).tasks@[i0]);
        }
        lemma_wf_tasks_swap(*old(db), *db);
    }
    Ok(())
}

/// A successful mutation stamps its row with the server clock, so the
/// row's `updated_ts` never falls behind its old value while the clock has
/// not: every applied mutation carries `updated_ts` at or above the
/// pre-mutation value.
pub proof fn lemma_updated_ts_monotone(pre: Task, post: Task, now_ms: i64)
    requires
        post.updated_ts == now_ms,
        now_ms >= pre.updated_ts,
    ensures
        post.updated_ts >= pre.updated_ts,
{
}

} // verus!
