//! The delta-v1 sync engine: pull with a since-filter and a monotone
//! cursor, and push as an ordered batch with per-operation rejection.

use vstd::prelude::*;
use crate::domain::{admin_covered, ApiError, Ctx, Db, Task};
use crate::domain::{ctx_ok, find_grant, ListRow, Role, visible_task, wf};
use crate::lists::{get_lists, lists_visible_to};
use crate::order::{lemma_filter_take_step, sort_by_key, sorted_keys};
use crate::domain::{reason_spec, status_code_spec};
use crate::tasks::{create_task, update_task_meta, update_task_status, visible_to};
use crate::tasks::{create_task_post, update_task_meta_post, update_task_status_post};
use crate::tasks::{CreateTaskBody, CreateTaskOutcome, UpdateTaskMetaBody};

verus! {

/// The greatest `updated_ts` among the rows that satisfy the predicate,
/// if any row does.
pub open spec fn max_visible_ts(s: Seq<Task>, pred: spec_fn(Task) -> bool) -> Option<int>
    decreases s.len(),
{
    if s.len() == 0 {
        None
    } else {
        let rest = max_visible_ts(s.drop_last(), pred);
        if pred(s.last()) {
            match rest {
                Option::None => Some(s.last().updated_ts as int),
                Option::Some(m) => if s.last().updated_ts > m {
                    Some(s.last().updated_ts as int)
                } else {
                    Some(m)
                },
            }
        } else {
            rest
        }
    }
}

/// The caller's change cursor: the greatest `updated_ts` across the tasks
/// visible to the caller, or 0 when none is.
pub open spec fn cursor_of(db: Db, ctx: Ctx) -> int {
    match max_visible_ts(db.tasks@, visible_to(db, ctx)) {
        Option::None => 0,
        Option::Some(m) => m,
    }
}

/// Between two calls with no mutation in between the store is the same, so
/// the pull cursor of a caller never decreases.
pub proof fn lemma_cursor_non_decreasing(db1: Db, db2: Db, ctx: Ctx)
    requires
        db2 == db1,
    ensures
        cursor_of(db2, ctx) >= cursor_of(db1, ctx),
{
}

/// Computes the caller's change cursor.
pub fn sync_cursor_for_ctx(db: &Db, ctx: &Ctx) -> (r: i64)
    requires
        wf(*db),
        ctx_ok(*db, *ctx),
    ensures
        r as int == cursor_of(*db, *ctx),
{
    let mut acc: Option<i64> = None;
    let n = db.tasks.len();
    let mut i: usize = 0;
    while i < n
        invariant
            i <= n,
            n == db.tasks@.len(),
            (match acc {
                Option::None => max_visible_ts(db.tasks@.take(i as int), visible_to(*db, *ctx))
                    is None,
                Option::Some(m) => max_visible_ts(db.tasks@.take(i as int), visible_to(*db, *ctx))
                    == Some(m as int),
            }),
        decreases n - i,
    {
        let in_space = db.tasks[i].space_id == ctx.space_id;
        let visible = if !in_space {
            false
        } else if ctx.role == Role::Admin {
            true
        } else {
            match find_grant(db, &ctx.space_id, &db.tasks[i].list_id, &ctx.user_id) {
                Some(_) => true,
                None => false,
            }
        };
        proof {
            let t = db.tasks@[i as int];
            if visible {
                assert(visible_task(*db, *ctx, t));
            } else {
                assert(!visible_task(*db, *ctx, t));
            }
            assert(visible_to(*db, *ctx)(t) == visible_task(*db, *ctx, t));
            assert(db.tasks@.take(i + 1).drop_last() =~= db.tasks@.take(i as int));
            assert(db.tasks@.take(i + 1).last() == t);
        }
        if visible {
            acc = match acc {
                None => Some(db.tasks[i].updated_ts),
                Some(m) => {
                    if db.tasks[i].updated_ts > m {
                        Some(db.tasks[i].updated_ts)
                    } else {
                        Some(m)
                    }
                },
            };
        }
        i = i + 1;
    }
    proof {
        assert(db.tasks@.take(n as int) =~= db.tasks@);
    }
    match acc {
        Some(m) => m,
        None => 0,
    }
}

/// The rows a pull returns: visible to the caller and, when a cursor was
/// sent, not older than it.
pub open spec fn pull_pred(db: Db, ctx: Ctx, since_ts: Option<i64>) -> spec_fn(Task) -> bool {
    |t: Task| visible_task(db, ctx, t) && (match since_ts {
        Option::Some(s) => t.updated_ts >= s,
        Option::None => true,
    })
}

/// What a pull returns.
pub struct SyncPullResponse {
    pub protocol: String,
    pub cursor_ts: i64,
    pub lists: Vec<ListRow>,
    pub tasks: Vec<Task>,
}

/// Pulls the caller's view: every visible list, the visible tasks at or
/// after `since_ts` (inclusive, so an equal-timestamp row is re-delivered
/// rather than lost), and the caller's cursor.
pub fn sync_pull(db: &Db, ctx: &Ctx, since_ts: Option<i64>) -> (r: SyncPullResponse)
    requires
        wf(*db),
        ctx_ok(*db, *ctx),
    ensures
        r.protocol@ == "delta-v1"@,
        r.cursor_ts as int == cursor_of(*db, *ctx),
        r.lists@.to_multiset() == db.lists@.filter(lists_visible_to(*db, *ctx)).to_multiset(),
        sorted_keys::<ListRow>(r.lists@),
        r.tasks@.to_multiset() == db.tasks@.filter(pull_pred(*db, *ctx, since_ts)).to_multiset(),
        sorted_keys::<Task>(r.tasks@),
        forall|k: int| 0 <= k < r.tasks@.len() ==> (visible_task(*db, *ctx, #[trigger] r.tasks@[k])
            && (match since_ts {
            Option::Some(s) => r.tasks@[k].updated_ts >= s,
            Option::None => true,
        })),
{
    let lists = get_lists(db, ctx);
    let mut out: Vec<Task> = Vec::new();
    let n = db.tasks.len();
    let mut i: usize = 0;
    while i < n
        invariant
            i <= n,
            n == db.tasks@.len(),
            out@ == db.tasks@.take(i as int).filter(pull_pred(*db, *ctx, since_ts)),
        decreases n - i,
    {
        let in_space = db.tasks[i].space_id == ctx.space_id;
        let visible = if !in_space {
            false
        } else if ctx.role == Role::Admin {
            true
        } else {
            match find_grant(db, &ctx.space_id, &db.tasks[i].list_id, &ctx.user_id) {
                Some(_) => true,
                None => false,
            }
        };
        let fresh = match since_ts {
            Some(s) => db.tasks[i].updated_ts >= s,
            None => true,
        };
        let wanted = visible && fresh;
        proof {
            let t = db.tasks@[i as int];
            if visible {
                assert(visible_task(*db, *ctx, t));
            } else {
                assert(!visible_task(*db, *ctx, t));
            }
            assert(wanted == pull_pred(*db, *ctx, since_ts)(t));
            lemma_filter_take_step(db.tasks@, pull_pred(*db, *ctx, since_ts), i as int);
        }
        if wanted {
            out.push(db.tasks[i].clone());
        }
        i = i + 1;
    }
    proof {
        assert(db.tasks@.take(n as int) =~= db.tasks@);
    }
    sort_by_key(&mut out);
    proof {
        broadcast use vstd::seq_lib::group_to_multiset_ensures;

        let filtered = db.tasks@.filter(pull_pred(*db, *ctx, since_ts));
        assert forall|k: int| 0 <= k < out@.len() implies (visible_task(
            *db,
            *ctx,
            #[trigger] out@[k],
        ) && (match since_ts {
            Option::Some(s) => out@[k].updated_ts >= s,
            Option::None => true,
        })) by {
            assert(out@.contains(out@[k]));
            assert(out@.to_multiset().count(out@[k]) > 0);
            assert(filtered.to_multiset().count(out@[k]) > 0);
            assert(filtered.contains(out@[k]));
            let w = choose|j: int| 0 <= j < filtered.len() && filtered[j] == out@[k];
            db.tasks@.lemma_filter_pred(pull_pred(*db, *ctx, since_ts), w);
        }
    }
    let cursor_ts = sync_cursor_for_ctx(db, ctx);
    SyncPullResponse { protocol: "delta-v1".to_owned(), cursor_ts, lists, tasks: out }
}

/// One change of a push batch, applied in submitted order.
#[allow(inconsistent_fields)]
pub enum SyncPushChange {
    CreateTask { op_id: String, body: CreateTaskBody },
    UpdateTask { op_id: String, task_id: String, body: UpdateTaskMetaBody },
    UpdateTaskStatus { op_id: String, task_id: String, status: String },
}

/// A rejected change: the client's op id with the error it drew.
pub struct SyncPushRejected {
    pub op_id: String,
    pub status: u16,
    pub error: String,
}

/// What a push returns.
pub struct SyncPushResponse {
    pub protocol: String,
    pub cursor_ts: i64,
    pub applied: Vec<Task>,
    pub rejected: Vec<SyncPushRejected>,
}

/// One rejection appended: the change's op id echoed verbatim, with the
/// drawn error's status code and reason.
pub open spec fn rejected_echo(
    r0: Seq<SyncPushRejected>,
    r1: Seq<SyncPushRejected>,
    op_id: String,
    e: ApiError,
) -> bool {
    &&& r1 == r0.push(r1.last())
    &&& r1.len() == r0.len() + 1
    &&& r1.last().op_id@ == op_id@
    &&& r1.last().status == status_code_spec(e)
    &&& r1.last().error@ == reason_spec(e)
}

/// One step of a push batch: the store moves exactly as the corresponding
/// single-entity operation's contract says, a success appends the resulting
/// row to `applied`, and a failure appends its echoed rejection — nothing
/// else changes in the two output lists.
pub open spec fn push_step_ok(
    pre: Db,
    post: Db,
    ctx: Ctx,
    change: SyncPushChange,
    applied0: Seq<Task>,
    applied1: Seq<Task>,
    rejected0: Seq<SyncPushRejected>,
    rejected1: Seq<SyncPushRejected>,
    now_ms: i64,
) -> bool {
    match change {
        SyncPushChange::CreateTask { op_id, body } => exists|r: Result<CreateTaskOutcome, ApiError>|
            #[trigger] create_task_post(pre, post, ctx, body, now_ms, r) && (match r {
                Result::Ok(o) => rejected1 == rejected0 && (match o {
                    CreateTaskOutcome::Created(t) => applied1 == applied0.push(t),
                    CreateTaskOutcome::Existed(t) => applied1 == applied0.push(t),
                }),
                Result::Err(e) => applied1 == applied0 && rejected_echo(
                    rejected0,
                    rejected1,
                    op_id,
                    e,
                ),
            }),
        SyncPushChange::UpdateTask { op_id, task_id, body } => exists|r: Result<Task, ApiError>|
            #[trigger] update_task_meta_post(pre, post, ctx, task_id, body, now_ms, r) && (match r {
                Result::Ok(t) => rejected1 == rejected0 && applied1 == applied0.push(t),
                Result::Err(e) => applied1 == applied0 && rejected_echo(
                    rejected0,
                    rejected1,
                    op_id,
                    e,
                ),
            }),
        SyncPushChange::UpdateTaskStatus { op_id, task_id, status } => exists|r: Result<Task, ApiError>|
            #[trigger] update_task_status_post(pre, post, ctx, task_id, status, now_ms, r) && (
            match r {
                Result::Ok(t) => rejected1 == rejected0 && applied1 == applied0.push(t),
                Result::Err(e) => applied1 == applied0 && rejected_echo(
                    rejected0,
                    rejected1,
                    op_id,
                    e,
                ),
            }),
    }
}

/// A witness run of a push batch: the chain of stores the batch walked and
/// the growing output lists, one [`push_step_ok`] step per change, in
/// submitted order, starting from the empty lists and ending at the
/// response's.
pub open spec fn push_trace_witness(
    states: Seq<Db>,
    applieds: Seq<Seq<Task>>,
    rejecteds: Seq<Seq<SyncPushRejected>>,
    pre: Db,
    post: Db,
    ctx: Ctx,
    changes: Seq<SyncPushChange>,
    applied: Seq<Task>,
    rejected: Seq<SyncPushRejected>,
    now_ms: i64,
) -> bool {
    &&& states.len() == changes.len() + 1
    &&& applieds.len() == changes.len() + 1
    &&& rejecteds.len() == changes.len() + 1
    &&& states[0] == pre
    &&& states[changes.len() as int] == post
    &&& applieds[0] == Seq::<Task>::empty()
    &&& rejecteds[0] == Seq::<SyncPushRejected>::empty()
    &&& applieds[changes.len() as int] == applied
    &&& rejecteds[changes.len() as int] == rejected
    &&& (forall|k: int| 0 <= k < changes.len() ==> push_step_ok(
        states[k],
        states[k + 1],
        ctx,
        changes[k],
        applieds[k],
        applieds[k + 1],
        rejecteds[k],
        rejecteds[k + 1],
        now_ms,
    ))
}

/// The batch applied its changes one after the other, each under the same
/// rules as the single-entity operations, with no rollback between steps.
pub open spec fn push_trace_ok(
    pre: Db,
    post: Db,
    ctx: Ctx,
    changes: Seq<SyncPushChange>,
    applied: Seq<Task>,
    rejected: Seq<SyncPushRejected>,
    now_ms: i64,
) -> bool {
    exists|states: Seq<Db>, applieds: Seq<Seq<Task>>, rejecteds: Seq<Seq<SyncPushRejected>>|
        push_trace_witness(
            states,
            applieds,
            rejecteds,
            pre,
            post,
            ctx,
            changes,
            applied,
            rejected,
            now_ms,
        )
}

/// Applies a batch of changes in order, at most 500 of them.  Every change
/// passes through the same authorization and state rules as the
/// single-entity operations — the batch walks the store step by step as
/// [`push_trace_ok`] says — and a failing change is echoed into `rejected`
/// under its op id while the batch goes on: there is no rollback.
pub fn sync_push(db: &mut Db, ctx: &Ctx, changes: &Vec<SyncPushChange>, now_ms: i64) -> (r: Result<
    SyncPushResponse,
    ApiError,
>)
    requires
        wf(*old(db)),
        ctx_ok(*old(db), *ctx),
    ensures
        wf(*final(db)),
        admin_covered(*old(db)) ==> admin_covered(*final(db)),
        final(db).spaces@ == old(db).spaces@,
        final(db).users@ == old(db).users@,
        final(db).memberships@ == old(db).memberships@,
        final(db).lists@ == old(db).lists@,
        final(db).grants@ == old(db).grants@,
        changes@.len() > 500 ==> (r == Err::<SyncPushResponse, ApiError>(ApiError::BadRequest)
            && final(db).tasks@ == old(db).tasks@),
        changes@.len() <= 500 ==> (r matches Ok(resp) && resp.protocol@ == "delta-v1"@
            && resp.applied@.len() + resp.rejected@.len() == changes@.len()
            && resp.cursor_ts as int == cursor_of(*final(db), *ctx)
            && push_trace_ok(
            *old(db),
            *final(db),
            *ctx,
            changes@,
            resp.applied@,
            resp.rejected@,
            now_ms,
        )),
{
    if changes.len() > 500 {
        return Err(ApiError::BadRequest);
    }
    let mut applied: Vec<Task> = Vec::new();
    let mut rejected: Vec<SyncPushRejected> = Vec::new();
    let ghost db0 = *db;
    let ghost mut states: Seq<Db> = seq![db0];
    let ghost mut applieds: Seq<Seq<Task>> = seq![Seq::<Task>::empty()];
    let ghost mut rejecteds: Seq<Seq<SyncPushRejected>> = seq![Seq::<SyncPushRejected>::empty()];
    let n = changes.len();
    let mut i: usize = 0;
    while i < n
        invariant
            i <= n,
            n == changes@.len(),
            wf(*db),
            ctx_ok(*db, *ctx),
            admin_covered(*old(db)) ==> admin_covered(*db),
            db.spaces@ == old(db).spaces@,
            db.users@ == old(db).users@,
            db.memberships@ == old(db).memberships@,
            db.lists@ == old(db).lists@,
            db.grants@ == old(db).grants@,
            applied@.len() + rejected@.len() == i,
            db0 == *old(db),
            states.len() == i + 1,
            applieds.len() == i + 1,
            rejecteds.len() == i + 1,
            states[0] == db0,
            states[i as int] == *db,
            applieds[0] == Seq::<Task>::empty(),
            rejecteds[0] == Seq::<SyncPushRejected>::empty(),
            applieds[i as int] == applied@,
            rejecteds[i as int] == rejected@,
            forall|k: int| 0 <= k < i ==> push_step_ok(
                states[k],
                states[k + 1],
                *ctx,
                changes@[k],
                applieds[k],
                applieds[k + 1],
                rejecteds[k],
                rejecteds[k + 1],
                now_ms,
            ),
        decreases n - i,
    {
        let ghost pre_db = *db;
        let ghost pre_applied = applied@;
        let ghost pre_rejected = rejected@;
        match &changes[i] {
            SyncPushChange::CreateTask { op_id, body } => {
                let res = create_task(db, ctx, body, now_ms);
                let ghost gres = res;
                match res {
                    Ok(CreateTaskOutcome::Created(t)) => {
                        applied.push(t);
                    },
                    Ok(CreateTaskOutcome::Existed(t)) => {
                        applied.push(t);
                    },
                    Err(e) => {
                        rejected.push(SyncPushRejected {
                            op_id: op_id.clone(),
                            status: e.status_code(),
                            error: e.reason().to_owned(),
                        });
                    },
                }
                proof {
                    assert(create_task_post(pre_db, *db, *ctx, *body, now_ms, gres));
                    assert(push_step_ok(
                        pre_db,
                        *db,
                        *ctx,
                        changes@[i as int],
                        pre_applied,
                        applied@,
                        pre_rejected,
                        rejected@,
                        now_ms,
                    ));
                }
            },
            SyncPushChange::UpdateTask { op_id, task_id, body } => {
                let res = update_task_meta(db, ctx, task_id, body, now_ms);
                let ghost gres = res;
                match res {
                    Ok(t) => {
                        applied.push(t);
                    },
                    Err(e) => {
                        rejected.push(SyncPushRejected {
                            op_id: op_id.clone(),
                            status: e.status_code(),
                            error: e.reason().to_owned(),
                        });
                    },
                }
                proof {
                    assert(update_task_meta_post(
                        pre_db,
                        *db,
                        *ctx,
                        *task_id,
                        *body,
                        now_ms,
                        gres,
                    ));
                    assert(push_step_ok(
                        pre_db,
                        *db,
                        *ctx,
                        changes@[i as int],
                        pre_applied,
                        applied@,
                        pre_rejected,
                        rejected@,
                        now_ms,
                    ));
                }
            },
            SyncPushChange::UpdateTaskStatus { op_id, task_id, status } => {
                let res = update_task_status(db, ctx, task_id, status, now_ms);
                let ghost gres = res;
                match res {
                    Ok(t) => {
                        applied.push(t);
                    },
                    Err(e) => {
                        rejected.push(SyncPushRejected {
                            op_id: op_id.clone(),
                            status: e.status_code(),
                            error: e.reason().to_owned(),
                        });
                    },
                }
                proof {
                    assert(update_task_status_post(
                        pre_db,
                        *db,
                        *ctx,
                        *task_id,
                        *status,
                        now_ms,
                        gres,
                    ));
                    assert(push_step_ok(
                        pre_db,
                        *db,
                        *ctx,
                        changes@[i as int],
                        pre_applied,
                        applied@,
                        pre_rejected,
                        rejected@,
                        now_ms,
                    ));
                }
            },
        }
        proof {
            states = states.push(*db);
            applieds = applieds.push(applied@);
            rejecteds = rejecteds.push(rejected@);
        }
        i = i + 1;
    }
    let cursor_ts = sync_cursor_for_ctx(&*db, ctx);
    proof {
        assert(push_trace_witness(
            states,
            applieds,
            rejecteds,
            db0,
            *db,
            *ctx,
            changes@,
            applied@,
            rejected@,
            now_ms,
        ));
    }
    Ok(SyncPushResponse { protocol: "delta-v1".to_owned(), cursor_ts, applied, rejected })
}

} // verus!
