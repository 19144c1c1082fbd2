//! The list service: scoped reads, admin-only writes with field-level
//! coalesce, and the delete-is-empty invariant.

use vstd::prelude::*;
use crate::domain::{admin_covered, ApiError, Ctx, Db, ListRow, Role};
use crate::domain::{ctx_ok, find_grant, find_list, find_task_in_list};
use crate::domain::{list_at, list_has_tasks, list_in_space, replace_at, visible_list};
use crate::domain::{lemma_list_at, lemma_unique_lists_push, lemma_unique_lists_remove};
use crate::domain::{lemma_unique_lists_update, space_has_admin, wf};
use crate::order::{lemma_filter_take_step, sort_by_key, sorted_keys};
use crate::strutil::{new_uuid, view_opt};

verus! {

/// The list-visibility predicate of one caller.
pub open spec fn lists_visible_to(db: Db, ctx: Ctx) -> spec_fn(ListRow) -> bool {
    |l: ListRow| visible_list(db, ctx, l)
}

/// Lists the lists the caller may see, ordered by `list_order`: admins see
/// every list of their space, contributors only the granted ones.
pub fn get_lists(db: &Db, ctx: &Ctx) -> (r: Vec<ListRow>)
    requires
        wf(*db),
        ctx_ok(*db, *ctx),
    ensures
        r@.to_multiset() == db.lists@.filter(lists_visible_to(*db, *ctx)).to_multiset(),
        sorted_keys::<ListRow>(r@),
        forall|k: int| 0 <= k < r@.len() ==> visible_list(*db, *ctx, #[trigger] r@[k]),
{
    let mut out: Vec<ListRow> = Vec::new();
    let n = db.lists.len();
    let mut i: usize = 0;
    while i < n
        invariant
            i <= n,
            n == db.lists@.len(),
            out@ == db.lists@.take(i as int).filter(lists_visible_to(*db, *ctx)),
        decreases n - i,
    {
        let in_space = db.lists[i].space_id == ctx.space_id;
        let visible = if !in_space {
            false
        } else if ctx.role == Role::Admin {
            true
        } else {
            match find_grant(db, &ctx.space_id, &db.lists[i].id, &ctx.user_id) {
                Some(_) => true,
                None => false,
            }
        };
        proof {
            let l = db.lists@[i as int];
            if visible {
                assert(visible_list(*db, *ctx, l));
            } else {
                assert(!visible_list(*db, *ctx, l));
            }
            assert(lists_visible_to(*db, *ctx)(l) == visible_list(*db, *ctx, l));
            lemma_filter_take_step(db.lists@, lists_visible_to(*db, *ctx), i as int);
        }
        if visible {
            out.push(db.lists[i].clone());
        }
        i = i + 1;
    }
    proof {
        assert(db.lists@.take(n as int) =~= db.lists@);
    }
    sort_by_key(&mut out);
    proof {
        broadcast use vstd::seq_lib::group_to_multiset_ensures;

        let filtered = db.lists@.filter(lists_visible_to(*db, *ctx));
        assert forall|k: int| 0 <= k < out@.len() implies visible_list(
            *db,
            *ctx,
            #[trigger] out@[k],
        ) by {
            assert(out@.contains(out@[k]));
            assert(out@.to_multiset().count(out@[k]) > 0);
            assert(filtered.to_multiset().count(out@[k]) > 0);
            assert(filtered.contains(out@[k]));
            let w = choose|j: int| 0 <= j < filtered.len() && filtered[j] == out@[k];
            db.lists@.lemma_filter_pred(lists_visible_to(*db, *ctx), w);
        }
    }
    out
}

/// The fields of a freshly created list.
pub open spec fn created_list_fields(
    l: ListRow,
    ctx: Ctx,
    name: String,
    icon: Option<String>,
    color: Option<String>,
    order: Option<String>,
) -> bool {
    &&& l.id@.len() == 36
    &&& l.space_id@ == ctx.space_id@
    &&& l.name@ == name@
    &&& view_opt(l.icon) == view_opt(icon)
    &&& view_opt(l.color) == view_opt(color)
    &&& l.list_order@ == (match order {
        Option::Some(o) => o@,
        Option::None => "z"@,
    })
}

/// Creates a list in the caller's space; admin only.  The display rank
/// defaults to the string `z`.
pub fn create_list(
    db: &mut Db,
    ctx: &Ctx,
    name: String,
    icon: Option<String>,
    color: Option<String>,
    order: Option<String>,
) -> (r: Result<ListRow, ApiError>)
    requires
        wf(*old(db)),
        ctx_ok(*old(db), *ctx),
    ensures
        wf(*final(db)),
        admin_covered(*old(db)) ==> admin_covered(*final(db)),
        final(db).spaces@ == old(db).spaces@,
        final(db).users@ == old(db).users@,
        final(db).memberships@ == old(db).memberships@,
        final(db).grants@ == old(db).grants@,
        final(db).tasks@ == old(db).tasks@,
        ctx.role != Role::Admin ==> (r == Err::<ListRow, ApiError>(ApiError::Forbidden)
            && final(db).lists@ == old(db).lists@),
        ctx.role == Role::Admin ==> {
            &&& (r matches Ok(l) ==> (created_list_fields(l, *ctx, name, icon, color, order)
                && final(db).lists@ == old(db).lists@.push(l)))
            &&& (r is Err ==> (r == Err::<ListRow, ApiError>(ApiError::Internal)
                && final(db).lists@ == old(db).lists@))
        },
{
    if ctx.role != Role::Admin {
        return Err(ApiError::Forbidden);
    }
    let id = new_uuid();
    match find_list(&*db, &ctx.space_id, &id) {
        Some(_) => {
            return Err(ApiError::Internal);
        },
        None => {},
    }
    let rank: String = match &order {
        Some(o) => o.clone(),
        None => "z".to_owned(),
    };
    let l = ListRow {
        id,
        space_id: ctx.space_id.clone(),
        name,
        icon,
        color,
        list_order: rank,
    };
    let out = l.clone();
    let ghost gl = l;
    db.lists.push(l);
    proof {
        lemma_unique_lists_push(old(db).lists@, gl);
        assert forall|i: int| 0 <= i < db.tasks@.len() implies list_in_space(
            *db,
            (#[trigger] db.tasks@[i]).space_id@,
            db.tasks@[i].list_id@,
        ) by {
            assert(list_in_space(*old(db), db.tasks@[i].space_id@, db.tasks@[i].list_id@));
            let w = choose|k: int| 0 <= k < old(db).lists@.len()
                && (#[trigger] old(db).lists@[k].space_id@) == db.tasks@[i].space_id@
                && old(db).lists@[k].id@ == db.tasks@[i].list_id@;
            assert(db.lists@[w] == old(db).lists@[w]);
        }
        if admin_covered(*old(db)) {
            assert forall|s: int| 0 <= s < db.spaces@.len() implies space_has_admin(
                *db,
                (#[trigger] db.spaces@[s]).id@,
            ) by {
                assert(space_has_admin(*old(db), old(db).spaces@[s].id@));
            }
        }
    }
    Ok(out)
}

/// The list row after a coalescing patch.
pub open spec fn list_patch_ok(
    l: ListRow,
    v: ListRow,
    name: Option<String>,
    icon: Option<String>,
    color: Option<String>,
    order: Option<String>,
) -> bool {
    &&& v.id@ == l.id@
    &&& v.space_id@ == l.space_id@
    &&& v.name@ == (match name {
        Option::Some(x) => x@,
        Option::None => l.name@,
    })
    &&& view_opt(v.icon) == (match icon {
        Option::Some(x) => Some(x@),
        Option::None => view_opt(l.icon),
    })
    &&& view_opt(v.color) == (match color {
        Option::Some(x) => Some(x@),
        Option::None => view_opt(l.color),
    })
    &&& v.list_order@ == (match order {
        Option::Some(x) => x@,
        Option::None => l.list_order@,
    })
}

/// Updates a list with field-level coalesce; admin only.
pub fn update_list(
    db: &mut Db,
    ctx: &Ctx,
    id: &String,
    name: Option<String>,
    icon: Option<String>,
    color: Option<String>,
    order: Option<String>,
) -> (r: Result<ListRow, ApiError>)
    requires
        wf(*old(db)),
        ctx_ok(*old(db), *ctx),
    ensures
        wf(*final(db)),
        admin_covered(*old(db)) ==> admin_covered(*final(db)),
        final(db).spaces@ == old(db).spaces@,
        final(db).users@ == old(db).users@,
        final(db).memberships@ == old(db).memberships@,
        final(db).grants@ == old(db).grants@,
        final(db).tasks@ == old(db).tasks@,
        ctx.role != Role::Admin ==> (r == Err::<ListRow, ApiError>(ApiError::Forbidden)
            && final(db).lists@ == old(db).lists@),
        (ctx.role == Role::Admin && !list_in_space(*old(db), ctx.space_id@, id@)) ==> (r == Err::<
            ListRow,
            ApiError,
        >(ApiError::NotFound) && final(db).lists@ == old(db).lists@),
        (ctx.role == Role::Admin && list_in_space(*old(db), ctx.space_id@, id@)) ==> {
            let k = list_at(*old(db), ctx.space_id@, id@);
            &&& final(db).lists@ == old(db).lists@.update(k, final(db).lists@[k])
            &&& list_patch_ok(old(db).lists@[k], final(db).lists@[k], name, icon, color, order)
            &&& (r matches Ok(l) && l == final(db).lists@[k])
        },
{
    if ctx.role != Role::Admin {
        return Err(ApiError::Forbidden);
    }
    let k = match find_list(&*db, &ctx.space_id, id) {
        Some(k) => k,
        None => {
            return Err(ApiError::NotFound);
        },
    };
    proof {
        lemma_list_at(*db, k as int);
    }
    let mut v = db.lists[k].clone();
    match name {
        Some(x) => {
            v.name = x;
        },
        None => {},
    }
    match icon {
        Some(x) => {
            v.icon = Some(x);
        },
        None => {},
    }
    match color {
        Some(x) => {
            v.color = Some(x);
        },
        None => {},
    }
    match order {
        Some(x) => {
            v.list_order = x;
        },
        None => {},
    }
    let out = v.clone();
    let ghost gv = v;
    replace_at(&mut db.lists, k, v);
    proof {
        lemma_unique_lists_update(old(db).lists@, k as int, gv);
        assert forall|i: int| 0 <= i < db.tasks@.len() implies list_in_space(
            *db,
            (#[trigger] db.tasks@[i]).space_id@,
            db.tasks@[i].list_id@,
        ) by {
            assert(list_in_space(*old(db), db.tasks@[i].space_id@, db.tasks@[i].list_id@));
            let w = choose|w: int| 0 <= w < old(db).lists@.len()
                && (#[trigger] old(db).lists@[w].space_id@) == db.tasks@[i].space_id@
                && old(db).lists@[w].id@ == db.tasks@[i].list_id@;
            assert(db.lists@[w].space_id@ == old(db).lists@[w].space_id@
                && db.lists@[w].id@ == old(db).lists@[w].id@);
        }
        if admin_covered(*old(db)) {
            assert forall|s: int| 0 <= s < db.spaces@.len() implies space_has_admin(
                *db,
                (#[trigger] db.spaces@[s]).id@,
            ) by {
                assert(space_has_admin(*old(db), old(db).spaces@[s].id@));
            }
        }
    }
    Ok(out)
}

/// Deletes a list; admin only, and only while no task of the space still
/// references it — so every remaining task keeps a list.
pub fn delete_list(db: &mut Db, ctx: &Ctx, id: &String) -> (r: Result<(), ApiError>)
    requires
        wf(*old(db)),
        ctx_ok(*old(db), *ctx),
    ensures
        wf(*final(db)),
        admin_covered(*old(db)) ==> admin_covered(*final(db)),
        final(db).spaces@ == old(db).spaces@,
        final(db).users@ == old(db).users@,
        final(db).memberships@ == old(db).memberships@,
        final(db).grants@ == old(db).grants@,
        final(db).tasks@ == old(db).tasks@,
        ctx.role != Role::Admin ==> (r == Err::<(), ApiError>(ApiError::Forbidden)
            && final(db).lists@ == old(db).lists@),
        (ctx.role == Role::Admin && list_has_tasks(*old(db), ctx.space_id@, id@)) ==> (r == Err::<
            (),
            ApiError,
        >(ApiError::Conflict) && final(db).lists@ == old(db).lists@),
        (ctx.role == Role::Admin && !list_has_tasks(*old(db), ctx.space_id@, id@)
            && !list_in_space(*old(db), ctx.space_id@, id@)) ==> (r == Err::<(), ApiError>(
            ApiError::NotFound,
        ) && final(db).lists@ == old(db).lists@),
        (ctx.role == Role::Admin && !list_has_tasks(*old(db), ctx.space_id@, id@) && list_in_space(
            *old(db),
            ctx.space_id@,
            id@,
        )) ==> (r == Ok::<(), ApiError>(())
            && final(db).lists@ == old(db).lists@.remove(list_at(*old(db), ctx.space_id@, id@))),
{
    if ctx.role != Role::Admin {
        return Err(ApiError::Forbidden);
    }
    match find_task_in_list(&*db, &ctx.space_id, id) {
        Some(_) => {
            return Err(ApiError::Conflict);
        },
        None => {},
    }
    let k = match find_list(&*db, &ctx.space_id, id) {
        Some(k) => k,
        None => {
            return Err(ApiError::NotFound);
        },
    };
    proof {
        lemma_list_at(*db, k as int);
    }
    let _ = db.lists.remove(k);
    proof {
        lemma_unique_lists_remove(old(db).lists@, k as int);
        assert forall|i: int| 0 <= i < db.tasks@.len() implies list_in_space(
            *db,
            (#[trigger] db.tasks@[i]).space_id@,
            db.tasks@[i].list_id@,
        ) by {
            assert(list_in_space(*old(db), db.tasks@[i].space_id@, db.tasks@[i].list_id@));
            let w = choose|w: int| 0 <= w < old(db).lists@.len()
                && (#[trigger] old(db).lists@[w].space_id@) == db.tasks@[i].space_id@
                && old(db).lists@[w].id@ == db.tasks@[i].list_id@;
            assert(w != k as int);
            let w2 = if w < k as int {
                w
            } else {
                w - 1
            };
            assert(db.lists@[w2] == old(db).lists@[w]);
        }
        if admin_covered(*old(db)) {
            assert forall|s: int| 0 <= s < db.spaces@.len() implies space_has_admin(
                *db,
                (#[trigger] db.spaces@[s]).id@,
            ) by {
                assert(space_has_admin(*old(db), old(db).spaces@[s].id@));
            }
        }
    }
    Ok(())
}

} // verus!
