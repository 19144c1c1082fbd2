//! Data model of the task-synchronization engine.
//!
//! A [`Db`] holds the rows of the table store: spaces, users, memberships,
//! lists, per-list grants and tasks.  [`wf`] states the store invariants
//! (unique keys, every task's list exists in the task's space) that every
//! operation of the library preserves; [`admin_covered`] states that every
//! space keeps at least one admin.

use vstd::prelude::*;
use vstd::string::StringExecFns;
use crate::order::{lex_le, OrderKey};
use crate::strutil::{lower_of, lowercase_str, str_eq};

verus! {

broadcast use vstd::string::group_string_axioms;

/// The role a member holds in a space.
#[derive(Clone, Copy, PartialEq, Eq, Structural, Debug)]
pub enum Role {
    Admin,
    Contributor,
}

/// Lifecycle state of a task.
#[derive(Clone, Copy, PartialEq, Eq, Structural, Debug)]
pub enum TaskStatus {
    Pending,
    Done,
    Cancelled,
}

/// `true` exactly on the three status literals of the wire format.
pub fn is_valid_task_status(status: &str) -> (r: bool)
    ensures
        r == (status@ == "pending"@ || status@ == "done"@ || status@ == "cancelled"@),
{
    str_eq(status, "pending") || str_eq(status, "done") || str_eq(status, "cancelled")
}

/// The status a valid literal denotes.
pub open spec fn status_of(s: Seq<char>) -> TaskStatus {
    if s == "pending"@ {
        TaskStatus::Pending
    } else if s == "done"@ {
        TaskStatus::Done
    } else {
        TaskStatus::Cancelled
    }
}

/// Parses a status literal; `None` exactly on unknown literals.
pub fn parse_task_status(status: &str) -> (r: Option<TaskStatus>)
    ensures
        status@ == "pending"@ ==> r == Some(TaskStatus::Pending),
        status@ == "done"@ ==> r == Some(TaskStatus::Done),
        status@ == "cancelled"@ ==> r == Some(TaskStatus::Cancelled),
        r is None <==> !(status@ == "pending"@ || status@ == "done"@ || status@ == "cancelled"@),
        r matches Some(st) ==> st == status_of(status@),
{
    proof {
        reveal_strlit("pending");
        reveal_strlit("done");
        reveal_strlit("cancelled");
        assert("pending"@.len() == 7);
        assert("done"@.len() == 4);
        assert("cancelled"@.len() == 9);
    }
    if str_eq(status, "pending") {
        Some(TaskStatus::Pending)
    } else if str_eq(status, "done") {
        Some(TaskStatus::Done)
    } else if str_eq(status, "cancelled") {
        Some(TaskStatus::Cancelled)
    } else {
        None
    }
}

/// The wire literal of a status.
pub fn task_status_text(status: TaskStatus) -> (r: &'static str)
    ensures
        status == TaskStatus::Pending ==> r@ == "pending"@,
        status == TaskStatus::Done ==> r@ == "done"@,
        status == TaskStatus::Cancelled ==> r@ == "cancelled"@,
{
    match status {
        TaskStatus::Pending => "pending",
        TaskStatus::Done => "done",
        TaskStatus::Cancelled => "cancelled",
    }
}

/// Error taxonomy of the engine, mapped one to one onto HTTP status codes.
#[derive(Clone, Copy, PartialEq, Eq, Structural, Debug)]
pub enum ApiError {
    BadRequest,
    Unauthorized,
    Forbidden,
    NotFound,
    Conflict,
    Internal,
}

/// The HTTP status code an error maps to.
pub open spec fn status_code_spec(e: ApiError) -> u16 {
    match e {
        ApiError::BadRequest => 400u16,
        ApiError::Unauthorized => 401u16,
        ApiError::Forbidden => 403u16,
        ApiError::NotFound => 404u16,
        ApiError::Conflict => 409u16,
        ApiError::Internal => 500u16,
    }
}

/// The canonical reason phrase of an error.
pub open spec fn reason_spec(e: ApiError) -> Seq<char> {
    match e {
        ApiError::BadRequest => "Bad Request"@,
        ApiError::Unauthorized => "Unauthorized"@,
        ApiError::Forbidden => "Forbidden"@,
        ApiError::NotFound => "Not Found"@,
        ApiError::Conflict => "Conflict"@,
        ApiError::Internal => "Internal Server Error"@,
    }
}

impl ApiError {
    /// The HTTP status code of the error.
    pub fn status_code(&self) -> (r: u16)
        ensures
            r == status_code_spec(*self),
    {
        match self {
            ApiError::BadRequest => 400,
            ApiError::Unauthorized => 401,
            ApiError::Forbidden => 403,
            ApiError::NotFound => 404,
            ApiError::Conflict => 409,
            ApiError::Internal => 500,
        }
    }

    /// The canonical reason phrase of the error.
    pub fn reason(&self) -> (r: &'static str)
        ensures
            r@ == reason_spec(*self),
    {
        match self {
            ApiError::BadRequest => "Bad Request",
            ApiError::Unauthorized => "Unauthorized",
            ApiError::Forbidden => "Forbidden",
            ApiError::NotFound => "Not Found",
            ApiError::Conflict => "Conflict",
            ApiError::Internal => "Internal Server Error",
        }
    }
}

/// The tenant row.
#[derive(PartialEq, Eq, Debug)]
pub struct SpaceRow {
    pub id: String,
    pub name: String,
}

/// A global identity with its notification preferences.
#[derive(PartialEq, Eq, Debug)]
pub struct UserRow {
    pub id: String,
    pub email: String,
    pub display: String,
    pub avatar_icon: Option<String>,
    pub password_hash: Option<String>,
    pub sound_enabled: bool,
    pub sound_volume: i64,
    pub sound_theme: String,
    pub custom_sound_file_id: Option<String>,
    pub custom_sound_file_name: Option<String>,
    pub custom_sound_data_url: Option<String>,
    pub profile_attachments: Option<String>,
}

/// Membership of a user in a space.
#[derive(PartialEq, Eq, Debug)]
pub struct MembershipRow {
    pub id: String,
    pub space_id: String,
    pub user_id: String,
    pub role: Role,
}

/// A list of tasks, ordered among its siblings by `list_order`.
#[derive(PartialEq, Eq, Debug)]
pub struct ListRow {
    pub id: String,
    pub space_id: String,
    pub name: String,
    pub icon: Option<String>,
    pub color: Option<String>,
    pub list_order: String,
}

/// Read-and-write permission of a contributor on one list.
#[derive(PartialEq, Eq, Debug)]
pub struct GrantRow {
    pub id: String,
    pub space_id: String,
    pub list_id: String,
    pub user_id: String,
}

/// A task row.
#[derive(PartialEq, Eq, Debug)]
pub struct Task {
    pub id: String,
    pub space_id: String,
    pub title: String,
    pub status: TaskStatus,
    pub list_id: String,
    pub my_day: bool,
    pub task_order: String,
    pub updated_ts: i64,
    pub created_ts: i64,
    pub url: Option<String>,
    pub recur_rule: Option<String>,
    pub attachments: Option<String>,
    pub due_date: Option<String>,
    pub occurrences_completed: i64,
    pub completed_ts: Option<i64>,
    pub notes: Option<String>,
    pub assignee_user_id: Option<String>,
    pub created_by_user_id: Option<String>,
}

/// The resolved caller of a request: space, user and the role looked up
/// fresh from the membership table.
#[derive(PartialEq, Eq, Debug)]
pub struct Ctx {
    pub space_id: String,
    pub user_id: String,
    pub role: Role,
}

/// The whole table store.
#[derive(Debug)]
pub struct Db {
    pub spaces: Vec<SpaceRow>,
    pub users: Vec<UserRow>,
    pub memberships: Vec<MembershipRow>,
    pub lists: Vec<ListRow>,
    pub grants: Vec<GrantRow>,
    pub tasks: Vec<Task>,
}

/// Clones an optional string, keeping its characters.
pub fn clone_opt_string(a: &Option<String>) -> (r: Option<String>)
    ensures
        r == *a,
{
    match a {
        Option::None => None,
        Option::Some(x) => Some(x.clone()),
    }
}

impl Clone for SpaceRow {
    fn clone(&self) -> (res: Self)
        ensures
            res == *self,
    {
        SpaceRow { id: self.id.clone(), name: self.name.clone() }
    }
}

impl Clone for UserRow {
    fn clone(&self) -> (res: Self)
        ensures
            res == *self,
    {
        UserRow {
            id: self.id.clone(),
            email: self.email.clone(),
            display: self.display.clone(),
            avatar_icon: clone_opt_string(&self.avatar_icon),
            password_hash: clone_opt_string(&self.password_hash),
            sound_enabled: self.sound_enabled,
            sound_volume: self.sound_volume,
            sound_theme: self.sound_theme.clone(),
            custom_sound_file_id: clone_opt_string(&self.custom_sound_file_id),
            custom_sound_file_name: clone_opt_string(&self.custom_sound_file_name),
            custom_sound_data_url: clone_opt_string(&self.custom_sound_data_url),
            profile_attachments: clone_opt_string(&self.profile_attachments),
        }
    }
}

impl Clone for MembershipRow {
    fn clone(&self) -> (res: Self)
        ensures
            res == *self,
    {
        MembershipRow {
            id: self.id.clone(),
            space_id: self.space_id.clone(),
            user_id: self.user_id.clone(),
            role: self.role,
        }
    }
}

impl Clone for ListRow {
    fn clone(&self) -> (res: Self)
        ensures
            res == *self,
    {
        ListRow {
            id: self.id.clone(),
            space_id: self.space_id.clone(),
            name: self.name.clone(),
            icon: clone_opt_string(&self.icon),
            color: clone_opt_string(&self.color),
            list_order: self.list_order.clone(),
        }
    }
}

impl Clone for GrantRow {
    fn clone(&self) -> (res: Self)
        ensures
            res == *self,
    {
        GrantRow {
            id: self.id.clone(),
            space_id: self.space_id.clone(),
            list_id: self.list_id.clone(),
            user_id: self.user_id.clone(),
        }
    }
}

impl Clone for Task {
    fn clone(&self) -> (res: Self)
        ensures
            res == *self,
    {
        Task {
            id: self.id.clone(),
            space_id: self.space_id.clone(),
            title: self.title.clone(),
            status: self.status,
            list_id: self.list_id.clone(),
            my_day: self.my_day,
            task_order: self.task_order.clone(),
            updated_ts: self.updated_ts,
            created_ts: self.created_ts,
            url: clone_opt_string(&self.url),
            recur_rule: clone_opt_string(&self.recur_rule),
            attachments: clone_opt_string(&self.attachments),
            due_date: clone_opt_string(&self.due_date),
            occurrences_completed: self.occurrences_completed,
            completed_ts: self.completed_ts,
            notes: clone_opt_string(&self.notes),
            assignee_user_id: clone_opt_string(&self.assignee_user_id),
            created_by_user_id: clone_opt_string(&self.created_by_user_id),
        }
    }
}

impl Clone for Ctx {
    fn clone(&self) -> (res: Self)
        ensures
            res == *self,
    {
        Ctx {
            space_id: self.space_id.clone(),
            user_id: self.user_id.clone(),
            role: self.role,
        }
    }
}

impl OrderKey for UserRow {
    open spec fn key(&self) -> Seq<char> {
        self.id@
    }

    fn key_le(&self, other: &Self) -> (r: bool)
        ensures
            r == lex_le(self.key(), other.key()),
    {
        crate::order::str_le(self.id.as_str(), other.id.as_str())
    }
}

impl OrderKey for MembershipRow {
    open spec fn key(&self) -> Seq<char> {
        self.id@
    }

    fn key_le(&self, other: &Self) -> (r: bool)
        ensures
            r == lex_le(self.key(), other.key()),
    {
        crate::order::str_le(self.id.as_str(), other.id.as_str())
    }
}

impl OrderKey for GrantRow {
    open spec fn key(&self) -> Seq<char> {
        self.id@
    }

    fn key_le(&self, other: &Self) -> (r: bool)
        ensures
            r == lex_le(self.key(), other.key()),
    {
        crate::order::str_le(self.id.as_str(), other.id.as_str())
    }
}

impl OrderKey for ListRow {
    open spec fn key(&self) -> Seq<char> {
        self.list_order@
    }

    fn key_le(&self, other: &Self) -> (r: bool)
        ensures
            r == lex_le(self.key(), other.key()),
    {
        crate::order::str_le(self.list_order.as_str(), other.list_order.as_str())
    }
}

impl OrderKey for Task {
    open spec fn key(&self) -> Seq<char> {
        self.task_order@
    }

    fn key_le(&self, other: &Self) -> (r: bool)
        ensures
            r == lex_le(self.key(), other.key()),
    {
        crate::order::str_le(self.task_order.as_str(), other.task_order.as_str())
    }
}

// ---------------------------------------------------------------------------
// Store invariants
// ---------------------------------------------------------------------------

/// Space ids are unique.
pub open spec fn unique_spaces(s: Seq<SpaceRow>) -> bool {
    forall|i: int, j: int| 0 <= i < j < s.len() ==> (#[trigger] s[i].id@) != (#[trigger] s[j].id@)
}

/// User ids are unique.
pub open spec fn unique_users(s: Seq<UserRow>) -> bool {
    forall|i: int, j: int| 0 <= i < j < s.len() ==> (#[trigger] s[i].id@) != (#[trigger] s[j].id@)
}

/// User emails are unique regardless of letter case.
pub open spec fn unique_emails(s: Seq<UserRow>) -> bool {
    forall|i: int, j: int| 0 <= i < j < s.len()
        ==> lower_of((#[trigger] s[i].email@)) != lower_of((#[trigger] s[j].email@))
}

/// At most one membership per `(space, user)`.
pub open spec fn unique_memberships(s: Seq<MembershipRow>) -> bool {
    forall|i: int, j: int| 0 <= i < j < s.len()
        ==> !((#[trigger] s[i].space_id@) == (#[trigger] s[j].space_id@) && s[i].user_id@ == s[j].user_id@)
}

/// List ids are unique within a space.
pub open spec fn unique_lists(s: Seq<ListRow>) -> bool {
    forall|i: int, j: int| 0 <= i < j < s.len()
        ==> !((#[trigger] s[i].space_id@) == (#[trigger] s[j].space_id@) && s[i].id@ == s[j].id@)
}

/// At most one grant per `(space, list, user)`.
pub open spec fn unique_grants(s: Seq<GrantRow>) -> bool {
    forall|i: int, j: int| 0 <= i < j < s.len()
        ==> !((#[trigger] s[i].space_id@) == (#[trigger] s[j].space_id@) && s[i].list_id@ == s[j].list_id@
            && s[i].user_id@ == s[j].user_id@)
}

/// Task ids are unique within a space.
pub open spec fn unique_tasks(s: Seq<Task>) -> bool {
    forall|i: int, j: int| 0 <= i < j < s.len()
        ==> !((#[trigger] s[i].space_id@) == (#[trigger] s[j].space_id@) && s[i].id@ == s[j].id@)
}

/// Some list row of the space carries this id.
pub open spec fn list_in_space(db: Db, space: Seq<char>, list: Seq<char>) -> bool {
    exists|i: int| 0 <= i < db.lists@.len()
        && (#[trigger] db.lists@[i].space_id@) == space && db.lists@[i].id@ == list
}

/// Every task's list exists within the task's own space.
pub open spec fn tasks_reference_lists(db: Db) -> bool {
    forall|i: int| 0 <= i < db.tasks@.len()
        ==> list_in_space(db, (#[trigger] db.tasks@[i]).space_id@, db.tasks@[i].list_id@)
}

/// Every membership's user has a user row.
pub open spec fn memberships_reference_users(db: Db) -> bool {
    forall|i: int| 0 <= i < db.memberships@.len()
        ==> user_exists(db, (#[trigger] db.memberships@[i]).user_id@)
}

/// Well-formedness of the store: the unique keys of the schema, every task
/// referencing a list of its own space, and every membership referencing a
/// user row.
pub open spec fn wf(db: Db) -> bool {
    &&& unique_spaces(db.spaces@)
    &&& unique_users(db.users@)
    &&& unique_emails(db.users@)
    &&& unique_memberships(db.memberships@)
    &&& unique_lists(db.lists@)
    &&& unique_grants(db.grants@)
    &&& unique_tasks(db.tasks@)
    &&& tasks_reference_lists(db)
    &&& memberships_reference_users(db)
}

/// Some space row carries this id.
pub open spec fn has_space(db: Db, space: Seq<char>) -> bool {
    exists|i: int| 0 <= i < db.spaces@.len() && (#[trigger] db.spaces@[i].id@) == space
}

/// The index of the space row with this id.
pub open spec fn space_at(db: Db, space: Seq<char>) -> int {
    choose|i: int| 0 <= i < db.spaces@.len() && (#[trigger] db.spaces@[i].id@) == space
}

/// Any space row with this id is the row `space_at` picks.
pub proof fn lemma_space_at(db: Db, i: int)
    requires
        unique_spaces(db.spaces@),
        0 <= i < db.spaces@.len(),
    ensures
        space_at(db, db.spaces@[i].id@) == i,
        has_space(db, db.spaces@[i].id@),
{
    let id = db.spaces@[i].id@;
    assert(has_space(db, id));
    let j = space_at(db, id);
    if i != j {
        assert(false);
    }
}

/// Some membership row binds this user to this space.
pub open spec fn is_member(db: Db, space: Seq<char>, user: Seq<char>) -> bool {
    exists|i: int| 0 <= i < db.memberships@.len()
        && (#[trigger] db.memberships@[i].space_id@) == space && db.memberships@[i].user_id@ == user
}

/// The index of the membership row of `(space, user)`.
pub open spec fn membership_at(db: Db, space: Seq<char>, user: Seq<char>) -> int {
    choose|i: int| 0 <= i < db.memberships@.len()
        && (#[trigger] db.memberships@[i].space_id@) == space && db.memberships@[i].user_id@ == user
}

/// The role the membership table gives this user in this space.
pub open spec fn member_role(db: Db, space: Seq<char>, user: Seq<char>) -> Role {
    db.memberships@[membership_at(db, space, user)].role
}

/// The caller is a member and carries the role of its membership row.
pub open spec fn ctx_ok(db: Db, ctx: Ctx) -> bool {
    &&& is_member(db, ctx.space_id@, ctx.user_id@)
    &&& ctx.role == member_role(db, ctx.space_id@, ctx.user_id@)
}

/// Some grant row gives this user this list.
pub open spec fn has_grant(db: Db, space: Seq<char>, user: Seq<char>, list: Seq<char>) -> bool {
    exists|i: int| 0 <= i < db.grants@.len()
        && (#[trigger] db.grants@[i].space_id@) == space && db.grants@[i].user_id@ == user
        && db.grants@[i].list_id@ == list
}

/// Whether the caller may see a list: admins see every list of their space,
/// contributors only the granted ones.
pub open spec fn visible_list(db: Db, ctx: Ctx, l: ListRow) -> bool {
    l.space_id@ == ctx.space_id@
        && (ctx.role == Role::Admin || has_grant(db, ctx.space_id@, ctx.user_id@, l.id@))
}

/// Whether the caller may see a task: admins see every task of their space,
/// contributors exactly the tasks whose list is granted to them.
pub open spec fn visible_task(db: Db, ctx: Ctx, t: Task) -> bool {
    t.space_id@ == ctx.space_id@
        && (ctx.role == Role::Admin || has_grant(db, ctx.space_id@, ctx.user_id@, t.list_id@))
}

/// Some membership row is an admin of this space.
pub open spec fn space_has_admin(db: Db, space: Seq<char>) -> bool {
    exists|i: int| 0 <= i < db.memberships@.len()
        && (#[trigger] db.memberships@[i].space_id@) == space && db.memberships@[i].role == Role::Admin
}

/// Every space of the store keeps at least one admin.
pub open spec fn admin_covered(db: Db) -> bool {
    forall|i: int| 0 <= i < db.spaces@.len()
        ==> space_has_admin(db, (#[trigger] db.spaces@[i]).id@)
}

// ---------------------------------------------------------------------------
// Laws over the invariants
// ---------------------------------------------------------------------------

/// In a well-formed store, every task's `list_id` references a list of the
/// task's own space.
pub proof fn lemma_task_references_list(db: Db, i: int)
    requires
        wf(db),
        0 <= i < db.tasks@.len(),
    ensures
        list_in_space(db, db.tasks@[i].space_id@, db.tasks@[i].list_id@),
{
}

/// In a well-formed store there is at most one task per `(space, id)`: two
/// rows that agree on both are the same row.
pub proof fn lemma_task_id_unique(db: Db, i: int, j: int)
    requires
        wf(db),
        0 <= i < db.tasks@.len(),
        0 <= j < db.tasks@.len(),
        db.tasks@[i].space_id@ == db.tasks@[j].space_id@,
        db.tasks@[i].id@ == db.tasks@[j].id@,
    ensures
        i == j,
{
}

/// A contributor can read a task exactly when a grant binds the contributor
/// to the task's list in the caller's space.
pub proof fn lemma_contributor_visibility(db: Db, ctx: Ctx, t: Task)
    requires
        ctx.role == Role::Contributor,
    ensures
        visible_task(db, ctx, t) <==> (t.space_id@ == ctx.space_id@
            && has_grant(db, ctx.space_id@, ctx.user_id@, t.list_id@)),
{
}

/// Any membership row of `(space, user)` is the row `membership_at` picks.
pub proof fn lemma_membership_at(db: Db, i: int)
    requires
        unique_memberships(db.memberships@),
        0 <= i < db.memberships@.len(),
    ensures
        membership_at(db, db.memberships@[i].space_id@, db.memberships@[i].user_id@) == i,
        member_role(db, db.memberships@[i].space_id@, db.memberships@[i].user_id@)
            == db.memberships@[i].role,
{
    let space = db.memberships@[i].space_id@;
    let user = db.memberships@[i].user_id@;
    assert(is_member(db, space, user));
    let j = membership_at(db, space, user);
    if i != j {
        assert(false);
    }
}

// ---------------------------------------------------------------------------
// Executable lookups
// ---------------------------------------------------------------------------

/// Finds the space row with this id.
pub fn find_space(db: &Db, id: &String) -> (r: Option<usize>)
    ensures
        match r {
            Some(i) => i < db.spaces@.len() && db.spaces@[i as int].id@ == id@,
            None => forall|i: int| 0 <= i < db.spaces@.len()
                ==> (#[trigger] db.spaces@[i].id@) != id@,
        },
{
    let n = db.spaces.len();
    let mut i: usize = 0;
    while i < n
        invariant
            i <= n,
            n == db.spaces@.len(),
            forall|k: int| 0 <= k < i ==> (#[trigger] db.spaces@[k].id@) != id@,
        decreases n - i,
    {
        if db.spaces[i].id == *id {
            return Some(i);
        }
        i = i + 1;
    }
    None
}

/// Finds the user row with this id.
pub fn find_user(db: &Db, id: &String) -> (r: Option<usize>)
    ensures
        match r {
            Some(i) => i < db.users@.len() && db.users@[i as int].id@ == id@,
            None => forall|i: int| 0 <= i < db.users@.len()
                ==> (#[trigger] db.users@[i].id@) != id@,
        },
{
    let n = db.users.len();
    let mut i: usize = 0;
    while i < n
        invariant
            i <= n,
            n == db.users@.len(),
            forall|k: int| 0 <= k < i ==> (#[trigger] db.users@[k].id@) != id@,
        decreases n - i,
    {
        if db.users[i].id == *id {
            return Some(i);
        }
        i = i + 1;
    }
    None
}

/// Finds the membership row of `(space, user)`.
pub fn find_membership(db: &Db, space: &String, user: &String) -> (r: Option<usize>)
    ensures
        match r {
            Some(i) => i < db.memberships@.len() && db.memberships@[i as int].space_id@ == space@
                && db.memberships@[i as int].user_id@ == user@,
            None => !is_member(*db, space@, user@),
        },
{
    let n = db.memberships.len();
    let mut i: usize = 0;
    while i < n
        invariant
            i <= n,
            n == db.memberships@.len(),
            forall|k: int| 0 <= k < i
                ==> !((#[trigger] db.memberships@[k].space_id@) == space@
                    && db.memberships@[k].user_id@ == user@),
        decreases n - i,
    {
        if db.memberships[i].space_id == *space && db.memberships[i].user_id == *user {
            return Some(i);
        }
        i = i + 1;
    }
    None
}

/// Finds the list row with this id in this space.
pub fn find_list(db: &Db, space: &String, id: &String) -> (r: Option<usize>)
    ensures
        match r {
            Some(i) => i < db.lists@.len() && db.lists@[i as int].space_id@ == space@
                && db.lists@[i as int].id@ == id@,
            None => !list_in_space(*db, space@, id@),
        },
{
    let n = db.lists.len();
    let mut i: usize = 0;
    while i < n
        invariant
            i <= n,
            n == db.lists@.len(),
            forall|k: int| 0 <= k < i
                ==> !((#[trigger] db.lists@[k].space_id@) == space@ && db.lists@[k].id@ == id@),
        decreases n - i,
    {
        if db.lists[i].space_id == *space && db.lists[i].id == *id {
            return Some(i);
        }
        i = i + 1;
    }
    None
}

/// Finds the grant row of `(space, list, user)`.
pub fn find_grant(db: &Db, space: &String, list: &String, user: &String) -> (r: Option<usize>)
    ensures
        match r {
            Some(i) => i < db.grants@.len() && db.grants@[i as int].space_id@ == space@
                && db.grants@[i as int].list_id@ == list@ && db.grants@[i as int].user_id@ == user@,
            None => !has_grant(*db, space@, user@, list@),
        },
{
    let n = db.grants.len();
    let mut i: usize = 0;
    while i < n
        invariant
            i <= n,
            n == db.grants@.len(),
            forall|k: int| 0 <= k < i
                ==> !((#[trigger] db.grants@[k].space_id@) == space@
                    && db.grants@[k].list_id@ == list@ && db.grants@[k].user_id@ == user@),
        decreases n - i,
    {
        if db.grants[i].space_id == *space && db.grants[i].list_id == *list
            && db.grants[i].user_id == *user {
            return Some(i);
        }
        i = i + 1;
    }
    None
}

/// Some task row of this space carries this id.
pub open spec fn task_in_space(db: Db, space: Seq<char>, id: Seq<char>) -> bool {
    exists|i: int| 0 <= i < db.tasks@.len()
        && (#[trigger] db.tasks@[i].space_id@) == space && db.tasks@[i].id@ == id
}

/// Finds the task row with this id in this space.
pub fn find_task(db: &Db, space: &String, id: &String) -> (r: Option<usize>)
    ensures
        match r {
            Some(i) => i < db.tasks@.len() && db.tasks@[i as int].space_id@ == space@
                && db.tasks@[i as int].id@ == id@,
            None => !task_in_space(*db, space@, id@),
        },
{
    let n = db.tasks.len();
    let mut i: usize = 0;
    while i < n
        invariant
            i <= n,
            n == db.tasks@.len(),
            forall|k: int| 0 <= k < i
                ==> !((#[trigger] db.tasks@[k].space_id@) == space@ && db.tasks@[k].id@ == id@),
        decreases n - i,
    {
        if db.tasks[i].space_id == *space && db.tasks[i].id == *id {
            return Some(i);
        }
        i = i + 1;
    }
    None
}

/// Some task row outside this space carries this id.
pub open spec fn task_id_elsewhere(db: Db, space: Seq<char>, id: Seq<char>) -> bool {
    exists|i: int| 0 <= i < db.tasks@.len()
        && (#[trigger] db.tasks@[i].space_id@) != space && db.tasks@[i].id@ == id
}

/// Finds a task row with this id in a different space.
pub fn find_task_elsewhere(db: &Db, space: &String, id: &String) -> (r: Option<usize>)
    ensures
        match r {
            Some(i) => i < db.tasks@.len() && db.tasks@[i as int].space_id@ != space@
                && db.tasks@[i as int].id@ == id@,
            None => !task_id_elsewhere(*db, space@, id@),
        },
{
    let n = db.tasks.len();
    let mut i: usize = 0;
    while i < n
        invariant
            i <= n,
            n == db.tasks@.len(),
            forall|k: int| 0 <= k < i
                ==> !((#[trigger] db.tasks@[k].space_id@) != space@ && db.tasks@[k].id@ == id@),
        decreases n - i,
    {
        if db.tasks[i].space_id != *space && db.tasks[i].id == *id {
            return Some(i);
        }
        i = i + 1;
    }
    None
}

/// Some user row carries this id.
pub open spec fn user_exists(db: Db, id: Seq<char>) -> bool {
    exists|i: int| 0 <= i < db.users@.len() && (#[trigger] db.users@[i].id@) == id
}

/// The index of the user row with this id.
pub open spec fn user_at(db: Db, id: Seq<char>) -> int {
    choose|i: int| 0 <= i < db.users@.len() && (#[trigger] db.users@[i].id@) == id
}

/// Any user row with this id is the row `user_at` picks.
pub proof fn lemma_user_at(db: Db, i: int)
    requires
        unique_users(db.users@),
        0 <= i < db.users@.len(),
    ensures
        user_at(db, db.users@[i].id@) == i,
        user_exists(db, db.users@[i].id@),
{
    let id = db.users@[i].id@;
    assert(user_exists(db, id));
    let j = user_at(db, id);
    if i != j {
        assert(false);
    }
}

/// Some user row's email matches this lowercased email.
pub open spec fn email_taken(db: Db, email_low: Seq<char>) -> bool {
    exists|i: int| 0 <= i < db.users@.len()
        && lower_of((#[trigger] db.users@[i].email@)) == email_low
}

/// Finds the user row whose email, lowercased, equals `email_low`.
pub fn find_user_by_email(db: &Db, email_low: &String) -> (r: Option<usize>)
    ensures
        match r {
            Some(i) => i < db.users@.len() && lower_of(db.users@[i as int].email@) == email_low@,
            None => !email_taken(*db, email_low@),
        },
{
    let n = db.users.len();
    let mut i: usize = 0;
    while i < n
        invariant
            i <= n,
            n == db.users@.len(),
            forall|k: int| 0 <= k < i ==> lower_of((#[trigger] db.users@[k].email@)) != email_low@,
        decreases n - i,
    {
        let low = lowercase_str(db.users[i].email.as_str());
        if low == *email_low {
            return Some(i);
        }
        i = i + 1;
    }
    None
}

/// A member as the read endpoints present it: the user row joined with its
/// membership.
#[derive(PartialEq, Eq, Debug)]
pub struct MemberInfo {
    pub user_id: String,
    pub email: String,
    pub display: String,
    pub avatar_icon: Option<String>,
    pub space_id: String,
    pub role: Role,
}

impl Clone for MemberInfo {
    fn clone(&self) -> (res: Self)
        ensures
            res == *self,
    {
        MemberInfo {
            user_id: self.user_id.clone(),
            email: self.email.clone(),
            display: self.display.clone(),
            avatar_icon: clone_opt_string(&self.avatar_icon),
            space_id: self.space_id.clone(),
            role: self.role,
        }
    }
}

impl OrderKey for MemberInfo {
    open spec fn key(&self) -> Seq<char> {
        self.display@
    }

    fn key_le(&self, other: &Self) -> (r: bool)
        ensures
            r == lex_le(self.key(), other.key()),
    {
        crate::order::str_le(self.display.as_str(), other.display.as_str())
    }
}

/// A grant as the grants endpoint presents it.
#[derive(PartialEq, Eq, Debug)]
pub struct GrantInfo {
    pub user_id: String,
    pub list_id: String,
}

impl Clone for GrantInfo {
    fn clone(&self) -> (res: Self)
        ensures
            res == *self,
    {
        GrantInfo { user_id: self.user_id.clone(), list_id: self.list_id.clone() }
    }
}

impl OrderKey for GrantInfo {
    open spec fn key(&self) -> Seq<char> {
        self.user_id@ + seq!['\u{0}'] + self.list_id@
    }

    fn key_le(&self, other: &Self) -> (r: bool)
        ensures
            r == lex_le(self.key(), other.key()),
    {
        proof {
            reveal_strlit("\u{0}");
            assert("\u{0}"@ =~= seq!['\u{0}']);
        }
        let mut a = self.user_id.clone();
        a.append("\u{0}");
        a.append(self.list_id.as_str());
        let mut b = other.user_id.clone();
        b.append("\u{0}");
        b.append(other.list_id.as_str());
        crate::order::str_le(a.as_str(), b.as_str())
    }
}

/// Replaces the row at `i`, leaving every other row alone.
pub fn replace_at<T>(v: &mut Vec<T>, i: usize, x: T)
    requires
        i < old(v)@.len(),
    ensures
        final(v)@ == old(v)@.update(i as int, x),
{
    let _ = v.remove(i);
    v.insert(i, x);
    proof {
        assert(v@ =~= old(v)@.update(i as int, x));
    }
}

/// The membership-to-user references carry over when both tables are kept.
pub proof fn lemma_fk_transfer(db1: Db, db2: Db)
    requires
        memberships_reference_users(db1),
        db2.memberships@ == db1.memberships@,
        db2.users@ == db1.users@,
    ensures
        memberships_reference_users(db2),
{
    assert forall|i: int| 0 <= i < db2.memberships@.len() implies user_exists(
        db2,
        (#[trigger] db2.memberships@[i]).user_id@,
    ) by {
        assert(user_exists(db1, db1.memberships@[i].user_id@));
        let j = choose|j: int| 0 <= j < db1.users@.len()
            && (#[trigger] db1.users@[j].id@) == db1.memberships@[i].user_id@;
        assert(db2.users@[j] == db1.users@[j]);
    }
}

/// Patching user rows without touching ids or emails keeps the store
/// well-formed, as long as the other tables stay as they were.
pub proof fn lemma_wf_users_patch(db1: Db, db2: Db)
    requires
        wf(db1),
        db2.spaces@ == db1.spaces@,
        db2.memberships@ == db1.memberships@,
        db2.lists@ == db1.lists@,
        db2.grants@ == db1.grants@,
        db2.tasks@ == db1.tasks@,
        db2.users@.len() == db1.users@.len(),
        forall|i: int| 0 <= i < db1.users@.len()
            ==> (#[trigger] db2.users@[i].id@) == db1.users@[i].id@,
        forall|i: int| 0 <= i < db1.users@.len()
            ==> (#[trigger] db2.users@[i].email@) == db1.users@[i].email@,
    ensures
        wf(db2),
        admin_covered(db1) ==> admin_covered(db2),
{
    assert forall|i: int, j: int| 0 <= i < j < db2.users@.len() implies
        (#[trigger] db2.users@[i].id@) != (#[trigger] db2.users@[j].id@) by {
        assert(db1.users@[i].id@ != db1.users@[j].id@);
    }
    assert forall|i: int, j: int| 0 <= i < j < db2.users@.len() implies
        lower_of((#[trigger] db2.users@[i].email@)) != lower_of((#[trigger] db2.users@[j].email@)) by {
        assert(lower_of(db1.users@[i].email@) != lower_of(db1.users@[j].email@));
    }
    assert forall|i: int| 0 <= i < db2.tasks@.len() implies
        list_in_space(db2, (#[trigger] db2.tasks@[i]).space_id@, db2.tasks@[i].list_id@) by {
        assert(list_in_space(db1, db1.tasks@[i].space_id@, db1.tasks@[i].list_id@));
        let w = choose|k: int| 0 <= k < db1.lists@.len()
            && (#[trigger] db1.lists@[k].space_id@) == db1.tasks@[i].space_id@
            && db1.lists@[k].id@ == db1.tasks@[i].list_id@;
        assert(0 <= w < db2.lists@.len() && db2.lists@[w].space_id@ == db2.tasks@[i].space_id@
            && db2.lists@[w].id@ == db2.tasks@[i].list_id@);
    }
    if admin_covered(db1) {
        assert forall|i: int| 0 <= i < db2.spaces@.len() implies
            space_has_admin(db2, (#[trigger] db2.spaces@[i]).id@) by {
            assert(space_has_admin(db1, db1.spaces@[i].id@));
            let w = choose|k: int| 0 <= k < db1.memberships@.len()
                && (#[trigger] db1.memberships@[k].space_id@) == db1.spaces@[i].id@
                && db1.memberships@[k].role == Role::Admin;
            assert(0 <= w < db2.memberships@.len()
                && db2.memberships@[w].space_id@ == db2.spaces@[i].id@
                && db2.memberships@[w].role == Role::Admin);
        }
    }
    assert forall|i: int| 0 <= i < db2.memberships@.len() implies user_exists(
        db2,
        (#[trigger] db2.memberships@[i]).user_id@,
    ) by {
        assert(user_exists(db1, db1.memberships@[i].user_id@));
        let j = choose|j: int| 0 <= j < db1.users@.len()
            && (#[trigger] db1.users@[j].id@) == db1.memberships@[i].user_id@;
        assert(db2.users@[j].id@ == db1.users@[j].id@);
    }
}

/// The index of the task row of `(space, id)`.
pub open spec fn task_at(db: Db, space: Seq<char>, id: Seq<char>) -> int {
    choose|i: int| 0 <= i < db.tasks@.len()
        && (#[trigger] db.tasks@[i].space_id@) == space && db.tasks@[i].id@ == id
}

/// Any task row of `(space, id)` is the row `task_at` picks.
pub proof fn lemma_task_at(db: Db, i: int)
    requires
        unique_tasks(db.tasks@),
        0 <= i < db.tasks@.len(),
    ensures
        task_at(db, db.tasks@[i].space_id@, db.tasks@[i].id@) == i,
        task_in_space(db, db.tasks@[i].space_id@, db.tasks@[i].id@),
{
    let space = db.tasks@[i].space_id@;
    let id = db.tasks@[i].id@;
    assert(task_in_space(db, space, id));
    let j = task_at(db, space, id);
    if i != j {
        assert(false);
    }
}

/// Pushing a task whose `(space, id)` is fresh keeps task ids unique.
pub proof fn lemma_unique_tasks_push(s: Seq<Task>, t: Task)
    requires
        unique_tasks(s),
        forall|i: int| 0 <= i < s.len()
            ==> !((#[trigger] s[i].space_id@) == t.space_id@ && s[i].id@ == t.id@),
    ensures
        unique_tasks(s.push(t)),
{
    let s2 = s.push(t);
    assert forall|i: int, j: int| 0 <= i < j < s2.len() implies
        !((#[trigger] s2[i].space_id@) == (#[trigger] s2[j].space_id@) && s2[i].id@ == s2[j].id@) by {
        if j < s.len() {
            assert(s2[i] == s[i] && s2[j] == s[j]);
        } else {
            assert(s2[j] == t && s2[i] == s[i]);
        }
    }
}

/// Replacing a task without changing its `(space, id)` keeps task ids
/// unique.
pub proof fn lemma_unique_tasks_update(s: Seq<Task>, k: int, t: Task)
    requires
        unique_tasks(s),
        0 <= k < s.len(),
        t.space_id@ == s[k].space_id@,
        t.id@ == s[k].id@,
    ensures
        unique_tasks(s.update(k, t)),
{
    let s2 = s.update(k, t);
    assert forall|i: int, j: int| 0 <= i < j < s2.len() implies
        !((#[trigger] s2[i].space_id@) == (#[trigger] s2[j].space_id@) && s2[i].id@ == s2[j].id@) by {
        assert(s2[i].space_id@ == s[i].space_id@ && s2[i].id@ == s[i].id@);
        assert(s2[j].space_id@ == s[j].space_id@ && s2[j].id@ == s[j].id@);
    }
}

/// Removing a task keeps task ids unique.
pub proof fn lemma_unique_tasks_remove(s: Seq<Task>, k: int)
    requires
        unique_tasks(s),
        0 <= k < s.len(),
    ensures
        unique_tasks(s.remove(k)),
{
    let s2 = s.remove(k);
    assert forall|i: int, j: int| 0 <= i < j < s2.len() implies
        !((#[trigger] s2[i].space_id@) == (#[trigger] s2[j].space_id@) && s2[i].id@ == s2[j].id@) by {
        let i0 = if i < k { i } else { i + 1 };
        let j0 = if j < k { j } else { j + 1 };
        assert(s2[i] == s[i0] && s2[j] == s[j0]);
    }
}

/// Replacing the task table keeps the store well-formed, as long as the new
/// table has unique ids and every row's list existed already.
pub proof fn lemma_wf_tasks_swap(db1: Db, db2: Db)
    requires
        wf(db1),
        db2.spaces@ == db1.spaces@,
        db2.users@ == db1.users@,
        db2.memberships@ == db1.memberships@,
        db2.lists@ == db1.lists@,
        db2.grants@ == db1.grants@,
        unique_tasks(db2.tasks@),
        forall|i: int| 0 <= i < db2.tasks@.len()
            ==> list_in_space(db1, (#[trigger] db2.tasks@[i]).space_id@, db2.tasks@[i].list_id@),
    ensures
        wf(db2),
        admin_covered(db1) ==> admin_covered(db2),
{
    lemma_fk_transfer(db1, db2);
    assert forall|i: int| 0 <= i < db2.tasks@.len() implies
        list_in_space(db2, (#[trigger] db2.tasks@[i]).space_id@, db2.tasks@[i].list_id@) by {
        let w = choose|k: int| 0 <= k < db1.lists@.len()
            && (#[trigger] db1.lists@[k].space_id@) == db2.tasks@[i].space_id@
            && db1.lists@[k].id@ == db2.tasks@[i].list_id@;
        assert(0 <= w < db2.lists@.len() && db2.lists@[w].space_id@ == db2.tasks@[i].space_id@
            && db2.lists@[w].id@ == db2.tasks@[i].list_id@);
    }
    if admin_covered(db1) {
        assert forall|i: int| 0 <= i < db2.spaces@.len() implies
            space_has_admin(db2, (#[trigger] db2.spaces@[i]).id@) by {
            assert(space_has_admin(db1, db1.spaces@[i].id@));
            let w = choose|k: int| 0 <= k < db1.memberships@.len()
                && (#[trigger] db1.memberships@[k].space_id@) == db1.spaces@[i].id@
                && db1.memberships@[k].role == Role::Admin;
            assert(0 <= w < db2.memberships@.len()
                && db2.memberships@[w].space_id@ == db2.spaces@[i].id@
                && db2.memberships@[w].role == Role::Admin);
        }
    }
}

/// The index of the grant row of `(space, list, user)`.
pub open spec fn grant_at(db: Db, space: Seq<char>, list: Seq<char>, user: Seq<char>) -> int {
    choose|i: int| 0 <= i < db.grants@.len()
        && (#[trigger] db.grants@[i].space_id@) == space && db.grants@[i].list_id@ == list
        && db.grants@[i].user_id@ == user
}

/// Any grant row of `(space, list, user)` is the row `grant_at` picks.
pub proof fn lemma_grant_at(db: Db, i: int)
    requires
        unique_grants(db.grants@),
        0 <= i < db.grants@.len(),
    ensures
        grant_at(db, db.grants@[i].space_id@, db.grants@[i].list_id@, db.grants@[i].user_id@) == i,
        has_grant(db, db.grants@[i].space_id@, db.grants@[i].user_id@, db.grants@[i].list_id@),
{
    let space = db.grants@[i].space_id@;
    let list = db.grants@[i].list_id@;
    let user = db.grants@[i].user_id@;
    assert(has_grant(db, space, user, list));
    let j = grant_at(db, space, list, user);
    if i != j {
        assert(false);
    }
}

/// The index of the email's user row.
pub open spec fn email_at(db: Db, email_low: Seq<char>) -> int {
    choose|i: int| 0 <= i < db.users@.len()
        && lower_of((#[trigger] db.users@[i].email@)) == email_low
}

/// Any user row matching the lowercased email is the row `email_at` picks.
pub proof fn lemma_email_at(db: Db, i: int)
    requires
        unique_emails(db.users@),
        0 <= i < db.users@.len(),
    ensures
        email_at(db, lower_of(db.users@[i].email@)) == i,
        email_taken(db, lower_of(db.users@[i].email@)),
{
    let el = lower_of(db.users@[i].email@);
    assert(email_taken(db, el));
    let j = email_at(db, el);
    if i != j {
        assert(false);
    }
}

/// The index of the list row of `(space, id)`.
pub open spec fn list_at(db: Db, space: Seq<char>, id: Seq<char>) -> int {
    choose|i: int| 0 <= i < db.lists@.len()
        && (#[trigger] db.lists@[i].space_id@) == space && db.lists@[i].id@ == id
}

/// Any list row of `(space, id)` is the row `list_at` picks.
pub proof fn lemma_list_at(db: Db, i: int)
    requires
        unique_lists(db.lists@),
        0 <= i < db.lists@.len(),
    ensures
        list_at(db, db.lists@[i].space_id@, db.lists@[i].id@) == i,
        list_in_space(db, db.lists@[i].space_id@, db.lists@[i].id@),
{
    let space = db.lists@[i].space_id@;
    let id = db.lists@[i].id@;
    assert(list_in_space(db, space, id));
    let j = list_at(db, space, id);
    if i != j {
        assert(false);
    }
}

/// Some task of the space sits in this list.
pub open spec fn list_has_tasks(db: Db, space: Seq<char>, list: Seq<char>) -> bool {
    exists|i: int| 0 <= i < db.tasks@.len()
        && (#[trigger] db.tasks@[i].space_id@) == space && db.tasks@[i].list_id@ == list
}

/// Finds a task of the space sitting in this list.
pub fn find_task_in_list(db: &Db, space: &String, list: &String) -> (r: Option<usize>)
    ensures
        match r {
            Some(i) => i < db.tasks@.len() && db.tasks@[i as int].space_id@ == space@
                && db.tasks@[i as int].list_id@ == list@,
            None => !list_has_tasks(*db, space@, list@),
        },
{
    let n = db.tasks.len();
    let mut i: usize = 0;
    while i < n
        invariant
            i <= n,
            n == db.tasks@.len(),
            forall|k: int| 0 <= k < i
                ==> !((#[trigger] db.tasks@[k].space_id@) == space@ && db.tasks@[k].list_id@ == list@),
        decreases n - i,
    {
        if db.tasks[i].space_id == *space && db.tasks[i].list_id == *list {
            return Some(i);
        }
        i = i + 1;
    }
    None
}

/// Pushing a list whose `(space, id)` is fresh keeps list ids unique.
pub proof fn lemma_unique_lists_push(s: Seq<ListRow>, l: ListRow)
    requires
        unique_lists(s),
        forall|i: int| 0 <= i < s.len()
            ==> !((#[trigger] s[i].space_id@) == l.space_id@ && s[i].id@ == l.id@),
    ensures
        unique_lists(s.push(l)),
{
    let s2 = s.push(l);
    assert forall|i: int, j: int| 0 <= i < j < s2.len() implies
        !((#[trigger] s2[i].space_id@) == (#[trigger] s2[j].space_id@) && s2[i].id@ == s2[j].id@) by {
        if j < s.len() {
            assert(s2[i] == s[i] && s2[j] == s[j]);
        } else {
            assert(s2[j] == l && s2[i] == s[i]);
        }
    }
}

/// Replacing a list without changing its `(space, id)` keeps list ids
/// unique.
pub proof fn lemma_unique_lists_update(s: Seq<ListRow>, k: int, l: ListRow)
    requires
        unique_lists(s),
        0 <= k < s.len(),
        l.space_id@ == s[k].space_id@,
        l.id@ == s[k].id@,
    ensures
        unique_lists(s.update(k, l)),
{
    let s2 = s.update(k, l);
    assert forall|i: int, j: int| 0 <= i < j < s2.len() implies
        !((#[trigger] s2[i].space_id@) == (#[trigger] s2[j].space_id@) && s2[i].id@ == s2[j].id@) by {
        assert(s2[i].space_id@ == s[i].space_id@ && s2[i].id@ == s[i].id@);
        assert(s2[j].space_id@ == s[j].space_id@ && s2[j].id@ == s[j].id@);
    }
}

/// Removing a list keeps list ids unique.
pub proof fn lemma_unique_lists_remove(s: Seq<ListRow>, k: int)
    requires
        unique_lists(s),
        0 <= k < s.len(),
    ensures
        unique_lists(s.remove(k)),
{
    let s2 = s.remove(k);
    assert forall|i: int, j: int| 0 <= i < j < s2.len() implies
        !((#[trigger] s2[i].space_id@) == (#[trigger] s2[j].space_id@) && s2[i].id@ == s2[j].id@) by {
        let i0 = if i < k {
            i
        } else {
            i + 1
        };
        let j0 = if j < k {
            j
        } else {
            j + 1
        };
        assert(s2[i] == s[i0] && s2[j] == s[j0]);
    }
}

/// Every filtered row is a row of the original sequence.
pub proof fn lemma_filter_subset<T>(s: Seq<T>, p: spec_fn(T) -> bool)
    ensures
        forall|k: int| 0 <= k < s.filter(p).len() ==> s.contains(#[trigger] s.filter(p)[k]),
    decreases s.len(),
{
    reveal_with_fuel(Seq::filter, 2);
    if s.len() > 0 {
        let bl = s.drop_last();
        lemma_filter_subset(bl, p);
        assert forall|k: int| 0 <= k < s.filter(p).len() implies s.contains(
            #[trigger] s.filter(p)[k],
        ) by {
            if k < bl.filter(p).len() {
                assert(bl.filter(p)[k] == s.filter(p)[k]);
                let w = choose|w: int| 0 <= w < bl.len() && bl[w] == bl.filter(p)[k];
                assert(s[w] == bl[w]);
            } else {
                assert(s.filter(p)[k] == s.last());
                assert(s[s.len() - 1] == s.last());
            }
        }
    }
}

/// Keeping some of the grant rows keeps them unique.
pub proof fn lemma_unique_grants_filter(s: Seq<GrantRow>, p: spec_fn(GrantRow) -> bool)
    requires
        unique_grants(s),
    ensures
        unique_grants(s.filter(p)),
    decreases s.len(),
{
    reveal_with_fuel(Seq::filter, 2);
    if s.len() > 0 {
        let bl = s.drop_last();
        assert(unique_grants(bl)) by {
            assert forall|i: int, j: int| 0 <= i < j < bl.len() implies
                !((#[trigger] bl[i].space_id@) == (#[trigger] bl[j].space_id@)
                    && bl[i].list_id@ == bl[j].list_id@ && bl[i].user_id@ == bl[j].user_id@) by {
                assert(bl[i] == s[i] && bl[j] == s[j]);
            }
        }
        lemma_unique_grants_filter(bl, p);
        lemma_filter_subset(bl, p);
        let f = s.filter(p);
        let fb = bl.filter(p);
        if p(s.last()) {
            assert(f == fb.push(s.last()));
            assert forall|i: int, j: int| 0 <= i < j < f.len() implies
                !((#[trigger] f[i].space_id@) == (#[trigger] f[j].space_id@)
                    && f[i].list_id@ == f[j].list_id@ && f[i].user_id@ == f[j].user_id@) by {
                if j < fb.len() {
                    assert(f[i] == fb[i] && f[j] == fb[j]);
                } else {
                    assert(f[j] == s.last());
                    assert(f[i] == fb[i]);
                    assert(bl.contains(fb[i]));
                    let w = choose|w: int| 0 <= w < bl.len() && bl[w] == fb[i];
                    assert(s[w] == bl[w]);
                    assert(s[s.len() - 1] == s.last());
                }
            }
        } else {
            assert(f == fb);
        }
    }
}

/// Filtering keeps every row that satisfies the predicate, in order, and
/// nothing else; rows of a filtered concatenation split at the seam.
pub proof fn lemma_filter_app<T>(a: Seq<T>, b: Seq<T>, p: spec_fn(T) -> bool)
    ensures
        (a + b).filter(p) == a.filter(p) + b.filter(p),
    decreases b.len(),
{
    reveal_with_fuel(Seq::filter, 2);
    if b.len() == 0 {
        assert(a + b =~= a);
        assert(b.filter(p) =~= Seq::<T>::empty());
        assert(a.filter(p) + b.filter(p) =~= a.filter(p));
    } else {
        let bl = b.drop_last();
        lemma_filter_app(a, bl, p);
        assert((a + b).drop_last() =~= a + bl);
        assert((a + b).last() == b.last());
        if p(b.last()) {
            assert((a + b).filter(p) == (a + bl).filter(p).push(b.last()));
            assert(b.filter(p) == bl.filter(p).push(b.last()));
            assert(a.filter(p) + bl.filter(p).push(b.last()) =~= (a.filter(p) + bl.filter(p)).push(
                b.last(),
            ));
        } else {
            assert((a + b).filter(p) == (a + bl).filter(p));
            assert(b.filter(p) == bl.filter(p));
        }
    }
}

/// Filtering with a predicate every row satisfies keeps the sequence.
pub proof fn lemma_filter_all<T>(s: Seq<T>, p: spec_fn(T) -> bool)
    requires
        forall|i: int| 0 <= i < s.len() ==> p(#[trigger] s[i]),
    ensures
        s.filter(p) == s,
    decreases s.len(),
{
    reveal_with_fuel(Seq::filter, 2);
    if s.len() > 0 {
        let bl = s.drop_last();
        assert(forall|i: int| 0 <= i < bl.len() ==> p(#[trigger] bl[i]));
        lemma_filter_all(bl, p);
        assert(s[s.len() - 1] == s.last());
        assert(s.filter(p) == bl.filter(p).push(s.last()));
        assert(bl.push(s.last()) =~= s);
    }
}

/// Filtering with a predicate no row satisfies empties the sequence.
pub proof fn lemma_filter_none<T>(s: Seq<T>, p: spec_fn(T) -> bool)
    requires
        forall|i: int| 0 <= i < s.len() ==> !p(#[trigger] s[i]),
    ensures
        s.filter(p) == Seq::<T>::empty(),
    decreases s.len(),
{
    reveal_with_fuel(Seq::filter, 2);
    if s.len() > 0 {
        let bl = s.drop_last();
        assert(forall|i: int| 0 <= i < bl.len() ==> !p(#[trigger] bl[i]));
        lemma_filter_none(bl, p);
        assert(s[s.len() - 1] == s.last());
    }
}

/// Keeping some of the membership rows keeps them unique.
pub proof fn lemma_unique_memberships_filter(s: Seq<MembershipRow>, p: spec_fn(MembershipRow) -> bool)
    requires
        unique_memberships(s),
    ensures
        unique_memberships(s.filter(p)),
{
    lemma_filter_subset(s, p);
    let f = s.filter(p);
    assert forall|i: int, j: int| 0 <= i < j < f.len() implies
        !((#[trigger] f[i].space_id@) == (#[trigger] f[j].space_id@)
            && f[i].user_id@ == f[j].user_id@) by {
        if f[i].space_id@ == f[j].space_id@ && f[i].user_id@ == f[j].user_id@ {
            assert(s.contains(f[i]));
            assert(s.contains(f[j]));
            let a = choose|a: int| 0 <= a < s.len() && s[a] == f[i];
            let c = choose|c: int| 0 <= c < s.len() && s[c] == f[j];
            if a != c {
                assert(false);
            } else {
                assert(f[i] == f[j]);
                s.lemma_filter_len(p);
                lemma_filter_duplicates(s, p, i, j);
            }
        }
    }
}

/// Two positions of a filtered sequence holding the same value come from
/// two positions of the original.
pub proof fn lemma_filter_duplicates<T>(s: Seq<T>, p: spec_fn(T) -> bool, i: int, j: int)
    requires
        0 <= i < j < s.filter(p).len(),
        s.filter(p)[i] == s.filter(p)[j],
    ensures
        exists|a: int, c: int| 0 <= a < c < s.len() && s[a] == s.filter(p)[i]
            && s[c] == s.filter(p)[j],
    decreases s.len(),
{
    reveal_with_fuel(Seq::filter, 2);
    let bl = s.drop_last();
    let f = s.filter(p);
    let fb = bl.filter(p);
    assert(s.len() > 0) by {
        s.lemma_filter_len(p);
    }
    assert(s[s.len() - 1] == s.last());
    if p(s.last()) {
        assert(f == fb.push(s.last()));
        if j < fb.len() {
            lemma_filter_duplicates(bl, p, i, j);
            let (a, c) = choose|a: int, c: int| 0 <= a < c < bl.len() && bl[a] == fb[i]
                && bl[c] == fb[j];
            assert(s[a] == bl[a] && s[c] == bl[c]);
        } else {
            assert(f[j] == s.last());
            assert(fb[i] == f[i]);
            lemma_filter_subset(bl, p);
            assert(bl.contains(fb[i]));
            let a = choose|a: int| 0 <= a < bl.len() && bl[a] == fb[i];
            assert(s[a] == bl[a]);
            assert(s[s.len() - 1] == f[j]);
        }
    } else {
        assert(f == fb);
        lemma_filter_duplicates(bl, p, i, j);
        let (a, c) = choose|a: int, c: int| 0 <= a < c < bl.len() && bl[a] == fb[i]
            && bl[c] == fb[j];
        assert(s[a] == bl[a] && s[c] == bl[c]);
    }
}

/// Keeping some of the list rows keeps them unique.
pub proof fn lemma_unique_lists_filter(s: Seq<ListRow>, p: spec_fn(ListRow) -> bool)
    requires
        unique_lists(s),
    ensures
        unique_lists(s.filter(p)),
{
    lemma_filter_subset(s, p);
    let f = s.filter(p);
    assert forall|i: int, j: int| 0 <= i < j < f.len() implies
        !((#[trigger] f[i].space_id@) == (#[trigger] f[j].space_id@) && f[i].id@ == f[j].id@) by {
        if f[i].space_id@ == f[j].space_id@ && f[i].id@ == f[j].id@ {
            let a = choose|a: int| 0 <= a < s.len() && s[a] == f[i];
            let c = choose|c: int| 0 <= c < s.len() && s[c] == f[j];
            if a != c {
                assert(false);
            } else {
                lemma_filter_duplicates(s, p, i, j);
            }
        }
    }
}

/// Keeping some of the task rows keeps their ids unique.
pub proof fn lemma_unique_tasks_filter(s: Seq<Task>, p: spec_fn(Task) -> bool)
    requires
        unique_tasks(s),
    ensures
        unique_tasks(s.filter(p)),
{
    lemma_filter_subset(s, p);
    let f = s.filter(p);
    assert forall|i: int, j: int| 0 <= i < j < f.len() implies
        !((#[trigger] f[i].space_id@) == (#[trigger] f[j].space_id@) && f[i].id@ == f[j].id@) by {
        if f[i].space_id@ == f[j].space_id@ && f[i].id@ == f[j].id@ {
            let a = choose|a: int| 0 <= a < s.len() && s[a] == f[i];
            let c = choose|c: int| 0 <= c < s.len() && s[c] == f[j];
            if a != c {
                assert(false);
            } else {
                lemma_filter_duplicates(s, p, i, j);
            }
        }
    }
}

/// Keeping some of the user rows keeps ids and lowercased emails unique.
pub proof fn lemma_unique_users_filter(s: Seq<UserRow>, p: spec_fn(UserRow) -> bool)
    requires
        unique_users(s),
        unique_emails(s),
    ensures
        unique_users(s.filter(p)),
        unique_emails(s.filter(p)),
{
    lemma_filter_subset(s, p);
    let f = s.filter(p);
    assert forall|i: int, j: int| 0 <= i < j < f.len() implies
        (#[trigger] f[i].id@) != (#[trigger] f[j].id@) by {
        if f[i].id@ == f[j].id@ {
            let a = choose|a: int| 0 <= a < s.len() && s[a] == f[i];
            let c = choose|c: int| 0 <= c < s.len() && s[c] == f[j];
            if a != c {
                assert(false);
            } else {
                lemma_filter_duplicates(s, p, i, j);
            }
        }
    }
    assert forall|i: int, j: int| 0 <= i < j < f.len() implies lower_of(
        (#[trigger] f[i].email@),
    ) != lower_of((#[trigger] f[j].email@)) by {
        if lower_of(f[i].email@) == lower_of(f[j].email@) {
            let a = choose|a: int| 0 <= a < s.len() && s[a] == f[i];
            let c = choose|c: int| 0 <= c < s.len() && s[c] == f[j];
            if a != c {
                assert(false);
            } else {
                lemma_filter_duplicates(s, p, i, j);
            }
        }
    }
}

/// Removing a membership row keeps memberships unique.
pub proof fn lemma_unique_memberships_remove(s: Seq<MembershipRow>, k: int)
    requires
        unique_memberships(s),
        0 <= k < s.len(),
    ensures
        unique_memberships(s.remove(k)),
{
    let s2 = s.remove(k);
    assert forall|i: int, j: int| 0 <= i < j < s2.len() implies
        !((#[trigger] s2[i].space_id@) == (#[trigger] s2[j].space_id@)
            && s2[i].user_id@ == s2[j].user_id@) by {
        let i0 = if i < k {
            i
        } else {
            i + 1
        };
        let j0 = if j < k {
            j
        } else {
            j + 1
        };
        assert(s2[i] == s[i0] && s2[j] == s[j0]);
    }
}

/// Pushing a membership for a `(space, user)` pair that has none keeps
/// memberships unique.
pub proof fn lemma_unique_memberships_push(s: Seq<MembershipRow>, m: MembershipRow)
    requires
        unique_memberships(s),
        forall|i: int| 0 <= i < s.len()
            ==> !((#[trigger] s[i].space_id@) == m.space_id@ && s[i].user_id@ == m.user_id@),
    ensures
        unique_memberships(s.push(m)),
{
    let s2 = s.push(m);
    assert forall|i: int, j: int| 0 <= i < j < s2.len() implies
        !((#[trigger] s2[i].space_id@) == (#[trigger] s2[j].space_id@)
            && s2[i].user_id@ == s2[j].user_id@) by {
        if j < s.len() {
            assert(s2[i] == s[i] && s2[j] == s[j]);
        } else {
            assert(s2[j] == m && s2[i] == s[i]);
        }
    }
}

/// Pushing a grant for a `(space, list, user)` triple that has none keeps
/// grants unique.
pub proof fn lemma_unique_grants_push(s: Seq<GrantRow>, g: GrantRow)
    requires
        unique_grants(s),
        forall|i: int| 0 <= i < s.len()
            ==> !((#[trigger] s[i].space_id@) == g.space_id@ && s[i].list_id@ == g.list_id@
                && s[i].user_id@ == g.user_id@),
    ensures
        unique_grants(s.push(g)),
{
    let s2 = s.push(g);
    assert forall|i: int, j: int| 0 <= i < j < s2.len() implies
        !((#[trigger] s2[i].space_id@) == (#[trigger] s2[j].space_id@)
            && s2[i].list_id@ == s2[j].list_id@ && s2[i].user_id@ == s2[j].user_id@) by {
        if j < s.len() {
            assert(s2[i] == s[i] && s2[j] == s[j]);
        } else {
            assert(s2[j] == g && s2[i] == s[i]);
        }
    }
}

/// Removing a grant row keeps grants unique.
pub proof fn lemma_unique_grants_remove(s: Seq<GrantRow>, k: int)
    requires
        unique_grants(s),
        0 <= k < s.len(),
    ensures
        unique_grants(s.remove(k)),
{
    let s2 = s.remove(k);
    assert forall|i: int, j: int| 0 <= i < j < s2.len() implies
        !((#[trigger] s2[i].space_id@) == (#[trigger] s2[j].space_id@)
            && s2[i].list_id@ == s2[j].list_id@ && s2[i].user_id@ == s2[j].user_id@) by {
        let i0 = if i < k {
            i
        } else {
            i + 1
        };
        let j0 = if j < k {
            j
        } else {
            j + 1
        };
        assert(s2[i] == s[i0] && s2[j] == s[j0]);
    }
}

/// Replacing the membership and grant tables keeps the store well-formed,
/// as long as both stay unique.
pub proof fn lemma_wf_members_grants_swap(db1: Db, db2: Db)
    requires
        wf(db1),
        db2.spaces@ == db1.spaces@,
        db2.users@ == db1.users@,
        db2.lists@ == db1.lists@,
        db2.tasks@ == db1.tasks@,
        unique_memberships(db2.memberships@),
        unique_grants(db2.grants@),
        forall|i: int| 0 <= i < db2.memberships@.len() ==> user_exists(
            db1,
            (#[trigger] db2.memberships@[i]).user_id@,
        ),
    ensures
        wf(db2),
{
    assert forall|i: int| 0 <= i < db2.memberships@.len() implies user_exists(
        db2,
        (#[trigger] db2.memberships@[i]).user_id@,
    ) by {
        assert(user_exists(db1, db2.memberships@[i].user_id@));
        let j = choose|j: int| 0 <= j < db1.users@.len()
            && (#[trigger] db1.users@[j].id@) == db2.memberships@[i].user_id@;
        assert(db2.users@[j] == db1.users@[j]);
    }
    assert forall|i: int| 0 <= i < db2.tasks@.len() implies list_in_space(
        db2,
        (#[trigger] db2.tasks@[i]).space_id@,
        db2.tasks@[i].list_id@,
    ) by {
        assert(list_in_space(db1, db1.tasks@[i].space_id@, db1.tasks@[i].list_id@));
        let w = choose|k: int| 0 <= k < db1.lists@.len()
            && (#[trigger] db1.lists@[k].space_id@) == db1.tasks@[i].space_id@
            && db1.lists@[k].id@ == db1.tasks@[i].list_id@;
        assert(0 <= w < db2.lists@.len() && db2.lists@[w].space_id@ == db2.tasks@[i].space_id@
            && db2.lists@[w].id@ == db2.tasks@[i].list_id@);
    }
}

/// Replacing the space table keeps the store well-formed, as long as the
/// new table has unique ids.
pub proof fn lemma_wf_spaces_swap(db1: Db, db2: Db)
    requires
        wf(db1),
        db2.users@ == db1.users@,
        db2.memberships@ == db1.memberships@,
        db2.lists@ == db1.lists@,
        db2.grants@ == db1.grants@,
        db2.tasks@ == db1.tasks@,
        unique_spaces(db2.spaces@),
    ensures
        wf(db2),
{
    lemma_fk_transfer(db1, db2);
    assert forall|i: int| 0 <= i < db2.tasks@.len() implies list_in_space(
        db2,
        (#[trigger] db2.tasks@[i]).space_id@,
        db2.tasks@[i].list_id@,
    ) by {
        assert(list_in_space(db1, db1.tasks@[i].space_id@, db1.tasks@[i].list_id@));
        let w = choose|k: int| 0 <= k < db1.lists@.len()
            && (#[trigger] db1.lists@[k].space_id@) == db1.tasks@[i].space_id@
            && db1.lists@[k].id@ == db1.tasks@[i].list_id@;
        assert(0 <= w < db2.lists@.len() && db2.lists@[w].space_id@ == db2.tasks@[i].space_id@
            && db2.lists@[w].id@ == db2.tasks@[i].list_id@);
    }
}

/// Replacing the user table keeps the store well-formed, as long as ids
/// and lowercased emails stay unique.
pub proof fn lemma_wf_users_swap(db1: Db, db2: Db)
    requires
        wf(db1),
        db2.spaces@ == db1.spaces@,
        db2.memberships@ == db1.memberships@,
        db2.lists@ == db1.lists@,
        db2.grants@ == db1.grants@,
        db2.tasks@ == db1.tasks@,
        unique_users(db2.users@),
        unique_emails(db2.users@),
        forall|i: int| 0 <= i < db1.users@.len() ==> user_exists(
            db2,
            (#[trigger] db1.users@[i]).id@,
        ),
    ensures
        wf(db2),
{
    assert forall|i: int| 0 <= i < db2.memberships@.len() implies user_exists(
        db2,
        (#[trigger] db2.memberships@[i]).user_id@,
    ) by {
        assert(user_exists(db1, db1.memberships@[i].user_id@));
        let j = choose|j: int| 0 <= j < db1.users@.len()
            && (#[trigger] db1.users@[j].id@) == db1.memberships@[i].user_id@;
        assert(user_exists(db2, db1.users@[j].id@));
    }
    assert forall|i: int| 0 <= i < db2.tasks@.len() implies list_in_space(
        db2,
        (#[trigger] db2.tasks@[i]).space_id@,
        db2.tasks@[i].list_id@,
    ) by {
        assert(list_in_space(db1, db1.tasks@[i].space_id@, db1.tasks@[i].list_id@));
        let w = choose|k: int| 0 <= k < db1.lists@.len()
            && (#[trigger] db1.lists@[k].space_id@) == db1.tasks@[i].space_id@
            && db1.lists@[k].id@ == db1.tasks@[i].list_id@;
        assert(0 <= w < db2.lists@.len() && db2.lists@[w].space_id@ == db2.tasks@[i].space_id@
            && db2.lists@[w].id@ == db2.tasks@[i].list_id@);
    }
}

impl Db {
    /// An empty store.
    pub fn new() -> (r: Db)
        ensures
            r.spaces@.len() == 0,
            r.users@.len() == 0,
            r.memberships@.len() == 0,
            r.lists@.len() == 0,
            r.grants@.len() == 0,
            r.tasks@.len() == 0,
            wf(r),
            admin_covered(r),
    {
        Db {
            spaces: Vec::new(),
            users: Vec::new(),
            memberships: Vec::new(),
            lists: Vec::new(),
            grants: Vec::new(),
            tasks: Vec::new(),
        }
    }
}

/// Seeds a space row; the id must be fresh.
pub fn seed_space(db: &mut Db, space: SpaceRow) -> (r: Result<(), ApiError>)
    requires
        wf(*old(db)),
    ensures
        wf(*final(db)),
        final(db).users@ == old(db).users@,
        final(db).memberships@ == old(db).memberships@,
        final(db).lists@ == old(db).lists@,
        final(db).grants@ == old(db).grants@,
        final(db).tasks@ == old(db).tasks@,
        has_space(*old(db), space.id@) ==> (r == Err::<(), ApiError>(ApiError::Conflict)
            && final(db).spaces@ == old(db).spaces@),
        !has_space(*old(db), space.id@) ==> (r == Ok::<(), ApiError>(())
            && final(db).spaces@ == old(db).spaces@.push(space)),
{
    match find_space(&*db, &space.id) {
        Some(_) => {
            return Err(ApiError::Conflict);
        },
        None => {},
    }
    let ghost gs = space;
    db.spaces.push(space);
    proof {
        assert forall|i: int, j: int| 0 <= i < j < db.spaces@.len() implies
            (#[trigger] db.spaces@[i].id@) != (#[trigger] db.spaces@[j].id@) by {
            if j < old(db).spaces@.len() {
                assert(db.spaces@[i] == old(db).spaces@[i] && db.spaces@[j] == old(db).spaces@[j]);
            } else {
                assert(db.spaces@[j] == gs && db.spaces@[i] == old(db).spaces@[i]);
            }
        }
        lemma_wf_spaces_swap(*old(db), *db);
    }
    Ok(())
}

/// Seeds a user row; its id and lowercased email must be fresh.
pub fn seed_user(db: &mut Db, user: UserRow) -> (r: Result<(), ApiError>)
    requires
        wf(*old(db)),
    ensures
        wf(*final(db)),
        final(db).spaces@ == old(db).spaces@,
        final(db).memberships@ == old(db).memberships@,
        final(db).lists@ == old(db).lists@,
        final(db).grants@ == old(db).grants@,
        final(db).tasks@ == old(db).tasks@,
        (user_exists(*old(db), user.id@) || email_taken(*old(db), lower_of(user.email@))) ==> (r
            == Err::<(), ApiError>(ApiError::Conflict) && final(db).users@ == old(db).users@),
        !(user_exists(*old(db), user.id@) || email_taken(*old(db), lower_of(user.email@))) ==> (r
            == Ok::<(), ApiError>(()) && final(db).users@ == old(db).users@.push(user)),
{
    match find_user(&*db, &user.id) {
        Some(_) => {
            return Err(ApiError::Conflict);
        },
        None => {},
    }
    let probe = lowercase_str(user.email.as_str());
    match find_user_by_email(&*db, &probe) {
        Some(_) => {
            return Err(ApiError::Conflict);
        },
        None => {},
    }
    let ghost gu = user;
    db.users.push(user);
    proof {
        assert forall|i: int, j: int| 0 <= i < j < db.users@.len() implies
            (#[trigger] db.users@[i].id@) != (#[trigger] db.users@[j].id@) by {
            if j < old(db).users@.len() {
                assert(db.users@[i] == old(db).users@[i] && db.users@[j] == old(db).users@[j]);
            } else {
                assert(db.users@[j] == gu && db.users@[i] == old(db).users@[i]);
            }
        }
        assert forall|i: int, j: int| 0 <= i < j < db.users@.len() implies lower_of(
            (#[trigger] db.users@[i].email@),
        ) != lower_of((#[trigger] db.users@[j].email@)) by {
            if j < old(db).users@.len() {
                assert(db.users@[i] == old(db).users@[i] && db.users@[j] == old(db).users@[j]);
            } else {
                assert(db.users@[j] == gu && db.users@[i] == old(db).users@[i]);
                assert(!email_taken(*old(db), probe@));
            }
        }
        assert forall|i: int| 0 <= i < old(db).users@.len() implies user_exists(
            *db,
            (#[trigger] old(db).users@[i]).id@,
        ) by {
            assert(db.users@[i] == old(db).users@[i]);
        }
        lemma_wf_users_swap(*old(db), *db);
    }
    Ok(())
}

/// Seeds a membership row; its user must have a row and the
/// `(space, user)` pair must be fresh.
pub fn seed_membership(db: &mut Db, m: MembershipRow) -> (r: Result<(), ApiError>)
    requires
        wf(*old(db)),
    ensures
        wf(*final(db)),
        final(db).spaces@ == old(db).spaces@,
        final(db).users@ == old(db).users@,
        final(db).lists@ == old(db).lists@,
        final(db).grants@ == old(db).grants@,
        final(db).tasks@ == old(db).tasks@,
        !user_exists(*old(db), m.user_id@) ==> (r == Err::<(), ApiError>(ApiError::NotFound)
            && final(db).memberships@ == old(db).memberships@),
        (user_exists(*old(db), m.user_id@) && is_member(*old(db), m.space_id@, m.user_id@)) ==> (r
            == Err::<(), ApiError>(ApiError::Conflict)
            && final(db).memberships@ == old(db).memberships@),
        (user_exists(*old(db), m.user_id@) && !is_member(*old(db), m.space_id@, m.user_id@)) ==> (r
            == Ok::<(), ApiError>(()) && final(db).memberships@ == old(db).memberships@.push(m)),
{
    match find_user(&*db, &m.user_id) {
        Some(_) => {},
        None => {
            return Err(ApiError::NotFound);
        },
    }
    match find_membership(&*db, &m.space_id, &m.user_id) {
        Some(_) => {
            return Err(ApiError::Conflict);
        },
        None => {},
    }
    let ghost gm = m;
    db.memberships.push(m);
    proof {
        lemma_unique_memberships_push(old(db).memberships@, gm);
        assert forall|i: int| 0 <= i < db.memberships@.len() implies user_exists(
            *old(db),
            (#[trigger] db.memberships@[i]).user_id@,
        ) by {
            if i < old(db).memberships@.len() {
                assert(db.memberships@[i] == old(db).memberships@[i]);
            } else {
                assert(db.memberships@[i] == gm);
            }
        }
        lemma_wf_members_grants_swap(*old(db), *db);
    }
    Ok(())
}

/// Seeds a list row; the `(space, id)` pair must be fresh.
pub fn seed_list(db: &mut Db, l: ListRow) -> (r: Result<(), ApiError>)
    requires
        wf(*old(db)),
    ensures
        wf(*final(db)),
        final(db).spaces@ == old(db).spaces@,
        final(db).users@ == old(db).users@,
        final(db).memberships@ == old(db).memberships@,
        final(db).grants@ == old(db).grants@,
        final(db).tasks@ == old(db).tasks@,
        list_in_space(*old(db), l.space_id@, l.id@) ==> (r == Err::<(), ApiError>(
            ApiError::Conflict,
        ) && final(db).lists@ == old(db).lists@),
        !list_in_space(*old(db), l.space_id@, l.id@) ==> (r == Ok::<(), ApiError>(())
            && final(db).lists@ == old(db).lists@.push(l)),
{
    match find_list(&*db, &l.space_id, &l.id) {
        Some(_) => {
            return Err(ApiError::Conflict);
        },
        None => {},
    }
    let ghost gl = l;
    db.lists.push(l);
    proof {
        lemma_unique_lists_push(old(db).lists@, gl);
        assert forall|i: int| 0 <= i < db.tasks@.len() implies list_in_space(
            *db,
            (#[trigger] db.tasks@[i]).space_id@,
            db.tasks@[i].list_id@,
        ) by {
            assert(list_in_space(*old(db), db.tasks@[i].space_id@, db.tasks@[i].list_id@));
            let w = choose|k: int| 0 <= k < old(db).lists@.len()
                && (#[trigger] old(db).lists@[k].space_id@) == db.tasks@[i].space_id@
                && old(db).lists@[k].id@ == db.tasks@[i].list_id@;
            assert(db.lists@[w] == old(db).lists@[w]);
        }
    }
    Ok(())
}

/// Seeds a grant row; the `(space, list, user)` triple must be fresh.
pub fn seed_grant(db: &mut Db, g: GrantRow) -> (r: Result<(), ApiError>)
    requires
        wf(*old(db)),
    ensures
        wf(*final(db)),
        final(db).spaces@ == old(db).spaces@,
        final(db).users@ == old(db).users@,
        final(db).memberships@ == old(db).memberships@,
        final(db).lists@ == old(db).lists@,
        final(db).tasks@ == old(db).tasks@,
        has_grant(*old(db), g.space_id@, g.user_id@, g.list_id@) ==> (r == Err::<(), ApiError>(
            ApiError::Conflict,
        ) && final(db).grants@ == old(db).grants@),
        !has_grant(*old(db), g.space_id@, g.user_id@, g.list_id@) ==> (r == Ok::<(), ApiError>(())
            && final(db).grants@ == old(db).grants@.push(g)),
{
    match find_grant(&*db, &g.space_id, &g.list_id, &g.user_id) {
        Some(_) => {
            return Err(ApiError::Conflict);
        },
        None => {},
    }
    let ghost gg = g;
    db.grants.push(g);
    proof {
        lemma_unique_grants_push(old(db).grants@, gg);
        lemma_wf_members_grants_swap(*old(db), *db);
    }
    Ok(())
}

/// Seeds a task row; its `(space, id)` must be fresh and its list must
/// exist in the task's space.
pub fn seed_task(db: &mut Db, t: Task) -> (r: Result<(), ApiError>)
    requires
        wf(*old(db)),
    ensures
        wf(*final(db)),
        final(db).spaces@ == old(db).spaces@,
        final(db).users@ == old(db).users@,
        final(db).memberships@ == old(db).memberships@,
        final(db).lists@ == old(db).lists@,
        final(db).grants@ == old(db).grants@,
        !list_in_space(*old(db), t.space_id@, t.list_id@) ==> (r == Err::<(), ApiError>(
            ApiError::NotFound,
        ) && final(db).tasks@ == old(db).tasks@),
        (list_in_space(*old(db), t.space_id@, t.list_id@) && task_in_space(
            *old(db),
            t.space_id@,
            t.id@,
        )) ==> (r == Err::<(), ApiError>(ApiError::Conflict)
            && final(db).tasks@ == old(db).tasks@),
        (list_in_space(*old(db), t.space_id@, t.list_id@) && !task_in_space(
            *old(db),
            t.space_id@,
            t.id@,
        )) ==> (r == Ok::<(), ApiError>(()) && final(db).tasks@ == old(db).tasks@.push(t)),
{
    match find_list(&*db, &t.space_id, &t.list_id) {
        Some(_) => {},
        None => {
            return Err(ApiError::NotFound);
        },
    }
    match find_task(&*db, &t.space_id, &t.id) {
        Some(_) => {
            return Err(ApiError::Conflict);
        },
        None => {},
    }
    let ghost gt = t;
    db.tasks.push(t);
    proof {
        lemma_unique_tasks_push(old(db).tasks@, gt);
        assert forall|i: int| 0 <= i < db.tasks@.len() implies list_in_space(
            *old(db),
            (#[trigger] db.tasks@[i]).space_id@,
            db.tasks@[i].list_id@,
        ) by {
            if i < old(db).tasks@.len() {
                assert(db.tasks@[i] == old(db).tasks@[i]);
            } else {
                assert(db.tasks@[i] == gt);
            }
        }
        lemma_wf_tasks_swap(*old(db), *db);
    }
    Ok(())
}

/// Looks the caller's role up fresh from the membership table.
pub fn role_from_membership(db: &Db, space: &String, user: &String) -> (r: Result<Role, ApiError>)
    requires
        unique_memberships(db.memberships@),
    ensures
        is_member(*db, space@, user@) ==> (r matches Ok(role)
            && role == member_role(*db, space@, user@)),
        !is_member(*db, space@, user@) ==> r == Err::<Role, ApiError>(ApiError::Unauthorized),
{
    match find_membership(db, space, user) {
        Some(i) => {
            proof {
                lemma_membership_at(*db, i as int);
            }
            Ok(db.memberships[i].role)
        },
        None => Err(ApiError::Unauthorized),
    }
}

} // verus!
