//! The records the service works on, and the rule that ties a task item to
//! its owner.

use vstd::prelude::*;

verus! {

/// A registered user of the service. Users are unique by `id` and by `name`.
#[derive(Clone, Debug, PartialEq, Eq)]
pub struct User {
    pub id: i32,
    pub name: String,
    pub password: String,
    pub is_admin: bool,
}

/// A task item; `user_id` is the id of the one user that owns it.
#[derive(Clone, Debug, PartialEq, Eq, Default)]
pub struct Todo {
    pub id: i32,
    pub user_id: i32,
    pub title: String,
    pub finished: bool,
}

/// The fields of a task item that a caller supplies when creating or
/// replacing one.
#[derive(Clone, Debug, PartialEq, Eq)]
pub struct NewTodo {
    pub user_id: i32,
    pub title: String,
    pub finished: bool,
}

/// Mathematical model of a [`User`].
pub struct UserView {
    pub id: int,
    pub name: Seq<char>,
    pub password: Seq<char>,
    pub is_admin: bool,
}

/// Mathematical model of a [`Todo`].
pub struct TodoView {
    pub id: int,
    pub user_id: int,
    pub title: Seq<char>,
    pub finished: bool,
}

/// Mathematical model of a [`NewTodo`].
pub struct NewTodoView {
    pub user_id: int,
    pub title: Seq<char>,
    pub finished: bool,
}

impl View for User {
    type V = UserView;

    open spec fn view(&self) -> UserView {
        UserView {
            id: self.id as int,
            name: self.name@,
            password: self.password@,
            is_admin: self.is_admin,
        }
    }
}

impl View for Todo {
    type V = TodoView;

    open spec fn view(&self) -> TodoView {
        TodoView {
            id: self.id as int,
            user_id: self.user_id as int,
            title: self.title@,
            finished: self.finished,
        }
    }
}

impl View for NewTodo {
    type V = NewTodoView;

    open spec fn view(&self) -> NewTodoView {
        NewTodoView { user_id: self.user_id as int, title: self.title@, finished: self.finished }
    }
}

/// Whether `user` may touch `todo`: administrators may touch every item,
/// everyone else only the items they own.
pub open spec fn may_access(user: UserView, todo: TodoView) -> bool {
    user.is_admin || todo.user_id == user.id
}

/// Decides whether `user` may read or change `todo`.
pub fn authorize_resource_access(user: &User, todo: &Todo) -> (allowed: bool)
    ensures
        allowed == may_access(user@, todo@),
{
    user.is_admin || todo.user_id == user.id
}

/// Which task items a lookup may return: the item with the given `id`,
/// and, where `owner` is set, only if that user owns it.
#[derive(Clone, Copy, Debug, PartialEq, Eq, Structural)]
pub struct TodoFilter {
    pub id: i32,
    pub owner: Option<i32>,
}

impl TodoFilter {
    /// Whether the filter lets `todo` through.
    pub open spec fn passes(self, todo: TodoView) -> bool {
        &&& todo.id == self.id
        &&& self.owner matches Some(owner) ==> todo.user_id == owner
    }

    /// Decides whether the filter lets `todo` through.
    pub fn lets_through(&self, todo: &Todo) -> (admitted: bool)
        ensures
            admitted == self.passes(todo@),
    {
        todo.id == self.id && match self.owner {
            Some(owner) => todo.user_id == owner,
            None => true,
        }
    }
}

/// The lookup of task item `i` on behalf of `user`: administrators find
/// every item, everyone else only their own.
pub open spec fn lookup_for(i: i32, user: User) -> TodoFilter {
    TodoFilter {
        id: i,
        owner: if user.is_admin {
            None
        } else {
            Some(user.id)
        },
    }
}

impl Todo {
    /// The lookup of task item `i` on behalf of `user`. A store that applies
    /// the filter returns no item that `user` may not touch.
    pub fn find_by_id(i: i32, user: &User) -> (filter: TodoFilter)
        ensures
            filter == lookup_for(i, *user),
    {
        if user.is_admin {
            TodoFilter { id: i, owner: None }
        } else {
            TodoFilter { id: i, owner: Some(user.id) }
        }
    }
}

impl NewTodo {
    /// The same fields, with `user` as the owner.
    pub fn owned_by(self, user: &User) -> (stamped: NewTodo)
        ensures
            stamped.user_id == user.id,
            stamped.title == self.title,
            stamped.finished == self.finished,
    {
        NewTodo { user_id: user.id, title: self.title, finished: self.finished }
    }
}

/// The lookup on behalf of a user finds exactly the items of the asked id
/// that this user may touch: filtering in the store and checking the owner
/// afterwards agree.
pub proof fn lemma_lookup_agrees_with_guard(i: i32, user: User, todo: Todo)
    ensures
        lookup_for(i, user).passes(todo@) <==> todo.id == i && may_access(user@, todo@),
{
}

/// The ownership rule, spelled out: access is granted exactly to
/// administrators and to the owner.
pub proof fn lemma_access_rule(user: User, todo: Todo)
    ensures
        may_access(user@, todo@) <==> user.is_admin || user.id == todo.user_id,
{
}

} // verus!
