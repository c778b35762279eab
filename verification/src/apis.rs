//! What each handler of the service decides, between the lookups and the
//! writes that the surrounding program performs for it.

use crate::auth::Lookup;
use crate::models::{authorize_resource_access, may_access, NewTodo, Todo, User};
use crate::pipeline::Denial;
use vstd::prelude::*;
use vstd::string::StringExecFns;

verus! {

/// The task item that a handler may work on for `user`, given what its
/// lookup found: the item found, if `user` may touch it.
pub open spec fn visible(user: User, fetched: Option<Todo>) -> Option<Todo> {
    match fetched {
        Some(todo) => if may_access(user@, todo@) {
            Some(todo)
        } else {
            None
        },
        None => None,
    }
}

/// The greeting for `user`.
pub fn hello(user: &User) -> (greeting: String)
    ensures
        greeting@ == "hello: "@ + user@.name,
{
    String::from_str("hello: ").concat(user.name.as_str())
}

/// Answers a request for one task item: the item that the lookup found, if
/// the caller may see it. An item of another user is reported exactly like
/// one that does not exist.
pub fn get_todo(user: &User, fetched: Option<Todo>) -> (r: Result<Todo, Denial>)
    ensures
        r == match visible(*user, fetched) {
            Some(todo) => Ok::<Todo, Denial>(todo),
            None => Err::<Todo, Denial>(Denial::NotFound),
        },
{
    match fetched {
        Some(todo) => {
            if authorize_resource_access(user, &todo) {
                Ok(todo)
            } else {
                Err(Denial::NotFound)
            }
        },
        None => Err(Denial::NotFound),
    }
}

/// Prepares the replacement of one task item: if the caller may touch the
/// item that the lookup found, the new fields are to be written, with the
/// caller as the owner.
pub fn update_todo(user: &User, fetched: Option<Todo>, req: NewTodo) -> (r: Result<
    NewTodo,
    Denial,
>)
    ensures
        visible(*user, fetched) is Some <==> r is Ok,
        r matches Ok(stamped) ==> stamped.user_id == user.id && stamped.title == req.title
            && stamped.finished == req.finished,
        r matches Err(denial) ==> denial == Denial::NotFound,
{
    match get_todo(user, fetched) {
        Ok(_) => Ok(req.owned_by(user)),
        Err(denial) => Err(denial),
    }
}

/// Prepares the removal of one task item: the id to remove, if the caller
/// may touch the item that the lookup found.
pub fn delete_todo(user: &User, fetched: Option<Todo>) -> (r: Result<i32, Denial>)
    ensures
        r == match visible(*user, fetched) {
            Some(todo) => Ok::<i32, Denial>(todo.id),
            None => Err::<i32, Denial>(Denial::NotFound),
        },
{
    match get_todo(user, fetched) {
        Ok(todo) => Ok(todo.id),
        Err(denial) => Err(denial),
    }
}

/// Prepares a new task item: the fields as sent, with the caller as the
/// owner whatever owner the request named.
pub fn create_todo(user: &User, req: NewTodo) -> (stamped: NewTodo)
    ensures
        stamped.user_id == user.id,
        stamped.title == req.title,
        stamped.finished == req.finished,
{
    req.owned_by(user)
}

/// Decides whose task items a request for the items of a named user lists:
/// those of the user that the directory found under that name, or none
/// where it found nobody or could not be asked. The caller plays no part.
pub fn get_user_todos(named: Lookup) -> (owner: Option<i32>)
    ensures
        owner == match named {
            Lookup::Found(user) => Some(user.id),
            _ => None::<i32>,
        },
{
    match named {
        Lookup::Found(user) => Some(user.id),
        _ => None,
    }
}

} // verus!
