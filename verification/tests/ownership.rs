use poem_todo::apis::{create_todo, delete_todo, get_todo, get_user_todos, hello, update_todo};
use poem_todo::auth::Lookup;
use poem_todo::models::{authorize_resource_access, NewTodo, Todo, TodoFilter, User};
use poem_todo::pipeline::Denial;

fn user(id: i32, name: &str, is_admin: bool) -> User {
    User { id, name: name.to_string(), password: "secret".to_string(), is_admin }
}

fn todo(id: i32, user_id: i32) -> Todo {
    Todo { id, user_id, title: format!("item {}", id), finished: false }
}

fn new_todo(user_id: i32, title: &str) -> NewTodo {
    NewTodo { user_id, title: title.to_string(), finished: true }
}

#[test]
fn owner_may_access_own_item() {
    assert!(authorize_resource_access(&user(1, "alice", false), &todo(5, 1)));
}

#[test]
fn other_user_may_not_access_item() {
    assert!(!authorize_resource_access(&user(1, "alice", false), &todo(6, 2)));
}

#[test]
fn administrator_may_access_every_item() {
    assert!(authorize_resource_access(&user(9, "root", true), &todo(6, 2)));
    assert!(authorize_resource_access(&user(9, "root", true), &todo(7, 9)));
}

#[test]
fn access_rule_on_extreme_ids() {
    assert!(authorize_resource_access(&user(i32::MIN, "low", false), &todo(0, i32::MIN)));
    assert!(!authorize_resource_access(&user(i32::MIN, "low", false), &todo(0, i32::MAX)));
    assert!(authorize_resource_access(&user(-1, "neg", false), &todo(-1, -1)));
    assert!(!authorize_resource_access(&user(0, "zero", false), &todo(0, 1)));
}

#[test]
fn lookup_for_a_plain_user_is_scoped_to_the_owner() {
    let filter = Todo::find_by_id(5, &user(1, "alice", false));
    assert_eq!(filter, TodoFilter { id: 5, owner: Some(1) });
    assert!(filter.lets_through(&todo(5, 1)));
    assert!(!filter.lets_through(&todo(5, 2)));
    assert!(!filter.lets_through(&todo(6, 1)));
}

#[test]
fn lookup_for_an_administrator_is_not_scoped() {
    let filter = Todo::find_by_id(6, &user(9, "root", true));
    assert_eq!(filter, TodoFilter { id: 6, owner: None });
    assert!(filter.lets_through(&todo(6, 2)));
    assert!(filter.lets_through(&todo(6, 9)));
    assert!(!filter.lets_through(&todo(5, 9)));
}

#[test]
fn lookup_agrees_with_the_guard() {
    let users = [user(1, "alice", false), user(2, "bob", false), user(9, "root", true)];
    let todos = [todo(5, 1), todo(6, 2), todo(5, 2), todo(7, 9)];
    for u in users.iter() {
        for t in todos.iter() {
            for id in [5, 6, 7] {
                let filter = Todo::find_by_id(id, u);
                assert_eq!(filter.lets_through(t), t.id == id && authorize_resource_access(u, t));
            }
        }
    }
}

#[test]
fn greeting_names_the_user() {
    assert_eq!(hello(&user(1, "alice", false)), "hello: alice");
    assert_eq!(hello(&user(2, "", false)), "hello: ");
}

#[test]
fn get_todo_returns_own_item() {
    assert_eq!(get_todo(&user(1, "alice", false), Some(todo(5, 1))), Ok(todo(5, 1)));
}

#[test]
fn get_todo_hides_items_of_others() {
    assert_eq!(get_todo(&user(1, "alice", false), Some(todo(6, 2))), Err(Denial::NotFound));
    // exactly as if the item did not exist
    assert_eq!(get_todo(&user(1, "alice", false), None), Err(Denial::NotFound));
}

#[test]
fn get_todo_for_administrator() {
    assert_eq!(get_todo(&user(9, "root", true), Some(todo(6, 2))), Ok(todo(6, 2)));
    assert_eq!(get_todo(&user(9, "root", true), None), Err(Denial::NotFound));
}

#[test]
fn update_todo_stamps_the_caller_as_owner() {
    let alice = user(1, "alice", false);
    assert_eq!(
        update_todo(&alice, Some(todo(5, 1)), new_todo(77, "new title")),
        Ok(NewTodo { user_id: 1, title: "new title".to_string(), finished: true })
    );
    assert_eq!(
        update_todo(&alice, Some(todo(6, 2)), new_todo(1, "new title")),
        Err(Denial::NotFound)
    );
    assert_eq!(update_todo(&alice, None, new_todo(1, "new title")), Err(Denial::NotFound));
    assert_eq!(
        update_todo(&user(9, "root", true), Some(todo(6, 2)), new_todo(2, "t")),
        Ok(NewTodo { user_id: 9, title: "t".to_string(), finished: true })
    );
}

#[test]
fn delete_todo_names_the_item_to_remove() {
    let alice = user(1, "alice", false);
    assert_eq!(delete_todo(&alice, Some(todo(5, 1))), Ok(5));
    assert_eq!(delete_todo(&alice, Some(todo(6, 2))), Err(Denial::NotFound));
    assert_eq!(delete_todo(&alice, None), Err(Denial::NotFound));
    assert_eq!(delete_todo(&user(9, "root", true), Some(todo(6, 2))), Ok(6));
}

#[test]
fn create_todo_stamps_the_caller_as_owner() {
    assert_eq!(
        create_todo(&user(1, "alice", false), new_todo(2, "mine")),
        NewTodo { user_id: 1, title: "mine".to_string(), finished: true }
    );
    assert_eq!(new_todo(2, "x").owned_by(&user(3, "c", false)).user_id, 3);
}

#[test]
fn items_of_a_named_user_are_scoped_to_that_user() {
    // bob asks for carol's items: the list is carol's, whoever asks
    let carol = user(3, "carol", false);
    assert_eq!(get_user_todos(Lookup::Found(carol)), Some(3));
    assert_eq!(get_user_todos(Lookup::NotFound), None);
    assert_eq!(get_user_todos(Lookup::Unavailable), None);
}
