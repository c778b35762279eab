use poem_todo::policy::{
    Grouping, Model, ObjectMatcher, PolicyLoadFailure, PolicyRule, PolicyStore,
};
use poem_todo::roles::{memberships, Link};

fn rule(subject: &str, object: &str, action: &str) -> PolicyRule {
    PolicyRule {
        subject: subject.to_string(),
        object: object.to_string(),
        action: action.to_string(),
    }
}

fn grouping(subject: &str, role: &str) -> Grouping {
    Grouping { subject: subject.to_string(), role: role.to_string() }
}

fn row(fields: &[&str]) -> Vec<String> {
    fields.iter().map(|f| f.to_string()).collect()
}

fn wildcard() -> Model {
    Model { object_matcher: ObjectMatcher::Wildcard }
}

fn exact() -> Model {
    Model { object_matcher: ObjectMatcher::Exact }
}

fn link(subject: &str, role: &str) -> Link {
    Link { subject: subject.chars().collect(), role: role.chars().collect() }
}

fn service_policy() -> PolicyStore {
    PolicyStore::new(
        wildcard(),
        &vec![
            rule("admin", "/users", "GET"),
            rule("admin", "/todos", "GET"),
            rule("user", "/todo/*", "GET"),
            rule("user", "/todo/*", "PUT"),
            rule("user", "/todo/*", "DELETE"),
            rule("user", "/user/todos", "*"),
            rule("user", "/user/*/todos", "*"),
            rule("carol", "/hello", "GET"),
        ],
        &vec![
            grouping("alice", "user"),
            grouping("bob", "user"),
            grouping("root", "admin"),
            grouping("admin", "user"),
        ],
    )
}

#[test]
fn empty_rule_set_denies_everything() {
    let store = PolicyStore::new(wildcard(), &vec![], &vec![]);
    assert!(!store.is_allowed("alice", "/todo/1", "GET"));
    assert!(!store.is_allowed("", "", ""));
    let with_roles = PolicyStore::new(wildcard(), &vec![], &vec![grouping("alice", "user")]);
    assert!(!with_roles.is_allowed("alice", "/todo/1", "GET"));
}

#[test]
fn request_is_allowed_when_some_rule_matches_all_three_parts() {
    let store = service_policy();
    assert!(store.is_allowed("alice", "/todo/5", "GET"));
    assert!(store.is_allowed("alice", "/todo/5", "DELETE"));
    assert!(store.is_allowed("carol", "/hello", "GET"));
}

#[test]
fn request_is_denied_when_one_part_does_not_match() {
    let store = service_policy();
    // subject
    assert!(!store.is_allowed("mallory", "/todo/5", "GET"));
    // object
    assert!(!store.is_allowed("alice", "/todo/5/sub", "GET"));
    assert!(!store.is_allowed("alice", "/todo", "GET"));
    // action
    assert!(!store.is_allowed("alice", "/todo/5", "POST"));
    assert!(!store.is_allowed("carol", "/hello", "PUT"));
    // the parts match, but in different rules
    assert!(!store.is_allowed("carol", "/users", "GET"));
    assert!(!store.is_allowed("alice", "/users", "GET"));
}

#[test]
fn star_action_covers_every_method() {
    let store = service_policy();
    assert!(store.is_allowed("bob", "/user/todos", "GET"));
    assert!(store.is_allowed("bob", "/user/todos", "POST"));
    assert!(store.is_allowed("bob", "/user/todos", "PATCH"));
}

#[test]
fn role_member_may_list_the_items_of_a_named_user() {
    let store = PolicyStore::new(
        wildcard(),
        &vec![rule("user", "/user/*/todos", "*")],
        &vec![grouping("bob", "user")],
    );
    assert!(store.is_allowed("bob", "/user/carol/todos", "GET"));
    assert!(!store.is_allowed("carol", "/user/carol/todos", "GET"));
}

#[test]
fn roles_are_inherited_through_other_roles() {
    let store = service_policy();
    // root -> admin -> user
    assert!(store.is_allowed("root", "/users", "GET"));
    assert!(store.is_allowed("root", "/todo/9", "PUT"));
    // admin itself is a subject too
    assert!(store.is_allowed("admin", "/todos", "GET"));
    assert!(store.is_allowed("admin", "/todo/9", "GET"));
    // membership does not run backwards
    assert!(!store.is_allowed("user", "/users", "GET"));
    assert!(!store.is_allowed("alice", "/todos", "GET"));
}

#[test]
fn cyclic_role_assignments_are_handled() {
    let store = PolicyStore::new(
        exact(),
        &vec![rule("c", "/x", "GET"), rule("z", "/y", "GET")],
        &vec![grouping("a", "b"), grouping("b", "c"), grouping("c", "a"), grouping("a", "a")],
    );
    assert!(store.is_allowed("a", "/x", "GET"));
    assert!(store.is_allowed("b", "/x", "GET"));
    assert!(store.is_allowed("c", "/x", "GET"));
    assert!(!store.is_allowed("a", "/y", "GET"));
    assert!(!store.is_allowed("d", "/x", "GET"));
}

#[test]
fn subject_names_are_compared_exactly() {
    let store = service_policy();
    assert!(!store.is_allowed("Alice", "/todo/5", "GET"));
    assert!(!store.is_allowed("alice ", "/todo/5", "GET"));
    let starred = PolicyStore::new(wildcard(), &vec![rule("*", "/hello", "GET")], &vec![]);
    assert!(!starred.is_allowed("alice", "/hello", "GET"));
    assert!(starred.is_allowed("*", "/hello", "GET"));
}

#[test]
fn exact_matcher_compares_objects_as_strings() {
    let store = PolicyStore::new(exact(), &vec![rule("alice", "/todo/*", "GET")], &vec![]);
    assert!(!store.is_allowed("alice", "/todo/5", "GET"));
    assert!(store.is_allowed("alice", "/todo/*", "GET"));
}

#[test]
fn repeated_decisions_agree() {
    let store = service_policy();
    for _ in 0..3 {
        assert!(store.is_allowed("alice", "/todo/5", "GET"));
        assert!(!store.is_allowed("alice", "/users", "GET"));
    }
    let again = service_policy();
    assert_eq!(
        store.is_allowed("bob", "/user/carol/todos", "GET"),
        again.is_allowed("bob", "/user/carol/todos", "GET")
    );
}

#[test]
fn adding_rules_keeps_what_was_allowed() {
    let few = PolicyStore::new(wildcard(), &vec![rule("alice", "/a", "GET")], &vec![]);
    let more = PolicyStore::new(
        wildcard(),
        &vec![rule("alice", "/a", "GET"), rule("bob", "/b", "GET")],
        &vec![],
    );
    assert!(few.is_allowed("alice", "/a", "GET"));
    assert!(more.is_allowed("alice", "/a", "GET"));
    assert!(!few.is_allowed("bob", "/b", "GET"));
    assert!(more.is_allowed("bob", "/b", "GET"));
}

#[test]
fn role_matcher_on_one_rule() {
    let store = service_policy();
    assert!(store.matches("alice", "/todo/17", "user", "/todo/*"));
    assert!(store.matches("alice", "/todo/17", "alice", "/todo/*"));
    assert!(!store.matches("alice", "/todo/17/extra", "user", "/todo/*"));
    assert!(!store.matches("alice", "/todo/17", "admin", "/todo/*"));
    assert!(store.matches("root", "/todo/17", "user", "/todo/*"));
    assert!(!store.matches("mallory", "/todo/17", "user", "/todo/*"));
    let exact_store = PolicyStore::new(exact(), &vec![], &vec![grouping("alice", "user")]);
    assert!(exact_store.matches("alice", "/todo/*", "user", "/todo/*"));
    assert!(!exact_store.matches("alice", "/todo/17", "user", "/todo/*"));
}

#[test]
fn decision_carries_the_identity() {
    let store = service_policy();
    let alice = poem_todo::models::User {
        id: 1,
        name: "alice".to_string(),
        password: "secret".to_string(),
        is_admin: false,
    };
    let allowed = store.decide(alice.clone(), "/todo/5", "GET");
    assert_eq!(allowed.identity, alice);
    assert!(allowed.allowed);
    let denied = store.decide(alice.clone(), "/users", "GET");
    assert_eq!(denied.identity, alice);
    assert!(!denied.allowed);
}

#[test]
fn memberships_mark_direct_and_inherited_assignments() {
    let links = vec![
        link("alice", "user"),
        link("bob", "user"),
        link("user", "staff"),
        link("staff", "all"),
        link("guest", "all"),
    ];
    let subject: Vec<char> = "alice".chars().collect();
    assert_eq!(memberships(&links, &subject), vec![true, false, true, true, false]);
    let nobody: Vec<char> = "nobody".chars().collect();
    assert_eq!(memberships(&links, &nobody), vec![false, false, false, false, false]);
    assert_eq!(memberships(&vec![], &subject), Vec::<bool>::new());
}

#[test]
fn model_needs_subject_object_and_action() {
    assert_eq!(
        Model::load(&row(&["sub", "obj", "act"]), ObjectMatcher::Wildcard),
        Ok(Model { object_matcher: ObjectMatcher::Wildcard })
    );
    assert_eq!(
        Model::load(&row(&["sub", "obj", "act"]), ObjectMatcher::Exact),
        Ok(Model { object_matcher: ObjectMatcher::Exact })
    );
    assert_eq!(
        Model::load(&row(&["sub", "obj"]), ObjectMatcher::Wildcard),
        Err(PolicyLoadFailure::MalformedModel)
    );
    assert_eq!(
        Model::load(&row(&["sub", "dom", "obj", "act"]), ObjectMatcher::Wildcard),
        Err(PolicyLoadFailure::MalformedModel)
    );
    assert_eq!(Model::load(&vec![], ObjectMatcher::Exact), Err(PolicyLoadFailure::MalformedModel));
}

#[test]
fn policy_is_loaded_from_rows() {
    let loaded = PolicyStore::load(
        wildcard(),
        &vec![row(&["user", "/todo/*", "GET"]), row(&["admin", "/users", "GET"])],
        &vec![row(&["alice", "user"])],
    );
    let store = match loaded {
        Ok(store) => store,
        Err(failure) => panic!("load failed: {:?}", failure),
    };
    assert!(store.is_allowed("alice", "/todo/3", "GET"));
    assert!(!store.is_allowed("alice", "/users", "GET"));
    assert!(store.is_allowed("admin", "/users", "GET"));
    assert!(!store.is_allowed("bob", "/todo/3", "GET"));
}

#[test]
fn loading_empty_policy_gives_a_store_that_denies() {
    let store = match PolicyStore::load(wildcard(), &vec![], &vec![]) {
        Ok(store) => store,
        Err(failure) => panic!("load failed: {:?}", failure),
    };
    assert!(!store.is_allowed("alice", "/todo/3", "GET"));
}

#[test]
fn first_malformed_rule_row_is_reported() {
    let loaded = PolicyStore::load(
        wildcard(),
        &vec![
            row(&["user", "/todo/*", "GET"]),
            row(&["user", "/todo/*"]),
            row(&["user"]),
        ],
        &vec![row(&["alice"])],
    );
    assert_eq!(loaded.err(), Some(PolicyLoadFailure::MalformedRule { row: 1 }));
    let too_long = PolicyStore::load(wildcard(), &vec![row(&["a", "b", "c", "d"])], &vec![]);
    assert_eq!(too_long.err(), Some(PolicyLoadFailure::MalformedRule { row: 0 }));
    let empty_row = PolicyStore::load(wildcard(), &vec![vec![]], &vec![]);
    assert_eq!(empty_row.err(), Some(PolicyLoadFailure::MalformedRule { row: 0 }));
}

#[test]
fn first_malformed_grouping_row_is_reported() {
    let loaded = PolicyStore::load(
        wildcard(),
        &vec![row(&["user", "/todo/*", "GET"])],
        &vec![
            row(&["alice", "user"]),
            row(&["bob", "user"]),
            row(&["carol", "user", "domain"]),
            row(&["dave"]),
        ],
    );
    assert_eq!(loaded.err(), Some(PolicyLoadFailure::MalformedGrouping { row: 2 }));
}
