use task_tracker::store::{TodoError, TodoList};
use task_tracker::codec::save_to_string;
use task_tracker::parse::{parse_store, load_from_contents, Loaded};

#[test]
fn test_add_task() {
    let mut list = TodoList::new();
    list.add_task("Test task".to_string());
    assert_eq!(list.tasks.len(), 1);
    assert_eq!(list.tasks[0].description, "Test task");
    assert_eq!(list.tasks[0].completed, false);
}

#[test]
fn test_complete_task() {
    let mut list = TodoList::new();
    list.add_task("Test task".to_string());
    assert!(list.complete_task(1).is_ok());
    assert!(list.tasks[0].completed);
}

#[test]
fn test_delete_task() {
    let mut list = TodoList::new();
    list.add_task("Test task".to_string());
    assert!(list.delete_task(1).is_ok());
    assert_eq!(list.tasks.len(), 0);
}

#[test]
fn test_complete_nonexistent_task() {
    let mut list = TodoList::new();
    assert!(list.complete_task(1).is_err());
}

#[test]
fn test_delete_nonexistent_task() {
    let mut list = TodoList::new();
    assert!(list.delete_task(1).is_err());
}

#[test]
fn test_id_sequence() {
    let mut list = TodoList::new();
    assert_eq!(list.add_task("a".to_string()), 1);
    assert_eq!(list.add_task("b".to_string()), 2);
    assert_eq!(list.add_task("c".to_string()), 3);
    assert_eq!(list.next_id, 4);
    assert_eq!(list.tasks[0].id, 1);
    assert_eq!(list.tasks[1].id, 2);
    assert_eq!(list.tasks[2].id, 3);
}

#[test]
fn test_delete_keeps_ids_stable() {
    let mut list = TodoList::new();
    list.add_task("A".to_string());
    list.add_task("B".to_string());
    assert!(list.delete_task(1).is_ok());
    let id = list.add_task("C".to_string());
    assert_eq!(id, 3);
    assert_eq!(list.tasks.len(), 2);
    assert_eq!(list.tasks[0].id, 2);
    assert_eq!(list.tasks[1].id, 3);
}

#[test]
fn test_complete_twice() {
    let mut list = TodoList::new();
    list.add_task("once".to_string());
    assert!(list.complete_task(1).is_ok());
    assert!(list.tasks[0].completed);
    assert!(list.complete_task(1).is_ok());
    assert!(list.tasks[0].completed);
    assert_eq!(list.tasks.len(), 1);
}

#[test]
fn test_not_found_is_non_mutating() {
    let mut list = TodoList::new();
    list.add_task("one".to_string());
    list.add_task("two".to_string());
    assert_eq!(list.complete_task(99), Err(TodoError::TaskNotFound(99)));
    assert_eq!(list.delete_task(99), Err(TodoError::TaskNotFound(99)));
    assert_eq!(list.tasks.len(), 2);
    assert_eq!(list.tasks[0].id, 1);
    assert_eq!(list.tasks[1].id, 2);
    assert_eq!(list.next_id, 3);
    assert!(!list.tasks[0].completed);
    assert!(!list.tasks[1].completed);
}

#[test]
fn test_error_message() {
    let e = TodoError::TaskNotFound(5);
    assert_eq!(e.message(), "Task with id 5 not found");
}

#[test]
fn test_list_tasks_lines() {
    let mut list = TodoList::new();
    list.add_task("Buy milk".to_string());
    list.add_task("Walk dog".to_string());
    assert!(list.complete_task(1).is_ok());
    let lines = list.list_tasks();
    assert_eq!(lines, vec!["1. [x] Buy milk".to_string(), "2. [ ] Walk dog".to_string()]);
    assert!(list.delete_task(1).is_ok());
    let lines = list.list_tasks();
    assert_eq!(lines, vec!["2. [ ] Walk dog".to_string()]);
}

#[test]
fn test_save_empty_store() {
    let list = TodoList::new();
    assert_eq!(save_to_string(&list), "{\"tasks\":[],\"next_id\":1}");
}

#[test]
fn test_save_one_task() {
    let mut list = TodoList::new();
    list.add_task("Buy milk".to_string());
    assert_eq!(
        save_to_string(&list),
        "{\"tasks\":[{\"id\":1,\"description\":\"Buy milk\",\"completed\":false}],\"next_id\":2}"
    );
}

#[test]
fn test_save_escapes_description() {
    let mut list = TodoList::new();
    list.add_task("a\"b\\c\nd".to_string());
    assert_eq!(
        save_to_string(&list),
        "{\"tasks\":[{\"id\":1,\"description\":\"a\\\"b\\\\c\\nd\",\"completed\":false}],\"next_id\":2}"
    );
}

#[test]
fn test_round_trip() {
    let mut list = TodoList::new();
    list.add_task("Buy milk".to_string());
    list.add_task("quote \" slash \\ tab \t end".to_string());
    list.add_task("control \u{1} char".to_string());
    assert!(list.complete_task(2).is_ok());
    assert!(list.delete_task(1).is_ok());
    let text = save_to_string(&list);
    let back = parse_store(&text).expect("the saved text parses");
    assert_eq!(back.next_id, list.next_id);
    assert_eq!(back.tasks.len(), list.tasks.len());
    for (a, b) in back.tasks.iter().zip(list.tasks.iter()) {
        assert_eq!(a.id, b.id);
        assert_eq!(a.description, b.description);
        assert_eq!(a.completed, b.completed);
    }
}

#[test]
fn test_add_empty_description() {
    let mut list = TodoList::new();
    let id = list.add_task(String::new());
    assert_eq!(id, 1);
    assert_eq!(list.tasks[0].description, "");
    assert_eq!(save_to_string(&list), "{\"tasks\":[{\"id\":1,\"description\":\"\",\"completed\":false}],\"next_id\":2}");
}

#[test]
fn test_round_trip_unicode() {
    let mut list = TodoList::new();
    list.add_task("crème brûlée 🍮".to_string());
    let text = save_to_string(&list);
    let back = parse_store(&text).expect("the saved text parses");
    assert_eq!(back.tasks[0].description, "crème brûlée 🍮");
}

#[test]
fn test_parse_escapes() {
    let text = "{\"tasks\":[{\"id\":1,\"description\":\"a\\u0001b\\tc\\rd\",\"completed\":false}],\"next_id\":2}";
    let store = parse_store(text).expect("escaped text parses");
    assert_eq!(store.tasks[0].description, "a\u{1}b\tc\rd");
}

#[test]
fn test_parse_handwritten() {
    let text = "{\"tasks\":[{\"id\":7,\"description\":\"hi\",\"completed\":true}],\"next_id\":9}";
    let store = parse_store(text).expect("well-formed text parses");
    assert_eq!(store.next_id, 9);
    assert_eq!(store.tasks.len(), 1);
    assert_eq!(store.tasks[0].id, 7);
    assert_eq!(store.tasks[0].description, "hi");
    assert!(store.tasks[0].completed);
}

#[test]
fn test_parse_rejects_malformed() {
    assert!(parse_store("").is_none());
    assert!(parse_store("not json at all").is_none());
    assert!(parse_store("{\"tasks\":[],\"next_id\":1} trailing").is_none());
    assert!(parse_store("{\"tasks\":[],\"next_id\":99999999999999999999999}").is_none());
}

#[test]
fn test_parse_pretty_printed() {
    let text = "{\n  \"tasks\": [\n    {\n      \"id\": 1,\n      \"description\": \"Buy milk\",\n      \"completed\": false\n    },\n    {\n      \"id\": 2,\n      \"description\": \"Walk dog\",\n      \"completed\": true\n    }\n  ],\n  \"next_id\": 3\n}";
    let store = parse_store(text).expect("pretty-printed text parses");
    assert_eq!(store.tasks.len(), 2);
    assert_eq!(store.tasks[0].id, 1);
    assert_eq!(store.tasks[0].description, "Buy milk");
    assert!(!store.tasks[0].completed);
    assert_eq!(store.tasks[1].id, 2);
    assert_eq!(store.tasks[1].description, "Walk dog");
    assert!(store.tasks[1].completed);
    assert_eq!(store.next_id, 3);
    let loaded = load_from_contents(Some(&text.to_string()));
    assert!(matches!(loaded, Loaded::Restored(_)));
}

#[test]
fn test_parse_keeps_whitespace_inside_descriptions() {
    let text = "{ \"tasks\" : [ { \"id\" : 5 , \"description\" : \"  spaced  out  \" , \"completed\" : false } ] , \"next_id\" : 6 }";
    let store = parse_store(text).expect("spaced text parses");
    assert_eq!(store.tasks[0].description, "  spaced  out  ");
    assert_eq!(store.tasks[0].id, 5);
    assert_eq!(store.next_id, 6);
}

#[test]
fn test_load_trusts_stored_invariants() {
    // A parseable file is restored verbatim, duplicate ids and an
    // inconsistent counter included; nothing is re-validated on load.
    let text = "{\"tasks\":[{\"id\":1,\"description\":\"a\",\"completed\":false},{\"id\":1,\"description\":\"b\",\"completed\":false}],\"next_id\":1}";
    let mut store = parse_store(text).expect("parseable text is restored");
    assert_eq!(store.tasks.len(), 2);
    assert_eq!(store.tasks[0].id, 1);
    assert_eq!(store.tasks[1].id, 1);
    assert_eq!(store.next_id, 1);
    let loaded = load_from_contents(Some(&text.to_string()));
    assert!(matches!(loaded, Loaded::Restored(_)));
    // Operations keep working on such a store, acting on the first match.
    assert!(store.complete_task(1).is_ok());
    assert!(store.tasks[0].completed);
    assert!(!store.tasks[1].completed);
    assert!(store.delete_task(1).is_ok());
    assert_eq!(store.tasks.len(), 1);
    assert_eq!(store.tasks[0].description, "b");
}

#[test]
fn test_load_missing_is_fresh() {
    let loaded = load_from_contents(None);
    assert!(matches!(loaded, Loaded::Fresh(_)));
    let store = loaded.store();
    assert_eq!(store.tasks.len(), 0);
    assert_eq!(store.next_id, 1);
}

#[test]
fn test_load_corrupt_is_fresh() {
    let junk = String::from("{\"tasks\": oops");
    let loaded = load_from_contents(Some(&junk));
    assert!(matches!(loaded, Loaded::Fresh(_)));
    let store = loaded.store();
    assert_eq!(store.tasks.len(), 0);
    assert_eq!(store.next_id, 1);
}

#[test]
fn test_load_restores_saved_state() {
    let mut list = TodoList::new();
    list.add_task("persisted".to_string());
    let text = save_to_string(&list);
    let loaded = load_from_contents(Some(&text));
    assert!(matches!(loaded, Loaded::Restored(_)));
    let store = loaded.store();
    assert_eq!(store.tasks.len(), 1);
    assert_eq!(store.tasks[0].description, "persisted");
    assert_eq!(store.next_id, 2);
}

#[test]
fn test_end_to_end_scenario() {
    let mut store = load_from_contents(None).store();
    assert_eq!(store.add_task("Buy milk".to_string()), 1);
    assert_eq!(store.add_task("Walk dog".to_string()), 2);
    assert!(store.complete_task(1).is_ok());
    assert_eq!(
        store.list_tasks(),
        vec!["1. [x] Buy milk".to_string(), "2. [ ] Walk dog".to_string()]
    );
    assert!(store.delete_task(1).is_ok());
    assert_eq!(store.list_tasks(), vec!["2. [ ] Walk dog".to_string()]);
    let text = save_to_string(&store);
    let again = load_from_contents(Some(&text)).store();
    assert_eq!(again.list_tasks(), vec!["2. [ ] Walk dog".to_string()]);
    assert_eq!(again.next_id, 3);
}
