use chat::names::Names;

fn list(n: &Names) -> String {
    String::from_utf8(n.to_list()).unwrap()
}

#[test]
fn new_names_are_accepted() {
    let mut n = Names::new();
    assert!(n.insert("anna".to_string()));
    assert!(n.insert("bob".to_string()));
    assert_eq!(list(&n), "Users currently online: anna bob ");
}

#[test]
fn taken_names_get_numbered_variants() {
    let mut n = Names::new();
    assert!(n.insert("anna".to_string()));
    assert!(!n.insert("anna".to_string()));
    assert_eq!(n.last_collision(), Some("anna_2".to_string()));
    assert_eq!(n.last_collision(), None);
    assert!(!n.insert("anna".to_string()));
    assert_eq!(n.last_collision(), Some("anna_3".to_string()));
    assert_eq!(list(&n), "Users currently online: anna anna_2 anna_3 ");
}

#[test]
fn trailing_underscores_are_dropped() {
    let mut n = Names::new();
    assert!(n.insert("carl__".to_string()));
    assert!(n.contains(&"carl".to_string()));
    assert!(!n.insert("carl_".to_string()));
    assert_eq!(n.last_collision(), Some("carl_2".to_string()));
}

#[test]
fn counters_are_not_reused_after_remove() {
    let mut n = Names::new();
    n.insert("dan".to_string());
    n.insert("dan".to_string());
    assert_eq!(n.last_collision(), Some("dan_2".to_string()));
    assert!(n.remove(&"dan_2".to_string()));
    assert!(!n.remove(&"dan_2".to_string()));
    assert!(!n.insert("dan".to_string()));
    assert_eq!(n.last_collision(), Some("dan_3".to_string()));
}

#[test]
fn numbered_name_already_taken_gets_marker() {
    let mut n = Names::new();
    n.insert("eve".to_string());
    n.insert("eve_2".to_string());
    assert!(!n.insert("eve".to_string()));
    assert_eq!(n.last_collision(), Some("eve_2!*#$".to_string()));
    assert_eq!(list(&n), "Users currently online: eve eve_2 eve_2!*#$ ");
}

#[test]
fn insert_then_remove_restores() {
    let mut n = Names::new();
    n.insert("a".to_string());
    assert!(n.insert("b".to_string()));
    assert!(n.remove(&"b".to_string()));
    assert_eq!(list(&n), "Users currently online: a ");
}

#[test]
fn each_insert_adds_exactly_one_name() {
    let mut n = Names::new();
    assert!(n.insert("anna".to_string()));
    assert_eq!(list(&n), "Users currently online: anna ");
    assert!(!n.insert("anna__".to_string()));
    assert_eq!(n.last_collision(), Some("anna_2".to_string()));
    assert_eq!(list(&n), "Users currently online: anna anna_2 ");
    assert!(n.insert("anna_2_".to_string()) == false);
    assert_eq!(n.last_collision(), Some("anna_2_2".to_string()));
    assert_eq!(list(&n), "Users currently online: anna anna_2 anna_2_2 ");
}
