use enum_delegator::{DelegationError, Registry};

fn texts(items: &[&str]) -> Vec<String> {
    items.iter().map(|item| item.to_string()).collect()
}

#[test]
fn a_new_registry_holds_nothing() {
    let registry = Registry::new();
    assert!(!registry.contains("Shape"));
    assert_eq!(
        registry.lookup("Shape"),
        Err(DelegationError::UnknownInterface { interface: "Shape".to_string() })
    );
}

#[test]
fn lookup_gives_what_was_registered() {
    let mut registry = Registry::new();
    registry.register("Shape", texts(&["area\n&self\nf64", "name\n&self\nString"]));
    assert!(registry.contains("Shape"));
    assert_eq!(registry.lookup("Shape"), Ok(texts(&["area\n&self\nf64", "name\n&self\nString"])));
}

#[test]
fn lookup_takes_the_name_to_the_letter() {
    let mut registry = Registry::new();
    registry.register("Shape", texts(&["area\n&self\nf64"]));
    assert!(!registry.contains("shape"));
    assert!(!registry.contains("Shape "));
    assert!(!registry.contains(""));
    assert_eq!(
        registry.lookup("Shap"),
        Err(DelegationError::UnknownInterface { interface: "Shap".to_string() })
    );
}

#[test]
fn a_second_registration_replaces_the_first() {
    let mut registry = Registry::new();
    registry.register("Shape", texts(&["area\n&self\nf64", "name\n&self\nString"]));
    registry.register("Shape", texts(&["sides\n&self\nu32"]));
    assert_eq!(registry.lookup("Shape"), Ok(texts(&["sides\n&self\nu32"])));
}

#[test]
fn a_registration_leaves_the_other_names_alone() {
    let mut registry = Registry::new();
    registry.register("First", texts(&["a\n&self"]));
    registry.register("Second", texts(&["b\n&self"]));
    registry.register("Third", texts(&[]));
    registry.register("First", texts(&["c\n&self"]));
    registry.register("Second", texts(&["d\n&self"]));
    assert_eq!(registry.lookup("First"), Ok(texts(&["c\n&self"])));
    assert_eq!(registry.lookup("Second"), Ok(texts(&["d\n&self"])));
    assert_eq!(registry.lookup("Third"), Ok(texts(&[])));
}

#[test]
fn registering_the_same_twice_changes_nothing() {
    let mut registry = Registry::new();
    registry.register("Shape", texts(&["area\n&self\nf64"]));
    registry.register("Shape", texts(&["area\n&self\nf64"]));
    assert_eq!(registry.lookup("Shape"), Ok(texts(&["area\n&self\nf64"])));
}

#[test]
fn two_registries_share_nothing() {
    let mut one = Registry::new();
    let other = Registry::new();
    one.register("Shape", texts(&["area\n&self\nf64"]));
    assert!(one.contains("Shape"));
    assert!(!other.contains("Shape"));
}

#[test]
fn a_name_may_be_any_text() {
    let mut registry = Registry::new();
    registry.register("", texts(&["a\n&self"]));
    registry.register("with space", texts(&[]));
    registry.register("ünïcødé", texts(&["b\nself"]));
    assert_eq!(registry.lookup(""), Ok(texts(&["a\n&self"])));
    assert_eq!(registry.lookup("with space"), Ok(texts(&[])));
    assert_eq!(registry.lookup("ünïcødé"), Ok(texts(&["b\nself"])));
}
