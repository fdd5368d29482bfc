use ant_msgbus::actor::{
    actor_count, actor_exists, clear_actor_registry, get_actor, get_actor_unchecked,
    register_actor, try_get_actor_unchecked, ActorRegistry,
};

#[derive(Debug, PartialEq)]
struct Counter {
    hits: u32,
}

#[test]
fn register_get_and_mutate() {
    let mut registry = ActorRegistry::new();
    assert!(registry.is_empty());
    register_actor(&mut registry, "A", Counter { hits: 0 });
    register_actor(&mut registry, "B", Counter { hits: 10 });
    assert_eq!(actor_count(&registry), 2);
    assert!(actor_exists(&registry, "A"));
    assert!(!actor_exists(&registry, "C"));
    get_actor_unchecked(&mut registry, "A").hits += 1;
    registry.get_mut("A").hits += 1;
    assert_eq!(get_actor(&registry, "A"), Some(&Counter { hits: 2 }));
    assert_eq!(get_actor(&registry, "C"), None);
}

#[test]
fn replacing_and_removing() {
    let mut registry = ActorRegistry::new();
    registry.insert("A", Counter { hits: 1 });
    registry.insert("A", Counter { hits: 5 });
    assert_eq!(registry.len(), 1);
    assert_eq!(registry.get("A"), Some(&Counter { hits: 5 }));
    assert_eq!(registry.remove("A"), Some(Counter { hits: 5 }));
    assert_eq!(registry.remove("A"), None);
    assert!(!registry.contains("A"));
}

#[test]
fn clearing() {
    let mut registry = ActorRegistry::new();
    registry.insert("A", Counter { hits: 1 });
    registry.insert("B", Counter { hits: 1 });
    clear_actor_registry(&mut registry);
    assert_eq!(actor_count(&registry), 0);
}

#[test]
fn optional_exclusive_access() {
    let mut registry = ActorRegistry::new();
    registry.insert("A", Counter { hits: 1 });
    if let Some(actor) = try_get_actor_unchecked(&mut registry, "A") {
        actor.hits = 9;
    }
    assert!(try_get_actor_unchecked(&mut registry, "missing").is_none());
    assert_eq!(registry.get("A"), Some(&Counter { hits: 9 }));
}
