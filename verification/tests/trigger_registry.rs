use nodedb::trigger::{MeshTriggerSource, TriggerEvent, TriggerRegistration, TriggerRegistry, TriggerTiming};

fn noop_handler() {}

type Handler = fn();

fn registry() -> TriggerRegistry<Handler> {
    TriggerRegistry::new()
}

#[test]
fn test_trigger_registration_unique_ids() {
    let mut registry = registry();
    let r1 = registry.register(
        "public::users".to_string(),
        TriggerEvent::Insert,
        TriggerTiming::Before,
        None,
        noop_handler,
    );
    let r2 = registry.register(
        "public::users".to_string(),
        TriggerEvent::Insert,
        TriggerTiming::Before,
        None,
        noop_handler,
    );
    assert_ne!(r1, r2);
}

#[test]
fn test_trigger_registration_enable_disable() {
    let mut reg: TriggerRegistration<Handler> = TriggerRegistration::new(
        1,
        "public::users".to_string(),
        TriggerEvent::Insert,
        TriggerTiming::Before,
        None,
        noop_handler,
    );
    assert!(reg.is_enabled());
    reg.set_enabled(false);
    assert!(!reg.is_enabled());
    reg.set_enabled(true);
    assert!(reg.is_enabled());
}

#[test]
fn test_registry_register_and_list() {
    let mut registry = registry();
    let id1 = registry.register(
        "public::users".to_string(),
        TriggerEvent::Insert,
        TriggerTiming::Before,
        Some("validate".to_string()),
        noop_handler,
    );
    let id2 = registry.register(
        "public::posts".to_string(),
        TriggerEvent::Delete,
        TriggerTiming::After,
        None,
        noop_handler,
    );
    let list = registry.list();
    assert_eq!(list.len(), 2);
    assert_eq!(list[0].id, id1);
    assert_eq!(list[0].collection, "public::users");
    assert_eq!(list[0].event, "insert");
    assert_eq!(list[0].timing, "before");
    assert!(list[0].enabled);
    assert_eq!(list[0].name, Some("validate".to_string()));
    assert_eq!(list[1].id, id2);
}

#[test]
fn test_registry_unregister() {
    let mut registry = registry();
    let id = registry.register(
        "public::users".to_string(),
        TriggerEvent::Insert,
        TriggerTiming::Before,
        None,
        noop_handler,
    );
    assert!(registry.unregister(id));
    assert_eq!(registry.list().len(), 0);
    assert!(!registry.unregister(id));
}

#[test]
fn test_registry_matching_filters_correctly() {
    let mut registry = registry();
    registry.register("public::users".to_string(), TriggerEvent::Insert, TriggerTiming::Before, None, noop_handler);
    registry.register("public::users".to_string(), TriggerEvent::Insert, TriggerTiming::After, None, noop_handler);
    registry.register("public::users".to_string(), TriggerEvent::Delete, TriggerTiming::Before, None, noop_handler);
    registry.register("public::posts".to_string(), TriggerEvent::Insert, TriggerTiming::Before, None, noop_handler);

    assert_eq!(registry.matching("public::users", TriggerEvent::Insert, TriggerTiming::Before).len(), 1);
    assert_eq!(registry.matching("public::users", TriggerEvent::Insert, TriggerTiming::After).len(), 1);
    assert_eq!(registry.matching("public::users", TriggerEvent::Delete, TriggerTiming::Before).len(), 1);
    assert_eq!(registry.matching("public::users", TriggerEvent::Update, TriggerTiming::Before).len(), 0);
}

#[test]
fn test_registry_matching_excludes_disabled() {
    let mut registry = registry();
    let id = registry.register("public::users".to_string(), TriggerEvent::Insert, TriggerTiming::Before, None, noop_handler);
    assert_eq!(registry.matching("public::users", TriggerEvent::Insert, TriggerTiming::Before).len(), 1);
    registry.set_enabled(id, false);
    assert_eq!(registry.matching("public::users", TriggerEvent::Insert, TriggerTiming::Before).len(), 0);
}

#[test]
fn test_registry_set_enabled() {
    let mut registry = registry();
    let id = registry.register("public::users".to_string(), TriggerEvent::Insert, TriggerTiming::Before, None, noop_handler);
    assert!(registry.set_enabled(id, false));
    assert!(!registry.list()[0].enabled);
    assert!(registry.set_enabled(id, true));
    assert!(registry.list()[0].enabled);
    assert!(!registry.set_enabled(99999, false));
}

#[test]
fn test_registry_matching_preserves_order() {
    let mut registry = registry();
    let id1 = registry.register(
        "public::users".to_string(),
        TriggerEvent::Insert,
        TriggerTiming::Before,
        Some("first".to_string()),
        noop_handler,
    );
    let id2 = registry.register(
        "public::users".to_string(),
        TriggerEvent::Insert,
        TriggerTiming::Before,
        Some("second".to_string()),
        noop_handler,
    );
    let matches = registry.matching("public::users", TriggerEvent::Insert, TriggerTiming::Before);
    assert_eq!(matches.len(), 2);
    assert_eq!(matches[0].id, id1);
    assert_eq!(matches[1].id, id2);
}

fn warehouse(collection: &str) -> MeshTriggerSource {
    MeshTriggerSource { source_database: "warehouse".to_string(), source_collection: collection.to_string() }
}

#[test]
fn test_registry_matching_excludes_mesh_triggers() {
    let mut registry = registry();
    registry.register("public::users".to_string(), TriggerEvent::Insert, TriggerTiming::After, None, noop_handler);
    registry.register_mesh(
        "public::users".to_string(),
        TriggerEvent::Insert,
        TriggerTiming::After,
        None,
        warehouse("public.users"),
        noop_handler,
    );
    let local = registry.matching("public::users", TriggerEvent::Insert, TriggerTiming::After);
    assert_eq!(local.len(), 1);
}

#[test]
fn test_registry_matching_mesh() {
    let mut registry = registry();
    registry.register_mesh(
        "public::cache".to_string(),
        TriggerEvent::Insert,
        TriggerTiming::After,
        None,
        warehouse("public.products"),
        noop_handler,
    );
    registry.register_mesh(
        "public::cache".to_string(),
        TriggerEvent::Update,
        TriggerTiming::After,
        None,
        warehouse("public.products"),
        noop_handler,
    );
    assert_eq!(registry.matching_mesh("warehouse", "public.products", TriggerEvent::Insert).len(), 1);
    assert_eq!(registry.matching_mesh("warehouse", "public.products", TriggerEvent::Update).len(), 1);
    assert_eq!(registry.matching_mesh("other", "public.products", TriggerEvent::Insert).len(), 0);
}

#[test]
fn registry_ids_start_at_one_and_increase() {
    let mut registry = registry();
    let a = registry.register("c".to_string(), TriggerEvent::Insert, TriggerTiming::Before, None, noop_handler);
    let b = registry.register("c".to_string(), TriggerEvent::Insert, TriggerTiming::Before, None, noop_handler);
    assert_eq!((a, b), (1, 2));
    assert!(registry.unregister(a));
    let c = registry.register("c".to_string(), TriggerEvent::Insert, TriggerTiming::Before, None, noop_handler);
    assert_eq!(c, 3);
}
