use kyute::env::{EnvKey, Environment};

#[test]
fn empty_environment_has_no_values() {
    let e: Environment<u32> = Environment::new();
    assert_eq!(e.get(EnvKey::new("a")), None);
}

#[test]
fn get_after_add() {
    let e = Environment::new().add(EnvKey::new("a"), 1u32).add(EnvKey::new("b"), 2u32);
    assert_eq!(e.get(EnvKey::new("a")), Some(1));
    assert_eq!(e.get(EnvKey::new("b")), Some(2));
    assert_eq!(e.get(EnvKey::new("c")), None);
}

#[test]
fn add_overrides_and_keeps_shared_parents() {
    let base = Environment::new().add(EnvKey::new("a"), 1u32);
    let shared = base.clone();
    // `base` is shared, so adding makes a child layer
    let child = base.add(EnvKey::new("a"), 5u32);
    assert_eq!(child.get(EnvKey::new("a")), Some(5));
    assert_eq!(shared.get(EnvKey::new("a")), Some(1));
}

#[test]
fn merged_prefers_the_merged_in_values() {
    let base = Environment::new().add(EnvKey::new("a"), 1u32).add(EnvKey::new("b"), 2u32);
    let over = Environment::new().add(EnvKey::new("b"), 20u32).add(EnvKey::new("c"), 30u32);
    let m = base.merged(over);
    assert_eq!(m.get(EnvKey::new("a")), Some(1));
    assert_eq!(m.get(EnvKey::new("b")), Some(20));
    assert_eq!(m.get(EnvKey::new("c")), Some(30));
    assert_eq!(m.get(EnvKey::new("d")), None);
}

#[test]
fn merged_layers_follow_the_whole_chain() {
    let base = Environment::new().add(EnvKey::new("x"), 1u32);
    let mid = Environment::new().add(EnvKey::new("y"), 2u32);
    let layered = mid.clone().add(EnvKey::new("z"), 3u32);
    let m = base.merged(layered);
    assert_eq!(m.get(EnvKey::new("x")), Some(1));
    assert_eq!(m.get(EnvKey::new("y")), Some(2));
    assert_eq!(m.get(EnvKey::new("z")), Some(3));
    // the shared layer was not changed
    assert_eq!(mid.get(EnvKey::new("x")), None);
}

#[test]
fn key_clone_keeps_the_name() {
    let k: EnvKey<u32> = EnvKey::new("k");
    let e = Environment::new().add(k.clone(), 9);
    assert_eq!(e.get(k), Some(9));
}
