use bevy_animation_graph_core::node_resources::GraphNodeResources;

#[derive(Debug, PartialEq)]
struct Gravity(i32);

#[derive(Debug, PartialEq)]
struct PlayerName(String);

#[test]
fn new_map_holds_nothing() {
    let resources = GraphNodeResources::new();
    assert!(!resources.contains::<Gravity>());
    assert_eq!(resources.get::<Gravity>(), None);
}

#[test]
fn default_map_holds_nothing() {
    let resources = GraphNodeResources::default();
    assert!(!resources.contains::<PlayerName>());
    assert_eq!(resources.get::<PlayerName>(), None);
}

#[test]
fn read_gives_back_what_was_inserted() {
    let mut resources = GraphNodeResources::new();
    resources.insert(Gravity(-10));
    assert!(resources.contains::<Gravity>());
    assert_eq!(resources.get::<Gravity>(), Some(&Gravity(-10)));
}

#[test]
fn insert_replaces_previous_value_of_same_type() {
    let mut resources = GraphNodeResources::new();
    resources.insert(Gravity(-10));
    resources.insert(Gravity(3));
    assert_eq!(resources.get::<Gravity>(), Some(&Gravity(3)));
}

#[test]
fn distinct_types_do_not_collide() {
    let mut resources = GraphNodeResources::new();
    resources.insert(Gravity(1));
    resources.insert(PlayerName("ada".to_string()));
    resources.insert(7u32);
    resources.insert(8i32);
    assert_eq!(resources.get::<Gravity>(), Some(&Gravity(1)));
    assert_eq!(resources.get::<PlayerName>(), Some(&PlayerName("ada".to_string())));
    assert_eq!(resources.get::<u32>(), Some(&7u32));
    assert_eq!(resources.get::<i32>(), Some(&8i32));
    assert!(!resources.contains::<u64>());
    assert_eq!(resources.get::<u64>(), None);
}

#[test]
fn remove_takes_out_only_that_type() {
    let mut resources = GraphNodeResources::new();
    resources.insert(Gravity(1));
    resources.insert(PlayerName("bo".to_string()));
    resources.remove::<Gravity>();
    assert!(!resources.contains::<Gravity>());
    assert_eq!(resources.get::<Gravity>(), None);
    assert_eq!(resources.get::<PlayerName>(), Some(&PlayerName("bo".to_string())));
}

#[test]
fn remove_of_absent_type_changes_nothing() {
    let mut resources = GraphNodeResources::new();
    resources.insert(Gravity(5));
    resources.remove::<PlayerName>();
    resources.remove::<PlayerName>();
    assert_eq!(resources.get::<Gravity>(), Some(&Gravity(5)));
    assert!(!resources.contains::<PlayerName>());
}

#[test]
fn insert_after_remove_reads_new_value() {
    let mut resources = GraphNodeResources::new();
    resources.insert(Gravity(5));
    resources.remove::<Gravity>();
    resources.insert(Gravity(6));
    assert_eq!(resources.get::<Gravity>(), Some(&Gravity(6)));
}

#[test]
fn contains_agrees_with_get() {
    let mut resources = GraphNodeResources::new();
    resources.insert(3u8);
    assert_eq!(resources.contains::<u8>(), resources.get::<u8>().is_some());
    assert_eq!(resources.contains::<u16>(), resources.get::<u16>().is_some());
}

#[test]
fn read_returns_latest_write_not_followed_by_removal() {
    let mut resources = GraphNodeResources::default();
    resources.insert(Gravity(1));
    resources.insert(7u32);
    resources.insert(Gravity(2));
    resources.remove::<u32>();
    resources.insert(Gravity(3));
    resources.remove::<Gravity>();
    resources.insert(9u32);
    assert_eq!(resources.get::<Gravity>(), None);
    assert_eq!(resources.get::<u32>(), Some(&9u32));
    resources.insert(Gravity(4));
    assert_eq!(resources.get::<Gravity>(), Some(&Gravity(4)));
}
