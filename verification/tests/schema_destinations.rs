use blurt::schema::destinations::{path, Destination, DestinationKind};

fn row(id: u128, parent_id: Option<u128>, name: &str, trigger: &str) -> Destination {
    Destination {
        id,
        parent_id,
        name: name.to_string(),
        trigger: trigger.to_string(),
        kind: DestinationKind::List,
        is_system: false,
        is_sensitive: false,
        sort_order: 0,
        created_at: 0,
        deleted_at: None,
    }
}

#[test]
fn path_resolves_a_multi_level_chain_without_storing_it() {
    let top = row(10, None, "Shopping", "shop");
    let mid = row(11, Some(10), "Weekly", "weekly");
    let leaf = row(12, Some(11), "Produce", "produce");
    let rows = vec![leaf.clone(), top.clone(), mid.clone()];

    let chain = path(&rows, leaf.id);
    let names: Vec<&str> = chain.iter().map(|d| d.name.as_str()).collect();
    assert_eq!(names, vec!["Shopping", "Weekly", "Produce"]);
}

#[test]
fn path_for_a_top_level_destination_is_itself_only() {
    let top = row(10, None, "Shopping", "shop");
    let rows = vec![top.clone()];

    let chain = path(&rows, top.id);
    assert_eq!(chain.len(), 1);
    assert_eq!(chain[0].id, top.id);
}

#[test]
fn path_of_an_unknown_or_tombstoned_destination_is_empty() {
    let mut gone = row(10, None, "Shopping", "shop");
    gone.deleted_at = Some(5);
    let rows = vec![gone];

    assert!(path(&rows, 10).is_empty());
    assert!(path(&rows, 99).is_empty());
}

#[test]
fn path_stops_below_a_tombstoned_ancestor() {
    let mut top = row(10, None, "Shopping", "shop");
    top.deleted_at = Some(5);
    let leaf = row(11, Some(10), "Produce", "produce");
    let rows = vec![top, leaf];

    let chain = path(&rows, 11);
    assert_eq!(chain.len(), 1);
    assert_eq!(chain[0].name, "Produce");
}

#[test]
fn path_through_a_parent_cycle_still_ends() {
    let a = row(1, Some(2), "A", "a");
    let b = row(2, Some(1), "B", "b");
    let rows = vec![a, b];

    let chain = path(&rows, 1);
    assert_eq!(chain.len(), 2);
    assert_eq!(chain[1].id, 1);
    assert_eq!(chain[0].id, 2);
}
