use std::collections::HashMap;
use waterwheel::rendezvous::Rendezvous;

#[test]
fn test_rendezvous_empty() {
    let r = Rendezvous::<&str>::new();
    let t = r.node_for_item("ItemX");
    assert!(t.is_none());
}

#[test]
fn test_rendezvous() {
    let mut r = Rendezvous::with_me("ServerA");
    r.add_node("ServerB");

    let t = r.node_for_item("ItemX").unwrap();
    assert_eq!(*t, "ServerA");

    let t = r.node_for_item("ItemY").unwrap();
    assert_eq!(*t, "ServerB");

    assert!(r.item_is_mine("ServerA", "ItemX"));
}

#[test]
fn test_rendezvous_distribution() {
    let mut r = Rendezvous::with_me("ServerA".to_owned());
    r.add_node("ServerB".to_owned());

    let mut a = 0;
    let mut b = 0;
    for i in 0..1000 {
        let ab = r.node_for_item(&format!("node{i}")).unwrap();
        if ab == "ServerA" {
            a += 1;
        } else {
            b += 1;
        }
    }

    assert_eq!(a + b, 1000);
    assert_eq!(a, 486);
    assert_eq!(b, 514);
}

#[test]
fn test_rendezvous_distribution2() {
    let mut r = Rendezvous::with_me("ServerA".to_owned());
    r.add_node("ServerB".to_owned());
    r.add_node("ServerC".to_owned());
    r.add_node("ServerD".to_owned());

    let mut counts = HashMap::<String, u32>::new();
    for i in 0..1000 {
        let target = r.node_for_item(&format!("node{i}")).unwrap();
        *counts.entry(target.clone()).or_default() += 1;
    }

    assert_eq!(*counts.get("ServerA").unwrap(), 225);
    assert_eq!(*counts.get("ServerB").unwrap(), 252);
    assert_eq!(*counts.get("ServerC").unwrap(), 275);
    assert_eq!(*counts.get("ServerD").unwrap(), 248);
}

#[test]
fn rendezvous_adding_a_node_moves_items_only_to_it() {
    let mut r = Rendezvous::with_me("ServerA".to_owned());
    r.add_node("ServerB".to_owned());
    let before: Vec<String> = (0..200)
        .map(|i| r.node_for_item(format!("item{i}").as_str()).unwrap().clone())
        .collect();
    r.add_node("ServerC".to_owned());
    for i in 0..200 {
        let after = r.node_for_item(format!("item{i}").as_str()).unwrap();
        assert!(*after == before[i] || after == "ServerC");
    }
}

#[test]
fn rendezvous_clear_forgets_every_node() {
    let mut r = Rendezvous::with_me("ServerA");
    r.add_node("ServerB");
    r.clear();
    assert!(r.node_for_item("ItemX").is_none());
    assert!(!r.item_is_mine("ServerA", "ItemX"));
}

#[test]
fn rendezvous_item_is_mine_only_for_owner() {
    let mut r = Rendezvous::with_me("ServerA");
    r.add_node("ServerB");
    assert!(!r.item_is_mine("ServerB", "ItemX"));
    assert!(r.item_is_mine("ServerB", "ItemY"));
    let bytes: &[u8] = &[1u8, 2, 3, 4];
    let owner = *r.node_for_item(bytes).unwrap();
    assert!(r.item_is_mine(owner, bytes));
}
