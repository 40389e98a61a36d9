use mnemo_core::sync::hlc::HlcTimestamp;
use mnemo_core::sync::lww::{LWWMap, LWWRegister};
use mnemo_core::sync::node::NodeId;
use mnemo_core::sync::orset::ORSet;

fn node(id: &str) -> NodeId {
    NodeId::new(id)
}

fn ts(wall_ms: u64, counter: u32, node_name: &str) -> HlcTimestamp {
    HlcTimestamp::from_parts(wall_ms, counter, &node(node_name))
}

// ─── LWW-Register ───────────────────────────────────────────────

#[test]
fn test_lww_register_basic() {
    let reg = LWWRegister::new("hello".to_string(), ts(100, 0, "a"));
    assert_eq!(reg.get(), "hello");
}

#[test]
fn test_lww_register_set_newer_wins() {
    let mut reg = LWWRegister::new("old".to_string(), ts(100, 0, "a"));
    assert!(reg.set("new".to_string(), ts(200, 0, "a")));
    assert_eq!(reg.get(), "new");
}

#[test]
fn test_lww_register_set_older_ignored() {
    let mut reg = LWWRegister::new("current".to_string(), ts(200, 0, "a"));
    assert!(!reg.set("stale".to_string(), ts(100, 0, "a")));
    assert_eq!(reg.get(), "current");
}

#[test]
fn test_lww_register_merge() {
    let mut reg1 = LWWRegister::new("old".to_string(), ts(100, 0, "a"));
    let reg2 = LWWRegister::new("new".to_string(), ts(200, 0, "b"));
    reg1.merge(&reg2);
    assert_eq!(reg1.get(), "new");
}

#[test]
fn test_lww_register_merge_commutative() {
    let reg1 = LWWRegister::new("val_a".to_string(), ts(100, 0, "a"));
    let reg2 = LWWRegister::new("val_b".to_string(), ts(200, 0, "b"));

    let mut r1 = reg1.clone();
    r1.merge(&reg2);

    let mut r2 = reg2.clone();
    r2.merge(&reg1);

    assert_eq!(r1.get(), r2.get());
}

#[test]
fn test_falsify_lww_register_same_timestamp_tiebreak_by_node() {
    let mut reg = LWWRegister::new("from_a".to_string(), ts(100, 0, "a"));
    reg.merge(&LWWRegister::new("from_b".to_string(), ts(100, 0, "b")));
    assert_eq!(reg.get(), "from_b");

    let mut reg2 = LWWRegister::new("from_b".to_string(), ts(100, 0, "b"));
    reg2.merge(&LWWRegister::new("from_a".to_string(), ts(100, 0, "a")));
    assert_eq!(reg2.get(), "from_b");
}

#[test]
fn lww_register_equal_timestamp_is_not_a_newer_write() {
    let mut reg = LWWRegister::new("first".to_string(), ts(100, 3, "a"));
    assert!(!reg.set("second".to_string(), ts(100, 3, "a")));
    assert_eq!(reg.get(), "first");
    assert!(reg.set("third".to_string(), ts(100, 4, "a")));
    assert_eq!(reg.get(), "third");
    assert_eq!(reg.timestamp.counter, 4);
}

// ─── OR-Set ─────────────────────────────────────────────────────

#[test]
fn test_orset_empty() {
    let set = ORSet::new();
    assert!(set.is_empty());
    assert_eq!(set.len(), 0);
}

#[test]
fn test_orset_add_contains() {
    let mut set = ORSet::new();
    set.add("hello", &node("a"));
    assert!(set.contains("hello"));
    assert!(!set.contains("world"));
}

#[test]
fn test_orset_remove() {
    let mut set = ORSet::new();
    set.add("item", &node("a"));
    assert!(set.remove("item"));
    assert!(!set.contains("item"));
}

#[test]
fn test_orset_add_wins_over_concurrent_remove() {
    let mut set_a = ORSet::new();
    set_a.add("x", &node("a"));

    let mut set_b = set_a.clone();
    set_b.remove("x");
    set_a.add("x", &node("a"));

    set_a.merge(&set_b);
    assert!(set_a.contains("x"));
}

#[test]
fn test_orset_merge_union() {
    let mut set_a = ORSet::new();
    set_a.add("a", &node("n1"));

    let mut set_b = ORSet::new();
    set_b.add("b", &node("n2"));

    set_a.merge(&set_b);
    assert!(set_a.contains("a"));
    assert!(set_a.contains("b"));
    assert_eq!(set_a.len(), 2);
}

#[test]
fn test_orset_merge_idempotent() {
    let mut set = ORSet::new();
    set.add("x", &node("a"));
    let copy = set.clone();
    set.merge(&copy);
    assert_eq!(set.len(), 1);
}

#[test]
fn test_falsify_orset_three_node_convergence() {
    let mut set_a = ORSet::new();
    set_a.add("x", &node("a"));

    let mut set_b = ORSet::new();
    set_b.add("y", &node("b"));

    let mut set_c = set_a.clone();
    set_c.remove("x");

    set_a.add("x", &node("a"));

    set_a.merge(&set_b);
    set_a.merge(&set_c);

    assert!(set_a.contains("x"));
    assert!(set_a.contains("y"));
}

#[test]
fn test_falsify_orset_remove_nonexistent() {
    let mut set = ORSet::new();
    assert!(!set.remove("phantom"));
    assert!(set.is_empty());
}

#[test]
fn orset_tags_count_per_node() {
    let mut set = ORSet::new();
    let t1 = set.add("x", &node("a"));
    let t2 = set.add("y", &node("a"));
    let t3 = set.add("x", &node("b"));
    assert_eq!(t1.seq, 1);
    assert_eq!(t2.seq, 2);
    assert_eq!(t3.seq, 1);
    assert_eq!(t3.node_id.to_string(), "b");
    let mut names: Vec<String> = set.elements().into_iter().cloned().collect();
    names.sort();
    assert_eq!(names, vec!["x".to_string(), "y".to_string()]);
}

#[test]
fn orset_merge_is_commutative_on_membership() {
    let mut a = ORSet::new();
    a.add("p", &node("a"));
    a.add("q", &node("a"));
    a.remove("q");
    let mut b = ORSet::new();
    b.add("q", &node("b"));
    b.add("r", &node("b"));

    let mut ab = a.clone();
    ab.merge(&b);
    let mut ba = b.clone();
    ba.merge(&a);
    for e in ["p", "q", "r", "s"] {
        assert_eq!(ab.contains(e), ba.contains(e));
    }
    assert_eq!(ab.len(), 3);
    assert_eq!(ba.len(), 3);
    assert!(!ab.contains("s"));
}

// ─── LWW-Map ────────────────────────────────────────────────────

#[test]
fn test_lwwmap_empty() {
    let map: LWWMap<String> = LWWMap::new();
    assert!(map.is_empty());
}

#[test]
fn test_lwwmap_set_get() {
    let mut map = LWWMap::new();
    map.set("key".to_string(), "val".to_string(), ts(100, 0, "a"));
    assert_eq!(map.get("key"), Some(&"val".to_string()));
}

#[test]
fn test_lwwmap_newer_overwrites() {
    let mut map = LWWMap::new();
    map.set("k".to_string(), "v1".to_string(), ts(100, 0, "a"));
    map.set("k".to_string(), "v2".to_string(), ts(200, 0, "a"));
    assert_eq!(map.get("k"), Some(&"v2".to_string()));
}

#[test]
fn test_lwwmap_older_ignored() {
    let mut map = LWWMap::new();
    map.set("k".to_string(), "v2".to_string(), ts(200, 0, "a"));
    assert!(!map.set("k".to_string(), "v1".to_string(), ts(100, 0, "a")));
    assert_eq!(map.get("k"), Some(&"v2".to_string()));
}

#[test]
fn test_lwwmap_remove_tombstones() {
    let mut map = LWWMap::new();
    map.set("k".to_string(), "v".to_string(), ts(100, 0, "a"));
    map.remove("k", ts(200, 0, "a"));
    assert!(map.get("k").is_none());
    assert_eq!(map.len(), 0);
}

#[test]
fn test_lwwmap_remove_older_than_set_ignored() {
    let mut map = LWWMap::new();
    map.set("k".to_string(), "v".to_string(), ts(200, 0, "a"));
    assert!(!map.remove("k", ts(100, 0, "a")));
    assert_eq!(map.get("k"), Some(&"v".to_string()));
}

#[test]
fn test_lwwmap_merge() {
    let mut map1 = LWWMap::new();
    map1.set("a".to_string(), "v1".to_string(), ts(100, 0, "n1"));

    let mut map2 = LWWMap::new();
    map2.set("a".to_string(), "v2".to_string(), ts(200, 0, "n2"));
    map2.set("b".to_string(), "vb".to_string(), ts(100, 0, "n2"));

    map1.merge(&map2);
    assert_eq!(map1.get("a"), Some(&"v2".to_string()));
    assert_eq!(map1.get("b"), Some(&"vb".to_string()));
}

#[test]
fn test_lwwmap_merge_commutative() {
    let mut m1 = LWWMap::new();
    m1.set("k".to_string(), "from_1".to_string(), ts(100, 0, "a"));

    let mut m2 = LWWMap::new();
    m2.set("k".to_string(), "from_2".to_string(), ts(200, 0, "b"));

    let mut r1 = m1.clone();
    r1.merge(&m2);
    let mut r2 = m2.clone();
    r2.merge(&m1);

    assert_eq!(r1.get("k"), r2.get("k"));
}

#[test]
fn test_falsify_lwwmap_tombstone_resurrection() {
    let mut map = LWWMap::new();
    map.set("k".to_string(), "v1".to_string(), ts(100, 0, "a"));
    map.remove("k", ts(200, 0, "a"));
    assert!(map.get("k").is_none());

    map.set("k".to_string(), "v2".to_string(), ts(300, 0, "a"));
    assert_eq!(map.get("k"), Some(&"v2".to_string()));
}

#[test]
fn test_falsify_lwwmap_merge_tombstone_vs_live() {
    let mut map_a = LWWMap::new();
    map_a.set("k".to_string(), "alive".to_string(), ts(200, 0, "a"));

    let mut map_b = LWWMap::new();
    map_b.set("k".to_string(), "doomed".to_string(), ts(100, 0, "b"));
    map_b.remove("k", ts(300, 0, "b"));

    map_a.merge(&map_b);
    assert!(
        map_a.get("k").is_none(),
        "tombstone at t=300 should win over live at t=200"
    );
}

#[test]
fn lwwmap_entries_lists_live_keys_only() {
    let mut map = LWWMap::new();
    map.set("a".to_string(), 1u32, ts(100, 0, "n"));
    map.set("b".to_string(), 2u32, ts(100, 0, "n"));
    map.remove("a", ts(150, 0, "n"));
    map.remove("c", ts(150, 0, "n"));
    let live: Vec<(String, u32)> = map.entries().into_iter().map(|(k, v)| (k.clone(), *v)).collect();
    assert_eq!(live, vec![("b".to_string(), 2u32)]);
    assert_eq!(map.len(), 1);
    assert!(!map.is_empty());
    // A tombstone blocks an older write for a key that never held a value.
    assert!(!map.set("c".to_string(), 9u32, ts(120, 0, "n")));
    assert!(map.get("c").is_none());
}

#[test]
fn lwwmap_merge_with_itself_keeps_everything() {
    let mut map = LWWMap::new();
    map.set("a".to_string(), "x".to_string(), ts(100, 0, "n"));
    map.remove("b", ts(110, 0, "n"));
    let copy = map.clone();
    map.merge(&copy);
    assert_eq!(map.get("a"), Some(&"x".to_string()));
    assert!(map.get("b").is_none());
    assert_eq!(map.len(), 1);
}

#[test]
fn orset_remove_survives_merge_with_replica_that_saw_the_add() {
    let mut a = ORSet::new();
    a.add("x", &node("a"));
    let mut b = a.clone();
    assert!(b.remove("x"));
    let mut b_then_a = b.clone();

    a.merge(&b);
    assert!(!a.contains("x"));
    assert!(a.is_empty());

    b_then_a.merge(&a);
    assert!(!b_then_a.contains("x"));
    assert_eq!(b_then_a.len(), 0);
}

#[test]
fn orset_readd_after_remove_is_present_after_merge() {
    let mut a = ORSet::new();
    a.add("x", &node("a"));
    let mut b = a.clone();
    b.remove("x");
    b.add("x", &node("b"));
    a.merge(&b);
    assert!(a.contains("x"));
    assert!(!a.remove("y"));
    assert!(a.remove("x"));
    assert!(!a.remove("x"));
}
