use connection::dual_map::DualHashMap;

#[test]
fn dual_map_insert_replaces_both_keys() {
    let mut map: DualHashMap<u8, usize, &str> = DualHashMap::new();
    map.insert(1, 10, "a");
    map.insert(2, 20, "b");
    map.insert(1, 20, "c");
    assert_eq!(map.len(), 1);
    assert_eq!(map.get_prim(&1), Some((&20, &"c")));
    assert_eq!(map.get_sec(&20), Some((&1, &"c")));
    assert_eq!(map.get_prim(&2), None);
    assert_eq!(map.get_sec(&10), None);
}

#[test]
fn dual_map_mutable_access() {
    let mut map: DualHashMap<u8, usize, u32> = DualHashMap::default();
    map.insert(3, 30, 7);
    if let Some((sec, v)) = map.get_prim_mut(&3) {
        assert_eq!(*sec, 30);
        *v += 1;
    }
    if let Some((prim, v)) = map.get_sec_mut(&30) {
        assert_eq!(*prim, 3);
        *v += 1;
    }
    assert!(map.get_prim_mut(&4).is_none());
    assert!(map.get_sec_mut(&40).is_none());
    assert_eq!(map.get_prim(&3), Some((&30, &9)));
}

#[test]
fn dual_map_remove_by_either_key() {
    let mut map: DualHashMap<u8, usize, u32> = DualHashMap::with_capacity(4);
    map.insert(1, 10, 100);
    map.insert(2, 20, 200);
    assert_eq!(map.remove_sec(&10), Some((1, 100)));
    assert_eq!(map.remove_sec(&10), None);
    assert!(!map.contains_prim(&1));
    assert!(!map.contains_sec(&10));
    assert_eq!(map.remove_prim(&2), Some((20, 200)));
    assert_eq!(map.remove_prim(&2), None);
    assert!(map.is_empty());
}

#[test]
fn dual_map_retain_and_visit() {
    let mut map: DualHashMap<u8, usize, u32> = DualHashMap::new();
    for i in 0..10u8 {
        map.insert(i, i as usize + 100, i as u32);
    }
    let mut dropped = Vec::new();
    map.retain(|k1, k2, v| {
        *v += 1;
        if *k1 % 2 == 0 {
            true
        } else {
            dropped.push(*k2);
            false
        }
    });
    dropped.sort_unstable();
    assert_eq!(dropped, vec![101, 103, 105, 107, 109]);
    assert_eq!(map.len(), 5);
    assert!(!map.contains_sec(&103));
    assert_eq!(map.get_sec(&104), Some((&4, &5)));
    map.iter_mut(|k1, _k2, v| *v = *k1 as u32 * 10);
    map.values_mut(|v| *v += 1);
    let mut entries: Vec<(u8, usize, u32)> =
        map.iter().into_iter().map(|(a, b, c)| (*a, *b, *c)).collect();
    entries.sort_unstable();
    assert_eq!(
        entries,
        vec![(0, 100, 1), (2, 102, 21), (4, 104, 41), (6, 106, 61), (8, 108, 81)]
    );
    let mut keys: Vec<(u8, usize)> = map.keys().into_iter().map(|(a, b)| (*a, *b)).collect();
    keys.sort_unstable();
    assert_eq!(keys[4], (8, 108));
    let mut values: Vec<u32> = map.values().into_iter().copied().collect();
    values.sort_unstable();
    assert_eq!(values, vec![1, 21, 41, 61, 81]);
    map.clear();
    assert!(map.is_empty());
    assert!(!map.contains_sec(&100));
}
