use std::sync::Arc;

use leveled_map::key_range::{KeyBound, KeyRange};
use leveled_map::map_api::{MapApi, MapApiRO, MapKey};
use leveled_map::util::{assert_send, assert_sync, by_key_seq};
use leveled_map::{Level, LevelMap, Ref, RefMut, StaticLevels, Val};

fn entry(k: &str, v: u64) -> (String, Val) {
    (k.to_string(), Val(v))
}

fn level_of(pairs: &[(&str, u64)]) -> Level {
    let mut d = Level::default();
    for (k, v) in pairs {
        d.set(k.to_string(), Some(Val(*v)));
    }
    d
}

/// The frozen stack shared by several tests: d1 = {"a": 3} sealed first
/// (oldest), d2 = {"a": 2} sealed last (newest).
fn frozen_a32() -> StaticLevels {
    let d1 = level_of(&[("a", 3)]);
    let d2 = level_of(&[("a", 2)]);
    StaticLevels::new(vec![Arc::new(d1), Arc::new(d2)])
}

#[test]
fn test_level() {
    let k = || "a".to_string();

    let mut d = Level::default();
    d.set(k(), Some(Val(1)));

    let got = d.get(&k());
    assert_eq!(got, Val(1));

    let res = d.set(k(), Some(Val(2)));
    assert_eq!(res, (Val(1), Val(2)));

    let got = d.get(&k());
    assert_eq!(got, Val(2));

    let got = assert_send(d.get(&k()));
    assert_eq!(got, Val(2));
}

#[test]
fn test_level_map() {
    let k = || "a".to_string();

    let static_levels = frozen_a32();

    let d = Level::default();
    let mut lm = LevelMap::new(d, static_levels);

    let res = lm.set(k(), Some(Val(7)));
    assert_eq!(res, (Val(2), Val(7)));

    let got = lm.get(&k());
    assert_eq!(got, Val(7));

    let got = lm.range(&KeyRange::starting_at(k()));
    assert_eq!(got, vec![entry("a", 7), entry("a", 2), entry("a", 3)]);
}

#[test]
fn test_ref() {
    let k = || "a".to_string();

    let static_levels = frozen_a32();
    let d = Level::default();

    {
        let r = Ref::new(&d, &static_levels);

        let got = r.get(&k());
        assert_eq!(got, Val(2));

        let got = { r }.get(&k());
        assert_eq!(got, Val(2));
    }

    {
        let r = Ref::new(&d, &static_levels);

        let got = r.range(&KeyRange::starting_at(k()));
        assert_eq!(got, vec![entry("a", 2), entry("a", 3)]);

        let got = { r }.range(&KeyRange::starting_at(k()));
        assert_eq!(got, vec![entry("a", 2), entry("a", 3)]);
    }
}

#[test]
fn test_ref_mut() {
    let k = || "a".to_string();

    let static_levels = frozen_a32();

    let mut d = Level::default();

    let rm = RefMut::new(&mut d, &static_levels);
    let res = rm.set(k(), Some(Val(5)));
    assert_eq!(res, (Val(2), Val(5)));

    let rm = RefMut::new(&mut d, &static_levels);
    let got = rm.get(&k());
    assert_eq!(got, Val(5));
}

#[test]
fn test_static_levels() {
    let k = || "a".to_string();

    let static_levels = frozen_a32();

    let got = static_levels.get(&k());
    assert_eq!(got, Val(2));

    let got = static_levels.range(&KeyRange::starting_at(k()));
    assert_eq!(got, vec![entry("a", 2), entry("a", 3)]);

    let got = static_levels.get(&k());
    assert_eq!(got, Val(2));
}

/// The newest frozen layer's non-sentinel value wins a point read, and both
/// layers' entries appear in a range scan over the frozen stack.
#[test]
fn scenario_frozen_stack() {
    let static_levels = frozen_a32();

    assert_eq!(static_levels.get(&"a".to_string()), Val(2));

    let got = static_levels.range(&KeyRange::starting_at("a".to_string()));
    assert_eq!(got.len(), 2);
    assert!(got.contains(&entry("a", 2)));
    assert!(got.contains(&entry("a", 3)));
    assert_eq!(got, vec![entry("a", 2), entry("a", 3)]);
}

/// A write through the owning map returns the previous merged value, wins
/// following point reads, and adds a third entry to the merged scan.
#[test]
fn scenario_set_through_map() {
    let mut lm = LevelMap::new(Level::default(), frozen_a32());

    assert_eq!(lm.set("a".to_string(), Some(Val(7))), (Val(2), Val(7)));
    assert_eq!(lm.get(&"a".to_string()), Val(7));

    let got = lm.range(&KeyRange::starting_at("a".to_string()));
    assert_eq!(got.len(), 3);
    assert!(got.contains(&entry("a", 7)));
    assert!(got.contains(&entry("a", 2)));
    assert!(got.contains(&entry("a", 3)));
    let mut values: Vec<u64> = got.iter().map(|p| p.1 .0).collect();
    values.sort();
    assert_eq!(values, vec![2, 3, 7]);
}

/// A sentinel write is a tombstone marker, not a delete: the writable layer
/// records the sentinel, and a point read falls through to the older real
/// value rather than reporting absence.
#[test]
fn scenario_tombstone_falls_through() {
    let frozen = StaticLevels::new(vec![Arc::new(level_of(&[("a", 5)]))]);
    let mut lm = LevelMap::new(Level::default(), frozen);

    let res = lm.set("a".to_string(), None);
    assert_eq!(res, (Val(5), Val(0)));

    assert_eq!(lm.get(&"a".to_string()), Val(5));

    let got = lm.range(&KeyRange::all());
    assert_eq!(got, vec![entry("a", 0), entry("a", 5)]);
}

/// Point-read precedence over three layers: the first layer in recency order
/// whose value is not the sentinel answers; absent keys read as the sentinel.
#[test]
fn point_read_precedence() {
    let old = level_of(&[("a", 1), ("b", 10)]);
    let newer = level_of(&[("a", 2)]);
    let frozen = StaticLevels::new(vec![Arc::new(old), Arc::new(newer)]);
    let mut lm = LevelMap::new(Level::default(), frozen);

    assert_eq!(lm.get(&"a".to_string()), Val(2));
    assert_eq!(lm.get(&"b".to_string()), Val(10));
    assert_eq!(lm.get(&"c".to_string()), Val(0));

    lm.set("a".to_string(), Some(Val(9)));
    assert_eq!(lm.get(&"a".to_string()), Val(9));
}

/// A merged scan is key-ascending and loses nothing: every layer's bounded
/// entries appear exactly once each.
#[test]
fn range_merges_keys_in_order() {
    let frozen = StaticLevels::new(vec![Arc::new(level_of(&[("a", 1), ("c", 3)]))]);
    let mut lm = LevelMap::new(Level::default(), frozen);
    lm.set("ab".to_string(), Some(Val(2)));
    lm.set("b".to_string(), Some(Val(4)));

    let got = lm.range(&KeyRange::all());
    assert_eq!(
        got,
        vec![entry("a", 1), entry("ab", 2), entry("b", 4), entry("c", 3)]
    );

    let keys: Vec<&str> = got.iter().map(|p| p.0.as_str()).collect();
    let mut sorted_keys = keys.clone();
    sorted_keys.sort();
    assert_eq!(keys, sorted_keys);
}

/// Range bounds: inclusive, exclusive and absent ends each select exactly the
/// keys they should.
#[test]
fn range_bounds() {
    let mut d = level_of(&[("a", 1), ("b", 2), ("c", 3)]);
    d.set("d".to_string(), Some(Val(4)));

    let r = KeyRange {
        lo: KeyBound::Excluded("a".to_string()),
        hi: KeyBound::Included("c".to_string()),
    };
    assert_eq!(d.range(&r), vec![entry("b", 2), entry("c", 3)]);

    let r = KeyRange {
        lo: KeyBound::Included("b".to_string()),
        hi: KeyBound::Excluded("d".to_string()),
    };
    assert_eq!(d.range(&r), vec![entry("b", 2), entry("c", 3)]);

    let r = KeyRange {
        lo: KeyBound::Unbounded,
        hi: KeyBound::Excluded("a".to_string()),
    };
    assert_eq!(d.range(&r), vec![]);

    assert!(r.contains_key("") && !r.contains_key("a"));
    assert_eq!(d.range(&KeyRange::all()).len(), 4);
}

/// An empty stack reads as all-sentinel and scans as empty.
#[test]
fn empty_stack() {
    let frozen = StaticLevels::new(vec![]);
    assert_eq!(frozen.get(&"a".to_string()), Val(0));
    assert_eq!(frozen.range(&KeyRange::all()), vec![]);

    let lm = LevelMap::new(Level::default(), StaticLevels::new(vec![]));
    assert_eq!(lm.get(&"a".to_string()), Val(0));
    assert_eq!(lm.range(&KeyRange::all()), vec![]);
}

/// Frozen immutability: writes through views built from a stack never change
/// a sealed layer, also when the same sealed layer is shared elsewhere.
#[test]
fn frozen_layers_never_change() {
    let sealed = Arc::new(level_of(&[("a", 5)]));
    let outside = Arc::clone(&sealed);
    let frozen = StaticLevels::new(vec![sealed]);
    let mut lm = LevelMap::new(Level::default(), frozen);

    lm.set("a".to_string(), Some(Val(6)));
    lm.set("b".to_string(), Some(Val(7)));
    lm.set("a".to_string(), None);

    assert_eq!(outside.get(&"a".to_string()), Val(5));
    assert_eq!(outside.get(&"b".to_string()), Val(0));
    assert_eq!(
        outside.range(&KeyRange::all()),
        vec![entry("a", 5)]
    );
}

/// The views expose the layers in recency order: the writable layer first,
/// then the frozen layers newest first.
#[test]
fn iter_levels_recency_order() {
    let mut writable = Level::default();
    writable.set("a".to_string(), Some(Val(7)));
    let lm = LevelMap::new(writable, frozen_a32());

    let levels = lm.iter_levels();
    assert_eq!(levels.len(), 3);
    assert_eq!(levels[0].get(&"a".to_string()), Val(7));
    assert_eq!(levels[1].get(&"a".to_string()), Val(2));
    assert_eq!(levels[2].get(&"a".to_string()), Val(3));

    let r = lm.to_ref();
    let levels = r.iter_levels();
    assert_eq!(levels.len(), 3);
    assert_eq!(levels[0].get(&"a".to_string()), Val(7));

    let frozen = frozen_a32();
    let levels = frozen.iter_levels();
    assert_eq!(levels.len(), 2);
    assert_eq!(levels[0].get(&"a".to_string()), Val(2));
    assert_eq!(levels[1].get(&"a".to_string()), Val(3));
}

/// A `RefMut` downgrades to a read-only view, by borrow or for good, and its
/// writes stay visible through the map afterwards.
#[test]
fn ref_mut_downgrades() {
    let frozen = frozen_a32();
    let mut d = Level::default();

    let rm = RefMut::new(&mut d, &frozen);
    let r = rm.to_ref();
    assert_eq!(r.get(&"a".to_string()), Val(2));

    let r = rm.into_ref();
    assert_eq!(r.get(&"a".to_string()), Val(2));

    let rm = RefMut::new(&mut d, &frozen);
    rm.set("a".to_string(), Some(Val(8)));
    assert_eq!(d.get(&"a".to_string()), Val(8));

    let mut lm = LevelMap::new(d, frozen);
    let rm = lm.to_ref_mut();
    let res = rm.set("a".to_string(), Some(Val(9)));
    assert_eq!(res, (Val(8), Val(9)));
    assert_eq!(lm.get(&"a".to_string()), Val(9));
}

/// The comparator behind the merge orders entries by key alone.
#[test]
fn by_key_seq_orders_keys() {
    assert!(by_key_seq(&entry("a", 9), &entry("b", 1)));
    assert!(!by_key_seq(&entry("b", 1), &entry("a", 9)));
    assert!(by_key_seq(&entry("a", 1), &entry("a", 2)));
    assert!(by_key_seq(&entry("ab", 1), &entry("b", 1)));
}

/// The map types can cross threads; `MapKey` pairs `String` with `Val`.
#[test]
fn send_sync_and_map_key() {
    let lm = LevelMap::new(Level::default(), frozen_a32());
    let lm = assert_send(lm);
    let lm = assert_sync(lm);
    assert_eq!(lm.get(&"a".to_string()), Val(2));

    let v: <String as MapKey>::V = Val::default();
    assert_eq!(v, Val(0));
}
