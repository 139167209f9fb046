use qc::kvmap::KvMap;
use qc::qc::{quick_check, quick_check_occurs, quick_shrink, QcResult};
use qc::{QConfig, Rng};

#[test]
fn test_map_insert_get() {
    let mut m: KvMap<String, usize> = KvMap::new();
    m.insert(String::from("a"), 1);
    m.insert(String::from("b"), 2);
    m.insert(String::from("a"), 3);
    assert_eq!(m.len(), 2);
    assert_eq!(m.get(&String::from("a")), Some(3));
    assert_eq!(m.get(&String::from("b")), Some(2));
    assert_eq!(m.get(&String::from("c")), None);
}

#[test]
fn test_map_generate() {
    let cfg = QConfig::default();
    let mut rng = Rng::seeded(30);

    // Generated maps hold at most one pair per key.
    let r = quick_check("unique keys", cfg, &mut rng, |m: KvMap<u8, u8>| {
        let ps = m.to_pairs();
        ps.iter()
            .enumerate()
            .all(|(i, p)| ps.iter().skip(i + 1).all(|q| p.0 != q.0))
    });
    assert!(matches!(r, QcResult::Pass));

    assert!(
        quick_check_occurs(cfg, "filled map", &mut rng, |m: KvMap<u8, u8>| m.len() > 2).is_some()
    );
    assert!(
        quick_check_occurs(cfg, "empty map", &mut rng, |m: KvMap<u8, u8>| m.len() == 0).is_some()
    );
}

#[test]
fn test_map_shrink() {
    let cfg = QConfig::default();
    let mut m: KvMap<u8, u8> = KvMap::new();
    m.insert(1, 10);
    m.insert(2, 20);
    m.insert(3, 30);
    let s = quick_shrink(cfg, m, |_| false);
    assert_eq!(s.len(), 0);

    let mut m: KvMap<u8, u8> = KvMap::new();
    m.insert(7, 10);
    m.insert(2, 20);
    let s = quick_shrink(cfg, m, |x: KvMap<u8, u8>| x.get(&2).is_none());
    let pairs = s.to_pairs();
    assert_eq!(pairs, vec![(2, 0)]);
}
