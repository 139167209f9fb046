use qc::lazy::{Lazy, MapEnvProd, Trickle};
use qc::shrink::NoProd;

#[test]
fn test_lazy_list() {
    let mut l: Lazy<isize, Trickle<isize>> = Lazy::new();
    l.push(3);
    l.push_thunk(Trickle { items: vec![4, 5] });

    assert_eq!(l.next(), Some(3));
    assert_eq!(l.next(), Some(4));
    assert_eq!(l.next(), Some(5));
    assert_eq!(l.next(), None);

    let mut m: Lazy<(isize, isize), MapEnvProd<isize, NoProd<isize>, isize, qc::lazy::PairMap>> =
        Lazy::new();
    m.push_map_env(Lazy::new_from(vec![3, 4, 5]), 1, qc::lazy::PairMap);
    assert_eq!(m.next(), Some((3, 1)));
    assert_eq!(m.next(), Some((4, 1)));
    assert_eq!(m.next(), Some((5, 1)));
    assert_eq!(m.next(), None);
}

#[test]
fn test_lazy_map() {
    let mut l: Lazy<usize, NoProd<usize>> = Lazy::new_from(vec![9, 2, 0]);
    assert_eq!(l.next(), Some(9));
    assert_eq!(l.next(), Some(2));
    assert_eq!(l.next(), Some(0));
    assert_eq!(l.next(), None);
    assert_eq!(l.next(), None);
}

#[test]
fn test_lazy_create() {
    let mut l: Lazy<isize, Trickle<isize>> = Lazy::create(|mut l| {
        l.push(1);
        l.push_thunk(Trickle { items: vec![2] });
        l
    });
    assert_eq!(l.next(), Some(1));
    assert_eq!(l.next(), Some(2));
    assert_eq!(l.next(), None);
}
