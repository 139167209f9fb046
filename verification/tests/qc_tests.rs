use qc::arbitrary::arbitrary;
use qc::arbitrary::{Either, SmallN, Slot, Unicode};
use qc::qc::{quick_check, quick_check_occurs, quick_shrink, QcResult, UserTree};
use qc::{QConfig, Rng};
use std::cell::Cell;

#[test]
fn test_qc_basic() {
    let cfg = QConfig::default();
    let mut rng = Rng::seeded(11);
    let n = Cell::new(0usize);
    let r = quick_check("basic", cfg, &mut rng, |_: isize| {
        n.set(n.get() + 1);
        true
    });
    assert!(matches!(r, QcResult::Pass));
    assert_eq!(n.get(), cfg.trials);

    let m = Cell::new(0usize);
    let r2 = quick_check_occurs(cfg, "hits twenty", &mut rng, |_: isize| {
        m.set(m.get() + 1);
        m.get() == 20
    });
    assert!(r2.is_some());
    assert_eq!(m.get(), 20);
}

#[test]
fn test_qc_fail() {
    let cfg = QConfig::default();
    let mut rng = Rng::seeded(12);
    let r = quick_check("always false", cfg, &mut rng, |_: ()| false);
    assert!(matches!(r, QcResult::Fail { trial: 1, .. }));
}

#[test]
fn test_qc_occurs_fail() {
    let cfg = QConfig::default();
    let mut rng = Rng::seeded(13);
    let r = quick_check_occurs(cfg, "impossible", &mut rng, |s: String| s.len() as i64 == -1);
    assert!(r.is_none());
}

#[test]
fn test_qc_func() {
    let cfg = QConfig::default().trials(7);
    let mut rng = Rng::seeded(14);
    let n = Cell::new(0usize);
    let r = quick_check("7 trials", cfg, &mut rng, |_: isize| {
        n.set(n.get() + 1);
        true
    });
    assert!(matches!(r, QcResult::Pass));
    assert_eq!(n.get(), 7);
}

#[test]
fn test_qc_config() {
    let mut rng = Rng::seeded(15);
    let r = quick_check("no trials", QConfig::default().trials(0), &mut rng, |_: ()| false);
    assert!(matches!(r, QcResult::Pass));
    let r = quick_check("one trial", QConfig::default().trials(1), &mut rng, |_: ()| true);
    assert!(matches!(r, QcResult::Pass));

    let n = Cell::new(0usize);
    let r = quick_check("seven", QConfig::default().trials(7), &mut rng, |_: ()| {
        n.set(n.get() + 1);
        true
    });
    assert!(matches!(r, QcResult::Pass));
    assert_eq!(n.get(), 7);

    let r = quick_check_occurs(
        QConfig::default().size(1000),
        "big small number",
        &mut rng,
        |n: SmallN| n.0 > 1000,
    );
    assert!(r.is_some());
}

#[test]
fn test_qc_smalln() {
    let cfg = QConfig::default();
    let mut rng = Rng::seeded(16);
    assert!(quick_check_occurs(cfg, "zero", &mut rng, |n: SmallN| n.0 == 0).is_some());
    assert!(quick_check_occurs(cfg, "one", &mut rng, |n: SmallN| n.0 == 1).is_some());
    assert!(quick_check_occurs(cfg, "above 10", &mut rng, |n: SmallN| n.0 > 10).is_some());
}

#[test]
fn test_qc_shrink() {
    let cfg = QConfig::default();

    let v = SmallN(100);
    let shrink = quick_shrink(cfg, v, |_| false);
    assert_eq!(shrink.0, 0);

    let v: usize = 20000000;
    let shrink = quick_shrink(cfg, v, |x: usize| x < 1200301);
    assert_eq!(shrink, 1200301);

    let s: Vec<isize> = vec![0, 1, 1, 2, 1, 0, 1, 0, 1];
    let shrink = quick_shrink(cfg, s, |_| false);
    assert_eq!(shrink, Vec::<isize>::new());

    // Nested containers shrink too.
    let v = Some(vec![
        Some(String::from("hi")),
        None,
        Some(String::from("")),
        Some(String::from("long text from me")),
    ]);
    let shrink = quick_shrink(cfg, v, |_| false);
    assert_eq!(shrink, None);

    let s = vec![Some(String::from("hi")), None, Some(String::from("more")), None];
    let shrink = quick_shrink(cfg, s, |v: Vec<Option<String>>| {
        !v.iter().any(|x| x.as_ref().map_or(false, |s| s.contains('e')))
    });
    assert_eq!(shrink, vec![Some(String::from("e"))]);

    let s = String::from("boots are made for walking");
    let shrink = quick_shrink(cfg, s, |v: String| v.chars().filter(|&x| x == 'a').count() <= 1);
    assert_eq!(shrink, String::from("aa"));

    let s: Vec<isize> = vec![0, 1, 1, 2, 1, 0, 1, 0, 1];
    let sum = |v: &Vec<isize>| v.iter().sum::<isize>();
    let shrink = quick_shrink(cfg, s, |v: Vec<isize>| v.iter().sum::<isize>() < 3);
    assert_eq!(sum(&shrink), 3);

    let s = (String::from("more meat"), String::from("beef"));
    let shrink = quick_shrink(cfg, s, |(a, b): (String, String)| {
        !(a.contains('e') && b.contains('e'))
    });
    assert_eq!(shrink, (String::from("e"), String::from("e")));

    let s = (SmallN(1), SmallN(10), SmallN(3));
    let shrink = quick_shrink(cfg, s, |(a, b, c): (SmallN, SmallN, SmallN)| a.0 + b.0 + c.0 == 0);
    assert_eq!(shrink, (SmallN(0), SmallN(0), SmallN(1)));

    // The biggest supported tuple.
    let mut rng = Rng::seeded(17);
    let t: (usize, (), Vec<u8>, Option<bool>, u8, String) = arbitrary(&mut rng, cfg.size);
    let shrink = quick_shrink(cfg, t, |_| false);
    assert_eq!(shrink, (0, (), Vec::new(), None, 0, String::new()));
}

#[test]
fn test_qc_shrink_containers() {
    let cfg = QConfig::default();

    let shrink: Either<String, isize> =
        quick_shrink(cfg, Either::Left(String::from("xyz")), |_| false);
    assert_eq!(shrink, Either::Left(String::new()));
    let shrink: Either<isize, String> =
        quick_shrink(cfg, Either::Right(String::from("xyz")), |_| false);
    assert_eq!(shrink, Either::Right(String::new()));

    let shrink: Result<String, isize> = quick_shrink(cfg, Ok(String::from("xyz")), |_| false);
    assert_eq!(shrink, Ok(String::new()));

    // A boxed atom does not change.
    let shrink = quick_shrink(cfg, Box::new(1isize), |_| false);
    assert_eq!(shrink, Box::new(1isize));

    let shrink = quick_shrink(
        cfg,
        Slot::new((Box::new(1isize), vec![1isize, 2, 3])),
        |x: Slot<(Box<isize>, Vec<isize>)>| x.is_empty(),
    );
    assert_eq!(shrink, Slot(Some((Box::new(1isize), Vec::new()))));
}

#[test]
fn test_qc_tree() {
    let mut rng = Rng::seeded(18);
    let r = quick_check("tree pattern", QConfig::default().size(7), &mut rng, |u: UserTree<u8>| {
        match u {
            UserTree::Node(x, l, r) => match (*l, *r) {
                (UserTree::Node(y, _, _), UserTree::Nil) => (x ^ y) & 0x13 == 0,
                _ => true,
            },
            _ => true,
        }
    });
    assert!(matches!(r, QcResult::Fail { .. }));
}

#[test]
fn test_qc_shrink_fail() {
    let mut rng = Rng::seeded(19);
    let r = quick_check(
        "no letter e",
        QConfig::default().verbose(false).trials(100),
        &mut rng,
        |(a, b): (String, String)| !(a.contains('e') || b.contains('e')),
    );
    assert!(matches!(r, QcResult::Fail { .. }));
}

#[test]
fn test_qc_containers() {
    let cfg = QConfig::default();
    let mut rng = Rng::seeded(20);

    assert!(quick_check_occurs(cfg, "none", &mut rng, |s: Option<isize>| s.is_none()).is_some());
    assert!(quick_check_occurs(cfg, "some", &mut rng, |s: Option<isize>| s.is_some()).is_some());

    assert!(quick_check_occurs(cfg, "empty", &mut rng, |v: Vec<u8>| v.len() == 0).is_some());
    assert!(quick_check_occurs(cfg, "single", &mut rng, |v: Vec<u8>| v.len() == 1).is_some());
    assert!(quick_check_occurs(cfg, "over 10", &mut rng, |v: Vec<u8>| v.len() > 10).is_some());
    assert!(quick_check_occurs(
        QConfig::default().size(100),
        "over 100",
        &mut rng,
        |v: Vec<u8>| v.len() > 100
    )
    .is_some());

    let r = quick_check("ascii", cfg, &mut rng, |s: String| s.is_ascii());
    assert!(matches!(r, QcResult::Pass));

    assert!(quick_check_occurs(cfg, "left", &mut rng, |s: Either<u8, u8>| matches!(
        s,
        Either::Left(_)
    ))
    .is_some());
    assert!(quick_check_occurs(cfg, "right", &mut rng, |s: Either<u8, u8>| matches!(
        s,
        Either::Right(_)
    ))
    .is_some());
    assert!(quick_check_occurs(
        cfg,
        "left some",
        &mut rng,
        |s: Either<Option<isize>, u8>| matches!(s, Either::Left(Some(_)))
    )
    .is_some());

    assert!(
        quick_check_occurs(cfg, "ok", &mut rng, |s: Result<u8, u8>| matches!(s, Ok(_))).is_some()
    );
    assert!(
        quick_check_occurs(cfg, "err", &mut rng, |s: Result<u8, u8>| matches!(s, Err(_))).is_some()
    );

    assert!(quick_check_occurs(
        cfg,
        "all true",
        &mut rng,
        |(a, b, c): (Box<bool>, Box<bool>, Box<bool>)| *a && *b && *c
    )
    .is_some());

    assert!(
        quick_check_occurs(cfg, "empty slot", &mut rng, |m: Slot<String>| m.is_empty()).is_some()
    );
    assert!(quick_check_occurs(cfg, "full slot", &mut rng, |m: Slot<Box<isize>>| !m.is_empty())
        .is_some());
}

#[test]
fn test_str() {
    let cfg = QConfig::default();
    let mut rng = Rng::seeded(21);
    let r = quick_check("chars make utf8", cfg, &mut rng, |s: Vec<char>| {
        let ss: String = s.into_iter().collect();
        std::str::from_utf8(ss.as_bytes()).is_ok()
    });
    assert!(matches!(r, QcResult::Pass));

    let r = quick_check("unicode roundtrip", cfg, &mut rng, |u: Unicode| {
        std::str::from_utf8(u.0.as_bytes()).is_ok()
    });
    assert!(matches!(r, QcResult::Pass));
}

#[test]
fn test_random_stuff() {
    let cfg = QConfig::default();
    let mut rng = Rng::seeded(22);

    let r = quick_check("head", cfg, &mut rng, |v: Vec<isize>| {
        v.first().is_some() == (v.len() > 0)
    });
    assert!(matches!(r, QcResult::Pass));

    let r = quick_check("head is first", cfg, &mut rng, |v: Vec<String>| {
        v.first() == v.iter().next()
    });
    assert!(matches!(r, QcResult::Pass));

    let r = quick_check("copy map", cfg, &mut rng, |v: Vec<Option<i8>>| {
        let w: Vec<Option<i8>> = v.iter().map(|&elt| elt).collect();
        v == w
    });
    assert!(matches!(r, QcResult::Pass));

    let r = quick_check("clone eq", cfg, &mut rng, |v: Vec<String>| v == v.clone());
    assert!(matches!(r, QcResult::Pass));

    // Chain has the right length.
    let r = quick_check("chain len", cfg, &mut rng, |(x, y): (Vec<u8>, Vec<u8>)| {
        x.len() + y.len() == x.iter().chain(y.iter()).count()
    });
    assert!(matches!(r, QcResult::Pass));

    // Chain has the right elements.
    let r = quick_check("chain elems", cfg, &mut rng, |(x, y): (Vec<u8>, Vec<u8>)| {
        x.iter().chain(y.iter()).skip(x.len()).zip(y.iter()).all(|(a, b)| a == b)
    });
    assert!(matches!(r, QcResult::Pass));

    // Enumerate indexes correctly.
    let r = quick_check("enumerate", cfg, &mut rng, |x: Vec<isize>| {
        x.iter().enumerate().all(|(i, &elt)| x[i] == elt)
    });
    assert!(matches!(r, QcResult::Pass));

    let r = quick_check("zip len", cfg, &mut rng, |(x, y): (Vec<u8>, Vec<u8>)| {
        x.iter().zip(y.iter()).count() == std::cmp::min(x.len(), y.len())
    });
    assert!(matches!(r, QcResult::Pass));

    let r = quick_check("flatten", cfg, &mut rng, |(x, y): (Vec<u8>, Vec<u8>)| {
        let v = [&x, &y];
        let ys: Vec<u8> = v.iter().flat_map(|a| a.iter()).map(|&b| b).collect();
        ys.iter().zip(x.iter().chain(y.iter())).all(|(a, b)| *a == *b)
            && ys.len() == x.len() + y.len()
    });
    assert!(matches!(r, QcResult::Pass));
}

#[test]
fn test_sorting_stays_sorted() {
    // A passing sequence property consumes exactly the configured number
    // of draws and returns normally.
    let cfg = QConfig::default();
    let mut rng = Rng::seeded(23);
    let n = Cell::new(0usize);
    let r = quick_check("sort idempotent", cfg, &mut rng, |v: Vec<u8>| {
        n.set(n.get() + 1);
        let mut a = v.clone();
        a.sort();
        let mut b = a.clone();
        b.sort();
        a == b
    });
    assert!(matches!(r, QcResult::Pass));
    assert_eq!(n.get(), cfg.trials);
}

#[test]
fn test_shrink_reports_failing_trial() {
    let mut rng = Rng::seeded(24);
    let r = quick_check("small bytes", QConfig::default(), &mut rng, |x: u8| x < 10);
    match r {
        QcResult::Fail { trial, witness } => {
            assert!(trial >= 1);
            assert_eq!(witness, 10);
        }
        QcResult::Pass => panic!("expected a counterexample"),
    }
}

#[test]
fn shrink_bench_tup_2() {
    let cfg = QConfig::default();
    let t: (usize, usize) = (12345, 6789);
    let kept = quick_shrink(cfg, t, |_| true);
    assert_eq!(kept, (12345, 6789));
}

#[test]
fn shrink_bench_minimal() {
    let cfg = QConfig::default();
    let t: (usize, UserTree<usize>, Vec<u8>, (Option<usize>, String)) = (
        63748,
        UserTree::Node(
            2,
            Box::new(UserTree::Node(3, Box::new(UserTree::Nil), Box::new(UserTree::Nil))),
            Box::new(UserTree::Nil),
        ),
        b"text twist".to_vec(),
        (Some(256), String::from("1729")),
    );
    let shrink = quick_shrink(cfg, t, |_| false);
    assert_eq!(shrink, (0, UserTree::Nil, Vec::new(), (None, String::new())));
}

#[test]
fn shrink_bench_noshrink() {
    let cfg = QConfig::default();
    let t: (usize, UserTree<usize>, Vec<u8>, (Option<usize>, String)) = (
        63748,
        UserTree::Node(
            2,
            Box::new(UserTree::Node(3, Box::new(UserTree::Nil), Box::new(UserTree::Nil))),
            Box::new(UserTree::Nil),
        ),
        b"text twist".to_vec(),
        (Some(256), String::from("1729")),
    );
    let untouched = quick_shrink(cfg, t, |_| true);
    assert_eq!(untouched.0, 63748);
    assert_eq!(untouched.2, b"text twist".to_vec());
    assert_eq!(untouched.3, (Some(256), String::from("1729")));
}

#[test]
fn test_nonempty() {
    let cfg = QConfig::default();
    let mut rng = Rng::seeded(25);
    let r = quick_check("never empty", cfg, &mut rng, |v: qc::arbitrary::NonEmpty<u8>| {
        v.0.len() >= 1
    });
    assert!(matches!(r, QcResult::Pass));
}
