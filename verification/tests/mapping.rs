use pyseq::errors::ErrorKind;
use pyseq::mapcomb::{map_new, map_next, map_pull_begin, MapStep, PyMap};
use pyseq::protocol::PullEvent;
use pyseq::registry::{MapOp, RangeOp, Registry};

// A sub-iterator as the surrounding runtime would drive it: a backing
// list and a position, advanced once per protocol pull.
fn pull_one(items: &[i64], position: &mut usize) -> PullEvent<i64, ErrorKind> {
    if *position < items.len() {
        let v = items[*position];
        *position += 1;
        PullEvent::Value(v)
    } else {
        PullEvent::Exhausted
    }
}

// Drives one full pull of the map: advances sub-iterators in order and
// invokes the callable (here: sum of the arguments) when all yielded.
fn map_pull_sum(
    m: &PyMap<(), Vec<i64>>,
    positions: &mut Vec<usize>,
) -> PullEvent<i64, ErrorKind> {
    let mut st = map_pull_begin::<i64, (), Vec<i64>>(m);
    loop {
        let idx = st.collected.len();
        let event = pull_one(&m.iterators[idx], &mut positions[idx]);
        match map_next(&mut st, event) {
            MapStep::Advance(_) => continue,
            MapStep::CallMapper(args) => {
                // the callable's ordinary result becomes the map's value
                return PullEvent::Value(args.iter().sum());
            },
            MapStep::Exhausted => return PullEvent::Exhausted,
            MapStep::Failed(e) => return PullEvent::Failed(e),
        }
    }
}

#[test]
fn shortest_iterable_wins() {
    let m = match map_new((), vec![vec![1i64, 2, 3], vec![10i64, 20]]) {
        Ok(m) => m,
        Err(_) => panic!("two iterables are enough"),
    };
    let mut positions = vec![0usize, 0usize];
    assert!(matches!(map_pull_sum(&m, &mut positions), PullEvent::Value(11)));
    assert!(matches!(map_pull_sum(&m, &mut positions), PullEvent::Value(22)));
    assert!(matches!(map_pull_sum(&m, &mut positions), PullEvent::Exhausted));
    // the longer iterable was still advanced before the shorter one
    // reported exhaustion on the third pull
    assert_eq!(positions, vec![3usize, 2usize]);
}

#[test]
fn no_iterable_is_arity_error() {
    let iterables: Vec<Vec<i64>> = Vec::new();
    assert!(matches!(map_new((), iterables), Err(ErrorKind::ArityError)));
}

#[test]
fn construction_keeps_order() {
    let m = match map_new((), vec![vec![7i64], vec![8i64], vec![9i64]]) {
        Ok(m) => m,
        Err(_) => panic!("three iterables are enough"),
    };
    assert_eq!(m.iterators, vec![vec![7i64], vec![8i64], vec![9i64]]);
}

#[test]
fn sub_iterator_error_propagates() {
    let m = match map_new((), vec![vec![1i64], vec![2i64]]) {
        Ok(m) => m,
        Err(_) => panic!("two iterables are enough"),
    };
    let mut st = map_pull_begin::<i64, (), Vec<i64>>(&m);
    assert!(matches!(map_next(&mut st, PullEvent::<i64, ErrorKind>::Value(1)), MapStep::Advance(1)));
    assert!(matches!(
        map_next(&mut st, PullEvent::Failed(ErrorKind::TypeError)),
        MapStep::Failed(ErrorKind::TypeError)
    ));
}

#[test]
fn callable_receives_arguments_in_order() {
    let m = match map_new((), vec![vec![1i64], vec![2i64], vec![3i64]]) {
        Ok(m) => m,
        Err(_) => panic!("three iterables are enough"),
    };
    let mut st = map_pull_begin::<i64, (), Vec<i64>>(&m);
    assert!(matches!(map_next(&mut st, PullEvent::<i64, ErrorKind>::Value(1)), MapStep::Advance(1)));
    assert!(matches!(map_next(&mut st, PullEvent::<i64, ErrorKind>::Value(2)), MapStep::Advance(2)));
    match map_next(&mut st, PullEvent::<i64, ErrorKind>::Value(3)) {
        MapStep::CallMapper(args) => assert_eq!(args, vec![1i64, 2, 3]),
        _ => panic!("all sub-iterators yielded"),
    }
}

#[test]
fn registries_bind_in_order() {
    let mut registry = Registry::new();
    pyseq::range::init(&mut registry);
    pyseq::mapcomb::init(&mut registry);
    assert_eq!(
        registry.range_ops,
        vec![
            RangeOp::New,
            RangeOp::Iter,
            RangeOp::Reversed,
            RangeOp::Doc,
            RangeOp::Len,
            RangeOp::GetItem,
            RangeOp::Repr,
            RangeOp::Bool,
            RangeOp::Contains,
            RangeOp::IndexOf,
        ]
    );
    assert_eq!(registry.map_ops, vec![MapOp::IterProtocol, MapOp::New, MapOp::Next, MapOp::Doc]);
}
