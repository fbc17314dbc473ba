use num_bigint::BigInt;
use pyseq::cursor::{range_iter, range_reversed, RangeCursor};
use pyseq::errors::ErrorKind;
use pyseq::protocol::PullEvent;
use pyseq::range::{
    get_range, range_bool, range_contains, range_getitem, range_index, range_len, range_new,
    range_repr, ArgValue, GotItem, PyPayload, RangeType, Subscript,
};

fn make(start: i64, end: i64, step: i64) -> RangeType {
    match range_new(BigInt::from(start), Some(BigInt::from(end)), Some(BigInt::from(step))) {
        Ok(rt) => rt,
        Err(_) => panic!("construction unexpectedly failed"),
    }
}

fn drain(mut cursor: RangeCursor) -> Vec<BigInt> {
    let mut out = Vec::new();
    loop {
        match cursor.pull() {
            PullEvent::Value(v) => out.push(v),
            PullEvent::Exhausted => break,
            PullEvent::Failed(_) => panic!("a progression cursor never fails"),
        }
    }
    out
}

fn ints(values: &[i64]) -> Vec<BigInt> {
    values.iter().map(|&v| BigInt::from(v)).collect()
}

#[test]
fn forward_unit_scenario() {
    let rt = make(0, 10, 1);
    assert_eq!(range_len(&rt), Ok(10));
    assert_eq!(drain(range_iter(&rt)), ints(&[0, 1, 2, 3, 4, 5, 6, 7, 8, 9]));
    assert!(range_contains(&rt, &ArgValue::Int(BigInt::from(5))));
    assert_eq!(range_index(&rt, &ArgValue::Int(BigInt::from(5))), Ok(BigInt::from(5)));
    assert!(!range_contains(&rt, &ArgValue::Int(BigInt::from(10))));
}

#[test]
fn backward_two_scenario() {
    let rt = make(10, 0, -2);
    assert_eq!(drain(range_iter(&rt)), ints(&[10, 8, 6, 4, 2]));
    assert_eq!(drain(range_reversed(&rt)), ints(&[2, 4, 6, 8, 10]));
}

#[test]
fn forward_three_scenario() {
    let rt = make(0, 10, 3);
    assert_eq!(drain(range_iter(&rt)), ints(&[0, 3, 6, 9]));
    assert_eq!(drain(range_reversed(&rt)), ints(&[9, 6, 3, 0]));
}

#[test]
fn zero_step_is_domain_error() {
    let r = range_new(BigInt::from(0), Some(BigInt::from(5)), Some(BigInt::from(0)));
    assert!(matches!(r, Err(ErrorKind::DomainError)));
}

#[test]
fn index_of_missing_value_error() {
    let rt = make(0, 5, 1);
    assert_eq!(range_index(&rt, &ArgValue::Int(BigInt::from(10))), Err(ErrorKind::ValueError));
}

#[test]
fn index_of_non_integer_value_error() {
    let rt = make(0, 5, 1);
    assert_eq!(range_index(&rt, &ArgValue::Other), Err(ErrorKind::ValueError));
}

#[test]
fn single_argument_convention() {
    let rt = match range_new(BigInt::from(4), None, None) {
        Ok(rt) => rt,
        Err(_) => panic!("construction unexpectedly failed"),
    };
    assert_eq!(drain(range_iter(&rt)), ints(&[0, 1, 2, 3]));
}

#[test]
fn length_counts_drained_values() {
    for (start, end, step) in
        [(0, 10, 1), (10, 0, -2), (0, 10, 3), (5, 5, 1), (0, 10, -1), (7, -8, -3)] {
        let rt = make(start, end, step);
        let n = match range_len(&rt) {
            Ok(n) => n,
            Err(_) => panic!("small progressions have representable lengths"),
        };
        assert_eq!(n, drain(range_iter(&rt)).len());
    }
}

#[test]
fn reversed_drains_reverse() {
    for (start, end, step) in [(0, 10, 1), (10, 0, -2), (0, 10, 3), (3, 30, 4), (-5, 6, 2)] {
        let rt = make(start, end, step);
        let mut forward_values = drain(range_iter(&rt));
        forward_values.reverse();
        assert_eq!(drain(range_reversed(&rt)), forward_values);
    }
}

#[test]
fn reversed_remainder_rule_with_negative_step() {
    // a negative step that leaves a remainder: the remainder rule takes
    // the remainder's magnitude, so the reversal starts at end - 1
    // rather than at the true last element; this documented behaviour
    // is preserved as-is
    let rt = make(10, 0, -3);
    assert_eq!(drain(range_iter(&rt)), ints(&[10, 7, 4, 1]));
    assert_eq!(drain(range_reversed(&rt)), ints(&[-1, 2, 5, 8]));
}

#[test]
fn contains_index_element_roundtrip() {
    let rt = make(3, 30, 4);
    for v in [3i64, 7, 15, 27] {
        assert!(range_contains(&rt, &ArgValue::Int(BigInt::from(v))));
        let idx = match range_index(&rt, &ArgValue::Int(BigInt::from(v))) {
            Ok(idx) => idx,
            Err(_) => panic!("a contained value has an index"),
        };
        match range_getitem(&rt, Subscript::Int(idx)) {
            Ok(GotItem::Element(got)) => assert_eq!(got, BigInt::from(v)),
            _ => panic!("the index of a contained value resolves"),
        }
    }
    for v in [4i64, 2, 31, -1] {
        assert!(!range_contains(&rt, &ArgValue::Int(BigInt::from(v))));
        assert_eq!(range_index(&rt, &ArgValue::Int(BigInt::from(v))), Err(ErrorKind::ValueError));
    }
}

#[test]
fn index_of_with_negative_step() {
    let rt = make(10, 0, -2);
    assert_eq!(range_index(&rt, &ArgValue::Int(BigInt::from(4))), Ok(BigInt::from(3)));
    assert_eq!(range_index(&rt, &ArgValue::Int(BigInt::from(5))), Err(ErrorKind::ValueError));
    assert_eq!(range_index(&rt, &ArgValue::Int(BigInt::from(0))), Err(ErrorKind::ValueError));
}

#[test]
fn contains_rejects_non_integer() {
    let rt = make(0, 10, 1);
    assert!(!range_contains(&rt, &ArgValue::Other));
}

#[test]
fn getitem_integer_bounds() {
    let rt = make(10, 0, -2);
    match range_getitem(&rt, Subscript::Int(BigInt::from(3))) {
        Ok(GotItem::Element(v)) => assert_eq!(v, BigInt::from(4)),
        _ => panic!("index 3 is in bounds"),
    }
    assert!(matches!(
        range_getitem(&rt, Subscript::Int(BigInt::from(5))),
        Err(ErrorKind::BoundsError)
    ));
    assert!(matches!(
        range_getitem(&rt, Subscript::Int(BigInt::from(-1))),
        Err(ErrorKind::BoundsError)
    ));
    assert!(matches!(range_getitem(&rt, Subscript::Other), Err(ErrorKind::TypeError)));
}

#[test]
fn slice_matches_direct_indexing() {
    let rt = make(0, 10, 3);
    for i in 0i64..4 {
        let sliced = range_getitem(
            &rt,
            Subscript::Slice {
                start: Some(BigInt::from(i)),
                stop: Some(BigInt::from(i + 1)),
                step: Some(BigInt::from(1)),
            },
        );
        let sub = match sliced {
            Ok(GotItem::SubRange(sub)) => sub,
            _ => panic!("slicing always builds a progression"),
        };
        let expected = match range_getitem(&rt, Subscript::Int(BigInt::from(i))) {
            Ok(GotItem::Element(v)) => v,
            _ => panic!("index in bounds"),
        };
        assert_eq!(drain(range_iter(&sub)), vec![expected]);
    }
}

#[test]
fn slice_out_of_bounds_falls_back() {
    let rt = make(0, 10, 1);
    let sliced = range_getitem(
        &rt,
        Subscript::Slice {
            start: Some(BigInt::from(50)),
            stop: None,
            step: Some(BigInt::from(2)),
        },
    );
    let sub = match sliced {
        Ok(GotItem::SubRange(sub)) => sub,
        _ => panic!("slicing always builds a progression"),
    };
    assert_eq!(drain(range_iter(&sub)), ints(&[0, 2, 4, 6, 8]));
}

#[test]
fn empty_progressions() {
    for (start, end, step) in [(5, 5, 1), (0, 10, -1), (10, 0, 3)] {
        let rt = make(start, end, step);
        assert_eq!(range_len(&rt), Ok(0));
        assert!(!range_bool(&rt));
        assert_eq!(drain(range_iter(&rt)), ints(&[]));
    }
    assert!(range_bool(&make(0, 1, 1)));
}

#[test]
fn length_overflow_error() {
    let huge = BigInt::from(1u8) << 100;
    let r = match range_new(BigInt::from(0), Some(huge), Some(BigInt::from(1))) {
        Ok(rt) => rt,
        Err(_) => panic!("construction unexpectedly failed"),
    };
    assert_eq!(range_len(&r), Err(ErrorKind::OverflowError));
}

#[test]
fn repr_two_and_three_argument_forms() {
    assert_eq!(range_repr(&make(0, 10, 1)), "range(0, 10)");
    assert_eq!(range_repr(&make(0, 10, 3)), "range(0, 10, 3)");
    assert_eq!(range_repr(&make(10, -2, -2)), "range(10, -2, -2)");
}

#[test]
fn cursor_exhaustion_is_terminal() {
    let rt = make(0, 2, 1);
    let mut cursor = range_iter(&rt);
    assert!(matches!(cursor.pull(), PullEvent::Value(_)));
    assert!(matches!(cursor.pull(), PullEvent::Value(_)));
    assert!(matches!(cursor.pull(), PullEvent::Exhausted));
    assert!(matches!(cursor.pull(), PullEvent::Exhausted));
}

#[test]
fn fresh_cursors_restart() {
    let rt = make(0, 3, 1);
    let mut first = range_iter(&rt);
    while let PullEvent::Value(_) = first.pull() {}
    assert_eq!(drain(range_iter(&rt)), ints(&[0, 1, 2]));
}

#[test]
fn negative_index_is_out_of_bounds() {
    let rt = make(0, 10, 1);
    assert!(matches!(
        range_getitem(&rt, Subscript::Int(BigInt::from(-3))),
        Err(ErrorKind::BoundsError)
    ));
}

#[test]
fn payload_unwrap_returns_the_progression() {
    let payload = PyPayload::RangeVal(make(2, 9, 2));
    let rt = get_range(&payload);
    assert_eq!(drain(range_iter(rt)), ints(&[2, 4, 6, 8]));
}

#[test]
fn arbitrary_precision_membership() {
    let base: BigInt = BigInt::from(1u8) << 90;
    let rt = match range_new(
        BigInt::from(0),
        Some(BigInt::from(1u8) << 100),
        Some(base.clone()),
    ) {
        Ok(rt) => rt,
        Err(_) => panic!("construction unexpectedly failed"),
    };
    let member: BigInt = &base * 3;
    let outsider: BigInt = &base * 3 + 1;
    assert!(range_contains(&rt, &ArgValue::Int(member.clone())));
    assert_eq!(range_index(&rt, &ArgValue::Int(member)), Ok(BigInt::from(3)));
    assert!(!range_contains(&rt, &ArgValue::Int(outsider)));
}
