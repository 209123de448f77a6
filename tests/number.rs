use bifrost::store::number::{
    Number, NumberError, ADD_AND_GET, COMPARE_AND_SWAP, DIVIDE_AND_GET, GET, GET_AND_INCR, SET, SWAP,
};

#[test]
fn cas_swaps_on_match() {
    let mut n = Number::new(1, 5);
    assert_eq!(n.compare_and_swap(5, 9), 5);
    assert_eq!(n.get(), 9);
    assert_eq!(n.take_changes(), vec![(5, 9)]);
}

#[test]
fn cas_keeps_on_mismatch() {
    let mut n = Number::new(1, 5);
    assert_eq!(n.compare_and_swap(4, 9), 5);
    assert_eq!(n.get(), 5);
    assert!(n.take_changes().is_empty());
}

#[test]
fn snapshot_round_trip_on_fresh_instance() {
    for v in [-128i8, -1, 0, 1, 42, 127] {
        let n = Number::new(3, v);
        let snap = n.snapshot().unwrap();
        assert_eq!(snap, vec![v as u8]);
        let mut fresh = Number::new(3, 0);
        assert_eq!(fresh.recover(&snap), Ok(()));
        assert_eq!(fresh.get(), v);
    }
}

#[test]
fn recover_rejects_malformed() {
    let mut n = Number::new(3, 7);
    assert_eq!(n.recover(&vec![]), Err(NumberError::Malformed));
    assert_eq!(n.recover(&vec![1, 2]), Err(NumberError::Malformed));
    assert_eq!(n.get(), 7);
}

#[test]
fn get_then_op_and_op_then_get() {
    let mut n = Number::new(1, 10);
    assert_eq!(n.get_and_add(5), Ok(10));
    assert_eq!(n.add_and_get(5), Ok(20));
    assert_eq!(n.get_and_minus(3), Ok(20));
    assert_eq!(n.minus_and_get(7), Ok(10));
    assert_eq!(n.get_and_incr(), Ok(10));
    assert_eq!(n.incr_and_get(), Ok(12));
    assert_eq!(n.get_and_decr(), Ok(12));
    assert_eq!(n.decr_and_get(), Ok(10));
    assert_eq!(n.get_and_multiply(3), Ok(10));
    assert_eq!(n.multiply_and_get(2), Ok(60));
    assert_eq!(n.get_and_divide(7), Ok(60));
    assert_eq!(n.divide_and_get(-2), Ok(-4));
    assert_eq!(n.swap(100), -4);
    assert_eq!(n.get(), 100);
    assert_eq!(n.take_changes().len(), 13);
}

#[test]
fn division_truncates_toward_zero() {
    let mut n = Number::new(1, -7);
    assert_eq!(n.divide_and_get(2), Ok(-3));
}

#[test]
fn divide_by_zero_is_a_fault_without_mutation() {
    let mut n = Number::new(1, 10);
    assert_eq!(n.get_and_divide(0), Err(NumberError::DivideByZero));
    assert_eq!(n.divide_and_get(0), Err(NumberError::DivideByZero));
    assert_eq!(n.get(), 10);
    assert!(n.take_changes().is_empty());
}

#[test]
fn overflow_is_a_fault_without_mutation() {
    let mut n = Number::new(1, 127);
    assert_eq!(n.incr_and_get(), Err(NumberError::Overflow));
    assert_eq!(n.get(), 127);
    let mut m = Number::new(1, -128);
    assert_eq!(m.divide_and_get(-1), Err(NumberError::Overflow));
    assert_eq!(m.get_and_multiply(2), Err(NumberError::Overflow));
    assert_eq!(m.get(), -128);
}

#[test]
fn apply_dispatches_by_function_id() {
    let mut n = Number::new(1, 0);
    assert_eq!(n.apply(SET, &vec![42]), Ok(vec![]));
    assert_eq!(n.get(), 42);
    assert_eq!(n.apply(ADD_AND_GET, &vec![(-2i8) as u8]), Ok(vec![40]));
    assert_eq!(n.apply(GET_AND_INCR, &vec![]), Ok(vec![40]));
    assert_eq!(n.apply(COMPARE_AND_SWAP, &vec![41, 7]), Ok(vec![41]));
    assert_eq!(n.get(), 7);
    assert_eq!(n.apply(SWAP, &vec![1]), Ok(vec![7]));
    assert_eq!(n.apply(DIVIDE_AND_GET, &vec![0]), Err(NumberError::DivideByZero));
    assert_eq!(n.apply(SET, &vec![]), Err(NumberError::Malformed));
    assert_eq!(n.apply(COMPARE_AND_SWAP, &vec![1]), Err(NumberError::Malformed));
    assert_eq!(n.apply(GET, &vec![]), Err(NumberError::UnknownFunction));
    assert_eq!(n.apply(99, &vec![]), Err(NumberError::UnknownFunction));
    assert_eq!(n.get(), 1);
}

#[test]
fn query_reads_without_change() {
    let n = Number::new(1, -3);
    assert_eq!(n.query(GET, &vec![]), Ok(vec![(-3i8) as u8]));
    assert_eq!(n.query(SET, &vec![1]), Err(NumberError::UnknownFunction));
    assert_eq!(n.id(), 1);
}
