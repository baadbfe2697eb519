use dice::complex::{UnpackedValue, Value, ValueOfComplex};

#[test]
fn test_unpack() {
    let x = Value { frozen: false, type_tag: 7, payload: b"test1".to_vec() };
    let y = Value { frozen: true, type_tag: 7, payload: b"test2".to_vec() };

    let vx = ValueOfComplex::unpack_value(x, 7).expect("same type tag");
    match vx.unpack() {
        UnpackedValue::Mutable(v) => assert_eq!(v.payload, b"test1".to_vec()),
        UnpackedValue::Frozen(_) => panic!("a mutable value must unpack as mutable"),
    }

    let vy = ValueOfComplex::unpack_value(y, 7).expect("same type tag");
    match vy.unpack() {
        UnpackedValue::Frozen(v) => assert_eq!(v.payload, b"test2".to_vec()),
        UnpackedValue::Mutable(_) => panic!("a frozen value must unpack as frozen"),
    }

    let z = Value { frozen: false, type_tag: 8, payload: b"test1".to_vec() };
    assert!(ValueOfComplex::unpack_value(z, 7).is_none());
}

#[test]
fn test_to_value() {
    let x = Value { frozen: true, type_tag: 2, payload: b"p".to_vec() };
    let vx = ValueOfComplex::unpack_value(x.clone(), 2).expect("same type tag");
    assert_eq!(vx.to_value(), x);
}
