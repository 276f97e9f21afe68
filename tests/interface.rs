use redshirt_core::interface::{Interface, InterfaceHash, InterfaceId};
use redshirt_core::signature::{EngineSignature, Signature, ValueType, WasmValue};
use redshirt_core::id_pool::IdPool;

#[test]
fn interface_hash_is_sha256_of_name() {
    let interface = Interface::new().with_name("foo".to_string()).build();
    let expected: [u8; 32] = [
        0x2c, 0x26, 0xb4, 0x6b, 0x68, 0xff, 0xc6, 0x8f, 0xf9, 0x9b, 0x45, 0x3c, 0x1d, 0x30, 0x41,
        0x34, 0x13, 0x42, 0x2d, 0x70, 0x64, 0x83, 0xbf, 0xa0, 0xf9, 0x8a, 0x5e, 0x88, 0x62, 0x66,
        0xe7, 0xae,
    ];
    assert_eq!(interface.hash().as_bytes(), &expected);
    assert_eq!(interface.name(), "foo");
}

#[test]
fn interface_builder_keeps_functions() {
    let interface = Interface::new()
        .with_function("f".to_string(), Signature::new(vec![ValueType::I32], None))
        .with_name("bar".to_string())
        .build();
    assert_eq!(interface.name(), "bar");
}

#[test]
fn module_name_in_base58_is_a_hash() {
    assert_eq!(InterfaceId::from_module_name(""), InterfaceId::from_hash(InterfaceHash::from_bytes([0; 32])));
    let mut one = [0u8; 32];
    one[31] = 1;
    assert_eq!(InterfaceId::from_module_name("2"), InterfaceId::from_hash(InterfaceHash::from_bytes(one)));
    let mut two = [0u8; 32];
    two[30] = 0x09;
    two[31] = 0x35;
    assert_eq!(InterfaceId::from_module_name("he"), InterfaceId::from_hash(InterfaceHash::from_bytes(two)));
}

#[test]
fn module_name_not_in_base58_is_a_name() {
    assert_eq!(InterfaceId::from_module_name("wasi_0"), InterfaceId::from_name("wasi_0"));
    let long = "1".repeat(33);
    assert_eq!(InterfaceId::from_module_name(&long), InterfaceId::from_name(&long));
}

#[test]
fn interface_ids_compare_by_content() {
    let a = InterfaceId::from_name("x");
    assert!(a.same_as(&InterfaceId::from_name("x")));
    assert!(!a.same_as(&InterfaceId::from_name("y")));
    assert!(!a.same_as(&InterfaceId::from_hash(InterfaceHash::from_bytes([0; 32]))));
    let h = InterfaceHash::from_bytes([3; 32]);
    assert!(h.same_as(&InterfaceHash::from_bytes([3; 32])));
    assert!(!h.same_as(&InterfaceHash::from_bytes([4; 32])));
}

#[test]
fn hash_from_slice_needs_32_bytes() {
    assert!(InterfaceHash::from_slice(&[1u8; 31]).is_none());
    assert!(InterfaceHash::from_slice(&[1u8; 33]).is_none());
    assert_eq!(InterfaceHash::from_slice(&[7u8; 32]).map(|h| *h.as_bytes()), Some([7u8; 32]));
}

#[test]
fn base58_hash_parsing() {
    assert_eq!(InterfaceHash::from_base58("11").map(|h| *h.as_bytes()), Some([0; 32]));
    assert!(InterfaceHash::from_base58("0OIl").is_none());
}

#[test]
fn base58_round_trip() {
    let mut bytes = [0u8; 32];
    bytes[0] = 0x12;
    bytes[31] = 0xfe;
    let hash = InterfaceHash::from_bytes(bytes);
    let text = hash.to_base58();
    assert_ne!(text.len(), 0);
    assert_eq!(InterfaceHash::from_base58(&text).map(|h| *h.as_bytes()), Some(bytes));
    assert_eq!(InterfaceHash::from_bytes([0; 32]).to_base58(), "1".repeat(32));
}

#[test]
fn signature_matching() {
    let sig = Signature::new(vec![ValueType::I32, ValueType::I64], Some(ValueType::F32));
    assert_eq!(sig.return_type(), Some(ValueType::F32));
    assert!(sig.matches_engine(&EngineSignature {
        params: vec![ValueType::I32, ValueType::I64],
        results: vec![ValueType::F32],
    }));
    assert!(!sig.matches_engine(&EngineSignature {
        params: vec![ValueType::I32],
        results: vec![ValueType::F32],
    }));
    assert!(!sig.matches_engine(&EngineSignature {
        params: vec![ValueType::I32, ValueType::I64],
        results: vec![],
    }));
    let void = Signature::new(vec![], None);
    assert!(void.matches_engine(&EngineSignature { params: vec![], results: vec![] }));
    assert!(!void.matches_engine(&EngineSignature { params: vec![], results: vec![ValueType::I32] }));
}

#[test]
fn values_and_types() {
    assert_eq!(WasmValue::F64(0).value_type(), ValueType::F64);
    assert_eq!(WasmValue::I64(-1).value_type(), ValueType::I64);
    assert!(redshirt_core::signature::fits(&vec![ValueType::I32], &Some(WasmValue::I32(0))));
    assert!(!redshirt_core::signature::fits(&vec![ValueType::I32], &None));
    assert!(redshirt_core::signature::fits(&vec![], &None));
}

#[test]
fn id_pool_counts_from_one() {
    let mut pool = IdPool::new();
    assert!(pool.has_available());
    assert_eq!(pool.assign(), 1);
    assert_eq!(pool.assign(), 2);
    assert_eq!(pool.assign(), 3);
}
