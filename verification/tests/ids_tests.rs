use mozaic::ids::{ReactorID, u64_from_be_bytes, u64_to_be_bytes};

#[test]
fn u64_big_endian_bytes_exact() {
    let b = u64_to_be_bytes(0x0102030405060708);
    assert_eq!(b, vec![1, 2, 3, 4, 5, 6, 7, 8]);
    let z = u64_to_be_bytes(0);
    assert_eq!(z, vec![0, 0, 0, 0, 0, 0, 0, 0]);
    let m = u64_to_be_bytes(u64::MAX);
    assert_eq!(m, vec![0xff; 8]);
}

#[test]
fn u64_wire_roundtrip() {
    for x in [0u64, 1, 255, 256, 0xdead_beef_cafe_f00d, u64::MAX] {
        let b = u64_to_be_bytes(x);
        assert_eq!(u64_from_be_bytes(&b), x);
    }
}

#[test]
fn reactor_id_wire_roundtrip() {
    let id = ReactorID { high: 0x1122334455667788, low: 0x99aabbccddeeff00 };
    let b = id.bytes();
    assert_eq!(b.len(), 16);
    assert_eq!(b[0], 0x11);
    assert_eq!(b[15], 0x00);
    let back = ReactorID::from_bytes(&b).unwrap();
    assert_eq!(back, id);
}

#[test]
fn reactor_id_rejects_short_blobs() {
    assert!(ReactorID::from_bytes(&[1, 2, 3]).is_none());
    assert!(ReactorID::from_bytes(&[0; 15]).is_none());
    assert!(ReactorID::from_bytes(&[0; 17]).is_none());
}

#[test]
fn fresh_ids_are_well_formed() {
    let a = ReactorID::rand();
    let b = ReactorID::from_bytes(&a.bytes()).unwrap();
    assert_eq!(a, b);
}
