use sid::{new_oid, parse, render_labeled, short_labeled, NoLabel, Oid};
use std::cmp::Ordering;
use std::time::SystemTime;

#[test]
fn it_works() {
    let bytes = [1u8, 2, 3, 4, 5, 6, 7, 8, 9, 10, 11, 12, 13, 14, 15, 16];
    let sid = Oid::from_bytes(bytes);
    println!("{}", short_labeled("team", &sid));
    println!("{}", sid.render());
    assert_eq!(sid.render(), "01081g81860w40j2gb1g6g_w3rg");
    assert_eq!(short_labeled("team", &sid), "team_w3rg");
}

#[test]
fn test_null() {
    let sid = Oid::null();
    println!("{}", short_labeled("team", &sid));
    println!("{}", sid.render());
    assert_eq!(sid.render(), "0000000000000000000000_0000");
    assert_eq!(short_labeled("team", &sid), "team_0000");
    let sid = Oid::null();
    assert_eq!(sid.render(), "0000000000000000000000_0000");
}

#[test]
fn lib_test_null() {
    let oid = Oid::null();
    println!("{}", short_labeled("team", &oid));
    println!("{}", render_labeled("team", &oid));
    assert_eq!(render_labeled("team", &oid), "team_0000000000000000000000_0000");
    assert_eq!(short_labeled("team", &oid), "team_0000");
    let oid = Oid::null();
    assert_eq!(render_labeled(NoLabel::label(), &oid), "0000000000000000000000_0000");
}

#[test]
fn test_uuid() {
    let bytes = [1u8, 2, 3, 4, 5, 6, 7, 8, 9, 10, 11, 12, 13, 14, 15, 16];
    let sid = Oid::from_bytes(bytes);
    let uuid: uuid::Uuid = sid.uuid();
    assert_eq!(uuid.to_string(), "01020304-0506-0708-090a-0b0c0d0e0f10");
    let uuid2 = sid.uuid();
    assert_eq!(uuid, uuid2);
}

#[test]
fn test_macro() {
    let oid: Oid = parse("team_0000000000000000000000_0000").unwrap();
    assert!(oid.is_null(), "{}", oid.render());
    let oid: Oid = parse("team_0000000000000000000000_0000").unwrap();
    assert!(oid.is_null(), "{}", oid.render());
    let oid: Oid = parse("team_0da0fa0e02cssbhkanf04c_srb0").unwrap();
    println!("{:?}", oid.data());
    assert_eq!(render_labeled("team", &oid), "team_0da0fa0e02cssbhkanf04c_srb0");
}

#[test]
fn lib_test_macro() {
    let sid: Oid = parse("team_0000000000000000000000_0000").unwrap();
    assert!(sid.is_null(), "{}", sid.render());
    let sid: Oid = parse("team_0000000000000000000000_0000").unwrap();
    assert!(sid.is_null(), "{}", sid.render());
    let sid: Oid = parse("team_0da0fa0e02cssbhkanf04c_srb0").unwrap();
    assert_eq!(sid.render(), "0da0fa0e02cssbhkanf04c_srb0");
}

#[test]
fn test_size() {
    assert_eq!(std::mem::size_of::<Oid>(), 16);
}

#[test]
fn test_sort() {
    let ts = SystemTime::now()
        .duration_since(SystemTime::UNIX_EPOCH)
        .unwrap()
        .as_millis() as u64;
    let ts2 = ts + 1;
    let ts3 = ts + 2;
    let sid1 = Oid::from_timestamp_and_random(ts, rand::random(), rand::random());
    let sid2 = Oid::from_timestamp_and_random(ts2, rand::random(), rand::random());
    let sid3 = Oid::from_timestamp_and_random(ts3, rand::random(), rand::random());
    let mut sids = vec![sid3.clone(), sid1.clone(), sid2.clone()];
    sids.sort();
    assert_eq!(sids, vec![sid1, sid2, sid3]);
}

#[test]
fn new_oid_uses_the_clock() {
    let before = SystemTime::now()
        .duration_since(SystemTime::UNIX_EPOCH)
        .unwrap()
        .as_millis() as u64;
    let oid = new_oid().unwrap();
    let after = SystemTime::now()
        .duration_since(SystemTime::UNIX_EPOCH)
        .unwrap()
        .as_millis() as u64;
    let stamp = oid.timestamp_millis();
    assert!(before <= stamp && stamp <= after);
    assert_eq!(NoLabel::label(), "");
    assert!(NoLabel::oid().is_some());
}

#[test]
fn timestamp_reads_the_high_bytes() {
    let bytes = [1u8, 2, 3, 4, 5, 6, 7, 8, 9, 10, 11, 12, 13, 14, 15, 16];
    let oid = Oid::from_bytes(bytes);
    assert_eq!(oid.timestamp_millis(), 0x010203040506);
    assert_eq!(oid.timestamp(), 0x0102030405060708);
}

#[test]
fn layout_concrete() {
    let oid = Oid::from_timestamp_and_random(0x010203040506, 0x0708, 0x090a0b0c0d0e0f10);
    assert_eq!(
        oid.into_bytes(),
        [1u8, 2, 3, 4, 5, 6, 7, 8, 9, 10, 11, 12, 13, 14, 15, 16]
    );
    assert_eq!(oid.timestamp_millis(), 0x010203040506);
}

#[test]
fn increment_carries() {
    let mut bytes = [0u8; 16];
    bytes[15] = 255;
    bytes[14] = 255;
    bytes[13] = 7;
    let oid = Oid::from_bytes(bytes);
    let next = oid.increment();
    let mut expected = [0u8; 16];
    expected[13] = 8;
    assert_eq!(next.into_bytes(), expected);
    let almost_max = {
        let mut b = [255u8; 16];
        b[0] = 254;
        Oid::from_bytes(b)
    };
    let mut max_expected = [0u8; 16];
    max_expected[0] = 255;
    assert_eq!(almost_max.increment().into_bytes(), max_expected);
}

#[test]
fn compare_orders_bytewise() {
    let a = Oid::from_bytes([1u8, 2, 3, 4, 5, 6, 7, 8, 9, 10, 11, 12, 13, 14, 15, 16]);
    let b = a.increment();
    assert_eq!(a.compare(&b), Ordering::Less);
    assert_eq!(b.compare(&a), Ordering::Greater);
    assert_eq!(a.compare(&a.clone()), Ordering::Equal);
    assert!(a.render() < b.render());
}

#[test]
fn null_and_max_queries() {
    assert!(Oid::null().is_null());
    assert!(!Oid::null().is_max());
    assert!(Oid::from_bytes([255u8; 16]).is_max());
    assert!(!Oid::from_bytes([1u8; 16]).is_null());
    assert_eq!(Oid::null().data(), &[0u8; 16]);
    assert_eq!(Oid::null().short(), "0000");
}
