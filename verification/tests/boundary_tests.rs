use canabi::boundary::{Color, ComplexRecord, Figure, Guest, Permissions, UserData};
use canabi::wire::check_utf8;

#[test]
fn process_string_stores_the_value() {
    let mut g = Guest::new();
    assert_eq!(g.last, Vec::<u8>::new());
    g.process_string(b"state".to_vec());
    assert_eq!(g.last, b"state".to_vec());
    g.process_string(b"next".to_vec());
    assert_eq!(g.last, b"next".to_vec());
}

#[test]
fn roundtrip_string_prefixes_the_reply() {
    let r = Guest::roundtrip_string(&b"world".to_vec());
    assert_eq!(r, b"Guest says: world".to_vec());
    let empty = Guest::roundtrip_string(&Vec::new());
    assert_eq!(empty, b"Guest says: ".to_vec());
}

#[test]
fn create_data_is_the_sample_record() {
    let d = Guest::create_data();
    assert_eq!(d.a, 123);
    assert_eq!(d.b, b"hello from guest".to_vec());
    assert_eq!(d.c, vec![10u32, 20, 30]);
}

#[test]
fn handle_option_maps_length_and_keeps_absence() {
    assert_eq!(Guest::handle_option(&Some(b"hello".to_vec())), Some(5));
    assert_eq!(Guest::handle_option(&Some(Vec::new())), Some(0));
    assert_eq!(Guest::handle_option(&None), None);
}

#[test]
fn handle_result_maps_ok_and_passes_every_error() {
    assert_eq!(Guest::handle_result(&Ok(b"four".to_vec())), Ok(4));
    assert_eq!(Guest::handle_result(&Err(Color::Red)), Err(Color::Red));
    assert_eq!(Guest::handle_result(&Err(Color::Green)), Err(Color::Green));
    assert_eq!(Guest::handle_result(&Err(Color::Blue)), Err(Color::Blue));
}

#[test]
fn handle_permissions_names_the_set_flags_in_order() {
    let all = Permissions { read: true, write: true, execute: true };
    assert_eq!(
        Guest::handle_permissions(all),
        vec![b"read".to_vec(), b"write".to_vec(), b"execute".to_vec()]
    );
    let none = Permissions { read: false, write: false, execute: false };
    assert_eq!(Guest::handle_permissions(none), Vec::<Vec<u8>>::new());
    let wx = Permissions { read: false, write: true, execute: true };
    assert_eq!(
        Guest::handle_permissions(wx),
        vec![b"write".to_vec(), b"execute".to_vec()]
    );
}

#[test]
fn process_users_returns_names_in_order() {
    let users = vec![
        UserData { a: 1, b: b"ada".to_vec(), c: vec![] },
        UserData { a: 2, b: b"grace".to_vec(), c: vec![7] },
    ];
    assert_eq!(
        Guest::process_users(&users),
        vec![b"ada".to_vec(), b"grace".to_vec()]
    );
    assert_eq!(Guest::process_users(&Vec::new()), Vec::<Vec<u8>>::new());
}

#[test]
fn complex_record_checksum_exact_value() {
    // id length 4, +100 for write, 2 children -> +2000, their a sum 1+2,
    // circle radius 7: 4 + 100 + 2000 + 3 + 7 = 2114.
    let r = ComplexRecord {
        id: b"abcd".to_vec(),
        permissions: Some(Permissions { read: true, write: true, execute: false }),
        child_data: vec![
            UserData { a: 1, b: b"x".to_vec(), c: vec![] },
            UserData { a: 2, b: b"y".to_vec(), c: vec![] },
        ],
        shape_info: Ok(Figure::Circle(7)),
    };
    assert_eq!(Guest::handle_complex_record(&r), 2114);
}

#[test]
fn complex_record_checksum_ignores_rect_and_errors() {
    let base = ComplexRecord {
        id: b"id".to_vec(),
        permissions: Some(Permissions { read: true, write: false, execute: true }),
        child_data: vec![],
        shape_info: Ok(Figure::Rect(5, 6)),
    };
    // Only the id length counts: no write bonus, no children, no circle.
    assert_eq!(Guest::handle_complex_record(&base), 2);
    let err = ComplexRecord {
        id: b"id".to_vec(),
        permissions: None,
        child_data: vec![],
        shape_info: Err(Color::Blue),
    };
    assert_eq!(Guest::handle_complex_record(&err), 2);
}

#[test]
fn utf8_checker_agrees_with_std() {
    let samples: Vec<Vec<u8>> = vec![
        b"".to_vec(),
        b"plain ascii".to_vec(),
        "déjà vu ✓ 🦀".as_bytes().to_vec(),
        vec![0xFF],
        vec![0x80],
        vec![0xC2],
        vec![0xC2, 0x20],
        vec![0xC2, 0xA0],
        vec![0xE0, 0x9F, 0x80],
        vec![0xE0, 0xA0, 0x80],
        vec![0xED, 0xA0, 0x80],
        vec![0xED, 0x9F, 0xBF],
        vec![0xF0, 0x8F, 0x80, 0x80],
        vec![0xF0, 0x90, 0x80, 0x80],
        vec![0xF4, 0x8F, 0xBF, 0xBF],
        vec![0xF4, 0x90, 0x80, 0x80],
        vec![0xF5, 0x80, 0x80, 0x80],
    ];
    for s in samples {
        assert_eq!(check_utf8(&s, 0), std::str::from_utf8(&s).is_ok());
    }
}
