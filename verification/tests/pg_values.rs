use open_db_viewer::pg_values::{
    bit_string_to_text, bytea_to_text, hstore_to_fields, inet_parts, interval_to_text, ipv4_to_text,
    macaddr_to_text, money_to_text, prefix_to_text,
};

fn interval(micros: i64, days: i32, months: i32) -> String {
    let mut b = micros.to_be_bytes().to_vec();
    b.extend_from_slice(&days.to_be_bytes());
    b.extend_from_slice(&months.to_be_bytes());
    interval_to_text(&b).unwrap()
}

#[test]
fn bytea_as_hex() {
    assert_eq!(bytea_to_text(&vec![0xde, 0xad, 0x01]), "\\xdead01");
    assert_eq!(bytea_to_text(&vec![]), "\\x");
}

#[test]
fn mac_addresses() {
    assert_eq!(macaddr_to_text(&vec![8, 0, 0x2b, 1, 2, 3]), Some("08:00:2b:01:02:03".to_string()));
    assert_eq!(macaddr_to_text(&vec![1, 2, 3]), None);
}

#[test]
fn bit_strings() {
    assert_eq!(bit_string_to_text(&vec![0, 0, 0, 10, 0b1011_0000, 0b0100_0000]), Some("1011000001".to_string()));
    assert_eq!(bit_string_to_text(&vec![0, 0, 0, 0]), Some(String::new()));
    assert_eq!(bit_string_to_text(&vec![0, 0, 0, 9, 1]), None);
}

#[test]
fn network_addresses() {
    let v = inet_parts(&vec![2, 32, 0, 4, 192, 168, 0, 1]).unwrap();
    assert!(!v.is_v6);
    assert_eq!(ipv4_to_text(&v.address) + &prefix_to_text(&v), "192.168.0.1");
    let v = inet_parts(&vec![2, 24, 1, 4, 10, 0, 0, 0]).unwrap();
    assert_eq!(ipv4_to_text(&v.address) + &prefix_to_text(&v), "10.0.0.0/24");
    let v = inet_parts(&vec![2, 16, 0, 4, 10, 1, 2, 3]).unwrap();
    assert_eq!(prefix_to_text(&v), "/16");
    let mut six = vec![3, 128, 0, 16];
    six.extend_from_slice(&[0u8; 16]);
    let v = inet_parts(&six).unwrap();
    assert!(v.is_v6 && !v.show_prefix && v.address.len() == 16);
    assert!(inet_parts(&vec![2, 32, 0, 4, 1]).is_none());
}

#[test]
fn money_amounts() {
    assert_eq!(money_to_text(&123456i64.to_be_bytes().to_vec()), Some("$1,234.56".to_string()));
    assert_eq!(money_to_text(&(-5i64).to_be_bytes().to_vec()), Some("-$0.05".to_string()));
    assert_eq!(money_to_text(&100000000i64.to_be_bytes().to_vec()), Some("$1,000,000.00".to_string()));
    assert_eq!(money_to_text(&vec![1, 2]), None);
}

#[test]
fn intervals() {
    assert_eq!(interval(0, 0, 0), "00:00:00");
    assert_eq!(interval(0, 3, 14), "1 year 2 mons 3 days");
    assert_eq!(interval(((4 * 60 + 5) * 60 + 6) * 1_000_000 + 500_000, 1, 1), "1 mon 1 day 04:05:06.5");
    assert_eq!(interval(3_600_000_000, -1, 0), "-1 days +01:00:00");
    assert_eq!(interval(-90_000_000, 0, -12), "-1 years -00:01:30");
    assert_eq!(interval(1, 0, 0), "00:00:00.000001");
    assert_eq!(interval_to_text(&vec![0; 3]), None);
}

#[test]
fn hstore_fields() {
    let mut b = vec![0, 0, 0, 2];
    b.extend_from_slice(&[0, 0, 0, 1, b'a', 0, 0, 0, 1, b'1']);
    b.extend_from_slice(&[0, 0, 0, 1, b'b', 0xff, 0xff, 0xff, 0xff]);
    let fields = hstore_to_fields(&b).unwrap();
    assert_eq!(fields, vec![(b"a".to_vec(), Some(b"1".to_vec())), (b"b".to_vec(), None)]);
    assert_eq!(hstore_to_fields(&vec![0, 0, 0, 1, 0, 0]), None);
    assert_eq!(hstore_to_fields(&vec![0, 0, 0, 0]), Some(vec![]));
}
