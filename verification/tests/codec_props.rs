use xtrace::entry::{Address, UtmpEntry, UtmpError, UtmpTime};
use xtrace::ulity::{extract_string, hex_to_bytes};
use xtrace::utmp::Utmp;
use xtrace::take_one_record;

fn pad_to(bytes: &[u8], width: usize) -> Vec<u8> {
    let mut v = bytes.to_vec();
    v.resize(width, 0);
    v
}

fn sample_record(ty: i32) -> Utmp {
    Utmp {
        ut_type: ty,
        ut_pid: -9527,
        ut_line: pad_to(b"pts/0", 32),
        ut_id: pad_to(b"ts/0", 4),
        ut_user: pad_to(b"opc", 32),
        ut_host: pad_to(b"110.184.136.217", 256),
        ut_termination: -2,
        ut_exit: 7,
        ut_session: -123456,
        ut_time_sec: 1627240661,
        ut_time_usec: 980439,
        ut_addr_v6: [0x0100007F, 0, 0, 0],
        __unused: pad_to(b"junk", 20),
    }
}

#[test]
fn round_trip_preserves_all_but_reserved() {
    let r = sample_record(7);
    let encoded = r.as_bytes_vec();
    let r2 = take_one_record(&encoded).unwrap();
    assert_eq!(r2.ut_type, r.ut_type);
    assert_eq!(r2.ut_pid, r.ut_pid);
    assert_eq!(r2.ut_line, r.ut_line);
    assert_eq!(r2.ut_id, r.ut_id);
    assert_eq!(r2.ut_user, r.ut_user);
    assert_eq!(r2.ut_host, r.ut_host);
    assert_eq!(r2.ut_termination, r.ut_termination);
    assert_eq!(r2.ut_exit, r.ut_exit);
    assert_eq!(r2.ut_session, r.ut_session);
    assert_eq!(r2.ut_time_sec, r.ut_time_sec);
    assert_eq!(r2.ut_time_usec, r.ut_time_usec);
    assert_eq!(r2.ut_addr_v6, r.ut_addr_v6);
    // The reserved bytes are lossy by design: they come back as zero.
    assert_eq!(r2.__unused, vec![0u8; 20]);
}

#[test]
fn encoded_size_is_always_384() {
    for ty in 0..12 {
        let r = sample_record(ty);
        assert_eq!(r.as_bytes_vec().len(), 384);
        assert_eq!(r.as_bytes().len(), 384);
    }
}

#[test]
fn decode_validates_record_type() {
    for ty in [12i32, -1, 999] {
        let bad = sample_record(ty).as_bytes_vec();
        assert_eq!(take_one_record(&bad).unwrap_err(), UtmpError::InvalidRecordType(ty));
    }
    for ty in 0..12 {
        let good = sample_record(ty).as_bytes_vec();
        assert_eq!(take_one_record(&good).unwrap().ut_type, ty);
    }
}

#[test]
fn extract_text_truncates_at_first_nul() {
    let mut field = vec![0u8; 256];
    field[0] = b'a';
    field[1] = b'b';
    field[2] = b'c';
    field[3] = 0;
    for (i, b) in b"garbage".iter().enumerate() {
        field[4 + i] = *b;
    }
    assert_eq!(extract_string(&field), "abc");

    // A field with no NUL is used in full.
    let full = vec![b'x'; 16];
    assert_eq!(extract_string(&full), "xxxxxxxxxxxxxxxx");

    assert_eq!(extract_string(&[]), "");
}

#[test]
fn address_derivation_cases() {
    let mut r = sample_record(7);

    r.ut_addr_v6 = [0, 0, 0, 0];
    let e = UtmpEntry::try_from(r).unwrap();
    assert_eq!(e.ipaddr, None);

    let mut r = sample_record(7);
    r.ut_addr_v6 = [0x0100007F, 0, 0, 0];
    let e = UtmpEntry::try_from(r).unwrap();
    match e.ipaddr {
        Some(Address::V4 { octets }) => assert_eq!(octets, [127, 0, 0, 1]),
        other => panic!("expected an IPv4 address, got {:?}", other),
    }

    let mut r = sample_record(7);
    r.ut_addr_v6 = [0x0100007F, 0x00000002, 0, 0xA0000000];
    let e = UtmpEntry::try_from(r).unwrap();
    match e.ipaddr {
        Some(Address::V6 { octets }) => assert_eq!(
            octets,
            [127, 0, 0, 1, 2, 0, 0, 0, 0, 0, 0, 0, 0, 0, 0, 0xA0]
        ),
        other => panic!("expected an IPv6 address, got {:?}", other),
    }
}

#[test]
fn classify_fills_all_fields() {
    let r = sample_record(7);
    let e = UtmpEntry::try_from(r).unwrap();
    assert_eq!(e.typeid, 7);
    assert_eq!(e.typestr, " 7 - USER_PROCESS");
    assert_eq!(e.pid, Some(-9527));
    assert_eq!(e.line.as_deref(), Some("pts/0"));
    assert_eq!(e.terminalid.as_deref(), Some("ts/0"));
    assert_eq!(e.username.as_deref(), Some("opc"));
    assert_eq!(e.hostname.as_deref(), Some("110.184.136.217"));
    assert_eq!(e.terminationstatus, Some(-2));
    assert_eq!(e.exitstatus, Some(7));
    assert_eq!(e.sessionid, Some(-123456));
    assert_eq!(e.time, Some(UtmpTime { seconds: 1627240661, micros: 980439 }));
}

#[test]
fn classify_rejects_invalid_type() {
    let r = sample_record(99);
    assert_eq!(UtmpEntry::try_from(r).unwrap_err(), UtmpError::InvalidRecordType(99));
}

#[test]
fn type_labels() {
    let labels = [
        " 0 - EMPTY",
        " 1 - RUN_LVL",
        " 2 - BOOT_TIME",
        " 3 - NEW_TIME",
        " 4 - OLD_TIME",
        " 5 - INIT_PROCESS",
        " 6 - LOGIN_PROCESS",
        " 7 - USER_PROCESS",
        " 8 - DEAD_PROCESS",
        " 9 - ACCOUNTING",
        "10 - SIGNATURE",
        "11 - SHUTDOWN_TIME",
    ];
    for ty in 0..12 {
        let e = UtmpEntry::try_from(sample_record(ty)).unwrap();
        assert_eq!(e.typestr, labels[ty as usize]);
    }
}

#[test]
fn union_code_is_base62_of_timestamp() {
    // 0 * (2^32 - 1) + 1337 = 1337, which is "LZ" in base 62.
    let mut r = sample_record(2);
    r.ut_time_sec = 0;
    r.ut_time_usec = 1337;
    let e = UtmpEntry::try_from(r).unwrap();
    assert_eq!(e.unioncode, "LZ");

    let mut r = sample_record(2);
    r.ut_time_sec = 0;
    r.ut_time_usec = 0;
    let e = UtmpEntry::try_from(r).unwrap();
    assert_eq!(e.unioncode, "0");

    // 1 * (2^32 - 1) + 0 = 4294967295 = "4gfFC3" in base 62.
    let mut r = sample_record(2);
    r.ut_time_sec = 1;
    r.ut_time_usec = 0;
    let e = UtmpEntry::try_from(r).unwrap();
    assert_eq!(e.unioncode, "4gfFC3");
}

#[test]
fn hex_to_bytes_edge_cases() {
    assert_eq!(hex_to_bytes(""), None);
    assert_eq!(hex_to_bytes("a"), None);
    assert_eq!(hex_to_bytes("abc"), None);
    assert_eq!(hex_to_bytes("zz"), None);
    assert_eq!(hex_to_bytes("0x"), Some(vec![]));
    assert_eq!(hex_to_bytes("0X7f"), Some(vec![0x7f]));
    assert_eq!(hex_to_bytes("FFff"), Some(vec![0xff, 0xff]));
    assert_eq!(hex_to_bytes("0xgg"), None);
}

#[test]
fn hex_to_bytes_signed_groups() {
    // Each two-character group is parsed as a radix-16 byte, which
    // admits a leading plus sign but no minus sign.
    assert_eq!(hex_to_bytes("+1"), Some(vec![1]));
    assert_eq!(hex_to_bytes("+f"), Some(vec![15]));
    assert_eq!(hex_to_bytes("0x+A"), Some(vec![10]));
    assert_eq!(hex_to_bytes("7f+1"), Some(vec![0x7f, 1]));
    assert_eq!(hex_to_bytes("-0"), None);
    assert_eq!(hex_to_bytes("-1"), None);
    assert_eq!(hex_to_bytes("++"), None);
    assert_eq!(hex_to_bytes("+g"), None);
    assert_eq!(hex_to_bytes("1+"), None);
}
