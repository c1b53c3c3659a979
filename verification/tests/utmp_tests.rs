use xtrace::ulity::{extract_string, hex_to_bytes};
use xtrace::utmp::Utmp;
use xtrace::{take_all_records, take_one_record};

// The first record of a real wtmp file, hex-encoded: a BOOT_TIME record
// whose host field holds the kernel version.
const UTMP0_HEX: &str = "02000000000000007e000000000000000000000000000000000000000000000000000000000000007e7e00007265626f6f740000000000000000000000000000000000000000000000000000352e342e31372d323130322e3230332e362e656c3875656b2e7838365f36340000000000000000000000000000000000000000000000000000000000000000000000000000000000000000000000000000000000000000000000000000000000000000000000000000000000000000000000000000000000000000000000000000000000000000000000000000000000000000000000000000000000000000000000000000000000000000000000000000000000000000000000000000000000000000000000000000000000000000000000000000000000000000000000000000000000000000000000000000000000000000000000000000000000000000000000000000000000e8b42561d7f50e00000000000000000000000000000000000000000000000000000000000000000000000000";

fn utmp_data() -> Vec<u8> {
    hex_to_bytes(UTMP0_HEX).unwrap()
}

#[test]
fn test_utmp_parser() {
    let data = utmp_data();
    let res = take_one_record(&data).ok().unwrap();
    assert_eq!(extract_string(&res.ut_host), "5.4.17-2102.203.6.el8uek.x86_64");

    let res2 = take_all_records(&data);
    for utmp_item in res2.iter() {
        println!(
            "ut_type: {:}\tut_host: {:40}\tut_time_sec: {}",
            utmp_item.ut_type,
            extract_string(&utmp_item.ut_host),
            utmp_item.ut_time_sec
        );
    }
    assert_eq!(res2.len(), data.len() / 384);
}

#[test]
fn test_utmp_asbytes() {
    let utmp0 = hex_to_bytes(UTMP0_HEX);
    let data = utmp_data();
    let res2 = take_all_records(&data);
    for (index, utmp_item) in res2.iter().enumerate() {
        println!("{:03}: {:?}", index, utmp_item);
        match index {
            0 => assert_eq!(&utmp_item.as_bytes_vec(), utmp0.as_ref().unwrap()),
            i => assert_eq!(utmp_item.as_bytes(), &data[384 * i..384 * (i + 1)]),
        }
    }
}

#[test]
fn test_utmp_record_debug_output() {
    let data = utmp_data();
    let res = take_one_record(&data).ok().unwrap();
    println!("{:#?}", res);
}

#[test]
fn test_ulity_hex2bytes() {
    let res = hex_to_bytes("0x3230332e362e656c3875656b2e783836");
    println!("{:?}", res);
    assert_eq!(
        res,
        Some(vec![50, 48, 51, 46, 54, 46, 101, 108, 56, 117, 101, 107, 46, 120, 56, 54])
    );
}

#[test]
fn test_utmp_record_block_size() {
    // One record always occupies exactly 384 bytes in its on-disk form.
    let data = utmp_data();
    let rec: Utmp = take_one_record(&data).ok().unwrap();
    assert_eq!(rec.as_bytes_vec().len(), 384);
    assert_eq!(rec.as_bytes().len(), 384);
}

#[test]
fn test_base62() {}
