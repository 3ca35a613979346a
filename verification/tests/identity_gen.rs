use atri_login::identity::{entropy_bytes_needed, fresh_random_identity, generate_identity};

#[test]
fn zero_entropy_gives_the_expected_identity() {
    let e = vec![0u8; entropy_bytes_needed()];
    let d = generate_identity(&e);
    assert_eq!(d.display, "RICQ.100000.001");
    assert_eq!(
        d.finger_print,
        "xiaomi/iarim/sagit:10/eomam.200122.001/1000000:user/release-keys"
    );
    assert_eq!(d.boot_id, "00000000-0000-0000-0000-000000000000");
    assert_eq!(d.proc_version, "Linux 5.4.0-54-generic-00000000 (android-build@google.com)");
    assert_eq!(d.imei, "000000000000000");
    assert_eq!(d.imsi_md5, vec![0u8; 16]);
    assert_eq!(d.product, "iarim");
    assert_eq!(d.device, "sagit");
    assert_eq!(d.board, "eomam");
    assert_eq!(d.model, "MI 6");
    assert_eq!(d.brand, "Xiaomi");
    assert_eq!(d.bootloader, "U-boot");
    assert_eq!(d.base_band, "");
    assert_eq!(d.sim_info, "T-Mobile");
    assert_eq!(d.os_type, "android");
    assert_eq!(d.mac_address, "00:50:56:C0:00:08");
    assert_eq!(d.wifi_bssid, "00:50:56:C0:00:08");
    assert_eq!(d.wifi_ssid, "<unknown ssid>");
    assert_eq!(d.apn, "wifi");
    assert_eq!(d.version.incremental, "5891938");
    assert_eq!(d.version.release, "10");
    assert_eq!(d.version.codename, "REL");
    assert_eq!(d.version.sdk, 29);
}

#[test]
fn imei_control_digit_follows_the_checksum() {
    // entropy whose fourteen IMEI bytes are 1, 2, 3, ..., 14
    let mut e = vec![0u8; entropy_bytes_needed()];
    for i in 0..14 {
        e[28 + i] = (i as u8) + 1;
    }
    let d = generate_identity(&e);
    // digits at even positions are doubled with their decimal digits
    // folded together: 1,2,3,... -> 2,2,6,4,1,6,5,8,9,0,2,2,6,4
    assert_eq!(&d.imei[..14], "22641658902264");
    // the control digit is (sum * 9) % 10; sum = 57, so 513 % 10 = 3
    assert_eq!(&d.imei[14..], "3");
    assert_eq!(d.imei.len(), 15);
}

#[test]
fn entropy_drives_the_serials() {
    let mut e = vec![0u8; entropy_bytes_needed()];
    // display serial: big-endian word 0..4, here 1, so 100000 + 1
    e[3] = 1;
    // build serial: word 4..8, here 256, so 1000000 + 256
    e[6] = 1;
    // kernel tag: bytes 24..28 in hex
    e[24] = 0xDE;
    e[25] = 0xAD;
    e[26] = 0xBE;
    e[27] = 0xEF;
    let d = generate_identity(&e);
    assert_eq!(d.display, "RICQ.100001.001");
    assert_eq!(
        d.finger_print,
        "xiaomi/iarim/sagit:10/eomam.200122.001/1000256:user/release-keys"
    );
    assert_eq!(d.proc_version, "Linux 5.4.0-54-generic-deadbeef (android-build@google.com)");
}

#[test]
fn fresh_identities_have_the_generated_shape() {
    let d = fresh_random_identity();
    assert!(d.display.starts_with("RICQ."));
    assert!(d.display.ends_with(".001"));
    assert_eq!(d.imei.len(), 15);
    assert!(d.imei.chars().all(|c| c.is_ascii_digit()));
    assert_eq!(d.imsi_md5.len(), 16);
    assert_eq!(d.boot_id.len(), 36);
    assert_eq!(d.product, "iarim");
}
