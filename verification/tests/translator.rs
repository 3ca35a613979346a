use atri_login::identity::{DeviceIdentity, OsVersion};
use atri_login::mirai::{device_to_mirai, device_to_mirai_info, mirai_to_device, TranslateError};

fn sample_identity(imsi: Vec<u8>) -> DeviceIdentity {
    DeviceIdentity {
        display: "D".to_string(),
        product: "P".to_string(),
        device: "dev".to_string(),
        board: "B".to_string(),
        model: "M".to_string(),
        finger_print: "FP".to_string(),
        boot_id: "BI".to_string(),
        proc_version: "PV".to_string(),
        imei: "123".to_string(),
        brand: "BR".to_string(),
        bootloader: "BL".to_string(),
        base_band: "".to_string(),
        version: OsVersion {
            incremental: "5891938".to_string(),
            release: "10".to_string(),
            codename: "REL".to_string(),
            sdk: 29,
        },
        sim_info: "SI".to_string(),
        os_type: "android".to_string(),
        mac_address: "00:50:56:C0:00:08".to_string(),
        wifi_bssid: "00:50:56:C0:00:08".to_string(),
        wifi_ssid: "<unknown ssid>".to_string(),
        imsi_md5: imsi,
        apn: "wifi".to_string(),
    }
}

#[test]
fn imsi_md5_becomes_lowercase_hex() {
    let imsi = vec![
        0x04u8, 0xBB, 0x00, 0x01, 0x10, 0xAB, 0xCD, 0xEF, 0x12, 0x34, 0x56, 0x78, 0x9A, 0xFF,
        0x0E, 0xA0,
    ];
    let d = sample_identity(imsi);
    let m = device_to_mirai(&d);
    assert_eq!(m.imsi_md5, "04bb000110abcdef123456789aff0ea0");
    assert_eq!(m.imsi_md5.len(), 32);
    assert_eq!(m.fingerprint, "FP");
    assert_eq!(m.boot_id, "BI");
    assert_eq!(m.base_band, "");
    assert_eq!(m.version.sdk, 29);
}

#[test]
fn translation_round_trip_preserves_every_field() {
    let imsi: Vec<u8> = (0u8..16).map(|i| i.wrapping_mul(17).wrapping_add(3)).collect();
    let d = sample_identity(imsi);
    let m = device_to_mirai(&d);
    let back = mirai_to_device(&m).expect("round trip must succeed");
    assert_eq!(back, d);
}

#[test]
fn envelope_carries_schema_version_two() {
    let d = sample_identity(vec![0u8; 16]);
    let info = device_to_mirai_info(&d);
    assert_eq!(info.device_info_version, 2);
    assert_eq!(info.data, device_to_mirai(&d));
}

#[test]
fn malformed_hex_is_surfaced_not_substituted() {
    let d = sample_identity(vec![0u8; 16]);
    let mut m = device_to_mirai(&d);
    m.imsi_md5 = "zz".repeat(16);
    assert_eq!(mirai_to_device(&m), Err(TranslateError::ImsiHex));
    // uppercase digits are not the canonical form and are rejected too
    m.imsi_md5 = "04BB000110ABCDEF123456789AFF0EA0".to_string();
    assert_eq!(mirai_to_device(&m), Err(TranslateError::ImsiHex));
    // odd length
    m.imsi_md5 = "04b".to_string();
    assert_eq!(mirai_to_device(&m), Err(TranslateError::ImsiHex));
    // valid hex of the wrong length
    m.imsi_md5 = "04bb".to_string();
    assert_eq!(mirai_to_device(&m), Err(TranslateError::ImsiLength));
}

#[test]
fn hex_decoding_matches_encoding() {
    let bytes = vec![0u8, 255, 16, 1];
    let mut s = String::new();
    atri_login::text::push_hex(&mut s, &bytes);
    assert_eq!(s, "00ff1001");
    let decoded = atri_login::text::hex_to_bytes(&s).expect("valid hex");
    assert_eq!(decoded, bytes);
    assert!(atri_login::text::hex_to_bytes("0g").is_none());
    assert!(atri_login::text::hex_to_bytes("0").is_none());
}

#[test]
fn decimal_rendering_is_canonical() {
    let mut s = String::new();
    atri_login::text::push_dec(&mut s, 0);
    assert_eq!(s, "0");
    let mut s = String::new();
    atri_login::text::push_dec(&mut s, 4294967295);
    assert_eq!(s, "4294967295");
    let mut s = String::new();
    atri_login::text::push_dec(&mut s, 105);
    assert_eq!(s, "105");
}
