use atri_login::codec::{emit_device, parse_device};
use atri_login::identity::{DeviceIdentity, OsVersion};
use atri_login::store::{
    compat_device_file_name, compat_file_contents, device_file_contents, device_file_name,
    qr_image_file_name, resolve_device, token_file_name,
};

fn small_identity() -> DeviceIdentity {
    DeviceIdentity {
        display: "D".to_string(),
        product: "P".to_string(),
        device: "dev".to_string(),
        board: "B".to_string(),
        model: "M".to_string(),
        finger_print: "FP".to_string(),
        boot_id: "BI".to_string(),
        proc_version: "PV".to_string(),
        imei: "123".to_string(),
        brand: "BR".to_string(),
        bootloader: "BL".to_string(),
        base_band: "".to_string(),
        version: OsVersion {
            incremental: "5891938".to_string(),
            release: "10".to_string(),
            codename: "REL".to_string(),
            sdk: 29,
        },
        sim_info: "SI".to_string(),
        os_type: "android".to_string(),
        mac_address: "00:50:56:C0:00:08".to_string(),
        wifi_bssid: "00:50:56:C0:00:08".to_string(),
        wifi_ssid: "<unknown ssid>".to_string(),
        imsi_md5: (0u8..16).collect(),
        apn: "wifi".to_string(),
    }
}

#[test]
fn canonical_document_is_exactly_as_specified() {
    let doc = emit_device(&small_identity());
    let expected = "{\n  \"display\": \"D\",\n  \"product\": \"P\",\n  \"device\": \"dev\",\n  \"board\": \"B\",\n  \"model\": \"M\",\n  \"finger_print\": \"FP\",\n  \"boot_id\": \"BI\",\n  \"proc_version\": \"PV\",\n  \"imei\": \"123\",\n  \"brand\": \"BR\",\n  \"bootloader\": \"BL\",\n  \"base_band\": \"\",\n  \"version\": {\n    \"incremental\": \"5891938\",\n    \"release\": \"10\",\n    \"codename\": \"REL\",\n    \"sdk\": 29\n  },\n  \"sim_info\": \"SI\",\n  \"os_type\": \"android\",\n  \"mac_address\": \"00:50:56:C0:00:08\",\n  \"wifi_bssid\": \"00:50:56:C0:00:08\",\n  \"wifi_ssid\": \"<unknown ssid>\",\n  \"imsi_md5\": [0, 1, 2, 3, 4, 5, 6, 7, 8, 9, 10, 11, 12, 13, 14, 15],\n  \"apn\": \"wifi\"\n}";
    assert_eq!(doc, expected);
}

#[test]
fn canonical_document_is_valid_json() {
    let doc = device_file_contents(&small_identity());
    let v: serde_json::Value = serde_json::from_str(&doc).expect("must be valid JSON");
    assert_eq!(v["display"], "D");
    assert_eq!(v["finger_print"], "FP");
    assert_eq!(v["version"]["sdk"], 29);
    assert_eq!(v["version"]["incremental"], "5891938");
    assert_eq!(v["imsi_md5"][0], 0);
    assert_eq!(v["imsi_md5"][15], 15);
    assert_eq!(v["imsi_md5"].as_array().unwrap().len(), 16);
    assert_eq!(v["apn"], "wifi");
}

#[test]
fn compat_document_is_valid_json_with_hex_imsi() {
    let doc = compat_file_contents(&small_identity());
    let v: serde_json::Value = serde_json::from_str(&doc).expect("must be valid JSON");
    assert_eq!(v["deviceInfoVersion"], 2);
    assert_eq!(v["data"]["imsiMd5"], "000102030405060708090a0b0c0d0e0f");
    assert_eq!(v["data"]["fingerprint"], "FP");
    assert_eq!(v["data"]["bootId"], "BI");
    assert_eq!(v["data"]["procVersion"], "PV");
    assert_eq!(v["data"]["baseBand"], "");
    assert_eq!(v["data"]["simInfo"], "SI");
    assert_eq!(v["data"]["osType"], "android");
    assert_eq!(v["data"]["macAddress"], "00:50:56:C0:00:08");
    assert_eq!(v["data"]["wifiBSSID"], "00:50:56:C0:00:08");
    assert_eq!(v["data"]["wifiSSID"], "<unknown ssid>");
    assert_eq!(v["data"]["version"]["sdk"], 29);
}

#[test]
fn persist_and_load_round_trip() {
    let d = small_identity();
    let doc = emit_device(&d);
    let parsed = parse_device(&doc).expect("canonical document must parse");
    assert_eq!(parsed, d);
}

#[test]
fn load_or_create_idempotence() {
    let d = small_identity();
    let doc = device_file_contents(&d);
    let fresh1 = atri_login::identity::fresh_random_identity();
    let (first, persist1) = resolve_device(Some(&doc), fresh1);
    assert!(!persist1);
    assert_eq!(first, d);
    // a second load of the same contents yields the identical value
    let fresh2 = atri_login::identity::fresh_random_identity();
    let (second, persist2) = resolve_device(Some(&doc), fresh2);
    assert!(!persist2);
    assert_eq!(second, first);
}

#[test]
fn deleting_the_file_regenerates() {
    let d = small_identity();
    let fresh = atri_login::identity::fresh_random_identity();
    let fresh_copy = fresh.duplicate();
    let (got, persist) = resolve_device(None, fresh);
    assert!(persist);
    assert_eq!(got, fresh_copy);
    assert_ne!(got, d);
}

#[test]
fn corruption_tolerance() {
    let d = small_identity();
    let doc = emit_device(&d);
    let corrupt: Vec<String> = vec![
        String::new(),
        "{".to_string(),
        doc[..doc.len() - 2].to_string(),
        doc.replace("imei", "imie"),
        format!("{} ", doc),
        "not json at all".to_string(),
        doc.replace("29", "029"),
    ];
    for c in corrupt {
        let fresh = atri_login::identity::fresh_random_identity();
        let fresh_copy = fresh.duplicate();
        let (got, persist) = resolve_device(Some(&c), fresh);
        assert!(persist, "corrupt contents must regenerate: {:?}", c);
        assert_eq!(got, fresh_copy);
    }
}

#[test]
fn fresh_identity_survives_the_store_round_trip() {
    let fresh = atri_login::identity::fresh_random_identity();
    let doc = device_file_contents(&fresh);
    let parsed = parse_device(&doc).expect("generated identities are canonical");
    assert_eq!(parsed, fresh);
}

#[test]
fn store_file_names_are_fixed() {
    assert_eq!(device_file_name(), "device.json");
    assert_eq!(compat_device_file_name(), "device.mirai.json");
    assert_eq!(token_file_name(), "token.json");
    assert_eq!(qr_image_file_name(), "qr.png");
}
