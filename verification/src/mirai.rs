//! The identity format translator: a pure, bidirectional mapping between
//! the canonical [`DeviceIdentity`] schema and the alternate interchange
//! schema used by a compatible external ecosystem. All fields map verbatim
//! under renamed keys; the one value transform is the 16-byte pseudo-IMSI
//! hash, which becomes a lowercase 32-character hexadecimal string on
//! export and is parsed back on import.

use vstd::prelude::*;
use vstd::string::StringExecFns;
use crate::identity::{DeviceIdentity, DeviceIdentityView, OsVersion, OsVersionView};
use crate::text::{
    plain_seq, hex_of, bytes_of_hex, hex_digits_seq, hex_to_bytes, lemma_hex_of_basics,
    lemma_hex_of_bytes_of,
};

verus! {

/// A device identity in the alternate interchange schema.
#[derive(Clone, Debug, PartialEq, Eq)]
pub struct MiraiDevice {
    pub display: String,
    pub product: String,
    pub device: String,
    pub board: String,
    pub brand: String,
    pub model: String,
    pub bootloader: String,
    pub fingerprint: String,
    pub boot_id: String,
    pub proc_version: String,
    pub base_band: String,
    pub version: OsVersion,
    pub sim_info: String,
    pub os_type: String,
    pub mac_address: String,
    pub wifi_bssid: String,
    pub wifi_ssid: String,
    pub imsi_md5: String,
    pub imei: String,
    pub apn: String,
}

/// Mathematical image of [`MiraiDevice`].
#[verifier::ext_equal]
pub struct MiraiDeviceView {
    pub display: Seq<char>,
    pub product: Seq<char>,
    pub device: Seq<char>,
    pub board: Seq<char>,
    pub brand: Seq<char>,
    pub model: Seq<char>,
    pub bootloader: Seq<char>,
    pub fingerprint: Seq<char>,
    pub boot_id: Seq<char>,
    pub proc_version: Seq<char>,
    pub base_band: Seq<char>,
    pub version: OsVersionView,
    pub sim_info: Seq<char>,
    pub os_type: Seq<char>,
    pub mac_address: Seq<char>,
    pub wifi_bssid: Seq<char>,
    pub wifi_ssid: Seq<char>,
    pub imsi_md5: Seq<char>,
    pub imei: Seq<char>,
    pub apn: Seq<char>,
}

impl View for MiraiDevice {
    type V = MiraiDeviceView;

    open spec fn view(&self) -> MiraiDeviceView {
        MiraiDeviceView {
            display: self.display@,
            product: self.product@,
            device: self.device@,
            board: self.board@,
            brand: self.brand@,
            model: self.model@,
            bootloader: self.bootloader@,
            fingerprint: self.fingerprint@,
            boot_id: self.boot_id@,
            proc_version: self.proc_version@,
            base_band: self.base_band@,
            version: self.version@,
            sim_info: self.sim_info@,
            os_type: self.os_type@,
            mac_address: self.mac_address@,
            wifi_bssid: self.wifi_bssid@,
            wifi_ssid: self.wifi_ssid@,
            imsi_md5: self.imsi_md5@,
            imei: self.imei@,
            apn: self.apn@,
        }
    }
}

impl MiraiDeviceView {
    /// Well-formedness: plain text everywhere and a pseudo-IMSI hash of
    /// exactly 32 lowercase hexadecimal digits.
    pub open spec fn wf(self) -> bool {
        &&& plain_seq(self.display)
        &&& plain_seq(self.product)
        &&& plain_seq(self.device)
        &&& plain_seq(self.board)
        &&& plain_seq(self.brand)
        &&& plain_seq(self.model)
        &&& plain_seq(self.bootloader)
        &&& plain_seq(self.fingerprint)
        &&& plain_seq(self.boot_id)
        &&& plain_seq(self.proc_version)
        &&& plain_seq(self.base_band)
        &&& self.version.wf()
        &&& plain_seq(self.sim_info)
        &&& plain_seq(self.os_type)
        &&& plain_seq(self.mac_address)
        &&& plain_seq(self.wifi_bssid)
        &&& plain_seq(self.wifi_ssid)
        &&& hex_digits_seq(self.imsi_md5)
        &&& self.imsi_md5.len() == 32
        &&& plain_seq(self.imei)
        &&& plain_seq(self.apn)
    }
}

/// The alternate-schema wrapper object: a schema version tag around the
/// translated identity.
#[derive(Clone, Debug, PartialEq, Eq)]
pub struct MiraiDeviceInfo {
    pub device_info_version: u8,
    pub data: MiraiDevice,
}

/// Mathematical image of [`MiraiDeviceInfo`].
#[verifier::ext_equal]
pub struct MiraiDeviceInfoView {
    pub device_info_version: u8,
    pub data: MiraiDeviceView,
}

impl View for MiraiDeviceInfo {
    type V = MiraiDeviceInfoView;

    open spec fn view(&self) -> MiraiDeviceInfoView {
        MiraiDeviceInfoView { device_info_version: self.device_info_version, data: self.data@ }
    }
}

/// What translating a canonical identity to the alternate schema yields:
/// every field verbatim, the pseudo-IMSI hash in lowercase hexadecimal.
pub open spec fn mirai_of(d: DeviceIdentityView) -> MiraiDeviceView {
    MiraiDeviceView {
        display: d.display,
        product: d.product,
        device: d.device,
        board: d.board,
        brand: d.brand,
        model: d.model,
        bootloader: d.bootloader,
        fingerprint: d.finger_print,
        boot_id: d.boot_id,
        proc_version: d.proc_version,
        base_band: d.base_band,
        version: d.version,
        sim_info: d.sim_info,
        os_type: d.os_type,
        mac_address: d.mac_address,
        wifi_bssid: d.wifi_bssid,
        wifi_ssid: d.wifi_ssid,
        imsi_md5: hex_of(d.imsi_md5),
        imei: d.imei,
        apn: d.apn,
    }
}

/// What translating an alternate-schema identity back to the canonical
/// schema yields: every field verbatim, the pseudo-IMSI hash decoded from
/// hexadecimal.
pub open spec fn device_of(m: MiraiDeviceView) -> DeviceIdentityView {
    DeviceIdentityView {
        display: m.display,
        product: m.product,
        device: m.device,
        board: m.board,
        model: m.model,
        finger_print: m.fingerprint,
        boot_id: m.boot_id,
        proc_version: m.proc_version,
        imei: m.imei,
        brand: m.brand,
        bootloader: m.bootloader,
        base_band: m.base_band,
        version: m.version,
        sim_info: m.sim_info,
        os_type: m.os_type,
        mac_address: m.mac_address,
        wifi_bssid: m.wifi_bssid,
        wifi_ssid: m.wifi_ssid,
        imsi_md5: bytes_of_hex(m.imsi_md5),
        apn: m.apn,
    }
}

/// Why an alternate-schema identity cannot be translated back.
#[derive(Clone, Copy, Debug, PartialEq, Eq)]
pub enum TranslateError {
    /// The pseudo-IMSI hash field is not a string of lowercase
    /// hexadecimal digits of even length.
    ImsiHex,
    /// The pseudo-IMSI hash field decodes to a byte string that is not
    /// exactly 16 bytes long.
    ImsiLength,
}

/// Whether the pseudo-IMSI hash field of an alternate-schema identity can
/// be decoded into the 16 bytes the canonical schema requires.
pub open spec fn valid_imsi_hex(s: Seq<char>) -> bool {
    &&& hex_digits_seq(s)
    &&& s.len() == 32
}

/// Translates a canonical identity to the alternate schema. Total on
/// well-formed identities and exact: only the pseudo-IMSI hash changes
/// representation.
pub fn device_to_mirai(d: &DeviceIdentity) -> (m: MiraiDevice)
    ensures
        m@ == mirai_of(d@),
{
    let mut imsi = String::new();
    crate::text::push_hex(&mut imsi, &d.imsi_md5);
    let m = MiraiDevice {
        display: d.display.clone(),
        product: d.product.clone(),
        device: d.device.clone(),
        board: d.board.clone(),
        brand: d.brand.clone(),
        model: d.model.clone(),
        bootloader: d.bootloader.clone(),
        fingerprint: d.finger_print.clone(),
        boot_id: d.boot_id.clone(),
        proc_version: d.proc_version.clone(),
        base_band: d.base_band.clone(),
        version: d.version.duplicate(),
        sim_info: d.sim_info.clone(),
        os_type: d.os_type.clone(),
        mac_address: d.mac_address.clone(),
        wifi_bssid: d.wifi_bssid.clone(),
        wifi_ssid: d.wifi_ssid.clone(),
        imsi_md5: imsi,
        imei: d.imei.clone(),
        apn: d.apn.clone(),
    };
    proof {
        assert(m@ =~= mirai_of(d@));
    }
    m
}

/// Wraps a translated identity in the alternate-schema envelope, which
/// carries schema version 2.
pub fn device_to_mirai_info(d: &DeviceIdentity) -> (m: MiraiDeviceInfo)
    ensures
        m@.data == mirai_of(d@),
        m@.device_info_version == 2,
{
    MiraiDeviceInfo { device_info_version: 2, data: device_to_mirai(d) }
}

/// Translates an alternate-schema identity back to the canonical schema.
/// Succeeds exactly when the pseudo-IMSI hash field is 32 lowercase
/// hexadecimal digits; a malformed hash is surfaced to the caller, never
/// substituted.
pub fn mirai_to_device(m: &MiraiDevice) -> (r: Result<DeviceIdentity, TranslateError>)
    ensures
        r is Ok <==> valid_imsi_hex(m@.imsi_md5),
        r is Ok ==> r->Ok_0@ == device_of(m@),
        r is Err ==> (r->Err_0 == TranslateError::ImsiHex <==> !(hex_digits_seq(m@.imsi_md5)
            && m@.imsi_md5.len() % 2 == 0)),
        r is Err ==> (r->Err_0 == TranslateError::ImsiLength <==> hex_digits_seq(m@.imsi_md5)
            && m@.imsi_md5.len() % 2 == 0 && m@.imsi_md5.len() != 32),
{
    let decoded = hex_to_bytes(m.imsi_md5.as_str());
    match decoded {
        Option::None => Result::Err(TranslateError::ImsiHex),
        Option::Some(bytes) => {
            proof {
                lemma_hex_of_basics(bytes@);
            }
            if bytes.len() != 16 {
                Result::Err(TranslateError::ImsiLength)
            } else {
                let d = DeviceIdentity {
                    display: m.display.clone(),
                    product: m.product.clone(),
                    device: m.device.clone(),
                    board: m.board.clone(),
                    model: m.model.clone(),
                    finger_print: m.fingerprint.clone(),
                    boot_id: m.boot_id.clone(),
                    proc_version: m.proc_version.clone(),
                    imei: m.imei.clone(),
                    brand: m.brand.clone(),
                    bootloader: m.bootloader.clone(),
                    base_band: m.base_band.clone(),
                    version: m.version.duplicate(),
                    sim_info: m.sim_info.clone(),
                    os_type: m.os_type.clone(),
                    mac_address: m.mac_address.clone(),
                    wifi_bssid: m.wifi_bssid.clone(),
                    wifi_ssid: m.wifi_ssid.clone(),
                    imsi_md5: bytes,
                    apn: m.apn.clone(),
                };
                proof {
                    assert(d@ =~= device_of(m@));
                }
                Result::Ok(d)
            }
        },
    }
}

/// Law: translating a well-formed canonical identity to the alternate
/// schema and back yields the identity unchanged in every field; in
/// particular the pseudo-IMSI hash survives the binary-to-hexadecimal
/// round trip exactly.
pub proof fn lemma_translation_round_trip(d: DeviceIdentityView)
    requires
        d.wf(),
    ensures
        mirai_of(d).wf(),
        valid_imsi_hex(mirai_of(d).imsi_md5),
        device_of(mirai_of(d)) == d,
{
    lemma_hex_of_basics(d.imsi_md5);
    assert(device_of(mirai_of(d)) =~= d);
}

/// Law: translating a well-formed alternate-schema identity to the
/// canonical schema and back out again also yields it unchanged.
pub proof fn lemma_translation_round_trip_back(m: MiraiDeviceView)
    requires
        m.wf(),
    ensures
        device_of(m).wf(),
        mirai_of(device_of(m)) == m,
{
    lemma_hex_of_bytes_of(m.imsi_md5);
    assert(mirai_of(device_of(m)) =~= m);
}

} // verus!
