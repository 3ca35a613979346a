//! The device identity value object: a simulated-hardware fingerprint that
//! is generated once per account profile and then kept stable, plus its
//! randomized generation from raw entropy.

use vstd::prelude::*;
use vstd::string::StringExecFns;
use crate::text::{
    plain_char, plain_seq, digits_seq, dec_nat, hex_of, digit_char, is_digit, push_dec,
    push_hex_range, digit_str, lemma_dec_nat_basics, lemma_hex_of_basics, lemma_digit_char_val,
};
use crate::entropy::random_bytes;

verus! {

/// The nested operating-system version record of a device identity.
#[derive(Clone, Debug, PartialEq, Eq)]
pub struct OsVersion {
    pub incremental: String,
    pub release: String,
    pub codename: String,
    pub sdk: u32,
}

/// Mathematical image of [`OsVersion`].
#[verifier::ext_equal]
pub struct OsVersionView {
    pub incremental: Seq<char>,
    pub release: Seq<char>,
    pub codename: Seq<char>,
    pub sdk: u32,
}

impl View for OsVersion {
    type V = OsVersionView;

    open spec fn view(&self) -> OsVersionView {
        OsVersionView {
            incremental: self.incremental@,
            release: self.release@,
            codename: self.codename@,
            sdk: self.sdk,
        }
    }
}

impl OsVersionView {
    /// The strings hold only characters our interchange files can carry
    /// unescaped.
    pub open spec fn wf(self) -> bool {
        &&& plain_seq(self.incremental)
        &&& plain_seq(self.release)
        &&& plain_seq(self.codename)
    }
}

impl OsVersion {
    /// A field-exact copy.
    pub fn duplicate(&self) -> (r: OsVersion)
        ensures
            r@ == self@,
    {
        OsVersion {
            incremental: self.incremental.clone(),
            release: self.release.clone(),
            codename: self.codename.clone(),
            sdk: self.sdk,
        }
    }
}

/// A persisted simulated-hardware fingerprint used to make repeated logins
/// for one account look like they come from the same device. Created once
/// (randomized) or loaded from its persisted form; never mutated.
#[derive(Clone, Debug, PartialEq, Eq)]
pub struct DeviceIdentity {
    pub display: String,
    pub product: String,
    pub device: String,
    pub board: String,
    pub model: String,
    pub finger_print: String,
    pub boot_id: String,
    pub proc_version: String,
    pub imei: String,
    pub brand: String,
    pub bootloader: String,
    pub base_band: String,
    pub version: OsVersion,
    pub sim_info: String,
    pub os_type: String,
    pub mac_address: String,
    pub wifi_bssid: String,
    pub wifi_ssid: String,
    pub imsi_md5: Vec<u8>,
    pub apn: String,
}

/// Mathematical image of [`DeviceIdentity`].
#[verifier::ext_equal]
pub struct DeviceIdentityView {
    pub display: Seq<char>,
    pub product: Seq<char>,
    pub device: Seq<char>,
    pub board: Seq<char>,
    pub model: Seq<char>,
    pub finger_print: Seq<char>,
    pub boot_id: Seq<char>,
    pub proc_version: Seq<char>,
    pub imei: Seq<char>,
    pub brand: Seq<char>,
    pub bootloader: Seq<char>,
    pub base_band: Seq<char>,
    pub version: OsVersionView,
    pub sim_info: Seq<char>,
    pub os_type: Seq<char>,
    pub mac_address: Seq<char>,
    pub wifi_bssid: Seq<char>,
    pub wifi_ssid: Seq<char>,
    pub imsi_md5: Seq<u8>,
    pub apn: Seq<char>,
}

impl View for DeviceIdentity {
    type V = DeviceIdentityView;

    open spec fn view(&self) -> DeviceIdentityView {
        DeviceIdentityView {
            display: self.display@,
            product: self.product@,
            device: self.device@,
            board: self.board@,
            model: self.model@,
            finger_print: self.finger_print@,
            boot_id: self.boot_id@,
            proc_version: self.proc_version@,
            imei: self.imei@,
            brand: self.brand@,
            bootloader: self.bootloader@,
            base_band: self.base_band@,
            version: self.version@,
            sim_info: self.sim_info@,
            os_type: self.os_type@,
            mac_address: self.mac_address@,
            wifi_bssid: self.wifi_bssid@,
            wifi_ssid: self.wifi_ssid@,
            imsi_md5: self.imsi_md5@,
            apn: self.apn@,
        }
    }
}

impl DeviceIdentityView {
    /// Well-formedness: every textual field holds only plain characters
    /// (printable ASCII, no quote, no backslash), and the pseudo-IMSI hash
    /// is exactly 16 bytes.
    pub open spec fn wf(self) -> bool {
        &&& plain_seq(self.display)
        &&& plain_seq(self.product)
        &&& plain_seq(self.device)
        &&& plain_seq(self.board)
        &&& plain_seq(self.model)
        &&& plain_seq(self.finger_print)
        &&& plain_seq(self.boot_id)
        &&& plain_seq(self.proc_version)
        &&& plain_seq(self.imei)
        &&& plain_seq(self.brand)
        &&& plain_seq(self.bootloader)
        &&& plain_seq(self.base_band)
        &&& self.version.wf()
        &&& plain_seq(self.sim_info)
        &&& plain_seq(self.os_type)
        &&& plain_seq(self.mac_address)
        &&& plain_seq(self.wifi_bssid)
        &&& plain_seq(self.wifi_ssid)
        &&& self.imsi_md5.len() == 16
        &&& plain_seq(self.apn)
    }
}

impl DeviceIdentity {
    /// A field-exact copy.
    pub fn duplicate(&self) -> (r: DeviceIdentity)
        ensures
            r@ == self@,
    {
        let r = DeviceIdentity {
            display: self.display.clone(),
            product: self.product.clone(),
            device: self.device.clone(),
            board: self.board.clone(),
            model: self.model.clone(),
            finger_print: self.finger_print.clone(),
            boot_id: self.boot_id.clone(),
            proc_version: self.proc_version.clone(),
            imei: self.imei.clone(),
            brand: self.brand.clone(),
            bootloader: self.bootloader.clone(),
            base_band: self.base_band.clone(),
            version: self.version.duplicate(),
            sim_info: self.sim_info.clone(),
            os_type: self.os_type.clone(),
            mac_address: self.mac_address.clone(),
            wifi_bssid: self.wifi_bssid.clone(),
            wifi_ssid: self.wifi_ssid.clone(),
            imsi_md5: clone_bytes(&self.imsi_md5),
            apn: self.apn.clone(),
        };
        proof {
            assert(r@ =~= self@);
        }
        r
    }
}

/// A field-exact copy of a byte vector.
pub fn clone_bytes(v: &Vec<u8>) -> (r: Vec<u8>)
    ensures
        r@ == v@,
{
    let mut out: Vec<u8> = Vec::new();
    let mut i: usize = 0;
    while i < v.len()
        invariant
            i <= v@.len(),
            out@ == v@.subrange(0, i as int),
        decreases v@.len() - i,
    {
        out.push(v[i]);
        proof {
            assert(out@ =~= v@.subrange(0, i + 1));
        }
        i = i + 1;
    }
    proof {
        assert(v@.subrange(0, v@.len() as int) =~= v@);
    }
    out
}

/// Concatenation keeps plainness.
pub proof fn lemma_plain_concat(a: Seq<char>, b: Seq<char>)
    requires
        plain_seq(a),
        plain_seq(b),
    ensures
        plain_seq(a + b),
{
    assert forall|i: int| 0 <= i < (a + b).len() implies plain_char(#[trigger] (a + b)[i]) by {
        if i < a.len() {
            assert((a + b)[i] == a[i]);
        } else {
            assert((a + b)[i] == b[i - a.len()]);
        }
    }
}

/// The number of entropy bytes [`generate_identity`] consumes.
pub open spec fn entropy_len() -> int {
    58
}

/// How many entropy bytes a fresh identity needs.
pub fn entropy_bytes_needed() -> (n: usize)
    ensures
        n == entropy_len(),
{
    58
}

/// The six-digit display serial derived from entropy bytes 0..4.
pub open spec fn display_serial(e: Seq<u8>) -> nat {
    (100000 + (word32(e, 0) % 900000)) as nat
}

/// The seven-digit build serial derived from entropy bytes 4..8.
pub open spec fn build_serial(e: Seq<u8>) -> nat {
    (1000000 + (word32(e, 4) % 9000000)) as nat
}

/// Four entropy bytes read as a big-endian 32-bit number.
pub open spec fn word32(e: Seq<u8>, i: int) -> int {
    e[i] * 0x1000000 + e[i + 1] * 0x10000 + e[i + 2] * 0x100 + e[i + 3]
}

/// Reads four bytes of `e` starting at `i` as a big-endian 32-bit number.
fn read_word32(e: &Vec<u8>, i: usize) -> (r: u32)
    requires
        i + 4 <= e@.len(),
    ensures
        r == word32(e@, i as int),
{
    let n = e.len();
    assert(i + 4 <= n);
    (e[i] as u32) * 0x1000000 + (e[i + 1] as u32) * 0x10000 + (e[i + 2] as u32) * 0x100 + (e[i
        + 3] as u32)
}

/// A copy of `v[from..to]`.
pub fn bytes_range(v: &Vec<u8>, from: usize, to: usize) -> (r: Vec<u8>)
    requires
        from <= to,
        to <= v@.len(),
    ensures
        r@ == v@.subrange(from as int, to as int),
{
    let mut out: Vec<u8> = Vec::new();
    let mut i: usize = from;
    while i < to
        invariant
            from <= i <= to <= v@.len(),
            out@ == v@.subrange(from as int, i as int),
        decreases to - i,
    {
        out.push(v[i]);
        proof {
            assert(out@ =~= v@.subrange(from as int, i + 1));
        }
        i = i + 1;
    }
    out
}

/// The display name a fresh identity gets: a fixed product tag around a
/// six-digit serial.
pub open spec fn display_of(e: Seq<u8>) -> Seq<char> {
    "RICQ."@ + dec_nat(display_serial(e)) + ".001"@
}

/// The build fingerprint a fresh identity gets: a fixed build string
/// around a seven-digit serial.
pub open spec fn finger_print_of(e: Seq<u8>) -> Seq<char> {
    "xiaomi/iarim/sagit:10/eomam.200122.001/"@ + dec_nat(build_serial(e)) + ":user/release-keys"@
}

/// The kernel version string a fresh identity gets: a fixed kernel tag
/// around eight hexadecimal characters.
pub open spec fn proc_version_of(e: Seq<u8>) -> Seq<char> {
    "Linux 5.4.0-54-generic-"@ + hex_of(e.subrange(24, 28)) + " (android-build@google.com)"@
}

/// Sixteen bytes written in the usual 8-4-4-4-12 hexadecimal form.
pub open spec fn uuid_of(b: Seq<u8>) -> Seq<char> {
    hex_of(b.subrange(0, 4)) + "-"@ + hex_of(b.subrange(4, 6)) + "-"@ + hex_of(b.subrange(6, 8))
        + "-"@ + hex_of(b.subrange(8, 10)) + "-"@ + hex_of(b.subrange(10, 16))
}

/// One transformed IMEI digit: digits at even positions are doubled and
/// their decimal digits folded together.
pub open spec fn imei_tdigit(b: u8, even: bool) -> int {
    let d = b as int % 10;
    if even {
        if 2 * d >= 10 {
            (2 * d) % 10 + 1
        } else {
            2 * d
        }
    } else {
        d
    }
}

/// The first `n` transformed IMEI digits drawn from `e`.
pub open spec fn imei_prefix(e: Seq<u8>, n: int) -> Seq<char>
    decreases n,
{
    if n <= 0 {
        Seq::<char>::empty()
    } else {
        imei_prefix(e, n - 1) + seq![digit_char(imei_tdigit(e[n - 1], ((n - 1) % 2) == 0))]
    }
}

/// The checksum accumulator over the first `n` transformed IMEI digits.
pub open spec fn imei_sum(e: Seq<u8>, n: int) -> int
    decreases n,
{
    if n <= 0 {
        0
    } else {
        imei_sum(e, n - 1) + imei_tdigit(e[n - 1], ((n - 1) % 2) == 0)
    }
}

/// The fifteen-digit IMEI drawn from fourteen entropy bytes: fourteen
/// transformed digits and one control digit computed from their sum.
pub open spec fn imei_of(e: Seq<u8>) -> Seq<char> {
    imei_prefix(e, 14) + seq![digit_char((imei_sum(e, 14) * 9) % 10)]
}

proof fn lemma_imei_prefix(e: Seq<u8>, n: int)
    requires
        0 <= n,
    ensures
        imei_prefix(e, n).len() == n,
        digits_seq(imei_prefix(e, n)),
        plain_seq(imei_prefix(e, n)),
        0 <= imei_sum(e, n) <= 9 * n,
    decreases n,
{
    if n > 0 {
        lemma_imei_prefix(e, n - 1);
        let t = imei_tdigit(e[n - 1], ((n - 1) % 2) == 0);
        assert(0 <= t <= 9);
        lemma_digit_char_val(t);
        let whole = imei_prefix(e, n - 1) + seq![digit_char(t)];
        assert(imei_prefix(e, n) == whole);
        assert(forall|i: int|
            0 <= i < whole.len() ==> is_digit(#[trigger] whole[i]) && plain_char(whole[i]));
    }
}

/// The IMEI always has fifteen decimal digits.
pub proof fn lemma_imei_of(e: Seq<u8>)
    ensures
        imei_of(e).len() == 15,
        digits_seq(imei_of(e)),
        plain_seq(imei_of(e)),
{
    lemma_imei_prefix(e, 14);
    let s = imei_sum(e, 14);
    assert(0 <= (s * 9) % 10 <= 9);
    lemma_digit_char_val((s * 9) % 10);
    let whole = imei_prefix(e, 14) + seq![digit_char((s * 9) % 10)];
    assert(imei_of(e) == whole);
    assert(forall|i: int|
        0 <= i < whole.len() ==> is_digit(#[trigger] whole[i]) && plain_char(whole[i]));
}

/// Builds the fifteen-digit IMEI from fourteen entropy bytes.
fn build_imei(e: &Vec<u8>, from: usize) -> (r: String)
    requires
        from + 14 <= e@.len(),
    ensures
        r@ == imei_of(e@.subrange(from as int, from + 14)),
{
    let ghost sub = e@.subrange(from as int, from + 14);
    let n = e.len();
    let mut out = String::new();
    let mut sum: u32 = 0;
    let mut i: usize = 0;
    while i < 14
        invariant
            from + 14 <= n == e@.len(),
            sub == e@.subrange(from as int, from + 14),
            i <= 14,
            out@ == imei_prefix(sub, i as int),
            sum == imei_sum(sub, i as int),
            sum <= 9 * i,
        decreases 14 - i,
    {
        let b = e[from + i];
        let d: u32 = (b as u32) % 10;
        let t: u32 = if i % 2 == 0 {
            let dd = 2 * d;
            if dd >= 10 {
                dd % 10 + 1
            } else {
                dd
            }
        } else {
            d
        };
        proof {
            assert(sub[i as int] == e@[from + i]);
            assert(t == imei_tdigit(sub[i as int], (i as int % 2) == 0));
            assert(t <= 9);
        }
        sum = sum + t;
        out.append(digit_str(t as u8));
        proof {
            assert(out@ =~= imei_prefix(sub, i + 1));
        }
        i = i + 1;
    }
    let ctrl: u32 = (sum * 9) % 10;
    out.append(digit_str(ctrl as u8));
    proof {
        lemma_imei_prefix(sub, 14);
        lemma_digit_char_val(((imei_sum(sub, 14) * 9) % 10) as int);
        assert(out@ =~= imei_of(sub));
    }
    out
}

/// Builds a device identity from raw entropy. Every derived field is an
/// exact function of the entropy; all remaining fields are fixed values.
pub fn generate_identity(e: &Vec<u8>) -> (r: DeviceIdentity)
    requires
        e@.len() == entropy_len(),
    ensures
        r@.wf(),
        r@.display == display_of(e@),
        r@.finger_print == finger_print_of(e@),
        r@.boot_id == uuid_of(e@.subrange(8, 24)),
        r@.proc_version == proc_version_of(e@),
        r@.imei == imei_of(e@.subrange(28, 42)),
        r@.imsi_md5 == e@.subrange(42, 58),
        r@.product == "iarim"@,
        r@.device == "sagit"@,
        r@.board == "eomam"@,
        r@.model == "MI 6"@,
        r@.brand == "Xiaomi"@,
        r@.bootloader == "U-boot"@,
        r@.base_band == ""@,
        r@.sim_info == "T-Mobile"@,
        r@.os_type == "android"@,
        r@.mac_address == "00:50:56:C0:00:08"@,
        r@.wifi_bssid == "00:50:56:C0:00:08"@,
        r@.wifi_ssid == "<unknown ssid>"@,
        r@.apn == "wifi"@,
        r@.version.incremental == "5891938"@,
        r@.version.release == "10"@,
        r@.version.codename == "REL"@,
        r@.version.sdk == 29,
{
    let mut display = String::from_str("RICQ.");
    let serial: u32 = 100000 + read_word32(e, 0) % 900000;
    push_dec(&mut display, serial as u64);
    display.append(".001");

    let mut finger_print = String::from_str("xiaomi/iarim/sagit:10/eomam.200122.001/");
    let build: u32 = 1000000 + read_word32(e, 4) % 9000000;
    push_dec(&mut finger_print, build as u64);
    finger_print.append(":user/release-keys");

    let mut boot_id = String::new();
    push_hex_range(&mut boot_id, e, 8, 12);
    boot_id.append("-");
    push_hex_range(&mut boot_id, e, 12, 14);
    boot_id.append("-");
    push_hex_range(&mut boot_id, e, 14, 16);
    boot_id.append("-");
    push_hex_range(&mut boot_id, e, 16, 18);
    boot_id.append("-");
    push_hex_range(&mut boot_id, e, 18, 24);

    let mut proc_version = String::from_str("Linux 5.4.0-54-generic-");
    push_hex_range(&mut proc_version, e, 24, 28);
    proc_version.append(" (android-build@google.com)");

    let imei = build_imei(e, 28);
    let imsi_md5 = bytes_range(e, 42, 58);

    let r = DeviceIdentity {
        display,
        product: String::from_str("iarim"),
        device: String::from_str("sagit"),
        board: String::from_str("eomam"),
        model: String::from_str("MI 6"),
        finger_print,
        boot_id,
        proc_version,
        imei,
        brand: String::from_str("Xiaomi"),
        bootloader: String::from_str("U-boot"),
        base_band: String::from_str(""),
        version: OsVersion {
            incremental: String::from_str("5891938"),
            release: String::from_str("10"),
            codename: String::from_str("REL"),
            sdk: 29,
        },
        sim_info: String::from_str("T-Mobile"),
        os_type: String::from_str("android"),
        mac_address: String::from_str("00:50:56:C0:00:08"),
        wifi_bssid: String::from_str("00:50:56:C0:00:08"),
        wifi_ssid: String::from_str("<unknown ssid>"),
        imsi_md5,
        apn: String::from_str("wifi"),
    };
    proof {
        lemma_literals_plain();
        lemma_dec_nat_basics(display_serial(e@));
        lemma_dec_nat_basics(build_serial(e@));
        lemma_hex_of_basics(e@.subrange(8, 12));
        lemma_hex_of_basics(e@.subrange(12, 14));
        lemma_hex_of_basics(e@.subrange(14, 16));
        lemma_hex_of_basics(e@.subrange(16, 18));
        lemma_hex_of_basics(e@.subrange(18, 24));
        lemma_hex_of_basics(e@.subrange(24, 28));
        lemma_imei_of(e@.subrange(28, 42));
        let b16 = e@.subrange(8, 24);
        assert(b16.subrange(0, 4) =~= e@.subrange(8, 12));
        assert(b16.subrange(4, 6) =~= e@.subrange(12, 14));
        assert(b16.subrange(6, 8) =~= e@.subrange(14, 16));
        assert(b16.subrange(8, 10) =~= e@.subrange(16, 18));
        assert(b16.subrange(10, 16) =~= e@.subrange(18, 24));
        assert(r@.display == display_of(e@));
        assert(r@.boot_id == uuid_of(b16));
        lemma_plain_concat("RICQ."@ + dec_nat(display_serial(e@)), ".001"@);
        lemma_plain_concat("RICQ."@, dec_nat(display_serial(e@)));
        lemma_plain_concat(
            "xiaomi/iarim/sagit:10/eomam.200122.001/"@ + dec_nat(build_serial(e@)),
            ":user/release-keys"@,
        );
        lemma_plain_concat(
            "xiaomi/iarim/sagit:10/eomam.200122.001/"@,
            dec_nat(build_serial(e@)),
        );
        lemma_plain_concat("Linux 5.4.0-54-generic-"@ + hex_of(e@.subrange(24, 28)),
            " (android-build@google.com)"@);
        lemma_plain_concat("Linux 5.4.0-54-generic-"@, hex_of(e@.subrange(24, 28)));
        lemma_plain_concat(hex_of(b16.subrange(0, 4)), "-"@);
        lemma_plain_concat(hex_of(b16.subrange(0, 4)) + "-"@, hex_of(b16.subrange(4, 6)));
        lemma_plain_concat(
            hex_of(b16.subrange(0, 4)) + "-"@ + hex_of(b16.subrange(4, 6)),
            "-"@,
        );
        lemma_plain_concat(
            hex_of(b16.subrange(0, 4)) + "-"@ + hex_of(b16.subrange(4, 6)) + "-"@,
            hex_of(b16.subrange(6, 8)),
        );
        lemma_plain_concat(
            hex_of(b16.subrange(0, 4)) + "-"@ + hex_of(b16.subrange(4, 6)) + "-"@ + hex_of(
                b16.subrange(6, 8),
            ),
            "-"@,
        );
        lemma_plain_concat(
            hex_of(b16.subrange(0, 4)) + "-"@ + hex_of(b16.subrange(4, 6)) + "-"@ + hex_of(
                b16.subrange(6, 8),
            ) + "-"@,
            hex_of(b16.subrange(8, 10)),
        );
        lemma_plain_concat(
            hex_of(b16.subrange(0, 4)) + "-"@ + hex_of(b16.subrange(4, 6)) + "-"@ + hex_of(
                b16.subrange(6, 8),
            ) + "-"@ + hex_of(b16.subrange(8, 10)),
            "-"@,
        );
        lemma_plain_concat(
            hex_of(b16.subrange(0, 4)) + "-"@ + hex_of(b16.subrange(4, 6)) + "-"@ + hex_of(
                b16.subrange(6, 8),
            ) + "-"@ + hex_of(b16.subrange(8, 10)) + "-"@,
            hex_of(b16.subrange(10, 16)),
        );
        assert(r@.wf());
    }
    r
}

/// Every string literal a fresh identity is built from holds only plain
/// characters.
proof fn lemma_literals_plain()
    ensures
        plain_seq("RICQ."@),
        plain_seq(".001"@),
        plain_seq("xiaomi/iarim/sagit:10/eomam.200122.001/"@),
        plain_seq(":user/release-keys"@),
        plain_seq("-"@),
        plain_seq("Linux 5.4.0-54-generic-"@),
        plain_seq(" (android-build@google.com)"@),
        plain_seq("iarim"@),
        plain_seq("sagit"@),
        plain_seq("eomam"@),
        plain_seq("MI 6"@),
        plain_seq("Xiaomi"@),
        plain_seq("U-boot"@),
        plain_seq(""@),
        plain_seq("T-Mobile"@),
        plain_seq("android"@),
        plain_seq("00:50:56:C0:00:08"@),
        plain_seq("<unknown ssid>"@),
        plain_seq("wifi"@),
        plain_seq("5891938"@),
        plain_seq("10"@),
        plain_seq("REL"@),
{
    reveal_strlit("RICQ.");
    reveal_strlit(".001");
    reveal_strlit("xiaomi/iarim/sagit:10/eomam.200122.001/");
    reveal_strlit(":user/release-keys");
    reveal_strlit("-");
    reveal_strlit("Linux 5.4.0-54-generic-");
    reveal_strlit(" (android-build@google.com)");
    reveal_strlit("iarim");
    reveal_strlit("sagit");
    reveal_strlit("eomam");
    reveal_strlit("MI 6");
    reveal_strlit("Xiaomi");
    reveal_strlit("U-boot");
    reveal_strlit("");
    reveal_strlit("T-Mobile");
    reveal_strlit("android");
    reveal_strlit("00:50:56:C0:00:08");
    reveal_strlit("<unknown ssid>");
    reveal_strlit("wifi");
    reveal_strlit("5891938");
    reveal_strlit("10");
    reveal_strlit("REL");
}

/// Generates a fresh randomized device identity.
pub fn fresh_random_identity() -> (r: DeviceIdentity)
    ensures
        r@.wf(),
{
    let n = entropy_bytes_needed();
    let e = random_bytes(n);
    generate_identity(&e)
}

} // verus!
