//! The textual interchange codec for persisted device identities.
//!
//! [`canon_device`] defines, character for character, the canonical
//! pretty-printed JSON document for a well-formed identity. The emitter
//! produces exactly that document and the parser accepts exactly the
//! canonical documents, so persisting and re-loading an identity is an
//! identity operation, and anything else on disk is treated as corrupt.
//!
//! The alternate-schema export document is defined and emitted here too;
//! it is write-only, so it has no parser.

use vstd::prelude::*;
use vstd::string::StrSliceExecFns;
use vstd::string::StringExecFns;
use crate::identity::{DeviceIdentity, DeviceIdentityView, OsVersion};
use crate::mirai::{MiraiDeviceInfo, MiraiDeviceInfoView};
use crate::text::{
    plain_char, plain_seq, is_digit, digits_seq, dec_nat, text_val, digit_val, push_dec,
    is_plain_char, is_digit_char, lemma_dec_nat_basics, lemma_canonical_digits,
    lemma_text_val_bounds,
};

verus! {

/// The list items of the pseudo-IMSI byte array, in order, separated by
/// `", "`.
pub open spec fn items_of(v: Seq<u8>) -> Seq<char>
    decreases v.len(),
{
    if v.len() == 0 {
        Seq::<char>::empty()
    } else if v.len() == 1 {
        dec_nat(v[0] as nat)
    } else {
        items_of(v.drop_last()) + ", "@ + dec_nat(v.last() as nat)
    }
}

/// The items of `v` from index `k` on, each preceded by the separator.
pub open spec fn items_from(v: Seq<u8>, k: int) -> Seq<char>
    decreases v.len() - k,
        when k >= 0
{
    if k >= v.len() {
        Seq::<char>::empty()
    } else {
        ", "@ + dec_nat(v[k] as nat) + items_from(v, k + 1)
    }
}

/// A prefix of the item list followed by the remaining items is the whole
/// item list.
pub proof fn lemma_items_split(v: Seq<u8>, k: int)
    requires
        1 <= k <= v.len(),
    ensures
        items_of(v) == items_of(v.subrange(0, k)) + items_from(v, k),
    decreases v.len() - k,
{
    if k == v.len() {
        assert(v.subrange(0, k) =~= v);
        assert(items_of(v) =~= items_of(v.subrange(0, k)) + items_from(v, k));
    } else {
        lemma_items_split(v, k + 1);
        let pre = v.subrange(0, k);
        let pre1 = v.subrange(0, k + 1);
        assert(pre1.drop_last() =~= pre);
        assert(pre1.last() == v[k]);
        assert(pre1.len() >= 2 ==> items_of(pre1) == items_of(pre) + ", "@ + dec_nat(
            v[k] as nat,
        ));
        if pre1.len() == 1 {
            assert(k == 0);
        }
        assert(items_of(v) =~= items_of(pre) + (", "@ + dec_nat(v[k] as nat) + items_from(
            v,
            k + 1,
        )));
    }
}

/// The canonical document from the `apn` segment on.
#[verifier::opaque]
pub open spec fn t_apn(d: DeviceIdentityView) -> Seq<char> {
    "],\n  \"apn\": \""@ + d.apn + "\"\n}"@
}

/// The canonical document from the pseudo-IMSI array segment on.
#[verifier::opaque]
pub open spec fn t_imsi(d: DeviceIdentityView) -> Seq<char> {
    "\",\n  \"imsi_md5\": ["@ + items_of(d.imsi_md5) + t_apn(d)
}

/// The canonical document from the `wifi_ssid` segment on.
#[verifier::opaque]
pub open spec fn t_wifi_ssid(d: DeviceIdentityView) -> Seq<char> {
    "\",\n  \"wifi_ssid\": \""@ + d.wifi_ssid + t_imsi(d)
}

/// The canonical document from the `wifi_bssid` segment on.
#[verifier::opaque]
pub open spec fn t_wifi_bssid(d: DeviceIdentityView) -> Seq<char> {
    "\",\n  \"wifi_bssid\": \""@ + d.wifi_bssid + t_wifi_ssid(d)
}

/// The canonical document from the `mac_address` segment on.
#[verifier::opaque]
pub open spec fn t_mac_address(d: DeviceIdentityView) -> Seq<char> {
    "\",\n  \"mac_address\": \""@ + d.mac_address + t_wifi_bssid(d)
}

/// The canonical document from the `os_type` segment on.
#[verifier::opaque]
pub open spec fn t_os_type(d: DeviceIdentityView) -> Seq<char> {
    "\",\n  \"os_type\": \""@ + d.os_type + t_mac_address(d)
}

/// The canonical document from the `sim_info` segment on.
#[verifier::opaque]
pub open spec fn t_sim_info(d: DeviceIdentityView) -> Seq<char> {
    "\n  },\n  \"sim_info\": \""@ + d.sim_info + t_os_type(d)
}

/// The canonical document from the `sdk` segment on.
#[verifier::opaque]
pub open spec fn t_sdk(d: DeviceIdentityView) -> Seq<char> {
    "\",\n    \"sdk\": "@ + dec_nat(d.version.sdk as nat) + t_sim_info(d)
}

/// The canonical document from the `codename` segment on.
#[verifier::opaque]
pub open spec fn t_codename(d: DeviceIdentityView) -> Seq<char> {
    "\",\n    \"codename\": \""@ + d.version.codename + t_sdk(d)
}

/// The canonical document from the `release` segment on.
#[verifier::opaque]
pub open spec fn t_release(d: DeviceIdentityView) -> Seq<char> {
    "\",\n    \"release\": \""@ + d.version.release + t_codename(d)
}

/// The canonical document from the `version` object segment on.
#[verifier::opaque]
pub open spec fn t_incremental(d: DeviceIdentityView) -> Seq<char> {
    "\",\n  \"version\": {\n    \"incremental\": \""@ + d.version.incremental + t_release(d)
}

/// The canonical document from the `base_band` segment on.
#[verifier::opaque]
pub open spec fn t_base_band(d: DeviceIdentityView) -> Seq<char> {
    "\",\n  \"base_band\": \""@ + d.base_band + t_incremental(d)
}

/// The canonical document from the `bootloader` segment on.
#[verifier::opaque]
pub open spec fn t_bootloader(d: DeviceIdentityView) -> Seq<char> {
    "\",\n  \"bootloader\": \""@ + d.bootloader + t_base_band(d)
}

/// The canonical document from the `brand` segment on.
#[verifier::opaque]
pub open spec fn t_brand(d: DeviceIdentityView) -> Seq<char> {
    "\",\n  \"brand\": \""@ + d.brand + t_bootloader(d)
}

/// The canonical document from the `imei` segment on.
#[verifier::opaque]
pub open spec fn t_imei(d: DeviceIdentityView) -> Seq<char> {
    "\",\n  \"imei\": \""@ + d.imei + t_brand(d)
}

/// The canonical document from the `proc_version` segment on.
#[verifier::opaque]
pub open spec fn t_proc_version(d: DeviceIdentityView) -> Seq<char> {
    "\",\n  \"proc_version\": \""@ + d.proc_version + t_imei(d)
}

/// The canonical document from the `boot_id` segment on.
#[verifier::opaque]
pub open spec fn t_boot_id(d: DeviceIdentityView) -> Seq<char> {
    "\",\n  \"boot_id\": \""@ + d.boot_id + t_proc_version(d)
}

/// The canonical document from the `finger_print` segment on.
#[verifier::opaque]
pub open spec fn t_finger_print(d: DeviceIdentityView) -> Seq<char> {
    "\",\n  \"finger_print\": \""@ + d.finger_print + t_boot_id(d)
}

/// The canonical document from the `model` segment on.
#[verifier::opaque]
pub open spec fn t_model(d: DeviceIdentityView) -> Seq<char> {
    "\",\n  \"model\": \""@ + d.model + t_finger_print(d)
}

/// The canonical document from the `board` segment on.
#[verifier::opaque]
pub open spec fn t_board(d: DeviceIdentityView) -> Seq<char> {
    "\",\n  \"board\": \""@ + d.board + t_model(d)
}

/// The canonical document from the `device` segment on.
#[verifier::opaque]
pub open spec fn t_device(d: DeviceIdentityView) -> Seq<char> {
    "\",\n  \"device\": \""@ + d.device + t_board(d)
}

/// The canonical document from the `product` segment on.
#[verifier::opaque]
pub open spec fn t_product(d: DeviceIdentityView) -> Seq<char> {
    "\",\n  \"product\": \""@ + d.product + t_device(d)
}

/// The canonical pretty-printed JSON document for a device identity: an
/// object holding every identity field in declaration order, the nested
/// version record as an object, and the pseudo-IMSI hash as an array of
/// byte values.
#[verifier::opaque]
pub open spec fn canon_device(d: DeviceIdentityView) -> Seq<char> {
    "{\n  \"display\": \""@ + d.display + t_product(d)
}

/// Appends the document head and the hardware description fields:
/// everything before the `finger_print` segment.
fn push_hardware_fields(out: &mut String, d: &DeviceIdentity)
    ensures
        final(out)@ + t_finger_print(d@) == old(out)@ + canon_device(d@),
{
    let ghost target = old(out)@ + canon_device(d@);
    out.append("{\n  \"display\": \"");
    out.append(d.display.as_str());
    proof {
        reveal(canon_device);
        assert(out@ + t_product(d@) =~= target);
    }
    out.append("\",\n  \"product\": \"");
    out.append(d.product.as_str());
    proof {
        reveal(t_product);
        assert(out@ + t_device(d@) =~= target);
    }
    out.append("\",\n  \"device\": \"");
    out.append(d.device.as_str());
    proof {
        reveal(t_device);
        assert(out@ + t_board(d@) =~= target);
    }
    out.append("\",\n  \"board\": \"");
    out.append(d.board.as_str());
    proof {
        reveal(t_board);
        assert(out@ + t_model(d@) =~= target);
    }
    out.append("\",\n  \"model\": \"");
    out.append(d.model.as_str());
    proof {
        reveal(t_model);
        assert(out@ + t_finger_print(d@) =~= target);
    }
}

/// Appends the build description fields: the `finger_print` segment
/// through the `base_band` segment.
fn push_build_fields(out: &mut String, d: &DeviceIdentity)
    ensures
        final(out)@ + t_incremental(d@) == old(out)@ + t_finger_print(d@),
{
    let ghost target = old(out)@ + t_finger_print(d@);
    out.append("\",\n  \"finger_print\": \"");
    out.append(d.finger_print.as_str());
    proof {
        reveal(t_finger_print);
        assert(out@ + t_boot_id(d@) =~= target);
    }
    out.append("\",\n  \"boot_id\": \"");
    out.append(d.boot_id.as_str());
    proof {
        reveal(t_boot_id);
        assert(out@ + t_proc_version(d@) =~= target);
    }
    out.append("\",\n  \"proc_version\": \"");
    out.append(d.proc_version.as_str());
    proof {
        reveal(t_proc_version);
        assert(out@ + t_imei(d@) =~= target);
    }
    out.append("\",\n  \"imei\": \"");
    out.append(d.imei.as_str());
    proof {
        reveal(t_imei);
        assert(out@ + t_brand(d@) =~= target);
    }
    out.append("\",\n  \"brand\": \"");
    out.append(d.brand.as_str());
    proof {
        reveal(t_brand);
        assert(out@ + t_bootloader(d@) =~= target);
    }
    out.append("\",\n  \"bootloader\": \"");
    out.append(d.bootloader.as_str());
    proof {
        reveal(t_bootloader);
        assert(out@ + t_base_band(d@) =~= target);
    }
    out.append("\",\n  \"base_band\": \"");
    out.append(d.base_band.as_str());
    proof {
        reveal(t_base_band);
        assert(out@ + t_incremental(d@) =~= target);
    }
}

/// Appends the nested version object: the `version` segment through the
/// `sdk` segment.
fn push_version_fields(out: &mut String, d: &DeviceIdentity)
    ensures
        final(out)@ + t_sim_info(d@) == old(out)@ + t_incremental(d@),
{
    let ghost target = old(out)@ + t_incremental(d@);
    out.append("\",\n  \"version\": {\n    \"incremental\": \"");
    out.append(d.version.incremental.as_str());
    proof {
        reveal(t_incremental);
        assert(out@ + t_release(d@) =~= target);
    }
    out.append("\",\n    \"release\": \"");
    out.append(d.version.release.as_str());
    proof {
        reveal(t_release);
        assert(out@ + t_codename(d@) =~= target);
    }
    out.append("\",\n    \"codename\": \"");
    out.append(d.version.codename.as_str());
    proof {
        reveal(t_codename);
        assert(out@ + t_sdk(d@) =~= target);
    }
    out.append("\",\n    \"sdk\": ");
    push_dec(out, d.version.sdk as u64);
    proof {
        reveal(t_sdk);
        assert(out@ + t_sim_info(d@) =~= target);
    }
}

/// Appends the carrier and network fields: the `sim_info` segment through
/// the `wifi_ssid` segment.
fn push_network_fields(out: &mut String, d: &DeviceIdentity)
    ensures
        final(out)@ + t_imsi(d@) == old(out)@ + t_sim_info(d@),
{
    let ghost target = old(out)@ + t_sim_info(d@);
    out.append("\n  },\n  \"sim_info\": \"");
    out.append(d.sim_info.as_str());
    proof {
        reveal(t_sim_info);
        assert(out@ + t_os_type(d@) =~= target);
    }
    out.append("\",\n  \"os_type\": \"");
    out.append(d.os_type.as_str());
    proof {
        reveal(t_os_type);
        assert(out@ + t_mac_address(d@) =~= target);
    }
    out.append("\",\n  \"mac_address\": \"");
    out.append(d.mac_address.as_str());
    proof {
        reveal(t_mac_address);
        assert(out@ + t_wifi_bssid(d@) =~= target);
    }
    out.append("\",\n  \"wifi_bssid\": \"");
    out.append(d.wifi_bssid.as_str());
    proof {
        reveal(t_wifi_bssid);
        assert(out@ + t_wifi_ssid(d@) =~= target);
    }
    out.append("\",\n  \"wifi_ssid\": \"");
    out.append(d.wifi_ssid.as_str());
    proof {
        reveal(t_wifi_ssid);
        assert(out@ + t_imsi(d@) =~= target);
    }
}

/// Emits the canonical document for `d`, exactly as [`canon_device`]
/// defines it.
pub fn emit_device(d: &DeviceIdentity) -> (r: String)
    ensures
        r@ == canon_device(d@),
{
    let ghost target = canon_device(d@);
    let mut out = String::new();
    push_hardware_fields(&mut out, d);
    push_build_fields(&mut out, d);
    push_version_fields(&mut out, d);
    push_network_fields(&mut out, d);
    proof {
        reveal(t_wifi_ssid);
        assert(out@ + t_imsi(d@) =~= target);
    }
    out.append("\",\n  \"imsi_md5\": [");
    let ghost pre = out@;
    let n = d.imsi_md5.len();
    let mut i: usize = 0;
    while i < n
        invariant
            n == d.imsi_md5@.len(),
            i <= n,
            out@ == pre + items_of(d.imsi_md5@.subrange(0, i as int)),
        decreases n - i,
    {
        if i > 0 {
            out.append(", ");
        }
        push_dec(&mut out, d.imsi_md5[i] as u64);
        proof {
            let sub = d.imsi_md5@.subrange(0, i as int);
            let sub1 = d.imsi_md5@.subrange(0, i + 1);
            assert(sub1.drop_last() =~= sub);
            assert(sub1.last() == d.imsi_md5@[i as int]);
            if i == 0 {
                assert(items_of(sub1) == dec_nat(sub1[0] as nat));
                assert(out@ =~= pre + items_of(sub1));
            } else {
                assert(items_of(sub1) == items_of(sub) + ", "@ + dec_nat(sub1.last() as nat));
                assert(out@ =~= pre + items_of(sub1));
            }
        }
        i = i + 1;
    }
    proof {
        assert(d.imsi_md5@.subrange(0, n as int) =~= d.imsi_md5@);
        reveal(t_imsi);
        assert(out@ + t_apn(d@) =~= target);
    }
    out.append("],\n  \"apn\": \"");
    out.append(d.apn.as_str());
    out.append("\"\n}");
    proof {
        reveal(t_apn);
        assert(out@ =~= target);
    }
    out
}

/// What a suffix equation says character by character.
proof fn lemma_suffix_index(s: Seq<char>, pos: int, w: Seq<char>)
    requires
        0 <= pos <= s.len(),
        s.subrange(pos, s.len() as int) == w,
    ensures
        s.len() - pos == w.len(),
        forall|j: int| 0 <= j < w.len() ==> s[pos + j] == #[trigger] w[j],
{
    assert(s.subrange(pos, s.len() as int).len() == s.len() - pos);
    assert forall|j: int| 0 <= j < w.len() implies s[pos + j] == #[trigger] w[j] by {
        assert(s.subrange(pos, s.len() as int)[j] == s[pos + j]);
    }
}

/// Splitting a suffix at an interior point.
proof fn lemma_suffix_tail(s: Seq<char>, pos: int, a: Seq<char>, b: Seq<char>)
    requires
        0 <= pos <= s.len(),
        s.subrange(pos, s.len() as int) == a + b,
    ensures
        pos + a.len() <= s.len(),
        s.subrange(pos + a.len(), s.len() as int) == b,
{
    lemma_suffix_index(s, pos, a + b);
    assert forall|j: int| 0 <= j < b.len() implies s[pos + a.len() + j] == b[j] by {
        assert(s[pos + (a.len() + j)] == (a + b)[a.len() + j]);
    }
    assert(s.subrange(pos + a.len(), s.len() as int) =~= b);
}

/// A suffix splits into two adjacent subranges and the rest.
proof fn lemma_split3(s: Seq<char>, pos: int, x: int, e: int)
    requires
        0 <= pos <= x <= e <= s.len(),
    ensures
        s.subrange(pos, s.len() as int) == s.subrange(pos, x) + s.subrange(x, e) + s.subrange(
            e,
            s.len() as int,
        ),
{
    assert(s.subrange(pos, s.len() as int) =~= s.subrange(pos, x) + s.subrange(x, e)
        + s.subrange(e, s.len() as int));
}

/// Matches the literal `lit` at position `pos` of `s`: returns the
/// position right after it exactly when it is there.
fn expect_lit(s: &str, n: usize, pos: usize, lit: &str) -> (r: Option<usize>)
    requires
        n == s@.len(),
        pos <= n,
    ensures
        match r {
            Option::Some(p) => p == pos + lit@.len() && p <= n && s@.subrange(
                pos as int,
                p as int,
            ) == lit@,
            Option::None => !(pos + lit@.len() <= n && s@.subrange(
                pos as int,
                pos + lit@.len(),
            ) == lit@),
        },
{
    let llen = lit.unicode_len();
    if llen > n - pos {
        return Option::None;
    }
    let mut i: usize = 0;
    while i < llen
        invariant
            n == s@.len(),
            llen == lit@.len(),
            pos + llen <= n,
            i <= llen,
            forall|j: int| 0 <= j < i ==> s@[pos + j] == lit@[j],
        decreases llen - i,
    {
        let cs = s.get_char(pos + i);
        let cl = lit.get_char(i);
        if cs != cl {
            proof {
                let sub = s@.subrange(pos as int, pos + llen);
                assert(sub[i as int] == s@[pos + i]);
                assert(sub[i as int] != lit@[i as int]);
            }
            return Option::None;
        }
        i = i + 1;
    }
    proof {
        assert(s@.subrange(pos as int, pos + llen) =~= lit@);
    }
    Option::Some(pos + llen)
}

/// Scans from `pos` for the closing quote of a string value: succeeds at
/// the first quote if everything before it is plain text.
fn scan_text(s: &str, n: usize, pos: usize) -> (r: Option<usize>)
    requires
        n == s@.len(),
        pos <= n,
    ensures
        match r {
            Option::Some(e) => pos <= e < n && s@[e as int] == '"' && (forall|j: int|
                pos <= j < e ==> plain_char(#[trigger] s@[j])),
            Option::None => forall|e2: int|
                pos <= e2 < n && s@[e2] == '"' ==> exists|j: int|
                    pos <= j < e2 && !plain_char(#[trigger] s@[j]),
        },
{
    let mut e: usize = pos;
    while e < n
        invariant
            n == s@.len(),
            pos <= e <= n,
            forall|j: int| pos <= j < e ==> plain_char(#[trigger] s@[j]),
        decreases n - e,
    {
        let c = s.get_char(e);
        if c == '"' {
            return Option::Some(e);
        }
        if !is_plain_char(c) {
            proof {
                assert forall|e2: int| pos <= e2 < n && s@[e2] == '"' implies exists|j: int|
                    pos <= j < e2 && !plain_char(#[trigger] s@[j]) by {
                    if e2 <= e {
                        assert(forall|j: int| pos <= j < e ==> s@[j] != '"');
                        assert(false);
                    } else {
                        assert(pos <= e < e2 && !plain_char(s@[e as int]));
                    }
                }
            }
            return Option::None;
        }
        e = e + 1;
    }
    proof {
        assert(forall|j: int| pos <= j < n ==> s@[j] != '"');
    }
    Option::None
}

/// Parses one quoted string value preceded by the literal `lit`: exactly
/// when `s` continues at `pos` with `lit`, then plain text, then a quote,
/// it returns that text and the position of the closing quote.
fn parse_string_field(s: &str, n: usize, pos: usize, lit: &str) -> (r: Option<(String, usize)>)
    requires
        n == s@.len(),
        pos <= n,
    ensures
        r is Some ==> {
            &&& pos + lit@.len() <= (r->0).1 < n
            &&& s@.subrange(pos as int, pos + lit@.len()) == lit@
            &&& (r->0).0@ == s@.subrange(pos + lit@.len(), (r->0).1 as int)
            &&& plain_seq((r->0).0@)
            &&& s@[(r->0).1 as int] == '"'
        },
        forall|f2: Seq<char>, t: Seq<char>|
            plain_seq(f2) && t.len() > 0 && t[0] == '"' && s@.subrange(pos as int, n as int)
                == lit@ + #[trigger] (f2 + t) ==> r is Some && (r->0).0@ == f2 && (r->0).1 == pos
                + lit@.len() + f2.len(),
{
    let first = expect_lit(s, n, pos, lit);
    match first {
        Option::None => {
            proof {
                assert forall|f2: Seq<char>, t: Seq<char>|
                    plain_seq(f2) && t.len() > 0 && t[0] == '"' && s@.subrange(
                        pos as int,
                        n as int,
                    ) == lit@ + #[trigger] (f2 + t) implies false by {
                    let whole = lit@ + (f2 + t);
                    lemma_suffix_index(s@, pos as int, whole);
                    assert(forall|j: int| 0 <= j < lit@.len() ==> whole[j] == lit@[j]);
                    assert(s@.subrange(pos as int, pos + lit@.len()) =~= lit@);
                }
            }
            Option::None
        },
        Option::Some(p) => {
            let found = scan_text(s, n, p);
            match found {
                Option::None => {
                    proof {
                        assert forall|f2: Seq<char>, t: Seq<char>|
                            plain_seq(f2) && t.len() > 0 && t[0] == '"' && s@.subrange(
                                pos as int,
                                n as int,
                            ) == lit@ + #[trigger] (f2 + t) implies false by {
                            let whole = lit@ + (f2 + t);
                            lemma_suffix_index(s@, pos as int, whole);
                            assert(forall|j: int|
                                0 <= j < f2.len() ==> whole[lit@.len() + j] == f2[j]);
                            assert(forall|j: int|
                                0 <= j < f2.len() ==> s@[p + j] == f2[j]);
                            let q = p + f2.len();
                            assert(whole[lit@.len() + f2.len() as int] == t[0]);
                            assert(s@[q] == '"');
                            assert(q < n);
                            let j = choose|j: int| p <= j < q && !plain_char(#[trigger] s@[j]);
                            assert(plain_char(f2[j - p]));
                        }
                    }
                    Option::None
                },
                Option::Some(e) => {
                    let field = s.substring_char(p, e).to_owned();
                    proof {
                        assert forall|f2: Seq<char>, t: Seq<char>|
                            plain_seq(f2) && t.len() > 0 && t[0] == '"' && s@.subrange(
                                pos as int,
                                n as int,
                            ) == lit@ + #[trigger] (f2 + t) implies field@ == f2 && e == pos
                            + lit@.len() + f2.len() by {
                            let whole = lit@ + (f2 + t);
                            lemma_suffix_index(s@, pos as int, whole);
                            assert(forall|j: int|
                                0 <= j < f2.len() ==> whole[lit@.len() + j] == f2[j]);
                            assert(forall|j: int|
                                0 <= j < f2.len() ==> s@[p + j] == f2[j]);
                            let q = p + f2.len();
                            assert(whole[lit@.len() + f2.len() as int] == t[0]);
                            assert(s@[q] == '"');
                            assert(q < n);
                            if e < q {
                                assert(s@[e as int] == f2[e - p]);
                                assert(plain_char(f2[e - p]));
                                assert(false);
                            }
                            if e > q {
                                assert(plain_char(s@[q]));
                                assert(false);
                            }
                            assert(field@ =~= f2);
                        }
                    }
                    Option::Some((field, e))
                },
            }
        },
    }
}

/// Parses one decimal number preceded by the literal `lit`: exactly when
/// `s` continues at `pos` with `lit` and then the canonical decimal
/// rendering of a value up to `bound`, delimited by a non-digit, it
/// returns that value and the position right after its digits.
fn parse_num_after(s: &str, n: usize, pos: usize, lit: &str, bound: u64) -> (r: Option<
    (u64, usize),
>)
    requires
        n == s@.len(),
        pos <= n,
        bound <= 0xFFFF_FFFF,
    ensures
        r is Some ==> {
            &&& pos + lit@.len() < (r->0).1 <= n
            &&& s@.subrange(pos as int, pos + lit@.len()) == lit@
            &&& (r->0).0 <= bound
            &&& s@.subrange(pos + lit@.len(), (r->0).1 as int) == dec_nat((r->0).0 as nat)
            &&& ((r->0).1 == n || !is_digit(s@[(r->0).1 as int]))
        },
        forall|m: nat, t: Seq<char>|
            m <= bound && (t.len() == 0 || !is_digit(t[0])) && s@.subrange(pos as int, n as int)
                == lit@ + #[trigger] (dec_nat(m) + t) ==> r is Some && (r->0).0 == m && (r->0).1
                == pos + lit@.len() + dec_nat(m).len(),
{
    let first = expect_lit(s, n, pos, lit);
    let p = match first {
        Option::None => {
            proof {
                assert forall|m: nat, t: Seq<char>|
                    m <= bound && (t.len() == 0 || !is_digit(t[0])) && s@.subrange(
                        pos as int,
                        n as int,
                    ) == lit@ + #[trigger] (dec_nat(m) + t) implies false by {
                    let whole = lit@ + (dec_nat(m) + t);
                    lemma_suffix_index(s@, pos as int, whole);
                    assert(forall|j: int| 0 <= j < lit@.len() ==> whole[j] == lit@[j]);
                    assert(s@.subrange(pos as int, pos + lit@.len()) =~= lit@);
                }
            }
            return Option::None;
        },
        Option::Some(p) => p,
    };
    let mut e: usize = p;
    while e < n && is_digit_char(s.get_char(e))
        invariant
            n == s@.len(),
            p <= e <= n,
            forall|j: int| p <= j < e ==> is_digit(#[trigger] s@[j]),
        decreases n - e,
    {
        e = e + 1;
    }
    proof {
        lemma_digit_run_facts(s@, n as int, p as int, e as int);
    }
    if e == p {
        proof {
            assert forall|m: nat, t: Seq<char>|
                m <= bound && (t.len() == 0 || !is_digit(t[0])) && s@.subrange(
                    pos as int,
                    n as int,
                ) == lit@ + #[trigger] (dec_nat(m) + t) implies false by {
                lemma_run_locates(s@, n as int, pos as int, p as int, e as int, lit@, m, t);
                lemma_dec_nat_basics(m);
            }
        }
        return Option::None;
    }
    let c0 = s.get_char(p);
    if c0 == '0' && e > p + 1 {
        proof {
            assert forall|m: nat, t: Seq<char>|
                m <= bound && (t.len() == 0 || !is_digit(t[0])) && s@.subrange(
                    pos as int,
                    n as int,
                ) == lit@ + #[trigger] (dec_nat(m) + t) implies false by {
                lemma_run_locates(s@, n as int, pos as int, p as int, e as int, lit@, m, t);
                lemma_dec_nat_basics(m);
                assert(dec_nat(m)[0] == s@.subrange(p as int, e as int)[0]);
            }
        }
        return Option::None;
    }
    let mut acc: u64 = 0;
    let mut i: usize = p;
    while i < e
        invariant
            n == s@.len(),
            pos <= n,
            pos + lit@.len() == p,
            p <= i <= e <= n,
            forall|j: int| p <= j < e ==> is_digit(#[trigger] s@[j]),
            acc <= bound,
            bound <= 0xFFFF_FFFF,
            acc == text_val(s@.subrange(p as int, i as int)),
            // canonical-form facts survive for the final return
            e == p || s@[p as int] != '0' || e == p + 1,
            run_is_maximal(s@, n as int, p as int, e as int),
        decreases e - i,
    {
        let c = s.get_char(i);
        let d: u64 = ((c as u32) - 48) as u64;
        let next: u64 = acc * 10 + d;
        proof {
            let cur = s@.subrange(p as int, i as int);
            let cur1 = s@.subrange(p as int, i + 1);
            assert(cur1.drop_last() =~= cur);
            assert(cur1.last() == s@[i as int]);
            assert(text_val(cur1) == text_val(cur) * 10 + digit_val(s@[i as int]));
        }
        if next > bound {
            proof {
                lemma_overflow_reject(s@, n as int, pos as int, p as int, e as int, i as int,
                    lit@, bound as int, next as int);
            }
            return Option::None;
        }
        acc = next;
        i = i + 1;
    }
    proof {
        let run = s@.subrange(p as int, e as int);
        assert(digits_seq(run));
        assert(run.len() >= 1);
        assert(run[0] == s@[p as int]);
        lemma_canonical_digits(run);
        assert(dec_nat(acc as nat) == run);
        assert forall|m: nat, t: Seq<char>|
            m <= bound && (t.len() == 0 || !is_digit(t[0])) && s@.subrange(pos as int, n as int)
                == lit@ + #[trigger] (dec_nat(m) + t) implies acc == m && e == pos + lit@.len()
            + dec_nat(m).len() by {
            lemma_run_locates(s@, n as int, pos as int, p as int, e as int, lit@, m, t);
            lemma_dec_nat_basics(m);
        }
    }
    Option::Some((acc, e))
}

/// The digit run found by the scanning loop is maximal: it ends at the
/// end of the text or at a non-digit.
pub open spec fn run_is_maximal(s: Seq<char>, n: int, p: int, e: int) -> bool {
    &&& p <= e <= n
    &&& (forall|j: int| p <= j < e ==> is_digit(#[trigger] s[j]))
    &&& (e == n || !is_digit(s[e]))
}

/// Establishes [`run_is_maximal`] right after the scanning loop.
proof fn lemma_digit_run_facts(s: Seq<char>, n: int, p: int, e: int)
    requires
        n == s.len(),
        p <= e <= n,
        forall|j: int| p <= j < e ==> is_digit(#[trigger] s[j]),
        e == n || !is_digit(s[e]),
    ensures
        run_is_maximal(s, n, p, e),
{
}

/// Where the canonical rendering of `m` stands in the text, a maximal
/// digit run starting at its first digit ends exactly at its last digit.
proof fn lemma_run_locates(
    s: Seq<char>,
    n: int,
    pos: int,
    p: int,
    e: int,
    lit: Seq<char>,
    m: nat,
    t: Seq<char>,
)
    requires
        n == s.len(),
        0 <= pos <= n,
        p == pos + lit.len(),
        run_is_maximal(s, n, p, e),
        t.len() == 0 || !is_digit(t[0]),
        s.subrange(pos, n) == lit + (dec_nat(m) + t),
    ensures
        e == p + dec_nat(m).len(),
        s.subrange(p, e) == dec_nat(m),
        text_val(s.subrange(p, e)) == m,
{
    lemma_dec_nat_basics(m);
    let d = dec_nat(m);
    let whole = lit + (d + t);
    lemma_suffix_index(s, pos, whole);
    assert(forall|j: int| 0 <= j < d.len() ==> whole[lit.len() + j] == d[j]);
    assert(forall|j: int| 0 <= j < d.len() ==> s[p + j] == d[j]);
    let q = p + d.len();
    if e < q {
        assert(s[e] == d[e - p]);
        assert(is_digit(d[e - p]));
        assert(false);
    }
    if e > q {
        assert(q < n);
        assert(whole[lit.len() + d.len() as int] == t[0]);
        assert(s[q] == t[0]);
        assert(is_digit(s[q]));
        assert(false);
    }
    assert(s.subrange(p, e) =~= d);
}

/// If some prefix of the digit run already exceeds the bound, no value
/// within the bound can be written there canonically.
proof fn lemma_overflow_reject(
    s: Seq<char>,
    n: int,
    pos: int,
    p: int,
    e: int,
    i: int,
    lit: Seq<char>,
    bound: int,
    next: int,
)
    requires
        n == s.len(),
        0 <= pos <= n,
        p == pos + lit.len(),
        run_is_maximal(s, n, p, e),
        p <= i < e,
        next == text_val(s.subrange(p, i + 1)),
        next > bound,
    ensures
        forall|m: nat, t: Seq<char>|
            m <= bound && (t.len() == 0 || !is_digit(t[0])) && s.subrange(pos, n) == lit
                + #[trigger] (dec_nat(m) + t) ==> false,
{
    assert forall|m: nat, t: Seq<char>|
        m <= bound && (t.len() == 0 || !is_digit(t[0])) && s.subrange(pos, n) == lit
            + #[trigger] (dec_nat(m) + t) implies false by {
        lemma_run_locates(s, n, pos, p, e, lit, m, t);
        let run = s.subrange(p, e);
        lemma_text_val_bounds(run);
        assert(s.subrange(p, i + 1) =~= run.subrange(0, i + 1 - p));
        assert(text_val(run.subrange(0, i + 1 - p)) <= text_val(run));
    }
}

/// The alternate-schema export document: the schema version tag and the
/// translated identity, pretty-printed, with the pseudo-IMSI hash as a
/// hexadecimal string.
pub open spec fn mirai_doc(m: MiraiDeviceInfoView) -> Seq<char> {
    "{\n  \"deviceInfoVersion\": "@ + dec_nat(m.device_info_version as nat)
        + ",\n  \"data\": {\n    \"display\": \""@ + m.data.display
        + "\",\n    \"product\": \""@ + m.data.product
        + "\",\n    \"device\": \""@ + m.data.device
        + "\",\n    \"board\": \""@ + m.data.board
        + "\",\n    \"brand\": \""@ + m.data.brand
        + "\",\n    \"model\": \""@ + m.data.model
        + "\",\n    \"bootloader\": \""@ + m.data.bootloader
        + "\",\n    \"fingerprint\": \""@ + m.data.fingerprint
        + "\",\n    \"bootId\": \""@ + m.data.boot_id
        + "\",\n    \"procVersion\": \""@ + m.data.proc_version
        + "\",\n    \"baseBand\": \""@ + m.data.base_band
        + "\",\n    \"version\": {\n      \"incremental\": \""@ + m.data.version.incremental
        + "\",\n      \"release\": \""@ + m.data.version.release
        + "\",\n      \"codename\": \""@ + m.data.version.codename
        + "\",\n      \"sdk\": "@ + dec_nat(m.data.version.sdk as nat)
        + "\n    },\n    \"simInfo\": \""@ + m.data.sim_info
        + "\",\n    \"osType\": \""@ + m.data.os_type
        + "\",\n    \"macAddress\": \""@ + m.data.mac_address
        + "\",\n    \"wifiBSSID\": \""@ + m.data.wifi_bssid
        + "\",\n    \"wifiSSID\": \""@ + m.data.wifi_ssid
        + "\",\n    \"imsiMd5\": \""@ + m.data.imsi_md5
        + "\",\n    \"imei\": \""@ + m.data.imei
        + "\",\n    \"apn\": \""@ + m.data.apn
        + "\"\n  }\n}"@
}

/// Emits the alternate-schema export document for `m`, exactly as
/// [`mirai_doc`] defines it.
pub fn emit_mirai_info(m: &MiraiDeviceInfo) -> (r: String)
    ensures
        r@ == mirai_doc(m@),
{
    let mut out = String::from_str("{\n  \"deviceInfoVersion\": ");
    push_dec(&mut out, m.device_info_version as u64);
    out.append(",\n  \"data\": {\n    \"display\": \"");
    out.append(m.data.display.as_str());
    out.append("\",\n    \"product\": \"");
    out.append(m.data.product.as_str());
    out.append("\",\n    \"device\": \"");
    out.append(m.data.device.as_str());
    out.append("\",\n    \"board\": \"");
    out.append(m.data.board.as_str());
    out.append("\",\n    \"brand\": \"");
    out.append(m.data.brand.as_str());
    out.append("\",\n    \"model\": \"");
    out.append(m.data.model.as_str());
    out.append("\",\n    \"bootloader\": \"");
    out.append(m.data.bootloader.as_str());
    out.append("\",\n    \"fingerprint\": \"");
    out.append(m.data.fingerprint.as_str());
    out.append("\",\n    \"bootId\": \"");
    out.append(m.data.boot_id.as_str());
    out.append("\",\n    \"procVersion\": \"");
    out.append(m.data.proc_version.as_str());
    out.append("\",\n    \"baseBand\": \"");
    out.append(m.data.base_band.as_str());
    out.append("\",\n    \"version\": {\n      \"incremental\": \"");
    out.append(m.data.version.incremental.as_str());
    out.append("\",\n      \"release\": \"");
    out.append(m.data.version.release.as_str());
    out.append("\",\n      \"codename\": \"");
    out.append(m.data.version.codename.as_str());
    out.append("\",\n      \"sdk\": ");
    push_dec(&mut out, m.data.version.sdk as u64);
    out.append("\n    },\n    \"simInfo\": \"");
    out.append(m.data.sim_info.as_str());
    out.append("\",\n    \"osType\": \"");
    out.append(m.data.os_type.as_str());
    out.append("\",\n    \"macAddress\": \"");
    out.append(m.data.mac_address.as_str());
    out.append("\",\n    \"wifiBSSID\": \"");
    out.append(m.data.wifi_bssid.as_str());
    out.append("\",\n    \"wifiSSID\": \"");
    out.append(m.data.wifi_ssid.as_str());
    out.append("\",\n    \"imsiMd5\": \"");
    out.append(m.data.imsi_md5.as_str());
    out.append("\",\n    \"imei\": \"");
    out.append(m.data.imei.as_str());
    out.append("\",\n    \"apn\": \"");
    out.append(m.data.apn.as_str());
    out.append("\"\n  }\n}");
    proof {
        assert(out@ =~= mirai_doc(m@));
    }
    out
}


/// Whether `s` is the canonical document of the well-formed identity `dv`.
pub open spec fn matches_doc(s: Seq<char>, dv: DeviceIdentityView) -> bool {
    &&& dv.wf()
    &&& s == canon_device(dv)
}

proof fn lemma_head_t_product(d: DeviceIdentityView)
    ensures
        t_product(d).len() > 0,
        t_product(d)[0] == '"',
{
    reveal(t_product);
    reveal_strlit("\",\n  \"product\": \"");
}

proof fn lemma_head_t_device(d: DeviceIdentityView)
    ensures
        t_device(d).len() > 0,
        t_device(d)[0] == '"',
{
    reveal(t_device);
    reveal_strlit("\",\n  \"device\": \"");
}

proof fn lemma_head_t_board(d: DeviceIdentityView)
    ensures
        t_board(d).len() > 0,
        t_board(d)[0] == '"',
{
    reveal(t_board);
    reveal_strlit("\",\n  \"board\": \"");
}

proof fn lemma_head_t_model(d: DeviceIdentityView)
    ensures
        t_model(d).len() > 0,
        t_model(d)[0] == '"',
{
    reveal(t_model);
    reveal_strlit("\",\n  \"model\": \"");
}

proof fn lemma_head_t_finger_print(d: DeviceIdentityView)
    ensures
        t_finger_print(d).len() > 0,
        t_finger_print(d)[0] == '"',
{
    reveal(t_finger_print);
    reveal_strlit("\",\n  \"finger_print\": \"");
}

proof fn lemma_head_t_boot_id(d: DeviceIdentityView)
    ensures
        t_boot_id(d).len() > 0,
        t_boot_id(d)[0] == '"',
{
    reveal(t_boot_id);
    reveal_strlit("\",\n  \"boot_id\": \"");
}

proof fn lemma_head_t_proc_version(d: DeviceIdentityView)
    ensures
        t_proc_version(d).len() > 0,
        t_proc_version(d)[0] == '"',
{
    reveal(t_proc_version);
    reveal_strlit("\",\n  \"proc_version\": \"");
}

proof fn lemma_head_t_imei(d: DeviceIdentityView)
    ensures
        t_imei(d).len() > 0,
        t_imei(d)[0] == '"',
{
    reveal(t_imei);
    reveal_strlit("\",\n  \"imei\": \"");
}

proof fn lemma_head_t_brand(d: DeviceIdentityView)
    ensures
        t_brand(d).len() > 0,
        t_brand(d)[0] == '"',
{
    reveal(t_brand);
    reveal_strlit("\",\n  \"brand\": \"");
}

proof fn lemma_head_t_bootloader(d: DeviceIdentityView)
    ensures
        t_bootloader(d).len() > 0,
        t_bootloader(d)[0] == '"',
{
    reveal(t_bootloader);
    reveal_strlit("\",\n  \"bootloader\": \"");
}

proof fn lemma_head_t_base_band(d: DeviceIdentityView)
    ensures
        t_base_band(d).len() > 0,
        t_base_band(d)[0] == '"',
{
    reveal(t_base_band);
    reveal_strlit("\",\n  \"base_band\": \"");
}

proof fn lemma_head_t_incremental(d: DeviceIdentityView)
    ensures
        t_incremental(d).len() > 0,
        t_incremental(d)[0] == '"',
{
    reveal(t_incremental);
    reveal_strlit("\",\n  \"version\": {\n    \"incremental\": \"");
}

proof fn lemma_head_t_release(d: DeviceIdentityView)
    ensures
        t_release(d).len() > 0,
        t_release(d)[0] == '"',
{
    reveal(t_release);
    reveal_strlit("\",\n    \"release\": \"");
}

proof fn lemma_head_t_codename(d: DeviceIdentityView)
    ensures
        t_codename(d).len() > 0,
        t_codename(d)[0] == '"',
{
    reveal(t_codename);
    reveal_strlit("\",\n    \"codename\": \"");
}

proof fn lemma_head_t_sdk(d: DeviceIdentityView)
    ensures
        t_sdk(d).len() > 0,
        t_sdk(d)[0] == '"',
{
    reveal(t_sdk);
    reveal_strlit("\",\n    \"sdk\": ");
}

proof fn lemma_head_t_sim_info(d: DeviceIdentityView)
    ensures
        t_sim_info(d).len() > 0,
        t_sim_info(d)[0] == '\n',
{
    reveal(t_sim_info);
    reveal_strlit("\n  },\n  \"sim_info\": \"");
}

proof fn lemma_head_t_os_type(d: DeviceIdentityView)
    ensures
        t_os_type(d).len() > 0,
        t_os_type(d)[0] == '"',
{
    reveal(t_os_type);
    reveal_strlit("\",\n  \"os_type\": \"");
}

proof fn lemma_head_t_mac_address(d: DeviceIdentityView)
    ensures
        t_mac_address(d).len() > 0,
        t_mac_address(d)[0] == '"',
{
    reveal(t_mac_address);
    reveal_strlit("\",\n  \"mac_address\": \"");
}

proof fn lemma_head_t_wifi_bssid(d: DeviceIdentityView)
    ensures
        t_wifi_bssid(d).len() > 0,
        t_wifi_bssid(d)[0] == '"',
{
    reveal(t_wifi_bssid);
    reveal_strlit("\",\n  \"wifi_bssid\": \"");
}

proof fn lemma_head_t_wifi_ssid(d: DeviceIdentityView)
    ensures
        t_wifi_ssid(d).len() > 0,
        t_wifi_ssid(d)[0] == '"',
{
    reveal(t_wifi_ssid);
    reveal_strlit("\",\n  \"wifi_ssid\": \"");
}

proof fn lemma_head_t_imsi(d: DeviceIdentityView)
    ensures
        t_imsi(d).len() > 0,
        t_imsi(d)[0] == '"',
{
    reveal(t_imsi);
    reveal_strlit("\",\n  \"imsi_md5\": [");
}

proof fn lemma_head_t_apn(d: DeviceIdentityView)
    ensures
        t_apn(d).len() > 0,
        t_apn(d)[0] == ']',
{
    reveal(t_apn);
    reveal_strlit("],\n  \"apn\": \"");
}

/// The text that follows the `k`-th pseudo-IMSI item never starts with a
/// digit.
proof fn lemma_item_tail_head(d: DeviceIdentityView, k: int)
    requires
        0 <= k <= 16,
        d.imsi_md5.len() == 16,
    ensures
        (items_from(d.imsi_md5, k) + t_apn(d)).len() > 0,
        !is_digit((items_from(d.imsi_md5, k) + t_apn(d))[0]),
{
    if k < 16 {
        reveal_strlit(", ");
        assert(items_from(d.imsi_md5, k)[0] == ',');
    } else {
        lemma_head_t_apn(d);
        assert(items_from(d.imsi_md5, k) =~= Seq::<char>::empty());
        assert((items_from(d.imsi_md5, k) + t_apn(d))[0] == t_apn(d)[0]);
    }
}


/// Parses the document head and the hardware description fields.
#[verifier::rlimit(100)]
#[verifier::spinoff_prover]
fn parse_hardware_fields(s: &str, n: usize, pos: usize) -> (r: Option<(String, String, String, String, String, usize)>)
    requires
        n == s@.len(),
        pos <= n,
    ensures
        r is Some ==> {
            &&& pos <= (r->0).5 <= n
            &&& plain_seq((r->0).0@)
            &&& plain_seq((r->0).1@)
            &&& plain_seq((r->0).2@)
            &&& plain_seq((r->0).3@)
            &&& plain_seq((r->0).4@)
        },
        forall|dv: DeviceIdentityView|
            #[trigger] matches_doc(s@, dv) && s@.subrange(pos as int, n as int) == canon_device(dv)
                ==> r is Some && (r->0).0@ == dv.display && (r->0).1@ == dv.product && (r->0).2@ == dv.device && (r->0).3@ == dv.board && (r->0).4@ == dv.model && s@.subrange((r->0).5 as int, n as int)
                == t_finger_print(dv),
        r is Some ==> forall|d2: DeviceIdentityView|
            s@.subrange((r->0).5 as int, n as int) == #[trigger] t_finger_print(d2) && d2.display == (r->0).0@ && d2.product == (r->0).1@ && d2.device == (r->0).2@ && d2.board == (r->0).3@ && d2.model == (r->0).4@
                ==> s@.subrange(pos as int, n as int) == canon_device(d2),
{

    let st_display = parse_string_field(s, n, pos, "{\n  \"display\": \"");
    proof {
        assert forall|dv: DeviceIdentityView| #[trigger] matches_doc(s@, dv) && s@.subrange(pos as int, n as int) == canon_device(dv) implies st_display is Some
            && (st_display->0).0@ == dv.display && (st_display->0).1 == pos + "{\n  \"display\": \""@.len()
            + dv.display.len() by {
            reveal(canon_device);
            lemma_head_t_product(dv);
            assert(s@.subrange(pos as int, n as int) =~= "{\n  \"display\": \""@ + (dv.display + t_product(dv)));
        }
    }
    let (f_display, q1) = match st_display {
        Option::Some(x) => x,
        Option::None => {
            return Option::None;
        },
    };
    proof {
        lemma_split3(s@, pos as int, pos + "{\n  \"display\": \""@.len(), q1 as int);
        assert(s@.subrange(pos as int, n as int) == "{\n  \"display\": \""@ + f_display@ + s@.subrange(
            q1 as int,
            n as int,
        ));
        assert forall|dv: DeviceIdentityView| #[trigger] matches_doc(s@, dv) && s@.subrange(pos as int, n as int) == canon_device(dv) implies s@.subrange(
            q1 as int,
            n as int,
        ) == t_product(dv) by {
            reveal(canon_device);
            assert(s@.subrange(pos as int, n as int) =~= ("{\n  \"display\": \""@ + dv.display) + t_product(dv));
            lemma_suffix_tail(s@, pos as int, "{\n  \"display\": \""@ + dv.display, t_product(dv));
        }
    }
    let st_product = parse_string_field(s, n, q1, "\",\n  \"product\": \"");
    proof {
        assert forall|dv: DeviceIdentityView| #[trigger] matches_doc(s@, dv) && s@.subrange(pos as int, n as int) == canon_device(dv) implies st_product is Some
            && (st_product->0).0@ == dv.product && (st_product->0).1 == q1 + "\",\n  \"product\": \""@.len()
            + dv.product.len() by {
            reveal(t_product);
            lemma_head_t_device(dv);
            assert(s@.subrange(q1 as int, n as int) =~= "\",\n  \"product\": \""@ + (dv.product + t_device(dv)));
        }
    }
    let (f_product, q2) = match st_product {
        Option::Some(x) => x,
        Option::None => {
            return Option::None;
        },
    };
    proof {
        lemma_split3(s@, q1 as int, q1 + "\",\n  \"product\": \""@.len(), q2 as int);
        assert(s@.subrange(q1 as int, n as int) == "\",\n  \"product\": \""@ + f_product@ + s@.subrange(
            q2 as int,
            n as int,
        ));
        assert forall|dv: DeviceIdentityView| #[trigger] matches_doc(s@, dv) && s@.subrange(pos as int, n as int) == canon_device(dv) implies s@.subrange(
            q2 as int,
            n as int,
        ) == t_device(dv) by {
            reveal(t_product);
            assert(s@.subrange(q1 as int, n as int) =~= ("\",\n  \"product\": \""@ + dv.product) + t_device(dv));
            lemma_suffix_tail(s@, q1 as int, "\",\n  \"product\": \""@ + dv.product, t_device(dv));
        }
    }
    let st_device = parse_string_field(s, n, q2, "\",\n  \"device\": \"");
    proof {
        assert forall|dv: DeviceIdentityView| #[trigger] matches_doc(s@, dv) && s@.subrange(pos as int, n as int) == canon_device(dv) implies st_device is Some
            && (st_device->0).0@ == dv.device && (st_device->0).1 == q2 + "\",\n  \"device\": \""@.len()
            + dv.device.len() by {
            reveal(t_device);
            lemma_head_t_board(dv);
            assert(s@.subrange(q2 as int, n as int) =~= "\",\n  \"device\": \""@ + (dv.device + t_board(dv)));
        }
    }
    let (f_device, q3) = match st_device {
        Option::Some(x) => x,
        Option::None => {
            return Option::None;
        },
    };
    proof {
        lemma_split3(s@, q2 as int, q2 + "\",\n  \"device\": \""@.len(), q3 as int);
        assert(s@.subrange(q2 as int, n as int) == "\",\n  \"device\": \""@ + f_device@ + s@.subrange(
            q3 as int,
            n as int,
        ));
        assert forall|dv: DeviceIdentityView| #[trigger] matches_doc(s@, dv) && s@.subrange(pos as int, n as int) == canon_device(dv) implies s@.subrange(
            q3 as int,
            n as int,
        ) == t_board(dv) by {
            reveal(t_device);
            assert(s@.subrange(q2 as int, n as int) =~= ("\",\n  \"device\": \""@ + dv.device) + t_board(dv));
            lemma_suffix_tail(s@, q2 as int, "\",\n  \"device\": \""@ + dv.device, t_board(dv));
        }
    }
    let st_board = parse_string_field(s, n, q3, "\",\n  \"board\": \"");
    proof {
        assert forall|dv: DeviceIdentityView| #[trigger] matches_doc(s@, dv) && s@.subrange(pos as int, n as int) == canon_device(dv) implies st_board is Some
            && (st_board->0).0@ == dv.board && (st_board->0).1 == q3 + "\",\n  \"board\": \""@.len()
            + dv.board.len() by {
            reveal(t_board);
            lemma_head_t_model(dv);
            assert(s@.subrange(q3 as int, n as int) =~= "\",\n  \"board\": \""@ + (dv.board + t_model(dv)));
        }
    }
    let (f_board, q4) = match st_board {
        Option::Some(x) => x,
        Option::None => {
            return Option::None;
        },
    };
    proof {
        lemma_split3(s@, q3 as int, q3 + "\",\n  \"board\": \""@.len(), q4 as int);
        assert(s@.subrange(q3 as int, n as int) == "\",\n  \"board\": \""@ + f_board@ + s@.subrange(
            q4 as int,
            n as int,
        ));
        assert forall|dv: DeviceIdentityView| #[trigger] matches_doc(s@, dv) && s@.subrange(pos as int, n as int) == canon_device(dv) implies s@.subrange(
            q4 as int,
            n as int,
        ) == t_model(dv) by {
            reveal(t_board);
            assert(s@.subrange(q3 as int, n as int) =~= ("\",\n  \"board\": \""@ + dv.board) + t_model(dv));
            lemma_suffix_tail(s@, q3 as int, "\",\n  \"board\": \""@ + dv.board, t_model(dv));
        }
    }
    let st_model = parse_string_field(s, n, q4, "\",\n  \"model\": \"");
    proof {
        assert forall|dv: DeviceIdentityView| #[trigger] matches_doc(s@, dv) && s@.subrange(pos as int, n as int) == canon_device(dv) implies st_model is Some
            && (st_model->0).0@ == dv.model && (st_model->0).1 == q4 + "\",\n  \"model\": \""@.len()
            + dv.model.len() by {
            reveal(t_model);
            lemma_head_t_finger_print(dv);
            assert(s@.subrange(q4 as int, n as int) =~= "\",\n  \"model\": \""@ + (dv.model + t_finger_print(dv)));
        }
    }
    let (f_model, q5) = match st_model {
        Option::Some(x) => x,
        Option::None => {
            return Option::None;
        },
    };
    proof {
        lemma_split3(s@, q4 as int, q4 + "\",\n  \"model\": \""@.len(), q5 as int);
        assert(s@.subrange(q4 as int, n as int) == "\",\n  \"model\": \""@ + f_model@ + s@.subrange(
            q5 as int,
            n as int,
        ));
        assert forall|dv: DeviceIdentityView| #[trigger] matches_doc(s@, dv) && s@.subrange(pos as int, n as int) == canon_device(dv) implies s@.subrange(
            q5 as int,
            n as int,
        ) == t_finger_print(dv) by {
            reveal(t_model);
            assert(s@.subrange(q4 as int, n as int) =~= ("\",\n  \"model\": \""@ + dv.model) + t_finger_print(dv));
            lemma_suffix_tail(s@, q4 as int, "\",\n  \"model\": \""@ + dv.model, t_finger_print(dv));
        }
    }
    proof {
        assert forall|d2: DeviceIdentityView|
            s@.subrange(q5 as int, n as int) == #[trigger] t_finger_print(d2) && d2.display == f_display@ && d2.product == f_product@ && d2.device == f_device@ && d2.board == f_board@ && d2.model == f_model@ implies s@.subrange(
            pos as int,
            n as int,
        ) == canon_device(d2) by {
            reveal(t_model);
            assert(s@.subrange(q4 as int, n as int) == t_model(d2));
            reveal(t_board);
            assert(s@.subrange(q3 as int, n as int) == t_board(d2));
            reveal(t_device);
            assert(s@.subrange(q2 as int, n as int) == t_device(d2));
            reveal(t_product);
            assert(s@.subrange(q1 as int, n as int) == t_product(d2));
            reveal(canon_device);
            assert(s@.subrange(pos as int, n as int) == canon_device(d2));
        }
    }
    Option::Some((f_display, f_product, f_device, f_board, f_model, q5))
}

/// Parses the build description fields.
#[verifier::rlimit(100)]
#[verifier::spinoff_prover]
fn parse_build_fields(s: &str, n: usize, pos: usize) -> (r: Option<(String, String, String, String, String, String, String, usize)>)
    requires
        n == s@.len(),
        pos <= n,
    ensures
        r is Some ==> {
            &&& pos <= (r->0).7 <= n
            &&& plain_seq((r->0).0@)
            &&& plain_seq((r->0).1@)
            &&& plain_seq((r->0).2@)
            &&& plain_seq((r->0).3@)
            &&& plain_seq((r->0).4@)
            &&& plain_seq((r->0).5@)
            &&& plain_seq((r->0).6@)
        },
        forall|dv: DeviceIdentityView|
            #[trigger] matches_doc(s@, dv) && s@.subrange(pos as int, n as int) == t_finger_print(dv)
                ==> r is Some && (r->0).0@ == dv.finger_print && (r->0).1@ == dv.boot_id && (r->0).2@ == dv.proc_version && (r->0).3@ == dv.imei && (r->0).4@ == dv.brand && (r->0).5@ == dv.bootloader && (r->0).6@ == dv.base_band && s@.subrange((r->0).7 as int, n as int)
                == t_incremental(dv),
        r is Some ==> forall|d2: DeviceIdentityView|
            s@.subrange((r->0).7 as int, n as int) == #[trigger] t_incremental(d2) && d2.finger_print == (r->0).0@ && d2.boot_id == (r->0).1@ && d2.proc_version == (r->0).2@ && d2.imei == (r->0).3@ && d2.brand == (r->0).4@ && d2.bootloader == (r->0).5@ && d2.base_band == (r->0).6@
                ==> s@.subrange(pos as int, n as int) == t_finger_print(d2),
{

    let st_finger_print = parse_string_field(s, n, pos, "\",\n  \"finger_print\": \"");
    proof {
        assert forall|dv: DeviceIdentityView| #[trigger] matches_doc(s@, dv) && s@.subrange(pos as int, n as int) == t_finger_print(dv) implies st_finger_print is Some
            && (st_finger_print->0).0@ == dv.finger_print && (st_finger_print->0).1 == pos + "\",\n  \"finger_print\": \""@.len()
            + dv.finger_print.len() by {
            reveal(t_finger_print);
            lemma_head_t_boot_id(dv);
            assert(s@.subrange(pos as int, n as int) =~= "\",\n  \"finger_print\": \""@ + (dv.finger_print + t_boot_id(dv)));
        }
    }
    let (f_finger_print, q1) = match st_finger_print {
        Option::Some(x) => x,
        Option::None => {
            return Option::None;
        },
    };
    proof {
        lemma_split3(s@, pos as int, pos + "\",\n  \"finger_print\": \""@.len(), q1 as int);
        assert(s@.subrange(pos as int, n as int) == "\",\n  \"finger_print\": \""@ + f_finger_print@ + s@.subrange(
            q1 as int,
            n as int,
        ));
        assert forall|dv: DeviceIdentityView| #[trigger] matches_doc(s@, dv) && s@.subrange(pos as int, n as int) == t_finger_print(dv) implies s@.subrange(
            q1 as int,
            n as int,
        ) == t_boot_id(dv) by {
            reveal(t_finger_print);
            assert(s@.subrange(pos as int, n as int) =~= ("\",\n  \"finger_print\": \""@ + dv.finger_print) + t_boot_id(dv));
            lemma_suffix_tail(s@, pos as int, "\",\n  \"finger_print\": \""@ + dv.finger_print, t_boot_id(dv));
        }
    }
    let st_boot_id = parse_string_field(s, n, q1, "\",\n  \"boot_id\": \"");
    proof {
        assert forall|dv: DeviceIdentityView| #[trigger] matches_doc(s@, dv) && s@.subrange(pos as int, n as int) == t_finger_print(dv) implies st_boot_id is Some
            && (st_boot_id->0).0@ == dv.boot_id && (st_boot_id->0).1 == q1 + "\",\n  \"boot_id\": \""@.len()
            + dv.boot_id.len() by {
            reveal(t_boot_id);
            lemma_head_t_proc_version(dv);
            assert(s@.subrange(q1 as int, n as int) =~= "\",\n  \"boot_id\": \""@ + (dv.boot_id + t_proc_version(dv)));
        }
    }
    let (f_boot_id, q2) = match st_boot_id {
        Option::Some(x) => x,
        Option::None => {
            return Option::None;
        },
    };
    proof {
        lemma_split3(s@, q1 as int, q1 + "\",\n  \"boot_id\": \""@.len(), q2 as int);
        assert(s@.subrange(q1 as int, n as int) == "\",\n  \"boot_id\": \""@ + f_boot_id@ + s@.subrange(
            q2 as int,
            n as int,
        ));
        assert forall|dv: DeviceIdentityView| #[trigger] matches_doc(s@, dv) && s@.subrange(pos as int, n as int) == t_finger_print(dv) implies s@.subrange(
            q2 as int,
            n as int,
        ) == t_proc_version(dv) by {
            reveal(t_boot_id);
            assert(s@.subrange(q1 as int, n as int) =~= ("\",\n  \"boot_id\": \""@ + dv.boot_id) + t_proc_version(dv));
            lemma_suffix_tail(s@, q1 as int, "\",\n  \"boot_id\": \""@ + dv.boot_id, t_proc_version(dv));
        }
    }
    let st_proc_version = parse_string_field(s, n, q2, "\",\n  \"proc_version\": \"");
    proof {
        assert forall|dv: DeviceIdentityView| #[trigger] matches_doc(s@, dv) && s@.subrange(pos as int, n as int) == t_finger_print(dv) implies st_proc_version is Some
            && (st_proc_version->0).0@ == dv.proc_version && (st_proc_version->0).1 == q2 + "\",\n  \"proc_version\": \""@.len()
            + dv.proc_version.len() by {
            reveal(t_proc_version);
            lemma_head_t_imei(dv);
            assert(s@.subrange(q2 as int, n as int) =~= "\",\n  \"proc_version\": \""@ + (dv.proc_version + t_imei(dv)));
        }
    }
    let (f_proc_version, q3) = match st_proc_version {
        Option::Some(x) => x,
        Option::None => {
            return Option::None;
        },
    };
    proof {
        lemma_split3(s@, q2 as int, q2 + "\",\n  \"proc_version\": \""@.len(), q3 as int);
        assert(s@.subrange(q2 as int, n as int) == "\",\n  \"proc_version\": \""@ + f_proc_version@ + s@.subrange(
            q3 as int,
            n as int,
        ));
        assert forall|dv: DeviceIdentityView| #[trigger] matches_doc(s@, dv) && s@.subrange(pos as int, n as int) == t_finger_print(dv) implies s@.subrange(
            q3 as int,
            n as int,
        ) == t_imei(dv) by {
            reveal(t_proc_version);
            assert(s@.subrange(q2 as int, n as int) =~= ("\",\n  \"proc_version\": \""@ + dv.proc_version) + t_imei(dv));
            lemma_suffix_tail(s@, q2 as int, "\",\n  \"proc_version\": \""@ + dv.proc_version, t_imei(dv));
        }
    }
    let st_imei = parse_string_field(s, n, q3, "\",\n  \"imei\": \"");
    proof {
        assert forall|dv: DeviceIdentityView| #[trigger] matches_doc(s@, dv) && s@.subrange(pos as int, n as int) == t_finger_print(dv) implies st_imei is Some
            && (st_imei->0).0@ == dv.imei && (st_imei->0).1 == q3 + "\",\n  \"imei\": \""@.len()
            + dv.imei.len() by {
            reveal(t_imei);
            lemma_head_t_brand(dv);
            assert(s@.subrange(q3 as int, n as int) =~= "\",\n  \"imei\": \""@ + (dv.imei + t_brand(dv)));
        }
    }
    let (f_imei, q4) = match st_imei {
        Option::Some(x) => x,
        Option::None => {
            return Option::None;
        },
    };
    proof {
        lemma_split3(s@, q3 as int, q3 + "\",\n  \"imei\": \""@.len(), q4 as int);
        assert(s@.subrange(q3 as int, n as int) == "\",\n  \"imei\": \""@ + f_imei@ + s@.subrange(
            q4 as int,
            n as int,
        ));
        assert forall|dv: DeviceIdentityView| #[trigger] matches_doc(s@, dv) && s@.subrange(pos as int, n as int) == t_finger_print(dv) implies s@.subrange(
            q4 as int,
            n as int,
        ) == t_brand(dv) by {
            reveal(t_imei);
            assert(s@.subrange(q3 as int, n as int) =~= ("\",\n  \"imei\": \""@ + dv.imei) + t_brand(dv));
            lemma_suffix_tail(s@, q3 as int, "\",\n  \"imei\": \""@ + dv.imei, t_brand(dv));
        }
    }
    let st_brand = parse_string_field(s, n, q4, "\",\n  \"brand\": \"");
    proof {
        assert forall|dv: DeviceIdentityView| #[trigger] matches_doc(s@, dv) && s@.subrange(pos as int, n as int) == t_finger_print(dv) implies st_brand is Some
            && (st_brand->0).0@ == dv.brand && (st_brand->0).1 == q4 + "\",\n  \"brand\": \""@.len()
            + dv.brand.len() by {
            reveal(t_brand);
            lemma_head_t_bootloader(dv);
            assert(s@.subrange(q4 as int, n as int) =~= "\",\n  \"brand\": \""@ + (dv.brand + t_bootloader(dv)));
        }
    }
    let (f_brand, q5) = match st_brand {
        Option::Some(x) => x,
        Option::None => {
            return Option::None;
        },
    };
    proof {
        lemma_split3(s@, q4 as int, q4 + "\",\n  \"brand\": \""@.len(), q5 as int);
        assert(s@.subrange(q4 as int, n as int) == "\",\n  \"brand\": \""@ + f_brand@ + s@.subrange(
            q5 as int,
            n as int,
        ));
        assert forall|dv: DeviceIdentityView| #[trigger] matches_doc(s@, dv) && s@.subrange(pos as int, n as int) == t_finger_print(dv) implies s@.subrange(
            q5 as int,
            n as int,
        ) == t_bootloader(dv) by {
            reveal(t_brand);
            assert(s@.subrange(q4 as int, n as int) =~= ("\",\n  \"brand\": \""@ + dv.brand) + t_bootloader(dv));
            lemma_suffix_tail(s@, q4 as int, "\",\n  \"brand\": \""@ + dv.brand, t_bootloader(dv));
        }
    }
    let st_bootloader = parse_string_field(s, n, q5, "\",\n  \"bootloader\": \"");
    proof {
        assert forall|dv: DeviceIdentityView| #[trigger] matches_doc(s@, dv) && s@.subrange(pos as int, n as int) == t_finger_print(dv) implies st_bootloader is Some
            && (st_bootloader->0).0@ == dv.bootloader && (st_bootloader->0).1 == q5 + "\",\n  \"bootloader\": \""@.len()
            + dv.bootloader.len() by {
            reveal(t_bootloader);
            lemma_head_t_base_band(dv);
            assert(s@.subrange(q5 as int, n as int) =~= "\",\n  \"bootloader\": \""@ + (dv.bootloader + t_base_band(dv)));
        }
    }
    let (f_bootloader, q6) = match st_bootloader {
        Option::Some(x) => x,
        Option::None => {
            return Option::None;
        },
    };
    proof {
        lemma_split3(s@, q5 as int, q5 + "\",\n  \"bootloader\": \""@.len(), q6 as int);
        assert(s@.subrange(q5 as int, n as int) == "\",\n  \"bootloader\": \""@ + f_bootloader@ + s@.subrange(
            q6 as int,
            n as int,
        ));
        assert forall|dv: DeviceIdentityView| #[trigger] matches_doc(s@, dv) && s@.subrange(pos as int, n as int) == t_finger_print(dv) implies s@.subrange(
            q6 as int,
            n as int,
        ) == t_base_band(dv) by {
            reveal(t_bootloader);
            assert(s@.subrange(q5 as int, n as int) =~= ("\",\n  \"bootloader\": \""@ + dv.bootloader) + t_base_band(dv));
            lemma_suffix_tail(s@, q5 as int, "\",\n  \"bootloader\": \""@ + dv.bootloader, t_base_band(dv));
        }
    }
    let st_base_band = parse_string_field(s, n, q6, "\",\n  \"base_band\": \"");
    proof {
        assert forall|dv: DeviceIdentityView| #[trigger] matches_doc(s@, dv) && s@.subrange(pos as int, n as int) == t_finger_print(dv) implies st_base_band is Some
            && (st_base_band->0).0@ == dv.base_band && (st_base_band->0).1 == q6 + "\",\n  \"base_band\": \""@.len()
            + dv.base_band.len() by {
            reveal(t_base_band);
            lemma_head_t_incremental(dv);
            assert(s@.subrange(q6 as int, n as int) =~= "\",\n  \"base_band\": \""@ + (dv.base_band + t_incremental(dv)));
        }
    }
    let (f_base_band, q7) = match st_base_band {
        Option::Some(x) => x,
        Option::None => {
            return Option::None;
        },
    };
    proof {
        lemma_split3(s@, q6 as int, q6 + "\",\n  \"base_band\": \""@.len(), q7 as int);
        assert(s@.subrange(q6 as int, n as int) == "\",\n  \"base_band\": \""@ + f_base_band@ + s@.subrange(
            q7 as int,
            n as int,
        ));
        assert forall|dv: DeviceIdentityView| #[trigger] matches_doc(s@, dv) && s@.subrange(pos as int, n as int) == t_finger_print(dv) implies s@.subrange(
            q7 as int,
            n as int,
        ) == t_incremental(dv) by {
            reveal(t_base_band);
            assert(s@.subrange(q6 as int, n as int) =~= ("\",\n  \"base_band\": \""@ + dv.base_band) + t_incremental(dv));
            lemma_suffix_tail(s@, q6 as int, "\",\n  \"base_band\": \""@ + dv.base_band, t_incremental(dv));
        }
    }
    proof {
        assert forall|d2: DeviceIdentityView|
            s@.subrange(q7 as int, n as int) == #[trigger] t_incremental(d2) && d2.finger_print == f_finger_print@ && d2.boot_id == f_boot_id@ && d2.proc_version == f_proc_version@ && d2.imei == f_imei@ && d2.brand == f_brand@ && d2.bootloader == f_bootloader@ && d2.base_band == f_base_band@ implies s@.subrange(
            pos as int,
            n as int,
        ) == t_finger_print(d2) by {
            reveal(t_base_band);
            assert(s@.subrange(q6 as int, n as int) == t_base_band(d2));
            reveal(t_bootloader);
            assert(s@.subrange(q5 as int, n as int) == t_bootloader(d2));
            reveal(t_brand);
            assert(s@.subrange(q4 as int, n as int) == t_brand(d2));
            reveal(t_imei);
            assert(s@.subrange(q3 as int, n as int) == t_imei(d2));
            reveal(t_proc_version);
            assert(s@.subrange(q2 as int, n as int) == t_proc_version(d2));
            reveal(t_boot_id);
            assert(s@.subrange(q1 as int, n as int) == t_boot_id(d2));
            reveal(t_finger_print);
            assert(s@.subrange(pos as int, n as int) == t_finger_print(d2));
        }
    }
    Option::Some((f_finger_print, f_boot_id, f_proc_version, f_imei, f_brand, f_bootloader, f_base_band, q7))
}

/// Parses the carrier and network fields.
#[verifier::rlimit(100)]
#[verifier::spinoff_prover]
fn parse_network_fields(s: &str, n: usize, pos: usize) -> (r: Option<(String, String, String, String, String, usize)>)
    requires
        n == s@.len(),
        pos <= n,
    ensures
        r is Some ==> {
            &&& pos <= (r->0).5 <= n
            &&& plain_seq((r->0).0@)
            &&& plain_seq((r->0).1@)
            &&& plain_seq((r->0).2@)
            &&& plain_seq((r->0).3@)
            &&& plain_seq((r->0).4@)
        },
        forall|dv: DeviceIdentityView|
            #[trigger] matches_doc(s@, dv) && s@.subrange(pos as int, n as int) == t_sim_info(dv)
                ==> r is Some && (r->0).0@ == dv.sim_info && (r->0).1@ == dv.os_type && (r->0).2@ == dv.mac_address && (r->0).3@ == dv.wifi_bssid && (r->0).4@ == dv.wifi_ssid && s@.subrange((r->0).5 as int, n as int)
                == t_imsi(dv),
        r is Some ==> forall|d2: DeviceIdentityView|
            s@.subrange((r->0).5 as int, n as int) == #[trigger] t_imsi(d2) && d2.sim_info == (r->0).0@ && d2.os_type == (r->0).1@ && d2.mac_address == (r->0).2@ && d2.wifi_bssid == (r->0).3@ && d2.wifi_ssid == (r->0).4@
                ==> s@.subrange(pos as int, n as int) == t_sim_info(d2),
{

    let st_sim_info = parse_string_field(s, n, pos, "\n  },\n  \"sim_info\": \"");
    proof {
        assert forall|dv: DeviceIdentityView| #[trigger] matches_doc(s@, dv) && s@.subrange(pos as int, n as int) == t_sim_info(dv) implies st_sim_info is Some
            && (st_sim_info->0).0@ == dv.sim_info && (st_sim_info->0).1 == pos + "\n  },\n  \"sim_info\": \""@.len()
            + dv.sim_info.len() by {
            reveal(t_sim_info);
            lemma_head_t_os_type(dv);
            assert(s@.subrange(pos as int, n as int) =~= "\n  },\n  \"sim_info\": \""@ + (dv.sim_info + t_os_type(dv)));
        }
    }
    let (f_sim_info, q1) = match st_sim_info {
        Option::Some(x) => x,
        Option::None => {
            return Option::None;
        },
    };
    proof {
        lemma_split3(s@, pos as int, pos + "\n  },\n  \"sim_info\": \""@.len(), q1 as int);
        assert(s@.subrange(pos as int, n as int) == "\n  },\n  \"sim_info\": \""@ + f_sim_info@ + s@.subrange(
            q1 as int,
            n as int,
        ));
        assert forall|dv: DeviceIdentityView| #[trigger] matches_doc(s@, dv) && s@.subrange(pos as int, n as int) == t_sim_info(dv) implies s@.subrange(
            q1 as int,
            n as int,
        ) == t_os_type(dv) by {
            reveal(t_sim_info);
            assert(s@.subrange(pos as int, n as int) =~= ("\n  },\n  \"sim_info\": \""@ + dv.sim_info) + t_os_type(dv));
            lemma_suffix_tail(s@, pos as int, "\n  },\n  \"sim_info\": \""@ + dv.sim_info, t_os_type(dv));
        }
    }
    let st_os_type = parse_string_field(s, n, q1, "\",\n  \"os_type\": \"");
    proof {
        assert forall|dv: DeviceIdentityView| #[trigger] matches_doc(s@, dv) && s@.subrange(pos as int, n as int) == t_sim_info(dv) implies st_os_type is Some
            && (st_os_type->0).0@ == dv.os_type && (st_os_type->0).1 == q1 + "\",\n  \"os_type\": \""@.len()
            + dv.os_type.len() by {
            reveal(t_os_type);
            lemma_head_t_mac_address(dv);
            assert(s@.subrange(q1 as int, n as int) =~= "\",\n  \"os_type\": \""@ + (dv.os_type + t_mac_address(dv)));
        }
    }
    let (f_os_type, q2) = match st_os_type {
        Option::Some(x) => x,
        Option::None => {
            return Option::None;
        },
    };
    proof {
        lemma_split3(s@, q1 as int, q1 + "\",\n  \"os_type\": \""@.len(), q2 as int);
        assert(s@.subrange(q1 as int, n as int) == "\",\n  \"os_type\": \""@ + f_os_type@ + s@.subrange(
            q2 as int,
            n as int,
        ));
        assert forall|dv: DeviceIdentityView| #[trigger] matches_doc(s@, dv) && s@.subrange(pos as int, n as int) == t_sim_info(dv) implies s@.subrange(
            q2 as int,
            n as int,
        ) == t_mac_address(dv) by {
            reveal(t_os_type);
            assert(s@.subrange(q1 as int, n as int) =~= ("\",\n  \"os_type\": \""@ + dv.os_type) + t_mac_address(dv));
            lemma_suffix_tail(s@, q1 as int, "\",\n  \"os_type\": \""@ + dv.os_type, t_mac_address(dv));
        }
    }
    let st_mac_address = parse_string_field(s, n, q2, "\",\n  \"mac_address\": \"");
    proof {
        assert forall|dv: DeviceIdentityView| #[trigger] matches_doc(s@, dv) && s@.subrange(pos as int, n as int) == t_sim_info(dv) implies st_mac_address is Some
            && (st_mac_address->0).0@ == dv.mac_address && (st_mac_address->0).1 == q2 + "\",\n  \"mac_address\": \""@.len()
            + dv.mac_address.len() by {
            reveal(t_mac_address);
            lemma_head_t_wifi_bssid(dv);
            assert(s@.subrange(q2 as int, n as int) =~= "\",\n  \"mac_address\": \""@ + (dv.mac_address + t_wifi_bssid(dv)));
        }
    }
    let (f_mac_address, q3) = match st_mac_address {
        Option::Some(x) => x,
        Option::None => {
            return Option::None;
        },
    };
    proof {
        lemma_split3(s@, q2 as int, q2 + "\",\n  \"mac_address\": \""@.len(), q3 as int);
        assert(s@.subrange(q2 as int, n as int) == "\",\n  \"mac_address\": \""@ + f_mac_address@ + s@.subrange(
            q3 as int,
            n as int,
        ));
        assert forall|dv: DeviceIdentityView| #[trigger] matches_doc(s@, dv) && s@.subrange(pos as int, n as int) == t_sim_info(dv) implies s@.subrange(
            q3 as int,
            n as int,
        ) == t_wifi_bssid(dv) by {
            reveal(t_mac_address);
            assert(s@.subrange(q2 as int, n as int) =~= ("\",\n  \"mac_address\": \""@ + dv.mac_address) + t_wifi_bssid(dv));
            lemma_suffix_tail(s@, q2 as int, "\",\n  \"mac_address\": \""@ + dv.mac_address, t_wifi_bssid(dv));
        }
    }
    let st_wifi_bssid = parse_string_field(s, n, q3, "\",\n  \"wifi_bssid\": \"");
    proof {
        assert forall|dv: DeviceIdentityView| #[trigger] matches_doc(s@, dv) && s@.subrange(pos as int, n as int) == t_sim_info(dv) implies st_wifi_bssid is Some
            && (st_wifi_bssid->0).0@ == dv.wifi_bssid && (st_wifi_bssid->0).1 == q3 + "\",\n  \"wifi_bssid\": \""@.len()
            + dv.wifi_bssid.len() by {
            reveal(t_wifi_bssid);
            lemma_head_t_wifi_ssid(dv);
            assert(s@.subrange(q3 as int, n as int) =~= "\",\n  \"wifi_bssid\": \""@ + (dv.wifi_bssid + t_wifi_ssid(dv)));
        }
    }
    let (f_wifi_bssid, q4) = match st_wifi_bssid {
        Option::Some(x) => x,
        Option::None => {
            return Option::None;
        },
    };
    proof {
        lemma_split3(s@, q3 as int, q3 + "\",\n  \"wifi_bssid\": \""@.len(), q4 as int);
        assert(s@.subrange(q3 as int, n as int) == "\",\n  \"wifi_bssid\": \""@ + f_wifi_bssid@ + s@.subrange(
            q4 as int,
            n as int,
        ));
        assert forall|dv: DeviceIdentityView| #[trigger] matches_doc(s@, dv) && s@.subrange(pos as int, n as int) == t_sim_info(dv) implies s@.subrange(
            q4 as int,
            n as int,
        ) == t_wifi_ssid(dv) by {
            reveal(t_wifi_bssid);
            assert(s@.subrange(q3 as int, n as int) =~= ("\",\n  \"wifi_bssid\": \""@ + dv.wifi_bssid) + t_wifi_ssid(dv));
            lemma_suffix_tail(s@, q3 as int, "\",\n  \"wifi_bssid\": \""@ + dv.wifi_bssid, t_wifi_ssid(dv));
        }
    }
    let st_wifi_ssid = parse_string_field(s, n, q4, "\",\n  \"wifi_ssid\": \"");
    proof {
        assert forall|dv: DeviceIdentityView| #[trigger] matches_doc(s@, dv) && s@.subrange(pos as int, n as int) == t_sim_info(dv) implies st_wifi_ssid is Some
            && (st_wifi_ssid->0).0@ == dv.wifi_ssid && (st_wifi_ssid->0).1 == q4 + "\",\n  \"wifi_ssid\": \""@.len()
            + dv.wifi_ssid.len() by {
            reveal(t_wifi_ssid);
            lemma_head_t_imsi(dv);
            assert(s@.subrange(q4 as int, n as int) =~= "\",\n  \"wifi_ssid\": \""@ + (dv.wifi_ssid + t_imsi(dv)));
        }
    }
    let (f_wifi_ssid, q5) = match st_wifi_ssid {
        Option::Some(x) => x,
        Option::None => {
            return Option::None;
        },
    };
    proof {
        lemma_split3(s@, q4 as int, q4 + "\",\n  \"wifi_ssid\": \""@.len(), q5 as int);
        assert(s@.subrange(q4 as int, n as int) == "\",\n  \"wifi_ssid\": \""@ + f_wifi_ssid@ + s@.subrange(
            q5 as int,
            n as int,
        ));
        assert forall|dv: DeviceIdentityView| #[trigger] matches_doc(s@, dv) && s@.subrange(pos as int, n as int) == t_sim_info(dv) implies s@.subrange(
            q5 as int,
            n as int,
        ) == t_imsi(dv) by {
            reveal(t_wifi_ssid);
            assert(s@.subrange(q4 as int, n as int) =~= ("\",\n  \"wifi_ssid\": \""@ + dv.wifi_ssid) + t_imsi(dv));
            lemma_suffix_tail(s@, q4 as int, "\",\n  \"wifi_ssid\": \""@ + dv.wifi_ssid, t_imsi(dv));
        }
    }
    proof {
        assert forall|d2: DeviceIdentityView|
            s@.subrange(q5 as int, n as int) == #[trigger] t_imsi(d2) && d2.sim_info == f_sim_info@ && d2.os_type == f_os_type@ && d2.mac_address == f_mac_address@ && d2.wifi_bssid == f_wifi_bssid@ && d2.wifi_ssid == f_wifi_ssid@ implies s@.subrange(
            pos as int,
            n as int,
        ) == t_sim_info(d2) by {
            reveal(t_wifi_ssid);
            assert(s@.subrange(q4 as int, n as int) == t_wifi_ssid(d2));
            reveal(t_wifi_bssid);
            assert(s@.subrange(q3 as int, n as int) == t_wifi_bssid(d2));
            reveal(t_mac_address);
            assert(s@.subrange(q2 as int, n as int) == t_mac_address(d2));
            reveal(t_os_type);
            assert(s@.subrange(q1 as int, n as int) == t_os_type(d2));
            reveal(t_sim_info);
            assert(s@.subrange(pos as int, n as int) == t_sim_info(d2));
        }
    }
    Option::Some((f_sim_info, f_os_type, f_mac_address, f_wifi_bssid, f_wifi_ssid, q5))
}

/// Parses the nested version object, including the numeric `sdk` field.
#[verifier::rlimit(100)]
#[verifier::spinoff_prover]
fn parse_version_fields(s: &str, n: usize, pos: usize) -> (r: Option<
    (String, String, String, u32, usize),
>)
    requires
        n == s@.len(),
        pos <= n,
    ensures
        r is Some ==> {
            &&& pos <= (r->0).4 <= n
            &&& plain_seq((r->0).0@)
            &&& plain_seq((r->0).1@)
            &&& plain_seq((r->0).2@)
        },
        forall|dv: DeviceIdentityView|
            #[trigger] matches_doc(s@, dv) && s@.subrange(pos as int, n as int)
                == t_incremental(dv) ==> r is Some && (r->0).0@ == dv.version.incremental
                && (r->0).1@ == dv.version.release && (r->0).2@ == dv.version.codename
                && (r->0).3 == dv.version.sdk && s@.subrange((r->0).4 as int, n as int)
                == t_sim_info(dv),
        r is Some ==> forall|d2: DeviceIdentityView|
            s@.subrange((r->0).4 as int, n as int) == #[trigger] t_sim_info(d2)
                && d2.version.incremental == (r->0).0@ && d2.version.release == (r->0).1@
                && d2.version.codename == (r->0).2@ && d2.version.sdk == (r->0).3
                ==> s@.subrange(pos as int, n as int) == t_incremental(d2),
{
    let st_incremental = parse_string_field(s, n, pos, "\",\n  \"version\": {\n    \"incremental\": \"");
    proof {
        assert forall|dv: DeviceIdentityView| #[trigger] matches_doc(s@, dv) && s@.subrange(pos as int, n as int) == t_incremental(dv) implies st_incremental is Some
            && (st_incremental->0).0@ == dv.version.incremental by {
            reveal(t_incremental);
            lemma_head_t_release(dv);
            assert(s@.subrange(pos as int, n as int) =~= "\",\n  \"version\": {\n    \"incremental\": \""@ + (dv.version.incremental + t_release(dv)));
        }
    }
    let (f_incremental, q1) = match st_incremental {
        Option::Some(x) => x,
        Option::None => {
            return Option::None;
        },
    };
    proof {
        lemma_split3(s@, pos as int, pos + "\",\n  \"version\": {\n    \"incremental\": \""@.len(), q1 as int);
        assert(s@.subrange(pos as int, n as int) == "\",\n  \"version\": {\n    \"incremental\": \""@ + f_incremental@ + s@.subrange(q1 as int, n as int));
        assert forall|dv: DeviceIdentityView| #[trigger] matches_doc(s@, dv) && s@.subrange(pos as int, n as int) == t_incremental(dv) implies s@.subrange(q1 as int, n as int) == t_release(dv) by {
            reveal(t_incremental);
            assert(s@.subrange(pos as int, n as int) =~= ("\",\n  \"version\": {\n    \"incremental\": \""@ + dv.version.incremental) + t_release(dv));
            lemma_suffix_tail(s@, pos as int, "\",\n  \"version\": {\n    \"incremental\": \""@ + dv.version.incremental, t_release(dv));
        }
    }
    let st_release = parse_string_field(s, n, q1, "\",\n    \"release\": \"");
    proof {
        assert forall|dv: DeviceIdentityView| #[trigger] matches_doc(s@, dv) && s@.subrange(pos as int, n as int) == t_incremental(dv) implies st_release is Some
            && (st_release->0).0@ == dv.version.release by {
            reveal(t_release);
            lemma_head_t_codename(dv);
            assert(s@.subrange(q1 as int, n as int) =~= "\",\n    \"release\": \""@ + (dv.version.release + t_codename(dv)));
        }
    }
    let (f_release, q2) = match st_release {
        Option::Some(x) => x,
        Option::None => {
            return Option::None;
        },
    };
    proof {
        lemma_split3(s@, q1 as int, q1 + "\",\n    \"release\": \""@.len(), q2 as int);
        assert(s@.subrange(q1 as int, n as int) == "\",\n    \"release\": \""@ + f_release@ + s@.subrange(q2 as int, n as int));
        assert forall|dv: DeviceIdentityView| #[trigger] matches_doc(s@, dv) && s@.subrange(pos as int, n as int) == t_incremental(dv) implies s@.subrange(q2 as int, n as int) == t_codename(dv) by {
            reveal(t_release);
            assert(s@.subrange(q1 as int, n as int) =~= ("\",\n    \"release\": \""@ + dv.version.release) + t_codename(dv));
            lemma_suffix_tail(s@, q1 as int, "\",\n    \"release\": \""@ + dv.version.release, t_codename(dv));
        }
    }
    let st_codename = parse_string_field(s, n, q2, "\",\n    \"codename\": \"");
    proof {
        assert forall|dv: DeviceIdentityView| #[trigger] matches_doc(s@, dv) && s@.subrange(pos as int, n as int) == t_incremental(dv) implies st_codename is Some
            && (st_codename->0).0@ == dv.version.codename by {
            reveal(t_codename);
            lemma_head_t_sdk(dv);
            assert(s@.subrange(q2 as int, n as int) =~= "\",\n    \"codename\": \""@ + (dv.version.codename + t_sdk(dv)));
        }
    }
    let (f_codename, q3) = match st_codename {
        Option::Some(x) => x,
        Option::None => {
            return Option::None;
        },
    };
    proof {
        lemma_split3(s@, q2 as int, q2 + "\",\n    \"codename\": \""@.len(), q3 as int);
        assert(s@.subrange(q2 as int, n as int) == "\",\n    \"codename\": \""@ + f_codename@ + s@.subrange(q3 as int, n as int));
        assert forall|dv: DeviceIdentityView| #[trigger] matches_doc(s@, dv) && s@.subrange(pos as int, n as int) == t_incremental(dv) implies s@.subrange(q3 as int, n as int) == t_sdk(dv) by {
            reveal(t_codename);
            assert(s@.subrange(q2 as int, n as int) =~= ("\",\n    \"codename\": \""@ + dv.version.codename) + t_sdk(dv));
            lemma_suffix_tail(s@, q2 as int, "\",\n    \"codename\": \""@ + dv.version.codename, t_sdk(dv));
        }
    }
    let st_sdk = parse_num_after(s, n, q3, "\",\n    \"sdk\": ", 4294967295);
    proof {
        assert forall|dv: DeviceIdentityView| #[trigger] matches_doc(s@, dv) && s@.subrange(pos as int, n as int) == t_incremental(dv) implies st_sdk is Some
            && (st_sdk->0).0 == dv.version.sdk by {
            reveal(t_sdk);
            lemma_head_t_sim_info(dv);
            assert(!is_digit(t_sim_info(dv)[0]));
            assert(s@.subrange(q3 as int, n as int) =~= "\",\n    \"sdk\": "@ + (dec_nat(dv.version.sdk as nat) + t_sim_info(dv)));
        }
    }
    let (sdk64, q4) = match st_sdk {
        Option::Some(x) => x,
        Option::None => {
            return Option::None;
        },
    };
    let sdk_val: u32 = sdk64 as u32;
    proof {
        lemma_split3(s@, q3 as int, q3 + "\",\n    \"sdk\": "@.len(), q4 as int);
        assert(s@.subrange(q3 as int, n as int) == "\",\n    \"sdk\": "@ + dec_nat(sdk64 as nat) + s@.subrange(q4 as int, n as int));
        assert forall|dv: DeviceIdentityView| #[trigger] matches_doc(s@, dv) && s@.subrange(pos as int, n as int) == t_incremental(dv) implies s@.subrange(q4 as int, n as int) == t_sim_info(dv) && sdk_val == dv.version.sdk by {
            reveal(t_sdk);
            assert(s@.subrange(q3 as int, n as int) =~= ("\",\n    \"sdk\": "@ + dec_nat(dv.version.sdk as nat)) + t_sim_info(dv));
            lemma_suffix_tail(s@, q3 as int, "\",\n    \"sdk\": "@ + dec_nat(dv.version.sdk as nat), t_sim_info(dv));
        }
        assert forall|d2: DeviceIdentityView|
            s@.subrange(q4 as int, n as int) == #[trigger] t_sim_info(d2)
                && d2.version.incremental == f_incremental@ && d2.version.release == f_release@
                && d2.version.codename == f_codename@ && d2.version.sdk == sdk_val implies s@.subrange(
            pos as int,
            n as int,
        ) == t_incremental(d2) by {
            reveal(t_sdk);
            assert(dec_nat(sdk64 as nat) == dec_nat(d2.version.sdk as nat));
            assert(s@.subrange(q3 as int, n as int) == t_sdk(d2));
            reveal(t_codename);
            assert(s@.subrange(q2 as int, n as int) == t_codename(d2));
            reveal(t_release);
            assert(s@.subrange(q1 as int, n as int) == t_release(d2));
            reveal(t_incremental);
            assert(s@.subrange(pos as int, n as int) == t_incremental(d2));
        }
    }
    Option::Some((f_incremental, f_release, f_codename, sdk_val, q4))
}

/// Parses the 16-element pseudo-IMSI byte array.
#[verifier::rlimit(100)]
#[verifier::spinoff_prover]
#[verifier::loop_isolation(false)]
fn parse_imsi_items(s: &str, n: usize, pos: usize) -> (r: Option<(Vec<u8>, usize)>)
    requires
        n == s@.len(),
        pos <= n,
    ensures
        r is Some ==> pos <= (r->0).1 <= n && (r->0).0@.len() == 16,
        forall|dv: DeviceIdentityView|
            #[trigger] matches_doc(s@, dv) && s@.subrange(pos as int, n as int) == t_imsi(dv)
                ==> r is Some && (r->0).0@ == dv.imsi_md5 && s@.subrange(
                (r->0).1 as int,
                n as int,
            ) == t_apn(dv),
        r is Some ==> forall|d2: DeviceIdentityView|
            s@.subrange((r->0).1 as int, n as int) == #[trigger] t_apn(d2) && d2.imsi_md5
                == (r->0).0@ ==> s@.subrange(pos as int, n as int) == t_imsi(d2),
{
    let st_b0 = parse_num_after(s, n, pos, "\",\n  \"imsi_md5\": [", 255);
    proof {
        assert forall|dv: DeviceIdentityView| #[trigger] matches_doc(s@, dv) && s@.subrange(
            pos as int,
            n as int,
        ) == t_imsi(dv) implies st_b0 is Some && (st_b0->0).0 == dv.imsi_md5[0] by {
            reveal(t_imsi);
            lemma_items_split(dv.imsi_md5, 1);
            assert(dv.imsi_md5.subrange(0, 1)[0] == dv.imsi_md5[0]);
            assert(items_of(dv.imsi_md5.subrange(0, 1)) == dec_nat(dv.imsi_md5[0] as nat));
            lemma_item_tail_head(dv, 1);
            assert(s@.subrange(pos as int, n as int) =~= "\",\n  \"imsi_md5\": ["@ + (dec_nat(
                dv.imsi_md5[0] as nat,
            ) + (items_from(dv.imsi_md5, 1) + t_apn(dv))));
        }
    }
    let (b0, first_end) = match st_b0 {
        Option::Some(x) => x,
        Option::None => {
            return Option::None;
        },
    };
    let mut imsi: Vec<u8> = Vec::new();
    imsi.push(b0 as u8);
    let ghost ip: int = pos + "\",\n  \"imsi_md5\": ["@.len();
    proof {
        lemma_split3(s@, pos as int, ip, first_end as int);
        assert(s@.subrange(pos as int, n as int) == "\",\n  \"imsi_md5\": ["@ + dec_nat(
            b0 as nat,
        ) + s@.subrange(first_end as int, n as int));
        assert(imsi@ =~= seq![b0 as u8]);
        assert(items_of(imsi@) == dec_nat(b0 as nat));
        assert(s@.subrange(ip, first_end as int) == items_of(imsi@));
        assert forall|dv: DeviceIdentityView| #[trigger] matches_doc(s@, dv) && s@.subrange(
            pos as int,
            n as int,
        ) == t_imsi(dv) implies s@.subrange(first_end as int, n as int) == items_from(
            dv.imsi_md5,
            1,
        ) + t_apn(dv) && imsi@ == dv.imsi_md5.subrange(0, 1) by {
            reveal(t_imsi);
            lemma_items_split(dv.imsi_md5, 1);
            assert(items_of(dv.imsi_md5.subrange(0, 1)) == dec_nat(dv.imsi_md5[0] as nat));
            assert(s@.subrange(pos as int, n as int) =~= ("\",\n  \"imsi_md5\": ["@ + dec_nat(
                dv.imsi_md5[0] as nat,
            )) + (items_from(dv.imsi_md5, 1) + t_apn(dv)));
            lemma_suffix_tail(s@, pos as int, "\",\n  \"imsi_md5\": ["@ + dec_nat(
                dv.imsi_md5[0] as nat,
            ), items_from(dv.imsi_md5, 1) + t_apn(dv));
            assert(imsi@ =~= dv.imsi_md5.subrange(0, 1));
        }
    }
    let mut pos_i: usize = first_end;
    let mut k: usize = 1;
    while k < 16
        invariant
            1 <= k <= 16,
            pos_i <= n,
            0 <= ip <= pos_i,
            imsi@.len() == k,
            s@.subrange(ip, pos_i as int) == items_of(imsi@),
            forall|dv: DeviceIdentityView|
                #[trigger] matches_doc(s@, dv) && s@.subrange(pos as int, n as int) == t_imsi(
                    dv,
                ) ==> s@.subrange(pos_i as int, n as int) == items_from(dv.imsi_md5, k as int)
                    + t_apn(dv) && imsi@ == dv.imsi_md5.subrange(0, k as int),
        decreases 16 - k,
    {
        let st_bk = parse_num_after(s, n, pos_i, ", ", 255);
        proof {
            assert forall|dv: DeviceIdentityView| #[trigger] matches_doc(s@, dv) && s@.subrange(
                pos as int,
                n as int,
            ) == t_imsi(dv) implies st_bk is Some && (st_bk->0).0 == dv.imsi_md5[k as int] by {
                lemma_item_tail_head(dv, k + 1);
                assert(s@.subrange(pos_i as int, n as int) =~= ", "@ + (dec_nat(
                    dv.imsi_md5[k as int] as nat,
                ) + (items_from(dv.imsi_md5, k + 1) + t_apn(dv))));
            }
        }
        let (bk, np) = match st_bk {
            Option::Some(x) => x,
            Option::None => {
                return Option::None;
            },
        };
        let ghost prev = imsi@;
        imsi.push(bk as u8);
        proof {
            assert(imsi@.drop_last() =~= prev);
            assert(imsi@.last() == bk as u8);
            assert(items_of(imsi@) == items_of(prev) + ", "@ + dec_nat(bk as nat));
            assert(s@.subrange(pos_i as int, np as int) =~= s@.subrange(
                pos_i as int,
                pos_i + ", "@.len(),
            ) + s@.subrange(pos_i + ", "@.len(), np as int));
            assert(s@.subrange(ip, np as int) =~= s@.subrange(ip, pos_i as int) + s@.subrange(
                pos_i as int,
                np as int,
            ));
            assert(s@.subrange(ip, np as int) =~= items_of(imsi@));
            assert forall|dv: DeviceIdentityView| #[trigger] matches_doc(s@, dv) && s@.subrange(
                pos as int,
                n as int,
            ) == t_imsi(dv) implies s@.subrange(np as int, n as int) == items_from(
                dv.imsi_md5,
                k + 1,
            ) + t_apn(dv) && imsi@ == dv.imsi_md5.subrange(0, k + 1) by {
                assert(s@.subrange(pos_i as int, n as int) =~= (", "@ + dec_nat(
                    dv.imsi_md5[k as int] as nat,
                )) + (items_from(dv.imsi_md5, k + 1) + t_apn(dv)));
                lemma_suffix_tail(s@, pos_i as int, ", "@ + dec_nat(
                    dv.imsi_md5[k as int] as nat,
                ), items_from(dv.imsi_md5, k + 1) + t_apn(dv));
                assert(imsi@ =~= dv.imsi_md5.subrange(0, k + 1));
            }
        }
        pos_i = np;
        k = k + 1;
    }
    proof {
        assert forall|dv: DeviceIdentityView| #[trigger] matches_doc(s@, dv) && s@.subrange(
            pos as int,
            n as int,
        ) == t_imsi(dv) implies s@.subrange(pos_i as int, n as int) == t_apn(dv) && imsi@
            == dv.imsi_md5 by {
            assert(items_from(dv.imsi_md5, 16) =~= Seq::<char>::empty());
            assert(items_from(dv.imsi_md5, 16) + t_apn(dv) =~= t_apn(dv));
            assert(dv.imsi_md5.subrange(0, 16) =~= dv.imsi_md5);
        }
        assert forall|d2: DeviceIdentityView|
            s@.subrange(pos_i as int, n as int) == #[trigger] t_apn(d2) && d2.imsi_md5 == imsi@
                implies s@.subrange(pos as int, n as int) == t_imsi(d2) by {
            reveal(t_imsi);
            assert(s@.subrange(pos as int, n as int) =~= "\",\n  \"imsi_md5\": ["@ + s@.subrange(
                ip,
                pos_i as int,
            ) + s@.subrange(pos_i as int, n as int));
        }
    }
    Option::Some((imsi, pos_i))
}

/// Parses the canonical device identity document. Returns the identity
/// exactly when `s` is the canonical document of a well-formed identity;
/// any other text is rejected.
#[verifier::rlimit(100)]
#[verifier::spinoff_prover]
pub fn parse_device(s: &str) -> (r: Option<DeviceIdentity>)
    ensures
        r is Some ==> (r->0)@.wf() && s@ == canon_device((r->0)@),
        forall|dv: DeviceIdentityView| #[trigger] matches_doc(s@, dv) ==> r is Some && (r->0)@
            == dv,
{
    let n = s.unicode_len();
    let p0: usize = 0;
    proof {
        assert forall|dv: DeviceIdentityView| #[trigger] matches_doc(s@, dv) implies s@.subrange(
            p0 as int,
            n as int,
        ) == canon_device(dv) by {
            assert(s@.subrange(p0 as int, n as int) =~= s@);
        }
    }
    let st_hw = parse_hardware_fields(s, n, p0);
    let (f_display, f_product, f_device, f_board, f_model, p1) = match st_hw {
        Option::Some(x) => x,
        Option::None => {
            return Option::None;
        },
    };
    let st_build = parse_build_fields(s, n, p1);
    let (f_finger_print, f_boot_id, f_proc_version, f_imei, f_brand, f_bootloader, f_base_band, p2)
        = match st_build {
        Option::Some(x) => x,
        Option::None => {
            return Option::None;
        },
    };
    let st_ver = parse_version_fields(s, n, p2);
    let (f_incremental, f_release, f_codename, sdk_val, p3) = match st_ver {
        Option::Some(x) => x,
        Option::None => {
            return Option::None;
        },
    };
    let st_net = parse_network_fields(s, n, p3);
    let (f_sim_info, f_os_type, f_mac_address, f_wifi_bssid, f_wifi_ssid, p4) = match st_net {
        Option::Some(x) => x,
        Option::None => {
            return Option::None;
        },
    };
    let st_imsi = parse_imsi_items(s, n, p4);
    let (imsi, p5) = match st_imsi {
        Option::Some(x) => x,
        Option::None => {
            return Option::None;
        },
    };
    let st_apn = parse_string_field(s, n, p5, "],\n  \"apn\": \"");
    proof {
        assert forall|dv: DeviceIdentityView| #[trigger] matches_doc(s@, dv) implies st_apn
            is Some && (st_apn->0).0@ == dv.apn && (st_apn->0).1 == p5 + "],\n  \"apn\": \""@.len()
            + dv.apn.len() by {
            reveal(t_apn);
            reveal_strlit("\"\n}");
            assert("\"\n}"@.len() > 0 && "\"\n}"@[0] == '"');
            assert(s@.subrange(p5 as int, n as int) =~= "],\n  \"apn\": \""@ + (dv.apn + "\"\n}"@));
        }
    }
    let (f_apn, p6) = match st_apn {
        Option::Some(x) => x,
        Option::None => {
            return Option::None;
        },
    };
    proof {
        lemma_split3(s@, p5 as int, p5 + "],\n  \"apn\": \""@.len(), p6 as int);
        assert(s@.subrange(p5 as int, n as int) == "],\n  \"apn\": \""@ + f_apn@ + s@.subrange(
            p6 as int,
            n as int,
        ));
        assert forall|dv: DeviceIdentityView| #[trigger] matches_doc(s@, dv) implies s@.subrange(
            p6 as int,
            n as int,
        ) == "\"\n}"@ by {
            reveal(t_apn);
            assert(s@.subrange(p5 as int, n as int) =~= ("],\n  \"apn\": \""@ + dv.apn) + "\"\n}"@);
            lemma_suffix_tail(s@, p5 as int, "],\n  \"apn\": \""@ + dv.apn, "\"\n}"@);
        }
    }
    let st_end = expect_lit(s, n, p6, "\"\n}");
    proof {
        assert forall|dv: DeviceIdentityView| #[trigger] matches_doc(s@, dv) implies st_end
            is Some && st_end->0 == n by {
            lemma_suffix_index(s@, p6 as int, "\"\n}"@);
            assert(s@.subrange(p6 as int, p6 + "\"\n}"@.len()) =~= "\"\n}"@);
        }
    }
    let pend = match st_end {
        Option::Some(x) => x,
        Option::None => {
            return Option::None;
        },
    };
    if pend != n {
        return Option::None;
    }
    let dev = DeviceIdentity {
        display: f_display,
        product: f_product,
        device: f_device,
        board: f_board,
        model: f_model,
        finger_print: f_finger_print,
        boot_id: f_boot_id,
        proc_version: f_proc_version,
        imei: f_imei,
        brand: f_brand,
        bootloader: f_bootloader,
        base_band: f_base_band,
        version: OsVersion {
            incremental: f_incremental,
            release: f_release,
            codename: f_codename,
            sdk: sdk_val,
        },
        sim_info: f_sim_info,
        os_type: f_os_type,
        mac_address: f_mac_address,
        wifi_bssid: f_wifi_bssid,
        wifi_ssid: f_wifi_ssid,
        imsi_md5: imsi,
        apn: f_apn,
    };
    proof {
        assert(dev@.wf());
        assert(s@.subrange(p6 as int, n as int) =~= "\"\n}"@);
        reveal(t_apn);
        assert(t_apn(dev@) == s@.subrange(p5 as int, n as int));
        assert(s@.subrange(p4 as int, n as int) == t_imsi(dev@));
        assert(s@.subrange(p3 as int, n as int) == t_sim_info(dev@));
        assert(s@.subrange(p2 as int, n as int) == t_incremental(dev@));
        assert(s@.subrange(p1 as int, n as int) == t_finger_print(dev@));
        assert(s@.subrange(p0 as int, n as int) == canon_device(dev@));
        assert(s@.subrange(p0 as int, n as int) =~= s@);
        assert forall|dv: DeviceIdentityView| #[trigger] matches_doc(s@, dv) implies dev@ =~= dv
            by {
            assert(imsi@ == dv.imsi_md5);
        }
    }
    Option::Some(dev)
}


/// Two quoted plain-text segments after the same literal cover the same
/// characters: the closing quote pins the boundary.
proof fn lemma_quoted_segment_unique(
    lit: Seq<char>,
    a1: Seq<char>,
    r1: Seq<char>,
    a2: Seq<char>,
    r2: Seq<char>,
)
    requires
        plain_seq(a1),
        plain_seq(a2),
        r1.len() > 0,
        r1[0] == '"',
        r2.len() > 0,
        r2[0] == '"',
        lit + a1 + r1 == lit + a2 + r2,
    ensures
        a1 == a2,
        r1 == r2,
{
    let w1 = lit + a1 + r1;
    let w2 = lit + a2 + r2;
    if a1.len() < a2.len() {
        assert(w1[lit.len() + a1.len() as int] == r1[0]);
        assert(w2[lit.len() + a1.len() as int] == a2[a1.len() as int]);
        assert(plain_char(a2[a1.len() as int]));
        assert(false);
    }
    if a2.len() < a1.len() {
        assert(w2[lit.len() + a2.len() as int] == r2[0]);
        assert(w1[lit.len() + a2.len() as int] == a1[a2.len() as int]);
        assert(plain_char(a1[a2.len() as int]));
        assert(false);
    }
    assert forall|j: int| 0 <= j < a1.len() implies a1[j] == a2[j] by {
        assert(w1[lit.len() + j] == a1[j]);
        assert(w2[lit.len() + j] == a2[j]);
    }
    assert(a1 =~= a2);
    assert(w1.len() == lit.len() + a1.len() + r1.len());
    assert(w2.len() == lit.len() + a2.len() + r2.len());
    assert(r1.len() == r2.len());
    assert forall|j: int| 0 <= j < r1.len() implies r1[j] == r2[j] by {
        assert(w1[lit.len() + a1.len() + j] == r1[j]);
        assert(w2[lit.len() + a2.len() + j] == r2[j]);
    }
    assert(r1 =~= r2);
}

/// Two canonical decimal segments after the same literal denote the same
/// value: the first non-digit pins the boundary.
proof fn lemma_number_segment_unique(
    lit: Seq<char>,
    m1: nat,
    r1: Seq<char>,
    m2: nat,
    r2: Seq<char>,
)
    requires
        r1.len() > 0,
        !is_digit(r1[0]),
        r2.len() > 0,
        !is_digit(r2[0]),
        lit + dec_nat(m1) + r1 == lit + dec_nat(m2) + r2,
    ensures
        m1 == m2,
        r1 == r2,
{
    lemma_dec_nat_basics(m1);
    lemma_dec_nat_basics(m2);
    let d1 = dec_nat(m1);
    let d2 = dec_nat(m2);
    let w1 = lit + d1 + r1;
    let w2 = lit + d2 + r2;
    if d1.len() < d2.len() {
        assert(w1[lit.len() + d1.len() as int] == r1[0]);
        assert(w2[lit.len() + d1.len() as int] == d2[d1.len() as int]);
        assert(is_digit(d2[d1.len() as int]));
        assert(false);
    }
    if d2.len() < d1.len() {
        assert(w2[lit.len() + d2.len() as int] == r2[0]);
        assert(w1[lit.len() + d2.len() as int] == d1[d2.len() as int]);
        assert(is_digit(d1[d2.len() as int]));
        assert(false);
    }
    assert forall|j: int| 0 <= j < d1.len() implies d1[j] == d2[j] by {
        assert(w1[lit.len() + j] == d1[j]);
        assert(w2[lit.len() + j] == d2[j]);
    }
    assert(d1 =~= d2);
    assert(text_val(d1) == text_val(d2));
    assert(w1.len() == lit.len() + d1.len() + r1.len());
    assert(w2.len() == lit.len() + d2.len() + r2.len());
    assert(r1.len() == r2.len());
    assert forall|j: int| 0 <= j < r1.len() implies r1[j] == r2[j] by {
        assert(w1[lit.len() + d1.len() + j] == r1[j]);
        assert(w2[lit.len() + d2.len() + j] == r2[j]);
    }
    assert(r1 =~= r2);
}

/// The remaining pseudo-IMSI items and what follows them determine each
/// other: the separators and the non-digit terminator pin every item.
proof fn lemma_items_from_unique(
    b1: Seq<u8>,
    b2: Seq<u8>,
    k: int,
    r1: Seq<char>,
    r2: Seq<char>,
)
    requires
        b1.len() == 16,
        b2.len() == 16,
        1 <= k <= 16,
        r1.len() > 0,
        !is_digit(r1[0]),
        r2.len() > 0,
        !is_digit(r2[0]),
        items_from(b1, k) + r1 == items_from(b2, k) + r2,
    ensures
        b1.subrange(k, 16) == b2.subrange(k, 16),
        r1 == r2,
    decreases 16 - k,
{
    if k == 16 {
        assert(items_from(b1, k) =~= Seq::<char>::empty());
        assert(items_from(b2, k) =~= Seq::<char>::empty());
        assert(r1 =~= items_from(b1, k) + r1);
        assert(r2 =~= items_from(b2, k) + r2);
        assert(b1.subrange(16, 16) =~= b2.subrange(16, 16));
    } else {
        let t1 = items_from(b1, k + 1) + r1;
        let t2 = items_from(b2, k + 1) + r2;
        assert(t1.len() > 0 && !is_digit(t1[0]) && t2.len() > 0 && !is_digit(t2[0])) by {
            reveal_strlit(", ");
            if k + 1 < 16 {
                assert(items_from(b1, k + 1)[0] == ',');
                assert(items_from(b2, k + 1)[0] == ',');
            } else {
                assert(items_from(b1, k + 1) =~= Seq::<char>::empty());
                assert(items_from(b2, k + 1) =~= Seq::<char>::empty());
                assert(t1[0] == r1[0] && t2[0] == r2[0]);
            }
        }
        assert(", "@ + dec_nat(b1[k] as nat) + t1 =~= items_from(b1, k) + r1);
        assert(", "@ + dec_nat(b2[k] as nat) + t2 =~= items_from(b2, k) + r2);
        lemma_number_segment_unique(", "@, b1[k] as nat, t1, b2[k] as nat, t2);
        lemma_items_from_unique(b1, b2, k + 1, r1, r2);
        assert(b1.subrange(k, 16) =~= b2.subrange(k, 16)) by {
            assert(forall|j: int|
                k + 1 <= j < 16 ==> b1.subrange(k + 1, 16)[j - k - 1] == #[trigger] b1[j]);
            assert(forall|j: int|
                k + 1 <= j < 16 ==> b2.subrange(k + 1, 16)[j - k - 1] == #[trigger] b2[j]);
        }
    }
}

/// Law: a canonical document stands for at most one well-formed identity.
/// With the emitter's and parser's contracts this is the store's
/// load-or-create idempotence: loading the same file contents twice can
/// only yield the same identity, whatever fresh identities stand by.
#[verifier::rlimit(100)]
#[verifier::spinoff_prover]
pub proof fn lemma_canonical_document_unique(
    s: Seq<char>,
    d1: DeviceIdentityView,
    d2: DeviceIdentityView,
)
    requires
        matches_doc(s, d1),
        matches_doc(s, d2),
    ensures
        d1 == d2,
{
    assert(d1.display == d2.display && t_product(d1) == t_product(d2)) by {
        reveal(canon_device);
        lemma_head_t_product(d1);
        lemma_head_t_product(d2);
        lemma_quoted_segment_unique("{\n  \"display\": \""@, d1.display, t_product(d1), d2.display, t_product(d2));
    }
    assert(d1.product == d2.product && t_device(d1) == t_device(d2)) by {
        reveal(t_product);
        lemma_head_t_device(d1);
        lemma_head_t_device(d2);
        lemma_quoted_segment_unique("\",\n  \"product\": \""@, d1.product, t_device(d1), d2.product, t_device(d2));
    }
    assert(d1.device == d2.device && t_board(d1) == t_board(d2)) by {
        reveal(t_device);
        lemma_head_t_board(d1);
        lemma_head_t_board(d2);
        lemma_quoted_segment_unique("\",\n  \"device\": \""@, d1.device, t_board(d1), d2.device, t_board(d2));
    }
    assert(d1.board == d2.board && t_model(d1) == t_model(d2)) by {
        reveal(t_board);
        lemma_head_t_model(d1);
        lemma_head_t_model(d2);
        lemma_quoted_segment_unique("\",\n  \"board\": \""@, d1.board, t_model(d1), d2.board, t_model(d2));
    }
    assert(d1.model == d2.model && t_finger_print(d1) == t_finger_print(d2)) by {
        reveal(t_model);
        lemma_head_t_finger_print(d1);
        lemma_head_t_finger_print(d2);
        lemma_quoted_segment_unique("\",\n  \"model\": \""@, d1.model, t_finger_print(d1), d2.model, t_finger_print(d2));
    }
    assert(d1.finger_print == d2.finger_print && t_boot_id(d1) == t_boot_id(d2)) by {
        reveal(t_finger_print);
        lemma_head_t_boot_id(d1);
        lemma_head_t_boot_id(d2);
        lemma_quoted_segment_unique("\",\n  \"finger_print\": \""@, d1.finger_print, t_boot_id(d1), d2.finger_print, t_boot_id(d2));
    }
    assert(d1.boot_id == d2.boot_id && t_proc_version(d1) == t_proc_version(d2)) by {
        reveal(t_boot_id);
        lemma_head_t_proc_version(d1);
        lemma_head_t_proc_version(d2);
        lemma_quoted_segment_unique("\",\n  \"boot_id\": \""@, d1.boot_id, t_proc_version(d1), d2.boot_id, t_proc_version(d2));
    }
    assert(d1.proc_version == d2.proc_version && t_imei(d1) == t_imei(d2)) by {
        reveal(t_proc_version);
        lemma_head_t_imei(d1);
        lemma_head_t_imei(d2);
        lemma_quoted_segment_unique("\",\n  \"proc_version\": \""@, d1.proc_version, t_imei(d1), d2.proc_version, t_imei(d2));
    }
    assert(d1.imei == d2.imei && t_brand(d1) == t_brand(d2)) by {
        reveal(t_imei);
        lemma_head_t_brand(d1);
        lemma_head_t_brand(d2);
        lemma_quoted_segment_unique("\",\n  \"imei\": \""@, d1.imei, t_brand(d1), d2.imei, t_brand(d2));
    }
    assert(d1.brand == d2.brand && t_bootloader(d1) == t_bootloader(d2)) by {
        reveal(t_brand);
        lemma_head_t_bootloader(d1);
        lemma_head_t_bootloader(d2);
        lemma_quoted_segment_unique("\",\n  \"brand\": \""@, d1.brand, t_bootloader(d1), d2.brand, t_bootloader(d2));
    }
    assert(d1.bootloader == d2.bootloader && t_base_band(d1) == t_base_band(d2)) by {
        reveal(t_bootloader);
        lemma_head_t_base_band(d1);
        lemma_head_t_base_band(d2);
        lemma_quoted_segment_unique("\",\n  \"bootloader\": \""@, d1.bootloader, t_base_band(d1), d2.bootloader, t_base_band(d2));
    }
    assert(d1.base_band == d2.base_band && t_incremental(d1) == t_incremental(d2)) by {
        reveal(t_base_band);
        lemma_head_t_incremental(d1);
        lemma_head_t_incremental(d2);
        lemma_quoted_segment_unique("\",\n  \"base_band\": \""@, d1.base_band, t_incremental(d1), d2.base_band, t_incremental(d2));
    }
    assert(d1.version.incremental == d2.version.incremental && t_release(d1) == t_release(d2)) by {
        reveal(t_incremental);
        lemma_head_t_release(d1);
        lemma_head_t_release(d2);
        lemma_quoted_segment_unique("\",\n  \"version\": {\n    \"incremental\": \""@, d1.version.incremental, t_release(d1), d2.version.incremental, t_release(d2));
    }
    assert(d1.version.release == d2.version.release && t_codename(d1) == t_codename(d2)) by {
        reveal(t_release);
        lemma_head_t_codename(d1);
        lemma_head_t_codename(d2);
        lemma_quoted_segment_unique("\",\n    \"release\": \""@, d1.version.release, t_codename(d1), d2.version.release, t_codename(d2));
    }
    assert(d1.version.codename == d2.version.codename && t_sdk(d1) == t_sdk(d2)) by {
        reveal(t_codename);
        lemma_head_t_sdk(d1);
        lemma_head_t_sdk(d2);
        lemma_quoted_segment_unique("\",\n    \"codename\": \""@, d1.version.codename, t_sdk(d1), d2.version.codename, t_sdk(d2));
    }
    assert(d1.version.sdk == d2.version.sdk && t_sim_info(d1) == t_sim_info(d2)) by {
        reveal(t_sdk);
        lemma_head_t_sim_info(d1);
        lemma_head_t_sim_info(d2);
        assert(!is_digit(t_sim_info(d1)[0]) && !is_digit(t_sim_info(d2)[0]));
        lemma_number_segment_unique(
            "\",\n    \"sdk\": "@,
            d1.version.sdk as nat,
            t_sim_info(d1),
            d2.version.sdk as nat,
            t_sim_info(d2),
        );
    }
    assert(d1.sim_info == d2.sim_info && t_os_type(d1) == t_os_type(d2)) by {
        reveal(t_sim_info);
        lemma_head_t_os_type(d1);
        lemma_head_t_os_type(d2);
        lemma_quoted_segment_unique("\n  },\n  \"sim_info\": \""@, d1.sim_info, t_os_type(d1), d2.sim_info, t_os_type(d2));
    }
    assert(d1.os_type == d2.os_type && t_mac_address(d1) == t_mac_address(d2)) by {
        reveal(t_os_type);
        lemma_head_t_mac_address(d1);
        lemma_head_t_mac_address(d2);
        lemma_quoted_segment_unique("\",\n  \"os_type\": \""@, d1.os_type, t_mac_address(d1), d2.os_type, t_mac_address(d2));
    }
    assert(d1.mac_address == d2.mac_address && t_wifi_bssid(d1) == t_wifi_bssid(d2)) by {
        reveal(t_mac_address);
        lemma_head_t_wifi_bssid(d1);
        lemma_head_t_wifi_bssid(d2);
        lemma_quoted_segment_unique("\",\n  \"mac_address\": \""@, d1.mac_address, t_wifi_bssid(d1), d2.mac_address, t_wifi_bssid(d2));
    }
    assert(d1.wifi_bssid == d2.wifi_bssid && t_wifi_ssid(d1) == t_wifi_ssid(d2)) by {
        reveal(t_wifi_bssid);
        lemma_head_t_wifi_ssid(d1);
        lemma_head_t_wifi_ssid(d2);
        lemma_quoted_segment_unique("\",\n  \"wifi_bssid\": \""@, d1.wifi_bssid, t_wifi_ssid(d1), d2.wifi_bssid, t_wifi_ssid(d2));
    }
    assert(d1.wifi_ssid == d2.wifi_ssid && t_imsi(d1) == t_imsi(d2)) by {
        reveal(t_wifi_ssid);
        lemma_head_t_imsi(d1);
        lemma_head_t_imsi(d2);
        lemma_quoted_segment_unique("\",\n  \"wifi_ssid\": \""@, d1.wifi_ssid, t_imsi(d1), d2.wifi_ssid, t_imsi(d2));
    }
    assert(d1.imsi_md5 == d2.imsi_md5 && t_apn(d1) == t_apn(d2)) by {
        reveal(t_imsi);
        lemma_items_split(d1.imsi_md5, 1);
        lemma_items_split(d2.imsi_md5, 1);
        assert(d1.imsi_md5.subrange(0, 1)[0] == d1.imsi_md5[0]);
        assert(d2.imsi_md5.subrange(0, 1)[0] == d2.imsi_md5[0]);
        assert(items_of(d1.imsi_md5.subrange(0, 1)) == dec_nat(d1.imsi_md5[0] as nat));
        assert(items_of(d2.imsi_md5.subrange(0, 1)) == dec_nat(d2.imsi_md5[0] as nat));
        let rest1 = items_from(d1.imsi_md5, 1) + t_apn(d1);
        let rest2 = items_from(d2.imsi_md5, 1) + t_apn(d2);
        lemma_item_tail_head(d1, 1);
        lemma_item_tail_head(d2, 1);
        assert("\",\n  \"imsi_md5\": ["@ + dec_nat(d1.imsi_md5[0] as nat) + rest1 =~= t_imsi(d1));
        assert("\",\n  \"imsi_md5\": ["@ + dec_nat(d2.imsi_md5[0] as nat) + rest2 =~= t_imsi(d2));
        lemma_number_segment_unique(
            "\",\n  \"imsi_md5\": ["@,
            d1.imsi_md5[0] as nat,
            rest1,
            d2.imsi_md5[0] as nat,
            rest2,
        );
        lemma_head_t_apn(d1);
        lemma_head_t_apn(d2);
        assert(!is_digit(t_apn(d1)[0]) && !is_digit(t_apn(d2)[0]));
        lemma_items_from_unique(d1.imsi_md5, d2.imsi_md5, 1, t_apn(d1), t_apn(d2));
        assert(d1.imsi_md5 =~= d2.imsi_md5) by {
            assert(forall|j: int|
                1 <= j < 16 ==> d1.imsi_md5.subrange(1, 16)[j - 1] == #[trigger] d1.imsi_md5[j]);
            assert(forall|j: int|
                1 <= j < 16 ==> d2.imsi_md5.subrange(1, 16)[j - 1] == #[trigger] d2.imsi_md5[j]);
        }
    }
    assert(d1.apn == d2.apn) by {
        reveal(t_apn);
        reveal_strlit("\"\n}");
        lemma_quoted_segment_unique("],\n  \"apn\": \""@, d1.apn, "\"\n}"@, d2.apn, "\"\n}"@);
    }
    assert(d1.version =~= d2.version);
    assert(d1 =~= d2);
}

} // verus!
