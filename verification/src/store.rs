//! The device identity store policy: load-or-create semantics over the
//! canonical interchange document, and the exact contents of both files
//! the store writes. The store itself never touches the filesystem; the
//! caller reads and writes files and hands the contents through.

use vstd::prelude::*;
use crate::codec::{canon_device, emit_device, emit_mirai_info, matches_doc, mirai_doc, parse_device};
use crate::identity::{DeviceIdentity, DeviceIdentityView};
use crate::mirai::{device_to_mirai_info, mirai_of, MiraiDeviceInfo};

verus! {

/// Whether `s` is the canonical persisted document of some well-formed
/// device identity.
pub open spec fn is_canonical_document(s: Seq<char>) -> bool {
    exists|dv: DeviceIdentityView| #[trigger] matches_doc(s, dv)
}

/// The name of the canonical identity file inside a profile directory.
pub fn device_file_name() -> (r: &'static str)
    ensures
        r@ == "device.json"@,
{
    "device.json"
}

/// The name of the alternate-schema export file inside a profile
/// directory.
pub fn compat_device_file_name() -> (r: &'static str)
    ensures
        r@ == "device.mirai.json"@,
{
    "device.mirai.json"
}

/// The name of the session token file inside a profile directory.
pub fn token_file_name() -> (r: &'static str)
    ensures
        r@ == "token.json"@,
{
    "token.json"
}

/// The fixed relative path the QR challenge image is written to.
pub fn qr_image_file_name() -> (r: &'static str)
    ensures
        r@ == "qr.png"@,
{
    "qr.png"
}

/// The load-or-create decision: given what the identity file held (or
/// `None` if it was absent or unreadable) and a freshly generated
/// identity, picks the identity to use and says whether it must be
/// persisted. Total: corrupt contents never reach the caller as an
/// error, they degrade to the fresh identity.
pub fn resolve_device(content: Option<&str>, fresh: DeviceIdentity) -> (r: (DeviceIdentity, bool))
    ensures
        // loaded: the file held the canonical document of exactly r.0
        !r.1 ==> content is Some && matches_doc(content->0@, r.0@),
        // every identity the file could stand for is the one returned
        forall|dv: DeviceIdentityView|
            content is Some && #[trigger] matches_doc(content->0@, dv) ==> !r.1 && r.0@ == dv,
        // regenerated: the file was absent or not canonical
        r.1 ==> r.0 == fresh,
        r.1 ==> (content is Some ==> !is_canonical_document(content->0@)),
{
    match content {
        Option::None => (fresh, true),
        Option::Some(text) => {
            let parsed = parse_device(text);
            match parsed {
                Option::Some(d) => {
                    proof {
                        assert(matches_doc(text@, d@));
                    }
                    (d, false)
                },
                Option::None => {
                    proof {
                        assert forall|dv: DeviceIdentityView| !matches_doc(text@, dv) by {
                            if matches_doc(text@, dv) {
                                assert(false);
                            }
                        }
                    }
                    (fresh, true)
                },
            }
        },
    }
}

/// The exact contents of the canonical identity file for `d`.
pub fn device_file_contents(d: &DeviceIdentity) -> (r: String)
    ensures
        r@ == canon_device(d@),
        matches_doc(r@, d@) <==> d@.wf(),
{
    emit_device(d)
}

/// The exact contents of the alternate-schema export file for `d`: the
/// translated identity under schema version 2. Best-effort at the call
/// site, but correct whenever written.
pub fn compat_file_contents(d: &DeviceIdentity) -> (r: String)
    ensures
        exists|m: MiraiDeviceInfo|
            r@ == mirai_doc(m@) && #[trigger] m@.data == mirai_of(d@) && m@.device_info_version
                == 2,
{
    let info = device_to_mirai_info(d);
    let out = emit_mirai_info(&info);
    proof {
        assert(out@ == mirai_doc(info@) && info@.data == mirai_of(d@)
            && info@.device_info_version == 2);
    }
    out
}

/// Law: the canonical document of a well-formed identity is a canonical
/// document that stands for that identity. Together with the contracts
/// of [`device_file_contents`] and [`resolve_device`], and with
/// [`crate::codec::lemma_canonical_document_unique`] (one document never
/// stands for two identities), this is the store's load-or-create round
/// trip: persisting an identity and loading it back yields it unchanged,
/// loading the same contents twice yields the same identity, and
/// anything that is not canonical falls back to the fresh identity.
pub proof fn lemma_canonical_document_of(d: DeviceIdentityView)
    requires
        d.wf(),
    ensures
        matches_doc(canon_device(d), d),
        is_canonical_document(canon_device(d)),
{
    assert(matches_doc(canon_device(d), d));
}

} // verus!
