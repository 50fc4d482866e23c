use vstd::prelude::*;

use crate::crypto::{decrypt_model, KeyManager};
use crate::errors::CliperError;
use crate::imaging::{png_decode, rgba_decoded, RgbaImage};
use crate::store::{blob_view, lookup, opt_text_view, Database, ItemRecord};
use crate::watcher::{image_record_of, text_record_of, utf8_bytes};

verus! {

/// Stands for lossy UTF-8 decoding: a pure function of the bytes, with
/// invalid sequences read as replacement characters.
pub uninterp spec fn utf8_lossy(bytes: Seq<u8>) -> Seq<char>;

/// What the platform backend should put on the clipboard for one item.
#[derive(Debug)]
pub enum CopyAction {
    /// Plain text to set.
    SetText(String),
    /// A decoded pixel buffer to set as the clipboard image.
    SetImage(RgbaImage),
    /// A path to write as a file reference (never read from disk; a
    /// dangling path is still written).
    WriteFileRef(String),
    /// The row holds nothing writable for its kind.
    NoWrite,
}

/// A prepared copy-back: the main clipboard action, and the decrypted RTF
/// sidecar to write alongside it when one is present and decryptable.
#[derive(Debug)]
pub struct CopyBackPayload {
    pub action: CopyAction,
    pub rtf: Option<Vec<u8>>,
}

/// How copy-back surfaces a decrypt failure of the content blob. The
/// taxonomy defines Decryption as the caller-facing wrap of an
/// authentication failure alone, so only that is renamed: a locked manager
/// still surfaces Locked, and an undersized blob MalformedInput.
pub open spec fn copy_back_error(e: CliperError) -> CliperError {
    if e == CliperError::Authentication {
        CliperError::Decryption
    } else {
        e
    }
}

fn map_copy_back_error(e: CliperError) -> (r: CliperError)
    ensures
        r == copy_back_error(e),
{
    if e == CliperError::Authentication {
        CliperError::Decryption
    } else {
        e
    }
}

/// What the payload's main action must be for a record with this kind,
/// content blob and path, under the manager's key.
pub open spec fn action_for(
    km: KeyManager,
    kind: Seq<char>,
    content: Option<Seq<u8>>,
    path: Option<Seq<char>>,
    action: CopyAction,
) -> bool {
    if kind == "text"@ {
        match content {
            Some(c) => action matches CopyAction::SetText(s) && (decrypt_model(km, c) matches Ok(pt)
                && s@ == utf8_lossy(pt) && (forall|orig: Seq<char>|
                pt == utf8_bytes(orig) ==> s@ == orig)),
            None => action is NoWrite,
        }
    } else if kind == "image"@ {
        match content {
            Some(c) => action matches CopyAction::SetImage(img) && (decrypt_model(km, c) matches Ok(
                pt,
            ) && rgba_decoded(pt) == Some(((img.width as nat, img.height as nat, img.bytes@)))
                && img.wf()),
            None => action is NoWrite,
        }
    } else if kind == "file"@ {
        match path {
            Some(fp) => action matches CopyAction::WriteFileRef(p) && p@ == fp,
            None => action is NoWrite,
        }
    } else {
        action is NoWrite
    }
}

/// When copy-back fails for a record: only a text or image row whose
/// content blob does not decrypt (or whose decrypted image bytes do not
/// decode), with the failure named by `copy_back_error`.
pub open spec fn copy_back_failure(
    km: KeyManager,
    kind: Seq<char>,
    content: Option<Seq<u8>>,
    e: CliperError,
) -> bool {
    &&& (kind == "text"@ || kind == "image"@)
    &&& content matches Some(c) && ((decrypt_model(km, c) matches Err(e0) && e == copy_back_error(
        e0,
    )) || (kind == "image"@ && decrypt_model(km, c) is Ok && rgba_decoded(
        decrypt_model(km, c).unwrap(),
    ) is None && e == CliperError::Decryption))
}

/// The decrypted RTF sidecar: present exactly when the row carries one
/// that decrypts under the loaded key, and then it is that plaintext; a
/// sidecar that fails to decrypt is dropped silently, never an error.
pub open spec fn rtf_payload_for(km: KeyManager, rtf_field: Option<Seq<u8>>, out: Option<
    Vec<u8>,
>) -> bool {
    match rtf_field {
        Some(b) => match decrypt_model(km, b) {
            Ok(pt) => out matches Some(v) && v@ == pt,
            Err(_) => out is None,
        },
        None => out is None,
    }
}

/// Fetches the raw row for `id` and decrypts what the clipboard needs:
/// text rows yield their text (lossily re-read as UTF-8), image rows their
/// decoded pixel buffer, file rows the stored path as a reference; an RTF
/// sidecar is decrypted alongside when possible. Fails with NotFound when
/// no row carries the id; a content blob that does not decrypt fails with
/// the authentication failure wrapped as Decryption — copy-back is a
/// direct user action, so these surface.
pub fn copy_back(db: &Database, km: &KeyManager, id: i64) -> (r: Result<
    CopyBackPayload,
    CliperError,
>)
    requires
        km.wf(),
    ensures
        lookup(db.items(), id) is None ==> r == Err::<CopyBackPayload, CliperError>(
            CliperError::NotFound,
        ),
        lookup(db.items(), id) matches Some(rec) ==> match r {
            Ok(p) => action_for(
                *km,
                rec.kind@,
                crate::store::blob_view(rec.content_blob),
                crate::store::opt_text_view(rec.file_path),
                p.action,
            ) && rtf_payload_for(*km, crate::store::blob_view(rec.rtf_blob), p.rtf),
            Err(e) => e != CliperError::NotFound && copy_back_failure(
                *km,
                rec.kind@,
                crate::store::blob_view(rec.content_blob),
                e,
            ),
        },
{
    let row = match db.get_item_raw(id) {
        Ok(row) => row,
        Err(_) => {
            return Err(CliperError::NotFound);
        }
    };
    let (kind, content_blob, _preview_blob, rtf_blob, file_path) = row;
    let action: CopyAction = if kind == "text".to_owned() {
        match &content_blob {
            Some(c) => {
                let pt = match km.decrypt(c.as_slice()) {
                    Ok(pt) => pt,
                    Err(e) => {
                        return Err(map_copy_back_error(e));
                    }
                };
                CopyAction::SetText(from_utf8_lossy(&pt))
            }
            None => CopyAction::NoWrite,
        }
    } else if kind == "image".to_owned() {
        match &content_blob {
            Some(c) => {
                let pt = match km.decrypt(c.as_slice()) {
                    Ok(pt) => pt,
                    Err(e) => {
                        return Err(map_copy_back_error(e));
                    }
                };
                match png_decode(&pt) {
                    Some(img) => CopyAction::SetImage(img),
                    None => {
                        return Err(CliperError::Decryption);
                    }
                }
            }
            None => CopyAction::NoWrite,
        }
    } else if kind == "file".to_owned() {
        match file_path {
            Some(fp) => CopyAction::WriteFileRef(fp),
            None => CopyAction::NoWrite,
        }
    } else {
        CopyAction::NoWrite
    };
    let rtf: Option<Vec<u8>> = match &rtf_blob {
        Some(b) => match km.decrypt(b.as_slice()) {
            Ok(pt) => Some(pt),
            Err(_) => None,
        },
        None => None,
    };
    Ok(CopyBackPayload { action, rtf })
}

/// Captured text copies back verbatim: a stored record that holds text
/// sealed under the loaded key, handed to the copy-back contract, yields a
/// SetText action carrying exactly that text.
pub proof fn lemma_text_capture_copies_back(
    km: KeyManager,
    rec: ItemRecord,
    text: Seq<char>,
    rtf: Option<Seq<u8>>,
    action: CopyAction,
)
    requires
        km.unlocked(),
        text_record_of(rec, km.key_bytes(), text, rtf),
        action_for(km, rec.kind@, blob_view(rec.content_blob), opt_text_view(rec.file_path), action),
    ensures
        action matches CopyAction::SetText(s) && s@ == text,
{
}

/// A captured image copies back pixel for pixel: a stored record that holds
/// an image sealed under the loaded key, handed to the copy-back contract,
/// yields a SetImage action with the original dimensions and RGBA bytes.
pub proof fn lemma_image_capture_copies_back(
    km: KeyManager,
    rec: ItemRecord,
    img: crate::imaging::RgbaImage,
    action: CopyAction,
)
    requires
        km.unlocked(),
        image_record_of(rec, km.key_bytes(), img),
        action_for(km, rec.kind@, blob_view(rec.content_blob), opt_text_view(rec.file_path), action),
    ensures
        action matches CopyAction::SetImage(out) && out.width == img.width && out.height
            == img.height && out.bytes@ == img.bytes@,
{
    reveal_strlit("text");
    reveal_strlit("image");
    let png = crate::imaging::png_of(img.width as nat, img.height as nat, img.bytes@);
    assert("image"@ != "text"@) by {
        assert("image"@.len() != "text"@.len());
    }
    assert(blob_view(rec.content_blob) matches Some(c) && decrypt_model(km, c) == Ok::<
        Seq<u8>,
        CliperError,
    >(png)) by {
        assert(rec.content_blob matches Some(cb) && crate::crypto::encrypt_produced(
            km.key_bytes(),
            png,
            cb@,
        ));
    }
    assert(action matches CopyAction::SetImage(out) && crate::imaging::rgba_decoded(png) == Some(
        ((out.width as nat, out.height as nat, out.bytes@)),
    ));
}

/// Relies on String::from_utf8_lossy: a pure function of the bytes, and
/// the identity on bytes that already are the UTF-8 encoding of a string.
#[verifier::external_body]
fn from_utf8_lossy(b: &Vec<u8>) -> (r: String)
    ensures
        r@ == utf8_lossy(b@),
        forall|s: Seq<char>| b@ == utf8_bytes(s) ==> r@ == s,
{
    String::from_utf8_lossy(b).into_owned()
}

} // verus!
