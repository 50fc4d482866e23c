use vstd::prelude::*;

use crate::crypto::{encrypt_produced, KeyManager};
use crate::errors::CliperError;
use crate::imaging::{png_encode, png_of, RgbaImage};
use crate::store::{
    blob_view, find_dup, opt_path_view, opt_text_view, sha256_of, Database, ItemRecord, NewItem,
};

verus! {

/// The UTF-8 bytes of a text value, as hashing and encryption see it.
pub open spec fn utf8_bytes(s: Seq<char>) -> Seq<u8> {
    vstd::utf8::encode_utf8(s)
}

/// A length, saturated into the signed 64-bit size column.
pub open spec fn sat_i64(n: nat) -> int {
    if n > 0x7fff_ffff_ffff_ffff {
        0x7fff_ffff_ffff_ffff
    } else {
        n as int
    }
}

fn usize_to_i64_sat(n: usize) -> (r: i64)
    ensures
        r as int == sat_i64(n as nat),
{
    if n as u128 > 0x7fff_ffff_ffff_ffffu128 {
        i64::MAX
    } else {
        n as i64
    }
}

/// One file reference read off the clipboard: the resolved path, and the
/// size a stat of it gave (None when the path could not be read).
#[derive(Debug, Clone)]
pub struct FileRef {
    pub path: String,
    pub size_on_disk: Option<i64>,
}

/// One poll of the OS clipboard, read into plain values by the platform
/// backend: the clipboard's change counter, the resolved file references,
/// and the text, RTF and image representations that were present.
pub struct ClipboardSnapshot {
    pub change_count: u64,
    pub files: Vec<FileRef>,
    pub text: Option<String>,
    pub rtf: Option<Vec<u8>>,
    pub image: Option<RgbaImage>,
}

impl ClipboardSnapshot {
    pub open spec fn wf(&self) -> bool {
        match self.image {
            Some(img) => img.wf(),
            None => true,
        }
    }
}

/// True when `s` begins with `p`.
pub open spec fn starts_with_chars(s: Seq<char>, p: Seq<char>) -> bool {
    s.len() >= p.len() && s.take(p.len() as int) == p
}

/// Stands for percent-decoding a string; None when the decoded bytes are
/// not valid UTF-8.
pub uninterp spec fn percent_decoded(s: Seq<char>) -> Option<Seq<char>>;

/// Stands for trimming leading and trailing whitespace.
pub uninterp spec fn trimmed(s: Seq<char>) -> Seq<char>;

/// Relies on urlencoding::decode: a pure function of the characters, Some
/// exactly when the percent-decoded bytes are valid UTF-8.
#[verifier::external_body]
fn percent_decode(s: &str) -> (r: Option<String>)
    ensures
        r matches Some(d) ==> percent_decoded(s@) == Some(d@),
        r is None ==> percent_decoded(s@) is None,
{
    match urlencoding::decode(s) {
        Ok(c) => Some(c.into_owned()),
        Err(_) => None,
    }
}

/// Relies on str::trim: a pure function of the characters.
#[verifier::external_body]
fn trim_str(s: &str) -> (r: &str)
    ensures
        r@ == trimmed(s@),
{
    s.trim()
}

/// Relies on str::strip_prefix with a string pattern: Some exactly when the
/// string starts with the prefix, and then holds the rest of it.
#[verifier::external_body]
fn strip_prefix_str<'a>(s: &'a str, prefix: &str) -> (r: Option<&'a str>)
    ensures
        r matches Some(t) ==> s@ == prefix@ + t@,
        r is None ==> !starts_with_chars(s@, prefix@),
{
    s.strip_prefix(prefix)
}

/// Relies on url::Url::parse and url::Url::to_file_path: the platform's
/// path for a file URL, when the URL parses and maps to one. The result
/// follows the platform's path syntax, so nothing more is said of it.
#[verifier::external_body]
fn file_url_to_path(raw: &str) -> (r: Option<String>) {
    let parsed = match url::Url::parse(raw) {
        Ok(u) => u,
        Err(_) => {
            return None;
        }
    };
    match parsed.to_file_path() {
        Ok(p) => Some(p.to_string_lossy().into_owned()),
        Err(()) => None,
    }
}

/// A pasteboard string with its file scheme prefix stripped: the longer
/// `file://localhost` form first, else `file://`, else the string itself.
pub open spec fn stripped_scheme(s: Seq<char>) -> Seq<char> {
    if starts_with_chars(s, "file://localhost"@) {
        s.skip("file://localhost"@.len() as int)
    } else if starts_with_chars(s, "file://"@) {
        s.skip("file://"@.len() as int)
    } else {
        s
    }
}

/// The path a pasteboard string resolves to without the URL parser: the
/// scheme prefix stripped, then percent-decoded; the stripped text itself
/// when decoding fails.
pub open spec fn fallback_resolved(s: Seq<char>) -> Seq<char> {
    match percent_decoded(stripped_scheme(s)) {
        Some(d) => d,
        None => stripped_scheme(s),
    }
}

/// Strips the file scheme prefix and percent-decodes what is left.
pub fn resolve_without_url_parse(s: &str) -> (r: String)
    ensures
        r@ == fallback_resolved(s@),
{
    let rest: &str = match strip_prefix_str(s, "file://localhost") {
        Some(t) => {
            proof {
                assert(("file://localhost"@ + t@).take("file://localhost"@.len() as int)
                    =~= "file://localhost"@);
                assert(("file://localhost"@ + t@).skip("file://localhost"@.len() as int) =~= t@);
            }
            t
        }
        None => match strip_prefix_str(s, "file://") {
            Some(t) => {
                proof {
                    assert(("file://"@ + t@).take("file://"@.len() as int) =~= "file://"@);
                    assert(("file://"@ + t@).skip("file://"@.len() as int) =~= t@);
                }
                t
            }
            None => s,
        },
    };
    assert(rest@ == stripped_scheme(s@));
    match percent_decode(rest) {
        Some(d) => d,
        None => rest.to_owned(),
    }
}

/// Resolves one raw pasteboard string to a filesystem path: after trimming,
/// a `file:` URL goes through the URL parser; anything else, and a URL the
/// parser cannot map to a path, has its scheme prefix stripped and is
/// percent-decoded.
pub fn resolve_file_url(raw: &str) -> (r: String)
    ensures
        !starts_with_chars(trimmed(raw@), "file:"@) ==> r@ == fallback_resolved(trimmed(raw@)),
        r@ == fallback_resolved(trimmed(raw@)) || starts_with_chars(trimmed(raw@), "file:"@),
{
    let t: &str = trim_str(raw);
    let is_file_url = match strip_prefix_str(t, "file:") {
        Some(rest) => {
            proof {
                assert(("file:"@ + rest@).take("file:"@.len() as int) =~= "file:"@);
            }
            true
        }
        None => false,
    };
    if is_file_url {
        match file_url_to_path(t) {
            Some(p) => {
                return p;
            }
            None => {}
        }
    }
    resolve_without_url_parse(t)
}

/// The store item a captured file reference becomes: the hash covers the
/// path string (never the file's contents), the size is what the stat gave
/// (zero when it could not be read), and no blob is attached.
pub open spec fn file_new_item(item: NewItem, f: FileRef) -> bool {
    &&& item.kind@ == "file"@
    &&& item.sha256@ == sha256_of(utf8_bytes(f.path@))
    &&& item.size == (match f.size_on_disk {
        Some(s) => s,
        None => 0,
    })
    &&& opt_text_view(item.file_path) == Some(f.path@)
    &&& item.content_blob is None
    &&& item.preview_blob is None
    &&& item.rtf_blob is None
}

/// Builds the store item for one captured file reference.
pub fn file_item(f: &FileRef) -> (item: NewItem)
    ensures
        file_new_item(item, *f),
{
    let sha = Database::compute_sha256(f.path.as_str().as_bytes());
    let size: i64 = match f.size_on_disk {
        Some(s) => s,
        None => 0,
    };
    NewItem {
        kind: "file".to_owned(),
        size,
        sha256: sha,
        file_path: Some(f.path.clone()),
        content_blob: None,
        preview_blob: None,
        rtf_blob: None,
    }
}

/// The store item captured text becomes: hash and size cover the UTF-8
/// bytes, the content blob decrypts to them under the given key, and an
/// RTF sidecar, when present and encryptable, decrypts to the RTF bytes.
pub open spec fn text_new_item(
    item: NewItem,
    key: Seq<u8>,
    text: Seq<char>,
    rtf: Option<Seq<u8>>,
) -> bool {
    &&& item.kind@ == "text"@
    &&& item.sha256@ == sha256_of(utf8_bytes(text))
    &&& item.size as int == sat_i64(utf8_bytes(text).len())
    &&& item.file_path is None
    &&& (item.content_blob matches Some(c) && encrypt_produced(key, utf8_bytes(text), c@))
    &&& item.preview_blob is None
    &&& (match rtf {
        None => item.rtf_blob is None,
        Some(rb) => (match item.rtf_blob {
            Some(b) => encrypt_produced(key, rb, b@),
            None => true,
        }),
    })
}

/// Builds the store item for captured text: encrypts the UTF-8 bytes,
/// hashes them, and attaches an encrypted RTF sidecar when one is present
/// (a sidecar that fails to encrypt is dropped: a per-tick error that is
/// absorbed, never a lost tick). Fails with MalformedInput exactly when the
/// text exceeds the AES-GCM length bound, else with Locked exactly when the
/// manager is locked; the only failure left after that is the randomness
/// source.
pub fn text_item(km: &KeyManager, text: &String, rtf: &Option<Vec<u8>>) -> (r: Result<
    NewItem,
    CliperError,
>)
    requires
        km.wf(),
    ensures
        r matches Ok(item) ==> km.unlocked() && text_new_item(
            item,
            km.key_bytes(),
            text@,
            blob_view(*rtf),
        ),
        r == Err::<NewItem, CliperError>(CliperError::MalformedInput) <==> utf8_bytes(
            text@,
        ).len() >= 0x1_0000_0000,
        utf8_bytes(text@).len() < 0x1_0000_0000 ==> (r == Err::<NewItem, CliperError>(
            CliperError::Locked,
        ) <==> !km.unlocked()),
        utf8_bytes(text@).len() < 0x1_0000_0000 && km.unlocked() ==> r is Ok || r == Err::<
            NewItem,
            CliperError,
        >(CliperError::KeyStore),
{
    let bytes: &[u8] = text.as_str().as_bytes();
    if bytes.len() as u128 >= 0x1_0000_0000u128 {
        return Err(CliperError::MalformedInput);
    }
    let enc = match km.encrypt(bytes) {
        Ok(c) => c,
        Err(e) => {
            return Err(e);
        }
    };
    let sha = Database::compute_sha256(bytes);
    let size = usize_to_i64_sat(bytes.len());
    let rtf_blob: Option<Vec<u8>> = match rtf {
        Some(rb) => {
            if (rb.len() as u128) < 0x1_0000_0000u128 {
                match km.encrypt(rb.as_slice()) {
                    Ok(c) => Some(c),
                    Err(_) => None,
                }
            } else {
                None
            }
        }
        None => None,
    };
    Ok(
        NewItem {
            kind: "text".to_owned(),
            size,
            sha256: sha,
            file_path: None,
            content_blob: Some(enc),
            preview_blob: None,
            rtf_blob,
        },
    )
}

/// The store item a captured image becomes: the pixels are re-encoded to
/// canonical PNG bytes, which the hash and size cover and the content blob
/// decrypts to — so dedup is stable across source pixel layouts.
pub open spec fn image_new_item(item: NewItem, key: Seq<u8>, img: RgbaImage) -> bool {
    let png = png_of(img.width as nat, img.height as nat, img.bytes@);
    &&& crate::imaging::rgba_decoded(png) == Some(
        ((img.width as nat, img.height as nat, img.bytes@)),
    )
    &&& item.kind@ == "image"@
    &&& item.sha256@ == sha256_of(png)
    &&& item.size as int == sat_i64(png.len())
    &&& item.file_path is None
    &&& (item.content_blob matches Some(c) && encrypt_produced(key, png, c@))
    &&& item.preview_blob is None
    &&& item.rtf_blob is None
}

/// Whether a pixel buffer cannot be captured: a dimension of zero, a
/// buffer beyond the allocation budget that decoding it back would be
/// held to, or a canonical encoding beyond the AES-GCM length bound.
pub open spec fn image_uncapturable(img: RgbaImage) -> bool {
    ||| img.width == 0
    ||| img.height == 0
    ||| 4 * (img.width as nat) * (img.height as nat) > 0x1000_0000
    ||| png_of(img.width as nat, img.height as nat, img.bytes@).len() >= 0x1_0000_0000
}

/// Builds the store item for a captured image. Fails with Locked exactly
/// when the manager is locked, else with MalformedInput exactly when the
/// image cannot be captured; the only failure left after that is the
/// randomness source.
pub fn image_item(km: &KeyManager, img: &RgbaImage) -> (r: Result<NewItem, CliperError>)
    requires
        km.wf(),
        img.wf(),
    ensures
        r matches Ok(item) ==> km.unlocked() && image_new_item(item, km.key_bytes(), *img),
        r == Err::<NewItem, CliperError>(CliperError::Locked) <==> !km.unlocked(),
        km.unlocked() ==> (r == Err::<NewItem, CliperError>(CliperError::MalformedInput)
            <==> image_uncapturable(*img)),
        km.unlocked() && !image_uncapturable(*img) ==> r is Ok || r == Err::<NewItem, CliperError>(
            CliperError::KeyStore,
        ),
{
    if !km.is_unlocked() {
        return Err(CliperError::Locked);
    }
    if img.width == 0 || img.height == 0 {
        return Err(CliperError::MalformedInput);
    }
    if img.bytes.len() > 0x1000_0000 {
        return Err(CliperError::MalformedInput);
    }
    let png = png_encode(img);
    if png.len() as u128 >= 0x1_0000_0000u128 {
        return Err(CliperError::MalformedInput);
    }
    let enc = match km.encrypt(png.as_slice()) {
        Ok(c) => c,
        Err(e) => {
            return Err(e);
        }
    };
    let sha = Database::compute_sha256(png.as_slice());
    let size = usize_to_i64_sat(png.len());
    Ok(
        NewItem {
            kind: "image".to_owned(),
            size,
            sha256: sha,
            file_path: None,
            content_blob: Some(enc),
            preview_blob: None,
            rtf_blob: None,
        },
    )
}

/// A stored record that holds one captured file reference.
pub open spec fn file_record_of(rec: ItemRecord, f: FileRef) -> bool {
    &&& rec.kind@ == "file"@
    &&& rec.sha256@ == sha256_of(utf8_bytes(f.path@))
    &&& rec.size == (match f.size_on_disk {
        Some(s) => s,
        None => 0,
    })
    &&& opt_text_view(rec.file_path) == Some(f.path@)
    &&& rec.content_blob is None
    &&& rec.preview_blob is None
    &&& rec.rtf_blob is None
    &&& rec.is_pinned == false
}

/// The dedup lookup a captured file reference makes against the store.
pub open spec fn file_key_dup(items: Seq<ItemRecord>, f: FileRef) -> Option<i64> {
    find_dup(items, sha256_of(utf8_bytes(f.path@)), "file"@, f.path@)
}

/// How one tick's file references move the store from `pre` (next fresh id
/// `pre_next`) to `post`, handing back one id per path, in order: each path
/// is looked up against the store as the paths before it left it; a dedup
/// match hands back the existing id and adds nothing, any other path
/// appends exactly one fresh file record under the next id.
pub open spec fn files_captured(
    files: Seq<FileRef>,
    pre: Seq<ItemRecord>,
    pre_next: int,
    post: Seq<ItemRecord>,
    post_next: int,
    ids: Seq<i64>,
) -> bool
    decreases files.len(),
{
    if files.len() == 0 {
        &&& post == pre
        &&& post_next == pre_next
        &&& ids.len() == 0
    } else {
        &&& ids.len() >= 1
        &&& match file_key_dup(pre, files.first()) {
            Some(id) => ids.first() == id && files_captured(
                files.drop_first(),
                pre,
                pre_next,
                post,
                post_next,
                ids.drop_first(),
            ),
            None => exists|rec: ItemRecord|
                {
                    &&& #[trigger] file_record_of(rec, files.first())
                    &&& rec.id as int == pre_next
                    &&& ids.first() == rec.id
                    &&& files_captured(
                        files.drop_first(),
                        pre.push(rec),
                        pre_next + 1,
                        post,
                        post_next,
                        ids.drop_first(),
                    )
                },
        }
    }
}

/// Extends a capture trace by one path whose dedup lookup hits.
proof fn lemma_files_captured_extend_dup(
    files: Seq<FileRef>,
    pre: Seq<ItemRecord>,
    pre_next: int,
    post: Seq<ItemRecord>,
    post_next: int,
    ids: Seq<i64>,
    f: FileRef,
    id: i64,
)
    requires
        files_captured(files, pre, pre_next, post, post_next, ids),
        file_key_dup(post, f) == Some(id),
    ensures
        files_captured(files.push(f), pre, pre_next, post, post_next, ids.push(id)),
    decreases files.len(),
{
    let fs = files.push(f);
    let is = ids.push(id);
    if files.len() == 0 {
        assert(fs.first() == f && is.first() == id);
        assert(fs.drop_first() =~= Seq::<FileRef>::empty());
        assert(is.drop_first() =~= Seq::<i64>::empty());
        assert(files_captured(fs.drop_first(), pre, pre_next, post, post_next, is.drop_first()));
    } else {
        assert(fs.first() == files.first() && is.first() == ids.first());
        assert(fs.drop_first() =~= files.drop_first().push(f));
        assert(is.drop_first() =~= ids.drop_first().push(id));
        match file_key_dup(pre, files.first()) {
            Some(_) => {
                lemma_files_captured_extend_dup(
                    files.drop_first(),
                    pre,
                    pre_next,
                    post,
                    post_next,
                    ids.drop_first(),
                    f,
                    id,
                );
            }
            None => {
                let rec = choose|rec: ItemRecord|
                    {
                        &&& #[trigger] file_record_of(rec, files.first())
                        &&& rec.id as int == pre_next
                        &&& ids.first() == rec.id
                        &&& files_captured(
                            files.drop_first(),
                            pre.push(rec),
                            pre_next + 1,
                            post,
                            post_next,
                            ids.drop_first(),
                        )
                    };
                lemma_files_captured_extend_dup(
                    files.drop_first(),
                    pre.push(rec),
                    pre_next + 1,
                    post,
                    post_next,
                    ids.drop_first(),
                    f,
                    id,
                );
                assert(file_record_of(rec, fs.first()) && rec.id as int == pre_next && is.first()
                    == rec.id && files_captured(
                    fs.drop_first(),
                    pre.push(rec),
                    pre_next + 1,
                    post,
                    post_next,
                    is.drop_first(),
                ));
            }
        }
    }
}

/// Extends a capture trace by one path whose dedup lookup misses: one
/// fresh file record is appended under the next id.
proof fn lemma_files_captured_extend_fresh(
    files: Seq<FileRef>,
    pre: Seq<ItemRecord>,
    pre_next: int,
    post: Seq<ItemRecord>,
    post_next: int,
    ids: Seq<i64>,
    f: FileRef,
    rec2: ItemRecord,
)
    requires
        files_captured(files, pre, pre_next, post, post_next, ids),
        file_key_dup(post, f) is None,
        file_record_of(rec2, f),
        rec2.id as int == post_next,
    ensures
        files_captured(
            files.push(f),
            pre,
            pre_next,
            post.push(rec2),
            post_next + 1,
            ids.push(rec2.id),
        ),
    decreases files.len(),
{
    let fs = files.push(f);
    let is = ids.push(rec2.id);
    if files.len() == 0 {
        assert(fs.first() == f && is.first() == rec2.id);
        assert(fs.drop_first() =~= Seq::<FileRef>::empty());
        assert(is.drop_first() =~= Seq::<i64>::empty());
        assert(file_record_of(rec2, fs.first()) && rec2.id as int == pre_next && is.first()
            == rec2.id && files_captured(
            fs.drop_first(),
            pre.push(rec2),
            pre_next + 1,
            post.push(rec2),
            post_next + 1,
            is.drop_first(),
        ));
    } else {
        assert(fs.first() == files.first() && is.first() == ids.first());
        assert(fs.drop_first() =~= files.drop_first().push(f));
        assert(is.drop_first() =~= ids.drop_first().push(rec2.id));
        match file_key_dup(pre, files.first()) {
            Some(_) => {
                lemma_files_captured_extend_fresh(
                    files.drop_first(),
                    pre,
                    pre_next,
                    post,
                    post_next,
                    ids.drop_first(),
                    f,
                    rec2,
                );
            }
            None => {
                let rec = choose|rec: ItemRecord|
                    {
                        &&& #[trigger] file_record_of(rec, files.first())
                        &&& rec.id as int == pre_next
                        &&& ids.first() == rec.id
                        &&& files_captured(
                            files.drop_first(),
                            pre.push(rec),
                            pre_next + 1,
                            post,
                            post_next,
                            ids.drop_first(),
                        )
                    };
                lemma_files_captured_extend_fresh(
                    files.drop_first(),
                    pre.push(rec),
                    pre_next + 1,
                    post,
                    post_next,
                    ids.drop_first(),
                    f,
                    rec2,
                );
                assert(file_record_of(rec, fs.first()) && rec.id as int == pre_next && is.first()
                    == rec.id && files_captured(
                    fs.drop_first(),
                    pre.push(rec),
                    pre_next + 1,
                    post.push(rec2),
                    post_next + 1,
                    is.drop_first(),
                ));
            }
        }
    }
}

/// A stored record that holds captured text sealed under `key`.
pub open spec fn text_record_of(
    rec: ItemRecord,
    key: Seq<u8>,
    text: Seq<char>,
    rtf: Option<Seq<u8>>,
) -> bool {
    &&& rec.kind@ == "text"@
    &&& rec.sha256@ == sha256_of(utf8_bytes(text))
    &&& rec.size as int == sat_i64(utf8_bytes(text).len())
    &&& rec.file_path is None
    &&& (rec.content_blob matches Some(c) && encrypt_produced(key, utf8_bytes(text), c@))
    &&& rec.preview_blob is None
    &&& (match rtf {
        None => rec.rtf_blob is None,
        Some(rb) => (match rec.rtf_blob {
            Some(b) => encrypt_produced(key, rb, b@),
            None => true,
        }),
    })
    &&& rec.is_pinned == false
}

/// A stored record that holds a captured image sealed under `key`.
pub open spec fn image_record_of(rec: ItemRecord, key: Seq<u8>, img: RgbaImage) -> bool {
    let png = png_of(img.width as nat, img.height as nat, img.bytes@);
    &&& crate::imaging::rgba_decoded(png) == Some(
        ((img.width as nat, img.height as nat, img.bytes@)),
    )
    &&& rec.kind@ == "image"@
    &&& rec.sha256@ == sha256_of(png)
    &&& rec.size as int == sat_i64(png.len())
    &&& rec.file_path is None
    &&& (rec.content_blob matches Some(c) && encrypt_produced(key, png, c@))
    &&& rec.preview_blob is None
    &&& rec.rtf_blob is None
    &&& rec.is_pinned == false
}

/// What one tick of the capture state machine did.
pub enum TickOutcome {
    /// The change counter did not move: nothing was read.
    Unchanged,
    /// The counter moved but no supported representation was present.
    Nothing,
    /// The counter moved while locked: observed, nothing persisted.
    SkippedLocked,
    /// The ids under which the captured items now stand (existing ids for
    /// dedup hits).
    Inserted(Vec<i64>),
    /// A per-tick error was absorbed; the store is unchanged.
    Failed,
}

/// The capture state machine: remembers the last seen clipboard change
/// counter and, on each tick, classifies and stores what changed. The
/// platform backend reads the OS clipboard into a snapshot and performs the
/// timer loop; every decision lives here.
pub struct ClipboardWatcher {
    last_count: u64,
}

impl ClipboardWatcher {
    /// The change counter value the watcher saw last.
    pub closed spec fn last_seen(&self) -> u64 {
        self.last_count
    }

    pub fn new() -> (r: ClipboardWatcher)
        ensures
            r.last_seen() == 0,
    {
        ClipboardWatcher { last_count: 0 }
    }

    /// One tick: an unmoved counter reads nothing; otherwise the counter is
    /// remembered and exactly one kind is captured, file references first
    /// (stored whatever the lock state, suppressing text and image), then
    /// text with its optional RTF sidecar, then the image — text and image
    /// are dropped while locked, and any per-tick failure leaves the store
    /// unchanged.
    #[verifier::rlimit(100)]
    #[verifier::spinoff_prover]
    pub fn observe(&mut self, db: &mut Database, km: &KeyManager, snap: &ClipboardSnapshot) -> (r:
        TickOutcome)
        requires
            old(db).wf(),
            km.wf(),
            snap.wf(),
        ensures
            final(db).wf(),
            snap.change_count == old(self).last_seen() ==> r is Unchanged && final(db).items()
                == old(db).items() && final(self).last_seen() == old(self).last_seen(),
            snap.change_count != old(self).last_seen() ==> final(self).last_seen()
                == snap.change_count,
            snap.change_count != old(self).last_seen() && snap.files@.len() > 0 ==> {
                &&& r matches TickOutcome::Inserted(ids) && ids@.len() <= snap.files@.len() && (
                old(db).next_id_spec() + snap.files@.len() <= 0x7fff_ffff_ffff_ffff
                    ==> ids@.len() == snap.files@.len() && files_captured(
                    snap.files@,
                    old(db).items(),
                    old(db).next_id_spec(),
                    final(db).items(),
                    final(db).next_id_spec(),
                    ids@,
                ))
                &&& final(db).items().len() >= old(db).items().len()
                &&& final(db).items().take(old(db).items().len() as int) == old(db).items()
                &&& forall|k: int|
                    old(db).items().len() <= k < final(db).items().len()
                        ==> file_record_appended(#[trigger] final(db).items()[k], snap.files@)
            },
            snap.change_count != old(self).last_seen() && snap.files@.len() == 0 ==> (
            snap.text matches Some(t) ==> {
                if km.unlocked() {
                    match r {
                        TickOutcome::Inserted(ids) => ids@.len() == 1 && ({
                            ||| (final(db).items() == old(db).items() && find_dup(
                                old(db).items(),
                                sha256_of(utf8_bytes(t@)),
                                "text"@,
                                Seq::<char>::empty(),
                            ) == Some(ids@[0]))
                            ||| (final(db).items().len() == old(db).items().len() + 1 && final(db).items().drop_last() == old(db).items() && text_record_of(
                                final(db).items().last(),
                                km.key_bytes(),
                                t@,
                                blob_view(snap.rtf),
                            ) && ids@[0] == final(db).items().last().id)
                        }),
                        TickOutcome::Failed => final(db).items() == old(db).items(),
                        _ => false,
                    }
                } else {
                    r is SkippedLocked && final(db).items() == old(db).items()
                }
            }),
            snap.change_count != old(self).last_seen() && snap.files@.len() == 0
                && snap.text is None ==> (
            snap.image matches Some(img) ==> {
                if km.unlocked() {
                    match r {
                        TickOutcome::Inserted(ids) => ids@.len() == 1 && ({
                            ||| (final(db).items() == old(db).items() && find_dup(
                                old(db).items(),
                                sha256_of(png_of(img.width as nat, img.height as nat, img.bytes@)),
                                "image"@,
                                Seq::<char>::empty(),
                            ) == Some(ids@[0]))
                            ||| (final(db).items().len() == old(db).items().len() + 1 && final(db).items().drop_last() == old(db).items() && image_record_of(
                                final(db).items().last(),
                                km.key_bytes(),
                                img,
                            ) && ids@[0] == final(db).items().last().id)
                        }),
                        TickOutcome::Failed => final(db).items() == old(db).items(),
                        _ => false,
                    }
                } else {
                    r is SkippedLocked && final(db).items() == old(db).items()
                }
            }),
            snap.change_count != old(self).last_seen() && snap.files@.len() == 0
                && snap.text is None && snap.image is None ==> r is Nothing && final(db).items()
                == old(db).items(),
    {
        if snap.change_count == self.last_count {
            return TickOutcome::Unchanged;
        }
        self.last_count = snap.change_count;
        let nfiles = snap.files.len();
        if nfiles > 0 {
            let ghost base = db.items();
            let ghost base_next = db.next_id_spec();
            let ghost guard = base_next + nfiles as int <= 0x7fff_ffff_ffff_ffff;
            let mut ids: Vec<i64> = Vec::new();
            let mut fi: usize = 0;
            proof {
                assert(snap.files@.take(0) =~= Seq::<FileRef>::empty());
                assert(files_captured(Seq::<FileRef>::empty(), base, base_next, base, base_next, ids@));
            }
            while fi < nfiles
                invariant
                    fi <= nfiles,
                    nfiles == snap.files@.len(),
                    km.wf(),
                    db.wf(),
                    ids@.len() <= fi,
                    db.items().len() >= base.len(),
                    db.items().take(base.len() as int) == base,
                    base_next <= db.next_id_spec() <= base_next + fi,
                    guard == (base_next + nfiles as int <= 0x7fff_ffff_ffff_ffff),
                    guard ==> ids@.len() == fi && files_captured(
                        snap.files@.take(fi as int),
                        base,
                        base_next,
                        db.items(),
                        db.next_id_spec(),
                        ids@,
                    ),
                    forall|k: int|
                        base.len() <= k < db.items().len() ==> file_record_appended(
                            #[trigger] db.items()[k],
                            snap.files@,
                        ),
                decreases nfiles - fi,
            {
                let ghost f = snap.files@[fi as int];
                let item = file_item(&snap.files[fi]);
                proof {
                    // the item's dedup key is exactly the file key
                    assert(item.file_path matches Some(p) && p@ == f.path@);
                    assert(opt_path_view(item.file_path) == f.path@);
                }
                let ghost pre = db.items();
                let ghost pre_next = db.next_id_spec();
                let ghost ids_pre = ids@;
                let insert_result = db.insert_item(item);
                proof {
                    assert(db.items().take(base.len() as int) =~= base) by {
                        assert(forall|k: int|
                            0 <= k < pre.len() ==> #[trigger] db.items()[k] == pre[k]);
                    }
                    assert forall|k: int|
                        base.len() <= k < db.items().len() implies file_record_appended(
                        #[trigger] db.items()[k],
                        snap.files@,
                    ) by {
                        if k < pre.len() {
                            assert(db.items()[k] == pre[k]);
                        } else {
                            assert(db.items()[k] == db.items().last());
                            assert(file_record_of(db.items().last(), snap.files@[fi as int]));
                        }
                    }
                    assert(snap.files@.take(fi as int + 1) =~= snap.files@.take(fi as int).push(f));
                }
                match insert_result {
                    Ok(id) => {
                        ids.push(id);
                        proof {
                            if guard {
                                assert(pre_next < 0x7fff_ffff_ffff_ffff);
                                match file_key_dup(pre, f) {
                                    Some(dup_id) => {
                                        assert(id == dup_id);
                                        assert(db.items() == pre && db.next_id_spec() == pre_next);
                                        lemma_files_captured_extend_dup(
                                            snap.files@.take(fi as int),
                                            base,
                                            base_next,
                                            pre,
                                            pre_next,
                                            ids_pre,
                                            f,
                                            dup_id,
                                        );
                                        assert(ids@ =~= ids_pre.push(dup_id));
                                    }
                                    None => {
                                        let rec = db.items().last();
                                        assert(id as int == pre_next && rec.id as int == pre_next);
                                        assert(db.items() =~= pre.push(rec)) by {
                                            assert(db.items().drop_last() == pre);
                                        }
                                        assert(file_record_of(rec, f));
                                        lemma_files_captured_extend_fresh(
                                            snap.files@.take(fi as int),
                                            base,
                                            base_next,
                                            pre,
                                            pre_next,
                                            ids_pre,
                                            f,
                                            rec,
                                        );
                                        assert(ids@ =~= ids_pre.push(rec.id));
                                        assert(db.next_id_spec() == pre_next + 1);
                                    }
                                }
                                assert(files_captured(
                                    snap.files@.take(fi as int + 1),
                                    base,
                                    base_next,
                                    db.items(),
                                    db.next_id_spec(),
                                    ids@,
                                ));
                            }
                        }
                    }
                    Err(_) => {
                        proof {
                            if guard {
                                assert(pre_next < 0x7fff_ffff_ffff_ffff);
                                assert(false);
                            }
                        }
                    }
                }
                fi = fi + 1;
            }
            proof {
                assert(snap.files@.take(nfiles as int) =~= snap.files@);
            }
            return TickOutcome::Inserted(ids);
        }
        match &snap.text {
            Some(t) => {
                if !km.is_unlocked() {
                    return TickOutcome::SkippedLocked;
                }
                match text_item(km, t, &snap.rtf) {
                    Ok(item) => {
                        match db.insert_item(item) {
                            Ok(id) => {
                                let mut ids: Vec<i64> = Vec::new();
                                ids.push(id);
                                return TickOutcome::Inserted(ids);
                            }
                            Err(_) => {
                                return TickOutcome::Failed;
                            }
                        }
                    }
                    Err(_) => {
                        return TickOutcome::Failed;
                    }
                }
            }
            None => {}
        }
        match &snap.image {
            Some(img) => {
                if !km.is_unlocked() {
                    return TickOutcome::SkippedLocked;
                }
                match image_item(km, img) {
                    Ok(item) => {
                        match db.insert_item(item) {
                            Ok(id) => {
                                let mut ids: Vec<i64> = Vec::new();
                                ids.push(id);
                                TickOutcome::Inserted(ids)
                            }
                            Err(_) => TickOutcome::Failed,
                        }
                    }
                    Err(_) => TickOutcome::Failed,
                }
            }
            None => TickOutcome::Nothing,
        }
    }
}

/// A record that stands for one of the snapshot's file references.
pub open spec fn file_record_appended(rec: ItemRecord, files: Seq<FileRef>) -> bool {
    exists|fi: int| 0 <= fi < files.len() && file_record_of(rec, #[trigger] files[fi])
}

} // verus!
