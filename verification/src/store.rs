use vstd::prelude::*;

use crate::bytes::{bytes_eq, copy_slice};
use crate::errors::CliperError;

verus! {

/// Stands for the SHA-256 digest of a byte sequence: a pure function of the
/// bytes, named here and never written out.
pub uninterp spec fn sha256_of(data: Seq<u8>) -> Seq<u8>;

/// The lowercase hex digit for a value below 16.
pub open spec fn hex_digit(n: int) -> char {
    seq!['0', '1', '2', '3', '4', '5', '6', '7', '8', '9', 'a', 'b', 'c', 'd', 'e', 'f'][n]
}

/// Lowercase hex encoding: two digits per byte, high nibble first.
pub open spec fn hex_of(data: Seq<u8>) -> Seq<char>
    decreases data.len(),
{
    if data.len() == 0 {
        Seq::empty()
    } else {
        seq![hex_digit(data.first() as int / 16), hex_digit(data.first() as int % 16)] + hex_of(
            data.drop_first(),
        )
    }
}

/// Relies on hex::encode: two lowercase hex digits per byte, in order.
#[verifier::external_body]
fn hex_encode(data: &Vec<u8>) -> (r: String)
    ensures
        r@ == hex_of(data@),
{
    hex::encode(data)
}

/// Relies on std::time::SystemTime::now and duration_since(UNIX_EPOCH): the
/// wall clock, read as whole milliseconds since the Unix epoch, zero when
/// the clock stands before the epoch. Nothing can be said of the value.
#[verifier::external_body]
fn epoch_millis_raw() -> u128 {
    std::time::SystemTime::now()
        .duration_since(std::time::UNIX_EPOCH)
        .unwrap_or_default()
        .as_millis()
}

/// The wall clock in whole milliseconds since the Unix epoch, saturated to
/// the signed 64-bit range that stored timestamps use.
pub fn now_millis() -> (r: i64)
    ensures
        r >= 0,
{
    let m = epoch_millis_raw();
    if m > 0x7fff_ffff_ffff_ffffu128 {
        i64::MAX
    } else {
        m as i64
    }
}

/// A stored clipboard item, as one row of the item table.
pub struct ItemRecord {
    pub id: i64,
    pub created_at: i64,
    pub kind: String,
    pub size: i64,
    pub sha256: Vec<u8>,
    pub file_path: Option<String>,
    pub is_pinned: bool,
    pub content_blob: Option<Vec<u8>>,
    pub preview_blob: Option<Vec<u8>>,
    pub rtf_blob: Option<Vec<u8>>,
}

/// What a caller hands to `insert_item`.
#[derive(Debug, Clone)]
pub struct NewItem {
    pub kind: String,
    pub size: i64,
    pub sha256: Vec<u8>,
    pub file_path: Option<String>,
    pub content_blob: Option<Vec<u8>>,
    pub preview_blob: Option<Vec<u8>>,
    pub rtf_blob: Option<Vec<u8>>,
}

/// Metadata row returned by `list_recent`: never any plaintext or blob.
#[derive(Debug, Clone)]
pub struct ItemDto {
    pub id: i64,
    pub created_at: i64,
    pub kind: String,
    pub size: i64,
    pub sha256_hex: String,
    pub file_path: Option<String>,
    pub is_pinned: bool,
}

/// A path column normalized the way the dedup key reads it: an absent path
/// counts as the empty string.
pub open spec fn opt_path_view(p: Option<String>) -> Seq<char> {
    match p {
        Some(s) => s@,
        None => Seq::empty(),
    }
}

/// Same normalization for a borrowed path argument.
pub open spec fn opt_ref_path_view(p: Option<&str>) -> Seq<char> {
    match p {
        Some(s) => s@,
        None => Seq::empty(),
    }
}

/// An optional text column, kept exact (absent and empty stay distinct).
pub open spec fn opt_text_view(p: Option<String>) -> Option<Seq<char>> {
    match p {
        Some(s) => Some(s@),
        None => None,
    }
}

/// An optional blob column.
pub open spec fn blob_view(b: Option<Vec<u8>>) -> Option<Seq<u8>> {
    match b {
        Some(v) => Some(v@),
        None => None,
    }
}

/// Whether a record matches the dedup key (content hash, kind, normalized
/// path).
pub open spec fn rec_key_matches(rec: ItemRecord, sha: Seq<u8>, kind: Seq<char>, path: Seq<char>) -> bool {
    &&& rec.sha256@ == sha
    &&& rec.kind@ == kind
    &&& opt_path_view(rec.file_path) == path
}

/// The id of the newest record matching the dedup key: the scan walks from
/// the latest insertion backwards, as a lookup ordered by id descending.
pub open spec fn find_dup(items: Seq<ItemRecord>, sha: Seq<u8>, kind: Seq<char>, path: Seq<char>) -> Option<i64>
    decreases items.len(),
{
    if items.len() == 0 {
        None
    } else if rec_key_matches(items.last(), sha, kind, path) {
        Some(items.last().id)
    } else {
        find_dup(items.drop_last(), sha, kind, path)
    }
}

/// The first record carrying `id` (ids are unique, so the only one).
pub open spec fn lookup(items: Seq<ItemRecord>, id: i64) -> Option<ItemRecord>
    decreases items.len(),
{
    if items.len() == 0 {
        None
    } else if items.first().id == id {
        Some(items.first())
    } else {
        lookup(items.drop_first(), id)
    }
}

/// When no record carries an id, looking it up finds nothing; with
/// `delete_item`'s contract this gives: after a delete of `id`, a raw fetch
/// of `id` reports NotFound.
pub proof fn lemma_missing_id_lookup_fails(items: Seq<ItemRecord>, id: i64)
    requires
        forall|k: int| 0 <= k < items.len() ==> (#[trigger] items[k]).id != id,
    ensures
        lookup(items, id) is None,
    decreases items.len(),
{
    if items.len() > 0 {
        assert(items[0].id != id);
        assert(forall|k: int|
            0 <= k < items.drop_first().len() ==> (#[trigger] items.drop_first()[k]).id != id) by {
            assert(forall|k: int|
                0 <= k < items.drop_first().len() ==> items.drop_first()[k] == items[k + 1]);
        }
        lemma_missing_id_lookup_fails(items.drop_first(), id);
    }
}

/// Dedup round trip: once a record with a key is stored, a later scan for
/// that key finds exactly that record's id (the newest match), while a key
/// with any other hash, kind or normalized path is matched, or not, exactly
/// as before. With `insert_item`'s contract this gives: a second insert of
/// the same (kind, hash, path) returns the first insert's id and adds no
/// row, and a differing normalized path escapes the match and makes a new
/// row.
pub proof fn lemma_insert_dedup(
    items: Seq<ItemRecord>,
    rec: ItemRecord,
    sha: Seq<u8>,
    kind: Seq<char>,
    path: Seq<char>,
)
    ensures
        rec_key_matches(rec, sha, kind, path) ==> find_dup(items.push(rec), sha, kind, path)
            == Some(rec.id),
        !rec_key_matches(rec, sha, kind, path) ==> find_dup(items.push(rec), sha, kind, path)
            == find_dup(items, sha, kind, path),
{
    assert(items.push(rec).last() == rec);
    assert(items.push(rec).drop_last() =~= items);
}

/// How a freshly inserted record relates to what the caller handed in: the
/// store assigns the id, stamps a nonnegative creation time, starts the
/// item unpinned and keeps every other field.
pub open spec fn inserted_from(rec: ItemRecord, item: NewItem, id: int) -> bool {
    &&& rec.id as int == id
    &&& rec.created_at >= 0
    &&& rec.kind@ == item.kind@
    &&& rec.size == item.size
    &&& rec.sha256@ == item.sha256@
    &&& opt_text_view(rec.file_path) == opt_text_view(item.file_path)
    &&& rec.is_pinned == false
    &&& blob_view(rec.content_blob) == blob_view(item.content_blob)
    &&& blob_view(rec.preview_blob) == blob_view(item.preview_blob)
    &&& blob_view(rec.rtf_blob) == blob_view(item.rtf_blob)
}

/// Listing order: pinned rows before unpinned ones, then newest first.
pub open spec fn meta_le(a: ItemDto, b: ItemDto) -> bool {
    if a.is_pinned != b.is_pinned {
        a.is_pinned
    } else {
        a.created_at >= b.created_at
    }
}

/// A metadata sequence in listing order.
pub open spec fn sorted_metas(s: Seq<ItemDto>) -> bool {
    forall|i: int, j: int| 0 <= i < j < s.len() ==> meta_le(s[i], s[j])
}

/// A metadata row faithful to a stored record, with the hash hex-encoded.
pub open spec fn dto_matches(d: ItemDto, rec: ItemRecord) -> bool {
    &&& d.id == rec.id
    &&& d.created_at == rec.created_at
    &&& d.kind@ == rec.kind@
    &&& d.size == rec.size
    &&& d.sha256_hex@ == hex_of(rec.sha256@)
    &&& opt_text_view(d.file_path) == opt_text_view(rec.file_path)
    &&& d.is_pinned == rec.is_pinned
}

/// A metadata row that reflects at least one stored record.
pub open spec fn meta_reflected(d: ItemDto, items: Seq<ItemRecord>) -> bool {
    exists|k: int| 0 <= k < items.len() && dto_matches(d, #[trigger] items[k])
}

/// A stored record that shows up among the returned rows.
pub open spec fn rec_reflected(rec: ItemRecord, list: Seq<ItemDto>) -> bool {
    exists|i: int| 0 <= i < list.len() && dto_matches(#[trigger] list[i], rec)
}

/// Every returned row reflects some stored record.
pub open spec fn metas_from(list: Seq<ItemDto>, items: Seq<ItemRecord>) -> bool {
    forall|i: int| 0 <= i < list.len() ==> meta_reflected(#[trigger] list[i], items)
}

/// Every stored record shows up in the returned rows.
pub open spec fn metas_complete(list: Seq<ItemDto>, items: Seq<ItemRecord>) -> bool {
    forall|k: int| 0 <= k < items.len() ==> rec_reflected(#[trigger] items[k], list)
}

/// The returned rows are the top of the full listing: some sorted, faithful
/// and complete ordering of all the stored records starts with exactly
/// these rows, so a row is left out only when `limit` rows rank before it.
pub open spec fn listing_prefix_of(list: Seq<ItemDto>, items: Seq<ItemRecord>) -> bool {
    exists|full: Seq<ItemDto>|
        {
            &&& full.len() == items.len()
            &&& sorted_metas(full)
            &&& metas_from(full, items)
            &&& metas_complete(full, items)
            &&& list == #[trigger] full.take(list.len() as int)
        }
}

/// A permutation of faithful metadata rows stays faithful: every row of the
/// rearranged sequence reflects some stored record, and every record is
/// still reflected.
proof fn lemma_permutation_correspondence(
    built: Seq<ItemDto>,
    sorted: Seq<ItemDto>,
    items: Seq<ItemRecord>,
)
    requires
        built.len() == items.len(),
        forall|k: int| 0 <= k < items.len() ==> dto_matches(#[trigger] built[k], items[k]),
        sorted.to_multiset() == built.to_multiset(),
    ensures
        metas_from(sorted, items),
        metas_complete(sorted, items),
{
    assert forall|i: int| 0 <= i < sorted.len() implies meta_reflected(
        #[trigger] sorted[i],
        items,
    ) by {
        assert(sorted.contains(sorted[i]));
        vstd::seq_lib::to_multiset_contains::<ItemDto>(sorted, sorted[i]);
        vstd::seq_lib::to_multiset_contains::<ItemDto>(built, sorted[i]);
        assert(built.contains(sorted[i]));
        let k = choose|k: int| 0 <= k < built.len() && built[k] == sorted[i];
        assert(dto_matches(sorted[i], items[k]));
    }
    assert forall|k: int| 0 <= k < items.len() implies rec_reflected(
        #[trigger] items[k],
        sorted,
    ) by {
        assert(built.contains(built[k]));
        vstd::seq_lib::to_multiset_contains::<ItemDto>(built, built[k]);
        vstd::seq_lib::to_multiset_contains::<ItemDto>(sorted, built[k]);
        assert(sorted.contains(built[k]));
        let i = choose|i: int| 0 <= i < sorted.len() && sorted[i] == built[k];
        assert(dto_matches(sorted[i], items[k]));
    }
}

/// A prefix of faithful metadata rows stays faithful.
proof fn lemma_prefix_metas_from(full: Seq<ItemDto>, pref: Seq<ItemDto>, items: Seq<ItemRecord>)
    requires
        metas_from(full, items),
        pref == full.take(pref.len() as int),
        pref.len() <= full.len(),
    ensures
        metas_from(pref, items),
{
    assert forall|i: int| 0 <= i < pref.len() implies meta_reflected(
        #[trigger] pref[i],
        items,
    ) by {
        assert(pref[i] == full[i]);
        assert(meta_reflected(full[i], items));
    }
}

/// Introduces the listing-prefix witness: a sorted, faithful, complete
/// ordering of all records of which the returned rows are the prefix.
#[verifier::spinoff_prover]
proof fn lemma_listing_prefix(full: Seq<ItemDto>, list: Seq<ItemDto>, items: Seq<ItemRecord>)
    requires
        full.len() == items.len(),
        sorted_metas(full),
        metas_from(full, items),
        metas_complete(full, items),
        list.len() <= full.len(),
        list == full.take(list.len() as int),
    ensures
        listing_prefix_of(list, items),
{
    assert(list == full.take(list.len() as int));
}

/// The listing order is transitive.
proof fn lemma_meta_le_trans(a: ItemDto, b: ItemDto, c: ItemDto)
    requires
        meta_le(a, b),
        meta_le(b, c),
    ensures
        meta_le(a, c),
{
}

fn meta_le_exec(a: &ItemDto, b: &ItemDto) -> (r: bool)
    ensures
        r == meta_le(*a, *b),
{
    if a.is_pinned != b.is_pinned {
        a.is_pinned
    } else {
        a.created_at >= b.created_at
    }
}

fn clone_opt_string(p: &Option<String>) -> (r: Option<String>)
    ensures
        opt_text_view(r) == opt_text_view(*p),
{
    match p {
        Some(s) => Some(s.clone()),
        None => None,
    }
}

fn clone_opt_bytes(b: &Option<Vec<u8>>) -> (r: Option<Vec<u8>>)
    ensures
        blob_view(r) == blob_view(*b),
{
    match b {
        Some(v) => Some(copy_slice(v.as_slice())),
        None => None,
    }
}

fn path_matches(a: &Option<String>, b: &Option<&str>) -> (r: bool)
    ensures
        r == (opt_path_view(*a) == opt_ref_path_view(*b)),
{
    match (a, b) {
        (None, None) => true,
        (Some(x), Some(y)) => {
            let owned: String = (*y).to_owned();
            *x == owned
        }
        (Some(x), None) => {
            let e = x.as_str().is_empty();
            proof {
                if e {
                    assert(x@ =~= Seq::<char>::empty());
                } else {
                    assert(x@.len() != Seq::<char>::empty().len());
                }
            }
            e
        }
        (None, Some(y)) => {
            let e = y.is_empty();
            proof {
                if e {
                    assert(y@ =~= Seq::<char>::empty());
                } else {
                    assert(y@.len() != Seq::<char>::empty().len());
                }
            }
            e
        }
    }
}

/// Sorts metadata rows into listing order; the rows themselves are only
/// rearranged.
fn sort_metas(v: &mut Vec<ItemDto>)
    ensures
        final(v)@.to_multiset() == old(v)@.to_multiset(),
        sorted_metas(final(v)@),
        final(v)@.len() == old(v)@.len(),
{
    broadcast use vstd::seq_lib::to_multiset_insert;
    broadcast use vstd::seq_lib::to_multiset_remove;
    broadcast use vstd::seq_lib::to_multiset_contains;
    broadcast use vstd::seq_lib::to_multiset_len;
    broadcast use vstd::multiset::group_multiset_axioms;

    let n = v.len();
    if n <= 1 {
        return ;
    }
    let mut i: usize = 1;
    while i < n
        invariant
            1 <= i <= n,
            n == v@.len(),
            v@.to_multiset() == old(v)@.to_multiset(),
            sorted_metas(v@.take(i as int)),
        decreases n - i,
    {
        let mut j: usize = 0;
        while j < i && meta_le_exec(&v[j], &v[i])
            invariant
                0 <= j <= i < v@.len(),
                forall|k: int| 0 <= k < j ==> meta_le(v@[k], v@[i as int]),
            decreases i - j,
        {
            j = j + 1;
        }
        if j < i {
            let ghost pre = v@;
            let x = v.remove(i);
            v.insert(j, x);
            proof {
                let jj = j as int;
                let ii = i as int;
                assert(pre.contains(pre[ii]));
                vstd::seq_lib::to_multiset_contains::<ItemDto>(pre, pre[ii]);
                assert(pre.to_multiset().count(pre[ii]) > 0);
                vstd::seq_lib::to_multiset_remove::<ItemDto>(pre, ii);
                assert(pre.remove(ii).to_multiset() == pre.to_multiset().remove(pre[ii]));
                assert(v@ == pre.remove(ii).insert(jj, x));
                vstd::seq_lib::to_multiset_insert::<ItemDto>(pre.remove(ii), jj, x);
                assert(v@.to_multiset() == pre.remove(ii).to_multiset().insert(x));
                assert(v@.to_multiset() =~= pre.to_multiset());
                // take-prefix view of the previously sorted region
                assert(forall|p: int, q: int|
                    0 <= p < q < ii ==> #[trigger] meta_le(pre[p], pre[q])) by {
                    assert(forall|p: int|
                        0 <= p < ii ==> pre.take(ii)[p] == #[trigger] pre[p]);
                }
                assert(meta_le(x, pre[jj])) by {
                    assert(!meta_le(pre[jj], x));
                }
                assert forall|p: int, q: int| 0 <= p < q < ii + 1 implies meta_le(
                    v@[p],
                    v@[q],
                ) by {
                    if p < jj && q < jj {
                        assert(v@[p] == pre[p] && v@[q] == pre[q]);
                    } else if p < jj && q == jj {
                        assert(v@[p] == pre[p] && v@[q] == x);
                        assert(meta_le(pre[p], x));
                    } else if p < jj && q > jj {
                        assert(v@[p] == pre[p] && v@[q] == pre[q - 1]);
                        if q - 1 == p {
                            assert(meta_le(pre[p], x));
                            assert(meta_le(v@[p], v@[q]));
                        } else {
                            assert(meta_le(pre[p], pre[q - 1]));
                        }
                    } else if p == jj && q > jj {
                        assert(v@[p] == x && v@[q] == pre[q - 1]);
                        if q - 1 == jj {
                            assert(meta_le(x, pre[jj]));
                        } else {
                            assert(meta_le(pre[jj], pre[q - 1]));
                            lemma_meta_le_trans(x, pre[jj], pre[q - 1]);
                        }
                    } else {
                        assert(p > jj && q > jj);
                        assert(v@[p] == pre[p - 1] && v@[q] == pre[q - 1]);
                        assert(meta_le(pre[p - 1], pre[q - 1]));
                    }
                }
                assert forall|p: int, q: int|
                    0 <= p < q < v@.take(ii + 1).len() implies #[trigger] meta_le(
                    v@.take(ii + 1)[p],
                    v@.take(ii + 1)[q],
                ) by {
                    assert(v@.take(ii + 1)[p] == v@[p] && v@.take(ii + 1)[q] == v@[q]);
                }
                assert(sorted_metas(v@.take(ii + 1)));
            }
        } else {
            proof {
                let ii = i as int;
                assert(forall|p: int, q: int|
                    0 <= p < q < ii ==> #[trigger] meta_le(v@[p], v@[q])) by {
                    assert(forall|p: int| 0 <= p < ii ==> v@.take(ii)[p] == #[trigger] v@[p]);
                }
                assert forall|p: int, q: int|
                    0 <= p < q < v@.take(ii + 1).len() implies #[trigger] meta_le(
                    v@.take(ii + 1)[p],
                    v@.take(ii + 1)[q],
                ) by {
                    assert(v@.take(ii + 1)[p] == v@[p] && v@.take(ii + 1)[q] == v@[q]);
                    if q == ii {
                        assert(meta_le(v@[p], v@[ii]));
                    }
                }
                assert(sorted_metas(v@.take(ii + 1)));
            }
        }
        i = i + 1;
    }
    proof {
        assert(v@.take(n as int) =~= v@);
    }
}

/// The deduplicated item table. Records live in insertion order with
/// strictly increasing store-assigned ids; persistence of the table to disk
/// is the embedding program's affair.
pub struct Database {
    rows: Vec<ItemRecord>,
    next_id: i64,
}

impl Database {
    /// The stored records, in insertion order.
    pub closed spec fn items(&self) -> Seq<ItemRecord> {
        self.rows@
    }

    /// The id the next fresh insertion will get.
    pub closed spec fn next_id_spec(&self) -> int {
        self.next_id as int
    }

    /// Ids start at 1 and increase strictly with insertion order, so they
    /// are unique and the newest match is the one with the greatest id.
    pub closed spec fn wf(&self) -> bool {
        &&& 1 <= self.next_id as int
        &&& forall|i: int|
            0 <= i < self.rows@.len() ==> 1 <= (#[trigger] self.rows@[i]).id < self.next_id
        &&& forall|i: int, j: int|
            0 <= i < j < self.rows@.len() ==> self.rows@[i].id < self.rows@[j].id
    }

    /// An empty item table; the first insertion gets id 1.
    pub fn new() -> (r: Database)
        ensures
            r.wf(),
            r.items().len() == 0,
            r.next_id_spec() == 1,
    {
        Database { rows: Vec::new(), next_id: 1 }
    }

    /// The schema lives in the types here, so there is nothing to migrate;
    /// kept as the idempotent setup step the interface promises.
    pub fn migrate(&self) -> (r: Result<(), CliperError>)
        ensures
            r == Ok::<(), CliperError>(()),
    {
        Ok(())
    }

    /// Relies on sha2::Sha256 (update, finalize): the 32-byte SHA-256
    /// digest of exactly the bytes handed in.
    #[verifier::external_body]
    pub fn compute_sha256(data: &[u8]) -> (r: Vec<u8>)
        ensures
            r@ == sha256_of(data@),
            r@.len() == 32,
    {
        let mut hasher = <sha2::Sha256 as sha2::Digest>::new();
        sha2::Digest::update(&mut hasher, data);
        sha2::Digest::finalize(hasher).to_vec()
    }

    /// The id of the newest record whose (hash, kind, normalized path)
    /// equals the given key, if any.
    pub fn find_by_hash_kind_path(
        &self,
        sha256: &[u8],
        kind: &str,
        file_path: Option<&str>,
    ) -> (r: Result<Option<i64>, CliperError>)
        ensures
            r == Ok::<Option<i64>, CliperError>(
                find_dup(self.items(), sha256@, kind@, opt_ref_path_view(file_path)),
            ),
    {
        let kind_owned: String = kind.to_owned();
        let ghost key_path = opt_ref_path_view(file_path);
        let mut i: usize = self.rows.len();
        proof {
            assert(self.items().take(i as int) =~= self.items());
        }
        while i > 0
            invariant
                i <= self.items().len(),
                kind_owned@ == kind@,
                key_path == opt_ref_path_view(file_path),
                find_dup(self.items(), sha256@, kind@, key_path) == find_dup(
                    self.items().take(i as int),
                    sha256@,
                    kind@,
                    key_path,
                ),
            decreases i,
        {
            i = i - 1;
            let rec = &self.rows[i];
            let ghost prefix = self.items().take(i as int + 1);
            proof {
                assert(prefix.last() == self.items()[i as int]);
                assert(prefix.drop_last() =~= self.items().take(i as int));
            }
            if bytes_eq(rec.sha256.as_slice(), sha256) && rec.kind == kind_owned && path_matches(
                &rec.file_path,
                &file_path,
            ) {
                assert(rec_key_matches(self.items()[i as int], sha256@, kind@, key_path));
                return Ok(Some(rec.id));
            }
            assert(!rec_key_matches(self.items()[i as int], sha256@, kind@, key_path));
        }
        proof {
            assert(self.items().take(0) =~= Seq::<ItemRecord>::empty());
        }
        Ok(None)
    }

    /// Dedup-aware insert: when a record already matches the item's key,
    /// its id comes back and nothing changes; otherwise the item is
    /// appended as a fresh unpinned record with the next id and the current
    /// wall-clock timestamp. Fails only when the id space is exhausted.
    pub fn insert_item(&mut self, item: NewItem) -> (r: Result<i64, CliperError>)
        requires
            old(self).wf(),
        ensures
            final(self).wf(),
            ({
                let key_sha = item.sha256@;
                let key_kind = item.kind@;
                let key_path = opt_path_view(item.file_path);
                match find_dup(old(self).items(), key_sha, key_kind, key_path) {
                    Some(id) => r == Ok::<i64, CliperError>(id) && final(self).items() == old(self).items() && final(self).next_id_spec() == old(self).next_id_spec(),
                    None => {
                        if old(self).next_id_spec() < 0x7fff_ffff_ffff_ffff {
                            &&& r matches Ok(id) && id as int == old(self).next_id_spec()
                            &&& final(self).items().len() == old(self).items().len() + 1
                            &&& final(self).items().drop_last() == old(self).items()
                            &&& inserted_from(
                                final(self).items().last(),
                                item,
                                old(self).next_id_spec(),
                            )
                            &&& final(self).next_id_spec() == old(self).next_id_spec() + 1
                        } else {
                            r == Err::<i64, CliperError>(CliperError::StorageInit) && final(self).items() == old(self).items()
                                && final(self).next_id_spec() == old(self).next_id_spec()
                        }
                    }
                }
            }),
    {
        let path_ref: Option<&str> = match &item.file_path {
            Some(s) => Some(s.as_str()),
            None => None,
        };
        proof {
            assert(opt_ref_path_view(path_ref) == opt_path_view(item.file_path));
        }
        let found = match self.find_by_hash_kind_path(
            item.sha256.as_slice(),
            item.kind.as_str(),
            path_ref,
        ) {
            Ok(f) => f,
            Err(_) => None,
        };
        if let Some(id) = found {
            return Ok(id);
        }
        if self.next_id == i64::MAX {
            return Err(CliperError::StorageInit);
        }
        let ts = now_millis();
        let id = self.next_id;
        let rec = ItemRecord {
            id,
            created_at: ts,
            kind: item.kind,
            size: item.size,
            sha256: item.sha256,
            file_path: item.file_path,
            is_pinned: false,
            content_blob: item.content_blob,
            preview_blob: item.preview_blob,
            rtf_blob: item.rtf_blob,
        };
        self.rows.push(rec);
        self.next_id = self.next_id + 1;
        proof {
            assert(self.items().drop_last() =~= old(self).items());
        }
        Ok(id)
    }

    /// Metadata of the stored items in listing order (pinned first, then
    /// newest first), at most `limit` rows, never any blob or plaintext.
    #[verifier::rlimit(60)]
    #[verifier::spinoff_prover]
    pub fn list_recent(&self, limit: u32) -> (r: Result<Vec<ItemDto>, CliperError>)
        ensures
            r matches Ok(list) && {
                let n = self.items().len() as int;
                &&& list@.len() == if (limit as int) < n {
                    limit as int
                } else {
                    n
                }
                &&& sorted_metas(list@)
                &&& metas_from(list@, self.items())
                &&& (limit as int >= n ==> metas_complete(list@, self.items()))
                &&& listing_prefix_of(list@, self.items())
            },
    {
        broadcast use vstd::seq_lib::to_multiset_contains;

        let n = self.rows.len();
        let mut metas: Vec<ItemDto> = Vec::new();
        let mut i: usize = 0;
        while i < n
            invariant
                i <= n,
                n == self.items().len(),
                metas@.len() == i,
                forall|k: int| 0 <= k < i ==> dto_matches(#[trigger] metas@[k], self.items()[k]),
            decreases n - i,
        {
            let rec = &self.rows[i];
            let dto = ItemDto {
                id: rec.id,
                created_at: rec.created_at,
                kind: rec.kind.clone(),
                size: rec.size,
                sha256_hex: hex_encode(&rec.sha256),
                file_path: clone_opt_string(&rec.file_path),
                is_pinned: rec.is_pinned,
            };
            metas.push(dto);
            i = i + 1;
        }
        let ghost built = metas@;
        sort_metas(&mut metas);
        proof {
            lemma_permutation_correspondence(built, metas@, self.items());
        }
        let limit_usize = limit as usize;
        let ghost full = metas@;
        if limit_usize < metas.len() {
            metas.truncate(limit_usize);
            proof {
                assert(metas@ =~= full.take(limit_usize as int));
                lemma_prefix_metas_from(full, metas@, self.items());
            }
        }
        proof {
            assert(metas@ == full.take(metas@.len() as int)) by {
                assert(full.take(full.len() as int) =~= full);
            }
            lemma_listing_prefix(full, metas@, self.items());
        }
        Ok(metas)
    }

    /// The raw row for `id`: kind, content blob, preview blob, rtf blob and
    /// path, as owned copies. Fails with NotFound when no record carries
    /// the id.
    pub fn get_item_raw(&self, id: i64) -> (r: Result<
        (String, Option<Vec<u8>>, Option<Vec<u8>>, Option<Vec<u8>>, Option<String>),
        CliperError,
    >)
        ensures
            match lookup(self.items(), id) {
                Some(rec) => r matches Ok(row) && row.0@ == rec.kind@ && blob_view(row.1)
                    == blob_view(rec.content_blob) && blob_view(row.2) == blob_view(
                    rec.preview_blob,
                ) && blob_view(row.3) == blob_view(rec.rtf_blob) && opt_text_view(row.4)
                    == opt_text_view(rec.file_path),
                None => r == Err::<
                    (String, Option<Vec<u8>>, Option<Vec<u8>>, Option<Vec<u8>>, Option<String>),
                    CliperError,
                >(CliperError::NotFound),
            },
    {
        let n = self.rows.len();
        let mut i: usize = 0;
        proof {
            assert(self.items().skip(0) =~= self.items());
        }
        while i < n
            invariant
                i <= n,
                n == self.items().len(),
                lookup(self.items(), id) == lookup(self.items().skip(i as int), id),
            decreases n - i,
        {
            let ghost suffix = self.items().skip(i as int);
            proof {
                assert(suffix.first() == self.items()[i as int]);
                assert(suffix.drop_first() =~= self.items().skip(i as int + 1));
            }
            let rec = &self.rows[i];
            if rec.id == id {
                return Ok(
                    (
                        rec.kind.clone(),
                        clone_opt_bytes(&rec.content_blob),
                        clone_opt_bytes(&rec.preview_blob),
                        clone_opt_bytes(&rec.rtf_blob),
                        clone_opt_string(&rec.file_path),
                    ),
                );
            }
            i = i + 1;
        }
        proof {
            assert(self.items().skip(n as int) =~= Seq::<ItemRecord>::empty());
        }
        Err(CliperError::NotFound)
    }

    /// Sets the pin flag of the record carrying `id`; a no-op when no
    /// record does, as an update that matched no row.
    pub fn pin_item(&mut self, id: i64, pin: bool) -> (r: Result<(), CliperError>)
        requires
            old(self).wf(),
        ensures
            final(self).wf(),
            r == Ok::<(), CliperError>(()),
            final(self).items().len() == old(self).items().len(),
            final(self).next_id_spec() == old(self).next_id_spec(),
            forall|k: int|
                0 <= k < old(self).items().len() && (#[trigger] old(self).items()[k]).id != id
                    ==> final(self).items()[k] == old(self).items()[k],
            forall|k: int|
                0 <= k < old(self).items().len() && (#[trigger] old(self).items()[k]).id == id
                    ==> final(self).items()[k] == (ItemRecord {
                    is_pinned: pin,
                    ..old(self).items()[k]
                }),
    {
        let n = self.rows.len();
        let mut i: usize = 0;
        while i < n
            invariant
                i <= n,
                n == self.items().len(),
                old(self).wf(),
                self.next_id == old(self).next_id,
                self.items().len() == old(self).items().len(),
                forall|k: int| i <= k < n ==> self.items()[k] == old(self).items()[k],
                forall|k: int|
                    0 <= k < i && (#[trigger] old(self).items()[k]).id != id ==> self.items()[k]
                        == old(self).items()[k],
                forall|k: int|
                    0 <= k < i && (#[trigger] old(self).items()[k]).id == id ==> self.items()[k]
                        == (ItemRecord { is_pinned: pin, ..old(self).items()[k] }),
            decreases n - i,
        {
            if self.rows[i].id == id {
                let mut rec = self.rows.remove(i);
                rec.is_pinned = pin;
                self.rows.insert(i, rec);
                proof {
                    assert(self.items()[i as int] == (ItemRecord {
                        is_pinned: pin,
                        ..old(self).items()[i as int]
                    }));
                    assert(forall|k: int|
                        0 <= k < n && k != i ==> self.items()[k] == old(self).items()[k]);
                }
            }
            i = i + 1;
        }
        proof {
            assert(self.wf()) by {
                assert(forall|k: int|
                    0 <= k < self.items().len() ==> (#[trigger] self.items()[k]).id == old(self).items()[k].id);
            }
        }
        Ok(())
    }

    /// Hard-deletes the record carrying `id`, blob included; a no-op when
    /// no record does. Afterwards no stored record carries `id`.
    pub fn delete_item(&mut self, id: i64) -> (r: Result<(), CliperError>)
        requires
            old(self).wf(),
        ensures
            final(self).wf(),
            r == Ok::<(), CliperError>(()),
            final(self).next_id_spec() == old(self).next_id_spec(),
            forall|k: int|
                0 <= k < final(self).items().len() ==> (#[trigger] final(self).items()[k]).id
                    != id,
            lookup(old(self).items(), id) is None ==> final(self).items() == old(self).items(),
            lookup(old(self).items(), id) is Some ==> exists|i: int|
                0 <= i < old(self).items().len() && old(self).items()[i].id == id && final(self).items() == old(self).items().remove(i),
    {
        let n = self.rows.len();
        let mut i: usize = 0;
        while i < n
            invariant
                i <= n,
                n == self.items().len(),
                old(self).wf(),
                self == old(self),
                forall|k: int| 0 <= k < i ==> (#[trigger] self.items()[k]).id != id,
            decreases n - i,
        {
            if self.rows[i].id == id {
                self.rows.remove(i);
                proof {
                    let items = old(self).items();
                    assert(forall|k: int, l: int|
                        0 <= k < l < items.len() ==> items[k].id < items[l].id);
                    assert(forall|k: int|
                        0 <= k < self.items().len() ==> (#[trigger] self.items()[k]).id != id) by {
                        assert(forall|k: int| 0 <= k < i ==> self.items()[k] == items[k]);
                        assert(forall|k: int|
                            i <= k < items.len() - 1 ==> self.items()[k] == items[k + 1]);
                    }
                    lemma_lookup_present(items, i as int, id);
                }
                return Ok(());
            }
            i = i + 1;
        }
        proof {
            lemma_missing_id_lookup_fails(self.items(), id);
        }
        Ok(())
    }

    /// Re-admits one persisted row, as a scan of the on-disk table ordered
    /// by id yields them: the row keeps its id, timestamp, pin flag and
    /// blobs. A row whose id the store cannot place after the rows already
    /// admitted is refused with StorageInit and nothing changes.
    #[verifier::spinoff_prover]
    pub fn restore_item(&mut self, rec: ItemRecord) -> (r: Result<(), CliperError>)
        requires
            old(self).wf(),
        ensures
            final(self).wf(),
            ({
                if old(self).next_id_spec() <= rec.id as int && rec.id < 0x7fff_ffff_ffff_ffff {
                    &&& r == Ok::<(), CliperError>(())
                    &&& final(self).items() == old(self).items().push(rec)
                    &&& final(self).next_id_spec() == rec.id as int + 1
                } else {
                    &&& r == Err::<(), CliperError>(CliperError::StorageInit)
                    &&& final(self).items() == old(self).items()
                    &&& final(self).next_id_spec() == old(self).next_id_spec()
                }
            }),
    {
        if rec.id < self.next_id || rec.id == i64::MAX {
            return Err(CliperError::StorageInit);
        }
        let next = rec.id + 1;
        self.rows.push(rec);
        self.next_id = next;
        Ok(())
    }

    /// Empties the table.
    pub fn clear_all(&mut self) -> (r: Result<(), CliperError>)
        requires
            old(self).wf(),
        ensures
            final(self).wf(),
            r == Ok::<(), CliperError>(()),
            final(self).items().len() == 0,
    {
        self.rows = Vec::new();
        Ok(())
    }
}

/// A lookup succeeds when some record carries the id.
pub proof fn lemma_lookup_present(items: Seq<ItemRecord>, i: int, id: i64)
    requires
        0 <= i < items.len(),
        items[i].id == id,
    ensures
        lookup(items, id) is Some,
    decreases items.len(),
{
    if items.first().id != id {
        assert(items.drop_first()[i - 1] == items[i]);
        lemma_lookup_present(items.drop_first(), i - 1, id);
    }
}

} // verus!
