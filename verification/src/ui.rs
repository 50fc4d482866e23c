use vstd::prelude::*;

use crate::store::ItemDto;

verus! {

/// A listing row as the interface layer shows it: the stored metadata plus
/// a short plaintext preview the caller decrypted for itself.
#[derive(Debug, Clone)]
pub struct UiItemDto {
    pub id: i64,
    pub created_at: i64,
    pub kind: String,
    pub size: i64,
    pub sha256_hex: String,
    pub file_path: Option<String>,
    pub is_pinned: bool,
    pub preview: Option<String>,
}

impl UiItemDto {
    /// Decorates one metadata row with a preview and a possibly corrected
    /// size; every stored field is carried over unchanged.
    pub fn from_meta(meta: ItemDto, size: i64, preview: Option<String>) -> (r: UiItemDto)
        ensures
            r.id == meta.id,
            r.created_at == meta.created_at,
            r.kind@ == meta.kind@,
            r.size == size,
            r.sha256_hex@ == meta.sha256_hex@,
            r.file_path == meta.file_path,
            r.is_pinned == meta.is_pinned,
            r.preview == preview,
    {
        UiItemDto {
            id: meta.id,
            created_at: meta.created_at,
            kind: meta.kind,
            size,
            sha256_hex: meta.sha256_hex,
            file_path: meta.file_path,
            is_pinned: meta.is_pinned,
            preview,
        }
    }
}

} // verus!
