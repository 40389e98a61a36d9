//! Blob storage for multi-modal attachments: configuration, metadata and the
//! layout of storage keys.

use vstd::prelude::*;
use crate::error::{uuid_text, uuid_to_string};
use crate::text::{owned, push_str};

verus! {

/// Configuration for blob storage.
#[derive(Clone, Debug)]
pub enum BlobStorageConfig {
    /// Local filesystem storage under a base path.
    Local { path: String },
    /// S3-compatible object storage.
    S3 {
        bucket: String,
        region: Option<String>,
        endpoint: Option<String>,
        access_key_id: Option<String>,
        secret_access_key: Option<String>,
        path_style: bool,
    },
}

impl Default for BlobStorageConfig {
    /// Local storage under `/var/mnemo/blobs`.
    fn default() -> (r: BlobStorageConfig)
        ensures
            r matches BlobStorageConfig::Local { path } && path@ == "/var/mnemo/blobs"@,
    {
        BlobStorageConfig::Local { path: owned("/var/mnemo/blobs") }
    }
}

/// Metadata about a stored blob.
#[derive(Clone, Debug)]
pub struct BlobMetadata {
    /// Storage key (path within the blob store).
    pub key: String,
    pub size_bytes: u64,
    /// MIME type.
    pub content_type: String,
    /// ETag or checksum, if available.
    pub etag: Option<String>,
}

/// Options for generating pre-signed URLs.
#[derive(Clone, Debug)]
pub struct PresignOptions {
    /// URL expiration time, in seconds.
    pub expires_in_secs: u64,
    /// Content-Disposition header for downloads.
    pub content_disposition: Option<String>,
}

impl Default for PresignOptions {
    /// Fifteen minutes, no Content-Disposition.
    fn default() -> (r: PresignOptions)
        ensures
            r.expires_in_secs == 15 * 60,
            r.content_disposition is None,
    {
        PresignOptions { expires_in_secs: 15 * 60, content_disposition: None }
    }
}

/// `{user_id}/attachments/{attachment_id}/{filename}`.
pub open spec fn attachment_key_text(user_id: u128, attachment_id: u128, filename: Seq<char>) -> Seq<char> {
    uuid_text(user_id) + "/attachments/"@ + uuid_text(attachment_id) + "/"@ + filename
}

/// Storage key of an attachment.
pub fn attachment_key(user_id: u128, attachment_id: u128, filename: &str) -> (r: String)
    ensures
        r@ == attachment_key_text(user_id, attachment_id, filename@),
{
    let mut s = uuid_to_string(user_id);
    push_str(&mut s, "/attachments/");
    push_str(&mut s, uuid_to_string(attachment_id).as_str());
    push_str(&mut s, "/");
    push_str(&mut s, filename);
    s
}

/// Storage key of an attachment's thumbnail.
pub fn thumbnail_key(user_id: u128, attachment_id: u128) -> (r: String)
    ensures
        r@ == attachment_key_text(user_id, attachment_id, "thumbnail.jpg"@),
{
    attachment_key(user_id, attachment_id, "thumbnail.jpg")
}

} // verus!
