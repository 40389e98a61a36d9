//! Attachments: the modality of a memory and the kind of an uploaded file,
//! inferred from its MIME type.

use vstd::prelude::*;
use crate::fresh::fresh_uuid_v7;
use crate::text::{owned, seq_starts_with, starts_with, to_lowercase, unicode_lowercase};
use crate::models::episode::ProcessingStatus;
use crate::time::UtcTime;

verus! {

/// The modality of an episode's primary content.
#[derive(Clone, Copy, PartialEq, Eq, Debug, Structural)]
pub enum Modality {
    /// Text content (the default).
    Text,
    /// Image with vision-generated description.
    Image,
    /// Audio with transcript.
    Audio,
    /// Video with key frames and transcript.
    Video,
    /// Document chunk (PDF, Office documents and the like).
    Document,
}

impl Default for Modality {
    fn default() -> (r: Modality)
        ensures
            r == Modality::Text,
    {
        Modality::Text
    }
}

/// The type of an attachment.
#[derive(Clone, Copy, PartialEq, Eq, Debug, Structural)]
pub enum AttachmentType {
    Image,
    Audio,
    Video,
    Document,
}

/// The attachment type of an already lowercased MIME type.
pub open spec fn attachment_type_of(m: Seq<char>) -> Option<AttachmentType> {
    if seq_starts_with(m, "image/"@) {
        Some(AttachmentType::Image)
    } else if seq_starts_with(m, "audio/"@) {
        Some(AttachmentType::Audio)
    } else if seq_starts_with(m, "video/"@) {
        Some(AttachmentType::Video)
    } else if seq_starts_with(m, "application/pdf"@)
        || seq_starts_with(m, "application/vnd.openxmlformats"@)
        || seq_starts_with(m, "application/vnd.ms-"@)
        || seq_starts_with(m, "application/msword"@)
        || seq_starts_with(m, "text/"@) {
        Some(AttachmentType::Document)
    } else {
        None
    }
}

pub open spec fn modality_of(t: AttachmentType) -> Modality {
    match t {
        AttachmentType::Image => Modality::Image,
        AttachmentType::Audio => Modality::Audio,
        AttachmentType::Video => Modality::Video,
        AttachmentType::Document => Modality::Document,
    }
}

impl AttachmentType {
    /// Infer the attachment type from a MIME type, ignoring case.
    pub fn from_mime_type(mime: &str) -> (r: Option<AttachmentType>)
        ensures
            r == attachment_type_of(unicode_lowercase(mime@)),
    {
        let lower = to_lowercase(mime);
        let m = lower.as_str();
        if starts_with(m, "image/") {
            Some(AttachmentType::Image)
        } else if starts_with(m, "audio/") {
            Some(AttachmentType::Audio)
        } else if starts_with(m, "video/") {
            Some(AttachmentType::Video)
        } else if starts_with(m, "application/pdf")
            || starts_with(m, "application/vnd.openxmlformats")
            || starts_with(m, "application/vnd.ms-")
            || starts_with(m, "application/msword")
            || starts_with(m, "text/") {
            Some(AttachmentType::Document)
        } else {
            None
        }
    }

    /// The modality that corresponds to this attachment type.
    pub fn to_modality(self) -> (r: Modality)
        ensures
            r == modality_of(self),
    {
        match self {
            AttachmentType::Image => Modality::Image,
            AttachmentType::Audio => Modality::Audio,
            AttachmentType::Video => Modality::Video,
            AttachmentType::Document => Modality::Document,
        }
    }
}

/// Request to upload an attachment.
#[derive(Clone, Debug)]
pub struct UploadAttachmentRequest {
    /// MIME type of the file.
    pub mime_type: String,
    /// Original filename, if any.
    pub filename: Option<String>,
    /// Size in bytes, for validation before upload.
    pub size_bytes: u64,
}

/// A file attached to an episode and its processing state.
#[derive(Clone, Debug)]
pub struct Attachment {
    pub id: u128,
    pub episode_id: u128,
    pub user_id: u128,
    pub attachment_type: AttachmentType,
    pub mime_type: String,
    pub filename: Option<String>,
    pub size_bytes: u64,
    /// Key of the file in blob storage.
    pub storage_key: String,
    pub thumbnail_key: Option<String>,
    /// Duration in seconds of audio or video, as a score order key.
    pub duration_secs: Option<u32>,
    pub width: Option<u32>,
    pub height: Option<u32>,
    pub processing_status: ProcessingStatus,
    pub processing_error: Option<String>,
    /// Model that processed the file.
    pub processed_by_model: Option<String>,
    /// Description of an image.
    pub description: Option<String>,
    /// Transcript of audio or video.
    pub transcript: Option<String>,
    pub created_at: UtcTime,
}

impl Attachment {
    /// A pending attachment with id `fresh_id`, made at `now`.
    pub fn new_with(
        episode_id: u128,
        user_id: u128,
        attachment_type: AttachmentType,
        mime_type: String,
        filename: Option<String>,
        size_bytes: u64,
        storage_key: String,
        fresh_id: u128,
        now: UtcTime,
    ) -> (r: Attachment)
        ensures
            r.id == fresh_id,
            r.episode_id == episode_id,
            r.user_id == user_id,
            r.attachment_type == attachment_type,
            r.mime_type == mime_type,
            r.filename == filename,
            r.size_bytes == size_bytes,
            r.storage_key == storage_key,
            r.thumbnail_key is None,
            r.duration_secs is None,
            r.width is None,
            r.height is None,
            r.processing_status == ProcessingStatus::Pending,
            r.processing_error is None,
            r.processed_by_model is None,
            r.description is None,
            r.transcript is None,
            r.created_at == now,
    {
        Attachment {
            id: fresh_id,
            episode_id,
            user_id,
            attachment_type,
            mime_type,
            filename,
            size_bytes,
            storage_key,
            thumbnail_key: None,
            duration_secs: None,
            width: None,
            height: None,
            processing_status: ProcessingStatus::Pending,
            processing_error: None,
            processed_by_model: None,
            description: None,
            transcript: None,
            created_at: now,
        }
    }

    /// A pending attachment with a fresh UUIDv7, made now.
    pub fn new(
        episode_id: u128,
        user_id: u128,
        attachment_type: AttachmentType,
        mime_type: String,
        filename: Option<String>,
        size_bytes: u64,
        storage_key: String,
    ) -> (r: Attachment)
        ensures
            r.episode_id == episode_id,
            r.user_id == user_id,
            r.attachment_type == attachment_type,
            r.mime_type == mime_type,
            r.filename == filename,
            r.size_bytes == size_bytes,
            r.storage_key == storage_key,
            r.thumbnail_key is None,
            r.duration_secs is None,
            r.width is None,
            r.height is None,
            r.processing_status == ProcessingStatus::Pending,
            r.processing_error is None,
            r.processed_by_model is None,
            r.description is None,
            r.transcript is None,
    {
        let id = fresh_uuid_v7();
        Attachment::new_with(episode_id, user_id, attachment_type, mime_type, filename, size_bytes, storage_key, id, crate::time::now())
    }

    /// Processing has started.
    pub fn mark_processing(&mut self)
        ensures
            *final(self) == (Attachment { processing_status: ProcessingStatus::Processing, ..*old(self) }),
    {
        self.processing_status = ProcessingStatus::Processing;
    }

    /// Processing finished with `model`; any earlier error is cleared.
    pub fn mark_completed(&mut self, model: &str)
        ensures
            final(self).processing_status == ProcessingStatus::Completed,
            final(self).processed_by_model matches Some(m) && m@ == model@,
            final(self).processing_error is None,
            final(self).id == old(self).id,
            final(self).description == old(self).description,
            final(self).transcript == old(self).transcript,
    {
        self.processing_status = ProcessingStatus::Completed;
        self.processed_by_model = Some(owned(model));
        self.processing_error = None;
    }

    /// Processing failed with `error`.
    pub fn mark_failed(&mut self, error: String)
        ensures
            *final(self) == (Attachment { processing_status: ProcessingStatus::Failed, processing_error: Some(error), ..*old(self) }),
    {
        self.processing_status = ProcessingStatus::Failed;
        self.processing_error = Some(error);
    }

    /// Record the description of an image.
    pub fn set_description(&mut self, description: String)
        ensures
            *final(self) == (Attachment { description: Some(description), ..*old(self) }),
    {
        self.description = Some(description);
    }

    /// Record the transcript of audio or video.
    pub fn set_transcript(&mut self, transcript: String)
        ensures
            *final(self) == (Attachment { transcript: Some(transcript), ..*old(self) }),
    {
        self.transcript = Some(transcript);
    }

    /// Record the dimensions of an image or video.
    pub fn set_dimensions(&mut self, width: u32, height: u32)
        ensures
            *final(self) == (Attachment { width: Some(width), height: Some(height), ..*old(self) }),
    {
        self.width = Some(width);
        self.height = Some(height);
    }

    /// Record the duration of audio or video (a score order key).
    pub fn set_duration(&mut self, duration_secs: u32)
        ensures
            *final(self) == (Attachment { duration_secs: Some(duration_secs), ..*old(self) }),
    {
        self.duration_secs = Some(duration_secs);
    }

    /// Record the storage key of the thumbnail.
    pub fn set_thumbnail(&mut self, thumbnail_key: String)
        ensures
            *final(self) == (Attachment { thumbnail_key: Some(thumbnail_key), ..*old(self) }),
    {
        self.thumbnail_key = Some(thumbnail_key);
    }
}

/// An attachment with links to download it.
#[derive(Clone, Debug)]
pub struct AttachmentResponse {
    pub attachment: Attachment,
    pub download_url: Option<String>,
    pub thumbnail_url: Option<String>,
}

/// Listing of attachments.
#[derive(Clone, Copy, Debug)]
pub struct ListAttachmentsParams {
    pub attachment_type: Option<AttachmentType>,
    pub limit: u32,
    pub after: Option<u128>,
}

impl Default for ListAttachmentsParams {
    /// Any type, a limit of zero (as the derived default sets it), from the
    /// start.
    fn default() -> (r: ListAttachmentsParams)
        ensures
            r.attachment_type is None,
            r.limit == 0,
            r.after is None,
    {
        ListAttachmentsParams { attachment_type: None, limit: 0, after: None }
    }
}

/// The number of attachments listed when the request has no limit.
pub fn default_limit() -> (r: u32)
    ensures
        r == 20,
{
    20
}

} // verus!
