//! Vision analysis: what a vision model returns for an image, its token
//! usage, and the supported image formats.

use vstd::prelude::*;
use crate::models::entity::ExtractedEntity;
use crate::text::{ascii_lowercase, is_ascii_text, same_text, to_lowercase, unicode_lowercase};

verus! {

/// Result of vision analysis on an image.
#[derive(Clone, Debug)]
pub struct VisionAnalysis {
    /// Description of the image content.
    pub description: String,
    /// Text read from the image.
    pub extracted_text: Option<String>,
    /// Entities identified in the image.
    pub entities: Vec<ExtractedEntity>,
    /// Classification tags.
    pub tags: Vec<String>,
    /// Detected scene type (e.g. "screenshot", "photo", "diagram").
    pub scene_type: Option<String>,
    pub usage: VisionUsage,
}

/// Token usage of a vision call.
#[derive(Clone, Copy, Debug)]
pub struct VisionUsage {
    /// Prompt tokens, image tokens included.
    pub prompt_tokens: u32,
    pub completion_tokens: u32,
    pub total_tokens: u32,
}

impl Default for VisionUsage {
    fn default() -> (r: VisionUsage)
        ensures
            r.prompt_tokens == 0,
            r.completion_tokens == 0,
            r.total_tokens == 0,
    {
        VisionUsage { prompt_tokens: 0, completion_tokens: 0, total_tokens: 0 }
    }
}

/// Supported image formats for vision processing.
#[derive(Clone, Copy, PartialEq, Eq, Debug, Structural)]
pub enum ImageFormat {
    Jpeg,
    Png,
    Gif,
    Webp,
}

/// The image format named by an already lowercased MIME type.
pub open spec fn image_format_of(m: Seq<char>) -> Option<ImageFormat> {
    if m == "image/jpeg"@ || m == "image/jpg"@ {
        Some(ImageFormat::Jpeg)
    } else if m == "image/png"@ {
        Some(ImageFormat::Png)
    } else if m == "image/gif"@ {
        Some(ImageFormat::Gif)
    } else if m == "image/webp"@ {
        Some(ImageFormat::Webp)
    } else {
        None
    }
}

pub open spec fn image_media_type(f: ImageFormat) -> Seq<char> {
    match f {
        ImageFormat::Jpeg => "image/jpeg"@,
        ImageFormat::Png => "image/png"@,
        ImageFormat::Gif => "image/gif"@,
        ImageFormat::Webp => "image/webp"@,
    }
}

impl ImageFormat {
    /// The image format of a MIME type, ignoring case.
    pub fn from_mime(mime: &str) -> (r: Option<ImageFormat>)
        ensures
            r == image_format_of(unicode_lowercase(mime@)),
            is_ascii_text(mime@) ==> r == image_format_of(ascii_lowercase(mime@)),
    {
        let lower = to_lowercase(mime);
        let m = lower.as_str();
        if same_text(m, "image/jpeg") || same_text(m, "image/jpg") {
            Some(ImageFormat::Jpeg)
        } else if same_text(m, "image/png") {
            Some(ImageFormat::Png)
        } else if same_text(m, "image/gif") {
            Some(ImageFormat::Gif)
        } else if same_text(m, "image/webp") {
            Some(ImageFormat::Webp)
        } else {
            None
        }
    }

    /// The media type string for API calls.
    pub fn media_type(&self) -> (r: &'static str)
        ensures
            r@ == image_media_type(*self),
    {
        match self {
            ImageFormat::Jpeg => "image/jpeg",
            ImageFormat::Png => "image/png",
            ImageFormat::Gif => "image/gif",
            ImageFormat::Webp => "image/webp",
        }
    }
}

/// Configuration of a vision provider.  The temperature is a score order
/// key.
#[derive(Clone, Debug)]
pub struct VisionConfig {
    pub provider: String,
    pub model: String,
    pub api_key: Option<String>,
    pub base_url: Option<String>,
    pub max_tokens: u32,
    pub temperature: u32,
}

/// The key of the temperature `0.2` (bits `0x3E4C_CCCD`), the default of a
/// vision configuration.
pub const VISION_TEMPERATURE_KEY: u32 = 0xBE4C_CCCD;

/// The token limit of a vision configuration that sets none.
pub fn default_max_tokens() -> (r: u32)
    ensures
        r == 1024,
{
    1024
}

/// An image format's MIME type is ASCII, and parsing it gives the format back.
pub proof fn lemma_image_mime_round_trip(f: ImageFormat, parsed: Option<ImageFormat>)
    requires
        parsed == image_format_of(ascii_lowercase(image_media_type(f))),
    ensures
        is_ascii_text(image_media_type(f)),
        parsed == Some(f),
{
    reveal_strlit("image/gif");
    reveal_strlit("image/jpeg");
    reveal_strlit("image/jpg");
    reveal_strlit("image/png");
    reveal_strlit("image/webp");
    let l = image_media_type(f);
    assert(ascii_lowercase(l) =~= l);
    match f {
        ImageFormat::Jpeg => {},
        ImageFormat::Png => {
            assert(l.len() != "image/jpeg"@.len() && l[6] != "image/jpg"@[6]);
        },
        ImageFormat::Gif => {
            assert(l.len() != "image/jpeg"@.len() && l[6] != "image/jpg"@[6] && l[6] != "image/png"@[6]);
        },
        ImageFormat::Webp => {
            assert(l[6] != "image/jpeg"@[6] && l.len() != "image/jpg"@.len() && l.len() != "image/png"@.len() && l.len() != "image/gif"@.len());
        },
    }
}

} // verus!
