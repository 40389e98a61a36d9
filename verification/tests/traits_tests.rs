use mnemo_core::traits::blob::{attachment_key, thumbnail_key, BlobStorageConfig, PresignOptions};
use mnemo_core::traits::document::{ChunkStrategy, DocumentConfig, DocumentFormat};
use mnemo_core::score::ZERO_SCORE_KEY;
use mnemo_core::traits::transcription::{AudioFormat, TranscriptionConfig, TranscriptionFormat};
use mnemo_core::traits::vision::ImageFormat;

#[test]
fn test_blob_storage_config_default() {
    let config = BlobStorageConfig::default();
    match config {
        BlobStorageConfig::Local { path } => assert_eq!(path, "/var/mnemo/blobs"),
        _ => panic!("Expected Local config"),
    }
}

#[test]
fn test_presign_options_default() {
    let options = PresignOptions::default();
    assert_eq!(options.expires_in_secs, 15 * 60);
    assert!(options.content_disposition.is_none());
}

#[test]
fn attachment_and_thumbnail_keys() {
    assert_eq!(
        attachment_key(0, 0, "original.png"),
        "00000000-0000-0000-0000-000000000000/attachments/00000000-0000-0000-0000-000000000000/original.png"
    );
    assert_eq!(
        thumbnail_key(0x0123456789abcdef0123456789abcdef, 1),
        "01234567-89ab-cdef-0123-456789abcdef/attachments/00000000-0000-0000-0000-000000000001/thumbnail.jpg"
    );
}

#[test]
fn test_document_format_from_mime() {
    assert_eq!(DocumentFormat::from_mime("application/pdf"), Some(DocumentFormat::Pdf));
    assert_eq!(
        DocumentFormat::from_mime("application/vnd.openxmlformats-officedocument.wordprocessingml.document"),
        Some(DocumentFormat::Docx)
    );
    assert_eq!(DocumentFormat::from_mime("text/plain"), Some(DocumentFormat::Txt));
    assert_eq!(DocumentFormat::from_mime("text/markdown"), Some(DocumentFormat::Markdown));
    assert_eq!(DocumentFormat::from_mime("video/mp4"), None);
}

#[test]
fn test_document_format_media_type() {
    assert_eq!(DocumentFormat::Pdf.media_type(), "application/pdf");
    assert_eq!(DocumentFormat::Txt.media_type(), "text/plain");
}

#[test]
fn test_chunk_strategy_default() {
    assert_eq!(ChunkStrategy::default(), ChunkStrategy::ByStructure);
}

#[test]
fn test_document_config_default() {
    let config = DocumentConfig::default();
    assert!(!config.enabled);
    assert_eq!(config.max_size_bytes, 50 * 1024 * 1024);
    assert_eq!(config.chunk_strategy, ChunkStrategy::ByStructure);
    assert_eq!(config.chunk_size, 1500);
    assert_eq!(config.chunk_overlap, 200);
}

#[test]
fn document_format_extension_and_case() {
    assert_eq!(DocumentFormat::Markdown.extension(), "md");
    assert_eq!(DocumentFormat::from_mime("TEXT/HTML"), Some(DocumentFormat::Html));
    assert_eq!(DocumentFormat::from_mime("text/x-markdown"), Some(DocumentFormat::Markdown));
}

#[test]
fn test_audio_format_from_mime() {
    assert_eq!(AudioFormat::from_mime("audio/mpeg"), Some(AudioFormat::Mp3));
    assert_eq!(AudioFormat::from_mime("audio/mp3"), Some(AudioFormat::Mp3));
    assert_eq!(AudioFormat::from_mime("audio/mp4"), Some(AudioFormat::Mp4));
    assert_eq!(AudioFormat::from_mime("audio/wav"), Some(AudioFormat::Wav));
    assert_eq!(AudioFormat::from_mime("audio/webm"), Some(AudioFormat::Webm));
    assert_eq!(AudioFormat::from_mime("audio/flac"), Some(AudioFormat::Flac));
    assert_eq!(AudioFormat::from_mime("audio/ogg"), Some(AudioFormat::Ogg));
    assert_eq!(AudioFormat::from_mime("video/mp4"), None);
    assert_eq!(AudioFormat::from_mime("text/plain"), None);
}

#[test]
fn test_audio_format_media_type() {
    assert_eq!(AudioFormat::Mp3.media_type(), "audio/mpeg");
    assert_eq!(AudioFormat::Wav.media_type(), "audio/wav");
    assert_eq!(AudioFormat::Flac.media_type(), "audio/flac");
}

#[test]
fn test_transcription_format_openai() {
    assert_eq!(TranscriptionFormat::Text.openai_format(), "text");
    assert_eq!(TranscriptionFormat::Json.openai_format(), "json");
    assert_eq!(TranscriptionFormat::VerboseJson.openai_format(), "verbose_json");
    assert_eq!(TranscriptionFormat::Srt.openai_format(), "srt");
    assert_eq!(TranscriptionFormat::Vtt.openai_format(), "vtt");
}

#[test]
fn audio_format_extension() {
    assert_eq!(AudioFormat::Mp4.extension(), "m4a");
    assert_eq!(AudioFormat::from_mime("Audio/X-WAV"), Some(AudioFormat::Wav));
}

#[test]
fn test_image_format_from_mime() {
    assert_eq!(ImageFormat::from_mime("image/jpeg"), Some(ImageFormat::Jpeg));
    assert_eq!(ImageFormat::from_mime("image/png"), Some(ImageFormat::Png));
    assert_eq!(ImageFormat::from_mime("image/gif"), Some(ImageFormat::Gif));
    assert_eq!(ImageFormat::from_mime("image/webp"), Some(ImageFormat::Webp));
    assert_eq!(ImageFormat::from_mime("image/bmp"), None);
    assert_eq!(ImageFormat::from_mime("text/plain"), None);
}

#[test]
fn test_image_format_media_type() {
    assert_eq!(ImageFormat::Jpeg.media_type(), "image/jpeg");
    assert_eq!(ImageFormat::Png.media_type(), "image/png");
}

#[test]
fn test_attachment_key() {
    let key = attachment_key(0, 0, "original.png");
    assert_eq!(
        key,
        "00000000-0000-0000-0000-000000000000/attachments/00000000-0000-0000-0000-000000000000/original.png"
    );
}

#[test]
fn test_thumbnail_key() {
    let key = thumbnail_key(0, 0);
    assert_eq!(
        key,
        "00000000-0000-0000-0000-000000000000/attachments/00000000-0000-0000-0000-000000000000/thumbnail.jpg"
    );
}

#[test]
fn test_transcription_config_default() {
    let config = TranscriptionConfig::default();
    assert_eq!(config.provider, "openai");
    assert_eq!(config.model, "whisper-1");
    assert!(!config.diarization);
    assert_eq!(config.temperature, ZERO_SCORE_KEY);
    assert_eq!(f32::from_bits(config.temperature ^ 0x8000_0000), 0.0);
}

#[test]
fn mime_types_parse_back_to_their_formats() {
    for f in [DocumentFormat::Pdf, DocumentFormat::Docx, DocumentFormat::Doc, DocumentFormat::Pptx, DocumentFormat::Xlsx, DocumentFormat::Rtf, DocumentFormat::Txt, DocumentFormat::Markdown, DocumentFormat::Html, DocumentFormat::Epub] {
        assert_eq!(DocumentFormat::from_mime(f.media_type()), Some(f));
        assert_eq!(DocumentFormat::from_mime(&f.media_type().to_uppercase()), Some(f));
    }
    for f in [ImageFormat::Jpeg, ImageFormat::Png, ImageFormat::Gif, ImageFormat::Webp] {
        assert_eq!(ImageFormat::from_mime(f.media_type()), Some(f));
    }
    for f in [AudioFormat::Mp3, AudioFormat::Mp4, AudioFormat::Mpeg, AudioFormat::Mpga, AudioFormat::Wav, AudioFormat::Webm, AudioFormat::Flac, AudioFormat::Ogg] {
        let back = AudioFormat::from_mime(f.media_type()).unwrap();
        assert_eq!(back.media_type(), f.media_type());
    }
    assert_eq!(AudioFormat::from_mime(AudioFormat::Mpga.media_type()), Some(AudioFormat::Mp3));
}
