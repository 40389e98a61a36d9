//! Transcription: response formats, speakers, and the supported audio
//! formats with their MIME types and extensions.

use vstd::prelude::*;
use crate::score::ZERO_SCORE_KEY;
use crate::text::owned;
use crate::text::{ascii_lowercase, is_ascii_text, same_text, to_lowercase, unicode_lowercase};

verus! {

/// Response format for transcription.
#[derive(Clone, Copy, PartialEq, Eq, Debug, Structural)]
pub enum TranscriptionFormat {
    /// Plain text transcript (the default).
    Text,
    /// JSON with word-level timestamps.
    Json,
    /// Verbose JSON with segments, timestamps and metadata.
    VerboseJson,
    /// SRT subtitles.
    Srt,
    /// VTT subtitles.
    Vtt,
}

impl Default for TranscriptionFormat {
    fn default() -> (r: TranscriptionFormat)
        ensures
            r == TranscriptionFormat::Text,
    {
        TranscriptionFormat::Text
    }
}

pub open spec fn openai_format_label(f: TranscriptionFormat) -> Seq<char> {
    match f {
        TranscriptionFormat::Text => "text"@,
        TranscriptionFormat::Json => "json"@,
        TranscriptionFormat::VerboseJson => "verbose_json"@,
        TranscriptionFormat::Srt => "srt"@,
        TranscriptionFormat::Vtt => "vtt"@,
    }
}

impl TranscriptionFormat {
    /// The format string of the OpenAI API.
    pub fn openai_format(&self) -> (r: &'static str)
        ensures
            r@ == openai_format_label(*self),
    {
        match self {
            TranscriptionFormat::Text => "text",
            TranscriptionFormat::Json => "json",
            TranscriptionFormat::VerboseJson => "verbose_json",
            TranscriptionFormat::Srt => "srt",
            TranscriptionFormat::Vtt => "vtt",
        }
    }
}

/// Speaker information for diarization.
#[derive(Clone, Debug)]
pub struct Speaker {
    /// Speaker identifier (e.g. "SPEAKER_00").
    pub id: String,
    /// Speaker label, if identified.
    pub label: Option<String>,
}

/// Supported audio formats.
#[derive(Clone, Copy, PartialEq, Eq, Debug, Structural)]
pub enum AudioFormat {
    Mp3,
    Mp4,
    Mpeg,
    Mpga,
    Wav,
    Webm,
    Flac,
    Ogg,
}

pub open spec fn audio_media_type(f: AudioFormat) -> Seq<char> {
    match f {
        AudioFormat::Mp3 => "audio/mpeg"@,
        AudioFormat::Mp4 => "audio/mp4"@,
        AudioFormat::Mpeg => "audio/mpeg"@,
        AudioFormat::Mpga => "audio/mpeg"@,
        AudioFormat::Wav => "audio/wav"@,
        AudioFormat::Webm => "audio/webm"@,
        AudioFormat::Flac => "audio/flac"@,
        AudioFormat::Ogg => "audio/ogg"@,
    }
}

/// The audio format named by an already lowercased MIME type.
pub open spec fn audio_format_of(m: Seq<char>) -> Option<AudioFormat> {
    if m == "audio/mpeg"@ || m == "audio/mp3"@ {
        Some(AudioFormat::Mp3)
    } else if m == "audio/mp4"@ || m == "audio/m4a"@ || m == "audio/x-m4a"@ {
        Some(AudioFormat::Mp4)
    } else if m == "audio/wav"@ || m == "audio/x-wav"@ || m == "audio/wave"@ {
        Some(AudioFormat::Wav)
    } else if m == "audio/webm"@ {
        Some(AudioFormat::Webm)
    } else if m == "audio/flac"@ || m == "audio/x-flac"@ {
        Some(AudioFormat::Flac)
    } else if m == "audio/ogg"@ || m == "audio/vorbis"@ {
        Some(AudioFormat::Ogg)
    } else {
        None
    }
}

pub open spec fn audio_extension(f: AudioFormat) -> Seq<char> {
    match f {
        AudioFormat::Mp3 => "mp3"@,
        AudioFormat::Mp4 => "m4a"@,
        AudioFormat::Mpeg => "mpeg"@,
        AudioFormat::Mpga => "mpga"@,
        AudioFormat::Wav => "wav"@,
        AudioFormat::Webm => "webm"@,
        AudioFormat::Flac => "flac"@,
        AudioFormat::Ogg => "ogg"@,
    }
}

impl AudioFormat {
    /// The MIME type of this format.
    pub fn media_type(&self) -> (r: &'static str)
        ensures
            r@ == audio_media_type(*self),
    {
        match self {
            AudioFormat::Mp3 => "audio/mpeg",
            AudioFormat::Mp4 => "audio/mp4",
            AudioFormat::Mpeg => "audio/mpeg",
            AudioFormat::Mpga => "audio/mpeg",
            AudioFormat::Wav => "audio/wav",
            AudioFormat::Webm => "audio/webm",
            AudioFormat::Flac => "audio/flac",
            AudioFormat::Ogg => "audio/ogg",
        }
    }

    /// The audio format of a MIME type, ignoring case.
    pub fn from_mime(mime: &str) -> (r: Option<AudioFormat>)
        ensures
            r == audio_format_of(unicode_lowercase(mime@)),
            is_ascii_text(mime@) ==> r == audio_format_of(ascii_lowercase(mime@)),
    {
        let lower = to_lowercase(mime);
        let m = lower.as_str();
        if same_text(m, "audio/mpeg") || same_text(m, "audio/mp3") {
            Some(AudioFormat::Mp3)
        } else if same_text(m, "audio/mp4") || same_text(m, "audio/m4a") || same_text(m, "audio/x-m4a") {
            Some(AudioFormat::Mp4)
        } else if same_text(m, "audio/wav") || same_text(m, "audio/x-wav") || same_text(m, "audio/wave") {
            Some(AudioFormat::Wav)
        } else if same_text(m, "audio/webm") {
            Some(AudioFormat::Webm)
        } else if same_text(m, "audio/flac") || same_text(m, "audio/x-flac") {
            Some(AudioFormat::Flac)
        } else if same_text(m, "audio/ogg") || same_text(m, "audio/vorbis") {
            Some(AudioFormat::Ogg)
        } else {
            None
        }
    }

    /// The file extension of this format.
    pub fn extension(&self) -> (r: &'static str)
        ensures
            r@ == audio_extension(*self),
    {
        match self {
            AudioFormat::Mp3 => "mp3",
            AudioFormat::Mp4 => "m4a",
            AudioFormat::Mpeg => "mpeg",
            AudioFormat::Mpga => "mpga",
            AudioFormat::Wav => "wav",
            AudioFormat::Webm => "webm",
            AudioFormat::Flac => "flac",
            AudioFormat::Ogg => "ogg",
        }
    }
}

/// Configuration of a transcription provider.  The temperature is a score
/// order key.
#[derive(Clone, Debug)]
pub struct TranscriptionConfig {
    /// Provider: `openai` (Whisper) and compatible services.
    pub provider: String,
    pub model: String,
    pub api_key: Option<String>,
    pub base_url: Option<String>,
    /// Identify speakers.
    pub diarization: bool,
    /// ISO-639-1 language hint.
    pub language: Option<String>,
    pub response_format: TranscriptionFormat,
    pub temperature: u32,
}

impl Default for TranscriptionConfig {
    /// OpenAI's `whisper-1`, plain text, temperature zero.
    fn default() -> (r: TranscriptionConfig)
        ensures
            r.provider@ == "openai"@,
            r.model@ == "whisper-1"@,
            r.api_key is None,
            r.base_url is None,
            !r.diarization,
            r.language is None,
            r.response_format == TranscriptionFormat::Text,
            r.temperature == ZERO_SCORE_KEY,
    {
        TranscriptionConfig {
            provider: owned("openai"),
            model: owned("whisper-1"),
            api_key: None,
            base_url: None,
            diarization: false,
            language: None,
            response_format: TranscriptionFormat::Text,
            temperature: ZERO_SCORE_KEY,
        }
    }
}

/// The formats a transcription provider accepts unless it says otherwise:
/// every format Whisper reads, which is all of them.
pub fn default_supports_format(format: AudioFormat) -> (r: bool)
    ensures
        r,
{
    match format {
        AudioFormat::Mp3 | AudioFormat::Mp4 | AudioFormat::Mpeg | AudioFormat::Mpga | AudioFormat::Wav
        | AudioFormat::Webm | AudioFormat::Flac | AudioFormat::Ogg => true,
    }
}

/// The largest audio a provider accepts unless it says otherwise: 25 MiB,
/// Whisper's limit.
pub fn default_max_audio_size() -> (r: u64)
    ensures
        r == 25 * 1024 * 1024,
{
    25 * 1024 * 1024
}

/// An audio format's MIME type is ASCII, and parsing it gives a format with
/// the same MIME type (`mpeg` and `mpga` share `mp3`'s).
pub proof fn lemma_audio_mime_round_trip(f: AudioFormat, parsed: Option<AudioFormat>)
    requires
        parsed == audio_format_of(ascii_lowercase(audio_media_type(f))),
    ensures
        is_ascii_text(audio_media_type(f)),
        parsed is Some && audio_media_type(parsed->0) == audio_media_type(f),
{
    reveal_strlit("audio/flac");
    reveal_strlit("audio/m4a");
    reveal_strlit("audio/mp3");
    reveal_strlit("audio/mp4");
    reveal_strlit("audio/mpeg");
    reveal_strlit("audio/ogg");
    reveal_strlit("audio/vorbis");
    reveal_strlit("audio/wav");
    reveal_strlit("audio/wave");
    reveal_strlit("audio/webm");
    reveal_strlit("audio/x-flac");
    reveal_strlit("audio/x-m4a");
    reveal_strlit("audio/x-wav");
    let l = audio_media_type(f);
    assert(ascii_lowercase(l) =~= l);
    match f {
        AudioFormat::Mp3 => {},
        AudioFormat::Mp4 => {
            assert(l.len() != "audio/mpeg"@.len() && l[8] != "audio/mp3"@[8]);
        },
        AudioFormat::Mpeg => {},
        AudioFormat::Mpga => {},
        AudioFormat::Wav => {
            assert(l.len() != "audio/mpeg"@.len() && l[6] != "audio/mp3"@[6] && l[6] != "audio/mp4"@[6] && l[6] != "audio/m4a"@[6] && l.len() != "audio/x-m4a"@.len());
        },
        AudioFormat::Webm => {
            assert(l[6] != "audio/mpeg"@[6] && l.len() != "audio/mp3"@.len() && l.len() != "audio/mp4"@.len() && l.len() != "audio/m4a"@.len() && l.len() != "audio/x-m4a"@.len() && l.len() != "audio/wav"@.len() && l.len() != "audio/x-wav"@.len() && l[7] != "audio/wave"@[7]);
        },
        AudioFormat::Flac => {
            assert(l[6] != "audio/mpeg"@[6] && l.len() != "audio/mp3"@.len() && l.len() != "audio/mp4"@.len() && l.len() != "audio/m4a"@.len() && l.len() != "audio/x-m4a"@.len() && l.len() != "audio/wav"@.len() && l.len() != "audio/x-wav"@.len() && l[6] != "audio/wave"@[6] && l[6] != "audio/webm"@[6]);
        },
        AudioFormat::Ogg => {
            assert(l.len() != "audio/mpeg"@.len() && l[6] != "audio/mp3"@[6] && l[6] != "audio/mp4"@[6] && l[6] != "audio/m4a"@[6] && l.len() != "audio/x-m4a"@.len() && l[6] != "audio/wav"@[6] && l.len() != "audio/x-wav"@.len() && l.len() != "audio/wave"@.len() && l.len() != "audio/webm"@.len() && l.len() != "audio/flac"@.len() && l.len() != "audio/x-flac"@.len());
        },
    }
}

} // verus!
