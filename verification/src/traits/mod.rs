//! Configuration and data types of the providers that the engine talks to:
//! blob stores, document parsers, embedding models, transcription and
//! vision services, and the persistence of named state.

pub mod blob;
pub mod document;
pub mod llm;
pub mod transcription;
pub mod vision;
