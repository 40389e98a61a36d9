//! Events the ingestion pipeline reports to webhooks.

use vstd::prelude::*;

verus! {

/// A change to a user's facts.
#[derive(Clone, Debug)]
pub enum IngestWebhookEvent {
    /// A new fact was extracted.
    FactAdded {
        user_id: u128,
        edge_id: u128,
        source_entity: String,
        target_entity: String,
        label: String,
        fact: String,
        episode_id: u128,
        request_id: Option<String>,
    },
    /// A fact was superseded by a newer one.
    FactSuperseded {
        user_id: u128,
        old_edge_id: u128,
        invalidated_by_episode_id: u128,
        source_entity: String,
        target_entity: String,
        label: String,
        old_fact: String,
        request_id: Option<String>,
    },
}

impl IngestWebhookEvent {
    /// The user whose facts changed.
    pub fn user_id(&self) -> (r: u128)
        ensures
            r == (match *self {
                IngestWebhookEvent::FactAdded { user_id, .. } => user_id,
                IngestWebhookEvent::FactSuperseded { user_id, .. } => user_id,
            }),
    {
        match self {
            IngestWebhookEvent::FactAdded { user_id, .. } => *user_id,
            IngestWebhookEvent::FactSuperseded { user_id, .. } => *user_id,
        }
    }

    /// The id of the request that caused the change, if known.
    pub fn request_id(&self) -> (r: Option<&str>)
        ensures
            match (r, *self) {
                (Some(s), IngestWebhookEvent::FactAdded { request_id: Some(t), .. }) => s@ == t@,
                (Some(s), IngestWebhookEvent::FactSuperseded { request_id: Some(t), .. }) => s@ == t@,
                (None, IngestWebhookEvent::FactAdded { request_id: None, .. }) => true,
                (None, IngestWebhookEvent::FactSuperseded { request_id: None, .. }) => true,
                _ => false,
            },
    {
        match self {
            IngestWebhookEvent::FactAdded { request_id, .. } => match request_id {
                Some(s) => Some(s.as_str()),
                None => None,
            },
            IngestWebhookEvent::FactSuperseded { request_id, .. } => match request_id {
                Some(s) => Some(s.as_str()),
                None => None,
            },
        }
    }
}

} // verus!
