//! Users, the top-level tenants: everything else is scoped to one.

use vstd::prelude::*;
use crate::fresh::fresh_uuid_v7;
use crate::time::UtcTime;

verus! {

/// A user.
#[derive(Debug)]
pub struct User {
    pub id: u128,
    /// Identifier in an upstream system.
    pub external_id: Option<String>,
    pub name: String,
    pub email: Option<String>,
    pub metadata: serde_json::Value,
    pub created_at: UtcTime,
    pub updated_at: UtcTime,
}

/// Request to create a user.
#[derive(Debug)]
pub struct CreateUserRequest {
    pub id: Option<u128>,
    pub external_id: Option<String>,
    pub name: String,
    pub email: Option<String>,
    pub metadata: serde_json::Value,
}

/// Partial update of a user.
#[derive(Debug)]
pub struct UpdateUserRequest {
    pub name: Option<String>,
    pub email: Option<String>,
    pub external_id: Option<String>,
    pub metadata: Option<serde_json::Value>,
}

impl Default for UpdateUserRequest {
    /// An update that changes nothing.
    fn default() -> (r: UpdateUserRequest)
        ensures
            r.name is None,
            r.email is None,
            r.external_id is None,
            r.metadata is None,
    {
        UpdateUserRequest { name: None, email: None, external_id: None, metadata: None }
    }
}

impl User {
    /// The user of a request: its id or `fresh_id`, made at `now`.
    pub fn from_request_with(req: CreateUserRequest, fresh_id: u128, now: UtcTime) -> (r: User)
        ensures
            r.id == (match req.id {
                Some(i) => i,
                None => fresh_id,
            }),
            r.external_id == req.external_id,
            r.name == req.name,
            r.email == req.email,
            r.metadata == req.metadata,
            r.created_at == now,
            r.updated_at == now,
    {
        User {
            id: match req.id {
                Some(i) => i,
                None => fresh_id,
            },
            external_id: req.external_id,
            name: req.name,
            email: req.email,
            metadata: req.metadata,
            created_at: now,
            updated_at: now,
        }
    }

    /// The user of a request, with a fresh UUIDv7 where it has no id, made
    /// now.
    pub fn from_request(req: CreateUserRequest) -> (r: User)
        ensures
            req.id matches Some(i) ==> r.id == i,
            r.external_id == req.external_id,
            r.name == req.name,
            r.email == req.email,
            r.metadata == req.metadata,
            r.created_at == r.updated_at,
    {
        let fresh = match req.id {
            Some(i) => i,
            None => fresh_uuid_v7(),
        };
        User::from_request_with(req, fresh, crate::time::now())
    }

    /// The user with the update's fields replacing its own, updated at
    /// `now`.
    pub fn apply_update_at(self, update: UpdateUserRequest, now: UtcTime) -> (r: User)
        ensures
            r.id == self.id,
            r.name == (match update.name {
                Some(n) => n,
                None => self.name,
            }),
            r.email == (match update.email {
                Some(e) => Some(e),
                None => self.email,
            }),
            r.external_id == (match update.external_id {
                Some(x) => Some(x),
                None => self.external_id,
            }),
            r.metadata == (match update.metadata {
                Some(m) => m,
                None => self.metadata,
            }),
            r.created_at == self.created_at,
            r.updated_at == now,
    {
        let mut u = self;
        match update.name {
            Some(n) => u.name = n,
            None => {},
        }
        match update.email {
            Some(e) => u.email = Some(e),
            None => {},
        }
        match update.external_id {
            Some(x) => u.external_id = Some(x),
            None => {},
        }
        match update.metadata {
            Some(m) => u.metadata = m,
            None => {},
        }
        u.updated_at = now;
        u
    }

    /// The user with the update applied, updated now.
    pub fn apply_update(self, update: UpdateUserRequest) -> (r: User)
        ensures
            r.id == self.id,
            r.name == (match update.name {
                Some(n) => n,
                None => self.name,
            }),
            r.email == (match update.email {
                Some(e) => Some(e),
                None => self.email,
            }),
            r.external_id == (match update.external_id {
                Some(x) => Some(x),
                None => self.external_id,
            }),
            r.metadata == (match update.metadata {
                Some(m) => m,
                None => self.metadata,
            }),
            r.created_at == self.created_at,
    {
        self.apply_update_at(update, crate::time::now())
    }
}

} // verus!
