//! Markers of the HTTP documentation surface.
//!
//! The OpenAPI document and its modifiers belong to the HTTP layer around
//! this library, which assembles them with its documentation framework; the
//! bare types here name the pieces of that surface.

use vstd::prelude::*;

verus! {

/// The API document describing the HTTP surface.
pub struct ApiDoc {}

/// Extends the API document with the basic-auth security scheme.
pub struct SecurityAddon {}

/// Extends the API document with the aggregation response schema.
pub struct ResponseAddon {}

} // verus!
