//! What goes over the wire between the endpoints.

pub mod packets;
