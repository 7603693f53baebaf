//! Resilient Messenger core library: the compact wire protocol and the rules
//! around it, proved with Verus.
#![allow(unused_imports)]

pub mod protocol;
pub mod bytes;
pub mod primitives;
pub mod sealed;
pub mod identity;
pub mod transport;
pub mod transport_manager;
pub mod hex;
pub mod delivery;
pub mod api_wire;
pub mod local_store;
pub mod mls_state;
pub mod relay_rules;
pub mod endpoint_list;
pub mod crypto_engine;
