//! The client side of the microgrid API.

pub mod microgrid_client_actor;
pub mod microgrid_client_handle;
pub mod proto;
