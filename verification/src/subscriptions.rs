//! Market data subscriptions.
//!
//! Per product: the front future, the strikes around the money, the legs of
//! positions; later the strikes that the money has moved to, and depth books
//! in rotation.

pub mod depth;
pub mod setup;
pub mod window;
