//! OAuth 1.0 `Authorization` header values, signed with HMAC-SHA1.

pub mod canonical;
pub mod clock;
pub mod credentials;
pub mod header;
pub mod method;
pub mod order;
pub mod percent;
pub mod signer;

pub use credentials::Credentials;
pub use http;
