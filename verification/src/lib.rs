//! Typed network and file endpoints.
//!
//! An [`Endpoint`] is parsed from a connection string such as
//! `tcp://host:port` or `unix:///path`, rendered back to its canonical
//! text, and turned into socket addresses. Every function carries a
//! contract over the character sequences involved, proved with Verus.

pub mod authority;
pub mod endpoint;
pub mod error;
pub mod host;
pub mod ip;
pub mod ipv4;
pub mod ipv6;
pub mod ipv6_laws;
pub mod laws;
pub mod resolve;
pub mod scheme;
pub mod text;
pub mod url_parts;

pub use endpoint::Endpoint;
pub use error::ParseEndpointError;
pub use host::HostAddr;
pub use ip::IpAddr;
pub use resolve::SocketAddr;
pub use scheme::Scheme;
pub use url_parts::UrlParts;
