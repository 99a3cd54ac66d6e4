//! A PXE network-boot server library: a DHCP datagram codec, the ProxyDHCP
//! responder, the PXE vendor-options encoder and a TFTP read-only server.
pub mod wire;
pub mod dhcp;
pub mod codec_laws;
pub mod pxe;
pub mod responder;
pub mod text;
pub mod tftp;
pub mod server;
pub mod names;

pub use dhcp::{DHCPBody, DHCPDgram, DHCPDgramBuilder, DHCPOption};
pub use pxe::{PXEBuilder, PXEOption};
pub use responder::{discover, respond, ProxyConfig};
pub use server::{endpoint_key, Action, TFTPServer, TFTPTransfer};
pub use tftp::{ReadRequest, RequestError, TFTP};
