//! A paravirtual NVIDIA GPU device.
//!
//! A guest forwards the ioctls of NVIDIA's own user-mode driver, and the device makes them on the
//! host. What cannot survive the crossing is replaced on the way: guest handles by host
//! descriptors, pointers by addresses of the host's copies, host addresses by offsets into a window
//! of memory that both sides share.
//!
//! The library decides and never touches the host itself. Serving a message is a conversation: the
//! backend asks for one action at a time, whoever runs it performs the action, and its outcome goes
//! back in.

// Bytes, text and errors.
pub mod bytes;
pub mod errno;
pub mod error;
pub mod error_laws;
pub mod paths;
pub mod text;
pub mod text_laws;

// The driver's ABI, release by release.
pub mod abi;
pub mod ioctl;
pub mod table_laws;
pub mod types;
pub mod version;
pub mod versions;

// The wire format.
pub mod bus_laws;
pub mod client;
pub mod client_laws;
pub mod file_laws;
pub mod files;
pub mod messages;
pub mod response;
pub mod transport;
pub mod virtio;
pub mod wire_laws;

// The shared window.
pub mod accounting;
pub mod cycle;
pub mod history;
pub mod mmap;
pub mod regions;
pub mod shm;
pub mod window_laws;
pub mod zone;

// The backend.
pub mod answer_laws;
pub mod call_laws;
pub mod forward;
pub mod guarded;
pub mod handle_table;
pub mod laws;
pub mod mapping;
pub mod memory_laws;
pub mod nvidia;
pub mod pump;
pub mod result_laws;
pub mod serve;
pub mod session_laws;
pub mod step;
pub mod watch;

// The host's driver files.
pub mod categories;
pub mod elf;
pub mod elf_laws;
pub mod host;
pub mod host_laws;
pub mod manifest;
pub mod manifest_laws;
pub mod manifest_text;
pub mod resolve;
pub mod resolve_laws;
pub mod share_laws;
pub mod staging;
pub mod userspace;
