//! A concurrent TCP port scanner's verified core: how the port space is
//! split among workers, how command-line arguments are read, how a target
//! is turned into an address, and how the open ports that the workers find
//! are gathered into one ascending report.
pub mod ports;
pub mod collector;
pub mod args;
pub mod target;
