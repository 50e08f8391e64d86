//! Status-bar helper library: classification of network state into display
//! icons, validation of signal strength readings, and the JSON snapshots that
//! the command-line front end prints for the window manager and the network.
pub mod network_state;
pub mod scan;
pub mod workspaces;
pub mod info;
pub mod keyboard;
pub mod device;
pub mod address;
