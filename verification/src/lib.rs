//! Verified decision logic of a browser-facing workspace backend.
//!
//! The backend lets a browser list and edit the files of one working
//! directory, drive version control on it, and talk to an interactive shell.
//! Everything that touches the operating system or the network is left to the
//! program around this library; what this library holds is every decision the
//! backend takes, each with a contract that Verus proves.
//!
//! * [`terminal`] bridges a shell on a pseudo-terminal and a client channel.
//! * [`files`] shapes the file tree and checks file requests.
//! * [`git`] sorts what version control reports into the backend's answers.

pub mod files;
pub mod git;
pub mod terminal;
