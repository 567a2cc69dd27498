//! A command-version manager: discovers installed versions of a command,
//! records the ones an operator keeps, and routes invocations of the
//! command through a shim to one recorded version.

pub mod candidate;
pub mod assoc;
pub mod store;
pub mod scan;
pub mod session;
pub mod dispatch;
pub mod shim;
pub mod codec;
