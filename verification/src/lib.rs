//! Serial Flash Loader engine for a terminal plugin: watches the bytes a
//! terminal reads from a serial link and, once the target announces itself,
//! uploads a firmware image frame by frame.
//!
//! The engine never touches a file, a clock or the host's memory. The host
//! hands in each chunk it has read together with the output buffer, the time
//! and, when asked, the contents of the input file; [`state::drive_sfl`]
//! says what to do with the chunk. What a step does is written down once, as
//! a function on plain values, in [`protocol`].

pub mod address;
pub mod error;
pub mod io;
pub mod protocol;
pub mod sfl;
pub mod state;
pub mod text;
pub mod ui;

pub use error::Error;
pub use io::{apply_action, inject_output, OutBuff, ReadAction};
pub use sfl::{Cmd, Frame, MagicMatcher, Resp, SflLoader, TryFromU8Error, MAGIC, MAGIC_RESPONSE};
pub use state::{drive_sfl, Activity, State};
pub use ui::litex_setup_dialog;
