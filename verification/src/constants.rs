//! Names of the commands and events the application shell exposes to its
//! frontend.

use vstd::prelude::*;

verus! {

/// Command names, one constant per invokable command.
pub struct TauriCommands;

impl TauriCommands {
    pub const GET_ADDON_CONFIG: &'static str = "get_addon_config";

    pub const REFRESH_ADDON_CONFIG: &'static str = "refresh_addon_config";
}

/// Event names, one constant per emitted event.
pub struct TauriEvents;

impl TauriEvents {
    pub const MESSAGE_CHUNK: &'static str = "message-chunk";
}

} // verus!
