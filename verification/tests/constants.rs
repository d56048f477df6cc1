use provision::constants::{TauriCommands, TauriEvents};

#[test]
fn generate_typescript_bindings() {
    // Just verify constants are accessible
    assert_eq!(TauriCommands::GET_ADDON_CONFIG, "get_addon_config");
    assert_eq!(TauriEvents::MESSAGE_CHUNK, "message-chunk");
}
