use dst_admin_rust::console::{lua_double_quote_escape, screen_command_spec};

#[test]
fn screen_command_spec_uses_argv_without_shell() {
    let spec = screen_command_spec("ClusterA", "Master", "c_save()");

    assert_eq!(spec.program(), "screen");
    assert_eq!(
        spec.args(),
        [
            "-S",
            "DST_8level_ClusterA_Master",
            "-p",
            "0",
            "-X",
            "stuff",
            "c_save()\n"
        ]
    );
}

#[test]
fn lua_double_quote_escape_keeps_message_inside_string_literal() {
    assert_eq!(
        lua_double_quote_escape("hi\");c_shutdown();--"),
        "hi\\\");c_shutdown();--"
    );
}
