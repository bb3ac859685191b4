use print3rs::help::{
    help, CONNECT_HELP, DISCONNECT_HELP, FULL_HELP, LOG_HELP, MACRO_HELP, PRINT_HELP,
    REPEAT_HELP, STOP_HELP,
};
use print3rs::info::Capability;
use print3rs::version::{version, VERSION};

#[test]
fn test_help() {
    assert_eq!(help(b""), FULL_HELP);
    assert_eq!(help(b"print"), PRINT_HELP);
    assert_eq!(help(b"log"), LOG_HELP);
    assert_eq!(help(b"repeat"), REPEAT_HELP);
    assert_eq!(help(b"stop"), STOP_HELP);
    assert_eq!(help(b"connect"), CONNECT_HELP);
    assert_eq!(help(b"disconnect"), DISCONNECT_HELP);
    assert_eq!(help(b"macro"), MACRO_HELP);
}

#[test]
fn help_ignores_white_space_around_the_command() {
    assert_eq!(help(b"  print \t\n"), PRINT_HELP);
    assert_eq!(help(b" \x0b\x0cmacro\r"), MACRO_HELP);
    assert_eq!(help(b"   "), FULL_HELP);
    assert_eq!(help(b"pri nt"), FULL_HELP);
    assert_eq!(help(b"Print"), FULL_HELP);
    assert_eq!(help(b"version"), FULL_HELP);
    for space in ["\u{85}", "\u{a0}", "\u{1680}", "\u{2000}", "\u{200a}", "\u{2028}", "\u{2029}", "\u{202f}", "\u{205f}", "\u{3000}"] {
        let padded = format!("{space} stop{space}{space}");
        assert_eq!(padded.trim(), "stop");
        assert_eq!(help(padded.as_bytes()), STOP_HELP);
    }
    for other in ["\u{200b}", "\u{feff}", "\u{2060}", "\u{180e}", "\u{a1}"] {
        let padded = format!("{other}stop");
        assert_eq!(padded.trim(), padded);
        assert_eq!(help(padded.as_bytes()), FULL_HELP);
        let padded = format!("stop{other}");
        assert_eq!(help(padded.as_bytes()), FULL_HELP);
    }
}

#[test]
fn version_is_told() {
    assert_eq!(version(), VERSION);
    assert_eq!(version(), "0.1.0");
}

#[test]
fn info_conversion() {
    let cap = Capability::AutoreportPos;
    assert_eq!(cap.as_ref(), "AUTOREPORT_POS");
}

#[test]
fn capabilities_have_their_names() {
    assert_eq!(Capability::AutoreportTemp.as_str(), "AUTOREPORT_TEMP");
    assert_eq!(Capability::EmergencyParser.as_str(), "EMERGENCY_PARSER");
    assert_eq!(Capability::AutoreportSdStatus.as_str(), "AUTOREPORT_SD_STATUS");
    assert_eq!(Capability::Arcs.as_str(), "ARCS");
    assert_eq!(Capability::HostActionCommands.as_str(), "HOST_ACTION_COMMANDS");
    assert_eq!(Capability::BuildPercent.as_str(), "BUILD_PERCENT");
    assert_eq!(Capability::Progress.as_str(), "PROGRESS");
    assert_eq!(Capability::AdvancedOk.as_str(), "ADVANCED_OK");
}
