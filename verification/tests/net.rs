use miningsim::net::{self, CliParseError, NetMode, DEFAULT_PORT};

fn s(args: &[&str]) -> Vec<String> {
    args.iter().map(|s| s.to_string()).collect()
}

#[test]
fn no_args_is_single_player() {
    assert_eq!(net::parse_args(&[]), Ok(NetMode::SinglePlayer));
}

#[test]
fn host_no_port_uses_default() {
    assert_eq!(net::parse_args(&s(&["host"])), Ok(NetMode::Host { port: DEFAULT_PORT }));
}

#[test]
fn host_with_port() {
    assert_eq!(net::parse_args(&s(&["host", "5050"])), Ok(NetMode::Host { port: 5050 }));
}

#[test]
fn host_with_bad_port() {
    assert_eq!(net::parse_args(&s(&["host", "abc"])), Err(CliParseError::BadPort("abc".to_string())));
}

#[test]
fn join_with_addr() {
    assert_eq!(
        net::parse_args(&s(&["join", "192.168.1.5:5000"])),
        Ok(NetMode::Client { addr: "192.168.1.5:5000".to_string() })
    );
}

#[test]
fn join_with_loopback() {
    assert_eq!(
        net::parse_args(&s(&["join", "127.0.0.1:5000"])),
        Ok(NetMode::Client { addr: "127.0.0.1:5000".to_string() })
    );
}

#[test]
fn join_missing_addr() {
    assert_eq!(net::parse_args(&s(&["join"])), Err(CliParseError::MissingArg("join requires an address")));
}

#[test]
fn unknown_command() {
    assert_eq!(
        net::parse_args(&s(&["whatever"])),
        Err(CliParseError::UnknownCommand("whatever".to_string()))
    );
}

// ---------- further cases ----------

#[test]
fn port_syntax_matches_u16_parsing() {
    for text in ["0", "5050", "+5050", "0005050", "65535", "65536", "", "+", "-1", "12a", " 12", "99999999999"] {
        assert_eq!(net::parse_u16(text), text.parse::<u16>().ok(), "port text {:?}", text);
    }
}

#[test]
fn host_with_out_of_range_port() {
    assert_eq!(net::parse_args(&s(&["host", "70000"])), Err(CliParseError::BadPort("70000".to_string())));
}

#[test]
fn extra_words_are_ignored() {
    assert_eq!(net::parse_args(&s(&["host", "1", "x"])), Ok(NetMode::Host { port: 1 }));
}
