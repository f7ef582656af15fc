use devserver::address::IpAddress;
use devserver::config::{parse_bind_address, parse_port, prefer, ConfigError, ServerConfig};

#[test]
fn nothing_given_loads_the_defaults() {
    let config = ServerConfig::load(None, None, None, None).unwrap();
    assert_eq!(config.addr(), IpAddress::V4([127, 0, 0, 1]));
    assert_eq!(config.port(), 3000);
    assert_eq!(config, ServerConfig::fallback());
    assert_eq!(config, ServerConfig::default());
}

#[test]
fn port_flag_overrides_the_environment() {
    let config = ServerConfig::load(None, None, Some("8080"), Some("9090")).unwrap();
    assert_eq!(config.port(), 8080);
    assert_eq!(config.addr(), IpAddress::V4([127, 0, 0, 1]));
    let alone = ServerConfig::load(None, None, Some("8080"), None).unwrap();
    assert_eq!(alone.port(), 8080);
}

#[test]
fn flag_hides_a_malformed_environment() {
    let config = ServerConfig::load(Some("10.0.0.7"), Some("nowhere"), Some("8080"), Some("not-a-number")).unwrap();
    assert_eq!(config, ServerConfig::new(IpAddress::V4([10, 0, 0, 7]), 8080));
}

#[test]
fn environment_counts_without_a_flag() {
    let config = ServerConfig::load(None, Some("0.0.0.0"), None, Some("9090")).unwrap();
    assert_eq!(config.addr(), IpAddress::V4([0, 0, 0, 0]));
    assert_eq!(config.port(), 9090);
}

#[test]
fn address_flag_overrides_the_environment() {
    let config = ServerConfig::load(Some("192.168.1.10"), Some("10.1.1.1"), None, None).unwrap();
    assert_eq!(config.addr(), IpAddress::V4([192, 168, 1, 10]));
    assert_eq!(config.port(), 3000);
}

#[test]
fn invalid_port_fails_the_load() {
    assert_eq!(ServerConfig::load(None, None, Some("not-a-number"), None), Err(ConfigError::InvalidPort));
    assert_eq!(ServerConfig::load(None, None, None, Some("not-a-number")), Err(ConfigError::InvalidPort));
    assert_eq!(ServerConfig::load(None, None, Some("not-a-number"), Some("80")), Err(ConfigError::InvalidPort));
}

#[test]
fn out_of_range_port_fails_the_load() {
    assert_eq!(ServerConfig::load(None, None, Some("65536"), None), Err(ConfigError::PortOutOfRange));
    assert_eq!(ServerConfig::load(None, None, None, Some("-1")), Err(ConfigError::PortOutOfRange));
}

#[test]
fn version_six_address_is_loaded() {
    let config = ServerConfig::load(Some("::1"), None, Some("8080"), None).unwrap();
    assert_eq!(config.addr(), IpAddress::V6([0, 0, 0, 0, 0, 0, 0, 1]));
    assert_eq!(config.port(), 8080);
}

#[test]
fn parse_bind_address_reads_or_refuses() {
    assert_eq!(parse_bind_address("127.0.0.1"), Ok(IpAddress::V4([127, 0, 0, 1])));
    assert_eq!(parse_bind_address("::"), Ok(IpAddress::V6([0; 8])));
    assert_eq!(parse_bind_address("example.org"), Err(ConfigError::InvalidAddress));
    assert_eq!(parse_bind_address(""), Err(ConfigError::InvalidAddress));
}

#[test]
fn invalid_address_fails_the_load() {
    assert_eq!(ServerConfig::load(Some("localhost"), None, None, None), Err(ConfigError::InvalidAddress));
    assert_eq!(ServerConfig::load(None, Some("1.2.3"), Some("80"), None), Err(ConfigError::InvalidAddress));
    assert_eq!(
        ServerConfig::load(Some("localhost"), None, Some("not-a-number"), None),
        Err(ConfigError::InvalidAddress)
    );
}

#[test]
fn parse_port_reads_decimal_numbers() {
    assert_eq!(parse_port("0"), Ok(0));
    assert_eq!(parse_port("3000"), Ok(3000));
    assert_eq!(parse_port("8080"), Ok(8080));
    assert_eq!(parse_port("65535"), Ok(65535));
    assert_eq!(parse_port("+80"), Ok(80));
    assert_eq!(parse_port("0080"), Ok(80));
    assert_eq!(parse_port("-0"), Ok(0));
    assert_eq!(parse_port("00000000000000000000000000000000000000000001"), Ok(1));
}

#[test]
fn parse_port_rejects_what_is_no_number() {
    for text in ["", "+", "-", "not-a-number", "80a", " 80", "80 ", "8_0", "0x50", "8.0", "++8", "\u{663}"] {
        assert_eq!(parse_port(text), Err(ConfigError::InvalidPort), "{:?}", text);
    }
}

#[test]
fn parse_port_rejects_numbers_out_of_range() {
    for text in ["65536", "70000", "655350", "-1", "-65535", "4294967296", "99999999999999999999999999"] {
        assert_eq!(parse_port(text), Err(ConfigError::PortOutOfRange), "{:?}", text);
    }
}

#[test]
fn prefer_takes_the_flag_first() {
    assert_eq!(prefer(Some(1), Some(2)), Some(1));
    assert_eq!(prefer(Some(1), None), Some(1));
    assert_eq!(prefer(None, Some(2)), Some(2));
    assert_eq!(prefer::<u8>(None, None), None);
}

#[test]
fn assemble_fills_in_the_defaults() {
    assert_eq!(ServerConfig::assemble(None, None), Ok(ServerConfig::fallback()));
    assert_eq!(
        ServerConfig::assemble(Some(Ok(IpAddress::V4([10, 0, 0, 1]))), None),
        Ok(ServerConfig::new(IpAddress::V4([10, 0, 0, 1]), 3000))
    );
    assert_eq!(
        ServerConfig::assemble(None, Some(Ok(8080))),
        Ok(ServerConfig::new(IpAddress::V4([127, 0, 0, 1]), 8080))
    );
    assert_eq!(
        ServerConfig::assemble(Some(Ok(IpAddress::V6([0, 0, 0, 0, 0, 0, 0, 1]))), Some(Ok(1))),
        Ok(ServerConfig::new(IpAddress::V6([0, 0, 0, 0, 0, 0, 0, 1]), 1))
    );
}

#[test]
fn assemble_hands_on_the_first_error() {
    assert_eq!(
        ServerConfig::assemble(Some(Err(ConfigError::InvalidAddress)), Some(Ok(80))),
        Err(ConfigError::InvalidAddress)
    );
    assert_eq!(
        ServerConfig::assemble(None, Some(Err(ConfigError::PortOutOfRange))),
        Err(ConfigError::PortOutOfRange)
    );
    assert_eq!(
        ServerConfig::assemble(Some(Err(ConfigError::InvalidAddress)), Some(Err(ConfigError::InvalidPort))),
        Err(ConfigError::InvalidAddress)
    );
}

#[test]
fn each_error_has_its_message() {
    assert_eq!(ConfigError::InvalidAddress.message(), "invalid bind address: expected an IP address");
    assert_eq!(ConfigError::InvalidPort.message(), "invalid bind port: expected a decimal number");
    assert_eq!(
        ConfigError::PortOutOfRange.message(),
        "invalid bind port: expected a number from 0 to 65535"
    );
}
