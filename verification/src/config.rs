use crate::address::{address_text, parse_address, AddressModel, IpAddress};
use crate::decimal::{all_digits, digits_value, read_digits};
use vstd::prelude::*;
use vstd::string::StringSliceAdditionalSpecFns;

verus! {

/// Why a configuration could not be made.
#[derive(Clone, Copy, Debug, PartialEq, Eq, Structural)]
pub enum ConfigError {
    /// The bind address is not an IP address.
    InvalidAddress,
    /// The bind port is not a decimal number.
    InvalidPort,
    /// The bind port is a number outside 0 to 65535.
    PortOutOfRange,
}

impl ConfigError {
    /// A sentence that says what was wrong.
    pub fn message(&self) -> (text: String)
        ensures
            text@ == match *self {
                ConfigError::InvalidAddress => "invalid bind address: expected an IP address"@,
                ConfigError::InvalidPort => "invalid bind port: expected a decimal number"@,
                ConfigError::PortOutOfRange => "invalid bind port: expected a number from 0 to 65535"@,
            },
    {
        match self {
            ConfigError::InvalidAddress => "invalid bind address: expected an IP address".to_owned(),
            ConfigError::InvalidPort => "invalid bind port: expected a decimal number".to_owned(),
            ConfigError::PortOutOfRange => "invalid bind port: expected a number from 0 to 65535".to_owned(),
        }
    }
}

/// The address 127.0.0.1, which is bound where none is given.
pub open spec fn default_address() -> AddressModel {
    AddressModel::V4(seq![127u8, 0u8, 0u8, 1u8])
}

/// The port 3000, which is bound where none is given.
pub open spec fn default_port() -> u16 {
    3000
}

/// The number that `text` denotes as a port: an optional sign, `+` or `-`,
/// and then one or more decimal digits. `None` where `text` is not of that
/// form.
pub open spec fn signed_value(text: Seq<u8>) -> Option<int> {
    let signed = text.len() > 0 && (text[0] == 0x2b || text[0] == 0x2d);
    let digits = if signed {
        text.subrange(1, text.len() as int)
    } else {
        text
    };
    if digits.len() > 0 && all_digits(digits) {
        if text[0] == 0x2d {
            Some(-(digits_value(digits) as int))
        } else {
            Some(digits_value(digits) as int)
        }
    } else {
        None
    }
}

/// The port that `text` denotes, or what is wrong with it.
pub open spec fn port_of(text: Seq<u8>) -> Result<u16, ConfigError> {
    match signed_value(text) {
        None => Err(ConfigError::InvalidPort),
        Some(value) => if 0 <= value <= 0xffff {
            Ok(value as u16)
        } else {
            Err(ConfigError::PortOutOfRange)
        },
    }
}

/// The address that `text` denotes, or `InvalidAddress`.
pub open spec fn address_of(text: Seq<u8>) -> Result<AddressModel, ConfigError> {
    match address_text(text) {
        Some(address) => Ok(address),
        None => Err(ConfigError::InvalidAddress),
    }
}

/// Reads a bind port.
pub fn parse_port(text: &str) -> (port: Result<u16, ConfigError>)
    ensures
        port == port_of(text.spec_bytes()),
{
    let bytes = text.as_bytes();
    let signed = bytes.len() > 0 && (bytes[0] == 0x2b || bytes[0] == 0x2d);
    let start: usize = if signed { 1 } else { 0 };
    proof {
        if !signed {
            assert(bytes@.subrange(0, bytes@.len() as int) =~= bytes@);
        }
    }
    match read_digits(bytes, start, bytes.len(), 0xffff) {
        None => Err(ConfigError::InvalidPort),
        Some(value) => {
            if bytes[0] == 0x2d {
                if value == 0 {
                    Ok(0)
                } else {
                    Err(ConfigError::PortOutOfRange)
                }
            } else if value > 0xffff {
                Err(ConfigError::PortOutOfRange)
            } else {
                Ok(value as u16)
            }
        },
    }
}

/// Reads a bind address.
pub fn parse_bind_address(text: &str) -> (address: Result<IpAddress, ConfigError>)
    ensures
        match address {
            Ok(found) => address_of(text.spec_bytes()) == Ok::<AddressModel, ConfigError>(found@),
            Err(error) => address_of(text.spec_bytes()) == Err::<AddressModel, ConfigError>(error),
        },
{
    match parse_address(text) {
        Some(found) => Ok(found),
        None => Err(ConfigError::InvalidAddress),
    }
}

/// Where the server listens: fixed once made.
#[derive(Clone, Copy, Debug, PartialEq, Eq)]
pub struct ServerConfig {
    addr: IpAddress,
    port: u16,
}

/// A server configuration as mathematical values.
pub ghost struct ConfigModel {
    pub addr: AddressModel,
    pub port: u16,
}

impl View for ServerConfig {
    type V = ConfigModel;

    closed spec fn view(&self) -> ConfigModel {
        ConfigModel { addr: self.addr@, port: self.port }
    }
}

/// The value that counts of a setting: the one given on the command line
/// where there is one, else the one from the environment, if any.
pub open spec fn preferred<T>(flag: Option<T>, env: Option<T>) -> Option<T> {
    if flag is Some {
        flag
    } else {
        env
    }
}

/// The configuration made from what was read of each setting, if anything:
/// the default stands in for a setting that was not given, and what is wrong
/// with a setting is wrong with the whole, the address coming first.
pub open spec fn assembled(
    addr: Option<Result<AddressModel, ConfigError>>,
    port: Option<Result<u16, ConfigError>>,
) -> Result<ConfigModel, ConfigError> {
    match (addr, port) {
        (Some(Err(error)), _) => Err(error),
        (_, Some(Err(error))) => Err(error),
        _ => Ok(
            ConfigModel {
                addr: match addr {
                    Some(Ok(given)) => given,
                    _ => default_address(),
                },
                port: match port {
                    Some(Ok(given)) => given,
                    _ => default_port(),
                },
            },
        ),
    }
}

/// What was read of a setting given as text, if it was given.
pub open spec fn read_with<T>(text: Option<Seq<u8>>, read: spec_fn(Seq<u8>) -> Result<T, ConfigError>) -> Option<
    Result<T, ConfigError>,
> {
    match text {
        Some(given) => Some(read(given)),
        None => None,
    }
}

/// The configuration that the four sources give: for each setting the
/// command line before the environment, and the default where neither has
/// it.
pub open spec fn loaded(
    flag_addr: Option<Seq<u8>>,
    env_addr: Option<Seq<u8>>,
    flag_port: Option<Seq<u8>>,
    env_port: Option<Seq<u8>>,
) -> Result<ConfigModel, ConfigError> {
    assembled(
        read_with(preferred(flag_addr, env_addr), |text: Seq<u8>| address_of(text)),
        read_with(preferred(flag_port, env_port), |text: Seq<u8>| port_of(text)),
    )
}

/// The bytes of a text that may be absent.
pub open spec fn bytes_of(text: Option<&str>) -> Option<Seq<u8>> {
    match text {
        Some(given) => Some(given.spec_bytes()),
        None => None,
    }
}

/// The value that counts of a setting: the one given on the command line
/// where there is one, else the one from the environment, if any.
pub fn prefer<T>(flag: Option<T>, env: Option<T>) -> (chosen: Option<T>)
    ensures
        chosen == preferred(flag, env),
{
    match flag {
        Some(given) => Some(given),
        None => env,
    }
}

impl ServerConfig {
    /// The configuration of the given address and port.
    pub fn new(addr: IpAddress, port: u16) -> (config: ServerConfig)
        ensures
            config@ == (ConfigModel { addr: addr@, port }),
    {
        ServerConfig { addr, port }
    }

    /// The address to bind.
    pub fn addr(&self) -> (addr: IpAddress)
        ensures
            addr@ == self@.addr,
    {
        self.addr
    }

    /// The port to bind.
    pub fn port(&self) -> (port: u16)
        ensures
            port == self@.port,
    {
        self.port
    }

    /// The configuration where nothing is given: 127.0.0.1, port 3000.
    pub fn fallback() -> (config: ServerConfig)
        ensures
            config@ == (ConfigModel { addr: default_address(), port: default_port() }),
    {
        let octets: [u8; 4] = [127, 0, 0, 1];
        assert(octets@ =~= seq![127u8, 0u8, 0u8, 1u8]);
        ServerConfig { addr: IpAddress::V4(octets), port: 3000 }
    }

    /// Makes the configuration from what was read of each setting, if
    /// anything.
    pub fn assemble(
        addr: Option<Result<IpAddress, ConfigError>>,
        port: Option<Result<u16, ConfigError>>,
    ) -> (config: Result<ServerConfig, ConfigError>)
        ensures
            match config {
                Ok(made) => assembled(address_read(addr), port) == Ok::<ConfigModel, ConfigError>(made@),
                Err(error) => assembled(address_read(addr), port) == Err::<ConfigModel, ConfigError>(error),
            },
    {
        let fallback = ServerConfig::fallback();
        let addr = match addr {
            Some(Err(error)) => {
                return Err(error);
            },
            Some(Ok(given)) => given,
            None => fallback.addr,
        };
        let port = match port {
            Some(Err(error)) => {
                return Err(error);
            },
            Some(Ok(given)) => given,
            None => fallback.port,
        };
        Ok(ServerConfig { addr, port })
    }

    /// Loads the configuration from the texts given on the command line and
    /// in the environment. A setting's text from the environment is not
    /// looked at where the command line gives that setting.
    pub fn load(
        flag_addr: Option<&str>,
        env_addr: Option<&str>,
        flag_port: Option<&str>,
        env_port: Option<&str>,
    ) -> (config: Result<ServerConfig, ConfigError>)
        ensures
            match config {
                Ok(made) => loaded(
                    bytes_of(flag_addr),
                    bytes_of(env_addr),
                    bytes_of(flag_port),
                    bytes_of(env_port),
                ) == Ok::<ConfigModel, ConfigError>(made@),
                Err(error) => loaded(
                    bytes_of(flag_addr),
                    bytes_of(env_addr),
                    bytes_of(flag_port),
                    bytes_of(env_port),
                ) == Err::<ConfigModel, ConfigError>(error),
            },
    {
        let addr = match prefer(flag_addr, env_addr) {
            Some(text) => Some(parse_bind_address(text)),
            None => None,
        };
        let port = match prefer(flag_port, env_port) {
            Some(text) => Some(parse_port(text)),
            None => None,
        };
        ServerConfig::assemble(addr, port)
    }
}

impl Default for ServerConfig {
    /// The configuration where nothing is given: 127.0.0.1, port 3000.
    fn default() -> (config: ServerConfig)
        ensures
            config@ == (ConfigModel { addr: default_address(), port: default_port() }),
    {
        ServerConfig::fallback()
    }
}

/// What was read of an address, as mathematical values.
pub open spec fn address_read(addr: Option<Result<IpAddress, ConfigError>>) -> Option<
    Result<AddressModel, ConfigError>,
> {
    match addr {
        Some(Ok(given)) => Some(Ok(given@)),
        Some(Err(error)) => Some(Err(error)),
        None => None,
    }
}

/// Where no source gives a setting, the configuration is 127.0.0.1 with
/// port 3000.
pub proof fn lemma_nothing_given_loads_defaults()
    ensures
        loaded(None, None, None, None) == Ok::<ConfigModel, ConfigError>(
            ConfigModel { addr: default_address(), port: default_port() },
        ),
{
}

/// A setting given on the command line decides: what the environment holds
/// for that setting changes nothing, be it absent, well-formed or not.
pub proof fn lemma_command_line_overrides_environment(
    flag_addr: Option<Seq<u8>>,
    env_addr: Option<Seq<u8>>,
    flag_port: Option<Seq<u8>>,
    env_port: Option<Seq<u8>>,
    other_addr: Option<Seq<u8>>,
    other_port: Option<Seq<u8>>,
)
    ensures
        flag_port is Some ==> loaded(flag_addr, env_addr, flag_port, env_port) == loaded(
            flag_addr,
            env_addr,
            flag_port,
            other_port,
        ),
        flag_addr is Some ==> loaded(flag_addr, env_addr, flag_port, env_port) == loaded(
            flag_addr,
            other_addr,
            flag_port,
            env_port,
        ),
        flag_port is Some ==> (loaded(flag_addr, env_addr, flag_port, env_port) matches Ok(config)
            ==> port_of(flag_port->0) == Ok::<u16, ConfigError>(config.port)),
        flag_addr is Some ==> (loaded(flag_addr, env_addr, flag_port, env_port) matches Ok(config)
            ==> address_of(flag_addr->0) == Ok::<AddressModel, ConfigError>(config.addr)),
{
}

/// Loading fails exactly where the text that counts of a setting is not
/// well-formed, and with what is wrong with that text.
pub proof fn lemma_load_fails_on_malformed_setting(
    flag_addr: Option<Seq<u8>>,
    env_addr: Option<Seq<u8>>,
    flag_port: Option<Seq<u8>>,
    env_port: Option<Seq<u8>>,
)
    ensures
        loaded(flag_addr, env_addr, flag_port, env_port) is Err <==> (preferred(flag_addr, env_addr) matches Some(
            text,
        ) && address_of(text) is Err) || (preferred(flag_port, env_port) matches Some(text) && port_of(text) is Err),
{
}

} // verus!
