//! The configuration, read from environment variables.
use crate::numeral::{bounded_value, decimal, decimal_text, read_unsigned, unsigned_value};
use vstd::prelude::*;
use vstd::string::*;

verus! {

/// The endpoint that is polled unless another is named.
pub const DEFAULT_RPC_URL: &'static str = "http://host.docker.internal:8548";

/// The host that the HTTP API listens on unless another is named.
pub const DEFAULT_LISTEN_HOST: &'static str = "0.0.0.0";

/// The number of entries that are retained unless another is named.
pub const DEFAULT_HISTORY_SIZE: usize = 5000;

/// The port that the HTTP API listens on unless another is named.
pub const DEFAULT_LISTEN_PORT: u16 = 28881;

/// The number of worker threads unless another is named.
pub const DEFAULT_WEB_WORKERS: usize = 4;

/// What the collector is told by its environment.
#[derive(Clone, Debug)]
pub struct Config {
    pub rpc_url: String,
    pub history_size: usize,
    pub listen_host: String,
    pub listen_port: u16,
    pub web_workers: usize,
}

impl Config {
    /// The invariant of a configuration: its numbers are positive.
    pub open spec fn wf(&self) -> bool {
        &&& self.history_size > 0
        &&& self.listen_port > 0
        &&& self.web_workers > 0
    }
}

/// The environment variables as they are set, if they are.
#[derive(Clone, Debug)]
pub struct EnvVars {
    pub batcher_rpc_url: Option<String>,
    pub history_size: Option<String>,
    pub collector_listen_host: Option<String>,
    pub collector_listen_port: Option<String>,
    pub collector_web_workers: Option<String>,
}

/// The environment variables that hold a number.
#[derive(Clone, Copy, Debug, PartialEq, Eq, Structural)]
pub enum NumberVar {
    HistorySize,
    CollectorListenPort,
    CollectorWebWorkers,
}

impl NumberVar {
    /// The name of the variable.
    pub open spec fn spec_name(self) -> Seq<char> {
        match self {
            NumberVar::HistorySize => "HISTORY_SIZE"@,
            NumberVar::CollectorListenPort => "COLLECTOR_LISTEN_PORT"@,
            NumberVar::CollectorWebWorkers => "COLLECTOR_WEB_WORKERS"@,
        }
    }

    /// The largest number that the variable may hold.
    pub open spec fn spec_max(self) -> u64 {
        match self {
            NumberVar::CollectorListenPort => u16::MAX as u64,
            _ => usize::MAX as u64,
        }
    }

    /// The name of the variable.
    pub fn name(self) -> (name: &'static str)
        ensures
            name@ == self.spec_name(),
    {
        match self {
            NumberVar::HistorySize => "HISTORY_SIZE",
            NumberVar::CollectorListenPort => "COLLECTOR_LISTEN_PORT",
            NumberVar::CollectorWebWorkers => "COLLECTOR_WEB_WORKERS",
        }
    }

    /// The largest number that the variable may hold.
    pub fn max(self) -> (max: u64)
        ensures
            max == self.spec_max(),
    {
        match self {
            NumberVar::CollectorListenPort => u16::MAX as u64,
            _ => usize::MAX as u64,
        }
    }
}

/// A variable does not hold a positive number in its range.
#[derive(Clone, Debug)]
pub struct ConfigError {
    pub variable: NumberVar,
    pub value: String,
}

impl ConfigError {
    /// What is wrong, naming the variable.
    pub open spec fn text(self) -> Seq<char> {
        self.variable.spec_name() + " must be a positive integer up to "@ + decimal_text(
            self.variable.spec_max() as nat,
        ) + ", not '"@ + self.value@ + "'"@
    }

    /// What is wrong, naming the variable.
    pub fn message(&self) -> (message: String)
        ensures
            message@ == self.text(),
    {
        let mut message = self.variable.name().to_owned();
        message.append(" must be a positive integer up to ");
        message.append(decimal(self.variable.max() as u128).as_str());
        message.append(", not '");
        message.append(self.value.as_str());
        message.append("'");
        message
    }
}

/// The positive number that a variable holds: the default where it is not set, nothing
/// where it is set to anything but a positive integer in its range.
pub open spec fn number_setting(variable: NumberVar, value: Option<Seq<char>>, default: u64) -> Option<
    u64,
> {
    match value {
        None => Some(default),
        Some(text) => match bounded_value(text, variable.spec_max()) {
            Some(n) if n > 0 => Some(n),
            _ => None,
        },
    }
}

/// The text that a variable holds, or the default.
pub open spec fn text_setting(value: Option<Seq<char>>, default: Seq<char>) -> Seq<char> {
    match value {
        Some(text) => text,
        None => default,
    }
}

/// The text of an optional string.
pub open spec fn optional_view(value: Option<String>) -> Option<Seq<char>> {
    match value {
        Some(text) => Some(text@),
        None => None,
    }
}

impl EnvVars {
    /// The raw value of a variable that holds a number.
    pub open spec fn raw(self, variable: NumberVar) -> Option<Seq<char>> {
        match variable {
            NumberVar::HistorySize => optional_view(self.history_size),
            NumberVar::CollectorListenPort => optional_view(self.collector_listen_port),
            NumberVar::CollectorWebWorkers => optional_view(self.collector_web_workers),
        }
    }

    /// The number that a variable is taken as.
    pub open spec fn number(self, variable: NumberVar) -> Option<u64> {
        number_setting(
            variable,
            self.raw(variable),
            match variable {
                NumberVar::HistorySize => DEFAULT_HISTORY_SIZE as u64,
                NumberVar::CollectorListenPort => DEFAULT_LISTEN_PORT as u64,
                NumberVar::CollectorWebWorkers => DEFAULT_WEB_WORKERS as u64,
            },
        )
    }

    /// The first variable that does not hold a positive number in its range.
    pub open spec fn first_invalid(self) -> Option<NumberVar> {
        if self.number(NumberVar::HistorySize) is None {
            Some(NumberVar::HistorySize)
        } else if self.number(NumberVar::CollectorListenPort) is None {
            Some(NumberVar::CollectorListenPort)
        } else if self.number(NumberVar::CollectorWebWorkers) is None {
            Some(NumberVar::CollectorWebWorkers)
        } else {
            None
        }
    }
}

/// The endpoint that is polled unless another is named.
pub fn default_rpc_url() -> (url: String)
    ensures
        url@ == "http://host.docker.internal:8548"@,
{
    DEFAULT_RPC_URL.to_owned()
}

/// The host that the HTTP API listens on unless another is named.
pub fn default_listen_host() -> (host: String)
    ensures
        host@ == "0.0.0.0"@,
{
    DEFAULT_LISTEN_HOST.to_owned()
}

/// The number of entries that are retained unless another is named.
pub fn default_history_size() -> (size: usize)
    ensures
        size == 5000,
{
    DEFAULT_HISTORY_SIZE
}

/// The port that the HTTP API listens on unless another is named.
pub fn default_listen_port() -> (port: u16)
    ensures
        port == 28881,
{
    DEFAULT_LISTEN_PORT
}

/// The number of worker threads unless another is named.
pub fn default_web_workers() -> (workers: usize)
    ensures
        workers == 4,
{
    DEFAULT_WEB_WORKERS
}

/// Reads a variable that holds a number.
fn read_number(variable: NumberVar, value: &Option<String>, default: u64) -> (number: Result<
    u64,
    ConfigError,
>)
    requires
        0 < default <= variable.spec_max(),
    ensures
        match number {
            Ok(n) => number_setting(variable, optional_view(*value), default) == Some(n) && 0 < n
                <= variable.spec_max(),
            Err(error) => number_setting(variable, optional_view(*value), default) is None
                && error.variable == variable && optional_view(*value) == Some(error.value@),
        },
{
    match value {
        None => Ok(default),
        Some(text) => match read_unsigned(text.as_str(), variable.max()) {
            Some(n) if n > 0 => Ok(n),
            _ => Err(ConfigError { variable, value: text.clone() }),
        },
    }
}

/// The configuration that the environment variables ask for. It is an error if a variable
/// holds anything but a positive integer in its range.
pub fn create_config(vars: EnvVars) -> (config: Result<Config, ConfigError>)
    ensures
        match config {
            Ok(config) => {
                &&& vars.first_invalid() is None
                &&& config.wf()
                &&& config.rpc_url@ == text_setting(
                    optional_view(vars.batcher_rpc_url),
                    "http://host.docker.internal:8548"@,
                )
                &&& config.listen_host@ == text_setting(
                    optional_view(vars.collector_listen_host),
                    "0.0.0.0"@,
                )
                &&& Some(config.history_size as u64) == vars.number(NumberVar::HistorySize)
                &&& Some(config.listen_port as u64) == vars.number(NumberVar::CollectorListenPort)
                &&& Some(config.web_workers as u64) == vars.number(NumberVar::CollectorWebWorkers)
            },
            Err(error) => {
                &&& vars.first_invalid() == Some(error.variable)
                &&& vars.raw(error.variable) == Some(error.value@)
            },
        },
{
    let history_size = match read_number(
        NumberVar::HistorySize,
        &vars.history_size,
        default_history_size() as u64,
    ) {
        Ok(n) => n as usize,
        Err(error) => return Err(error),
    };
    let listen_port = match read_number(
        NumberVar::CollectorListenPort,
        &vars.collector_listen_port,
        default_listen_port() as u64,
    ) {
        Ok(n) => n as u16,
        Err(error) => return Err(error),
    };
    let web_workers = match read_number(
        NumberVar::CollectorWebWorkers,
        &vars.collector_web_workers,
        default_web_workers() as u64,
    ) {
        Ok(n) => n as usize,
        Err(error) => return Err(error),
    };
    let rpc_url = match vars.batcher_rpc_url {
        Some(url) => url,
        None => default_rpc_url(),
    };
    let listen_host = match vars.collector_listen_host {
        Some(host) => host,
        None => default_listen_host(),
    };
    Ok(Config { rpc_url, history_size, listen_host, listen_port, web_workers })
}

/// A number variable that is set to zero, to a number out of its range or to no number at
/// all makes the configuration an error.
pub proof fn only_positive_numbers_are_accepted(vars: EnvVars, variable: NumberVar, text: Seq<char>)
    requires
        vars.raw(variable) == Some(text),
        match unsigned_value(text) {
            Some(n) => n == 0 || n > variable.spec_max(),
            None => true,
        },
    ensures
        vars.first_invalid() matches Some(refused) && vars.number(refused) is None,
{
}

} // verus!
