use vstd::prelude::*;

use crate::text::{count_char, count_char_exec, lemma_count_char_is_filter_len};

verus! {

/// Main command enum for ErgoProxy CLI
#[derive(Debug)]
pub enum Command {
    /// Start the proxy server
    Start(StartArgs),
    /// Stop the proxy server
    Stop,
    /// Show proxy status
    Status,
    /// Manage security features
    Security(SecurityArgs),
    /// Show or modify configuration
    Config(ConfigArgs),
}

/// Arguments for the start command
#[derive(Debug)]
pub struct StartArgs {
    /// Host address to bind to
    pub host: String,
    /// Port to listen on
    pub port: u16,
    /// Maximum number of connections in the pool
    pub pool_size: usize,
    /// Enable HTTP/2 support
    pub http2: bool,
    /// Enable WebSocket support
    pub websocket: bool,
    /// IP rotation interval in seconds
    pub ip_rotation: Option<u64>,
    /// Enable verbose logging
    pub verbose: bool,
}

/// Arguments for security-related commands
#[derive(Debug)]
pub struct SecurityArgs {
    pub command: SecurityCommand,
}

/// Security management commands
#[derive(Debug)]
pub enum SecurityCommand {
    /// IP rotation management
    Ip { action: IpAction },
    /// User-Agent rotation management
    Ua { action: UaAction },
}

/// IP management actions
#[derive(Debug)]
pub enum IpAction {
    /// Import IP list from file
    Import { path: String },
    /// Add single IP
    Add { ip: String },
    /// Show IP rotation status
    Status,
}

/// User-Agent management actions
#[derive(Debug)]
pub enum UaAction {
    /// Import User-Agent list from file
    Import { path: String },
    /// Add single User-Agent
    Add { ua: String },
    /// Show User-Agent rotation status
    Status,
}

/// Configuration related arguments
#[derive(Debug)]
pub struct ConfigArgs {
    pub action: ConfigAction,
}

/// Configuration actions
#[derive(Debug)]
pub enum ConfigAction {
    /// Show current configuration
    Show,
    /// Set configuration value
    SetValue { key: String, value: String },
}

/// Errors found in command-line arguments.
#[derive(Debug, Clone, PartialEq, Eq)]
pub enum CliError {
    InvalidConfig,
    InvalidIp,
    FileNotFound(String),
}

/// An IP address passes the basic check when splitting it at '.' gives four
/// parts, that is when it holds exactly three dots.
pub open spec fn has_four_parts(ip: Seq<char>) -> bool {
    count_char(ip, '.') == 3
}

impl StartArgs {
    /// Privileged ports (below 1024) are refused unless the build carries
    /// debug assertions, which `debug_build` tells.
    pub fn validate(&self, debug_build: bool) -> (r: Result<(), CliError>)
        ensures
            r == if self.port < 1024 && !debug_build {
                Err::<(), CliError>(CliError::InvalidConfig)
            } else {
                Ok::<(), CliError>(())
            },
    {
        if self.port < 1024 && !debug_build {
            return Err(CliError::InvalidConfig);
        }
        Ok(())
    }
}

impl IpAction {
    /// An import needs its file to exist, which `import_path_exists` tells;
    /// an added address needs four dot-separated parts.
    pub fn validate(&self, import_path_exists: bool) -> (r: Result<(), CliError>)
        ensures
            r == match self {
                IpAction::Import { path } => if import_path_exists {
                    Ok::<(), CliError>(())
                } else {
                    Err::<(), CliError>(CliError::FileNotFound(*path))
                },
                IpAction::Add { ip } => if has_four_parts(ip@) {
                    Ok::<(), CliError>(())
                } else {
                    Err::<(), CliError>(CliError::InvalidIp)
                },
                IpAction::Status => Ok::<(), CliError>(()),
            },
    {
        match self {
            IpAction::Import { path } => {
                if !import_path_exists {
                    return Err(CliError::FileNotFound(path.clone()));
                }
            },
            IpAction::Add { ip } => {
                if count_char_exec(ip.as_str(), '.') != 3 {
                    return Err(CliError::InvalidIp);
                }
            },
            IpAction::Status => {},
        }
        Ok(())
    }
}

/// An added address passes the check exactly when it holds three '.'
/// characters, whatever its length and its other characters; so two
/// addresses with as many dots get the same answer.
pub proof fn lemma_ip_check_counts_dots(ip: Seq<char>, other: Seq<char>)
    ensures
        has_four_parts(ip) <==> ip.filter(|x: char| x == '.').len() == 3,
        ip.filter(|x: char| x == '.').len() == other.filter(|x: char| x == '.').len() ==> (
        has_four_parts(ip) <==> has_four_parts(other)),
{
    lemma_count_char_is_filter_len(ip, '.');
    lemma_count_char_is_filter_len(other, '.');
}

} // verus!
