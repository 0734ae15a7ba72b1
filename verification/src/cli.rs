//! Connection-target validation and the connection parameter record.
//!
//! The target is a `user@host:port` string whose host part must be a dotted
//! numeric address. Validation names exactly which shape expectation failed,
//! so the surrounding program can report it; building the connection record
//! requires a target that passed.

use vstd::prelude::*;

use crate::text::char_fields;
use crate::text::parse_u64;
use crate::text::spec_parse_u64;
use crate::text::split_at_char;

verus! {

/// How the remote session authenticates.
#[derive(Clone, Copy, PartialEq, Eq, Structural, Debug)]
pub enum ConnectionType {
    Agent,
    PrivateKey,
    Password,
}

/// Everything needed to open the remote session.
pub struct SshConnection<'a> {
    pub user: &'a str,
    pub hostname: &'a str,
    pub password: Option<&'a str>,
    pub private_key_path: Option<&'a str>,
    pub interval: usize,
    pub connection_type: ConnectionType,
}

impl<'a> SshConnection<'a> {
    /// Bundles the connection parameters.
    pub fn new(
        user: &'a str,
        hostname: &'a str,
        password: Option<&'a str>,
        private_key_path: Option<&'a str>,
        interval: usize,
        connection_type: ConnectionType,
    ) -> (r: Self)
        ensures
            r == (SshConnection {
                user,
                hostname,
                password,
                private_key_path,
                interval,
                connection_type,
            }),
    {
        SshConnection { user, hostname, password, private_key_path, interval, connection_type }
    }
}

/// The command-line inputs: an optional private-key path, the connection
/// target, an optional password, and the sampling interval in seconds. The
/// two credentials are mutually exclusive, the key taking precedence;
/// with neither, agent-based authentication is used.
pub struct Cli {
    pub private_key_file: Option<String>,
    pub hostname: String,
    pub password: Option<String>,
    pub interval: usize,
}

/// Which shape expectation a connection target failed.
#[derive(Clone, Copy, PartialEq, Eq, Structural, Debug)]
pub enum TargetError {
    /// Not exactly one `@`.
    HostShape,
    /// The host part has not exactly one `:`.
    IpPortShape,
    /// The port is not an unsigned number.
    Port,
    /// The address part is not four dot-separated fields.
    IpShape,
    /// Some dotted field is not an unsigned number.
    IpDigits,
}

/// The first shape expectation a `user@host:port` target fails, if any: one
/// `@`, one `:` in the host part, a numeric port, four dot-separated address
/// fields, each numeric.
pub open spec fn spec_check_target(h: Seq<char>) -> Option<TargetError> {
    let at = split_at_char(h, '@');
    if at.len() != 2 {
        Some(TargetError::HostShape)
    } else {
        let ip_port = split_at_char(at[1], ':');
        if ip_port.len() != 2 {
            Some(TargetError::IpPortShape)
        } else if spec_parse_u64(ip_port[1]) is None {
            Some(TargetError::Port)
        } else {
            let ip = split_at_char(ip_port[0], '.');
            if ip.len() != 4 {
                Some(TargetError::IpShape)
            } else if !(spec_parse_u64(ip[0]) is Some && spec_parse_u64(ip[1]) is Some
                && spec_parse_u64(ip[2]) is Some && spec_parse_u64(ip[3]) is Some) {
                Some(TargetError::IpDigits)
            } else {
                None
            }
        }
    }
}

/// A target on which every shape expectation holds.
pub open spec fn valid_target(h: Seq<char>) -> bool {
    spec_check_target(h) is None
}

/// Checks a connection target and names the first failed expectation.
pub fn check_target(host: &str) -> (r: Option<TargetError>)
    ensures
        r == spec_check_target(host@),
{
    let ghost s_at = split_at_char(host@, '@');
    let at = char_fields(host, '@');
    if at.len() != 2 {
        return Some(TargetError::HostShape);
    }
    proof {
        assert(s_at[1] == at@[1]@);
    }
    let ghost s_ip_port = split_at_char(s_at[1], ':');
    let ip_port = char_fields(at[1], ':');
    if ip_port.len() != 2 {
        return Some(TargetError::IpPortShape);
    }
    proof {
        assert(s_ip_port[0] == ip_port@[0]@);
        assert(s_ip_port[1] == ip_port@[1]@);
    }
    if parse_u64(ip_port[1]).is_none() {
        return Some(TargetError::Port);
    }
    let ghost s_ip = split_at_char(s_ip_port[0], '.');
    let ip = char_fields(ip_port[0], '.');
    if ip.len() != 4 {
        return Some(TargetError::IpShape);
    }
    proof {
        assert(s_ip[0] == ip@[0]@);
        assert(s_ip[1] == ip@[1]@);
        assert(s_ip[2] == ip@[2]@);
        assert(s_ip[3] == ip@[3]@);
    }
    let d0 = parse_u64(ip[0]).is_some();
    let d1 = parse_u64(ip[1]).is_some();
    let d2 = parse_u64(ip[2]).is_some();
    let d3 = parse_u64(ip[3]).is_some();
    if !(d0 && d1 && d2 && d3) {
        return Some(TargetError::IpDigits);
    }
    None
}

/// Splits a validated `user@host:port` target into the connection record,
/// picking the authentication the supplied credentials dictate: the private
/// key when given, else the password when given, else the agent.
pub fn validate_parameters<'a>(cli: &'a Cli) -> (r: SshConnection<'a>)
    requires
        valid_target(cli.hostname@),
    ensures
        r.user@ == split_at_char(cli.hostname@, '@')[0],
        r.hostname@ == split_at_char(cli.hostname@, '@')[1],
        r.interval == cli.interval,
        cli.private_key_file matches Some(k) ==> r.connection_type == ConnectionType::PrivateKey
            && (r.private_key_path matches Some(p) && p@ == k@) && r.password is None,
        cli.private_key_file is None ==> (cli.password matches Some(pw)
            ==> r.connection_type == ConnectionType::Password && (r.password matches Some(q) && q@
            == pw@) && r.private_key_path is None),
        cli.private_key_file is None && cli.password is None ==> r.connection_type
            == ConnectionType::Agent && r.password is None && r.private_key_path is None,
{
    let ghost s_at = split_at_char(cli.hostname@, '@');
    let at = char_fields(cli.hostname.as_str(), '@');
    proof {
        assert(at@.len() == s_at.len());
        assert(s_at[0] == at@[0]@);
        assert(s_at[1] == at@[1]@);
    }
    let user = at[0];
    let hostname = at[1];
    let interval = cli.interval;
    match &cli.private_key_file {
        Some(key) => SshConnection::new(
            user,
            hostname,
            None,
            Some(key.as_str()),
            interval,
            ConnectionType::PrivateKey,
        ),
        None => match &cli.password {
            Some(pw) => SshConnection::new(
                user,
                hostname,
                Some(pw.as_str()),
                None,
                interval,
                ConnectionType::Password,
            ),
            None => SshConnection::new(
                user,
                hostname,
                None,
                None,
                interval,
                ConnectionType::Agent,
            ),
        },
    }
}

} // verus!
