//! Settings, as they are read from the environment: a setting that is missing or makes no sense has
//! its default value.

use vstd::prelude::*;
use vstd::string::StringExecFns;

use crate::http_api::{DEFAULT_DATA_DIR, DEFAULT_HTTP_PORT};
use crate::text::{begins_with, natural_value, parse_natural, starts_with};

verus! {

pub const ENV_NAME_HTTP_PORT: &'static str = "HTTP_ENDPOINT_PORT";

pub const DEFAULT_REMOC_PORT: u16 = 3031;

pub const DEFAULT_REMOC_PORT_NAME: &'static str = "tcp-remoc";

pub const ENV_NAME_REMOC_PORT: &'static str = "CLUSTER_COM_PORT";

pub const ENV_NAME_REMOC_PORT_NAME: &'static str = "CLUSTER_COM_PORT_NAME";

pub const ENV_NAME_BUNDLE_SIZE: &'static str = "REQUEST_BUNDLE_SIZE";

pub const DEFAULT_REQUEST_BUNDLE_SIZE: usize = 50;

pub const ENV_NAME_WAIT_ON_NO_CONNECTION: &'static str = "WAIT_ON_NO_CONNECTION";

pub const DEFAULT_WAIT_ON_NO_CONNECTION: u64 = 100;

pub const ENV_NAME_POOL_CONNECTION_TIMEOUT: &'static str = "POOL_CONNECTION_TIMEOUT";

pub const DEFAULT_POOL_CONNECTION_TIMEOUT: u64 = 1000;

pub const ENV_NAME_DATA_DIR: &'static str = "DATA_DIR";

pub const ENV_NAME_CLUSTER_UPDATE_INTERVAL: &'static str = "CLUSTER_UPDATE_INTERVAL";

pub const ENV_NAME_CLUSTER_ELECTION_TIMEOUT: &'static str = "CLUSTER_ELECTION_TIMEOUT";

pub const ENV_NAME_CLUSTER_MAX_NODE: &'static str = "CLUSTER_MAX_NODE";

pub const ENV_NAME_CLUSTER_MIN_NODE: &'static str = "CLUSTER_MIN_NODE";

/// The number that a setting gives, where it is at most `max`.
pub open spec fn setting(value: Option<&str>, max: nat) -> Option<nat> {
    match value {
        Some(text) => match natural_value(text@) {
            Some(n) => if n <= max {
                Some(n)
            } else {
                None
            },
            None => None,
        },
        None => None,
    }
}

/// The number that a setting gives, or the default.
pub open spec fn setting_or(value: Option<&str>, max: nat, default: nat) -> nat {
    match setting(value, max) {
        Some(n) => n,
        None => default,
    }
}

fn read_setting(value: Option<&str>, max: u64) -> (r: Option<u64>)
    ensures
        match r {
            Some(n) => setting(value, max as nat) == Some(n as nat) && n <= max,
            None => setting(value, max as nat) is None,
        },
{
    match value {
        Some(text) => parse_natural(text, max),
        None => None,
    }
}

fn read_setting_or(value: Option<&str>, max: u64, default: u64) -> (r: u64)
    requires
        default <= max,
    ensures
        r == setting_or(value, max as nat, default as nat),
        r <= max,
{
    match read_setting(value, max) {
        Some(n) => n,
        None => default,
    }
}

/// The port of the HTTP interface.
pub fn http_port(value: Option<&str>) -> (r: u16)
    ensures
        r == setting_or(value, u16::MAX as nat, DEFAULT_HTTP_PORT as nat),
{
    read_setting_or(value, u16::MAX as u64, DEFAULT_HTTP_PORT as u64) as u16
}

/// The port at which nodes of a cluster talk to each other.
pub fn remoc_port(value: Option<&str>) -> (r: u16)
    ensures
        r == setting_or(value, u16::MAX as nat, DEFAULT_REMOC_PORT as nat),
{
    read_setting_or(value, u16::MAX as u64, DEFAULT_REMOC_PORT as u64) as u16
}

/// The name of that port.
pub fn remoc_port_name(value: Option<&str>) -> (r: String)
    ensures
        r@ == (match value {
            Some(name) => name@,
            None => DEFAULT_REMOC_PORT_NAME@,
        }),
{
    match value {
        Some(name) => name.to_owned(),
        None => DEFAULT_REMOC_PORT_NAME.to_owned(),
    }
}

/// How many requests are sent in a bundle.
pub fn request_bundle_size(value: Option<&str>) -> (r: usize)
    ensures
        r == setting_or(value, usize::MAX as nat, DEFAULT_REQUEST_BUNDLE_SIZE as nat),
{
    read_setting_or(value, usize::MAX as u64, DEFAULT_REQUEST_BUNDLE_SIZE as u64) as usize
}

/// How long to wait where no connection is free, in milliseconds.
pub fn wait_on_no_connection(value: Option<&str>) -> (r: u64)
    ensures
        r == setting_or(value, u64::MAX as nat, DEFAULT_WAIT_ON_NO_CONNECTION as nat),
{
    read_setting_or(value, u64::MAX, DEFAULT_WAIT_ON_NO_CONNECTION)
}

/// How long opening a connection may take, in milliseconds.
pub fn pool_connection_timeout(value: Option<&str>) -> (r: u64)
    ensures
        r == setting_or(value, u64::MAX as nat, DEFAULT_POOL_CONNECTION_TIMEOUT as nat),
{
    read_setting_or(value, u64::MAX, DEFAULT_POOL_CONNECTION_TIMEOUT)
}

/// The directory of request files as it is set.
pub fn data_dir(value: Option<&str>) -> (r: String)
    ensures
        r@ == (match value {
            Some(dir) => dir@,
            None => DEFAULT_DATA_DIR@,
        }),
{
    match value {
        Some(dir) => dir.to_owned(),
        None => DEFAULT_DATA_DIR.to_owned(),
    }
}

/// The directory of request files, from the root of the file system.
pub fn data_dir_path(value: Option<&str>) -> (r: String)
    ensures
        r@ == (match value {
            Some(dir) => if begins_with(dir@, "/"@) {
                dir@
            } else {
                "/"@ + dir@
            },
            None => DEFAULT_DATA_DIR@,
        }),
{
    match value {
        Some(dir) => if starts_with(dir, "/") {
            dir.to_owned()
        } else {
            let mut r = "/".to_owned();
            r.append(dir);
            r
        },
        None => DEFAULT_DATA_DIR.to_owned(),
    }
}

/// The settings of a cluster: times in milliseconds, and how many nodes it has.
#[derive(Clone, Copy, Debug, PartialEq, Eq, Structural)]
pub struct ClusterSettings {
    pub update_interval: u64,
    pub election_timeout: u64,
    pub max_node: usize,
    pub min_node: usize,
}

/// The number that a setting gives, where it is above `min` and at most `max`.
pub open spec fn setting_above(value: Option<&str>, min: nat, max: nat) -> Option<nat> {
    match setting(value, max) {
        Some(n) => if n > min {
            Some(n)
        } else {
            None
        },
        None => None,
    }
}

fn read_setting_above(value: Option<&str>, min: u64, max: u64) -> (r: Option<u64>)
    ensures
        match r {
            Some(n) => setting_above(value, min as nat, max as nat) == Some(n as nat) && n <= max,
            None => setting_above(value, min as nat, max as nat) is None,
        },
{
    match read_setting(value, max) {
        Some(n) => if n > min {
            Some(n)
        } else {
            None
        },
        None => None,
    }
}

/// A time in milliseconds that is set in seconds; it must be above ten seconds.
pub open spec fn millis_or(value: Option<&str>, default: u64) -> nat {
    match setting_above(value, 10, u64::MAX as nat) {
        Some(n) => n * 1000,
        None => default as nat,
    }
}

/// A number of nodes; it must be above four.
pub open spec fn nodes_or(value: Option<&str>, default: usize) -> nat {
    match setting_above(value, 4, usize::MAX as nat) {
        Some(n) => n,
        None => default as nat,
    }
}

/// The settings of a cluster, where `defaults` stand for those that are not set.
pub fn cluster_config(
    defaults: ClusterSettings,
    update_interval: Option<&str>,
    election_timeout: Option<&str>,
    max_node: Option<&str>,
    min_node: Option<&str>,
) -> (r: ClusterSettings)
    requires
        millis_or(update_interval, defaults.update_interval) <= u64::MAX,
        millis_or(election_timeout, defaults.election_timeout) <= u64::MAX,
    ensures
        r.update_interval == millis_or(update_interval, defaults.update_interval),
        r.election_timeout == millis_or(election_timeout, defaults.election_timeout),
        r.max_node == nodes_or(max_node, defaults.max_node),
        r.min_node == nodes_or(min_node, defaults.min_node),
{
    let mut config = defaults;
    if let Some(n) = read_setting_above(update_interval, 10, u64::MAX) {
        config.update_interval = n * 1000;
    }
    if let Some(n) = read_setting_above(election_timeout, 10, u64::MAX) {
        config.election_timeout = n * 1000;
    }
    if let Some(n) = read_setting_above(max_node, 4, usize::MAX as u64) {
        config.max_node = n as usize;
    }
    if let Some(n) = read_setting_above(min_node, 4, usize::MAX as u64) {
        config.min_node = n as usize;
    }
    config
}

} // verus!
