//! What the SFU reads from its environment.
use vstd::prelude::*;
use vstd::string::*;

use crate::net::{Endpoint, Ip};
use crate::text::{
    after_last, bounded_number, lowered, lowers_to, number_value, rest_after_last, trim, trimmed,
};

verus! {

/// Everything the SFU reads from the environment, resolved once at boot.
///
/// `public_ip` is the address that ends up in the ICE host candidate we hand
/// browsers. On a VPS that is the box's own public IPv4, so it must be stated
/// explicitly: guessing from the default route works for a laptop and is wrong
/// behind any kind of NAT.
#[derive(Debug)]
pub struct Config {
    pub http_bind: Endpoint,
    pub udp_bind: Endpoint,
    pub public_ip: Ip,
    pub shared_secret: String,
    /// Where room lifecycle events are POSTed. The only coupling to a host
    /// application, and it is optional: with no URL the SFU simply runs and
    /// reports nothing.
    pub webhook_url: Option<String>,
    pub webhook_secret: String,
    pub ice_lite: bool,
    pub max_room_peers: usize,
}

#[verifier::ext_equal]
pub struct ConfigView {
    pub http_bind: Endpoint,
    pub udp_bind: Endpoint,
    pub public_ip: Ip,
    pub shared_secret: Seq<char>,
    pub webhook_url: Option<Seq<char>>,
    pub webhook_secret: Seq<char>,
    pub ice_lite: bool,
    pub max_room_peers: usize,
}

impl View for Config {
    type V = ConfigView;

    open spec fn view(&self) -> ConfigView {
        ConfigView {
            http_bind: self.http_bind,
            udp_bind: self.udp_bind,
            public_ip: self.public_ip,
            shared_secret: self.shared_secret@,
            webhook_url: value_of(self.webhook_url),
            webhook_secret: self.webhook_secret@,
            ice_lite: self.ice_lite,
            max_room_peers: self.max_room_peers,
        }
    }
}

impl Clone for Config {
    fn clone(&self) -> (copy: Self)
        ensures
            copy@ == self@,
    {
        Config {
            http_bind: self.http_bind,
            udp_bind: self.udp_bind,
            public_ip: self.public_ip,
            shared_secret: self.shared_secret.clone(),
            webhook_url: match &self.webhook_url {
                Some(url) => Some(url.clone()),
                None => None,
            },
            webhook_secret: self.webhook_secret.clone(),
            ice_lite: self.ice_lite,
            max_room_peers: self.max_room_peers,
        }
    }
}

#[derive(Debug)]
pub enum ConfigError {
    /// A variable that has to be set is not.
    Missing(&'static str),
    /// A value is not what it should be.
    Invalid(String, &'static str),
}

#[verifier::ext_equal]
pub enum ConfigErrorView {
    Missing(Seq<char>),
    Invalid(Seq<char>, Seq<char>),
}

impl View for ConfigError {
    type V = ConfigErrorView;

    open spec fn view(&self) -> ConfigErrorView {
        match *self {
            ConfigError::Missing(key) => ConfigErrorView::Missing(key@),
            ConfigError::Invalid(value, what) => ConfigErrorView::Invalid(value@, what@),
        }
    }
}

impl ConfigErrorView {
    /// The error in words.
    pub open spec fn words(self) -> Seq<char> {
        match self {
            ConfigErrorView::Missing(key) => key + " is required"@,
            ConfigErrorView::Invalid(value, what) => value + " is not a valid "@ + what,
        }
    }
}

impl ConfigError {
    pub fn message(&self) -> (message: String)
        ensures
            message@ == self@.words(),
    {
        match self {
            ConfigError::Missing(key) => {
                let mut message = (*key).to_string();
                message.append(" is required");
                message
            },
            ConfigError::Invalid(value, what) => {
                let mut message = value.clone();
                message.append(" is not a valid ");
                message.append(what);
                message
            },
        }
    }
}

/// The variables the SFU reads, as far as they are set.
#[derive(Debug)]
pub struct Environment {
    /// `SFU_BIND_HTTP`
    pub bind_http: Option<String>,
    /// `SFU_BIND_UDP`
    pub bind_udp: Option<String>,
    /// `SFU_PUBLIC_IP`
    pub public_ip: Option<String>,
    /// `SFU_SHARED_SECRET`
    pub shared_secret: Option<String>,
    /// `SFU_WEBHOOK_URL`
    pub webhook_url: Option<String>,
    /// `SFU_WEBHOOK_SECRET`
    pub webhook_secret: Option<String>,
    /// `SFU_ICE_LITE`
    pub ice_lite: Option<String>,
    /// `SFU_MAX_ROOM_PEERS`
    pub max_room_peers: Option<String>,
}

pub const DEFAULT_BIND_HTTP: &'static str = "0.0.0.0:7898";

pub const DEFAULT_BIND_UDP: &'static str = "0.0.0.0:7899";

pub const DEFAULT_ROOM_PEERS: u64 = 16;

pub const MIN_ROOM_PEERS: u64 = 2;

pub const MAX_ROOM_PEERS: u64 = 64;

/// The text of a variable.
pub open spec fn value_of(variable: Option<String>) -> Option<Seq<char>> {
    match variable {
        Some(value) => Some(value@),
        None => None,
    }
}

/// The text of a variable, or what stands in for it.
pub open spec fn value_or(variable: Option<String>, fallback: Seq<char>) -> Seq<char> {
    match variable {
        Some(value) => value@,
        None => fallback,
    }
}

/// A variable that says something, without the blanks around it.
pub open spec fn stated(variable: Option<String>) -> Option<Seq<char>> {
    match variable {
        Some(value) => if trimmed(value@).len() > 0 {
            Some(trimmed(value@))
        } else {
            None
        },
        None => None,
    }
}

/// A switch is on.
pub open spec fn is_on(variable: Option<String>) -> bool {
    match variable {
        Some(value) => {
            let word = lowered(trimmed(value@));
            word == "1"@ || word == "true"@ || word == "yes"@
        },
        None => false,
    }
}

/// A number within bounds, or the fallback.
pub open spec fn number_or(variable: Option<String>, min: u64, max: u64, fallback: u64) -> nat {
    match variable {
        Some(value) => match number_value(trimmed(value@)) {
            Some(n) => if min <= n && n <= max {
                n
            } else {
                fallback as nat
            },
            None => fallback as nat,
        },
        None => fallback as nat,
    }
}

/// The configuration an environment describes, given what its addresses read
/// as: nothing where they cannot be read. The first thing amiss decides.
pub open spec fn config_in(
    env: Environment,
    http: Option<Endpoint>,
    udp: Option<Endpoint>,
    ip: Option<Ip>,
) -> Result<ConfigView, ConfigErrorView> {
    if http is None {
        Err(ConfigErrorView::Invalid(value_or(env.bind_http, DEFAULT_BIND_HTTP@), "socket address"@))
    } else if udp is None {
        Err(ConfigErrorView::Invalid(value_or(env.bind_udp, DEFAULT_BIND_UDP@), "socket address"@))
    } else {
        match stated(env.shared_secret) {
            None => Err(ConfigErrorView::Missing("SFU_SHARED_SECRET"@)),
            Some(secret) => if ip is None {
                Err(ConfigErrorView::Invalid(value_or(env.public_ip, Seq::empty()), "IP address"@))
            } else {
                Ok(ConfigView {
                    http_bind: http->0,
                    udp_bind: udp->0,
                    public_ip: ip->0,
                    shared_secret: secret,
                    webhook_url: stated(env.webhook_url),
                    webhook_secret: match stated(env.webhook_secret) {
                        Some(own) => own,
                        None => secret,
                    },
                    ice_lite: is_on(env.ice_lite),
                    max_room_peers: number_or(
                        env.max_room_peers,
                        MIN_ROOM_PEERS,
                        MAX_ROOM_PEERS,
                        DEFAULT_ROOM_PEERS,
                    ) as usize,
                })
            },
        }
    }
}

/// The view of an outcome of reading the environment.
pub open spec fn config_view(
    config: Result<Config, ConfigError>,
) -> Result<ConfigView, ConfigErrorView> {
    match config {
        Ok(config) => Ok(config@),
        Err(error) => Err(error@),
    }
}

fn read_stated(variable: &Option<String>) -> (value: Option<String>)
    ensures
        value_of(value) == stated(*variable),
{
    match variable {
        Some(value) => {
            let text = trim(value.as_str());
            if text.unicode_len() > 0 {
                Some(text.to_string())
            } else {
                None
            }
        },
        None => None,
    }
}

fn read_or(variable: &Option<String>, fallback: &str) -> (value: String)
    ensures
        value@ == value_or(*variable, fallback@),
{
    match variable {
        Some(value) => value.clone(),
        None => fallback.to_string(),
    }
}

fn flag(variable: &Option<String>) -> (on: bool)
    ensures
        on == is_on(*variable),
{
    match variable {
        Some(value) => {
            let word = trim(value.as_str());
            lowers_to(word, "1") || lowers_to(word, "true") || lowers_to(word, "yes")
        },
        None => false,
    }
}

fn number(variable: &Option<String>, fallback: u64, min: u64, max: u64) -> (n: u64)
    ensures
        n == number_or(*variable, min, max, fallback),
{
    match variable {
        Some(value) => match bounded_number(trim(value.as_str()), min, max) {
            Some(n) => n,
            None => fallback,
        },
        None => fallback,
    }
}

impl Environment {
    /// What has to read as the address signaling is served on.
    pub fn http_address(&self) -> (text: String)
        ensures
            text@ == trimmed(value_or(self.bind_http, DEFAULT_BIND_HTTP@)),
    {
        trim(read_or(&self.bind_http, DEFAULT_BIND_HTTP).as_str()).to_string()
    }

    /// What has to read as the address media is received on.
    pub fn udp_address(&self) -> (text: String)
        ensures
            text@ == trimmed(value_or(self.bind_udp, DEFAULT_BIND_UDP@)),
    {
        trim(read_or(&self.bind_udp, DEFAULT_BIND_UDP).as_str()).to_string()
    }

    /// What has to read as our public address, if it is stated; it is to be
    /// guessed otherwise.
    pub fn public_address(&self) -> (text: Option<String>)
        ensures
            value_of(text) == stated(self.public_ip),
    {
        read_stated(&self.public_ip)
    }

    /// The port a health probe asks, as it stands in the signaling address.
    pub fn health_port(&self) -> (port: String)
        ensures
            port@ == after_last(value_or(self.bind_http, DEFAULT_BIND_HTTP@), ':'),
    {
        rest_after_last(read_or(&self.bind_http, DEFAULT_BIND_HTTP).as_str(), ':').to_string()
    }
}

impl Config {
    /// Resolves an environment, given what its addresses read as.
    pub fn from_env(
        env: &Environment,
        http: Option<Endpoint>,
        udp: Option<Endpoint>,
        ip: Option<Ip>,
    ) -> (config: Result<Self, ConfigError>)
        ensures
            config_view(config) == config_in(*env, http, udp, ip),
    {
        let http_bind = match http {
            Some(http) => http,
            None => {
                return Err(
                    ConfigError::Invalid(
                        read_or(&env.bind_http, DEFAULT_BIND_HTTP),
                        "socket address",
                    ),
                );
            },
        };
        let udp_bind = match udp {
            Some(udp) => udp,
            None => {
                return Err(
                    ConfigError::Invalid(read_or(&env.bind_udp, DEFAULT_BIND_UDP), "socket address"),
                );
            },
        };
        let shared_secret = match read_stated(&env.shared_secret) {
            Some(secret) => secret,
            None => {
                return Err(ConfigError::Missing("SFU_SHARED_SECRET"));
            },
        };
        let webhook_url = read_stated(&env.webhook_url);
        let webhook_secret = match read_stated(&env.webhook_secret) {
            Some(secret) => secret,
            None => shared_secret.clone(),
        };
        let public_ip = match ip {
            Some(ip) => ip,
            None => {
                proof {
                    reveal_strlit("");
                    assert(""@ =~= Seq::empty());
                }
                return Err(ConfigError::Invalid(read_or(&env.public_ip, ""), "IP address"));
            },
        };
        let max_room_peers = number(
            &env.max_room_peers,
            DEFAULT_ROOM_PEERS,
            MIN_ROOM_PEERS,
            MAX_ROOM_PEERS,
        );
        Ok(
            Config {
                http_bind,
                udp_bind,
                public_ip,
                shared_secret,
                webhook_url,
                webhook_secret,
                ice_lite: flag(&env.ice_lite),
                max_room_peers: max_room_peers as usize,
            },
        )
    }

    /// The address a browser is told to send media to.
    pub fn advertised_udp(&self, bound: Endpoint) -> (advertised: Endpoint)
        ensures
            advertised == (Endpoint { ip: self@.public_ip, port: bound.port }),
    {
        Endpoint { ip: self.public_ip, port: bound.port }
    }
}

/// Every configuration lets at least two, and at most sixty-four, into a room.
pub proof fn room_size_is_bounded(
    env: Environment,
    http: Option<Endpoint>,
    udp: Option<Endpoint>,
    ip: Option<Ip>,
)
    ensures
        config_in(env, http, udp, ip) matches Ok(config) ==> MIN_ROOM_PEERS <= config.max_room_peers
            <= MAX_ROOM_PEERS,
{
}

/// Without a secret there is no configuration, and the webhook secret is the
/// shared one unless it is stated.
pub proof fn secret_is_required(
    env: Environment,
    http: Option<Endpoint>,
    udp: Option<Endpoint>,
    ip: Option<Ip>,
)
    ensures
        stated(env.shared_secret) is None ==> config_in(env, http, udp, ip) is Err,
        config_in(env, http, udp, ip) matches Ok(config) ==> {
            &&& config.shared_secret.len() > 0
            &&& stated(env.webhook_secret) is None ==> config.webhook_secret == config.shared_secret
        },
{
}

/// What a variable that is set says between its blanks, if it says anything.
pub open spec fn says(variable: Option<String>, text: Seq<char>) -> bool {
    &&& variable is Some
    &&& text == trimmed(variable->0@)
    &&& text.len() > 0
}

/// What an environment is configured to: the addresses as they read; the secret as it is
/// stated, without blanks; where to post reports, if that is stated; a secret of its own
/// for them, or else the shared one; ICE-lite where it says 1, true or yes, in capitals
/// or not; and room for as many as it says, if that is two to sixty-four, and for
/// sixteen otherwise.
pub proof fn the_environment_is_heeded(
    env: Environment,
    http: Option<Endpoint>,
    udp: Option<Endpoint>,
    ip: Option<Ip>,
)
    ensures
        config_in(env, http, udp, ip) is Ok <==> http is Some && udp is Some && ip is Some && exists|
            secret: Seq<char>,
        | #[trigger] says(env.shared_secret, secret),
        config_in(env, http, udp, ip) matches Ok(config) ==> {
            &&& http == Some(config.http_bind)
            &&& udp == Some(config.udp_bind)
            &&& ip == Some(config.public_ip)
            &&& says(env.shared_secret, config.shared_secret)
            &&& match config.webhook_url {
                Some(url) => says(env.webhook_url, url),
                None => forall|url: Seq<char>| !says(env.webhook_url, url),
            }
            &&& {
                ||| says(env.webhook_secret, config.webhook_secret)
                ||| (forall|own: Seq<char>| !says(env.webhook_secret, own)) && config.webhook_secret
                    == config.shared_secret
            }
            &&& config.ice_lite <==> env.ice_lite is Some && {
                let word = lowered(trimmed(env.ice_lite->0@));
                word == "1"@ || word == "true"@ || word == "yes"@
            }
            &&& match env.max_room_peers {
                Some(value) => match number_value(trimmed(value@)) {
                    Some(n) => config.max_room_peers == if 2 <= n <= 64 {
                        n
                    } else {
                        16
                    },
                    None => config.max_room_peers == 16,
                },
                None => config.max_room_peers == 16,
            }
        },
{
    if let Some(value) = env.shared_secret {
        if trimmed(value@).len() > 0 {
            assert(says(env.shared_secret, trimmed(value@)));
        }
    }
    if let Some(value) = env.webhook_url {
        if trimmed(value@).len() > 0 {
            assert(says(env.webhook_url, trimmed(value@)));
        }
    }
    if let Some(value) = env.webhook_secret {
        if trimmed(value@).len() > 0 {
            assert(says(env.webhook_secret, trimmed(value@)));
        }
    }
}

/// What is amiss in an environment is said in this order: the signaling address, the
/// media address, the secret, the public address. What was read, or would have been
/// without the variable, is said with it.
pub proof fn what_is_amiss_is_said(
    env: Environment,
    http: Option<Endpoint>,
    udp: Option<Endpoint>,
    ip: Option<Ip>,
)
    ensures
        config_in(env, http, udp, ip) matches Err(error) ==> {
            if http is None {
                error == ConfigErrorView::Invalid(
                    match env.bind_http {
                        Some(value) => value@,
                        None => "0.0.0.0:7898"@,
                    },
                    "socket address"@,
                )
            } else if udp is None {
                error == ConfigErrorView::Invalid(
                    match env.bind_udp {
                        Some(value) => value@,
                        None => "0.0.0.0:7899"@,
                    },
                    "socket address"@,
                )
            } else if forall|secret: Seq<char>| !says(env.shared_secret, secret) {
                error == ConfigErrorView::Missing("SFU_SHARED_SECRET"@)
            } else {
                error == ConfigErrorView::Invalid(
                    match env.public_ip {
                        Some(value) => value@,
                        None => Seq::empty(),
                    },
                    "IP address"@,
                )
            }
        },
{
    if let Some(value) = env.shared_secret {
        if trimmed(value@).len() > 0 {
            assert(says(env.shared_secret, trimmed(value@)));
        }
    }
}

/// An error names the variable that is missing, or the value and what it should be.
pub proof fn errors_are_worded(key: Seq<char>, value: Seq<char>, what: Seq<char>)
    ensures
        ConfigErrorView::Missing(key).words() == key + " is required"@,
        ConfigErrorView::Invalid(value, what).words() == value + " is not a valid "@ + what,
{
}

} // verus!
