//! Engine configuration: global limit and window, plus optional secondary
//! limit policies keyed by IP address or request path.

use vstd::prelude::*;

use crate::ip::{Ip, Ipv4Addr};
use crate::path::Path;

verus! {

/// Why a configuration is refused at startup.
#[derive(Clone, Copy, PartialEq, Eq, Structural, Debug)]
pub enum ConfigError {
    /// The global request limit is zero.
    ZeroLimit,
    /// The global window length is zero.
    ZeroWindowTime,
}

/// The optional secondary limit policies.
#[derive(Clone, Debug)]
pub struct Limits {
    path: Option<Path>,
    ip: Option<Ip>,
}

impl Limits {
    /// The path policy, if configured.
    pub closed spec fn spec_path(&self) -> Option<Path> {
        self.path
    }

    /// The IP policy, if configured.
    pub closed spec fn spec_ip(&self) -> Option<Ip> {
        self.ip
    }

    /// Secondary policies from their two optional parts.
    pub fn new(path: Option<Path>, ip: Option<Ip>) -> (r: Self)
        ensures
            r.spec_path() == path,
            r.spec_ip() == ip,
    {
        Limits { path, ip }
    }

    /// No secondary policy at all.
    fn empty() -> (r: Self)
        ensures
            r.spec_path() is None,
            r.spec_ip() is None,
    {
        Limits { path: None, ip: None }
    }
}

impl Default for Limits {
    /// Both policies present but with empty lists, so neither applies.
    fn default() -> (r: Self)
        ensures
            r.spec_path() matches Some(p) && p.spec_paths() == Some(Seq::<Seq<char>>::empty())
                && p.spec_limit() == Some(50u32) && p.spec_window_time() == Some(300u16),
            r.spec_ip() matches Some(ip) && ip.spec_ip_addresses() == Some(Seq::<Ipv4Addr>::empty())
                && ip.spec_limit() == Some(50u16) && ip.spec_window_time() == Some(300u16),
    {
        let paths: Vec<String> = Vec::new();
        let addrs: Vec<Ipv4Addr> = Vec::new();
        proof {
            assert(paths.deep_view() =~= Seq::<Seq<char>>::empty());
            assert(addrs@ =~= Seq::<Ipv4Addr>::empty());
        }
        Limits { path: Some(Path::new(paths, 50, 300)), ip: Some(Ip::new(addrs, 50, 300)) }
    }
}

/// Immutable-after-construction engine settings.
#[derive(Clone, Debug)]
pub struct Config {
    limit: u32,
    ip_addr_limit: u16,
    window_time: u16,
    port: Option<String>,
    host: Option<String>,
    limits: Option<Limits>,
}

impl Config {
    /// Maximum requests per identifier per window.
    pub closed spec fn spec_limit(&self) -> u32 {
        self.limit
    }

    /// Bound on unique IP addresses per identifier inside the window.
    pub closed spec fn spec_ip_addr_limit(&self) -> u16 {
        self.ip_addr_limit
    }

    /// Global sliding window length, in seconds.
    pub closed spec fn spec_window_time(&self) -> u16 {
        self.window_time
    }

    /// The port to serve on, as text.
    pub closed spec fn spec_port(&self) -> Option<Seq<char>> {
        match self.port {
            Some(p) => Some(p@),
            None => None,
        }
    }

    /// The host to serve on, as text.
    pub closed spec fn spec_host(&self) -> Option<Seq<char>> {
        match self.host {
            Some(h) => Some(h@),
            None => None,
        }
    }

    /// The secondary limit policies, if any.
    pub closed spec fn spec_limits(&self) -> Option<Limits> {
        self.limits
    }

    /// Whether a path policy is configured.
    pub open spec fn spec_limit_path_is_some(&self) -> bool {
        self.spec_limits() matches Some(l) && l.spec_path() is Some
    }

    /// Whether an IP policy is configured.
    pub open spec fn spec_limit_ip_is_some(&self) -> bool {
        self.spec_limits() matches Some(l) && l.spec_ip() is Some
    }

    /// The limited paths of the path policy, when both are configured.
    pub open spec fn spec_limited_paths(&self) -> Option<Seq<Seq<char>>> {
        match self.spec_limits() {
            Some(l) => match l.spec_path() {
                Some(p) => p.spec_paths(),
                None => None,
            },
            None => None,
        }
    }

    /// The limit of the path policy, when both are configured.
    pub open spec fn spec_path_limit(&self) -> Option<u32> {
        match self.spec_limits() {
            Some(l) => match l.spec_path() {
                Some(p) => p.spec_limit(),
                None => None,
            },
            None => None,
        }
    }

    /// The window of the path policy, when both are configured.
    pub open spec fn spec_path_window_time(&self) -> Option<u16> {
        match self.spec_limits() {
            Some(l) => match l.spec_path() {
                Some(p) => p.spec_window_time(),
                None => None,
            },
            None => None,
        }
    }

    /// The watch-listed addresses of the IP policy, when both are configured.
    pub open spec fn spec_limited_ip_addresses(&self) -> Option<Seq<Ipv4Addr>> {
        match self.spec_limits() {
            Some(l) => match l.spec_ip() {
                Some(ip) => ip.spec_ip_addresses(),
                None => None,
            },
            None => None,
        }
    }

    /// The bound of the IP policy, when both are configured.
    pub open spec fn spec_ip_addresses_limit(&self) -> Option<u16> {
        match self.spec_limits() {
            Some(l) => match l.spec_ip() {
                Some(ip) => ip.spec_limit(),
                None => None,
            },
            None => None,
        }
    }

    /// The window of the IP policy, when both are configured.
    pub open spec fn spec_ip_addresses_window_time(&self) -> Option<u16> {
        match self.spec_limits() {
            Some(l) => match l.spec_ip() {
                Some(ip) => ip.spec_window_time(),
                None => None,
            },
            None => None,
        }
    }

    /// Settings from their optional parts; absent parts take the defaults
    /// `limit 50`, `ip_addr_limit 16`, `window_time 300`, `port "8000"`,
    /// `host "127.0.0.1"`, and no secondary policy.
    pub fn new(
        limit: Option<u32>,
        ip_addr_limit: Option<u16>,
        window_time: Option<u16>,
        port: Option<String>,
        host: Option<String>,
        limits: Option<Limits>,
    ) -> (r: Self)
        ensures
            r.spec_limit() == (match limit {
                Some(l) => l,
                None => 50u32,
            }),
            r.spec_ip_addr_limit() == (match ip_addr_limit {
                Some(l) => l,
                None => 16u16,
            }),
            r.spec_window_time() == (match window_time {
                Some(w) => w,
                None => 300u16,
            }),
            r.spec_port() == Some(
                match port {
                    Some(p) => p@,
                    None => "8000"@,
                },
            ),
            r.spec_host() == Some(
                match host {
                    Some(h) => h@,
                    None => "127.0.0.1"@,
                },
            ),
            match limits {
                Some(l) => r.spec_limits() == Some(l),
                None => r.spec_limits() matches Some(l) && l.spec_path() is None && l.spec_ip()
                    is None,
            },
    {
        Config {
            limit: match limit {
                Some(l) => l,
                None => 50,
            },
            ip_addr_limit: match ip_addr_limit {
                Some(l) => l,
                None => 16,
            },
            window_time: match window_time {
                Some(w) => w,
                None => 300,
            },
            port: Some(
                match port {
                    Some(p) => p,
                    None => "8000".to_owned(),
                },
            ),
            host: Some(
                match host {
                    Some(h) => h,
                    None => "127.0.0.1".to_owned(),
                },
            ),
            limits: Some(
                match limits {
                    Some(l) => l,
                    None => Limits::empty(),
                },
            ),
        }
    }

    /// Refuses a configuration the engine must not start with: a zero
    /// request limit, or (failing that check) a zero window length.
    pub fn validate(&self) -> (r: Result<(), ConfigError>)
        ensures
            r is Ok <==> self.spec_limit() > 0 && self.spec_window_time() > 0,
            r == Err::<(), ConfigError>(ConfigError::ZeroLimit) <==> self.spec_limit() == 0,
            r == Err::<(), ConfigError>(ConfigError::ZeroWindowTime) <==> self.spec_limit() > 0
                && self.spec_window_time() == 0,
    {
        if self.limit == 0 {
            Err(ConfigError::ZeroLimit)
        } else if self.window_time == 0 {
            Err(ConfigError::ZeroWindowTime)
        } else {
            Ok(())
        }
    }

    /// Maximum requests per identifier per window.
    pub fn limit(&self) -> (r: u32)
        ensures
            r == self.spec_limit(),
    {
        self.limit
    }

    /// Replaces the global request limit.
    pub fn set_limit(&mut self, limit: u32) -> (r: u32)
        ensures
            final(self).spec_limit() == limit,
            r == limit,
            final(self).spec_ip_addr_limit() == old(self).spec_ip_addr_limit(),
            final(self).spec_window_time() == old(self).spec_window_time(),
            final(self).spec_port() == old(self).spec_port(),
            final(self).spec_host() == old(self).spec_host(),
            final(self).spec_limits() == old(self).spec_limits(),
    {
        self.limit = limit;
        self.limit
    }

    /// Bound on unique IP addresses per identifier inside the window.
    pub fn ip_addr_limit(&self) -> (r: u16)
        ensures
            r == self.spec_ip_addr_limit(),
    {
        self.ip_addr_limit
    }

    /// Replaces the unique-IP bound.
    pub fn set_ip_addr_limit(&mut self, limit: u16) -> (r: u16)
        ensures
            final(self).spec_ip_addr_limit() == limit,
            r == limit,
            final(self).spec_limit() == old(self).spec_limit(),
            final(self).spec_window_time() == old(self).spec_window_time(),
            final(self).spec_port() == old(self).spec_port(),
            final(self).spec_host() == old(self).spec_host(),
            final(self).spec_limits() == old(self).spec_limits(),
    {
        self.ip_addr_limit = limit;
        self.ip_addr_limit
    }

    /// Global sliding window length, in seconds.
    pub fn window_time(&self) -> (r: u16)
        ensures
            r == self.spec_window_time(),
    {
        self.window_time
    }

    /// Replaces the global window length.
    pub fn set_window_time(&mut self, window_time: u16) -> (r: u16)
        ensures
            final(self).spec_window_time() == window_time,
            r == window_time,
            final(self).spec_limit() == old(self).spec_limit(),
            final(self).spec_ip_addr_limit() == old(self).spec_ip_addr_limit(),
            final(self).spec_port() == old(self).spec_port(),
            final(self).spec_host() == old(self).spec_host(),
            final(self).spec_limits() == old(self).spec_limits(),
    {
        self.window_time = window_time;
        self.window_time
    }

    /// The bind address, as `host:port`.
    pub fn host_and_port(&self) -> (r: String)
        requires
            self.spec_host() is Some,
            self.spec_port() is Some,
        ensures
            self.spec_host() matches Some(h) && self.spec_port() matches Some(p) && r@ == h + ":"@
                + p,
    {
        let mut s: String = match &self.host {
            Some(h) => h.clone(),
            None => unreached(),
        };
        s.append(":");
        let port: &String = match &self.port {
            Some(p) => p,
            None => unreached(),
        };
        s.append(port.as_str());
        s
    }

    /// Whether any secondary policy container is present.
    pub(crate) fn limits_is_some(&self) -> (r: bool)
        ensures
            r == (self.spec_limits() is Some),
    {
        self.limits.is_some()
    }

    /// Whether a path policy is configured.
    pub fn limit_path_is_some(&self) -> (r: bool)
        ensures
            r == self.spec_limit_path_is_some(),
    {
        match &self.limits {
            Some(l) => match &l.path {
                Some(_) => true,
                None => false,
            },
            None => false,
        }
    }

    /// Whether an IP policy is configured.
    pub fn limit_ip_is_some(&self) -> (r: bool)
        ensures
            r == self.spec_limit_ip_is_some(),
    {
        match &self.limits {
            Some(l) => match &l.ip {
                Some(_) => true,
                None => false,
            },
            None => false,
        }
    }

    /// The limited paths of the path policy, when both are configured.
    pub fn limited_paths(&self) -> (r: Option<Vec<String>>)
        ensures
            match r {
                Some(v) => self.spec_limited_paths() == Some(v.deep_view()),
                None => self.spec_limited_paths() is None,
            },
    {
        match &self.limits {
            Some(l) => match &l.path {
                Some(p) => p.paths(),
                None => None,
            },
            None => None,
        }
    }

    /// The limit of the path policy, when both are configured.
    pub fn path_limit(&self) -> (r: Option<u32>)
        ensures
            r == self.spec_path_limit(),
    {
        match &self.limits {
            Some(l) => match &l.path {
                Some(p) => p.limit(),
                None => None,
            },
            None => None,
        }
    }

    /// The window of the path policy, when both are configured.
    pub fn path_window_time(&self) -> (r: Option<u16>)
        ensures
            r == self.spec_path_window_time(),
    {
        match &self.limits {
            Some(l) => match &l.path {
                Some(p) => p.window_time(),
                None => None,
            },
            None => None,
        }
    }

    /// The watch-listed addresses of the IP policy, when both are configured.
    pub fn limited_ip_addresses(&self) -> (r: Option<Vec<Ipv4Addr>>)
        ensures
            match r {
                Some(v) => self.spec_limited_ip_addresses() == Some(v@),
                None => self.spec_limited_ip_addresses() is None,
            },
    {
        match &self.limits {
            Some(l) => match &l.ip {
                Some(ip) => ip.ip_addresses(),
                None => None,
            },
            None => None,
        }
    }

    /// The bound of the IP policy, when both are configured.
    pub fn ip_addresses_limit(&self) -> (r: Option<u16>)
        ensures
            r == self.spec_ip_addresses_limit(),
    {
        match &self.limits {
            Some(l) => match &l.ip {
                Some(ip) => ip.limit(),
                None => None,
            },
            None => None,
        }
    }

    /// The window of the IP policy, when both are configured.
    pub fn ip_addresses_window_time(&self) -> (r: Option<u16>)
        ensures
            r == self.spec_ip_addresses_window_time(),
    {
        match &self.limits {
            Some(l) => match &l.ip {
                Some(ip) => ip.window_time(),
                None => None,
            },
            None => None,
        }
    }
}

impl Default for Config {
    /// The built-in settings: limit 50, unique-IP bound 5, window 300
    /// seconds, serving on `127.0.0.1:8000`, with the default (inapplicable)
    /// secondary policies.
    fn default() -> (r: Self)
        ensures
            r.spec_limit() == 50u32,
            r.spec_ip_addr_limit() == 5u16,
            r.spec_window_time() == 300u16,
            r.spec_host() == Some("127.0.0.1"@),
            r.spec_port() == Some("8000"@),
            r.spec_limited_paths() == Some(Seq::<Seq<char>>::empty()),
            r.spec_path_limit() == Some(50u32),
            r.spec_path_window_time() == Some(300u16),
            r.spec_limited_ip_addresses() == Some(Seq::<Ipv4Addr>::empty()),
            r.spec_ip_addresses_limit() == Some(50u16),
            r.spec_ip_addresses_window_time() == Some(300u16),
    {
        Config {
            limit: 50,
            ip_addr_limit: 5,
            window_time: 300,
            host: Some("127.0.0.1".to_owned()),
            port: Some("8000".to_owned()),
            limits: Some(Limits::default()),
        }
    }
}

} // verus!
