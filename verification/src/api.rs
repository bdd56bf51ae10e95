//! The inbound request payload, as the transport adapter hands it over.

use vstd::prelude::*;

use crate::ip::spec_parse_ipv4;
use crate::memory::{IpAndPath, RequestError};

verus! {

/// One admission request: the rate-limited identifier, plus the optional
/// request path and source IP address as raw text.
#[derive(Debug)]
pub struct Request {
    pub id: u64,
    pub path: Option<String>,
    pub ip: Option<String>,
}

impl Request {
    /// Screens the payload into an event tag, refusing a malformed IP text
    /// as a distinct "bad input" outcome before anything is recorded.
    pub fn tag(&self) -> (r: Result<IpAndPath, RequestError>)
        ensures
            r is Err <==> (self.ip matches Some(s) && spec_parse_ipv4(s@) is None),
            r matches Err(e) ==> e == RequestError::BadIpAddress,
            r matches Ok(t) ==> (match self.path {
                Some(p) => t.path matches Some(q) && q@ == p@,
                None => t.path is None,
            }) && (match self.ip {
                Some(s) => t.ip == spec_parse_ipv4(s@),
                None => t.ip is None,
            }),
    {
        let path: Option<String> = match &self.path {
            Some(p) => Some(p.clone()),
            None => None,
        };
        let ip: Option<&str> = match &self.ip {
            Some(s) => Some(s.as_str()),
            None => None,
        };
        IpAndPath::from_strings(ip, path)
    }
}

} // verus!
