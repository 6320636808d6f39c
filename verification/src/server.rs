//! One monitored endpoint: name, host, port, derived URL and last-known
//! status.

use vstd::prelude::*;
use vstd::string::StringExecFns;
use crate::status::ServerStatus;
use crate::text::dec_of;
use crate::text::push_dec;

verus! {

/// One monitored endpoint. The `url` field is always derived from `host`
/// and `port` (see `wf`); it is kept only so that snapshots and the
/// configuration file carry it ready-made.
pub struct Server {
    /// Display label, user-assigned or generated; not necessarily unique.
    pub name: String,
    /// IP address or hostname.
    pub host: String,
    /// TCP port, 1 to 65535.
    pub port: u16,
    /// Outcome of the most recent probe.
    pub status: ServerStatus,
    /// Always `http://{host}:{port}` for the current host and port.
    pub url: String,
}

/// The mathematical content of a `Server`: its strings as character
/// sequences.
pub struct ServerModel {
    pub name: Seq<char>,
    pub host: Seq<char>,
    pub port: u16,
    pub status: ServerStatus,
    pub url: Seq<char>,
}

impl View for Server {
    type V = ServerModel;

    open spec fn view(&self) -> ServerModel {
        ServerModel {
            name: self.name@,
            host: self.host@,
            port: self.port,
            status: self.status,
            url: self.url@,
        }
    }
}

/// The models of a sequence of endpoints, in the same order.
pub open spec fn models(s: Seq<Server>) -> Seq<ServerModel> {
    s.map_values(|x: Server| x@)
}

/// The probe URL derived from a host and a port:
/// `http://{host}:{port}`.
pub open spec fn url_of(host: Seq<char>, port: u16) -> Seq<char> {
    seq!['h', 't', 't', 'p', ':', '/', '/'] + host + seq![':'] + dec_of(port as nat)
}

/// A well-formed endpoint: non-empty name and host, a port in 1..=65535,
/// and a URL that is exactly the one derived from host and port.
pub open spec fn wf_model(m: ServerModel) -> bool {
    &&& m.name.len() >= 1
    &&& m.host.len() >= 1
    &&& m.port >= 1
    &&& m.url == url_of(m.host, m.port)
}

impl Server {
    /// Well-formedness of this endpoint; every endpoint held by a registry
    /// satisfies it.
    pub open spec fn wf(&self) -> bool {
        wf_model(self@)
    }

    /// Builds an endpoint with status `Unchecked` and the derived URL.
    pub fn new(name: String, host: String, port: u16) -> (s: Server)
        requires
            name@.len() >= 1,
            host@.len() >= 1,
            port >= 1,
        ensures
            s@ == (ServerModel {
                name: name@,
                host: host@,
                port,
                status: ServerStatus::Unchecked,
                url: url_of(host@, port),
            }),
            s.wf(),
    {
        let url = make_url(host.as_str(), port);
        Server { name, host, port, status: ServerStatus::Unchecked, url }
    }
}

impl Clone for Server {
    /// A deep copy: the copy has the same model as the original.
    fn clone(&self) -> (r: Server)
        ensures
            r@ == self@,
    {
        Server {
            name: self.name.clone(),
            host: self.host.clone(),
            port: self.port,
            status: self.status,
            url: self.url.clone(),
        }
    }
}

/// Renders the probe URL `http://{host}:{port}`.
pub fn make_url(host: &str, port: u16) -> (url: String)
    ensures
        url@ == url_of(host@, port),
{
    let mut url = String::from_str("http://");
    proof {
        reveal_strlit("http://");
    }
    url.append(host);
    url.append(":");
    proof {
        reveal_strlit(":");
    }
    push_dec(&mut url, port as u64);
    proof {
        assert(url@ =~= url_of(host@, port));
    }
    url
}

} // verus!
