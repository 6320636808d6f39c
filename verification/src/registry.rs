//! The endpoint registry: an ordered, order-preserving collection of
//! monitored endpoints, with validated insertion, index-guarded removal,
//! snapshots, aggregate statistics, positional reconciliation of probe
//! results, and the hardcoded default set.

use vstd::prelude::*;
use vstd::string::StringExecFns;
use crate::codec::ParseError;
use crate::codec::parse_config;
use crate::codec::render_config;
use crate::codec::spec_parse;
use crate::codec::spec_render;
use crate::server::Server;
use crate::server::ServerModel;
use crate::server::models;
use crate::server::url_of;
use crate::server::wf_model;
use crate::status::ServerStatus;
use crate::text::digits_end;
use crate::text::digits_val;
use crate::text::is_digit;
use crate::text::lemma_digits_end_props;
use crate::text::lemma_digits_val_monotone;
use crate::text::lemma_digits_val_shift;
use crate::text::dec_of;
use crate::text::lemma_dec_of_digits;
use crate::text::push_dec;
use crate::text::str_to_chars;
use crate::text::NatScan;
use crate::text::scan_nat;

verus! {

/// Why an `add` request was rejected. The input fields are left untouched
/// by a rejected `add`, so the user can correct them.
#[derive(Clone, Copy, PartialEq, Eq, Structural, Debug)]
pub enum ValidationError {
    /// The name field was empty.
    EmptyName,
    /// The host field was empty.
    EmptyHost,
    /// The port field did not parse as an integer in 1..=65535.
    InvalidPort,
}

/// The digit part of a port string: everything after an optional leading
/// plus sign.
pub open spec fn port_digits(s: Seq<char>) -> Seq<char> {
    if s.len() >= 1 && s[0] == '+' {
        s.subrange(1, s.len() as int)
    } else {
        s
    }
}

/// Whether `s` parses as a port: an optional plus sign, then at least one
/// digit and nothing else, with value 1 to 65535.
pub open spec fn is_port_string(s: Seq<char>) -> bool {
    let d = port_digits(s);
    &&& d.len() >= 1
    &&& forall|k: int| 0 <= k < d.len() ==> is_digit(#[trigger] d[k])
    &&& 1 <= digits_val(d, 0, d.len() as int) <= 65535
}

/// The port value of a valid port string.
pub open spec fn port_value(s: Seq<char>) -> u16 {
    let d = port_digits(s);
    digits_val(d, 0, d.len() as int) as u16
}

/// Parses a port string: an optional leading plus sign, then digits only,
/// with value 1 to 65535. Anything else is rejected.
pub fn parse_port(s: &str) -> (r: Option<u16>)
    ensures
        r is Some <==> is_port_string(s@),
        r matches Some(p) ==> p == port_value(s@) && 1 <= p,
{
    let chars = str_to_chars(s);
    let n = chars.len();
    let start: usize = if n >= 1 && chars[0] == '+' {
        1
    } else {
        0
    };
    let ghost d = port_digits(s@);
    proof {
        assert(d.len() == n - start);
        assert(forall|k: int| 0 <= k < d.len() ==> #[trigger] d[k] == s@[start + k]);
        lemma_digits_end_props(s@, start as int);
    }
    match scan_nat(&chars, start) {
        NatScan::NoDigits => {
            proof {
                assert(digits_end(s@, start as int) == start);
                if d.len() >= 1 {
                    assert(d[0] == s@[start as int]);
                    assert(!is_digit(d[0]));
                }
            }
            None
        },
        NatScan::Value(v, j) => {
            proof {
                assert(digits_end(s@, start as int) == j);
                lemma_digits_val_monotone(s@, start as int, j as int, j as int);
                lemma_digits_val_shift(s@, d, start as int, d.len() as int, j - start);
            }
            if j == n {
                if 1 <= v && v <= 65535 {
                    proof {
                        assert(digits_val(d, 0, d.len() as int) == v);
                        assert(is_port_string(s@));
                    }
                    Some(v as u16)
                } else {
                    proof {
                        assert(digits_val(d, 0, d.len() as int) == v);
                    }
                    None
                }
            } else {
                proof {
                    assert(!is_digit(s@[j as int]));
                    assert(d[j - start] == s@[j as int]);
                }
                None
            }
        },
        NatScan::Huge(j) => {
            proof {
                assert(digits_end(s@, start as int) == j);
                if j == n {
                    lemma_digits_val_monotone(s@, start as int, j as int, j as int);
                    lemma_digits_val_shift(s@, d, start as int, d.len() as int, j - start);
                    assert(digits_val(d, 0, d.len() as int) > usize::MAX);
                } else {
                    assert(!is_digit(s@[j as int]));
                    assert(d[j - start] == s@[j as int]);
                }
            }
            None
        },
    }
}

/// What `add` answers for a given triple of input fields: the first
/// failing validation, or nothing when all three are acceptable.
pub open spec fn add_error(name: Seq<char>, host: Seq<char>, port_string: Seq<char>) -> Option<
    ValidationError,
> {
    if name.len() == 0 {
        Some(ValidationError::EmptyName)
    } else if host.len() == 0 {
        Some(ValidationError::EmptyHost)
    } else if !is_port_string(port_string) {
        Some(ValidationError::InvalidPort)
    } else {
        None
    }
}

/// The number of endpoints in `s` whose status is `Online`.
pub open spec fn count_online(s: Seq<ServerModel>) -> nat
    decreases s.len(),
{
    if s.len() == 0 {
        0
    } else {
        count_online(s.drop_last()) + (if s.last().status is Online {
            1nat
        } else {
            0nat
        })
    }
}

/// At most every endpoint is online.
pub proof fn lemma_count_online_le(s: Seq<ServerModel>)
    ensures
        count_online(s) <= s.len(),
    decreases s.len(),
{
    if s.len() > 0 {
        lemma_count_online_le(s.drop_last());
    }
}

/// The one fixed host of the fallback registry.
pub open spec fn default_host() -> Seq<char> {
    "143.86.170.164"@
}

/// The nine well-known ports of the fallback registry.
pub open spec fn default_ports() -> Seq<u16> {
    seq![8025u16, 8081u16, 8000u16, 3000u16, 8061u16, 8080u16, 8086u16, 8082u16, 11434u16]
}

/// The generated display name of a fallback endpoint.
pub open spec fn default_name(port: u16) -> Seq<char> {
    "服务器-"@ + dec_of(port as nat)
}

/// One endpoint of the fallback registry: generated name, the fixed host,
/// status `Unchecked`, derived URL.
pub open spec fn default_model(port: u16) -> ServerModel {
    ServerModel {
        name: default_name(port),
        host: default_host(),
        port,
        status: ServerStatus::Unchecked,
        url: url_of(default_host(), port),
    }
}

/// The whole fallback registry, in its fixed order.
pub open spec fn default_models() -> Seq<ServerModel> {
    default_ports().map_values(|p: u16| default_model(p))
}

/// Builds one endpoint of the fallback registry.
fn default_server(port: u16) -> (s: Server)
    requires
        port >= 1,
    ensures
        s@ == default_model(port),
        s.wf(),
{
    let mut name = String::from_str("服务器-");
    push_dec(&mut name, port as u64);
    let host = String::from_str("143.86.170.164");
    proof {
        reveal_strlit("服务器-");
        reveal_strlit("143.86.170.164");
        lemma_dec_of_digits(port as nat);
    }
    Server::new(name, host, port)
}

/// `m` with its status replaced: what reconciliation does to one entry.
pub open spec fn with_status(m: ServerModel, st: ServerStatus) -> ServerModel {
    ServerModel { status: st, ..m }
}

/// The ordered registry of monitored endpoints. Its view is the sequence
/// of endpoint models, in insertion order.
pub struct Registry {
    servers: Vec<Server>,
}

impl View for Registry {
    type V = Seq<ServerModel>;

    closed spec fn view(&self) -> Seq<ServerModel> {
        models(self.servers@)
    }
}

impl Registry {
    /// Every endpoint in the registry is well-formed.
    pub open spec fn wf(&self) -> bool {
        forall|i: int| 0 <= i < self@.len() ==> wf_model(#[trigger] self@[i])
    }

    /// An empty registry.
    pub fn new() -> (r: Registry)
        ensures
            r@ == Seq::<ServerModel>::empty(),
            r.wf(),
    {
        let r = Registry { servers: Vec::new() };
        proof {
            assert(r@ =~= Seq::<ServerModel>::empty());
        }
        r
    }

    /// How many endpoints are tracked.
    pub fn len(&self) -> (n: usize)
        ensures
            n == self@.len(),
    {
        self.servers.len()
    }

    /// Validates the three input fields and, when all are acceptable,
    /// appends a new endpoint with status `Unchecked` and the derived URL.
    /// On rejection the registry is unchanged.
    pub fn add(&mut self, name: &str, host: &str, port_string: &str) -> (r: Result<
        (),
        ValidationError,
    >)
        requires
            old(self).wf(),
        ensures
            final(self).wf(),
            match r {
                Ok(()) => {
                    &&& add_error(name@, host@, port_string@) is None
                    &&& final(self)@ == old(self)@.push(
                        ServerModel {
                            name: name@,
                            host: host@,
                            port: port_value(port_string@),
                            status: ServerStatus::Unchecked,
                            url: url_of(host@, port_value(port_string@)),
                        },
                    )
                },
                Err(e) => {
                    &&& add_error(name@, host@, port_string@) == Some(e)
                    &&& final(self)@ == old(self)@
                },
            },
    {
        if name.is_empty() {
            return Err(ValidationError::EmptyName);
        }
        if host.is_empty() {
            return Err(ValidationError::EmptyHost);
        }
        match parse_port(port_string) {
            None => Err(ValidationError::InvalidPort),
            Some(port) => {
                let server = Server::new(name.to_owned(), host.to_owned(), port);
                self.servers.push(server);
                proof {
                    assert(self@ =~= old(self)@.push(server@));
                }
                Ok(())
            },
        }
    }

    /// Removes the endpoint at `index` when it is in bounds; a no-op
    /// otherwise (a stale index captured before a concurrent mutation must
    /// not fault).
    pub fn remove(&mut self, index: usize)
        requires
            old(self).wf(),
        ensures
            final(self).wf(),
            index < old(self)@.len() ==> final(self)@ == old(self)@.remove(index as int),
            index >= old(self)@.len() ==> final(self)@ == old(self)@,
    {
        if index < self.servers.len() {
            self.servers.remove(index);
            proof {
                assert(self@ =~= old(self)@.remove(index as int));
            }
        }
    }

    /// A point-in-time deep copy of the registry contents, safe to iterate
    /// while the live registry keeps changing.
    pub fn snapshot(&self) -> (v: Vec<Server>)
        ensures
            models(v@) == self@,
            v@.len() == self@.len(),
    {
        let mut v: Vec<Server> = Vec::new();
        let mut i: usize = 0;
        while i < self.servers.len()
            invariant
                i <= self.servers@.len(),
                v@.len() == i,
                forall|k: int| 0 <= k < i ==> #[trigger] v@[k]@ == self@[k],
            decreases self.servers@.len() - i,
        {
            v.push(self.servers[i].clone());
            i += 1;
        }
        proof {
            assert(models(v@) =~= self@);
        }
        v
    }

    /// Aggregate statistics `(total, online, offline)`. Every status other
    /// than `Online` counts toward `offline`, so `total == online + offline`
    /// always holds.
    pub fn stats(&self) -> (r: (usize, usize, usize))
        ensures
            r.0 == self@.len(),
            r.1 == count_online(self@),
            r.2 == r.0 - r.1,
            r.0 == r.1 + r.2,
    {
        let total = self.servers.len();
        let mut online: usize = 0;
        let mut i: usize = 0;
        while i < total
            invariant
                total == self@.len(),
                i <= total,
                online == count_online(self@.subrange(0, i as int)),
                online <= i,
            decreases total - i,
        {
            let ghost pre = self@.subrange(0, i as int);
            let ghost cur = self@.subrange(0, i + 1);
            proof {
                assert(cur.drop_last() =~= pre);
                assert(cur.last() == self@[i as int]);
            }
            if self.servers[i].status == ServerStatus::Online {
                online = online + 1;
            }
            i += 1;
        }
        proof {
            assert(self@.subrange(0, total as int) =~= self@);
        }
        (total, online, total - online)
    }

    /// Atomically replaces the whole contents (used when a configuration
    /// file is loaded).
    pub fn replace_all(&mut self, servers: Vec<Server>)
        requires
            forall|i: int| 0 <= i < servers@.len() ==> (#[trigger] servers@[i]).wf(),
        ensures
            final(self)@ == models(servers@),
            final(self).wf(),
    {
        self.servers = servers;
    }

    /// Discards the contents and installs the hardcoded fallback set: nine
    /// endpoints on one fixed host, all `Unchecked`. Used when no
    /// configuration file can be read.
    pub fn load_default_servers(&mut self)
        ensures
            final(self)@ == default_models(),
            final(self).wf(),
            final(self)@.len() == 9,
            forall|i: int|
                0 <= i < final(self)@.len() ==> (#[trigger] final(self)@[i]).status
                    is Unchecked && final(self)@[i].host == default_host(),
    {
        let mut v: Vec<Server> = Vec::new();
        v.push(default_server(8025));
        v.push(default_server(8081));
        v.push(default_server(8000));
        v.push(default_server(3000));
        v.push(default_server(8061));
        v.push(default_server(8080));
        v.push(default_server(8086));
        v.push(default_server(8082));
        v.push(default_server(11434));
        proof {
            assert(models(v@) =~= default_models());
        }
        self.servers = v;
    }

    /// Renders the registry as configuration text, ready to be written to
    /// the configuration file.
    pub fn to_config_text(&self) -> (out: String)
        ensures
            out@ == spec_render(self@),
    {
        render_config(&self.servers)
    }

    /// Replaces the contents with the endpoints read from configuration
    /// text. On any parse failure the registry is unchanged and an error
    /// is returned; the caller then falls back to the default set.
    pub fn load_from_text(&mut self, text: &str) -> (r: Result<(), ParseError>)
        requires
            old(self).wf(),
        ensures
            final(self).wf(),
            match r {
                Ok(()) => spec_parse(text@) == Some(final(self)@),
                Err(_) => spec_parse(text@) is None && final(self)@ == old(self)@,
            },
    {
        match parse_config(text) {
            Ok(v) => {
                self.replace_all(v);
                Ok(())
            },
            Err(e) => Err(e),
        }
    }

    /// Applies probe results back onto the live registry by position in
    /// the snapshot order: entry `i` takes `results[i]`. Out-of-range
    /// results (the registry shrank while probes were in flight) are
    /// dropped silently, and entries past the results (the registry grew)
    /// keep their status. Positional matching misassigns results when
    /// entries were removed mid-cycle; see the crate documentation.
    pub fn reconcile(&mut self, results: &Vec<ServerStatus>)
        requires
            old(self).wf(),
        ensures
            final(self).wf(),
            final(self)@.len() == old(self)@.len(),
            forall|i: int|
                0 <= i < old(self)@.len() ==> final(self)@[i] == (if i < results@.len() {
                    with_status(old(self)@[i], results@[i])
                } else {
                    old(self)@[i]
                }),
    {
        let mut i: usize = 0;
        let n = if results.len() < self.servers.len() {
            results.len()
        } else {
            self.servers.len()
        };
        while i < n
            invariant
                n <= results@.len(),
                n <= self.servers@.len(),
                i <= n,
                self.servers@.len() == old(self).servers@.len(),
                forall|k: int|
                    0 <= k < i ==> #[trigger] self.servers@[k]@ == with_status(
                        old(self)@[k],
                        results@[k],
                    ),
                forall|k: int|
                    i <= k < self.servers@.len() ==> #[trigger] self.servers@[k] == old(
                        self,
                    ).servers@[k],
            decreases n - i,
        {
            let st = results[i];
            self.servers[i].status = st;
            i += 1;
        }
        proof {
            assert(forall|k: int|
                0 <= k < old(self)@.len() ==> #[trigger] self@[k] == (if k < results@.len() {
                    with_status(old(self)@[k], results@[k])
                } else {
                    old(self)@[k]
                }));
        }
    }
}

} // verus!
