//! The configuration text format and its codec.
//!
//! A registry is persisted as plain text, one field per line. A string
//! field is written as its character count, a colon, the characters
//! themselves and a newline, so no escaping is ever needed; a number is
//! written in decimal. Each endpoint contributes five lines: name, host,
//! port, status tag (`U`nchecked, o`N`line, o`F`fline, or `E` with the
//! HTTP status code) and the derived URL. Parsing is strict: anything the
//! renderer would not produce is rejected, and rendering then parsing
//! gives back exactly the endpoints that were saved.

use vstd::prelude::*;
use vstd::string::StrSliceExecFns;
use vstd::string::StringExecFns;
use crate::server::Server;
use crate::server::ServerModel;
use crate::server::make_url;
use crate::server::models;
use crate::server::url_of;
use crate::server::wf_model;
use crate::status::ServerStatus;
use crate::text::NatScan;
use crate::text::dec_of;
use crate::text::is_digit;
use crate::text::lemma_dec_of_digits;
use crate::text::lemma_parse_nat_of_dec;
use crate::text::parse_nat;
use crate::text::push_dec;
use crate::text::scan_nat;
use crate::text::str_to_chars;

verus! {

/// Why a configuration text was rejected. The caller falls back to the
/// default registry.
#[derive(Clone, Copy, PartialEq, Eq, Structural, Debug)]
pub enum ParseError {
    /// The text is not one the renderer could have produced.
    Malformed,
}

/// A string field as rendered: character count, colon, the characters,
/// newline.
pub open spec fn render_str(t: Seq<char>) -> Seq<char> {
    dec_of(t.len()) + (seq![':'] + (t + seq!['\n']))
}

/// A port as rendered: decimal digits and a newline.
pub open spec fn render_port_line(p: u16) -> Seq<char> {
    dec_of(p as nat) + seq!['\n']
}

/// A status as rendered: its tag letter, for `Error` the code in decimal,
/// and a newline.
pub open spec fn render_status(st: ServerStatus) -> Seq<char> {
    match st {
        ServerStatus::Unchecked => seq!['U', '\n'],
        ServerStatus::Online => seq!['N', '\n'],
        ServerStatus::Offline => seq!['F', '\n'],
        ServerStatus::Error(code) => seq!['E'] + (dec_of(code as nat) + seq!['\n']),
    }
}

/// One endpoint as rendered: name, host, port, status, URL.
pub open spec fn render_server(m: ServerModel) -> Seq<char> {
    render_str(m.name) + (render_str(m.host) + (render_port_line(m.port) + (render_status(m.status)
        + render_str(m.url))))
}

/// A whole registry as rendered: its endpoints one after the other.
pub open spec fn spec_render(ms: Seq<ServerModel>) -> Seq<char>
    decreases ms.len(),
{
    if ms.len() == 0 {
        Seq::empty()
    } else {
        render_server(ms[0]) + spec_render(ms.subrange(1, ms.len() as int))
    }
}

/// Reading a string field at position `i`.
pub open spec fn parse_str(s: Seq<char>, i: int) -> Option<(Seq<char>, int)> {
    match parse_nat(s, i) {
        None => None,
        Some((n, j)) => if j < s.len() && s[j] == ':' && j + 1 + n + 1 <= s.len() && s[j + 1
            + n] == '\n' {
            Some((s.subrange(j + 1, j + 1 + n), j + 2 + n))
        } else {
            None
        },
    }
}

/// The status for a tag letter other than `E`.
pub open spec fn status_of_tag(c: char) -> ServerStatus {
    if c == 'U' {
        ServerStatus::Unchecked
    } else if c == 'N' {
        ServerStatus::Online
    } else {
        ServerStatus::Offline
    }
}

/// Reading a status line at position `i`.
pub open spec fn parse_status(s: Seq<char>, i: int) -> Option<(ServerStatus, int)> {
    if !(0 <= i < s.len()) {
        None
    } else if s[i] == 'U' || s[i] == 'N' || s[i] == 'F' {
        if i + 1 < s.len() && s[i + 1] == '\n' {
            Some((status_of_tag(s[i]), i + 2))
        } else {
            None
        }
    } else if s[i] == 'E' {
        match parse_nat(s, i + 1) {
            None => None,
            Some((n, j)) => if n <= 65535 && j < s.len() && s[j] == '\n' {
                Some((ServerStatus::Error(n as u16), j + 1))
            } else {
                None
            },
        }
    } else {
        None
    }
}

/// Reading one endpoint at position `i`, with every well-formedness check:
/// non-empty name and host, port in 1..=65535, and a URL that is exactly
/// the one derived from host and port.
pub open spec fn parse_server(s: Seq<char>, i: int) -> Option<(ServerModel, int)> {
    match parse_str(s, i) {
        None => None,
        Some((name, i1)) => match parse_str(s, i1) {
            None => None,
            Some((host, i2)) => match parse_nat(s, i2) {
                None => None,
                Some((port, i3)) => if 1 <= port <= 65535 && i3 < s.len() && s[i3] == '\n' {
                    match parse_status(s, i3 + 1) {
                        None => None,
                        Some((st, i4)) => match parse_str(s, i4) {
                            None => None,
                            Some((url, i5)) => if name.len() >= 1 && host.len() >= 1 && url
                                == url_of(host, port as u16) {
                                Some(
                                    (
                                        ServerModel {
                                            name,
                                            host,
                                            port: port as u16,
                                            status: st,
                                            url,
                                        },
                                        i5,
                                    ),
                                )
                            } else {
                                None
                            },
                        },
                    }
                } else {
                    None
                },
            },
        },
    }
}

/// Reading endpoints from position `i` to the very end of the text.
pub open spec fn parse_all(s: Seq<char>, i: int) -> Option<Seq<ServerModel>>
    decreases s.len() - i,
{
    if i == s.len() {
        Some(Seq::empty())
    } else {
        match parse_server(s, i) {
            None => None,
            Some((m, j)) => if i < j <= s.len() {
                match parse_all(s, j) {
                    None => None,
                    Some(rest) => Some(seq![m] + rest),
                }
            } else {
                None
            },
        }
    }
}

/// What `parse_config` accepts and returns: the whole text read as a
/// sequence of endpoints.
pub open spec fn spec_parse(s: Seq<char>) -> Option<Seq<ServerModel>> {
    parse_all(s, 0)
}

/// Splitting knowledge about a concatenation found inside `s` into
/// knowledge about its two parts.
proof fn lemma_split_at(s: Seq<char>, i: int, a: Seq<char>, b: Seq<char>)
    requires
        0 <= i,
        i + a.len() + b.len() <= s.len(),
        forall|k: int| 0 <= k < (a + b).len() ==> s[i + k] == (a + b)[k],
    ensures
        forall|k: int| 0 <= k < a.len() ==> s[i + k] == #[trigger] a[k],
        forall|k: int| 0 <= k < b.len() ==> s[i + a.len() + k] == #[trigger] b[k],
{
    assert forall|k: int| 0 <= k < a.len() implies s[i + k] == #[trigger] a[k] by {
        assert(s[i + k] == (a + b)[k]);
        assert((a + b)[k] == a[k]);
    }
    assert forall|k: int| 0 <= k < b.len() implies s[i + a.len() + k] == #[trigger] b[k] by {
        assert(s[i + (a.len() + k)] == (a + b)[a.len() + k]);
        assert((a + b)[a.len() + k] == b[k]);
    }
}

/// A rendered string field parses back to the string itself.
proof fn lemma_parse_str_at(s: Seq<char>, i: int, t: Seq<char>)
    requires
        0 <= i,
        i + render_str(t).len() <= s.len(),
        forall|k: int| 0 <= k < render_str(t).len() ==> s[i + k] == render_str(t)[k],
    ensures
        parse_str(s, i) == Some((t, i + render_str(t).len())),
{
    let d = dec_of(t.len());
    let dl = d.len() as int;
    let n = t.len() as int;
    let rest = seq![':'] + (t + seq!['\n']);
    lemma_dec_of_digits(t.len());
    lemma_split_at(s, i, d, rest);
    assert(rest[0] == ':');
    assert(s[i + dl + 0] == rest[0]);
    assert(s[i + dl] == ':');
    assert(!is_digit(':')) by {
        assert(':' as u32 == 58);
    }
    lemma_parse_nat_of_dec(s, i, t.len());
    let j = i + dl;
    assert forall|k: int| 0 <= k < n implies s[j + 1 + k] == t[k] by {
        assert(rest[1 + k] == t[k]);
        assert(s[i + dl + (1 + k)] == rest[1 + k]);
    }
    assert(rest[1 + n] == (t + seq!['\n'])[n]);
    assert((t + seq!['\n'])[n] == '\n');
    assert(s[i + dl + (1 + n)] == rest[1 + n]);
    assert(s[j + 1 + n] == '\n');
    assert(s.subrange(j + 1, j + 1 + n) =~= t);
    assert(render_str(t).len() == dl + n + 2);
}

/// A rendered status line parses back to the status itself.
proof fn lemma_parse_status_at(s: Seq<char>, i: int, st: ServerStatus)
    requires
        0 <= i,
        i + render_status(st).len() <= s.len(),
        forall|k: int| 0 <= k < render_status(st).len() ==> s[i + k] == render_status(st)[k],
    ensures
        parse_status(s, i) == Some((st, i + render_status(st).len())),
{
    match st {
        ServerStatus::Unchecked => {
            assert(s[i] == 'U' && s[i + 1] == '\n');
        },
        ServerStatus::Online => {
            assert(s[i] == 'N' && s[i + 1] == '\n');
        },
        ServerStatus::Offline => {
            assert(s[i] == 'F' && s[i + 1] == '\n');
        },
        ServerStatus::Error(code) => {
            let d = dec_of(code as nat);
            let dl = d.len() as int;
            lemma_dec_of_digits(code as nat);
            lemma_split_at(s, i, seq!['E'], d + seq!['\n']);
            assert(seq!['E'][0] == 'E');
            assert(s[i + 0] == seq!['E'][0]);
            assert(s[i] == 'E');
            lemma_split_at(s, i + 1, d, seq!['\n']);
            assert(seq!['\n'][0] == '\n');
            assert(s[i + 1 + dl + 0] == seq!['\n'][0]);
            assert(s[i + 1 + dl] == '\n');
            assert(!is_digit('\n')) by {
                assert('\n' as u32 == 10);
            }
            lemma_parse_nat_of_dec(s, i + 1, code as nat);
            assert(render_status(st).len() == 1 + dl + 1);
        },
    }
}

/// A rendered endpoint parses back to its model.
proof fn lemma_parse_server_at(s: Seq<char>, i: int, m: ServerModel)
    requires
        0 <= i,
        wf_model(m),
        i + render_server(m).len() <= s.len(),
        forall|k: int| 0 <= k < render_server(m).len() ==> s[i + k] == render_server(m)[k],
    ensures
        parse_server(s, i) == Some((m, i + render_server(m).len())),
        render_server(m).len() >= 1,
{
    let a1 = render_str(m.name);
    let r1 = render_str(m.host) + (render_port_line(m.port) + (render_status(m.status) + render_str(
        m.url,
    )));
    let a2 = render_str(m.host);
    let r2 = render_port_line(m.port) + (render_status(m.status) + render_str(m.url));
    let a3 = render_port_line(m.port);
    let r3 = render_status(m.status) + render_str(m.url);
    let a4 = render_status(m.status);
    let a5 = render_str(m.url);
    lemma_split_at(s, i, a1, r1);
    lemma_parse_str_at(s, i, m.name);
    let i1 = i + a1.len() as int;
    lemma_split_at(s, i1, a2, r2);
    lemma_parse_str_at(s, i1, m.host);
    let i2 = i1 + a2.len() as int;
    lemma_split_at(s, i2, a3, r3);
    let d = dec_of(m.port as nat);
    let dl = d.len() as int;
    lemma_dec_of_digits(m.port as nat);
    lemma_split_at(s, i2, d, seq!['\n']);
    assert(seq!['\n'][0] == '\n');
    assert(s[i2 + dl + 0] == seq!['\n'][0]);
    assert(s[i2 + dl] == '\n');
    assert(!is_digit('\n')) by {
        assert('\n' as u32 == 10);
    }
    lemma_parse_nat_of_dec(s, i2, m.port as nat);
    let i3 = i2 + dl;
    lemma_split_at(s, i3 + 1, a4, a5);
    lemma_parse_status_at(s, i3 + 1, m.status);
    let i4 = i3 + 1 + a4.len() as int;
    lemma_parse_str_at(s, i4, m.url);
    let i5 = i4 + a5.len() as int;
    assert(i5 == i + render_server(m).len());
}

/// Rendering one more endpoint appends its rendering.
proof fn lemma_render_snoc(ms: Seq<ServerModel>, m: ServerModel)
    ensures
        spec_render(ms.push(m)) == spec_render(ms) + render_server(m),
    decreases ms.len(),
{
    if ms.len() == 0 {
        assert(ms.push(m)[0] == m);
        assert(ms.push(m).subrange(1, 1) =~= Seq::<ServerModel>::empty());
        assert(spec_render(Seq::<ServerModel>::empty()) == Seq::<char>::empty());
        assert(spec_render(ms.push(m)) == render_server(m) + Seq::<char>::empty());
        assert(render_server(m) + Seq::<char>::empty() =~= render_server(m));
        assert(spec_render(ms) == Seq::<char>::empty());
        assert(Seq::<char>::empty() + render_server(m) =~= render_server(m));
    } else {
        let rest = ms.subrange(1, ms.len() as int);
        lemma_render_snoc(rest, m);
        assert(ms.push(m).subrange(1, ms.len() as int + 1) =~= rest.push(m));
        assert(ms.push(m)[0] == ms[0]);
        assert(spec_render(ms.push(m)) == render_server(ms[0]) + spec_render(rest.push(m)));
        assert(render_server(ms[0]) + (spec_render(rest) + render_server(m)) =~= (render_server(
            ms[0],
        ) + spec_render(rest)) + render_server(m));
    }
}

/// A rendering that fills `s` from `i` to the end parses back to the
/// models it came from.
proof fn lemma_parse_all_of_render(s: Seq<char>, i: int, ms: Seq<ServerModel>)
    requires
        0 <= i,
        forall|k: int| 0 <= k < ms.len() ==> wf_model(#[trigger] ms[k]),
        i + spec_render(ms).len() == s.len(),
        forall|k: int| 0 <= k < spec_render(ms).len() ==> s[i + k] == spec_render(ms)[k],
    ensures
        parse_all(s, i) == Some(ms),
    decreases ms.len(),
{
    if ms.len() == 0 {
        assert(i == s.len());
        assert(parse_all(s, i) == Some(Seq::<ServerModel>::empty()));
        assert(ms =~= Seq::<ServerModel>::empty());
    } else {
        let m = ms[0];
        let rest = ms.subrange(1, ms.len() as int);
        let a = render_server(m);
        let b = spec_render(rest);
        assert(spec_render(ms) == a + b);
        lemma_split_at(s, i, a, b);
        lemma_parse_server_at(s, i, m);
        let j = i + a.len() as int;
        lemma_parse_all_of_render(s, j, rest);
        assert(seq![m] + rest =~= ms);
    }
}

/// Law: a saved registry loads back as the same ordered sequence of
/// endpoints, statuses included, for every registry of well-formed
/// endpoints.
pub proof fn lemma_config_round_trip(ms: Seq<ServerModel>)
    requires
        forall|k: int| 0 <= k < ms.len() ==> wf_model(#[trigger] ms[k]),
    ensures
        spec_parse(spec_render(ms)) == Some(ms),
{
    lemma_parse_all_of_render(spec_render(ms), 0, ms);
}

/// Appends the rendering of a string field to `out`.
fn push_str_field(out: &mut String, t: &str)
    ensures
        final(out)@ == old(out)@ + render_str(t@),
{
    let n = t.unicode_len();
    push_dec(out, n as u64);
    out.push(':');
    out.append(t);
    out.push('\n');
    assert(out@ =~= old(out)@ + render_str(t@));
}

/// Appends the rendering of a status to `out`.
fn push_status(out: &mut String, st: &ServerStatus)
    ensures
        final(out)@ == old(out)@ + render_status(*st),
{
    match st {
        ServerStatus::Unchecked => {
            out.push('U');
            out.push('\n');
        },
        ServerStatus::Online => {
            out.push('N');
            out.push('\n');
        },
        ServerStatus::Offline => {
            out.push('F');
            out.push('\n');
        },
        ServerStatus::Error(code) => {
            out.push('E');
            push_dec(out, *code as u64);
            out.push('\n');
        },
    }
    assert(out@ =~= old(out)@ + render_status(*st));
}

/// Appends the rendering of one endpoint to `out`.
fn push_server(out: &mut String, s: &Server)
    ensures
        final(out)@ == old(out)@ + render_server(s@),
{
    push_str_field(out, s.name.as_str());
    push_str_field(out, s.host.as_str());
    push_dec(out, s.port as u64);
    out.push('\n');
    push_status(out, &s.status);
    push_str_field(out, s.url.as_str());
    assert(out@ =~= old(out)@ + render_server(s@));
}

/// Renders a sequence of endpoints as configuration text.
pub fn render_config(servers: &Vec<Server>) -> (out: String)
    ensures
        out@ == spec_render(models(servers@)),
{
    let mut out = String::new();
    let mut i: usize = 0;
    while i < servers.len()
        invariant
            i <= servers@.len(),
            out@ == spec_render(models(servers@).subrange(0, i as int)),
        decreases servers@.len() - i,
    {
        let ghost pre = models(servers@).subrange(0, i as int);
        push_server(&mut out, &servers[i]);
        proof {
            lemma_render_snoc(pre, servers@[i as int]@);
            assert(pre.push(servers@[i as int]@) =~= models(servers@).subrange(0, i + 1));
        }
        i += 1;
    }
    proof {
        assert(models(servers@).subrange(0, servers@.len() as int) =~= models(servers@));
    }
    out
}

/// Reads a string field, mirroring `parse_str`.
fn read_field(s: &Vec<char>, i: usize) -> (r: Option<(String, usize)>)
    requires
        i <= s@.len(),
    ensures
        match r {
            None => parse_str(s@, i as int) is None,
            Some((t, j)) => {
                &&& parse_str(s@, i as int) == Some((t@, j as int))
                &&& i < j <= s@.len()
            },
        },
{
    let len = s.len();
    match scan_nat(s, i) {
        NatScan::NoDigits => None,
        NatScan::Huge(_) => None,
        NatScan::Value(v, j) => {
            if j >= len {
                return None;
            }
            if s[j] != ':' {
                return None;
            }
            let rem = len - j - 1;
            if !(v < rem as u64) {
                return None;
            }
            let n = v as usize;
            if s[j + 1 + n] != '\n' {
                return None;
            }
            let mut t = String::new();
            let mut k = j + 1;
            let end = j + 1 + n;
            while k < end
                invariant
                    j + 1 <= k <= end,
                    end == j + 1 + n,
                    end < s@.len(),
                    t@ == s@.subrange(j + 1, k as int),
                decreases end - k,
            {
                t.push(s[k]);
                k += 1;
                assert(t@ =~= s@.subrange(j + 1, k as int));
            }
            Some((t, j + 2 + n))
        },
    }
}

/// Reads a status line, mirroring `parse_status`.
fn read_status(s: &Vec<char>, i: usize) -> (r: Option<(ServerStatus, usize)>)
    requires
        i <= s@.len(),
    ensures
        match r {
            None => parse_status(s@, i as int) is None,
            Some((st, j)) => {
                &&& parse_status(s@, i as int) == Some((st, j as int))
                &&& i < j <= s@.len()
            },
        },
{
    let len = s.len();
    if i >= len {
        return None;
    }
    let c = s[i];
    if c == 'U' || c == 'N' || c == 'F' {
        if i + 1 < len && s[i + 1] == '\n' {
            let st = if c == 'U' {
                ServerStatus::Unchecked
            } else if c == 'N' {
                ServerStatus::Online
            } else {
                ServerStatus::Offline
            };
            Some((st, i + 2))
        } else {
            None
        }
    } else if c == 'E' {
        match scan_nat(s, i + 1) {
            NatScan::NoDigits => None,
            NatScan::Huge(_) => None,
            NatScan::Value(v, j) => {
                if v <= 65535 && j < len && s[j] == '\n' {
                    Some((ServerStatus::Error(v as u16), j + 1))
                } else {
                    None
                }
            },
        }
    } else {
        None
    }
}

/// Reads one endpoint, mirroring `parse_server`; everything it returns is
/// well-formed.
fn read_server(s: &Vec<char>, i: usize) -> (r: Option<(Server, usize)>)
    requires
        i <= s@.len(),
    ensures
        match r {
            None => parse_server(s@, i as int) is None,
            Some((srv, j)) => {
                &&& parse_server(s@, i as int) == Some((srv@, j as int))
                &&& i < j <= s@.len()
                &&& srv.wf()
            },
        },
{
    let (name, i1) = match read_field(s, i) {
        None => {
            return None;
        },
        Some(x) => x,
    };
    let (host, i2) = match read_field(s, i1) {
        None => {
            return None;
        },
        Some(x) => x,
    };
    let len = s.len();
    let (port, i3) = match scan_nat(s, i2) {
        NatScan::NoDigits => {
            return None;
        },
        NatScan::Huge(_) => {
            return None;
        },
        NatScan::Value(v, j) => {
            if !(1 <= v && v <= 65535) {
                return None;
            }
            if j >= len {
                return None;
            }
            if s[j] != '\n' {
                return None;
            }
            (v as u16, j)
        },
    };
    let (status, i4) = match read_status(s, i3 + 1) {
        None => {
            return None;
        },
        Some(x) => x,
    };
    let (url, i5) = match read_field(s, i4) {
        None => {
            return None;
        },
        Some(x) => x,
    };
    if name.as_str().is_empty() {
        return None;
    }
    if host.as_str().is_empty() {
        return None;
    }
    let expected = make_url(host.as_str(), port);
    if !(url == expected) {
        return None;
    }
    let srv = Server { name, host, port, status, url };
    Some((srv, i5))
}

/// Parses configuration text into endpoints. Returns an error exactly when
/// the text is not a rendering of some registry; the caller then falls
/// back to the default set.
pub fn parse_config(text: &str) -> (r: Result<Vec<Server>, ParseError>)
    ensures
        match r {
            Ok(v) => {
                &&& spec_parse(text@) == Some(models(v@))
                &&& forall|k: int| 0 <= k < v@.len() ==> (#[trigger] v@[k]).wf()
            },
            Err(_) => spec_parse(text@) is None,
        },
{
    let chars = str_to_chars(text);
    let ghost sv = chars@;
    let mut out: Vec<Server> = Vec::new();
    let mut i: usize = 0;
    while i < chars.len()
        invariant
            sv == chars@,
            sv == text@,
            i <= sv.len(),
            forall|k: int| 0 <= k < out@.len() ==> (#[trigger] out@[k]).wf(),
            match parse_all(sv, i as int) {
                None => parse_all(sv, 0) is None,
                Some(rest) => parse_all(sv, 0) == Some(models(out@) + rest),
            },
        decreases sv.len() - i,
    {
        match read_server(&chars, i) {
            None => {
                return Err(ParseError::Malformed);
            },
            Some((srv, j)) => {
                proof {
                    if parse_all(sv, j as int) is Some {
                        let rest = parse_all(sv, j as int)->Some_0;
                        assert(parse_all(sv, i as int) == Some(seq![srv@] + rest));
                        assert(models(out@.push(srv)) + rest =~= models(out@) + (seq![srv@]
                            + rest));
                    }
                }
                out.push(srv);
                i = j;
            },
        }
    }
    proof {
        assert(parse_all(sv, i as int) == Some(Seq::<ServerModel>::empty()));
        assert(models(out@) + Seq::<ServerModel>::empty() =~= models(out@));
    }
    Ok(out)
}

} // verus!
