//! Local forwarding: the `-L LOCAL_PORT:TARGET_HOST:TARGET_PORT` mappings, the
//! `-r [USER@]SERVER[:PORT]` server specification and the rules that turn the
//! `forward` command's arguments into a configuration.

use vstd::prelude::*;
use std::collections::HashSet;
use crate::text::{copy_opt, opt_text, blank_chars, chars_of, find_first, find_last, first_index, has_char, has_ws, has_ws_chars, is_blank, last_index, lemma_first_index, lemma_first_index_at, lemma_last_index, lemma_last_index_at, push_char, push_str, string_of};
use crate::decimal::{decimal, lemma_decimal, lemma_parse_decimal, parse_number, parse_unsigned, push_decimal};
use crate::error::{ConduitError, ErrorModel};
use crate::cli::ForwardArgs;
use crate::expose::types::{auth_of, select_auth, select_user, server_addr_check, parse_server_addr, user_of, public_bind_host, AuthConfig, AuthModel};

verus! {

/// The user part of `[USER@]REST`: the text before the first `@`, which, when
/// there is an `@`, must be followed and preceded by something. `None` when
/// the shape is wrong.
pub open spec fn split_user(s: Seq<char>) -> Option<(Option<Seq<char>>, Seq<char>)> {
    match first_index(s, '@') {
        None => Some((None, s)),
        Some(i) => if i > 0 && i + 1 < s.len() {
            Some((Some(s.take(i)), s.skip(i + 1)))
        } else {
            None
        },
    }
}

/// Splits `v[lo..hi]` as `split_user` does; the text after the user starts at
/// the returned position.
pub fn split_user_chars(v: &Vec<char>, lo: usize, hi: usize) -> (r: Option<(Option<String>, usize)>)
    requires
        lo <= hi <= v@.len(),
    ensures
        match split_user(v@.subrange(lo as int, hi as int)) {
            None => r is None,
            Some((u, rest)) => match r {
                Some((ru, pos)) => lo <= pos <= hi && rest == v@.subrange(pos as int, hi as int)
                    && opt_text(ru) == u,
                None => false,
            },
        },
{
    let ghost s = v@.subrange(lo as int, hi as int);
    let at = find_first(v, lo, hi, '@');
    proof {
        lemma_first_index(s, '@');
    }
    match at {
        None => Some((None, lo)),
        Some(k) => {
            if k > lo && k + 1 < hi {
                let u = string_of(v, lo, k);
                assert(s.take(k - lo) =~= v@.subrange(lo as int, k as int));
                assert(s.skip(k - lo + 1) =~= v@.subrange(k + 1, hi as int));
                Some((Some(u), k + 1))
            } else {
                None
            }
        },
    }
}

// ---------------------------------------------------------------------------
// [USER@]SERVER[:PORT]

/// The SSH server of a `forward` command.
#[derive(Debug, Clone, PartialEq, Eq)]
pub struct ForwardRemoteSpec {
    pub user: Option<String>,
    pub server_host: String,
    pub server_port: u16,
}

pub struct ForwardRemoteModel {
    pub user: Option<Seq<char>>,
    pub server_host: Seq<char>,
    pub server_port: u16,
}

impl View for ForwardRemoteSpec {
    type V = ForwardRemoteModel;

    open spec fn view(&self) -> ForwardRemoteModel {
        ForwardRemoteModel { user: opt_text(self.user), server_host: self.server_host@, server_port: self.server_port }
    }
}

/// The SSH port used when `-r` names none.
pub open spec fn default_ssh_port() -> u16 {
    22
}

/// The server that a `-r` text denotes. After the optional user, a host that
/// starts with `[` runs to the first `]` and may be followed by `:PORT`;
/// otherwise the text after the last `:` is the port, and the host before it
/// must be non-empty and free of further colons. Without a port the SSH port
/// is 22. An unbracketed host must not be blank.
pub open spec fn forward_remote_of(s: Seq<char>) -> Option<ForwardRemoteModel> {
    match split_user(s) {
        None => None,
        Some((user, rem)) => if rem.len() > 0 && rem[0] == '[' {
            match first_index(rem, ']') {
                None => None,
                Some(e) => {
                    let host = rem.take(e + 1);
                    let rest = rem.skip(e + 1);
                    if rest.len() == 0 {
                        Some(ForwardRemoteModel { user, server_host: host, server_port: default_ssh_port() })
                    } else if rest[0] != ':' {
                        None
                    } else {
                        match parse_unsigned(rest.drop_first(), u16::MAX as nat) {
                            Some(p) => Some(ForwardRemoteModel { user, server_host: host, server_port: p as u16 }),
                            None => None,
                        }
                    }
                },
            }
        } else {
            match last_index(rem, ':') {
                Some(j) => {
                    let host = rem.take(j);
                    if host.len() == 0 || has_char(host, ':') {
                        None
                    } else {
                        match parse_unsigned(rem.skip(j + 1), u16::MAX as nat) {
                            None => None,
                            Some(p) => if is_blank(host) {
                                None
                            } else {
                                Some(ForwardRemoteModel { user, server_host: host, server_port: p as u16 })
                            },
                        }
                    }
                },
                None => if is_blank(rem) {
                    None
                } else {
                    Some(ForwardRemoteModel { user, server_host: rem, server_port: default_ssh_port() })
                },
            }
        },
    }
}

impl ForwardRemoteSpec {
    /// Parses `[USER@]SERVER[:PORT]`.
    #[verifier::rlimit(60)]
    pub fn parse(input: &str) -> (r: Result<ForwardRemoteSpec, ConduitError>)
        ensures
            match forward_remote_of(input@) {
                Some(m) => r is Ok && r->Ok_0@ == m,
                None => r is Err && (r->Err_0 matches ConduitError::InvalidForwardRemote(t) && t@ == input@),
            },
    {
        let v = chars_of(input);
        let n = v.len();
        let ghost s = v@;
        assert(v@.subrange(0, n as int) =~= s);
        let (user, start) = match split_user_chars(&v, 0, n) {
            None => return Err(ConduitError::InvalidForwardRemote(input.to_string())),
            Some(p) => p,
        };
        let ghost rem = v@.subrange(start as int, n as int);
        if start < n && v[start] == '[' {
            let close = find_first(&v, start, n, ']');
            proof {
                lemma_first_index(rem, ']');
            }
            let e = match close {
                None => return Err(ConduitError::InvalidForwardRemote(input.to_string())),
                Some(e) => e,
            };
            assert(rem.take(e + 1 - start) =~= v@.subrange(start as int, e + 1));
            assert(rem.skip(e + 1 - start) =~= v@.subrange(e + 1, n as int));
            let host = string_of(&v, start, e + 1);
            if e + 1 == n {
                return Ok(ForwardRemoteSpec { user, server_host: host, server_port: 22 });
            }
            if v[e + 1] != ':' {
                return Err(ConduitError::InvalidForwardRemote(input.to_string()));
            }
            assert(v@.subrange(e + 1, n as int).drop_first() =~= v@.subrange(e + 2, n as int));
            match parse_number(&v, e + 2, n, u16::MAX as u64) {
                Some(p) => Ok(ForwardRemoteSpec { user, server_host: host, server_port: p as u16 }),
                None => Err(ConduitError::InvalidForwardRemote(input.to_string())),
            }
        } else {
            let last = find_last(&v, start, n, ':');
            proof {
                lemma_last_index(rem, ':');
            }
            match last {
                Some(j) => {
                    assert(rem.take(j - start) =~= v@.subrange(start as int, j as int));
                    assert(rem.skip(j + 1 - start) =~= v@.subrange(j + 1, n as int));
                    if j == start || crate::text::has_char_chars(&v, start, j, ':') {
                        return Err(ConduitError::InvalidForwardRemote(input.to_string()));
                    }
                    let port = match parse_number(&v, j + 1, n, u16::MAX as u64) {
                        None => return Err(ConduitError::InvalidForwardRemote(input.to_string())),
                        Some(p) => p,
                    };
                    if blank_chars(&v, start, j) {
                        return Err(ConduitError::InvalidForwardRemote(input.to_string()));
                    }
                    Ok(ForwardRemoteSpec { user, server_host: string_of(&v, start, j), server_port: port as u16 })
                },
                None => {
                    if blank_chars(&v, start, n) {
                        return Err(ConduitError::InvalidForwardRemote(input.to_string()));
                    }
                    Ok(ForwardRemoteSpec { user, server_host: string_of(&v, start, n), server_port: 22 })
                },
            }
        }
    }
}

// ---------------------------------------------------------------------------
// LOCAL_PORT:TARGET_HOST:TARGET_PORT

/// One local forward: connections to `local_port` go to `target_host:target_port`
/// on the SSH server's side.
#[derive(Debug, Clone, PartialEq, Eq)]
pub struct ForwardMapping {
    pub local_port: u16,
    pub target_host: String,
    pub target_port: u16,
}

pub struct MappingModel {
    pub local_port: u16,
    pub target_host: Seq<char>,
    pub target_port: u16,
}

impl View for ForwardMapping {
    type V = MappingModel;

    open spec fn view(&self) -> MappingModel {
        MappingModel {
            local_port: self.local_port,
            target_host: self.target_host@,
            target_port: self.target_port,
        }
    }
}

/// The mapping that a `-L` text denotes: the text before the first `:` is the
/// local port, the text after the last `:` the target port, and what lies
/// between the target host, which must be non-blank and free of whitespace.
pub open spec fn mapping_of(s: Seq<char>) -> Option<MappingModel> {
    match first_index(s, ':') {
        None => None,
        Some(i) => {
            let rem = s.skip(i + 1);
            match last_index(rem, ':') {
                None => None,
                Some(j) => {
                    let host = rem.take(j);
                    let port = rem.skip(j + 1);
                    if is_blank(host) || has_ws(host) {
                        None
                    } else {
                        match (parse_unsigned(s.take(i), u16::MAX as nat), parse_unsigned(port, u16::MAX as nat)) {
                            (Some(a), Some(b)) => Some(
                                MappingModel { local_port: a as u16, target_host: host, target_port: b as u16 },
                            ),
                            _ => None,
                        }
                    }
                },
            }
        },
    }
}

/// `host:port`.
pub open spec fn host_port_text(host: Seq<char>, port: nat) -> Seq<char> {
    host + seq![':'] + decimal(port)
}

/// `LOCAL_PORT:TARGET_HOST:TARGET_PORT`.
pub open spec fn mapping_text(m: MappingModel) -> Seq<char> {
    decimal(m.local_port as nat) + seq![':'] + m.target_host + seq![':'] + decimal(m.target_port as nat)
}

impl ForwardMapping {
    /// Parses `LOCAL_PORT:TARGET_HOST:TARGET_PORT`.
    pub fn parse(input: &str) -> (r: Result<ForwardMapping, ConduitError>)
        ensures
            match mapping_of(input@) {
                Some(m) => r is Ok && r->Ok_0@ == m,
                None => r is Err && (r->Err_0 matches ConduitError::InvalidForwardLocalSpec(t) && t@ == input@),
            },
    {
        let v = chars_of(input);
        let n = v.len();
        let ghost s = v@;
        assert(v@.subrange(0, n as int) =~= s);
        let colon = find_first(&v, 0, n, ':');
        proof {
            lemma_first_index(s, ':');
        }
        let i = match colon {
            None => return Err(ConduitError::InvalidForwardLocalSpec(input.to_string())),
            Some(i) => i,
        };
        let last = find_last(&v, i + 1, n, ':');
        let ghost rem = s.skip(i + 1);
        assert(v@.subrange(i + 1, n as int) =~= rem);
        proof {
            lemma_last_index(rem, ':');
        }
        let j = match last {
            None => return Err(ConduitError::InvalidForwardLocalSpec(input.to_string())),
            Some(j) => j,
        };
        assert(rem.take(j - i - 1) =~= v@.subrange(i + 1, j as int));
        assert(rem.skip(j - i) =~= v@.subrange(j + 1, n as int));
        assert(s.take(i as int) =~= v@.subrange(0, i as int));
        if blank_chars(&v, i + 1, j) || has_ws_chars(&v, i + 1, j) {
            return Err(ConduitError::InvalidForwardLocalSpec(input.to_string()));
        }
        let local_port = match parse_number(&v, 0, i, u16::MAX as u64) {
            Some(p) => p,
            None => return Err(ConduitError::InvalidForwardLocalSpec(input.to_string())),
        };
        let target_port = match parse_number(&v, j + 1, n, u16::MAX as u64) {
            Some(p) => p,
            None => return Err(ConduitError::InvalidForwardLocalSpec(input.to_string())),
        };
        Ok(ForwardMapping {
            local_port: local_port as u16,
            target_host: string_of(&v, i + 1, j),
            target_port: target_port as u16,
        })
    }

    /// `TARGET_HOST:TARGET_PORT`.
    pub fn target_addr(&self) -> (r: String)
        ensures
            r@ == host_port_text(self.target_host@, self.target_port as nat),
    {
        let mut out = String::new();
        push_str(&mut out, self.target_host.as_str());
        push_char(&mut out, ':');
        push_decimal(&mut out, self.target_port as u64);
        out
    }

    /// `LOCAL_PORT:TARGET_HOST:TARGET_PORT`.
    pub fn encoded_spec(&self) -> (r: String)
        ensures
            r@ == mapping_text(self@),
    {
        let mut out = String::new();
        push_decimal(&mut out, self.local_port as u64);
        push_char(&mut out, ':');
        push_str(&mut out, self.target_host.as_str());
        push_char(&mut out, ':');
        push_decimal(&mut out, self.target_port as u64);
        out
    }
}

/// Parsing the encoded text of a mapping gives the mapping back, provided its
/// target host is non-empty and free of whitespace.
pub proof fn lemma_mapping_round_trip(m: MappingModel)
    requires
        m.target_host.len() > 0,
        !has_ws(m.target_host),
    ensures
        mapping_of(mapping_text(m)) == Some(m),
{
    let a = decimal(m.local_port as nat);
    let b = decimal(m.target_port as nat);
    let h = m.target_host;
    lemma_decimal(m.local_port as nat);
    lemma_decimal(m.target_port as nat);
    lemma_parse_decimal(m.local_port as nat, u16::MAX as nat);
    lemma_parse_decimal(m.target_port as nat, u16::MAX as nat);
    let s = mapping_text(m);
    let n = a.len() as int;
    assert forall|k: int| 0 <= k < n implies s[k] != ':' by {
        assert(s[k] == a[k]);
    }
    lemma_first_index_at(s, ':', n);
    let rem = s.skip(n + 1);
    assert(rem =~= h + seq![':'] + b);
    let hl = h.len() as int;
    assert forall|k: int| hl < k < rem.len() implies rem[k] != ':' by {
        assert(rem[k] == b[k - hl - 1]);
    }
    lemma_last_index_at(rem, ':', hl);
    assert(rem.take(hl) =~= h);
    assert(rem.skip(hl + 1) =~= b);
    assert(s.take(n) =~= a);
    assert(!is_blank(h)) by {
        if is_blank(h) {
            assert(crate::text::is_ws(h[0]));
        }
    }
}


// ---------------------------------------------------------------------------
// Configuration of a forward tunnel

/// What a forward tunnel needs to run.
#[derive(Debug, Clone)]
pub struct ForwardConfig {
    pub server: String,
    pub user: String,
    pub bind_addr: String,
    pub mappings: Vec<ForwardMapping>,
    pub auth: AuthConfig,
    pub daemon: bool,
    pub log_file: Option<String>,
    pub insecure_accept_host_key: bool,
}

pub struct ForwardModel {
    pub server: Seq<char>,
    pub user: Seq<char>,
    pub bind_addr: Seq<char>,
    pub mappings: Seq<MappingModel>,
    pub auth: AuthModel,
    pub daemon: bool,
    pub log_file: Option<Seq<char>>,
    pub insecure_accept_host_key: bool,
}

pub open spec fn mappings_view(v: Seq<ForwardMapping>) -> Seq<MappingModel> {
    v.map_values(|m: ForwardMapping| m@)
}

pub open spec fn texts_view(v: Seq<String>) -> Seq<Seq<char>> {
    v.map_values(|s: String| s@)
}

impl View for ForwardConfig {
    type V = ForwardModel;

    open spec fn view(&self) -> ForwardModel {
        ForwardModel {
            server: self.server@,
            user: self.user@,
            bind_addr: self.bind_addr@,
            mappings: mappings_view(self.mappings@),
            auth: self.auth@,
            daemon: self.daemon,
            log_file: opt_text(self.log_file),
            insecure_accept_host_key: self.insecure_accept_host_key,
        }
    }
}

/// How a socket address on `ip` and `port` is written: an IPv6 address (one
/// with a colon) in brackets.
pub open spec fn socket_text(ip: Seq<char>, port: nat) -> Seq<char> {
    let host = if has_char(ip, ':') {
        seq!['['] + ip + seq![']']
    } else {
        ip
    };
    host + seq![':'] + decimal(port)
}

/// The bind address used when neither `--bind` nor `--gateway` is given.
pub open spec fn loopback_host() -> Seq<char> {
    seq!['1', '2', '7', '.', '0', '.', '0', '.', '1']
}

/// The mappings that the `-L` texts give, in order, or the first error: a
/// text that is no mapping, or a mapping whose local port an earlier one
/// already binds on `bind`.
pub open spec fn mappings_of(specs: Seq<Seq<char>>, bind: Seq<char>) -> Result<Seq<MappingModel>, ErrorModel>
    decreases specs.len(),
{
    if specs.len() == 0 {
        Ok(Seq::empty())
    } else {
        match mappings_of(specs.drop_last(), bind) {
            Err(e) => Err(e),
            Ok(ms) => match mapping_of(specs.last()) {
                None => Err(ErrorModel::InvalidForwardLocalSpec(specs.last())),
                Some(m) => if exists|j: int| 0 <= j < ms.len() && (#[trigger] ms[j]).local_port == m.local_port {
                    Err(ErrorModel::DuplicateForwardBind(socket_text(bind, m.local_port as nat)))
                } else {
                    Ok(ms.push(m))
                },
            },
        }
    }
}

/// The configuration that `forward` arguments give, or the first error.
/// `key_exists` says whether the key path names a file, `bind_ip` is the IP
/// address that `--bind` (127.0.0.1 when absent) denotes, as it is written
/// back (`None` when it denotes none), and `server_is_socket_addr` whether
/// `SERVER:PORT` parses as a socket address.
pub open spec fn forward_config_of(
    a: ForwardArgs,
    key_exists: bool,
    bind_ip: Option<Seq<char>>,
    server_is_socket_addr: bool,
) -> Result<ForwardModel, ErrorModel> {
    if a.local@.len() == 0 {
        Err(ErrorModel::MissingForwardLocalSpec)
    } else {
        match forward_remote_of(a.remote@) {
            None => Err(ErrorModel::InvalidForwardRemote(a.remote@)),
            Some(remote) => match auth_of(opt_text(a.password), opt_text(a.key), key_exists) {
                Err(e) => Err(e),
                Ok(auth) => match user_of(remote.user, opt_text(a.user)) {
                    Err(e) => Err(e),
                    Ok(user) => {
                        let bind: Result<Seq<char>, ErrorModel> = if a.gateway {
                            Ok(public_bind_host())
                        } else {
                            match bind_ip {
                                Some(ip) => Ok(ip),
                                None => Err(
                                    ErrorModel::InvalidBindAddress(
                                        match a.bind {
                                            Some(b) => b@,
                                            None => loopback_host(),
                                        },
                                    ),
                                ),
                            }
                        };
                        match bind {
                            Err(e) => Err(e),
                            Ok(bind) => match mappings_of(texts_view(a.local@), bind) {
                                Err(e) => Err(e),
                                Ok(ms) => {
                                    let server = host_port_text(remote.server_host, remote.server_port as nat);
                                    match server_addr_check(server, server_is_socket_addr) {
                                        Err(e) => Err(e),
                                        Ok(_) => if !a.insecure_accept_host_key {
                                            Err(ErrorModel::MissingHostKeyPolicy)
                                        } else {
                                            Ok(
                                                ForwardModel {
                                                    server,
                                                    user,
                                                    bind_addr: bind,
                                                    mappings: ms,
                                                    auth,
                                                    daemon: a.daemon,
                                                    log_file: opt_text(a.log_file),
                                                    insecure_accept_host_key: a.insecure_accept_host_key,
                                                },
                                            )
                                        },
                                    }
                                },
                            },
                        }
                    },
                },
            },
        }
    }
}

/// How a socket address on `ip` and `port` is written.
pub fn socket_addr_text(ip: &str, port: u16) -> (r: String)
    ensures
        r@ == socket_text(ip@, port as nat),
{
    let v = chars_of(ip);
    assert(v@.subrange(0, v@.len() as int) =~= ip@);
    let mut out = String::new();
    if crate::text::has_char_chars(&v, 0, v.len(), ':') {
        push_char(&mut out, '[');
        push_str(&mut out, ip);
        push_char(&mut out, ']');
    } else {
        push_str(&mut out, ip);
    }
    push_char(&mut out, ':');
    push_decimal(&mut out, port as u64);
    out
}

/// An error in a prefix of the `-L` texts is the error of all of them.
proof fn lemma_mappings_err_extends(specs: Seq<Seq<char>>, bind: Seq<char>, n: int)
    requires
        0 <= n <= specs.len(),
        mappings_of(specs.take(n), bind) is Err,
    ensures
        mappings_of(specs, bind) == mappings_of(specs.take(n), bind),
    decreases specs.len() - n,
{
    if n < specs.len() {
        let q = specs.take(n + 1);
        assert(q.drop_last() =~= specs.take(n));
        assert(mappings_of(q, bind) == mappings_of(specs.take(n), bind));
        lemma_mappings_err_extends(specs, bind, n + 1);
    } else {
        assert(specs.take(n) =~= specs);
    }
}

/// The mappings that are accepted bind pairwise different local ports, one
/// per `-L` text, in order.
pub proof fn lemma_mappings_distinct(specs: Seq<Seq<char>>, bind: Seq<char>)
    ensures
        mappings_of(specs, bind) matches Ok(ms) ==> {
            &&& ms.len() == specs.len()
            &&& forall|i: int| 0 <= i < ms.len() ==> mapping_of(specs[i]) == Some(#[trigger] ms[i])
            &&& forall|i: int, j: int| 0 <= i < j < ms.len() ==> (#[trigger] ms[i]).local_port != (#[trigger] ms[j]).local_port
        },
    decreases specs.len(),
{
    if specs.len() > 0 {
        lemma_mappings_distinct(specs.drop_last(), bind);
        match (mappings_of(specs, bind), mappings_of(specs.drop_last(), bind)) {
            (Ok(ms), Ok(prev)) => {
                let m = mapping_of(specs.last())->0;
                assert(ms == prev.push(m));
                assert forall|i: int| 0 <= i < ms.len() implies mapping_of(specs[i]) == Some(#[trigger] ms[i]) by {
                    if i < ms.len() - 1 {
                        assert(specs[i] == specs.drop_last()[i]);
                        assert(ms[i] == prev[i]);
                    }
                }
                assert forall|i: int, j: int| 0 <= i < j < ms.len() implies (#[trigger] ms[i]).local_port
                    != (#[trigger] ms[j]).local_port by {
                    if j == ms.len() - 1 {
                        assert(ms[i] == prev[i]);
                    } else {
                        assert(ms[i] == prev[i] && ms[j] == prev[j]);
                    }
                }
            },
            _ => {},
        }
    }
}

/// The stored text of a tunnel's mappings: their `-L` texts, separated by
/// single spaces (no mapping text holds whitespace).
pub open spec fn mappings_text(ms: Seq<MappingModel>) -> Seq<char>
    decreases ms.len(),
{
    if ms.len() == 0 {
        Seq::empty()
    } else if ms.len() == 1 {
        mapping_text(ms[0])
    } else {
        mappings_text(ms.drop_last()) + seq![' '] + mapping_text(ms.last())
    }
}

/// The `-L` texts of mappings, in order.
pub open spec fn mapping_texts(ms: Seq<MappingModel>) -> Seq<Seq<char>> {
    ms.map_values(|m: MappingModel| mapping_text(m))
}

/// Mappings such as `mappings_of` gives: every target host non-blank and free
/// of whitespace, and no local port bound twice.
pub open spec fn mappings_valid(ms: Seq<MappingModel>) -> bool {
    &&& forall|i: int| 0 <= i < ms.len() ==> !is_blank((#[trigger] ms[i]).target_host) && !has_ws(ms[i].target_host)
    &&& forall|i: int, j: int| 0 <= i < j < ms.len() ==> (#[trigger] ms[i]).local_port != (#[trigger] ms[j]).local_port
}

/// The `-L` text of a mapping whose target host holds no whitespace holds no
/// space.
proof fn lemma_mapping_text_no_space(m: MappingModel)
    requires
        !has_ws(m.target_host),
    ensures
        !has_char(mapping_text(m), ' '),
{
    let a = decimal(m.local_port as nat);
    let b = decimal(m.target_port as nat);
    let h = m.target_host;
    lemma_decimal(m.local_port as nat);
    lemma_decimal(m.target_port as nat);
    let s = mapping_text(m);
    let x = a.len() as int;
    let y = x + 1 + h.len();
    assert forall|k: int| 0 <= k < s.len() implies #[trigger] s[k] != ' ' by {
        if k < x {
            assert(s[k] == a[k]);
            if a[k] == ' ' {
                assert(crate::text::is_ws(a[k]));
            }
        } else if x < k < y {
            assert(s[k] == h[k - x - 1]);
            if h[k - x - 1] == ' ' {
                assert(crate::text::is_ws(h[k - x - 1]));
            }
        } else if k > y {
            assert(s[k] == b[k - y - 1]);
            if b[k - y - 1] == ' ' {
                assert(crate::text::is_ws(b[k - y - 1]));
            }
        }
    }
}

/// Splitting the stored text of mappings at spaces gives their `-L` texts.
pub proof fn lemma_split_mappings_text(ms: Seq<MappingModel>)
    requires
        ms.len() > 0,
        forall|i: int| 0 <= i < ms.len() ==> !has_ws((#[trigger] ms[i]).target_host),
    ensures
        crate::text::split_on(mappings_text(ms), ' ') == mapping_texts(ms),
    decreases ms.len(),
{
    let t = mapping_text(ms.last());
    lemma_mapping_text_no_space(ms.last());
    if ms.len() == 1 {
        crate::text::lemma_split_single(t, ' ');
        assert(mapping_texts(ms) =~= seq![t]);
    } else {
        let p = ms.drop_last();
        assert forall|i: int| 0 <= i < p.len() implies !has_ws((#[trigger] p[i]).target_host) by {
            assert(p[i] == ms[i]);
        }
        lemma_split_mappings_text(p);
        crate::text::lemma_split_snoc(mappings_text(p), t, ' ');
        assert(mapping_texts(ms) =~= mapping_texts(p).push(t));
    }
}

/// Reading back the `-L` texts of valid mappings gives the mappings.
pub proof fn lemma_mappings_of_texts(ms: Seq<MappingModel>, bind: Seq<char>)
    requires
        mappings_valid(ms),
    ensures
        mappings_of(mapping_texts(ms), bind) == Ok::<Seq<MappingModel>, ErrorModel>(ms),
    decreases ms.len(),
{
    let texts = mapping_texts(ms);
    if ms.len() == 0 {
        assert(texts =~= Seq::<Seq<char>>::empty());
        assert(ms =~= Seq::<MappingModel>::empty());
    } else {
        let p = ms.drop_last();
        let m = ms.last();
        assert forall|i: int| 0 <= i < p.len() implies !is_blank((#[trigger] p[i]).target_host) && !has_ws(
            p[i].target_host,
        ) by {
            assert(p[i] == ms[i]);
        }
        assert forall|i: int, j: int| 0 <= i < j < p.len() implies (#[trigger] p[i]).local_port != (
        #[trigger] p[j]).local_port by {
            assert(p[i] == ms[i]);
            assert(p[j] == ms[j]);
        }
        lemma_mappings_of_texts(p, bind);
        assert(texts.drop_last() =~= mapping_texts(p));
        assert(texts.last() == mapping_text(m));
        assert(m.target_host.len() > 0) by {
            if m.target_host.len() == 0 {
                assert(is_blank(m.target_host));
            }
        }
        lemma_mapping_round_trip(m);
        assert forall|j: int| 0 <= j < p.len() implies (#[trigger] p[j]).local_port != m.local_port by {
            assert(p[j] == ms[j]);
        }
        assert(p.push(m) =~= ms);
    }
}

/// The mappings of the `-L` texts, as `mappings_of` states.
pub fn parse_mappings(specs: &Vec<String>, bind: &str) -> (r: Result<Vec<ForwardMapping>, ConduitError>)
    ensures
        match mappings_of(texts_view(specs@), bind@) {
            Ok(ms) => r is Ok && mappings_view(r->Ok_0@) == ms,
            Err(e) => r is Err && r->Err_0@ == e,
        },
{
    let ghost all = texts_view(specs@);
    let mut ms: Vec<ForwardMapping> = Vec::new();
    let mut seen: HashSet<u16> = HashSet::new();
    let mut i: usize = 0;
    proof {
        broadcast use {
            vstd::std_specs::hash::axiom_u16_obeys_hash_table_key_model,
            vstd::std_specs::hash::axiom_random_state_builds_valid_hashers,
        };
        assert(vstd::std_specs::hash::obeys_key_model::<u16>());
        assert(vstd::std_specs::hash::builds_valid_hashers::<std::hash::RandomState>());
    }
    assert(all.take(0) =~= Seq::<Seq<char>>::empty());
    assert(mappings_view(ms@) =~= Seq::<MappingModel>::empty());
    while i < specs.len()
        invariant
            0 <= i <= specs@.len(),
            all == texts_view(specs@),
            mappings_of(all.take(i as int), bind@) == Ok::<Seq<MappingModel>, ErrorModel>(mappings_view(ms@)),
            vstd::std_specs::hash::obeys_key_model::<u16>(),
            vstd::std_specs::hash::builds_valid_hashers::<std::hash::RandomState>(),
            forall|p: u16| #[trigger] seen@.contains(p) <==> exists|k: int| 0 <= k < mappings_view(ms@).len()
                && (#[trigger] mappings_view(ms@)[k]).local_port == p,
        decreases specs.len() - i,
    {
        let ghost prefix = all.take(i + 1);
        assert(prefix.drop_last() =~= all.take(i as int));
        assert(prefix.last() == specs@[i as int]@);
        let parsed = ForwardMapping::parse(specs[i].as_str());
        let m = match parsed {
            Ok(m) => m,
            Err(e) => {
                proof {
                    lemma_mappings_err_extends(all, bind@, i + 1);
                }
                return Err(e);
            },
        };
        let ghost old_seen = seen@;
        let ghost old_view = mappings_view(ms@);
        if !seen.insert(m.local_port) {
            assert(old_seen.contains(m.local_port));
            let bind_text = socket_addr_text(bind, m.local_port);
            proof {
                lemma_mappings_err_extends(all, bind@, i + 1);
            }
            return Err(ConduitError::DuplicateForwardBind(bind_text));
        }
        assert(!old_seen.contains(m.local_port));
        assert(!exists|k: int| 0 <= k < old_view.len() && (#[trigger] old_view[k]).local_port == m@.local_port);
        ms.push(m);
        assert(mappings_view(ms@) =~= old_view.push(m@));
        assert forall|p: u16| #[trigger] seen@.contains(p) <==> exists|k: int| 0 <= k < mappings_view(ms@).len()
            && (#[trigger] mappings_view(ms@)[k]).local_port == p by {
            let nv = mappings_view(ms@);
            if p == m.local_port {
                assert(nv[old_view.len() as int].local_port == p);
            } else if old_seen.contains(p) {
                let k = choose|k: int| 0 <= k < old_view.len() && (#[trigger] old_view[k]).local_port == p;
                assert(nv[k] == old_view[k]);
            } else if exists|k: int| 0 <= k < nv.len() && (#[trigger] nv[k]).local_port == p {
                let k = choose|k: int| 0 <= k < nv.len() && (#[trigger] nv[k]).local_port == p;
                assert(k < old_view.len());
                assert(old_view[k] == nv[k]);
            }
        }
        i = i + 1;
    }
    assert(all.take(specs@.len() as int) =~= all);
    Ok(ms)
}

/// The mappings that parsed `-L` texts give are valid.
pub proof fn lemma_parsed_mappings_valid(specs: Seq<Seq<char>>, bind: Seq<char>)
    ensures
        mappings_of(specs, bind) matches Ok(ms) ==> mappings_valid(ms),
{
    lemma_mappings_distinct(specs, bind);
    match mappings_of(specs, bind) {
        Ok(ms) => {
            assert forall|i: int| 0 <= i < ms.len() implies !is_blank((#[trigger] ms[i]).target_host) && !has_ws(
                ms[i].target_host,
            ) by {
                assert(mapping_of(specs[i]) == Some(ms[i]));
            }
        },
        Err(_) => {},
    }
}

/// A configuration that `forward` arguments give has at least one mapping,
/// and its mappings are valid.
pub proof fn lemma_forward_config_mappings(
    a: ForwardArgs,
    key_exists: bool,
    bind_ip: Option<Seq<char>>,
    server_is_socket_addr: bool,
)
    ensures
        forward_config_of(a, key_exists, bind_ip, server_is_socket_addr) matches Ok(c) ==> c.mappings.len() > 0
            && mappings_valid(c.mappings),
{
    let specs = texts_view(a.local@);
    lemma_parsed_mappings_valid(specs, public_bind_host());
    lemma_mappings_distinct(specs, public_bind_host());
    match bind_ip {
        Some(ip) => {
            lemma_parsed_mappings_valid(specs, ip);
            lemma_mappings_distinct(specs, ip);
        },
        None => {},
    }
}

/// The `-L` texts fail only as a text that is no mapping or a bind taken twice.
pub proof fn lemma_mappings_errors(specs: Seq<Seq<char>>, bind: Seq<char>)
    ensures
        mappings_of(specs, bind) matches Err(e) ==> e is InvalidForwardLocalSpec || e is DuplicateForwardBind,
    decreases specs.len(),
{
    if specs.len() > 0 {
        lemma_mappings_errors(specs.drop_last(), bind);
    }
}

/// What a successful `forward` configuration holds: SSH to the server host
/// and port of `-r`, as the user that `USER@` or `--user` names, listening on
/// 0.0.0.0 with `--gateway` and otherwise on the given bind address, with
/// the given credentials. The user is reported missing only when neither
/// `USER@` nor `--user` names one.
pub proof fn lemma_forward_config(a: ForwardArgs, key_exists: bool, bind_ip: Option<Seq<char>>, server_is_socket_addr: bool)
    ensures
        forward_config_of(a, key_exists, bind_ip, server_is_socket_addr) matches Ok(m) ==> {
            let remote = forward_remote_of(a.remote@)->0;
            &&& forward_remote_of(a.remote@) is Some
            &&& m.server == remote.server_host + seq![':'] + decimal(remote.server_port as nat)
            &&& (remote.user is Some ==> m.user == remote.user->0)
            &&& (a.user is Some ==> m.user == a.user->0@)
            &&& (a.gateway ==> m.bind_addr == seq!['0', '.', '0', '.', '0', '.', '0'])
            &&& (!a.gateway ==> bind_ip is Some && m.bind_addr == bind_ip->0)
            &&& (a.password is Some ==> m.auth == AuthModel::Password(a.password->0@))
            &&& (a.key is Some ==> m.auth == AuthModel::PrivateKey(a.key->0@))
            &&& m.mappings.len() == a.local@.len()
            &&& m.daemon == a.daemon
            &&& m.log_file == opt_text(a.log_file)
            &&& a.insecure_accept_host_key
        },
        forward_config_of(a, key_exists, bind_ip, server_is_socket_addr) == Err::<ForwardModel, ErrorModel>(
            ErrorModel::MissingConnectUser,
        ) ==> a.user is None && forward_remote_of(a.remote@) is Some && forward_remote_of(a.remote@)->0.user is None,
        a.local@.len() > 0 && forward_remote_of(a.remote@) is Some && forward_remote_of(a.remote@)->0.user is None
            && a.user is Some && (a.password is Some != a.key is Some) && (a.key is Some ==> key_exists) && !a.gateway
            && bind_ip is Some && mappings_of(texts_view(a.local@), bind_ip->0) is Ok && server_is_socket_addr
            && a.insecure_accept_host_key ==> forward_config_of(a, key_exists, bind_ip, server_is_socket_addr) is Ok
            && forward_config_of(a, key_exists, bind_ip, server_is_socket_addr)->Ok_0.user == a.user->0@,
{
    crate::expose::types::lemma_user_choice(
        match forward_remote_of(a.remote@) {
            Some(remote) => remote.user,
            None => None,
        },
        opt_text(a.user),
    );
    crate::expose::types::lemma_auth_choice(opt_text(a.password), opt_text(a.key), key_exists);
    let specs = texts_view(a.local@);
    lemma_mappings_distinct(specs, public_bind_host());
    lemma_mappings_errors(specs, public_bind_host());
    match bind_ip {
        Some(ip) => {
            lemma_mappings_distinct(specs, ip);
            lemma_mappings_errors(specs, ip);
        },
        None => {},
    }
}

impl ForwardConfig {
    /// The stored text of the tunnel's mappings; see `mappings_text`.
    pub fn encoded_mappings(&self) -> (r: String)
        ensures
            r@ == mappings_text(self@.mappings),
    {
        let ghost ms = mappings_view(self.mappings@);
        let mut out = String::new();
        let mut i: usize = 0;
        assert(ms.take(0) =~= Seq::<MappingModel>::empty());
        while i < self.mappings.len()
            invariant
                0 <= i <= self.mappings@.len(),
                ms == mappings_view(self.mappings@),
                out@ == mappings_text(ms.take(i as int)),
            decreases self.mappings.len() - i,
        {
            let ghost before = out@;
            if i > 0 {
                push_char(&mut out, ' ');
            }
            let t = self.mappings[i].encoded_spec();
            push_str(&mut out, t.as_str());
            proof {
                let q = ms.take(i + 1);
                assert(q.drop_last() =~= ms.take(i as int));
                assert(q.last() == self.mappings@[i as int]@);
                if i == 0 {
                    assert(out@ =~= t@);
                } else {
                    assert(out@ =~= before + seq![' '] + t@);
                }
            }
            i = i + 1;
        }
        assert(ms.take(self.mappings@.len() as int) =~= ms);
        out
    }

    /// The configuration for `forward`; see `forward_config_of` for what the
    /// three environment answers mean.
    pub fn from_forward_args(
        args: ForwardArgs,
        key_exists: bool,
        bind_ip: Option<String>,
        server_is_socket_addr: bool,
    ) -> (r: Result<ForwardConfig, ConduitError>)
        ensures
            match forward_config_of(args, key_exists, opt_text(bind_ip), server_is_socket_addr) {
                Ok(m) => r is Ok && r->Ok_0@ == m,
                Err(e) => r is Err && r->Err_0@ == e,
            },
    {
        if args.local.len() == 0 {
            return Err(ConduitError::MissingForwardLocalSpec);
        }
        let remote = ForwardRemoteSpec::parse(args.remote.as_str())?;
        let auth = select_auth(args.password, args.key, key_exists)?;
        let user = select_user(copy_opt(&remote.user), args.user)?;
        let bind = if args.gateway {
            proof {
                reveal_strlit("0.0.0.0");
                assert("0.0.0.0"@ =~= public_bind_host());
            }
            "0.0.0.0".to_string()
        } else {
            match bind_ip {
                Some(ip) => ip,
                None => {
                    let shown = match args.bind {
                        Some(b) => b,
                        None => {
                            proof {
                                reveal_strlit("127.0.0.1");
                                assert("127.0.0.1"@ =~= loopback_host());
                            }
                            "127.0.0.1".to_string()
                        },
                    };
                    return Err(ConduitError::InvalidBindAddress(shown));
                },
            }
        };
        let mappings = parse_mappings(&args.local, bind.as_str())?;
        let server = crate::expose::types::host_port(remote.server_host.as_str(), remote.server_port);
        parse_server_addr(server.as_str(), server_is_socket_addr)?;
        if !args.insecure_accept_host_key {
            return Err(ConduitError::MissingHostKeyPolicy);
        }
        Ok(ForwardConfig {
            server,
            user,
            bind_addr: bind,
            mappings,
            auth,
            daemon: args.daemon,
            log_file: args.log_file,
            insecure_accept_host_key: args.insecure_accept_host_key,
        })
    }
}

} // verus!
