//! Reverse tunnels: the `--remote [USER@]SERVER:REMOTE_PORT:[LOCAL_HOST:]LOCAL_PORT`
//! specification, the address checks and the rules that turn the `connect`
//! and `expose` arguments into a configuration.

use vstd::prelude::*;
use crate::cli::{ConnectArgs, ExposeArgs};
use crate::decimal::{decimal, lemma_decimal, lemma_parse_decimal, parse_number, parse_unsigned, push_decimal};
use crate::error::{ConduitError, ErrorModel};
use crate::forward::{host_port_text, split_user, split_user_chars};
use crate::text::{copy_opt, blank_chars, chars_of, find_first, find_last, first_index, has_char, has_char_chars, has_ws, has_ws_chars, is_blank, last_index, lemma_first_index, lemma_first_index_at, lemma_last_index, opt_text, push_char, push_str, split_bounds, split_on, string_of};

verus! {

/// How the SSH session authenticates.
#[derive(Debug, Clone)]
pub enum AuthConfig {
    Password(String),
    PrivateKey(String),
}

pub enum AuthModel {
    Password(Seq<char>),
    PrivateKey(Seq<char>),
}

impl View for AuthConfig {
    type V = AuthModel;

    open spec fn view(&self) -> AuthModel {
        match self {
            AuthConfig::Password(p) => AuthModel::Password(p@),
            AuthConfig::PrivateKey(k) => AuthModel::PrivateKey(k@),
        }
    }
}

/// How the authentication is shown in logs: never the password itself.
pub open spec fn auth_description(a: AuthModel) -> Seq<char> {
    match a {
        AuthModel::Password(_) => "password"@,
        AuthModel::PrivateKey(k) => "private-key("@ + k + ")"@,
    }
}

impl AuthConfig {
    /// How the authentication is shown in logs.
    pub fn describe(&self) -> (r: String)
        ensures
            r@ == auth_description(self@),
    {
        let mut out = String::new();
        match self {
            AuthConfig::Password(_) => push_str(&mut out, "password"),
            AuthConfig::PrivateKey(k) => {
                push_str(&mut out, "private-key(");
                push_str(&mut out, k.as_str());
                push_str(&mut out, ")");
            },
        }
        out
    }
}

/// The authentication that the flags choose: exactly one of a password and a
/// key path, and a key file must exist.
pub open spec fn auth_of(password: Option<Seq<char>>, key: Option<Seq<char>>, key_exists: bool) -> Result<AuthModel, ErrorModel> {
    match (password, key) {
        (Some(p), None) => Ok(AuthModel::Password(p)),
        (None, Some(k)) => if key_exists {
            Ok(AuthModel::PrivateKey(k))
        } else {
            Err(ErrorModel::MissingPrivateKey(k))
        },
        _ => Err(ErrorModel::InvalidAuthConfig),
    }
}

/// Chooses the authentication from the flags; `key_exists` says whether the
/// key path names an existing file.
pub fn select_auth(password: Option<String>, key: Option<String>, key_exists: bool) -> (r: Result<AuthConfig, ConduitError>)
    ensures
        match auth_of(opt_text(password), opt_text(key), key_exists) {
            Ok(a) => r is Ok && r->Ok_0@ == a,
            Err(e) => r is Err && r->Err_0@ == e,
        },
{
    match (password, key) {
        (Some(p), None) => Ok(AuthConfig::Password(p)),
        (None, Some(k)) => if key_exists {
            Ok(AuthConfig::PrivateKey(k))
        } else {
            Err(ConduitError::MissingPrivateKey(k))
        },
        _ => Err(ConduitError::InvalidAuthConfig),
    }
}

/// The SSH user: from `USER@` in the spec or from `--user`; when both are
/// given they must agree.
pub open spec fn user_of(remote_user: Option<Seq<char>>, cli_user: Option<Seq<char>>) -> Result<Seq<char>, ErrorModel> {
    match (remote_user, cli_user) {
        (Some(r), Some(c)) => if r != c {
            Err(ErrorModel::ConflictingConnectUser { remote_user: r, cli_user: c })
        } else {
            Ok(r)
        },
        (Some(r), None) => Ok(r),
        (None, Some(c)) => Ok(c),
        (None, None) => Err(ErrorModel::MissingConnectUser),
    }
}

/// Chooses the SSH user from `USER@` and `--user`.
pub fn select_user(remote_user: Option<String>, cli_user: Option<String>) -> (r: Result<String, ConduitError>)
    ensures
        match user_of(opt_text(remote_user), opt_text(cli_user)) {
            Ok(u) => r is Ok && r->Ok_0@ == u,
            Err(e) => r is Err && r->Err_0@ == e,
        },
{
    match (remote_user, cli_user) {
        (Some(r), Some(c)) => if r != c {
            Err(ConduitError::ConflictingConnectUser { remote_user: r, cli_user: c })
        } else {
            Ok(r)
        },
        (Some(r), None) => Ok(r),
        (None, Some(c)) => Ok(c),
        (None, None) => Err(ConduitError::MissingConnectUser),
    }
}

// ---------------------------------------------------------------------------
// Addresses

/// A remote bind host must be non-blank and free of whitespace.
pub open spec fn remote_host_ok(s: Seq<char>) -> bool {
    !(is_blank(s) || has_ws(s))
}

/// Checks a remote bind host.
pub fn validate_remote_host(remote_host: &str) -> (r: Result<(), ConduitError>)
    ensures
        remote_host_ok(remote_host@) ==> r is Ok,
        !remote_host_ok(remote_host@) ==> r is Err && r->Err_0@ == ErrorModel::InvalidRemoteHost(remote_host@),
{
    let v = chars_of(remote_host);
    assert(v@.subrange(0, v@.len() as int) =~= remote_host@);
    if blank_chars(&v, 0, v.len()) || has_ws_chars(&v, 0, v.len()) {
        return Err(ConduitError::InvalidRemoteHost(remote_host.to_string()));
    }
    Ok(())
}

/// The host and port of a server address are acceptable: a non-blank host
/// without whitespace and a port that parses.
pub open spec fn host_and_port_ok(host: Seq<char>, port: Seq<char>) -> bool {
    !(is_blank(host) || has_ws(host)) && parse_unsigned(port, u16::MAX as nat) is Some
}

/// The verdict on a server address. An address that parses as a socket
/// address is accepted. Otherwise, one that starts with `[` is split at the
/// first `:` after the bracket (and an address without one is reported
/// without its bracket); any other is split at its last `:`, and its host must
/// hold no further colon. Host and port must then be acceptable.
pub open spec fn server_addr_check(s: Seq<char>, is_socket_addr: bool) -> Result<(), ErrorModel> {
    if is_socket_addr {
        Ok(())
    } else if s.len() > 0 && s[0] == '[' {
        let t = s.drop_first();
        match first_index(t, ':') {
            None => Err(ErrorModel::InvalidServerAddress(t)),
            Some(i) => if host_and_port_ok(t.take(i), t.skip(i + 1)) {
                Ok(())
            } else {
                Err(ErrorModel::InvalidServerAddress(s))
            },
        }
    } else {
        match last_index(s, ':') {
            None => Err(ErrorModel::InvalidServerAddress(s)),
            Some(i) => if !has_char(s.take(i), ':') && host_and_port_ok(s.take(i), s.skip(i + 1)) {
                Ok(())
            } else {
                Err(ErrorModel::InvalidServerAddress(s))
            },
        }
    }
}

/// Checks a server address `host:port` or `[ipv6]:port`; `is_socket_addr`
/// says whether `server` parses as a socket address.
pub fn parse_server_addr(server: &str, is_socket_addr: bool) -> (r: Result<(), ConduitError>)
    ensures
        match server_addr_check(server@, is_socket_addr) {
            Ok(_) => r is Ok,
            Err(e) => r is Err && r->Err_0@ == e,
        },
{
    if is_socket_addr {
        return Ok(());
    }
    let v = chars_of(server);
    let n = v.len();
    let ghost s = v@;
    assert(v@.subrange(0, n as int) =~= s);
    let (lo, colon) = if n > 0 && v[0] == '[' {
        let ghost t = s.drop_first();
        assert(v@.subrange(1, n as int) =~= t);
        let c = find_first(&v, 1, n, ':');
        proof {
            lemma_first_index(t, ':');
        }
        match c {
            None => return Err(ConduitError::InvalidServerAddress(string_of(&v, 1, n))),
            Some(c) => {
                assert(t.take(c - 1) =~= v@.subrange(1, c as int));
                assert(t.skip(c as int) =~= v@.subrange(c + 1, n as int));
                (1, c)
            },
        }
    } else {
        let c = find_last(&v, 0, n, ':');
        proof {
            lemma_last_index(s, ':');
        }
        match c {
            None => return Err(ConduitError::InvalidServerAddress(server.to_string())),
            Some(c) => {
                assert(s.take(c as int) =~= v@.subrange(0, c as int));
                assert(s.skip(c + 1) =~= v@.subrange(c + 1, n as int));
                if has_char_chars(&v, 0, c, ':') {
                    return Err(ConduitError::InvalidServerAddress(server.to_string()));
                }
                (0, c)
            },
        }
    };
    if blank_chars(&v, lo, colon) || has_ws_chars(&v, lo, colon) {
        return Err(ConduitError::InvalidServerAddress(server.to_string()));
    }
    if parse_number(&v, colon + 1, n, u16::MAX as u64).is_none() {
        return Err(ConduitError::InvalidServerAddress(server.to_string()));
    }
    Ok(())
}

// ---------------------------------------------------------------------------
// [USER@]SERVER:REMOTE_PORT:[LOCAL_HOST:]LOCAL_PORT

/// The reverse tunnel that a `--remote` text asks for.
#[derive(Debug, Clone, PartialEq, Eq)]
pub struct RemoteSpec {
    pub user: Option<String>,
    pub server_host: String,
    pub remote_port: u16,
    pub local_host: String,
    pub local_port: u16,
}

pub struct RemoteSpecModel {
    pub user: Option<Seq<char>>,
    pub server_host: Seq<char>,
    pub remote_port: u16,
    pub local_host: Seq<char>,
    pub local_port: u16,
}

impl View for RemoteSpec {
    type V = RemoteSpecModel;

    open spec fn view(&self) -> RemoteSpecModel {
        RemoteSpecModel {
            user: opt_text(self.user),
            server_host: self.server_host@,
            remote_port: self.remote_port,
            local_host: self.local_host@,
            local_port: self.local_port,
        }
    }
}

/// The local host used when the spec names none.
pub open spec fn default_local_host() -> Seq<char> {
    seq!['1', '2', '7', '.', '0', '.', '0', '.', '1']
}

/// The reverse tunnel that a `--remote` text denotes: after the optional
/// user, the rest split at every `:` must give three pieces
/// (`SERVER:REMOTE_PORT:LOCAL_PORT`, local host 127.0.0.1) or four
/// (`SERVER:REMOTE_PORT:LOCAL_HOST:LOCAL_PORT`); server and local host must
/// not be blank and both ports must parse.
pub open spec fn remote_spec_of(s: Seq<char>) -> Option<RemoteSpecModel> {
    match split_user(s) {
        None => None,
        Some((user, rem)) => {
            let parts = split_on(rem, ':');
            if parts.len() == 3 || parts.len() == 4 {
                let host = parts[0];
                let lh = if parts.len() == 3 {
                    default_local_host()
                } else {
                    parts[2]
                };
                if is_blank(host) || is_blank(lh) {
                    None
                } else {
                    match (
                        parse_unsigned(parts[1], u16::MAX as nat),
                        parse_unsigned(parts[parts.len() - 1], u16::MAX as nat),
                    ) {
                        (Some(rp), Some(lp)) => Some(
                            RemoteSpecModel {
                                user,
                                server_host: host,
                                remote_port: rp as u16,
                                local_host: lh,
                                local_port: lp as u16,
                            },
                        ),
                        _ => None,
                    }
                }
            } else {
                None
            }
        },
    }
}

/// `[USER@]SERVER:REMOTE_PORT:LOCAL_HOST:LOCAL_PORT`.
pub open spec fn remote_spec_text(m: RemoteSpecModel) -> Seq<char> {
    let u = match m.user {
        Some(u) => u + seq!['@'],
        None => Seq::empty(),
    };
    u + m.server_host + seq![':'] + decimal(m.remote_port as nat) + seq![':'] + m.local_host + seq![':']
        + decimal(m.local_port as nat)
}

impl RemoteSpec {
    /// Parses `[USER@]SERVER:REMOTE_PORT:[LOCAL_HOST:]LOCAL_PORT`.
    pub fn parse(input: &str) -> (r: Result<RemoteSpec, ConduitError>)
        ensures
            match remote_spec_of(input@) {
                Some(m) => r is Ok && r->Ok_0@ == m,
                None => r is Err && r->Err_0@ == ErrorModel::InvalidRemoteSpec(input@),
            },
    {
        let v = chars_of(input);
        let n = v.len();
        assert(v@.subrange(0, n as int) =~= input@);
        let (user, start) = match split_user_chars(&v, 0, n) {
            None => return Err(ConduitError::InvalidRemoteSpec(input.to_string())),
            Some(p) => p,
        };
        let (starts, ends) = split_bounds(&v, start, n, ':');
        let ghost parts = split_on(v@.subrange(start as int, n as int), ':');
        let count = starts.len();
        if count != 3 && count != 4 {
            return Err(ConduitError::InvalidRemoteSpec(input.to_string()));
        }
        let host_blank = blank_chars(&v, starts[0], ends[0]);
        let local_host = if count == 3 {
            proof {
                reveal_strlit("127.0.0.1");
                assert("127.0.0.1"@ =~= default_local_host());
            }
            "127.0.0.1".to_string()
        } else {
            string_of(&v, starts[2], ends[2])
        };
        let lv = chars_of(local_host.as_str());
        assert(lv@.subrange(0, lv@.len() as int) =~= local_host@);
        if host_blank || blank_chars(&lv, 0, lv.len()) {
            return Err(ConduitError::InvalidRemoteSpec(input.to_string()));
        }
        let remote_port = match parse_number(&v, starts[1], ends[1], u16::MAX as u64) {
            Some(p) => p,
            None => return Err(ConduitError::InvalidRemoteSpec(input.to_string())),
        };
        let local_port = match parse_number(&v, starts[count - 1], ends[count - 1], u16::MAX as u64) {
            Some(p) => p,
            None => return Err(ConduitError::InvalidRemoteSpec(input.to_string())),
        };
        Ok(RemoteSpec {
            user,
            server_host: string_of(&v, starts[0], ends[0]),
            remote_port: remote_port as u16,
            local_host,
            local_port: local_port as u16,
        })
    }

    /// `LOCAL_HOST:LOCAL_PORT`, the local target that must parse as a socket
    /// address.
    pub fn local_target(&self) -> (r: String)
        ensures
            r@ == host_port_text(self.local_host@, self.local_port as nat),
    {
        let mut out = String::new();
        push_str(&mut out, self.local_host.as_str());
        push_char(&mut out, ':');
        push_decimal(&mut out, self.local_port as u64);
        out
    }

    /// `[USER@]SERVER:REMOTE_PORT:LOCAL_HOST:LOCAL_PORT`, with the local host
    /// always written out.
    pub fn render(&self) -> (r: String)
        ensures
            r@ == remote_spec_text(self@),
    {
        let mut out = String::new();
        match &self.user {
            Some(u) => {
                push_str(&mut out, u.as_str());
                push_char(&mut out, '@');
            },
            None => {},
        }
        push_str(&mut out, self.server_host.as_str());
        push_char(&mut out, ':');
        push_decimal(&mut out, self.remote_port as u64);
        push_char(&mut out, ':');
        push_str(&mut out, self.local_host.as_str());
        push_char(&mut out, ':');
        push_decimal(&mut out, self.local_port as u64);
        out
    }
}


/// The specs that `render` writes and `parse` reads back unchanged: a user,
/// if any, that is non-empty and holds no `@`; server and local host that are
/// not blank and hold no `:` (nor `@` when there is no user).
pub open spec fn remote_spec_renderable(m: RemoteSpecModel) -> bool {
    &&& match m.user {
        Some(u) => u.len() > 0 && !has_char(u, '@'),
        None => !has_char(m.server_host, '@') && !has_char(m.local_host, '@'),
    }
    &&& !has_char(m.server_host, ':')
    &&& !has_char(m.local_host, ':')
    &&& !is_blank(m.server_host)
    &&& !is_blank(m.local_host)
}

/// Parsing the rendered text of a spec gives the spec back.
pub proof fn lemma_remote_spec_round_trip(m: RemoteSpecModel)
    requires
        remote_spec_renderable(m),
    ensures
        remote_spec_of(remote_spec_text(m)) == Some(m),
{
    let h = m.server_host;
    let l = m.local_host;
    let d1 = decimal(m.remote_port as nat);
    let d2 = decimal(m.local_port as nat);
    lemma_decimal(m.remote_port as nat);
    lemma_decimal(m.local_port as nat);
    lemma_parse_decimal(m.remote_port as nat, u16::MAX as nat);
    lemma_parse_decimal(m.local_port as nat, u16::MAX as nat);
    let rest = h + seq![':'] + d1 + seq![':'] + l + seq![':'] + d2;
    crate::text::lemma_split_single(d2, ':');
    crate::text::lemma_split_cons(l, d2, ':');
    assert(d1 + seq![':'] + l + seq![':'] + d2 =~= d1 + seq![':'] + (l + seq![':'] + d2));
    crate::text::lemma_split_cons(d1, l + seq![':'] + d2, ':');
    assert(rest =~= h + seq![':'] + (d1 + seq![':'] + l + seq![':'] + d2));
    crate::text::lemma_split_cons(h, d1 + seq![':'] + l + seq![':'] + d2, ':');
    let parts = split_on(rest, ':');
    assert(parts =~= seq![h, d1, l, d2]);
    match m.user {
        Some(u) => {
            let t = u + seq!['@'] + rest;
            assert(remote_spec_text(m) =~= t);
            assert forall|j: int| 0 <= j < u.len() implies t[j] != '@' by {
                assert(t[j] == u[j]);
            }
            lemma_first_index_at(t, '@', u.len() as int);
            assert(t.take(u.len() as int) =~= u);
            assert(t.skip(u.len() as int + 1) =~= rest);
        },
        None => {
            assert(remote_spec_text(m) =~= rest);
            assert forall|j: int| 0 <= j < rest.len() implies rest[j] != '@' by {
                let a = h.len() as int;
                let b = a + 1 + d1.len();
                let c = b + 1 + l.len();
                if j < a {
                    assert(rest[j] == h[j]);
                } else if a < j < b {
                    assert(rest[j] == d1[j - a - 1]);
                } else if b < j < c {
                    assert(rest[j] == l[j - b - 1]);
                } else if j > c {
                    assert(rest[j] == d2[j - c - 1]);
                }
            }
            lemma_first_index(rest, '@');
        },
    }
}

/// Every spec that `parse` accepts is one that `render` writes and `parse`
/// reads back unchanged: parsing the rendered text of a parsed spec gives the
/// same spec.
pub proof fn lemma_parsed_remote_spec_round_trip(s: Seq<char>)
    ensures
        match remote_spec_of(s) {
            Some(m) => remote_spec_renderable(m) && remote_spec_of(remote_spec_text(m)) == Some(m),
            None => true,
        },
{
    lemma_first_index(s, '@');
    match split_user(s) {
        None => {},
        Some((user, rem)) => {
            crate::text::lemma_split_pieces(rem, ':', '@');
            let parts = split_on(rem, ':');
            let dh = default_local_host();
            assert forall|j: int| 0 <= j < dh.len() implies #[trigger] dh[j] != ':' && dh[j] != '@' by {}
            assert(!crate::text::is_ws(dh[0]));
            match remote_spec_of(s) {
                Some(m) => {
                    assert(m.server_host == parts[0]);
                    if parts.len() == 4 {
                        assert(m.local_host == parts[2]);
                    } else {
                        assert(m.local_host == dh);
                    }
                    match user {
                        Some(u) => {
                            let i = first_index(s, '@')->0;
                            assert(u == s.take(i));
                        },
                        None => {
                            assert(rem == s);
                        },
                    }
                    assert(remote_spec_renderable(m));
                    lemma_remote_spec_round_trip(m);
                },
                None => {},
            }
        },
    }
}

// ---------------------------------------------------------------------------
// Configuration of a reverse tunnel

/// What a reverse tunnel needs to run.
#[derive(Debug, Clone)]
pub struct ExposeConfig {
    pub server: String,
    pub user: String,
    pub local: String,
    pub remote_host: String,
    pub remote_port: u16,
    pub auth: AuthConfig,
    pub daemon: bool,
    pub log_file: Option<String>,
    pub insecure_accept_host_key: bool,
}

pub struct ExposeModel {
    pub server: Seq<char>,
    pub user: Seq<char>,
    pub local: Seq<char>,
    pub remote_host: Seq<char>,
    pub remote_port: u16,
    pub auth: AuthModel,
    pub daemon: bool,
    pub log_file: Option<Seq<char>>,
    pub insecure_accept_host_key: bool,
}

impl View for ExposeConfig {
    type V = ExposeModel;

    open spec fn view(&self) -> ExposeModel {
        ExposeModel {
            server: self.server@,
            user: self.user@,
            local: self.local@,
            remote_host: self.remote_host@,
            remote_port: self.remote_port,
            auth: self.auth@,
            daemon: self.daemon,
            log_file: opt_text(self.log_file),
            insecure_accept_host_key: self.insecure_accept_host_key,
        }
    }
}

/// The remote bind host of tunnels made by `connect`.
pub open spec fn public_bind_host() -> Seq<char> {
    seq!['0', '.', '0', '.', '0', '.', '0']
}

/// The configuration that `connect` arguments give, or the first error.
/// `key_exists` says whether the key path names a file, `local` is the socket
/// address that the spec's local target denotes (`None` when it denotes
/// none), and `server_is_socket_addr` whether `SERVER:PORT` parses as a
/// socket address.
pub open spec fn connect_config_of(
    a: ConnectArgs,
    key_exists: bool,
    local: Option<Seq<char>>,
    server_is_socket_addr: bool,
) -> Result<ExposeModel, ErrorModel> {
    match remote_spec_of(a.remote@) {
        None => Err(ErrorModel::InvalidRemoteSpec(a.remote@)),
        Some(spec) => match auth_of(opt_text(a.password), opt_text(a.key), key_exists) {
            Err(e) => Err(e),
            Ok(auth) => match user_of(spec.user, opt_text(a.user)) {
                Err(e) => Err(e),
                Ok(user) => {
                    let server = host_port_text(spec.server_host, a.port as nat);
                    match local {
                        None => Err(ErrorModel::InvalidRemoteSpec(remote_spec_text(spec))),
                        Some(l) => match server_addr_check(server, server_is_socket_addr) {
                            Err(e) => Err(e),
                            Ok(_) => if !a.insecure_accept_host_key {
                                Err(ErrorModel::MissingHostKeyPolicy)
                            } else {
                                Ok(
                                    ExposeModel {
                                        server,
                                        user,
                                        local: l,
                                        remote_host: public_bind_host(),
                                        remote_port: spec.remote_port,
                                        auth,
                                        daemon: a.daemon,
                                        log_file: opt_text(a.log_file),
                                        insecure_accept_host_key: a.insecure_accept_host_key,
                                    },
                                )
                            },
                        },
                    }
                },
            },
        },
    }
}

/// The configuration that `expose` arguments give, or the first error, with
/// `key_exists`, `local` (the socket address that `--local` denotes) and
/// `server_is_socket_addr` as for `connect`.
pub open spec fn expose_config_of(
    a: ExposeArgs,
    key_exists: bool,
    local: Option<Seq<char>>,
    server_is_socket_addr: bool,
) -> Result<ExposeModel, ErrorModel> {
    match auth_of(opt_text(a.password), opt_text(a.private_key), key_exists) {
        Err(e) => Err(e),
        Ok(auth) => match local {
            None => Err(ErrorModel::InvalidLocalAddress(a.local@)),
            Some(l) => match server_addr_check(a.server@, server_is_socket_addr) {
                Err(e) => Err(e),
                Ok(_) => if !remote_host_ok(a.remote_host@) {
                    Err(ErrorModel::InvalidRemoteHost(a.remote_host@))
                } else if !a.insecure_accept_host_key {
                    Err(ErrorModel::MissingHostKeyPolicy)
                } else {
                    Ok(
                        ExposeModel {
                            server: a.server@,
                            user: a.user@,
                            local: l,
                            remote_host: a.remote_host@,
                            remote_port: a.remote_port,
                            auth,
                            daemon: a.daemon,
                            log_file: opt_text(a.log_file),
                            insecure_accept_host_key: a.insecure_accept_host_key,
                        },
                    )
                },
            },
        },
    }
}

/// The SSH user is the one that `USER@` or `--user` names: with only one of
/// them given it is that one, with both they must be the same, and with
/// neither the user is missing.
pub proof fn lemma_user_choice(remote_user: Option<Seq<char>>, cli_user: Option<Seq<char>>)
    ensures
        remote_user is None && cli_user is None ==> user_of(remote_user, cli_user) == Err::<Seq<char>, ErrorModel>(
            ErrorModel::MissingConnectUser,
        ),
        remote_user is None && cli_user is Some ==> user_of(remote_user, cli_user) == Ok::<Seq<char>, ErrorModel>(
            cli_user->0,
        ),
        remote_user is Some && cli_user is None ==> user_of(remote_user, cli_user) == Ok::<Seq<char>, ErrorModel>(
            remote_user->0,
        ),
        remote_user is Some && cli_user is Some ==> (user_of(remote_user, cli_user) is Ok <==> remote_user->0
            == cli_user->0),
        user_of(remote_user, cli_user) matches Ok(u) ==> (remote_user is Some ==> u == remote_user->0) && (
        cli_user is Some ==> u == cli_user->0),
{
}

/// The credentials are the one given: a lone password gives password
/// authentication with it, a lone key path whose file exists key
/// authentication with it; anything else fails.
pub proof fn lemma_auth_choice(password: Option<Seq<char>>, key: Option<Seq<char>>, key_exists: bool)
    ensures
        password is Some && key is None ==> auth_of(password, key, key_exists) == Ok::<AuthModel, ErrorModel>(
            AuthModel::Password(password->0),
        ),
        password is None && key is Some && key_exists ==> auth_of(password, key, key_exists) == Ok::<
            AuthModel,
            ErrorModel,
        >(AuthModel::PrivateKey(key->0)),
        password is None && key is Some && !key_exists ==> auth_of(password, key, key_exists) is Err,
        (password is Some) == (key is Some) ==> auth_of(password, key, key_exists) is Err,
{
}

/// What a successful `connect` configuration holds: SSH to the server host
/// of `--remote` on the `--port` port, as the user that `USER@` or `--user`
/// names, forwarding the spec's remote port, bound on all interfaces, to the
/// given local target, with the given credentials. The user is reported
/// missing only when neither `USER@` nor `--user` names one.
pub proof fn lemma_connect_config(a: ConnectArgs, key_exists: bool, local: Option<Seq<char>>, server_is_socket_addr: bool)
    ensures
        connect_config_of(a, key_exists, local, server_is_socket_addr) matches Ok(m) ==> {
            let spec = remote_spec_of(a.remote@)->0;
            &&& remote_spec_of(a.remote@) is Some
            &&& m.server == spec.server_host + seq![':'] + decimal(a.port as nat)
            &&& (spec.user is Some ==> m.user == spec.user->0)
            &&& (a.user is Some ==> m.user == a.user->0@)
            &&& local is Some && m.local == local->0
            &&& m.remote_host == seq!['0', '.', '0', '.', '0', '.', '0']
            &&& m.remote_port == spec.remote_port
            &&& (a.password is Some ==> m.auth == AuthModel::Password(a.password->0@))
            &&& (a.key is Some ==> m.auth == AuthModel::PrivateKey(a.key->0@))
            &&& m.daemon == a.daemon
            &&& m.log_file == opt_text(a.log_file)
            &&& a.insecure_accept_host_key
        },
        connect_config_of(a, key_exists, local, server_is_socket_addr) == Err::<ExposeModel, ErrorModel>(
            ErrorModel::MissingConnectUser,
        ) ==> a.user is None && remote_spec_of(a.remote@) is Some && remote_spec_of(a.remote@)->0.user is None,
        remote_spec_of(a.remote@) is Some && remote_spec_of(a.remote@)->0.user is None && a.user is Some && (
        a.password is Some != a.key is Some) && (a.key is Some ==> key_exists) && local is Some && server_is_socket_addr
            && a.insecure_accept_host_key ==> connect_config_of(a, key_exists, local, server_is_socket_addr) is Ok
            && connect_config_of(a, key_exists, local, server_is_socket_addr)->Ok_0.user == a.user->0@,
{
    lemma_user_choice(
        match remote_spec_of(a.remote@) {
            Some(spec) => spec.user,
            None => None,
        },
        opt_text(a.user),
    );
    lemma_auth_choice(opt_text(a.password), opt_text(a.key), key_exists);
}

/// What a successful `expose` configuration holds: SSH to `--server` as
/// `--user`, forwarding `--remote-port` bound on `--remote-host` to the
/// given local target, with the given credentials.
pub proof fn lemma_expose_config(a: ExposeArgs, key_exists: bool, local: Option<Seq<char>>, server_is_socket_addr: bool)
    ensures
        expose_config_of(a, key_exists, local, server_is_socket_addr) matches Ok(m) ==> {
            &&& m.server == a.server@
            &&& m.user == a.user@
            &&& local is Some && m.local == local->0
            &&& m.remote_host == a.remote_host@
            &&& m.remote_port == a.remote_port
            &&& (a.password is Some ==> m.auth == AuthModel::Password(a.password->0@))
            &&& (a.private_key is Some ==> m.auth == AuthModel::PrivateKey(a.private_key->0@))
            &&& m.daemon == a.daemon
            &&& m.log_file == opt_text(a.log_file)
            &&& a.insecure_accept_host_key
        },
        (a.password is Some != a.private_key is Some) && (a.private_key is Some ==> key_exists) && local is Some
            && server_is_socket_addr && !is_blank(a.remote_host@) && !has_ws(a.remote_host@)
            && a.insecure_accept_host_key ==> expose_config_of(a, key_exists, local, server_is_socket_addr) is Ok
            && expose_config_of(a, key_exists, local, server_is_socket_addr)->Ok_0.remote_host == a.remote_host@,
{
    lemma_auth_choice(opt_text(a.password), opt_text(a.private_key), key_exists);
}

/// `host:port`.
pub fn host_port(host: &str, port: u16) -> (r: String)
    ensures
        r@ == host_port_text(host@, port as nat),
{
    let mut out = String::new();
    push_str(&mut out, host);
    push_char(&mut out, ':');
    push_decimal(&mut out, port as u64);
    out
}

impl ExposeConfig {
    /// The configuration for `connect`; see `connect_config_of` for what the
    /// three environment answers mean.
    pub fn from_connect_args(
        args: ConnectArgs,
        key_exists: bool,
        local: Option<String>,
        server_is_socket_addr: bool,
    ) -> (r: Result<ExposeConfig, ConduitError>)
        ensures
            match connect_config_of(args, key_exists, opt_text(local), server_is_socket_addr) {
                Ok(m) => r is Ok && r->Ok_0@ == m,
                Err(e) => r is Err && r->Err_0@ == e,
            },
    {
        let remote = RemoteSpec::parse(args.remote.as_str())?;
        let auth = select_auth(args.password, args.key, key_exists)?;
        let user = select_user(copy_opt(&remote.user), args.user)?;
        let server = host_port(remote.server_host.as_str(), args.port);
        let local = match local {
            None => return Err(ConduitError::InvalidRemoteSpec(remote.render())),
            Some(l) => l,
        };
        parse_server_addr(server.as_str(), server_is_socket_addr)?;
        proof {
            reveal_strlit("0.0.0.0");
            assert("0.0.0.0"@ =~= public_bind_host());
            assert(remote_host_ok(public_bind_host())) by {
                let h = public_bind_host();
                assert(!crate::text::is_ws(h[0]));
                assert forall|i: int| 0 <= i < h.len() implies !crate::text::is_ws(#[trigger] h[i]) by {
                    assert(h[i] == '0' || h[i] == '.');
                }
            }
        }
        validate_remote_host("0.0.0.0")?;
        if !args.insecure_accept_host_key {
            return Err(ConduitError::MissingHostKeyPolicy);
        }
        Ok(ExposeConfig {
            server,
            user,
            local,
            remote_host: "0.0.0.0".to_string(),
            remote_port: remote.remote_port,
            auth,
            daemon: args.daemon,
            log_file: args.log_file,
            insecure_accept_host_key: args.insecure_accept_host_key,
        })
    }

    /// The configuration for `expose`; see `expose_config_of`.
    pub fn from_expose_args(
        args: ExposeArgs,
        key_exists: bool,
        local: Option<String>,
        server_is_socket_addr: bool,
    ) -> (r: Result<ExposeConfig, ConduitError>)
        ensures
            match expose_config_of(args, key_exists, opt_text(local), server_is_socket_addr) {
                Ok(m) => r is Ok && r->Ok_0@ == m,
                Err(e) => r is Err && r->Err_0@ == e,
            },
    {
        let auth = select_auth(args.password, args.private_key, key_exists)?;
        let local = match local {
            None => return Err(ConduitError::InvalidLocalAddress(args.local)),
            Some(l) => l,
        };
        parse_server_addr(args.server.as_str(), server_is_socket_addr)?;
        validate_remote_host(args.remote_host.as_str())?;
        if !args.insecure_accept_host_key {
            return Err(ConduitError::MissingHostKeyPolicy);
        }
        Ok(ExposeConfig {
            server: args.server,
            user: args.user,
            local,
            remote_host: args.remote_host,
            remote_port: args.remote_port,
            auth,
            daemon: args.daemon,
            log_file: args.log_file,
            insecure_accept_host_key: args.insecure_accept_host_key,
        })
    }
}

} // verus!
