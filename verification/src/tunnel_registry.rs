//! Managed tunnel records: their status, the line-oriented text format in
//! which each record is stored, and the state transitions that the lifecycle
//! commands apply to a record.

use vstd::prelude::*;
use crate::text::{opt_text, blank_chars, chars_of, find_first, first_index, has_char, is_blank, lemma_first_index, lemma_first_index_at, lemma_first_index_none, push_char, push_str};
use crate::error::{ConduitError, ErrorModel};
use crate::decimal::{
    decimal, int_error_message, int_parse, lemma_decimal, lemma_int_parse_decimal, parse_int, push_decimal, IntErrorKind,
};

verus! {

/// The lifecycle state of a managed tunnel.
#[derive(Debug, Clone, Copy, PartialEq, Eq, Structural)]
pub enum TunnelStatus {
    Starting,
    Running,
    Reconnecting,
    Exited,
    Failed,
    Stale,
}

/// The name under which a status is stored and shown.
pub open spec fn status_name(s: TunnelStatus) -> Seq<char> {
    match s {
        TunnelStatus::Starting => seq!['s', 't', 'a', 'r', 't', 'i', 'n', 'g'],
        TunnelStatus::Running => seq!['r', 'u', 'n', 'n', 'i', 'n', 'g'],
        TunnelStatus::Reconnecting => seq!['r', 'e', 'c', 'o', 'n', 'n', 'e', 'c', 't', 'i', 'n', 'g'],
        TunnelStatus::Exited => seq!['e', 'x', 'i', 't', 'e', 'd'],
        TunnelStatus::Failed => seq!['f', 'a', 'i', 'l', 'e', 'd'],
        TunnelStatus::Stale => seq!['s', 't', 'a', 'l', 'e'],
    }
}

/// The status whose name is `s`, if any.
pub open spec fn status_from_name(s: Seq<char>) -> Option<TunnelStatus> {
    if s == status_name(TunnelStatus::Starting) {
        Some(TunnelStatus::Starting)
    } else if s == status_name(TunnelStatus::Running) {
        Some(TunnelStatus::Running)
    } else if s == status_name(TunnelStatus::Reconnecting) {
        Some(TunnelStatus::Reconnecting)
    } else if s == status_name(TunnelStatus::Exited) {
        Some(TunnelStatus::Exited)
    } else if s == status_name(TunnelStatus::Failed) {
        Some(TunnelStatus::Failed)
    } else if s == status_name(TunnelStatus::Stale) {
        Some(TunnelStatus::Stale)
    } else {
        None
    }
}

/// A tunnel whose process is expected to be alive.
pub open spec fn status_active(s: TunnelStatus) -> bool {
    s == TunnelStatus::Starting || s == TunnelStatus::Running || s == TunnelStatus::Reconnecting
}

/// Reading back the name of a status gives the status.
pub proof fn lemma_status_name_round_trip(s: TunnelStatus)
    ensures
        status_from_name(status_name(s)) == Some(s),
{
    let a = status_name(TunnelStatus::Starting);
    let b = status_name(TunnelStatus::Running);
    let c = status_name(TunnelStatus::Reconnecting);
    let d = status_name(TunnelStatus::Exited);
    let e = status_name(TunnelStatus::Failed);
    let f = status_name(TunnelStatus::Stale);
    assert(a != b && a != c && a != d && a != e && a != f) by {
        assert(a.len() != b.len() && a.len() != c.len() && a.len() != d.len());
        assert(a[0] != e[0] && a.len() != f.len());
    }
    assert(b != c && b != d && b != e && b != f) by {
        assert(b[1] != c[1] && b.len() != d.len() && b.len() != e.len() && b.len() != f.len());
    }
    assert(c != d && c != e && c != f) by {
        assert(c.len() != d.len() && c.len() != e.len() && c.len() != f.len());
    }
    assert(d != e && d != f) by {
        assert(d[0] != e[0] && d.len() != f.len());
    }
    assert(e != f) by {
        assert(e.len() != f.len());
    }
}

impl TunnelStatus {
    /// The name under which the status is stored and shown.
    pub fn as_str(self) -> (r: &'static str)
        ensures
            r@ == status_name(self),
    {
        match self {
            TunnelStatus::Starting => {
                proof { reveal_strlit("starting"); }
                "starting"
            },
            TunnelStatus::Running => {
                proof { reveal_strlit("running"); }
                "running"
            },
            TunnelStatus::Reconnecting => {
                proof { reveal_strlit("reconnecting"); }
                "reconnecting"
            },
            TunnelStatus::Exited => {
                proof { reveal_strlit("exited"); }
                "exited"
            },
            TunnelStatus::Failed => {
                proof { reveal_strlit("failed"); }
                "failed"
            },
            TunnelStatus::Stale => {
                proof { reveal_strlit("stale"); }
                "stale"
            },
        }
    }

    /// The status named by `value`, if any.
    pub fn parse(value: &str) -> (r: Option<TunnelStatus>)
        ensures
            r == status_from_name(value@),
    {
        let v = chars_of(value);
        assert(v@.subrange(0, v@.len() as int) =~= value@);
        TunnelStatus::parse_chars(&v, 0, v.len())
    }

    /// The status named by `v[lo..hi]`, if any.
    pub fn parse_chars(v: &Vec<char>, lo: usize, hi: usize) -> (r: Option<TunnelStatus>)
        requires
            lo <= hi <= v@.len(),
        ensures
            r == status_from_name(v@.subrange(lo as int, hi as int)),
    {
        if chars_equal(v, lo, hi, TunnelStatus::Starting.as_str()) {
            Some(TunnelStatus::Starting)
        } else if chars_equal(v, lo, hi, TunnelStatus::Running.as_str()) {
            Some(TunnelStatus::Running)
        } else if chars_equal(v, lo, hi, TunnelStatus::Reconnecting.as_str()) {
            Some(TunnelStatus::Reconnecting)
        } else if chars_equal(v, lo, hi, TunnelStatus::Exited.as_str()) {
            Some(TunnelStatus::Exited)
        } else if chars_equal(v, lo, hi, TunnelStatus::Failed.as_str()) {
            Some(TunnelStatus::Failed)
        } else if chars_equal(v, lo, hi, TunnelStatus::Stale.as_str()) {
            Some(TunnelStatus::Stale)
        } else {
            None
        }
    }

    /// Whether the tunnel's process is expected to be alive.
    pub fn is_active(self) -> (r: bool)
        ensures
            r == status_active(self),
    {
        match self {
            TunnelStatus::Starting | TunnelStatus::Running | TunnelStatus::Reconnecting => true,
            _ => false,
        }
    }
}

/// Whether `v[lo..hi]` spells `t`.
pub fn chars_equal(v: &Vec<char>, lo: usize, hi: usize, t: &str) -> (r: bool)
    requires
        lo <= hi <= v@.len(),
    ensures
        r == (v@.subrange(lo as int, hi as int) == t@),
{
    let w = chars_of(t);
    if hi - lo != w.len() {
        return false;
    }
    let mut i: usize = 0;
    while i < w.len()
        invariant
            lo <= hi <= v@.len(),
            hi - lo == w@.len(),
            w@ == t@,
            0 <= i <= w@.len(),
            forall|k: int| 0 <= k < i ==> v@[lo + k] == w@[k],
        decreases w.len() - i,
    {
        if v[lo + i] != w[i] {
            assert(v@.subrange(lo as int, hi as int)[i as int] != t@[i as int]);
            return false;
        }
        i = i + 1;
    }
    assert(v@.subrange(lo as int, hi as int) =~= t@);
    true
}

// ---------------------------------------------------------------------------
// Escaping of values

/// The text that stands for one character of a value.
pub open spec fn escape_char(c: char) -> Seq<char> {
    if c == '\\' {
        seq!['\\', '\\']
    } else if c == '\n' {
        seq!['\\', 'n']
    } else {
        seq![c]
    }
}

/// A value with every backslash doubled and every newline written as `\n`.
pub open spec fn escape_seq(s: Seq<char>) -> Seq<char>
    decreases s.len(),
{
    if s.len() == 0 {
        Seq::empty()
    } else {
        escape_seq(s.drop_last()) + escape_char(s.last())
    }
}

/// The value that an escaped text stands for: a backslash followed by `n` is a
/// newline, a backslash followed by any other character is that character,
/// and a backslash at the very end stands for itself.
pub open spec fn unescape_seq(s: Seq<char>) -> Seq<char>
    decreases s.len(),
{
    if s.len() == 0 {
        Seq::empty()
    } else if s[0] == '\\' {
        if s.len() == 1 {
            seq!['\\']
        } else {
            seq![if s[1] == 'n' { '\n' } else { s[1] }] + unescape_seq(s.skip(2))
        }
    } else {
        seq![s[0]] + unescape_seq(s.drop_first())
    }
}

proof fn lemma_escape_front(s: Seq<char>)
    requires
        s.len() > 0,
    ensures
        escape_seq(s) == escape_char(s[0]) + escape_seq(s.drop_first()),
    decreases s.len(),
{
    if s.len() == 1 {
        assert(s.drop_last() =~= Seq::<char>::empty());
        assert(s.drop_first() =~= Seq::<char>::empty());
        assert(escape_seq(s.drop_last()) =~= Seq::<char>::empty());
        assert(s.last() == s[0]);
        assert(escape_seq(s.drop_first()) =~= Seq::<char>::empty());
        assert(escape_seq(s) =~= escape_char(s[0]));
    } else {
        lemma_escape_front(s.drop_last());
        assert(s.drop_last().drop_first() =~= s.drop_first().drop_last());
        assert(s.drop_first().last() == s.last());
        assert(escape_seq(s) =~= escape_char(s[0]) + escape_seq(s.drop_first()));
    }
}

/// Escaping never produces a newline, and it ends with a carriage return
/// exactly when the value does.
pub proof fn lemma_escape_shape(s: Seq<char>)
    ensures
        !has_char(escape_seq(s), '\n'),
        (escape_seq(s).len() > 0 && escape_seq(s).last() == '\r') <==> (s.len() > 0 && s.last()
            == '\r'),
        escape_seq(s).len() == 0 <==> s.len() == 0,
    decreases s.len(),
{
    if s.len() > 0 {
        lemma_escape_shape(s.drop_last());
        let e = escape_seq(s);
        let p = escape_seq(s.drop_last());
        assert forall|i: int| 0 <= i < e.len() implies #[trigger] e[i] != '\n' by {
            if i >= p.len() {
                assert(e[i] == escape_char(s.last())[i - p.len()]);
            } else {
                assert(e[i] == p[i]);
            }
        }
    }
}

/// Unescaping an escaped value gives the value back.
pub proof fn lemma_unescape_escape(s: Seq<char>)
    ensures
        unescape_seq(escape_seq(s)) == s,
    decreases s.len(),
{
    if s.len() > 0 {
        lemma_escape_front(s);
        lemma_unescape_escape(s.drop_first());
        let e = escape_seq(s);
        let rest = escape_seq(s.drop_first());
        let c = s[0];
        if c == '\\' || c == '\n' {
            assert(e.skip(2) =~= rest);
            assert(unescape_seq(e) =~= seq![c] + s.drop_first());
        } else {
            assert(e.drop_first() =~= rest);
            assert(unescape_seq(e) =~= seq![c] + s.drop_first());
        }
        assert(seq![c] + s.drop_first() =~= s);
    }
}

/// Appends the escaped form of `v[lo..hi]` to `out`.
pub fn push_escaped(out: &mut String, v: &Vec<char>, lo: usize, hi: usize)
    requires
        lo <= hi <= v@.len(),
    ensures
        final(out)@ == old(out)@ + escape_seq(v@.subrange(lo as int, hi as int)),
{
    let mut i = lo;
    while i < hi
        invariant
            lo <= i <= hi <= v@.len(),
            out@ == old(out)@ + escape_seq(v@.subrange(lo as int, i as int)),
        decreases hi - i,
    {
        let c = v[i];
        if c == '\\' {
            push_char(out, '\\');
            push_char(out, '\\');
        } else if c == '\n' {
            push_char(out, '\\');
            push_char(out, 'n');
        } else {
            push_char(out, c);
        }
        assert(v@.subrange(lo as int, i + 1).drop_last() =~= v@.subrange(lo as int, i as int));
        assert(out@ =~= old(out)@ + escape_seq(v@.subrange(lo as int, i + 1)));
        i = i + 1;
    }
}

/// `value` with every backslash doubled and every newline written as `\n`.
pub fn escape(value: &str) -> (r: String)
    ensures
        r@ == escape_seq(value@),
{
    let v = chars_of(value);
    let mut out = String::new();
    push_escaped(&mut out, &v, 0, v.len());
    assert(v@.subrange(0, v@.len() as int) =~= value@);
    out
}

/// The value that the escaped text `v[lo..hi]` stands for.
pub fn unescape_chars(v: &Vec<char>, lo: usize, hi: usize) -> (r: String)
    requires
        lo <= hi <= v@.len(),
    ensures
        r@ == unescape_seq(v@.subrange(lo as int, hi as int)),
{
    let ghost s = v@.subrange(lo as int, hi as int);
    let mut out = String::new();
    let mut i = lo;
    assert(s.skip(0) =~= s);
    while i < hi
        invariant
            lo <= i <= hi <= v@.len(),
            s == v@.subrange(lo as int, hi as int),
            unescape_seq(s) == out@ + unescape_seq(s.skip(i - lo)),
        decreases hi - i,
    {
        let ghost rest = s.skip(i - lo);
        let c = v[i];
        assert(rest[0] == c);
        if c == '\\' {
            if i + 1 < hi {
                let n = v[i + 1];
                assert(rest[1] == n);
                if n == 'n' {
                    push_char(&mut out, '\n');
                } else {
                    push_char(&mut out, n);
                }
                assert(rest.skip(2) =~= s.skip(i + 2 - lo));
                assert(out@ + unescape_seq(s.skip(i + 2 - lo)) =~= old_out_plus(out@, rest));
                i = i + 2;
            } else {
                push_char(&mut out, '\\');
                assert(s.skip(i + 1 - lo) =~= Seq::<char>::empty());
                i = i + 1;
            }
        } else {
            push_char(&mut out, c);
            assert(rest.drop_first() =~= s.skip(i + 1 - lo));
            i = i + 1;
        }
    }
    assert(s.skip(hi - lo) =~= Seq::<char>::empty());
    out
}

spec fn old_out_plus(out: Seq<char>, rest: Seq<char>) -> Seq<char> {
    out + unescape_seq(rest.skip(2))
}

/// The value that the escaped text `value` stands for.
pub fn unescape(value: &str) -> (r: String)
    ensures
        r@ == unescape_seq(value@),
{
    let v = chars_of(value);
    assert(v@.subrange(0, v@.len() as int) =~= value@);
    unescape_chars(&v, 0, v.len())
}


// ---------------------------------------------------------------------------
// Records and their stored text

/// A managed tunnel as the registry stores it.
#[derive(Debug, Clone)]
pub struct TunnelRecord {
    pub id: String,
    pub command: String,
    pub pid: u32,
    pub created_at: u64,
    pub updated_at: u64,
    pub server: String,
    pub user: String,
    pub local: String,
    pub remote_host: String,
    pub remote_port: u16,
    pub mappings: String,
    pub daemon: bool,
    pub log_file: String,
    pub status: TunnelStatus,
}

/// The contents of a record, with each text field as its characters.
pub struct RecordModel {
    pub id: Seq<char>,
    pub command: Seq<char>,
    pub pid: u32,
    pub created_at: u64,
    pub updated_at: u64,
    pub server: Seq<char>,
    pub user: Seq<char>,
    pub local: Seq<char>,
    pub remote_host: Seq<char>,
    pub remote_port: u16,
    pub mappings: Seq<char>,
    pub daemon: bool,
    pub log_file: Seq<char>,
    pub status: TunnelStatus,
}

impl View for TunnelRecord {
    type V = RecordModel;

    open spec fn view(&self) -> RecordModel {
        RecordModel {
            id: self.id@,
            command: self.command@,
            pid: self.pid,
            created_at: self.created_at,
            updated_at: self.updated_at,
            server: self.server@,
            user: self.user@,
            local: self.local@,
            remote_host: self.remote_host@,
            remote_port: self.remote_port,
            mappings: self.mappings@,
            daemon: self.daemon,
            log_file: self.log_file@,
            status: self.status,
        }
    }
}

/// The keys of the stored record format, in the order in which they are written.
#[derive(Debug, Clone, Copy, PartialEq, Eq, Structural)]
pub enum WireKey {
    Id,
    Command,
    Pid,
    CreatedAt,
    UpdatedAt,
    Server,
    User,
    Local,
    RemoteHost,
    RemotePort,
    Mappings,
    Daemon,
    LogFile,
    Status,
}

pub open spec fn key_text(k: WireKey) -> Seq<char> {
    match k {
        WireKey::Id => seq!['i', 'd'],
        WireKey::Command => seq!['c', 'o', 'm', 'm', 'a', 'n', 'd'],
        WireKey::Pid => seq!['p', 'i', 'd'],
        WireKey::CreatedAt => seq!['c', 'r', 'e', 'a', 't', 'e', 'd', '_', 'a', 't'],
        WireKey::UpdatedAt => seq!['u', 'p', 'd', 'a', 't', 'e', 'd', '_', 'a', 't'],
        WireKey::Server => seq!['s', 'e', 'r', 'v', 'e', 'r'],
        WireKey::User => seq!['u', 's', 'e', 'r'],
        WireKey::Local => seq!['l', 'o', 'c', 'a', 'l'],
        WireKey::RemoteHost => seq!['r', 'e', 'm', 'o', 't', 'e', '_', 'h', 'o', 's', 't'],
        WireKey::RemotePort => seq!['r', 'e', 'm', 'o', 't', 'e', '_', 'p', 'o', 'r', 't'],
        WireKey::Mappings => seq!['m', 'a', 'p', 'p', 'i', 'n', 'g', 's'],
        WireKey::Daemon => seq!['d', 'a', 'e', 'm', 'o', 'n'],
        WireKey::LogFile => seq!['l', 'o', 'g', '_', 'f', 'i', 'l', 'e'],
        WireKey::Status => seq!['s', 't', 'a', 't', 'u', 's'],
    }
}

/// The key that `s` names, if any.
pub open spec fn key_of_text(s: Seq<char>) -> Option<WireKey> {
    if s == key_text(WireKey::Id) {
        Some(WireKey::Id)
    } else if s == key_text(WireKey::Command) {
        Some(WireKey::Command)
    } else if s == key_text(WireKey::Pid) {
        Some(WireKey::Pid)
    } else if s == key_text(WireKey::CreatedAt) {
        Some(WireKey::CreatedAt)
    } else if s == key_text(WireKey::UpdatedAt) {
        Some(WireKey::UpdatedAt)
    } else if s == key_text(WireKey::Server) {
        Some(WireKey::Server)
    } else if s == key_text(WireKey::User) {
        Some(WireKey::User)
    } else if s == key_text(WireKey::Local) {
        Some(WireKey::Local)
    } else if s == key_text(WireKey::RemoteHost) {
        Some(WireKey::RemoteHost)
    } else if s == key_text(WireKey::RemotePort) {
        Some(WireKey::RemotePort)
    } else if s == key_text(WireKey::Mappings) {
        Some(WireKey::Mappings)
    } else if s == key_text(WireKey::Daemon) {
        Some(WireKey::Daemon)
    } else if s == key_text(WireKey::LogFile) {
        Some(WireKey::LogFile)
    } else if s == key_text(WireKey::Status) {
        Some(WireKey::Status)
    } else {
        None
    }
}

proof fn lemma_key_facts(k: WireKey)
    ensures
        key_of_text(key_text(k)) == Some(k),
        key_text(k).len() > 0,
        !is_blank(key_text(k)),
        !has_char(key_text(k), '='),
        !has_char(key_text(k), '\n'),
{
    let t = key_text(k);
    assert(key_text(WireKey::Id).len() == 2);
    assert(key_text(WireKey::Command).len() == 7);
    assert(key_text(WireKey::Pid).len() == 3);
    assert(key_text(WireKey::CreatedAt).len() == 10);
    assert(key_text(WireKey::UpdatedAt).len() == 10);
    assert(key_text(WireKey::Server).len() == 6);
    assert(key_text(WireKey::User).len() == 4);
    assert(key_text(WireKey::Local).len() == 5);
    assert(key_text(WireKey::RemoteHost).len() == 11);
    assert(key_text(WireKey::RemotePort).len() == 11);
    assert(key_text(WireKey::Mappings).len() == 8);
    assert(key_text(WireKey::Daemon).len() == 6);
    assert(key_text(WireKey::LogFile).len() == 8);
    assert(key_text(WireKey::Status).len() == 6);
    assert(key_text(WireKey::CreatedAt)[0] != key_text(WireKey::UpdatedAt)[0]);
    assert(key_text(WireKey::Server)[0] != key_text(WireKey::Daemon)[0]);
    assert(key_text(WireKey::Server)[1] != key_text(WireKey::Status)[1]);
    assert(key_text(WireKey::Daemon)[0] != key_text(WireKey::Status)[0]);
    assert(key_text(WireKey::RemoteHost)[7] != key_text(WireKey::RemotePort)[7]);
    assert(key_text(WireKey::Mappings)[0] != key_text(WireKey::LogFile)[0]);
    assert(!crate::text::is_ws(t[0]));
    assert forall|i: int| 0 <= i < t.len() implies #[trigger] t[i] != '=' && t[i] != '\n' by {
        assert('a' <= t[i] <= 'z' || t[i] == '_');
    }
}

/// The stored line for one key and value: `key=value` with the value escaped.
pub open spec fn wire_line(key: Seq<char>, value: Seq<char>) -> Seq<char> {
    key + seq!['='] + escape_seq(value) + seq!['\n']
}

pub open spec fn bool_text(b: bool) -> Seq<char> {
    if b {
        seq!['t', 'r', 'u', 'e']
    } else {
        seq!['f', 'a', 'l', 's', 'e']
    }
}

/// The keys and values of a record, in the order in which they are stored;
/// the forward mappings only when there are any.
pub open spec fn record_pairs(r: RecordModel) -> Seq<(WireKey, Seq<char>)> {
    if r.mappings.len() == 0 {
        seq![
            (WireKey::Id, r.id),
            (WireKey::Command, r.command),
            (WireKey::Pid, decimal(r.pid as nat)),
            (WireKey::CreatedAt, decimal(r.created_at as nat)),
            (WireKey::UpdatedAt, decimal(r.updated_at as nat)),
            (WireKey::Server, r.server),
            (WireKey::User, r.user),
            (WireKey::Local, r.local),
            (WireKey::RemoteHost, r.remote_host),
            (WireKey::RemotePort, decimal(r.remote_port as nat)),
            (WireKey::Daemon, bool_text(r.daemon)),
            (WireKey::LogFile, r.log_file),
            (WireKey::Status, status_name(r.status)),
        ]
    } else {
        seq![
        (WireKey::Id, r.id),
        (WireKey::Command, r.command),
        (WireKey::Pid, decimal(r.pid as nat)),
        (WireKey::CreatedAt, decimal(r.created_at as nat)),
        (WireKey::UpdatedAt, decimal(r.updated_at as nat)),
        (WireKey::Server, r.server),
        (WireKey::User, r.user),
        (WireKey::Local, r.local),
        (WireKey::RemoteHost, r.remote_host),
        (WireKey::RemotePort, decimal(r.remote_port as nat)),
        (WireKey::Mappings, r.mappings),
        (WireKey::Daemon, bool_text(r.daemon)),
        (WireKey::LogFile, r.log_file),
        (WireKey::Status, status_name(r.status)),
        ]
    }
}

/// The stored lines of `pairs`, one after another.
pub open spec fn pairs_text(pairs: Seq<(WireKey, Seq<char>)>) -> Seq<char>
    decreases pairs.len(),
{
    if pairs.len() == 0 {
        Seq::empty()
    } else {
        wire_line(key_text(pairs[0].0), pairs[0].1) + pairs_text(pairs.drop_first())
    }
}

/// The stored text of a record.
pub open spec fn record_wire(r: RecordModel) -> Seq<char> {
    pairs_text(record_pairs(r))
}

// ---------------------------------------------------------------------------
// Reading the stored text back

/// Why stored text is not a record.
#[derive(Debug, Clone, Copy, PartialEq, Eq, Structural)]
pub enum RecordFormatError {
    InvalidLine,
    InvalidPid(IntErrorKind),
    InvalidCreatedAt(IntErrorKind),
    InvalidUpdatedAt(IntErrorKind),
    InvalidRemotePort(IntErrorKind),
    Missing(WireKey),
}

/// The message that reports a format error.
pub open spec fn format_error_message(e: RecordFormatError) -> Seq<char> {
    match e {
        RecordFormatError::InvalidLine => "invalid tunnel registry line"@,
        RecordFormatError::InvalidPid(k) => "invalid tunnel pid: "@ + int_error_message(k),
        RecordFormatError::InvalidCreatedAt(k) => "invalid created_at: "@ + int_error_message(k),
        RecordFormatError::InvalidUpdatedAt(k) => "invalid updated_at: "@ + int_error_message(k),
        RecordFormatError::InvalidRemotePort(k) => "invalid remote_port: "@ + int_error_message(k),
        RecordFormatError::Missing(k) => match k {
            WireKey::Id => "missing tunnel id"@,
            WireKey::Command => "missing tunnel command"@,
            WireKey::Pid => "missing tunnel pid"@,
            WireKey::CreatedAt => "missing created_at"@,
            WireKey::UpdatedAt => "missing updated_at"@,
            WireKey::Server => "missing tunnel server"@,
            WireKey::User => "missing tunnel user"@,
            WireKey::Local => "missing tunnel local"@,
            WireKey::RemoteHost => "missing tunnel remote_host"@,
            WireKey::RemotePort => "missing tunnel remote_port"@,
            WireKey::Mappings => "missing tunnel mappings"@,
            WireKey::Daemon => "missing tunnel daemon flag"@,
            WireKey::LogFile => "missing tunnel log_file"@,
            WireKey::Status => "missing tunnel status"@,
        },
    }
}

impl RecordFormatError {
    /// The message that reports the error.
    pub fn message(&self) -> (r: String)
        ensures
            r@ == format_error_message(*self),
    {
        let text = match self {
            RecordFormatError::InvalidLine => "invalid tunnel registry line",
            RecordFormatError::InvalidPid(_) => "invalid tunnel pid: ",
            RecordFormatError::InvalidCreatedAt(_) => "invalid created_at: ",
            RecordFormatError::InvalidUpdatedAt(_) => "invalid updated_at: ",
            RecordFormatError::InvalidRemotePort(_) => "invalid remote_port: ",
            RecordFormatError::Missing(k) => match k {
                WireKey::Id => "missing tunnel id",
                WireKey::Command => "missing tunnel command",
                WireKey::Pid => "missing tunnel pid",
                WireKey::CreatedAt => "missing created_at",
                WireKey::UpdatedAt => "missing updated_at",
                WireKey::Server => "missing tunnel server",
                WireKey::User => "missing tunnel user",
                WireKey::Local => "missing tunnel local",
                WireKey::RemoteHost => "missing tunnel remote_host",
                WireKey::RemotePort => "missing tunnel remote_port",
                WireKey::Mappings => "missing tunnel mappings",
                WireKey::Daemon => "missing tunnel daemon flag",
                WireKey::LogFile => "missing tunnel log_file",
                WireKey::Status => "missing tunnel status",
            },
        };
        let mut out = String::new();
        push_str(&mut out, text);
        match self {
            RecordFormatError::InvalidPid(k) | RecordFormatError::InvalidCreatedAt(k)
            | RecordFormatError::InvalidUpdatedAt(k) | RecordFormatError::InvalidRemotePort(k) => {
                let cause = k.message();
                push_str(&mut out, cause.as_str());
            },
            _ => {},
        }
        out
    }
}

/// A line without its final carriage return.
pub open spec fn strip_cr(l: Seq<char>) -> Seq<char> {
    if l.len() > 0 && l.last() == '\r' {
        l.drop_last()
    } else {
        l
    }
}

/// The lines of a text as `str::lines` yields them: split at each newline, a
/// carriage return before the newline dropped, and no empty line after a
/// final newline.
pub open spec fn text_lines(s: Seq<char>) -> Seq<Seq<char>>
    decreases s.len(),
{
    match first_index(s, '\n') {
        None => if s.len() == 0 {
            Seq::empty()
        } else {
            seq![s]
        },
        Some(i) => {
            proof {
                lemma_first_index(s, '\n');
            }
            seq![strip_cr(s.take(i))] + text_lines(s.skip(i + 1))
        },
    }
}

/// The fields that the lines read so far have given.
pub struct FieldsModel {
    pub id: Option<Seq<char>>,
    pub command: Option<Seq<char>>,
    pub pid: Option<u32>,
    pub created_at: Option<u64>,
    pub updated_at: Option<u64>,
    pub server: Option<Seq<char>>,
    pub user: Option<Seq<char>>,
    pub local: Option<Seq<char>>,
    pub remote_host: Option<Seq<char>>,
    pub remote_port: Option<u16>,
    pub mappings: Option<Seq<char>>,
    pub daemon: Option<bool>,
    pub log_file: Option<Seq<char>>,
    pub status: Option<TunnelStatus>,
}

pub open spec fn no_fields() -> FieldsModel {
    FieldsModel {
        id: None,
        command: None,
        pid: None,
        created_at: None,
        updated_at: None,
        server: None,
        user: None,
        local: None,
        remote_host: None,
        remote_port: None,
        mappings: None,
        daemon: None,
        log_file: None,
        status: None,
    }
}

/// The fields after reading the value `value` under the key text `key`; an
/// unknown key changes nothing, a number that does not parse is an error.
pub open spec fn apply_field(d: FieldsModel, key: Seq<char>, value: Seq<char>) -> Result<FieldsModel, RecordFormatError> {
    match key_of_text(key) {
        None => Ok(d),
        Some(k) => match k {
            WireKey::Id => Ok(FieldsModel { id: Some(value), ..d }),
            WireKey::Command => Ok(FieldsModel { command: Some(value), ..d }),
            WireKey::Pid => match int_parse(value, u32::MAX as nat) {
                Ok(n) => Ok(FieldsModel { pid: Some(n as u32), ..d }),
                Err(k) => Err(RecordFormatError::InvalidPid(k)),
            },
            WireKey::CreatedAt => match int_parse(value, u64::MAX as nat) {
                Ok(n) => Ok(FieldsModel { created_at: Some(n as u64), ..d }),
                Err(k) => Err(RecordFormatError::InvalidCreatedAt(k)),
            },
            WireKey::UpdatedAt => match int_parse(value, u64::MAX as nat) {
                Ok(n) => Ok(FieldsModel { updated_at: Some(n as u64), ..d }),
                Err(k) => Err(RecordFormatError::InvalidUpdatedAt(k)),
            },
            WireKey::Server => Ok(FieldsModel { server: Some(value), ..d }),
            WireKey::User => Ok(FieldsModel { user: Some(value), ..d }),
            WireKey::Local => Ok(FieldsModel { local: Some(value), ..d }),
            WireKey::RemoteHost => Ok(FieldsModel { remote_host: Some(value), ..d }),
            WireKey::RemotePort => match int_parse(value, u16::MAX as nat) {
                Ok(n) => Ok(FieldsModel { remote_port: Some(n as u16), ..d }),
                Err(k) => Err(RecordFormatError::InvalidRemotePort(k)),
            },
            WireKey::Mappings => Ok(FieldsModel { mappings: Some(value), ..d }),
            WireKey::Daemon => Ok(FieldsModel { daemon: Some(value == bool_text(true)), ..d }),
            WireKey::LogFile => Ok(FieldsModel { log_file: Some(value), ..d }),
            WireKey::Status => Ok(FieldsModel { status: status_from_name(value), ..d }),
        },
    }
}

/// The fields after reading one line: a blank line is skipped, a line
/// without `=` is an error, otherwise the text before the first `=` is the
/// key and the unescaped rest is the value.
pub open spec fn apply_line(d: FieldsModel, line: Seq<char>) -> Result<FieldsModel, RecordFormatError> {
    if is_blank(line) {
        Ok(d)
    } else {
        match first_index(line, '=') {
            None => Err(RecordFormatError::InvalidLine),
            Some(i) => apply_field(d, line.take(i), unescape_seq(line.skip(i + 1))),
        }
    }
}

/// The fields after reading `lines` in order, or the first error.
pub open spec fn apply_lines(d: FieldsModel, lines: Seq<Seq<char>>) -> Result<FieldsModel, RecordFormatError>
    decreases lines.len(),
{
    if lines.len() == 0 {
        Ok(d)
    } else {
        match apply_line(d, lines[0]) {
            Ok(d2) => apply_lines(d2, lines.drop_first()),
            Err(e) => Err(e),
        }
    }
}

/// The record that complete fields make, or the first field that is missing;
/// the forward mappings may be absent (a record without them has none).
pub open spec fn finish_fields(d: FieldsModel) -> Result<RecordModel, RecordFormatError> {
    if d.id is None {
        Err(RecordFormatError::Missing(WireKey::Id))
    } else if d.command is None {
        Err(RecordFormatError::Missing(WireKey::Command))
    } else if d.pid is None {
        Err(RecordFormatError::Missing(WireKey::Pid))
    } else if d.created_at is None {
        Err(RecordFormatError::Missing(WireKey::CreatedAt))
    } else if d.updated_at is None {
        Err(RecordFormatError::Missing(WireKey::UpdatedAt))
    } else if d.server is None {
        Err(RecordFormatError::Missing(WireKey::Server))
    } else if d.user is None {
        Err(RecordFormatError::Missing(WireKey::User))
    } else if d.local is None {
        Err(RecordFormatError::Missing(WireKey::Local))
    } else if d.remote_host is None {
        Err(RecordFormatError::Missing(WireKey::RemoteHost))
    } else if d.remote_port is None {
        Err(RecordFormatError::Missing(WireKey::RemotePort))
    } else if d.daemon is None {
        Err(RecordFormatError::Missing(WireKey::Daemon))
    } else if d.log_file is None {
        Err(RecordFormatError::Missing(WireKey::LogFile))
    } else if d.status is None {
        Err(RecordFormatError::Missing(WireKey::Status))
    } else {
        Ok(
            RecordModel {
                id: d.id->0,
                command: d.command->0,
                pid: d.pid->0,
                created_at: d.created_at->0,
                updated_at: d.updated_at->0,
                server: d.server->0,
                user: d.user->0,
                local: d.local->0,
                remote_host: d.remote_host->0,
                remote_port: d.remote_port->0,
                mappings: match d.mappings {
                    Some(m) => m,
                    None => Seq::empty(),
                },
                daemon: d.daemon->0,
                log_file: d.log_file->0,
                status: d.status->0,
            },
        )
    }
}

/// The record that stored text denotes, or why it denotes none.
pub open spec fn record_from_text(s: Seq<char>) -> Result<RecordModel, RecordFormatError> {
    match apply_lines(no_fields(), text_lines(s)) {
        Ok(d) => finish_fields(d),
        Err(e) => Err(e),
    }
}


// ---------------------------------------------------------------------------
// The stored text reads back as the record that wrote it

pub open spec fn ends_with_cr(s: Seq<char>) -> bool {
    s.len() > 0 && s.last() == '\r'
}

/// No text field of the record ends with a carriage return: `str::lines`
/// would drop such a character when the record is read back.
pub open spec fn record_text_ok(r: RecordModel) -> bool {
    &&& !ends_with_cr(r.id)
    &&& !ends_with_cr(r.command)
    &&& !ends_with_cr(r.server)
    &&& !ends_with_cr(r.user)
    &&& !ends_with_cr(r.local)
    &&& !ends_with_cr(r.remote_host)
    &&& !ends_with_cr(r.mappings)
    &&& !ends_with_cr(r.log_file)
}

/// The fields after reading the values of `pairs` under their keys, in order.
pub open spec fn apply_pairs(d: FieldsModel, pairs: Seq<(WireKey, Seq<char>)>) -> Result<FieldsModel, RecordFormatError>
    decreases pairs.len(),
{
    if pairs.len() == 0 {
        Ok(d)
    } else {
        match apply_field(d, key_text(pairs[0].0), pairs[0].1) {
            Ok(d2) => apply_pairs(d2, pairs.drop_first()),
            Err(e) => Err(e),
        }
    }
}

proof fn lemma_text_lines_cons(body: Seq<char>, rest: Seq<char>)
    requires
        !has_char(body, '\n'),
    ensures
        text_lines(body + seq!['\n'] + rest) == seq![strip_cr(body)] + text_lines(rest),
{
    let s = body + seq!['\n'] + rest;
    let n = body.len() as int;
    lemma_first_index(s, '\n');
    assert(s[n] == '\n');
    match first_index(s, '\n') {
        Some(i) => {
            if i < n {
                assert(body[i] == '\n');
            } else if i > n {
                assert(s.take(i)[n] == '\n');
            }
            assert(i == n);
        },
        None => {
            assert(false);
        },
    }
    assert(s.take(n) =~= body);
    assert(s.skip(n + 1) =~= rest);
}

proof fn lemma_read_line(d: FieldsModel, k: WireKey, v: Seq<char>)
    requires
        !ends_with_cr(v),
    ensures
        !has_char(key_text(k) + seq!['='] + escape_seq(v), '\n'),
        strip_cr(key_text(k) + seq!['='] + escape_seq(v)) == key_text(k) + seq!['='] + escape_seq(v),
        apply_line(d, key_text(k) + seq!['='] + escape_seq(v)) == apply_field(d, key_text(k), v),
{
    let key = key_text(k);
    let e = escape_seq(v);
    let line = key + seq!['='] + e;
    lemma_key_facts(k);
    lemma_escape_shape(v);
    lemma_unescape_escape(v);
    let n = key.len() as int;
    assert forall|i: int| 0 <= i < line.len() implies #[trigger] line[i] != '\n' by {
        if i < n {
            assert(line[i] == key[i]);
        } else if i > n {
            assert(line[i] == e[i - n - 1]);
        }
    }
    if e.len() == 0 {
        assert(line.last() == '=');
    } else {
        assert(line.last() == e.last());
    }
    assert(!is_blank(line)) by {
        assert(line[0] == key[0]);
        if is_blank(line) {
            assert forall|i: int| 0 <= i < key.len() implies crate::text::is_ws(#[trigger] key[i]) by {
                assert(line[i] == key[i]);
            }
        }
    }
    lemma_first_index(line, '=');
    assert(line[n] == '=');
    match first_index(line, '=') {
        Some(i) => {
            if i < n {
                assert(key[i] == '=');
            } else if i > n {
                assert(line.take(i)[n] == '=');
            }
            assert(i == n);
        },
        None => {
            assert(false);
        },
    }
    assert(line.take(n) =~= key);
    assert(line.skip(n + 1) =~= e);
}

proof fn lemma_read_pairs(d: FieldsModel, pairs: Seq<(WireKey, Seq<char>)>)
    requires
        forall|i: int| 0 <= i < pairs.len() ==> !ends_with_cr(#[trigger] pairs[i].1),
    ensures
        apply_lines(d, text_lines(pairs_text(pairs))) == apply_pairs(d, pairs),
    decreases pairs.len(),
{
    if pairs.len() == 0 {
        assert(text_lines(Seq::<char>::empty()) =~= Seq::<Seq<char>>::empty()) by {
            lemma_first_index(Seq::<char>::empty(), '\n');
        }
    } else {
        let k = pairs[0].0;
        let v = pairs[0].1;
        let body = key_text(k) + seq!['='] + escape_seq(v);
        let rest = pairs_text(pairs.drop_first());
        lemma_read_line(d, k, v);
        assert(pairs_text(pairs) =~= body + seq!['\n'] + rest);
        lemma_text_lines_cons(body, rest);
        let lines = text_lines(pairs_text(pairs));
        assert(lines[0] == body);
        assert(lines.drop_first() =~= text_lines(rest));
        match apply_field(d, key_text(k), v) {
            Ok(d2) => {
                assert forall|i: int| 0 <= i < pairs.drop_first().len() implies !ends_with_cr(
                    #[trigger] pairs.drop_first()[i].1,
                ) by {
                    assert(pairs.drop_first()[i] == pairs[i + 1]);
                }
                lemma_read_pairs(d2, pairs.drop_first());
            },
            Err(e) => {},
        }
    }
}

/// The facts about the stored values of a record that reading them back
/// needs: none ends with a carriage return, and each parses as the field.
proof fn lemma_stored_values(r: RecordModel)
    requires
        record_text_ok(r),
    ensures
        forall|i: int| 0 <= i < record_pairs(r).len() ==> !ends_with_cr(#[trigger] record_pairs(r)[i].1),
        int_parse(decimal(r.pid as nat), u32::MAX as nat) == Ok::<nat, IntErrorKind>(r.pid as nat),
        int_parse(decimal(r.created_at as nat), u64::MAX as nat) == Ok::<nat, IntErrorKind>(r.created_at as nat),
        int_parse(decimal(r.updated_at as nat), u64::MAX as nat) == Ok::<nat, IntErrorKind>(r.updated_at as nat),
        int_parse(decimal(r.remote_port as nat), u16::MAX as nat) == Ok::<nat, IntErrorKind>(r.remote_port as nat),
        status_from_name(status_name(r.status)) == Some(r.status),
        (bool_text(r.daemon) == bool_text(true)) == r.daemon,
{
    lemma_decimal(r.pid as nat);
    lemma_decimal(r.created_at as nat);
    lemma_decimal(r.updated_at as nat);
    lemma_decimal(r.remote_port as nat);
    assert(!ends_with_cr(bool_text(r.daemon)));
    assert(!ends_with_cr(status_name(r.status)));
    assert(!ends_with_cr(decimal(r.pid as nat))) by {
        let t = decimal(r.pid as nat);
        assert(t[t.len() - 1] != '\r');
    }
    assert(!ends_with_cr(decimal(r.created_at as nat))) by {
        let t = decimal(r.created_at as nat);
        assert(t[t.len() - 1] != '\r');
    }
    assert(!ends_with_cr(decimal(r.updated_at as nat))) by {
        let t = decimal(r.updated_at as nat);
        assert(t[t.len() - 1] != '\r');
    }
    assert(!ends_with_cr(decimal(r.remote_port as nat))) by {
        let t = decimal(r.remote_port as nat);
        assert(t[t.len() - 1] != '\r');
    }
    let pairs = record_pairs(r);
    if r.mappings.len() == 0 {
        assert forall|i: int| 0 <= i < pairs.len() implies !ends_with_cr(#[trigger] pairs[i].1) by {}
    } else {
        assert forall|i: int| 0 <= i < pairs.len() implies !ends_with_cr(#[trigger] pairs[i].1) by {}
    }
    lemma_int_parse_decimal(r.pid as nat, u32::MAX as nat);
    lemma_int_parse_decimal(r.created_at as nat, u64::MAX as nat);
    lemma_int_parse_decimal(r.updated_at as nat, u64::MAX as nat);
    lemma_int_parse_decimal(r.remote_port as nat, u16::MAX as nat);
    lemma_status_name_round_trip(r.status);
    assert((bool_text(r.daemon) == bool_text(true)) == r.daemon) by {
        assert(bool_text(false).len() != bool_text(true).len());
    }
}

proof fn lemma_all_key_facts()
    ensures
        forall|k: WireKey| key_of_text(#[trigger] key_text(k)) == Some(k),
{
    assert forall|k: WireKey| key_of_text(#[trigger] key_text(k)) == Some(k) by {
        lemma_key_facts(k);
    }
}

/// The fields that reading the stored values of a record without forward
/// mappings gives.
#[verifier::spinoff_prover]
#[verifier::rlimit(100)]
proof fn lemma_apply_plain_pairs(r: RecordModel)
    requires
        r.mappings.len() == 0,
        int_parse(decimal(r.pid as nat), u32::MAX as nat) == Ok::<nat, IntErrorKind>(r.pid as nat),
        int_parse(decimal(r.created_at as nat), u64::MAX as nat) == Ok::<nat, IntErrorKind>(r.created_at as nat),
        int_parse(decimal(r.updated_at as nat), u64::MAX as nat) == Ok::<nat, IntErrorKind>(r.updated_at as nat),
        int_parse(decimal(r.remote_port as nat), u16::MAX as nat) == Ok::<nat, IntErrorKind>(r.remote_port as nat),
        status_from_name(status_name(r.status)) == Some(r.status),
        (bool_text(r.daemon) == bool_text(true)) == r.daemon,
    ensures
        finish_fields(apply_pairs(no_fields(), record_pairs(r))->Ok_0) == Ok::<RecordModel, RecordFormatError>(r),
        apply_pairs(no_fields(), record_pairs(r)) is Ok,
{
    let pairs: Seq<(WireKey, Seq<char>)> = seq![
        (WireKey::Id, r.id),
        (WireKey::Command, r.command),
        (WireKey::Pid, decimal(r.pid as nat)),
        (WireKey::CreatedAt, decimal(r.created_at as nat)),
        (WireKey::UpdatedAt, decimal(r.updated_at as nat)),
        (WireKey::Server, r.server),
        (WireKey::User, r.user),
        (WireKey::Local, r.local),
        (WireKey::RemoteHost, r.remote_host),
        (WireKey::RemotePort, decimal(r.remote_port as nat)),
        (WireKey::Daemon, bool_text(r.daemon)),
        (WireKey::LogFile, r.log_file),
        (WireKey::Status, status_name(r.status)),
    ];
    assert(record_pairs(r) == pairs);
    lemma_all_key_facts();
    assert(r.mappings =~= Seq::<char>::empty());
    reveal_with_fuel(apply_pairs, 14);
}

/// The fields that reading the stored values of a record with forward
/// mappings gives.
#[verifier::spinoff_prover]
#[verifier::rlimit(100)]
proof fn lemma_apply_forward_pairs(r: RecordModel)
    requires
        r.mappings.len() > 0,
        int_parse(decimal(r.pid as nat), u32::MAX as nat) == Ok::<nat, IntErrorKind>(r.pid as nat),
        int_parse(decimal(r.created_at as nat), u64::MAX as nat) == Ok::<nat, IntErrorKind>(r.created_at as nat),
        int_parse(decimal(r.updated_at as nat), u64::MAX as nat) == Ok::<nat, IntErrorKind>(r.updated_at as nat),
        int_parse(decimal(r.remote_port as nat), u16::MAX as nat) == Ok::<nat, IntErrorKind>(r.remote_port as nat),
        status_from_name(status_name(r.status)) == Some(r.status),
        (bool_text(r.daemon) == bool_text(true)) == r.daemon,
    ensures
        finish_fields(apply_pairs(no_fields(), record_pairs(r))->Ok_0) == Ok::<RecordModel, RecordFormatError>(r),
        apply_pairs(no_fields(), record_pairs(r)) is Ok,
{
    let pairs: Seq<(WireKey, Seq<char>)> = seq![
        (WireKey::Id, r.id),
        (WireKey::Command, r.command),
        (WireKey::Pid, decimal(r.pid as nat)),
        (WireKey::CreatedAt, decimal(r.created_at as nat)),
        (WireKey::UpdatedAt, decimal(r.updated_at as nat)),
        (WireKey::Server, r.server),
        (WireKey::User, r.user),
        (WireKey::Local, r.local),
        (WireKey::RemoteHost, r.remote_host),
        (WireKey::RemotePort, decimal(r.remote_port as nat)),
        (WireKey::Mappings, r.mappings),
        (WireKey::Daemon, bool_text(r.daemon)),
        (WireKey::LogFile, r.log_file),
        (WireKey::Status, status_name(r.status)),
    ];
    assert(record_pairs(r) == pairs);
    lemma_all_key_facts();
    reveal_with_fuel(apply_pairs, 15);
}

/// Reading back the stored text of a record gives the record, provided that
/// no text field ends with a carriage return.
pub proof fn lemma_record_round_trip(r: RecordModel)
    requires
        record_text_ok(r),
    ensures
        record_from_text(record_wire(r)) == Ok::<RecordModel, RecordFormatError>(r),
{
    lemma_stored_values(r);
    lemma_read_pairs(no_fields(), record_pairs(r));
    if r.mappings.len() == 0 {
        lemma_apply_plain_pairs(r);
    } else {
        lemma_apply_forward_pairs(r);
    }
}


// ---------------------------------------------------------------------------
// Writing and reading records

/// The text of a key.
pub fn key_str(k: WireKey) -> (r: &'static str)
    ensures
        r@ == key_text(k),
{
    match k {
        WireKey::Id => {
            proof { reveal_strlit("id"); }
            "id"
        },
        WireKey::Command => {
            proof { reveal_strlit("command"); }
            "command"
        },
        WireKey::Pid => {
            proof { reveal_strlit("pid"); }
            "pid"
        },
        WireKey::CreatedAt => {
            proof { reveal_strlit("created_at"); }
            "created_at"
        },
        WireKey::UpdatedAt => {
            proof { reveal_strlit("updated_at"); }
            "updated_at"
        },
        WireKey::Server => {
            proof { reveal_strlit("server"); }
            "server"
        },
        WireKey::User => {
            proof { reveal_strlit("user"); }
            "user"
        },
        WireKey::Local => {
            proof { reveal_strlit("local"); }
            "local"
        },
        WireKey::RemoteHost => {
            proof { reveal_strlit("remote_host"); }
            "remote_host"
        },
        WireKey::RemotePort => {
            proof { reveal_strlit("remote_port"); }
            "remote_port"
        },
        WireKey::Mappings => {
            proof { reveal_strlit("mappings"); }
            "mappings"
        },
        WireKey::Daemon => {
            proof { reveal_strlit("daemon"); }
            "daemon"
        },
        WireKey::LogFile => {
            proof { reveal_strlit("log_file"); }
            "log_file"
        },
        WireKey::Status => {
            proof { reveal_strlit("status"); }
            "status"
        },
    }
}

/// The key that `v[lo..hi]` names, if any.
fn classify_key(v: &Vec<char>, lo: usize, hi: usize) -> (r: Option<WireKey>)
    requires
        lo <= hi <= v@.len(),
    ensures
        r == key_of_text(v@.subrange(lo as int, hi as int)),
{
    if chars_equal(v, lo, hi, key_str(WireKey::Id)) {
        Some(WireKey::Id)
    } else if chars_equal(v, lo, hi, key_str(WireKey::Command)) {
        Some(WireKey::Command)
    } else if chars_equal(v, lo, hi, key_str(WireKey::Pid)) {
        Some(WireKey::Pid)
    } else if chars_equal(v, lo, hi, key_str(WireKey::CreatedAt)) {
        Some(WireKey::CreatedAt)
    } else if chars_equal(v, lo, hi, key_str(WireKey::UpdatedAt)) {
        Some(WireKey::UpdatedAt)
    } else if chars_equal(v, lo, hi, key_str(WireKey::Server)) {
        Some(WireKey::Server)
    } else if chars_equal(v, lo, hi, key_str(WireKey::User)) {
        Some(WireKey::User)
    } else if chars_equal(v, lo, hi, key_str(WireKey::Local)) {
        Some(WireKey::Local)
    } else if chars_equal(v, lo, hi, key_str(WireKey::RemoteHost)) {
        Some(WireKey::RemoteHost)
    } else if chars_equal(v, lo, hi, key_str(WireKey::RemotePort)) {
        Some(WireKey::RemotePort)
    } else if chars_equal(v, lo, hi, key_str(WireKey::Mappings)) {
        Some(WireKey::Mappings)
    } else if chars_equal(v, lo, hi, key_str(WireKey::Daemon)) {
        Some(WireKey::Daemon)
    } else if chars_equal(v, lo, hi, key_str(WireKey::LogFile)) {
        Some(WireKey::LogFile)
    } else if chars_equal(v, lo, hi, key_str(WireKey::Status)) {
        Some(WireKey::Status)
    } else {
        None
    }
}

/// The decimal form of `n`.
pub fn decimal_string(n: u64) -> (r: String)
    ensures
        r@ == decimal(n as nat),
{
    let mut out = String::new();
    push_decimal(&mut out, n);
    out
}

/// Appends the stored line for `key` and `value`.
fn push_line(out: &mut String, key: WireKey, value: &str)
    ensures
        final(out)@ == old(out)@ + wire_line(key_text(key), value@),
{
    push_str(out, key_str(key));
    push_char(out, '=');
    let v = chars_of(value);
    crate::tunnel_registry::push_escaped(out, &v, 0, v.len());
    assert(v@.subrange(0, v@.len() as int) =~= value@);
    push_char(out, '\n');
    assert(final(out)@ =~= old(out)@ + wire_line(key_text(key), value@));
}

proof fn lemma_pairs_text_step(p: Seq<(WireKey, Seq<char>)>, i: int)
    requires
        0 <= i < p.len(),
    ensures
        pairs_text(p.skip(i)) == wire_line(key_text(p[i].0), p[i].1) + pairs_text(p.skip(i + 1)),
{
    assert(p.skip(i).drop_first() =~= p.skip(i + 1));
    assert(p.skip(i)[0] == p[i]);
}

impl TunnelRecord {
    /// A copy of the record.
    pub fn duplicate(&self) -> (r: TunnelRecord)
        ensures
            r@ == self@,
    {
        TunnelRecord {
            id: self.id.clone(),
            command: self.command.clone(),
            pid: self.pid,
            created_at: self.created_at,
            updated_at: self.updated_at,
            server: self.server.clone(),
            user: self.user.clone(),
            local: self.local.clone(),
            remote_host: self.remote_host.clone(),
            remote_port: self.remote_port,
            mappings: self.mappings.clone(),
            daemon: self.daemon,
            log_file: self.log_file.clone(),
            status: self.status,
        }
    }

    /// The keys and values of the record, in the order in which they are stored.
    fn wire_pairs(&self) -> (r: Vec<(WireKey, String)>)
        ensures
            r@.len() == record_pairs(self@).len(),
            forall|i: int| 0 <= i < r@.len() ==> (#[trigger] r@[i]).0 == record_pairs(self@)[i].0
                && r@[i].1@ == record_pairs(self@)[i].1,
    {
        let mut r: Vec<(WireKey, String)> = Vec::new();
        r.push((WireKey::Id, self.id.clone()));
        r.push((WireKey::Command, self.command.clone()));
        r.push((WireKey::Pid, decimal_string(self.pid as u64)));
        r.push((WireKey::CreatedAt, decimal_string(self.created_at)));
        r.push((WireKey::UpdatedAt, decimal_string(self.updated_at)));
        r.push((WireKey::Server, self.server.clone()));
        r.push((WireKey::User, self.user.clone()));
        r.push((WireKey::Local, self.local.clone()));
        r.push((WireKey::RemoteHost, self.remote_host.clone()));
        r.push((WireKey::RemotePort, decimal_string(self.remote_port as u64)));
        if !self.mappings.as_str().is_empty() {
            r.push((WireKey::Mappings, self.mappings.clone()));
        }
        let daemon = if self.daemon {
            proof { reveal_strlit("true"); }
            "true".to_string()
        } else {
            proof { reveal_strlit("false"); }
            "false".to_string()
        };
        r.push((WireKey::Daemon, daemon));
        r.push((WireKey::LogFile, self.log_file.clone()));
        let status = self.status.as_str().to_string();
        r.push((WireKey::Status, status));
        r
    }

    /// The stored text of the record: one `key=value` line per field, in a
    /// fixed order, each value escaped.
    pub fn to_wire(&self) -> (r: String)
        ensures
            r@ == record_wire(self@),
    {
        let pairs = self.wire_pairs();
        let ghost p = record_pairs(self@);
        let mut out = String::new();
        let mut i: usize = 0;
        assert(p.skip(0) =~= p);
        while i < pairs.len()
            invariant
                pairs@.len() == p.len(),
                forall|j: int| 0 <= j < pairs@.len() ==> (#[trigger] pairs@[j]).0 == p[j].0
                    && pairs@[j].1@ == p[j].1,
                0 <= i <= pairs@.len(),
                out@ + pairs_text(p.skip(i as int)) == pairs_text(p),
            decreases pairs.len() - i,
        {
            let (k, value) = &pairs[i];
            push_line(&mut out, *k, value.as_str());
            proof {
                lemma_pairs_text_step(p, i as int);
            }
            assert(out@ + pairs_text(p.skip(i + 1)) =~= pairs_text(p));
            i = i + 1;
        }
        assert(p.skip(p.len() as int) =~= Seq::<(WireKey, Seq<char>)>::empty());
        assert(out@ =~= pairs_text(p));
        out
    }
}

/// The fields read so far from a stored record.
struct Fields {
    id: Option<String>,
    command: Option<String>,
    pid: Option<u32>,
    created_at: Option<u64>,
    updated_at: Option<u64>,
    server: Option<String>,
    user: Option<String>,
    local: Option<String>,
    remote_host: Option<String>,
    remote_port: Option<u16>,
    mappings: Option<String>,
    daemon: Option<bool>,
    log_file: Option<String>,
    status: Option<TunnelStatus>,
}


impl View for Fields {
    type V = FieldsModel;

    closed spec fn view(&self) -> FieldsModel {
        FieldsModel {
            id: opt_text(self.id),
            command: opt_text(self.command),
            pid: self.pid,
            created_at: self.created_at,
            updated_at: self.updated_at,
            server: opt_text(self.server),
            user: opt_text(self.user),
            local: opt_text(self.local),
            remote_host: opt_text(self.remote_host),
            remote_port: self.remote_port,
            mappings: opt_text(self.mappings),
            daemon: self.daemon,
            log_file: opt_text(self.log_file),
            status: self.status,
        }
    }
}

/// Reads the value `value` under the key text `v[lo..hi]`.
fn read_field(f: &mut Fields, v: &Vec<char>, lo: usize, hi: usize, value: String) -> (r: Result<(), RecordFormatError>)
    requires
        lo <= hi <= v@.len(),
    ensures
        match apply_field(old(f)@, v@.subrange(lo as int, hi as int), value@) {
            Ok(d) => r is Ok && final(f)@ == d,
            Err(e) => r == Err::<(), RecordFormatError>(e),
        },
{
    let key = classify_key(v, lo, hi);
    match key {
        None => Ok(()),
        Some(k) => {
            match k {
                WireKey::Id => {
                    f.id = Some(value);
                    Ok(())
                },
                WireKey::Command => {
                    f.command = Some(value);
                    Ok(())
                },
                WireKey::Pid => {
                    let c = chars_of(value.as_str());
                    assert(c@.subrange(0, c@.len() as int) =~= value@);
                    match parse_int(&c, 0, c.len(), u32::MAX as u64) {
                        Ok(n) => {
                            f.pid = Some(n as u32);
                            Ok(())
                        },
                        Err(k) => Err(RecordFormatError::InvalidPid(k)),
                    }
                },
                WireKey::CreatedAt => {
                    let c = chars_of(value.as_str());
                    assert(c@.subrange(0, c@.len() as int) =~= value@);
                    match parse_int(&c, 0, c.len(), u64::MAX) {
                        Ok(n) => {
                            f.created_at = Some(n);
                            Ok(())
                        },
                        Err(k) => Err(RecordFormatError::InvalidCreatedAt(k)),
                    }
                },
                WireKey::UpdatedAt => {
                    let c = chars_of(value.as_str());
                    assert(c@.subrange(0, c@.len() as int) =~= value@);
                    match parse_int(&c, 0, c.len(), u64::MAX) {
                        Ok(n) => {
                            f.updated_at = Some(n);
                            Ok(())
                        },
                        Err(k) => Err(RecordFormatError::InvalidUpdatedAt(k)),
                    }
                },
                WireKey::Server => {
                    f.server = Some(value);
                    Ok(())
                },
                WireKey::User => {
                    f.user = Some(value);
                    Ok(())
                },
                WireKey::Local => {
                    f.local = Some(value);
                    Ok(())
                },
                WireKey::RemoteHost => {
                    f.remote_host = Some(value);
                    Ok(())
                },
                WireKey::RemotePort => {
                    let c = chars_of(value.as_str());
                    assert(c@.subrange(0, c@.len() as int) =~= value@);
                    match parse_int(&c, 0, c.len(), u16::MAX as u64) {
                        Ok(n) => {
                            f.remote_port = Some(n as u16);
                            Ok(())
                        },
                        Err(k) => Err(RecordFormatError::InvalidRemotePort(k)),
                    }
                },
                WireKey::Mappings => {
                    f.mappings = Some(value);
                    Ok(())
                },
                WireKey::Daemon => {
                    let c = chars_of(value.as_str());
                    assert(c@.subrange(0, c@.len() as int) =~= value@);
                    proof {
                        reveal_strlit("true");
                        assert("true"@ =~= bool_text(true));
                    }
                    let t = chars_equal(&c, 0, c.len(), "true");
                    f.daemon = Some(t);
                    Ok(())
                },
                WireKey::LogFile => {
                    f.log_file = Some(value);
                    Ok(())
                },
                WireKey::Status => {
                    f.status = TunnelStatus::parse(value.as_str());
                    Ok(())
                },
            }
        },
    }
}

/// Reads the line `v[lo..hi]`.
fn read_line(f: &mut Fields, v: &Vec<char>, lo: usize, hi: usize) -> (r: Result<(), RecordFormatError>)
    requires
        lo <= hi <= v@.len(),
    ensures
        match apply_line(old(f)@, v@.subrange(lo as int, hi as int)) {
            Ok(d) => r is Ok && final(f)@ == d,
            Err(e) => r == Err::<(), RecordFormatError>(e),
        },
{
    let ghost line = v@.subrange(lo as int, hi as int);
    if blank_chars(v, lo, hi) {
        return Ok(());
    }
    let eq = find_first(v, lo, hi, '=');
    proof {
        lemma_first_index(line, '=');
    }
    match eq {
        None => Err(RecordFormatError::InvalidLine),
        Some(k) => {
            let value = crate::tunnel_registry::unescape_chars(v, k + 1, hi);
            assert(line.take(k - lo) =~= v@.subrange(lo as int, k as int));
            assert(line.skip(k - lo + 1) =~= v@.subrange(k + 1, hi as int));
            read_field(f, v, lo, k, value)
        },
    }
}

/// The lines of `s` from position `i` on: the first runs to the next newline,
/// or to the end when there is none.
proof fn lemma_text_lines_at(s: Seq<char>, i: int, j: int)
    requires
        0 <= i < j <= s.len(),
        forall|k: int| i <= k < j ==> s[k] != '\n',
        j < s.len() ==> s[j] == '\n',
    ensures
        j < s.len() ==> text_lines(s.skip(i)) == seq![strip_cr(s.subrange(i, j))] + text_lines(
            s.skip(j + 1),
        ),
        j == s.len() ==> text_lines(s.skip(i)) == seq![s.subrange(i, j)],
{
    let t = s.skip(i);
    if j < s.len() {
        lemma_first_index_at(t, '\n', j - i);
        assert(t.take(j - i) =~= s.subrange(i, j));
        assert(t.skip(j - i + 1) =~= s.skip(j + 1));
    } else {
        assert forall|k: int| 0 <= k < t.len() implies t[k] != '\n' by {
            assert(t[k] == s[i + k]);
        }
        lemma_first_index_none(t, '\n');
        assert(t =~= s.subrange(i, j));
    }
}

impl TunnelRecord {
    /// The record that the stored text `input` denotes: lines are read in
    /// order, blank lines skipped, a later line for a key overrides an earlier
    /// one, unknown keys are ignored, and every field must be present.
    pub fn from_wire(input: &str) -> (r: Result<TunnelRecord, RecordFormatError>)
        ensures
            match record_from_text(input@) {
                Ok(m) => r is Ok && r->Ok_0@ == m,
                Err(e) => r == Err::<TunnelRecord, RecordFormatError>(e),
            },
    {
        let v = chars_of(input);
        let n = v.len();
        let mut f = Fields {
            id: None,
            command: None,
            pid: None,
            created_at: None,
            updated_at: None,
            server: None,
            user: None,
            local: None,
            remote_host: None,
            remote_port: None,
            mappings: None,
            daemon: None,
            log_file: None,
            status: None,
        };
        let mut i: usize = 0;
        assert(v@.skip(0) =~= v@);
        while i < n
            invariant
                n == v@.len(),
                v@ == input@,
                0 <= i <= n,
                apply_lines(no_fields(), text_lines(v@)) == apply_lines(f@, text_lines(v@.skip(i as int))),
            decreases n - i,
        {
            let ghost before = f@;
            let nl = find_first(&v, i, n, '\n');
            proof {
                lemma_first_index(v@.subrange(i as int, n as int), '\n');
            }
            let (j, next) = match nl {
                Some(j) => (j, j + 1),
                None => (n, n),
            };
            proof {
                lemma_first_index(v@.subrange(i as int, n as int), '\n');
                assert forall|k: int| i <= k < j implies v@[k] != '\n' by {
                    if j < n {
                        assert(v@.subrange(i as int, n as int).take(j - i)[k - i] == v@[k]);
                    } else {
                        assert(v@.subrange(i as int, n as int)[k - i] == v@[k]);
                    }
                }
            }
            let mut end = j;
            if j < n && end > i && v[end - 1] == '\r' {
                end = end - 1;
            }
            if j == i {
                assert(j < n);
            }
            proof {
                if j > i {
                    lemma_text_lines_at(v@, i as int, j as int);
                } else {
                    lemma_first_index_at(v@.skip(i as int), '\n', 0);
                    assert(v@.skip(i as int).take(0) =~= Seq::<char>::empty());
                    assert(v@.skip(i as int).skip(1) =~= v@.skip(j + 1));
                }
                if j < n {
                    assert(strip_cr(v@.subrange(i as int, j as int)) =~= v@.subrange(i as int, end as int));
                }
            }
            let res = read_line(&mut f, &v, i, end);
            match res {
                Err(e) => {
                    return Err(e);
                },
                Ok(()) => {},
            }
            proof {
                if j == n {
                    assert(v@.skip(n as int) =~= Seq::<char>::empty());
                    lemma_first_index_none(Seq::<char>::empty(), '\n');
                }
                let ls = text_lines(v@.skip(i as int));
                assert(ls.len() > 0);
                assert(ls[0] == v@.subrange(i as int, end as int));
                assert(ls.drop_first() =~= text_lines(v@.skip(next as int)));
            }
            i = next;
        }
        assert(v@.skip(n as int) =~= Seq::<char>::empty());
        proof {
            lemma_first_index_none(Seq::<char>::empty(), '\n');
        }
        TunnelRecord::finish(f)
    }

    fn finish(f: Fields) -> (r: Result<TunnelRecord, RecordFormatError>)
        ensures
            match finish_fields(f@) {
                Ok(m) => r is Ok && r->Ok_0@ == m,
                Err(e) => r == Err::<TunnelRecord, RecordFormatError>(e),
            },
    {
        let id = match f.id { Some(x) => x, None => return Err(RecordFormatError::Missing(WireKey::Id)) };
        let command = match f.command { Some(x) => x, None => return Err(RecordFormatError::Missing(WireKey::Command)) };
        let pid = match f.pid { Some(x) => x, None => return Err(RecordFormatError::Missing(WireKey::Pid)) };
        let created_at = match f.created_at { Some(x) => x, None => return Err(RecordFormatError::Missing(WireKey::CreatedAt)) };
        let updated_at = match f.updated_at { Some(x) => x, None => return Err(RecordFormatError::Missing(WireKey::UpdatedAt)) };
        let server = match f.server { Some(x) => x, None => return Err(RecordFormatError::Missing(WireKey::Server)) };
        let user = match f.user { Some(x) => x, None => return Err(RecordFormatError::Missing(WireKey::User)) };
        let local = match f.local { Some(x) => x, None => return Err(RecordFormatError::Missing(WireKey::Local)) };
        let remote_host = match f.remote_host { Some(x) => x, None => return Err(RecordFormatError::Missing(WireKey::RemoteHost)) };
        let remote_port = match f.remote_port { Some(x) => x, None => return Err(RecordFormatError::Missing(WireKey::RemotePort)) };
        let mappings = match f.mappings { Some(x) => x, None => String::new() };
        let daemon = match f.daemon { Some(x) => x, None => return Err(RecordFormatError::Missing(WireKey::Daemon)) };
        let log_file = match f.log_file { Some(x) => x, None => return Err(RecordFormatError::Missing(WireKey::LogFile)) };
        let status = match f.status { Some(x) => x, None => return Err(RecordFormatError::Missing(WireKey::Status)) };
        Ok(TunnelRecord {
            id,
            command,
            pid,
            created_at,
            updated_at,
            server,
            user,
            local,
            remote_host,
            remote_port,
            mappings,
            daemon,
            log_file,
            status,
        })
    }
}


// ---------------------------------------------------------------------------
// Lifecycle transitions of a record

/// The record with a new status, stamped at `now`.
pub open spec fn with_status(r: RecordModel, status: TunnelStatus, now: u64) -> RecordModel {
    RecordModel { status, updated_at: now, ..r }
}

/// The positions in `records` of the tunnels that `stop` acts on, in order.
proof fn stop_target_positions(records: Seq<RecordModel>, alive: Seq<bool>, include_all: bool) -> (idx: Seq<int>)
    requires
        records.len() == alive.len(),
    ensures
        idx.len() == stop_targets(records, alive, include_all).len(),
        forall|j: int| 0 <= j < idx.len() ==> 0 <= #[trigger] idx[j] < records.len()
            && stop_targets(records, alive, include_all)[j] == (records[idx[j]], alive[idx[j]]),
        forall|j: int, k: int| 0 <= j < k < idx.len() ==> #[trigger] idx[j] < #[trigger] idx[k],
        forall|i: int| 0 <= i < records.len() && (include_all || status_active(#[trigger] records[i].status))
            ==> idx.contains(i),
        forall|j: int| 0 <= j < idx.len() ==> include_all || status_active(records[#[trigger] idx[j]].status),
    decreases records.len(),
{
    if records.len() == 0 {
        Seq::empty()
    } else {
        let n = records.len() - 1;
        let pr = records.drop_last();
        let pa = alive.take(n);
        let p = stop_target_positions(pr, pa, include_all);
        let rest = stop_targets(pr, pa, include_all);
        assert forall|j: int| 0 <= j < p.len() implies records[#[trigger] p[j]] == pr[p[j]] && alive[p[j]] == pa[p[j]] by {}
        if include_all || status_active(records.last().status) {
            let q = p.push(n);
            assert forall|i: int| 0 <= i < records.len() && (include_all || status_active(#[trigger] records[i].status))
                implies q.contains(i) by {
                if i < n {
                    assert(pr[i] == records[i]);
                    assert(p.contains(i));
                    let j = choose|j: int| 0 <= j < p.len() && p[j] == i;
                    assert(q[j] == i);
                } else {
                    assert(q[q.len() - 1] == i);
                }
            }
            q
        } else {
            assert forall|i: int| 0 <= i < records.len() && (include_all || status_active(#[trigger] records[i].status))
                implies p.contains(i) by {
                if i < n {
                    assert(pr[i] == records[i]);
                }
            }
            p
        }
    }
}

/// `stop` acts on the tunnels in the registry's order, each with its own
/// liveness: with `--all` on every record, and otherwise on exactly the
/// records whose status is starting, running or reconnecting.
pub proof fn lemma_stop_targets(records: Seq<RecordModel>, alive: Seq<bool>, include_all: bool)
    requires
        records.len() == alive.len(),
    ensures
        ({
            let t = stop_targets(records, alive, include_all);
            exists|idx: Seq<int>|
                {
                    &&& idx.len() == t.len()
                    &&& forall|j: int| 0 <= j < idx.len() ==> 0 <= #[trigger] idx[j] < records.len() && t[j] == (
                        records[idx[j]],
                        alive[idx[j]],
                    )
                    &&& forall|j: int, k: int| 0 <= j < k < idx.len() ==> #[trigger] idx[j] < #[trigger] idx[k]
                    &&& forall|i: int|
                        0 <= i < records.len() && (include_all || records[i].status == TunnelStatus::Starting
                            || records[i].status == TunnelStatus::Running || records[i].status
                            == TunnelStatus::Reconnecting) ==> #[trigger] idx.contains(i)
                    &&& forall|j: int|
                        0 <= j < idx.len() ==> include_all || records[#[trigger] idx[j]].status == TunnelStatus::Starting
                            || records[idx[j]].status == TunnelStatus::Running || records[idx[j]].status
                            == TunnelStatus::Reconnecting
                }
        }),
        include_all ==> stop_targets(records, alive, include_all).len() == records.len(),
{
    let idx = stop_target_positions(records, alive, include_all);
    let t = stop_targets(records, alive, include_all);
    assert forall|i: int|
        0 <= i < records.len() && (include_all || records[i].status == TunnelStatus::Starting || records[i].status
            == TunnelStatus::Running || records[i].status == TunnelStatus::Reconnecting) implies #[trigger] idx.contains(
        i,
    ) by {
        assert(include_all || status_active(records[i].status));
    }
    if include_all {
        lemma_stop_all_count(records, alive);
    }
}

proof fn lemma_stop_all_count(records: Seq<RecordModel>, alive: Seq<bool>)
    ensures
        stop_targets(records, alive, true).len() == records.len(),
    decreases records.len(),
{
    if records.len() > 0 {
        lemma_stop_all_count(records.drop_last(), alive.take(records.len() - 1));
    }
}

/// Stopping a tunnel marks it `Exited` when its process was alive (and is
/// terminated) and `Stale` when it was not, stamped at `now`; nothing else
/// in the record changes.
pub proof fn lemma_stopped(r: RecordModel, alive: bool, now: u64)
    ensures
        stopped(r, alive, now) == (RecordModel {
            status: if alive {
                TunnelStatus::Exited
            } else {
                TunnelStatus::Stale
            },
            updated_at: now,
            ..r
        }),
{
}

/// The record after its tunnel was stopped: `Exited` when its process was
/// alive (and is terminated), `Stale` when it was not.
pub open spec fn stopped(r: RecordModel, alive: bool, now: u64) -> RecordModel {
    with_status(r, if alive { TunnelStatus::Exited } else { TunnelStatus::Stale }, now)
}

/// The record after its liveness was checked: an active record whose process
/// is gone becomes `Stale`; any other record is unchanged.
pub open spec fn reconciled(r: RecordModel, alive: bool, now: u64) -> RecordModel {
    if status_active(r.status) && !alive {
        with_status(r, TunnelStatus::Stale, now)
    } else {
        r
    }
}

/// Sets the status of a stored record and stamps it at `now`.
pub fn update_status(record: &mut TunnelRecord, status: TunnelStatus, now: u64)
    ensures
        final(record)@ == with_status(old(record)@, status, now),
{
    record.status = status;
    record.updated_at = now;
}

/// Marks a tunnel as running.
pub fn mark_running(record: &mut TunnelRecord, now: u64)
    ensures
        final(record)@ == with_status(old(record)@, TunnelStatus::Running, now),
{
    update_status(record, TunnelStatus::Running, now)
}

/// Marks a tunnel as reconnecting after its SSH session ended.
pub fn mark_reconnecting(record: &mut TunnelRecord, now: u64)
    ensures
        final(record)@ == with_status(old(record)@, TunnelStatus::Reconnecting, now),
{
    update_status(record, TunnelStatus::Reconnecting, now)
}

/// Marks a tunnel as failed.
pub fn mark_failed(record: &mut TunnelRecord, now: u64)
    ensures
        final(record)@ == with_status(old(record)@, TunnelStatus::Failed, now),
{
    update_status(record, TunnelStatus::Failed, now)
}

/// Marks a tunnel as exited.
pub fn mark_exited(record: &mut TunnelRecord, now: u64)
    ensures
        final(record)@ == with_status(old(record)@, TunnelStatus::Exited, now),
{
    update_status(record, TunnelStatus::Exited, now)
}

/// Checks a record against the liveness of its process; returns whether the
/// record changed and must be stored again.
pub fn reconcile_record(record: &mut TunnelRecord, alive: bool, now: u64) -> (changed: bool)
    ensures
        final(record)@ == reconciled(old(record)@, alive, now),
        changed == (status_active(old(record)@.status) && !alive),
{
    if record.status.is_active() && !alive {
        record.status = TunnelStatus::Stale;
        record.updated_at = now;
        true
    } else {
        false
    }
}

/// The record of tunnel `id` as stored (`stored`, `None` when there is none),
/// checked against the liveness of its process; with it, whether it changed
/// and must be stored again.
pub fn get_record(stored: Option<TunnelRecord>, id: &str, alive: bool, now: u64) -> (r: Result<(TunnelRecord, bool), ConduitError>)
    ensures
        match stored {
            None => r is Err && r->Err_0@ == ErrorModel::UnknownTunnel(id@),
            Some(s) => r is Ok && r->Ok_0.0@ == reconciled(s@, alive, now) && r->Ok_0.1 == (status_active(s@.status) && !alive),
        },
{
    match stored {
        None => Err(ConduitError::UnknownTunnel(id.to_string())),
        Some(mut record) => {
            let changed = reconcile_record(&mut record, alive, now);
            Ok((record, changed))
        },
    }
}

/// Closes a tunnel: the record to store, and whether its process must be
/// terminated first (it must when it is alive).
pub fn close_tunnel(record: TunnelRecord, alive: bool, now: u64) -> (r: (TunnelRecord, bool))
    ensures
        r.0@ == stopped(record@, alive, now),
        r.1 == alive,
{
    let mut record = record;
    if alive {
        record.status = TunnelStatus::Exited;
    } else {
        record.status = TunnelStatus::Stale;
    }
    record.updated_at = now;
    (record, alive)
}

/// The records that `stop` acts on: all of them with `--all`, otherwise the
/// active ones, in the given order, each with the liveness of its process.
pub open spec fn stop_targets(records: Seq<RecordModel>, alive: Seq<bool>, include_all: bool) -> Seq<(RecordModel, bool)>
    decreases records.len(),
{
    if records.len() == 0 {
        Seq::empty()
    } else {
        let rest = stop_targets(records.drop_last(), alive.take(records.len() - 1), include_all);
        if include_all || status_active(records.last().status) {
            rest.push((records.last(), alive[records.len() - 1]))
        } else {
            rest
        }
    }
}

pub open spec fn records_view(v: Seq<TunnelRecord>) -> Seq<RecordModel> {
    v.map_values(|r: TunnelRecord| r@)
}

/// Stops managed tunnels: for each record that `stop` acts on, in order, the
/// record to store and whether its process must be terminated first.
/// `alive[i]` is the liveness of the process of `records[i]`.
pub fn stop_all_tunnels(records: Vec<TunnelRecord>, alive: &Vec<bool>, include_all: bool, now: u64) -> (r: Vec<(TunnelRecord, bool)>)
    requires
        alive@.len() == records@.len(),
    ensures
        r@.len() == stop_targets(records_view(records@), alive@, include_all).len(),
        forall|i: int| 0 <= i < r@.len() ==> {
            let (t, a) = #[trigger] stop_targets(records_view(records@), alive@, include_all)[i];
            r@[i].0@ == stopped(t, a, now) && r@[i].1 == a
        },
{
    let ghost all = records_view(records@);
    let mut out: Vec<(TunnelRecord, bool)> = Vec::new();
    let mut i: usize = 0;
    let n = records.len();
    while i < n
        invariant
            n == records@.len() == alive@.len(),
            0 <= i <= n,
            all == records_view(records@),
            out@.len() == stop_targets(all.take(i as int), alive@.take(i as int), include_all).len(),
            forall|k: int| 0 <= k < out@.len() ==> {
                let (t, a) = #[trigger] stop_targets(all.take(i as int), alive@.take(i as int), include_all)[k];
                out@[k].0@ == stopped(t, a, now) && out@[k].1 == a
            },
        decreases n - i,
    {
        let record = records[i].duplicate();
        let ghost prev = stop_targets(all.take(i as int), alive@.take(i as int), include_all);
        let ghost p = all.take(i + 1);
        assert(p.drop_last() =~= all.take(i as int));
        assert(alive@.take(i + 1).take(i as int) =~= alive@.take(i as int));
        assert(record@ == p.last());
        if include_all || record.status.is_active() {
            let a = alive[i];
            let (closed, terminate) = close_tunnel(record, a, now);
            out.push((closed, terminate));
            assert(stop_targets(p, alive@.take(i + 1), include_all) == prev.push((p.last(), a)));
        } else {
            assert(stop_targets(p, alive@.take(i + 1), include_all) == prev);
        }
        i = i + 1;
    }
    assert(all.take(n as int) =~= all);
    assert(alive@.take(n as int) =~= alive@);
    out
}

/// Deletes a tunnel: refused while its process is alive unless `force` is
/// given; otherwise the final record and whether its process must be
/// terminated first.
pub fn delete_tunnel(record: TunnelRecord, alive: bool, force: bool, now: u64) -> (r: Result<(TunnelRecord, bool), ConduitError>)
    ensures
        alive && !force ==> r is Err && r->Err_0@ == ErrorModel::ActiveTunnelDeleteRequiresForce(record.id@),
        alive && force ==> r is Ok && r->Ok_0.0@ == with_status(record@, TunnelStatus::Exited, now) && r->Ok_0.1,
        !alive ==> r is Ok && r->Ok_0.0@ == record@ && !r->Ok_0.1,
{
    if alive && !force {
        return Err(ConduitError::ActiveTunnelDeleteRequiresForce(record.id));
    }
    let mut record = record;
    if alive {
        record.status = TunnelStatus::Exited;
        record.updated_at = now;
    }
    Ok((record, alive))
}

/// The records that `list` shows: all of them with `--all`, otherwise the
/// active ones.
pub open spec fn listed(records: Seq<RecordModel>, include_all: bool) -> Seq<RecordModel>
    decreases records.len(),
{
    if records.len() == 0 {
        records
    } else if include_all || status_active(records.last().status) {
        listed(records.drop_last(), include_all).push(records.last())
    } else {
        listed(records.drop_last(), include_all)
    }
}

/// `x` placed into `s` (newest first) after every record created no earlier
/// than `x`: a stable insertion by descending creation time.
pub open spec fn insert_newest_first(s: Seq<RecordModel>, x: RecordModel) -> Seq<RecordModel>
    decreases s.len(),
{
    if s.len() == 0 {
        seq![x]
    } else if s.last().created_at >= x.created_at {
        s.push(x)
    } else {
        insert_newest_first(s.drop_last(), x).push(s.last())
    }
}

/// The records sorted newest first; records created at the same time keep
/// their order (a stable sort by descending creation time).
pub open spec fn newest_first(s: Seq<RecordModel>) -> Seq<RecordModel>
    decreases s.len(),
{
    if s.len() == 0 {
        s
    } else {
        insert_newest_first(newest_first(s.drop_last()), s.last())
    }
}

proof fn lemma_insert_newest_first_at(s: Seq<RecordModel>, x: RecordModel, p: int)
    requires
        0 <= p <= s.len(),
        forall|k: int| p <= k < s.len() ==> (#[trigger] s[k]).created_at < x.created_at,
        p > 0 ==> s[p - 1].created_at >= x.created_at,
    ensures
        insert_newest_first(s, x) == s.insert(p, x),
    decreases s.len(),
{
    if s.len() == 0 {
        assert(s.insert(p, x) =~= seq![x]);
    } else if p == s.len() {
        assert(s.insert(p, x) =~= s.push(x));
    } else {
        assert(s.last().created_at < x.created_at);
        let t = s.drop_last();
        assert forall|k: int| p <= k < t.len() implies (#[trigger] t[k]).created_at < x.created_at by {
            assert(t[k] == s[k]);
        }
        lemma_insert_newest_first_at(t, x, p);
        assert(t.insert(p, x).push(s.last()) =~= s.insert(p, x));
    }
}

/// The records that `list` shows, newest first; `records` are the stored
/// records, each already checked against the liveness of its process.
pub fn list_records(records: Vec<TunnelRecord>, include_all: bool) -> (r: Vec<TunnelRecord>)
    ensures
        records_view(r@) == newest_first(listed(records_view(records@), include_all)),
{
    let ghost all = records_view(records@);
    let mut out: Vec<TunnelRecord> = Vec::new();
    let mut i: usize = 0;
    let n = records.len();
    assert(all.take(0) =~= Seq::<RecordModel>::empty());
    assert(records_view(out@) =~= Seq::<RecordModel>::empty());
    while i < n
        invariant
            n == records@.len(),
            0 <= i <= n,
            all == records_view(records@),
            records_view(out@) == newest_first(listed(all.take(i as int), include_all)),
        decreases n - i,
    {
        let ghost p = all.take(i + 1);
        assert(p.drop_last() =~= all.take(i as int));
        assert(p.last() == records@[i as int]@);
        if include_all || records[i].status.is_active() {
            let x = records[i].duplicate();
            let ghost sorted = records_view(out@);
            let mut pos = out.len();
            while pos > 0 && out[pos - 1].created_at < x.created_at
                invariant
                    0 <= pos <= out@.len(),
                    sorted == records_view(out@),
                    forall|k: int| pos <= k < out@.len() ==> (#[trigger] sorted[k]).created_at < x.created_at,
                decreases pos,
            {
                pos = pos - 1;
            }
            proof {
                lemma_insert_newest_first_at(sorted, x@, pos as int);
            }
            out.insert(pos, x);
            assert(records_view(out@) =~= sorted.insert(pos as int, x@));
            proof {
                let prev = listed(all.take(i as int), include_all);
                assert(listed(p, include_all) == prev.push(p.last()));
                assert(prev.push(p.last()).drop_last() =~= prev);
                assert(newest_first(prev.push(p.last())) == insert_newest_first(newest_first(prev), p.last()));
            }
        } else {
            proof {
                assert(listed(p, include_all) == listed(all.take(i as int), include_all));
            }
        }
        i = i + 1;
    }
    assert(all.take(n as int) =~= all);
    out
}

/// Newest first: no record is created later than one before it.
pub open spec fn is_newest_first(s: Seq<RecordModel>) -> bool {
    forall|i: int, j: int| 0 <= i < j < s.len() ==> (#[trigger] s[i]).created_at >= (#[trigger] s[j]).created_at
}

proof fn lemma_insert_keeps_order(s: Seq<RecordModel>, x: RecordModel)
    requires
        is_newest_first(s),
    ensures
        is_newest_first(insert_newest_first(s, x)),
        insert_newest_first(s, x).to_multiset() == s.to_multiset().insert(x),
    decreases s.len(),
{
    broadcast use vstd::seq_lib::group_to_multiset_ensures;
    if s.len() == 0 {
        assert(seq![x] =~= Seq::<RecordModel>::empty().push(x));
    } else if s.last().created_at >= x.created_at {
        let t = s.push(x);
        assert forall|i: int, j: int| 0 <= i < j < t.len() implies (#[trigger] t[i]).created_at >= (
        #[trigger] t[j]).created_at by {
            if j == s.len() {
                if i < s.len() - 1 {
                    assert(s[i].created_at >= s[s.len() - 1].created_at);
                }
            }
        }
    } else {
        let d = s.drop_last();
        assert forall|i: int, j: int| 0 <= i < j < d.len() implies (#[trigger] d[i]).created_at >= (
        #[trigger] d[j]).created_at by {
            assert(d[i] == s[i] && d[j] == s[j]);
        }
        lemma_insert_keeps_order(d, x);
        let u = insert_newest_first(d, x);
        let t = u.push(s.last());
        assert(d.push(s.last()) =~= s);
        assert forall|i: int| 0 <= i < u.len() implies (#[trigger] u[i]).created_at >= s.last().created_at by {
            assert(u.to_multiset().count(u[i]) > 0);
            assert(d.to_multiset().insert(x).count(u[i]) > 0);
            if u[i] != x {
                assert(d.to_multiset().count(u[i]) > 0);
                vstd::seq_lib::to_multiset_contains(d, u[i]);
                let k = choose|k: int| 0 <= k < d.len() && d[k] == u[i];
                assert(s[k] == d[k]);
                assert(s[k].created_at >= s[s.len() - 1].created_at);
            }
        }
        assert forall|i: int, j: int| 0 <= i < j < t.len() implies (#[trigger] t[i]).created_at >= (
        #[trigger] t[j]).created_at by {
            if j == u.len() {
                assert(t[i] == u[i]);
            } else {
                assert(t[i] == u[i] && t[j] == u[j]);
            }
        }
        assert(t.to_multiset() =~= u.to_multiset().insert(s.last()));
        assert(s.to_multiset() =~= d.to_multiset().insert(s.last()));
        assert(t.to_multiset() =~= s.to_multiset().insert(x));
    }
}

/// The listing order is newest first, and it lists exactly the selected
/// records; without `--all` only active tunnels are selected.
pub proof fn lemma_listing_order(records: Seq<RecordModel>, include_all: bool)
    ensures
        is_newest_first(newest_first(listed(records, include_all))),
        newest_first(listed(records, include_all)).to_multiset() == listed(records, include_all).to_multiset(),
        !include_all ==> forall|i: int| 0 <= i < listed(records, include_all).len() ==> status_active(
            (#[trigger] listed(records, include_all)[i]).status,
        ),
    decreases records.len(),
{
    lemma_newest_first_sorted(listed(records, include_all));
    if records.len() > 0 {
        lemma_listing_order(records.drop_last(), include_all);
    }
}

proof fn lemma_newest_first_sorted(s: Seq<RecordModel>)
    ensures
        is_newest_first(newest_first(s)),
        newest_first(s).to_multiset() == s.to_multiset(),
    decreases s.len(),
{
    broadcast use vstd::seq_lib::group_to_multiset_ensures;
    if s.len() > 0 {
        lemma_newest_first_sorted(s.drop_last());
        lemma_insert_keeps_order(newest_first(s.drop_last()), s.last());
        assert(s.drop_last().push(s.last()) =~= s);
    } else {
        assert(s.to_multiset() =~= vstd::multiset::Multiset::empty());
    }
}

/// The record that a daemon tunnel with configuration `c` starts with.
pub open spec fn starting_record(
    id: Seq<char>,
    command: Seq<char>,
    c: crate::expose::types::ExposeModel,
    pid: u32,
    now: u64,
) -> RecordModel {
    RecordModel {
        id,
        command,
        pid,
        created_at: now,
        updated_at: now,
        server: c.server,
        user: c.user,
        local: c.local,
        remote_host: c.remote_host,
        remote_port: c.remote_port,
        mappings: Seq::empty(),
        daemon: c.daemon,
        log_file: c.log_file->0,
        status: TunnelStatus::Starting,
    }
}

/// The record of a daemon tunnel that is starting, created at `now`; `None`
/// when the configuration names no log file, which a managed tunnel needs.
pub fn create_starting_record(
    id: &str,
    command: &str,
    config: &crate::expose::types::ExposeConfig,
    pid: u32,
    now: u64,
) -> (r: Option<TunnelRecord>)
    ensures
        config.log_file is None ==> r is None,
        config.log_file is Some ==> r is Some && r->0@ == starting_record(id@, command@, config@, pid, now),
{
    let log_file = match &config.log_file {
        Some(l) => l.clone(),
        None => return None,
    };
    Some(TunnelRecord {
        id: id.to_string(),
        command: command.to_string(),
        pid,
        created_at: now,
        updated_at: now,
        server: config.server.clone(),
        user: config.user.clone(),
        local: config.local.clone(),
        remote_host: config.remote_host.clone(),
        remote_port: config.remote_port,
        mappings: String::new(),
        daemon: config.daemon,
        log_file,
        status: TunnelStatus::Starting,
    })
}

/// The record that a daemon forward tunnel with configuration `c` starts
/// with: the bind address stands as its local side, its mappings are stored
/// as text, and it has no remote bind address (empty host, port 0).
pub open spec fn starting_forward_record(
    id: Seq<char>,
    command: Seq<char>,
    c: crate::forward::ForwardModel,
    pid: u32,
    now: u64,
) -> RecordModel {
    RecordModel {
        id,
        command,
        pid,
        created_at: now,
        updated_at: now,
        server: c.server,
        user: c.user,
        local: c.bind_addr,
        remote_host: Seq::empty(),
        remote_port: 0,
        mappings: crate::forward::mappings_text(c.mappings),
        daemon: c.daemon,
        log_file: c.log_file->0,
        status: TunnelStatus::Starting,
    }
}

/// The record of a daemon forward tunnel that is starting, created at `now`;
/// `None` when the configuration names no log file, which a managed tunnel
/// needs.
pub fn create_starting_forward_record(
    id: &str,
    command: &str,
    config: &crate::forward::ForwardConfig,
    pid: u32,
    now: u64,
) -> (r: Option<TunnelRecord>)
    ensures
        config.log_file is None ==> r is None,
        config.log_file is Some ==> r is Some && r->0@ == starting_forward_record(id@, command@, config@, pid, now),
{
    let log_file = match &config.log_file {
        Some(l) => l.clone(),
        None => return None,
    };
    Some(TunnelRecord {
        id: id.to_string(),
        command: command.to_string(),
        pid,
        created_at: now,
        updated_at: now,
        server: config.server.clone(),
        user: config.user.clone(),
        local: config.bind_addr.clone(),
        remote_host: String::new(),
        remote_port: 0,
        mappings: config.encoded_mappings(),
        daemon: config.daemon,
        log_file,
        status: TunnelStatus::Starting,
    })
}

/// The id of a new tunnel: `tunnel-MILLIS-PID`.
pub fn tunnel_id(millis: u64, pid: u32) -> (r: String)
    ensures
        r@ == "tunnel-"@ + decimal(millis as nat) + seq!['-'] + decimal(pid as nat),
{
    let mut out = String::new();
    push_str(&mut out, "tunnel-");
    push_decimal(&mut out, millis);
    push_char(&mut out, '-');
    push_decimal(&mut out, pid as u64);
    out
}

/// The name of the file that stores the record of tunnel `id`.
pub fn record_file_name(id: &str) -> (r: String)
    ensures
        r@ == id@ + ".meta"@,
{
    let mut out = String::new();
    push_str(&mut out, id);
    push_str(&mut out, ".meta");
    out
}

/// The name of the default log file of tunnel `id`.
pub fn log_file_name(id: &str) -> (r: String)
    ensures
        r@ == id@ + ".log"@,
{
    let mut out = String::new();
    push_str(&mut out, id);
    push_str(&mut out, ".log");
    out
}

/// Closing or stopping a tunnel never leaves it active, and checking a record
/// whose process is gone leaves it inactive.
pub proof fn lemma_stop_deactivates(r: RecordModel, alive: bool, now: u64)
    ensures
        !status_active(stopped(r, alive, now).status),
        !status_active(reconciled(r, false, now).status),
        stopped(r, alive, now).id == r.id && stopped(r, alive, now).pid == r.pid,
        reconciled(r, alive, now).id == r.id,
{
}

/// What is stored after a status change reads back as the changed record.
pub proof fn lemma_status_change_reads_back(r: RecordModel, status: TunnelStatus, now: u64)
    requires
        record_text_ok(r),
    ensures
        record_from_text(record_wire(with_status(r, status, now))) == Ok::<RecordModel, RecordFormatError>(
            with_status(r, status, now),
        ),
{
    lemma_record_round_trip(with_status(r, status, now));
}

} // verus!
