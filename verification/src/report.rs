//! The text that the lifecycle commands show for managed tunnels.

use vstd::prelude::*;
use crate::decimal::{decimal, push_decimal};
use crate::text::{push_char, push_str};
use crate::tunnel_registry::{status_name, RecordModel, TunnelRecord};

verus! {

/// What `list` and `status` show as a tunnel's remote side: the remote bind
/// address and port of a reverse tunnel, the mappings of a forward tunnel.
pub open spec fn remote_text(r: RecordModel) -> Seq<char> {
    if r.mappings.len() == 0 {
        r.remote_host + seq![':'] + decimal(r.remote_port as nat)
    } else {
        r.mappings
    }
}

/// Appends the remote side of `r`; see `remote_text`.
fn push_remote(out: &mut String, r: &TunnelRecord)
    ensures
        final(out)@ == old(out)@ + remote_text(r@),
{
    if r.mappings.as_str().is_empty() {
        push_str(out, r.remote_host.as_str());
        push_char(out, ':');
        push_decimal(out, r.remote_port as u64);
        assert(final(out)@ =~= old(out)@ + remote_text(r@));
    } else {
        push_str(out, r.mappings.as_str());
    }
}

/// `list` shows one row per tunnel: id, status, pid, remote side and local
/// side, separated by tabs.
pub open spec fn list_row_text(r: RecordModel) -> Seq<char> {
    r.id + seq!['\t'] + status_name(r.status) + seq!['\t'] + decimal(r.pid as nat) + seq!['\t'] + remote_text(r)
        + seq!['\t'] + r.local
}

/// The row that `list` shows for a tunnel.
pub fn list_row(r: &TunnelRecord) -> (s: String)
    ensures
        s@ == list_row_text(r@),
{
    let mut out = String::new();
    push_str(&mut out, r.id.as_str());
    push_char(&mut out, '\t');
    push_str(&mut out, r.status.as_str());
    push_char(&mut out, '\t');
    push_decimal(&mut out, r.pid as u64);
    push_char(&mut out, '\t');
    push_remote(&mut out, r);
    push_char(&mut out, '\t');
    push_str(&mut out, r.local.as_str());
    assert(out@ =~= list_row_text(r@));
    out
}

/// The lines that `status` shows for a tunnel, one field each.
pub open spec fn status_lines_text(r: RecordModel) -> Seq<Seq<char>> {
    seq![
        "id: "@ + r.id,
        "command: "@ + r.command,
        "status: "@ + status_name(r.status),
        "pid: "@ + decimal(r.pid as nat),
        "server: "@ + r.server,
        "user: "@ + r.user,
        "remote: "@ + remote_text(r),
        "local: "@ + r.local,
        "log_file: "@ + r.log_file,
        "created_at: "@ + decimal(r.created_at as nat),
        "updated_at: "@ + decimal(r.updated_at as nat),
    ]
}

fn labelled(label: &str, value: &str) -> (s: String)
    ensures
        s@ == label@ + value@,
{
    let mut out = String::new();
    push_str(&mut out, label);
    push_str(&mut out, value);
    out
}

fn labelled_number(label: &str, value: u64) -> (s: String)
    ensures
        s@ == label@ + decimal(value as nat),
{
    let mut out = String::new();
    push_str(&mut out, label);
    push_decimal(&mut out, value);
    out
}

/// The lines that `status` shows for a tunnel.
pub fn status_lines(r: &TunnelRecord) -> (v: Vec<String>)
    ensures
        v@.len() == status_lines_text(r@).len(),
        forall|i: int| 0 <= i < v@.len() ==> (#[trigger] v@[i])@ == status_lines_text(r@)[i],
{
    let mut v: Vec<String> = Vec::new();
    v.push(labelled("id: ", r.id.as_str()));
    v.push(labelled("command: ", r.command.as_str()));
    v.push(labelled("status: ", r.status.as_str()));
    v.push(labelled_number("pid: ", r.pid as u64));
    v.push(labelled("server: ", r.server.as_str()));
    v.push(labelled("user: ", r.user.as_str()));
    let mut remote = String::new();
    push_str(&mut remote, "remote: ");
    push_remote(&mut remote, r);
    v.push(remote);
    v.push(labelled("local: ", r.local.as_str()));
    v.push(labelled("log_file: ", r.log_file.as_str()));
    v.push(labelled_number("created_at: ", r.created_at));
    v.push(labelled_number("updated_at: ", r.updated_at));
    v
}

/// What `close` reports.
pub fn close_message(r: &TunnelRecord) -> (s: String)
    ensures
        s@ == "closed tunnel "@ + r.id@ + " (status: "@ + status_name(r.status) + seq![')'],
{
    let mut out = String::new();
    push_str(&mut out, "closed tunnel ");
    push_str(&mut out, r.id.as_str());
    push_str(&mut out, " (status: ");
    push_str(&mut out, r.status.as_str());
    push_char(&mut out, ')');
    out
}

/// What `stop` reports about one stopped tunnel: its id and new status.
pub fn stop_row(r: &TunnelRecord) -> (s: String)
    ensures
        s@ == r.id@ + seq!['\t'] + status_name(r.status),
{
    let mut out = String::new();
    push_str(&mut out, r.id.as_str());
    push_char(&mut out, '\t');
    push_str(&mut out, r.status.as_str());
    out
}

/// What `stop` reports first: how many tunnels it stopped.
pub fn stop_summary(count: usize) -> (s: String)
    ensures
        count == 0 ==> s@ == "no managed tunnels to stop"@,
        count > 0 ==> s@ == "stopped "@ + decimal(count as nat) + " tunnel(s)"@,
{
    let mut out = String::new();
    if count == 0 {
        push_str(&mut out, "no managed tunnels to stop");
    } else {
        push_str(&mut out, "stopped ");
        push_decimal(&mut out, count as u64);
        push_str(&mut out, " tunnel(s)");
    }
    out
}

/// The first of `len` log lines that `logs --tail tail` shows.
pub fn tail_start(len: usize, tail: usize) -> (r: usize)
    ensures
        r == if len >= tail { len - tail } else { 0 },
{
    len.saturating_sub(tail)
}

} // verus!
