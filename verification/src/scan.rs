//! Port scanning targets, and the text of socket listings.

use vstd::prelude::*;
use crate::text::{decimal, push_decimal};

verus! {

/// The first port a full scan tries.
pub const START_PORTS: u16 = 1;

/// The last port a full scan tries.
pub const END_PORTS: u16 = 65535;

/// `addr:port`, the address a scan connects to.
pub open spec fn socket_address(addr: Seq<char>, port: u16) -> Seq<char> {
    addr + ":"@ + decimal(port as nat)
}

/// The address a scan connects to for `port` on `addr`.
pub fn socket_address_text(addr: &str, port: u16) -> (r: String)
    ensures
        r@ == socket_address(addr@, port),
{
    let mut s = addr.to_owned();
    s.append(":");
    push_decimal(&mut s, port as u64);
    s
}

/// The ports from `sp` to `ep` inclusive, each with the address a scan of
/// `addr` connects to for it.
pub fn scan_targets(addr: &str, sp: u16, ep: u16) -> (r: Vec<(u16, String)>)
    ensures
        r@.len() == (if sp <= ep {
            ep - sp + 1
        } else {
            0
        }),
        forall|i: int|
            0 <= i < r@.len() ==> (#[trigger] r@[i]).0 == sp + i && r@[i].1@ == socket_address(
                addr@,
                r@[i].0,
            ),
{
    let mut r: Vec<(u16, String)> = Vec::new();
    if sp > ep {
        return r;
    }
    let mut p: u32 = sp as u32;
    while p <= ep as u32
        invariant
            sp <= ep,
            sp <= p <= ep + 1,
            r@.len() == p - sp,
            forall|i: int|
                0 <= i < r@.len() ==> (#[trigger] r@[i]).0 == sp + i && r@[i].1@
                    == socket_address(addr@, r@[i].0),
        decreases ep + 1 - p,
    {
        let port = p as u16;
        r.push((port, socket_address_text(addr, port)));
        p = p + 1;
    }
    r
}

/// A list of pids as `{:?}` prints it: `[1, 2, 3]`.
pub open spec fn pid_list(pids: Seq<u32>) -> Seq<char> {
    "["@ + pid_items(pids) + "]"@
}

/// The pids separated by ", ".
pub open spec fn pid_items(pids: Seq<u32>) -> Seq<char>
    decreases pids.len(),
{
    if pids.len() == 0 {
        Seq::empty()
    } else if pids.len() == 1 {
        decimal(pids[0] as nat)
    } else {
        pid_items(pids.drop_last()) + ", "@ + decimal(pids.last() as nat)
    }
}

/// The pid list shows every pid, in order: no pids give "[]", one pid
/// gives it in brackets, and each further pid adds ", " and its decimal
/// before the closing bracket.
pub proof fn lemma_pid_list_shape(pids: Seq<u32>, p: u32)
    ensures
        pid_list(Seq::empty()) == "[]"@,
        pid_list(seq![p]) == "["@ + decimal(p as nat) + "]"@,
        pids.len() > 0 ==> pid_list(pids.push(p)) == pid_list(pids).drop_last() + ", "@ + decimal(
            p as nat,
        ) + "]"@,
{
    reveal_strlit("[]");
    reveal_strlit("[");
    reveal_strlit("]");
    assert(pid_list(Seq::empty()) =~= "[]"@);
    assert(seq![p].len() == 1 && seq![p][0] == p);
    if pids.len() > 0 {
        let q = pids.push(p);
        assert(q.drop_last() =~= pids);
        assert(q.last() == p);
        assert(pid_items(q) == pid_items(pids) + ", "@ + decimal(p as nat));
        assert(pid_list(pids).drop_last() =~= "["@ + pid_items(pids));
        assert(pid_list(q) =~= pid_list(pids).drop_last() + ", "@ + decimal(p as nat) + "]"@);
    }
}

/// Appends the pids as `{:?}` prints them.
fn push_pid_list(s: &mut String, pids: &Vec<u32>)
    ensures
        final(s)@ == old(s)@ + pid_list(pids@),
{
    s.append("[");
    let ghost base = s@;
    let mut i: usize = 0;
    while i < pids.len()
        invariant
            i <= pids@.len(),
            s@ == base + pid_items(pids@.take(i as int)),
        decreases pids@.len() - i,
    {
        assert(pids@.take(i + 1).drop_last() =~= pids@.take(i as int));
        if i > 0 {
            s.append(", ");
        }
        push_decimal(s, pids[i] as u64);
        assert(s@ =~= base + pid_items(pids@.take(i + 1)));
        i = i + 1;
    }
    assert(pids@.take(pids@.len() as int) =~= pids@);
    s.append("]");
    assert(final(s)@ =~= old(s)@ + pid_list(pids@));
}

/// The listing line of a TCP socket.
pub open spec fn tcp_line(
    local_addr: Seq<char>,
    local_port: u16,
    remote_addr: Seq<char>,
    remote_port: u16,
    pids: Seq<u32>,
    state: Seq<char>,
) -> Seq<char> {
    "TCP "@ + local_addr + ":"@ + decimal(local_port as nat) + " -> "@ + remote_addr + ":"@
        + decimal(remote_port as nat) + " "@ + pid_list(pids) + " - "@ + state
}

/// The listing line of a UDP socket.
pub open spec fn udp_line(local_addr: Seq<char>, local_port: u16, pids: Seq<u32>) -> Seq<char> {
    "UDP "@ + local_addr + ":"@ + decimal(local_port as nat) + " -> *:* "@ + pid_list(pids)
}

/// The listing line of a TCP socket between the given ends, owned by
/// `pids`, in `state`.
pub fn tcp_entry(
    local_addr: &str,
    local_port: u16,
    remote_addr: &str,
    remote_port: u16,
    pids: &Vec<u32>,
    state: &str,
) -> (r: String)
    ensures
        r@ == tcp_line(local_addr@, local_port, remote_addr@, remote_port, pids@, state@),
{
    let mut s = "TCP ".to_owned();
    s.append(local_addr);
    s.append(":");
    push_decimal(&mut s, local_port as u64);
    s.append(" -> ");
    s.append(remote_addr);
    s.append(":");
    push_decimal(&mut s, remote_port as u64);
    s.append(" ");
    push_pid_list(&mut s, pids);
    s.append(" - ");
    s.append(state);
    assert(s@ =~= tcp_line(local_addr@, local_port, remote_addr@, remote_port, pids@, state@));
    s
}

/// The listing line of a UDP socket bound at the given end, owned by `pids`.
pub fn udp_entry(local_addr: &str, local_port: u16, pids: &Vec<u32>) -> (r: String)
    ensures
        r@ == udp_line(local_addr@, local_port, pids@),
{
    let mut s = "UDP ".to_owned();
    s.append(local_addr);
    s.append(":");
    push_decimal(&mut s, local_port as u64);
    s.append(" -> *:* ");
    push_pid_list(&mut s, pids);
    assert(s@ =~= udp_line(local_addr@, local_port, pids@));
    s
}

/// The address of the daemon's status page on `port`.
pub open spec fn status_url(port: u32) -> Seq<char> {
    "http://127.0.0.1:"@ + decimal(port as nat) + "/status"@
}

/// The address of the daemon's status page on `port`.
pub fn status_url_text(port: u32) -> (r: String)
    ensures
        r@ == status_url(port),
{
    let mut s = "http://127.0.0.1:".to_owned();
    push_decimal(&mut s, port as u64);
    s.append("/status");
    assert(s@ =~= status_url(port));
    s
}

/// The loopback address for `port`.
pub open spec fn loopback_address(port: u32) -> Seq<char> {
    "127.0.0.1:"@ + decimal(port as nat)
}

/// The loopback address for `port`.
pub fn loopback_address_text(port: u32) -> (r: String)
    ensures
        r@ == loopback_address(port),
{
    let mut s = "127.0.0.1:".to_owned();
    push_decimal(&mut s, port as u64);
    s
}

/// The ports tried, in order, when looking for a free one from `start`:
/// `start` through `start + span`.
pub fn port_candidates(start: u32, span: u32) -> (r: Vec<u32>)
    requires
        start + span <= u32::MAX,
    ensures
        r@.len() == span + 1,
        forall|i: int| 0 <= i < r@.len() ==> #[trigger] r@[i] == start + i,
{
    let mut r: Vec<u32> = Vec::new();
    let mut i: u64 = 0;
    while i <= span as u64
        invariant
            start + span <= u32::MAX,
            i <= span + 1,
            r@.len() == i,
            forall|k: int| 0 <= k < r@.len() ==> #[trigger] r@[k] == start + k,
        decreases span + 1 - i,
    {
        r.push(start + i as u32);
        i = i + 1;
    }
    r
}

} // verus!
