//! A text rendering of a worker's configuration: its clusters, its
//! listeners with their rule counts, and every backend with its status.
use vstd::prelude::*;
use crate::backend::{Backend, BackendStatus};
use crate::backends::ClusterBackends;
use crate::command::Cluster;
use crate::config::ProxyState;
use crate::listener::HttpListener;
use crate::metrics::{decimal, push_decimal};

verus! {

pub open spec fn status_text(s: BackendStatus) -> Seq<char> {
    match s {
        BackendStatus::Normal => seq!['n', 'o', 'r', 'm', 'a', 'l'],
        BackendStatus::Closing => seq!['c', 'l', 'o', 's', 'i', 'n', 'g'],
        BackendStatus::Closed => seq!['c', 'l', 'o', 's', 'e', 'd'],
    }
}

/// `cluster <id>` lines for the first `k` clusters.
pub open spec fn clusters_text(cs: Seq<Cluster>, k: int) -> Seq<char>
    decreases k,
{
    if k <= 0 || k > cs.len() {
        Seq::empty()
    } else {
        clusters_text(cs, k - 1) + "cluster "@ + cs[k - 1].cluster_id@ + "\n"@
    }
}

/// The line of one listener: address, whether it accepts, and how many rules
/// it holds in the `Pre`, `Tree` and `Post` positions.
pub open spec fn listener_line(l: HttpListener) -> Seq<char> {
    "listener "@ + l.address@ + (if l.active {
        " active"@
    } else {
        " inactive"@
    }) + " rules "@ + decimal(l.router.pre@.len()) + " "@ + decimal(l.router.tree@.len()) + " "@ + decimal(
        l.router.post@.len(),
    ) + "\n"@
}

pub open spec fn listeners_text(ls: Seq<HttpListener>, k: int) -> Seq<char>
    decreases k,
{
    if k <= 0 || k > ls.len() {
        Seq::empty()
    } else {
        listeners_text(ls, k - 1) + listener_line(ls[k - 1])
    }
}

/// `backend <cluster> <id> <address> <status>` lines for the first `k`
/// backends of cluster `cid`.
pub open spec fn backend_lines(cid: Seq<char>, bs: Seq<Backend>, k: int) -> Seq<char>
    decreases k,
{
    if k <= 0 || k > bs.len() {
        Seq::empty()
    } else {
        backend_lines(cid, bs, k - 1) + "backend "@ + cid + " "@ + bs[k - 1].backend_id@ + " "@ + bs[k
            - 1].address@ + " "@ + status_text(bs[k - 1].status) + "\n"@
    }
}

pub open spec fn backends_text(es: Seq<ClusterBackends>, k: int) -> Seq<char>
    decreases k,
{
    if k <= 0 || k > es.len() {
        Seq::empty()
    } else {
        backends_text(es, k - 1) + backend_lines(
            es[k - 1].cluster_id@,
            es[k - 1].list.backends@,
            es[k - 1].list.backends@.len() as int,
        )
    }
}

/// The rendering of the whole state.
pub open spec fn dump_text(s: ProxyState) -> Seq<char> {
    clusters_text(s.clusters@, s.clusters@.len() as int) + listeners_text(
        s.listeners@,
        s.listeners@.len() as int,
    ) + backends_text(s.backends.clusters@, s.backends.clusters@.len() as int)
}

fn push_str(out: &mut String, s: &str)
    ensures
        final(out)@ == old(out)@ + s@,
{
    out.append(s);
}

fn push_status(out: &mut String, s: BackendStatus)
    ensures
        final(out)@ == old(out)@ + status_text(s),
{
    proof {
        reveal_strlit("normal");
        reveal_strlit("closing");
        reveal_strlit("closed");
    }
    match s {
        BackendStatus::Normal => out.append("normal"),
        BackendStatus::Closing => out.append("closing"),
        BackendStatus::Closed => out.append("closed"),
    }
    assert(out@ =~= old(out)@ + status_text(s));
}

fn push_clusters(out: &mut String, cs: &Vec<Cluster>)
    ensures
        final(out)@ == old(out)@ + clusters_text(cs@, cs@.len() as int),
{
    let mut i: usize = 0;
    while i < cs.len()
        invariant
            i <= cs@.len(),
            out@ == old(out)@ + clusters_text(cs@, i as int),
        decreases cs.len() - i,
    {
        let ghost before = out@;
        push_str(out, "cluster ");
        push_str(out, cs[i].cluster_id.as_str());
        push_str(out, "\n");
        assert(out@ =~= old(out)@ + clusters_text(cs@, i + 1));
        i = i + 1;
    }
}

fn push_listener_line(out: &mut String, l: &HttpListener)
    ensures
        final(out)@ == old(out)@ + listener_line(*l),
{
    let ghost o = out@;
    push_str(out, "listener ");
    push_str(out, l.address.as_str());
    if l.active {
        push_str(out, " active");
    } else {
        push_str(out, " inactive");
    }
    let ghost a = out@;
    push_str(out, " rules ");
    push_decimal(out, l.router.pre.len() as u64);
    push_str(out, " ");
    push_decimal(out, l.router.tree.len() as u64);
    push_str(out, " ");
    push_decimal(out, l.router.post.len() as u64);
    push_str(out, "\n");
    assert(a =~= o + "listener "@ + l.address@ + (if l.active {
        " active"@
    } else {
        " inactive"@
    }));
    assert(out@ =~= o + listener_line(*l));
}

fn push_listeners(out: &mut String, ls: &Vec<HttpListener>)
    ensures
        final(out)@ == old(out)@ + listeners_text(ls@, ls@.len() as int),
{
    let mut i: usize = 0;
    while i < ls.len()
        invariant
            i <= ls@.len(),
            out@ == old(out)@ + listeners_text(ls@, i as int),
        decreases ls.len() - i,
    {
        push_listener_line(out, &ls[i]);
        assert(out@ =~= old(out)@ + listeners_text(ls@, i + 1));
        i = i + 1;
    }
}

fn push_backend_lines(out: &mut String, cid: &str, bs: &Vec<Backend>)
    ensures
        final(out)@ == old(out)@ + backend_lines(cid@, bs@, bs@.len() as int),
{
    let mut i: usize = 0;
    while i < bs.len()
        invariant
            i <= bs@.len(),
            out@ == old(out)@ + backend_lines(cid@, bs@, i as int),
        decreases bs.len() - i,
    {
        push_str(out, "backend ");
        push_str(out, cid);
        push_str(out, " ");
        push_str(out, bs[i].backend_id.as_str());
        push_str(out, " ");
        push_str(out, bs[i].address.as_str());
        push_str(out, " ");
        push_status(out, bs[i].status);
        push_str(out, "\n");
        assert(out@ =~= old(out)@ + backend_lines(cid@, bs@, i + 1));
        i = i + 1;
    }
}

fn push_backends(out: &mut String, es: &Vec<ClusterBackends>)
    ensures
        final(out)@ == old(out)@ + backends_text(es@, es@.len() as int),
{
    let mut i: usize = 0;
    while i < es.len()
        invariant
            i <= es@.len(),
            out@ == old(out)@ + backends_text(es@, i as int),
        decreases es.len() - i,
    {
        push_backend_lines(out, es[i].cluster_id.as_str(), &es[i].list.backends);
        assert(out@ =~= old(out)@ + backends_text(es@, i + 1));
        i = i + 1;
    }
}

impl ProxyState {
    /// The text rendering of the state; see `dump_text`.
    pub fn dump_state(&self) -> (r: String)
        ensures
            r@ == dump_text(*self),
    {
        let mut out = String::new();
        push_clusters(&mut out, &self.clusters);
        push_listeners(&mut out, &self.listeners);
        push_backends(&mut out, &self.backends.clusters);
        assert(out@ =~= dump_text(*self));
        out
    }
}

} // verus!
