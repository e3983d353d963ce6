//! HTTP listeners: where requests arriving on an address are routed.
use vstd::prelude::*;
use crate::router::{Method, Route, Router, RouterError};

verus! {

/// Routing and session settings that HTTP and HTTPS listeners share.
pub trait L7ListenerHandler {
    /// Name of the cookie that carries the sticky identifier.
    fn get_sticky_name(&self) -> &str;

    /// Time allowed to connect to a backend, in seconds.
    fn get_connect_timeout(&self) -> u32;

    /// Where a request for `host`, `uri` and `method` goes.
    fn frontend_from_request(&self, host: &str, uri: &str, method: &Method) -> Result<Route, RouterError>;
}

pub open spec fn is_digit(c: char) -> bool {
    '0' <= c && c <= '9'
}

/// The host of a `Host` header value: without a trailing `:port`, where the
/// value ends with a colon and one or more digits.
pub open spec fn host_part(h: Seq<char>) -> Seq<char> {
    if exists|k: int| is_port_split(h, k) {
        h.subrange(0, choose|k: int| is_port_split(h, k))
    } else {
        h
    }
}

/// `h[k]` is a colon followed by digits only, at least one.
pub open spec fn is_port_split(h: Seq<char>, k: int) -> bool {
    &&& 0 <= k < h.len() - 1
    &&& h[k] == ':'
    &&& forall|i: int| k < i < h.len() ==> is_digit(#[trigger] h[i])
}

proof fn lemma_port_split_unique(h: Seq<char>, k: int, l: int)
    requires
        is_port_split(h, k),
        is_port_split(h, l),
    ensures
        k == l,
{
    if k < l {
        assert(is_digit(h[l]));
    } else if l < k {
        assert(is_digit(h[k]));
    }
}

/// Strips a trailing `:port` from a `Host` header value.
pub fn strip_port(host: &str) -> (r: &str)
    ensures
        r@ == host_part(host@),
{
    let n = host.unicode_len();
    if n < 2 {
        assert(forall|k: int| !is_port_split(host@, k));
        return host;
    }
    let mut i: usize = n;
    while i > 0 && is_digit_char(host.get_char(i - 1))
        invariant
            n == host@.len(),
            i <= n,
            forall|j: int| i <= j < n ==> is_digit(#[trigger] host@[j]),
        decreases i,
    {
        i = i - 1;
    }
    if i > 0 && i < n && host.get_char(i - 1) == ':' {
        let k = i - 1;
        assert(is_port_split(host@, k as int));
        proof {
            assert forall|l: int| is_port_split(host@, l) implies l == k by {
                lemma_port_split_unique(host@, k as int, l);
            }
        }
        host.substring_char(0, k)
    } else {
        assert forall|k: int| !is_port_split(host@, k) by {
            if is_port_split(host@, k) {
                if k + 1 < i {
                    assert(is_digit(host@[i - 1]));
                } else if k + 1 > i {
                    assert(is_digit(host@[k]));
                }
            }
        }
        host
    }
}

fn is_digit_char(c: char) -> (r: bool)
    ensures
        r == is_digit(c),
{
    '0' <= c && c <= '9'
}

pub struct HttpListener {
    pub address: String,
    pub sticky_name: String,
    /// seconds
    pub connect_timeout: u32,
    pub router: Router,
    pub active: bool,
}

impl HttpListener {
    pub fn new(address: String, sticky_name: String, connect_timeout: u32) -> (r: HttpListener)
        ensures
            r.address == address,
            r.sticky_name == sticky_name,
            r.connect_timeout == connect_timeout,
            r.router.pre@.len() == 0,
            r.router.tree@.len() == 0,
            r.router.post@.len() == 0,
            !r.active,
    {
        HttpListener { address, sticky_name, connect_timeout, router: Router::new(), active: false }
    }

    /// Where a request goes: the router's answer for the host without its port.
    pub fn route_request(&self, host: &str, uri: &str, method: &Method) -> (r: Result<Route, RouterError>)
        ensures
            r == self.router.route_for(host_part(host@), uri@, *method),
    {
        let host = strip_port(host);
        self.router.lookup(host, uri, method)
    }
}

impl L7ListenerHandler for HttpListener {
    fn get_sticky_name(&self) -> &str {
        self.sticky_name.as_str()
    }

    fn get_connect_timeout(&self) -> u32 {
        self.connect_timeout
    }

    fn frontend_from_request(&self, host: &str, uri: &str, method: &Method) -> Result<Route, RouterError> {
        self.route_request(host, uri, method)
    }
}

} // verus!
