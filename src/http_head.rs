//! The few facts the proxy reads from an HTTP/1 request head, and the
//! `X-Forwarded-For` header it adds before forwarding it.
use vstd::prelude::*;
use crate::router::Method;

verus! {

/// `\r\n\r\n` ends at `i` (exclusive) in `b`.
pub open spec fn blank_line_at(b: Seq<u8>, i: int) -> bool {
    4 <= i <= b.len() && b[i - 4] == 13u8 && b[i - 3] == 10u8 && b[i - 2] == 13u8 && b[i - 1] == 10u8
}

/// Length of the head of `buf`: up to and including the first blank line,
/// if the head is complete.
pub fn head_end(buf: &[u8]) -> (r: Option<usize>)
    ensures
        r is None <==> forall|i: int| 0 <= i <= buf@.len() ==> !blank_line_at(buf@, i),
        r matches Some(n) ==> blank_line_at(buf@, n as int) && forall|i: int| 0 <= i < n ==> !blank_line_at(buf@, i),
{
    if buf.len() < 4 {
        return None;
    }
    let mut k: usize = 0;
    while k <= buf.len() - 4
        invariant
            buf@.len() >= 4,
            k <= buf@.len() - 3,
            forall|j: int| 0 <= j < k + 4 ==> !blank_line_at(buf@, j),
        decreases buf.len() - k,
    {
        if buf[k] == 13 && buf[k + 1] == 10 && buf[k + 2] == 13 && buf[k + 3] == 10 {
            assert(blank_line_at(buf@, k + 4));
            return Some(k + 4);
        }
        k = k + 1;
    }
    None
}

pub open spec fn forwarded_for_name() -> Seq<u8> {
    seq![
        88u8, 45u8, 70u8, 111u8, 114u8, 119u8, 97u8, 114u8, 100u8, 101u8, 100u8, 45u8, 70u8, 111u8, 114u8,
        58u8, 32u8,
    ]
}

/// The head with `X-Forwarded-For: <client>` added as its last header.
pub open spec fn with_forwarded_for(head: Seq<u8>, client: Seq<u8>) -> Seq<u8> {
    head.subrange(0, head.len() - 2) + forwarded_for_name() + client + seq![13u8, 10u8, 13u8, 10u8]
}

/// Adds `X-Forwarded-For: <client>` as the last header of a complete head.
pub fn add_forwarded_for(head: &[u8], client: &[u8]) -> (r: Vec<u8>)
    requires
        blank_line_at(head@, head@.len() as int),
    ensures
        r@ == with_forwarded_for(head@, client@),
{
    let mut out: Vec<u8> = Vec::new();
    let n = head.len() - 2;
    let mut i: usize = 0;
    while i < n
        invariant
            n == head@.len() - 2,
            i <= n,
            out@ == head@.subrange(0, i as int),
        decreases n - i,
    {
        out.push(head[i]);
        i = i + 1;
        assert(out@ =~= head@.subrange(0, i as int));
    }
    let name: [u8; 17] = [88, 45, 70, 111, 114, 119, 97, 114, 100, 101, 100, 45, 70, 111, 114, 58, 32];
    let mut k: usize = 0;
    while k < 17
        invariant
            k <= 17,
            name@ == forwarded_for_name(),
            out@ == head@.subrange(0, n as int) + forwarded_for_name().subrange(0, k as int),
        decreases 17 - k,
    {
        out.push(name[k]);
        k = k + 1;
        assert(out@ =~= head@.subrange(0, n as int) + forwarded_for_name().subrange(0, k as int));
    }
    assert(forwarded_for_name().subrange(0, 17) =~= forwarded_for_name());
    let mut j: usize = 0;
    while j < client.len()
        invariant
            j <= client@.len(),
            out@ == head@.subrange(0, n as int) + forwarded_for_name() + client@.subrange(0, j as int),
        decreases client.len() - j,
    {
        out.push(client[j]);
        j = j + 1;
        assert(out@ =~= head@.subrange(0, n as int) + forwarded_for_name() + client@.subrange(0, j as int));
    }
    assert(client@.subrange(0, client@.len() as int) =~= client@);
    out.push(13);
    out.push(10);
    out.push(13);
    out.push(10);
    assert(out@ =~= with_forwarded_for(head@, client@));
    out
}

/// Positions of the two spaces of a request line `METHOD SP target SP version`,
/// the first two spaces of `head`.
pub fn request_line_spaces(head: &[u8]) -> (r: Option<(usize, usize)>)
    ensures
        r matches Some((a, b)) ==> a < b < head@.len() && head@[a as int] == 32u8 && head@[b as int] == 32u8
            && (forall|i: int| 0 <= i < a ==> head@[i] != 32u8) && (forall|i: int|
            a < i < b ==> head@[i] != 32u8),
        r is None ==> forall|a: int, b: int|
            0 <= a < b < head@.len() ==> !(#[trigger] head@[a] == 32u8 && #[trigger] head@[b] == 32u8),
{
    let mut first: Option<usize> = None;
    let mut i: usize = 0;
    while i < head.len()
        invariant
            i <= head@.len(),
            first is None ==> forall|j: int| 0 <= j < i ==> head@[j] != 32u8,
            first matches Some(a) ==> a < i && head@[a as int] == 32u8 && (forall|j: int|
                0 <= j < a ==> head@[j] != 32u8) && (forall|j: int| a < j < i ==> head@[j] != 32u8),
        decreases head.len() - i,
    {
        if head[i] == 32 {
            match first {
                None => {
                    first = Some(i);
                },
                Some(a) => {
                    return Some((a, i));
                },
            }
        }
        i = i + 1;
    }
    None
}

pub open spec fn lower(c: u8) -> u8 {
    if 65 <= c <= 90 {
        (c + 32) as u8
    } else {
        c
    }
}

/// A line of `h` starts at `p`: at the start or right after `\r\n`.
pub open spec fn line_start(h: Seq<u8>, p: int) -> bool {
    p == 0 || (2 <= p <= h.len() && h[p - 2] == 13u8 && h[p - 1] == 10u8)
}

/// The line at `p` starts with `host:`, in any case.
pub open spec fn host_name_at(h: Seq<u8>, p: int) -> bool {
    &&& 0 <= p && p + 5 <= h.len()
    &&& lower(h[p]) == 104u8 && lower(h[p + 1]) == 111u8 && lower(h[p + 2]) == 115u8
    &&& lower(h[p + 3]) == 116u8 && h[p + 4] == 58u8
}

fn to_lower(c: u8) -> (r: u8)
    ensures
        r == lower(c),
{
    if 65 <= c && c <= 90 {
        c + 32
    } else {
        c
    }
}

/// The value of the first `Host` header of a head: from after `host:` and
/// its spaces to the end of the line.
pub fn host_header(head: &[u8]) -> (r: Option<(usize, usize)>)
    ensures
        r is None ==> forall|p: int| line_start(head@, p) ==> !host_name_at(head@, p),
        r matches Some((s, e)) ==> s <= e <= head@.len() && (forall|j: int| s <= j < e ==> head@[j] != 13u8)
            && (e == head@.len() || head@[e as int] == 13u8) && exists|p: int|
            line_start(head@, p) && host_name_at(head@, p) && p + 5 <= s && (forall|j: int|
                p + 5 <= j < s ==> head@[j] == 32u8) && (s == head@.len() || head@[s as int] != 32u8),
{
    let n = head.len();
    let mut p: usize = 0;
    while p < n
        invariant
            p <= n,
            n == head@.len(),
            forall|q: int| 0 <= q < p && line_start(head@, q) ==> !host_name_at(head@, q),
        decreases n - p,
    {
        let at_line = p == 0 || (p >= 2 && head[p - 2] == 13 && head[p - 1] == 10);
        if at_line && n - p >= 5 && to_lower(head[p]) == 104 && to_lower(head[p + 1]) == 111 && to_lower(
            head[p + 2],
        ) == 115 && to_lower(head[p + 3]) == 116 && head[p + 4] == 58 {
            let mut s = p + 5;
            while s < n && head[s] == 32
                invariant
                    p + 5 <= s <= n,
                    n == head@.len(),
                    forall|j: int| p + 5 <= j < s ==> head@[j] == 32u8,
                decreases n - s,
            {
                s = s + 1;
            }
            let mut e = s;
            while e < n && head[e] != 13
                invariant
                    s <= e <= n,
                    n == head@.len(),
                    forall|j: int| s <= j < e ==> head@[j] != 13u8,
                decreases n - e,
            {
                e = e + 1;
            }
            assert(line_start(head@, p as int) && host_name_at(head@, p as int));
            return Some((s, e));
        }
        p = p + 1;
    }
    proof {
        assert forall|q: int| line_start(head@, q) implies !host_name_at(head@, q) by {
            if q >= n as int {
            }
        }
    }
    None
}

/// The name of a standard method on the wire.
pub open spec fn method_name(m: Method) -> Seq<u8> {
    match m {
        Method::Get => seq![71u8, 69u8, 84u8],
        Method::Post => seq![80u8, 79u8, 83u8, 84u8],
        Method::Head => seq![72u8, 69u8, 65u8, 68u8],
        Method::Options => seq![79u8, 80u8, 84u8, 73u8, 79u8, 78u8, 83u8],
        Method::Put => seq![80u8, 85u8, 84u8],
        Method::Delete => seq![68u8, 69u8, 76u8, 69u8, 84u8, 69u8],
        Method::Trace => seq![84u8, 82u8, 65u8, 67u8, 69u8],
        Method::Connect => seq![67u8, 79u8, 78u8, 78u8, 69u8, 67u8, 84u8],
        Method::Custom(_) => Seq::empty(),
    }
}

fn bytes_eq(a: &[u8], b: &[u8]) -> (r: bool)
    ensures
        r == (a@ == b@),
{
    if a.len() != b.len() {
        return false;
    }
    let mut i: usize = 0;
    while i < a.len()
        invariant
            a@.len() == b@.len(),
            i <= a@.len(),
            forall|j: int| 0 <= j < i ==> a@[j] == b@[j],
        decreases a.len() - i,
    {
        if a[i] != b[i] {
            return false;
        }
        i = i + 1;
    }
    assert(a@ =~= b@);
    true
}

/// The standard method named `m`, if it is one; other names are extension
/// methods.
pub fn known_method(m: &[u8]) -> (r: Option<Method>)
    ensures
        r matches Some(x) ==> !(x is Custom) && method_name(x) == m@,
        r is None ==> forall|x: Method| !(x is Custom) ==> method_name(x) != m@,
{
    let get: [u8; 3] = [71, 69, 84];
    let post: [u8; 4] = [80, 79, 83, 84];
    let head: [u8; 4] = [72, 69, 65, 68];
    let options: [u8; 7] = [79, 80, 84, 73, 79, 78, 83];
    let put: [u8; 3] = [80, 85, 84];
    let delete: [u8; 6] = [68, 69, 76, 69, 84, 69];
    let trace: [u8; 5] = [84, 82, 65, 67, 69];
    let connect: [u8; 7] = [67, 79, 78, 78, 69, 67, 84];
    assert(get@ =~= method_name(Method::Get));
    assert(post@ =~= method_name(Method::Post));
    assert(head@ =~= method_name(Method::Head));
    assert(options@ =~= method_name(Method::Options));
    assert(put@ =~= method_name(Method::Put));
    assert(delete@ =~= method_name(Method::Delete));
    assert(trace@ =~= method_name(Method::Trace));
    assert(connect@ =~= method_name(Method::Connect));
    if bytes_eq(m, &get) {
        Some(Method::Get)
    } else if bytes_eq(m, &post) {
        Some(Method::Post)
    } else if bytes_eq(m, &head) {
        Some(Method::Head)
    } else if bytes_eq(m, &options) {
        Some(Method::Options)
    } else if bytes_eq(m, &put) {
        Some(Method::Put)
    } else if bytes_eq(m, &delete) {
        Some(Method::Delete)
    } else if bytes_eq(m, &trace) {
        Some(Method::Trace)
    } else if bytes_eq(m, &connect) {
        Some(Method::Connect)
    } else {
        None
    }
}

} // verus!
