//! Reply construction for the DNS hijack responder.
//!
//! During provisioning every DNS query is answered with the access point's
//! own address, so that any name a client resolves leads it to the
//! provisioning HTTP server.  The responder's worker thread only moves
//! datagrams; the whole decision of what to send back is made here.

use vstd::prelude::*;

verus! {

use crate::text::sub_bytes;

/// An IPv4 address as its four octets.
#[derive(Clone, Copy, PartialEq, Eq, Structural)]
pub struct Ipv4 {
    pub a: u8,
    pub b: u8,
    pub c: u8,
    pub d: u8,
}

/// The one resource record a hijacked A query is answered with: a compressed
/// name pointer to the question, type A, class IN, a 10 second TTL, and the
/// four octets of the configured address as its data.
pub open spec fn answer_record(ip: Ipv4) -> Seq<u8> {
    seq![
        0xc0u8,
        0x0c,
        0x00,
        0x01,
        0x00,
        0x01,
        0x00,
        0x00,
        0x00,
        0x0a,
        0x00,
        0x04,
        ip.a,
        ip.b,
        ip.c,
        ip.d,
    ]
}

/// A query whose question section ends in type A (0x0001), class IN (0x0001).
pub open spec fn is_a_query(q: Seq<u8>) -> bool {
    q.len() >= 12 && q.subrange(q.len() - 4, q.len() as int) == seq![0x00u8, 0x01, 0x00, 0x01]
}

/// Builds the reply to one received datagram, or `None` for a datagram too
/// short to carry a DNS header.
///
/// The reply echoes the query byte for byte except that the top bits of the
/// two flag bytes are set and the low answer-count byte is rewritten: to 1
/// for an A/IN query, with the answer record appended, and to 0 for
/// everything else, so a non-A query gets an empty authoritative response.
pub fn build_response(query: &Vec<u8>, ip: Ipv4) -> (r: Option<Vec<u8>>)
    ensures
        r is Some <==> query@.len() >= 12,
        r matches Some(v) ==> {
            let q = query@;
            let n = q.len() as int;
            &&& v@.len() == n + (if is_a_query(q) {
                16int
            } else {
                0int
            })
            &&& forall|i: int| 0 <= i < n && i != 2 && i != 3 && i != 7 ==> v@[i] == q[i]
            &&& v@[2] == q[2] | 0x80
            &&& v@[3] == q[3] | 0x80
            &&& v@[7] == (if is_a_query(q) {
                1u8
            } else {
                0u8
            })
            &&& is_a_query(q) ==> v@.subrange(n, n + 16) == answer_record(ip)
        },
{
    let n = query.len();
    if n < 12 {
        return None;
    }
    let mut resp = sub_bytes(query, 0, n);
    proof {
        assert(resp@ =~= query@);
    }
    resp[2] = resp[2] | 0x80;
    resp[3] = resp[3] | 0x80;
    let a_query = query[n - 4] == 0x00 && query[n - 3] == 0x01 && query[n - 2] == 0x00 && query[n
        - 1] == 0x01;
    proof {
        if a_query {
            assert(query@.subrange(n - 4, n as int) =~= seq![0x00u8, 0x01, 0x00, 0x01]);
        } else {
            assert(query@.subrange(n - 4, n as int) != seq![0x00u8, 0x01, 0x00, 0x01]) by {
                let s = query@.subrange(n - 4, n as int);
                let t = seq![0x00u8, 0x01, 0x00, 0x01];
                if s == t {
                    assert(s[0] == t[0] && s[1] == t[1] && s[2] == t[2] && s[3] == t[3]);
                }
            }
        }
    }
    if a_query {
        resp[7] = 1;
        resp.push(0xc0);
        resp.push(0x0c);
        resp.push(0x00);
        resp.push(0x01);
        resp.push(0x00);
        resp.push(0x01);
        resp.push(0x00);
        resp.push(0x00);
        resp.push(0x00);
        resp.push(0x0a);
        resp.push(0x00);
        resp.push(0x04);
        resp.push(ip.a);
        resp.push(ip.b);
        resp.push(ip.c);
        resp.push(ip.d);
        proof {
            assert(resp@.subrange(n as int, n + 16) =~= answer_record(ip));
        }
    } else {
        resp[7] = 0;
    }
    Some(resp)
}

} // verus!
