//! The shard controller's client for the node-to-node service.
use vstd::prelude::*;

use crate::text::{concat_str, decimal, push_decimal};

verus! {

/// The gRPC endpoint of a peer: `http://host:port`, with the host in square
/// brackets when it holds a `:` (an IPv6 address).
pub open spec fn endpoint_url(host: Seq<char>, port: u16) -> Seq<char> {
    if host.contains(':') {
        "http://["@ + host + "]:"@ + decimal(port as nat)
    } else {
        "http://"@ + host + ":"@ + decimal(port as nat)
    }
}

/// The gRPC endpoint of a peer from its host and port; a host that holds a
/// `:` is taken for an IPv6 address and put in square brackets.
pub fn build_endpoint(host: &str, port: u16) -> (url: String)
    ensures
        url@ == endpoint_url(host@, port),
{
    let chars = crate::text::chars_of(host);
    let mut has_colon = false;
    let mut i: usize = 0;
    while i < chars.len()
        invariant
            i <= chars@.len(),
            chars@ == host@,
            has_colon == exists|j: int| 0 <= j < i && chars@[j] == ':',
        decreases chars@.len() - i,
    {
        if chars[i] == ':' {
            has_colon = true;
        }
        i = i + 1;
    }
    assert(has_colon == host@.contains(':')) by {
        if host@.contains(':') {
            let j = choose|j: int| 0 <= j < host@.len() && host@[j] == ':';
            assert(chars@[j] == ':');
        }
    }
    let mut url = if has_colon {
        let head = concat_str("http://[", host);
        concat_str(head.as_str(), "]:")
    } else {
        let head = concat_str("http://", host);
        concat_str(head.as_str(), ":")
    };
    push_decimal(&mut url, port as u64);
    url
}

} // verus!
