//! Where the servers reach NATS.

use vstd::prelude::*;

use crate::text::chars_of;

verus! {

/// The address of the NATS server for a host: the host as given when it names a port
/// (holds a `:`), and the host with the default port `4222` otherwise.
pub open spec fn nats_address_of(host: Seq<char>) -> Seq<char> {
    if host.contains(':') {
        host
    } else {
        host + ":4222"@
    }
}

/// The address of the NATS server for `host`, as `nats_address_of` gives it.
pub fn nats_address(host: &str) -> (r: String)
    ensures
        r@ == nats_address_of(host@),
{
    let v = chars_of(host);
    let mut i: usize = 0;
    while i < v.len()
        invariant
            i <= v.len(),
            v@ == host@,
            forall|k: int| 0 <= k < i ==> v@[k] != ':',
        decreases v.len() - i,
    {
        if v[i] == ':' {
            assert(host@[i as int] == ':');
            return String::from_str(host);
        }
        i = i + 1;
    }
    assert(!host@.contains(':'));
    let mut r = String::from_str(host);
    r.append(":4222");
    r
}

} // verus!
