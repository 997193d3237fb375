//! The decisions around name resolution: which name servers a script
//! configures, what an empty answer means, and the text form of answers
//! that scripts see.
use crate::net::{ip_text, ip_to_string, parse_socket_address, socket_address_from_str, IpAddress, SocketAddress};
use crate::text::push_str;
use vstd::prelude::*;

verus! {

/// Why a resolver cannot be made.
#[derive(Clone, Copy, Debug, PartialEq, Eq, Structural)]
pub enum ResolverConfigError {
    /// The name server at this position is no socket address.
    InvalidAddress(usize),
}

/// The name servers of a UDP resolver, read from their texts in order;
/// fails at the first text that is no socket address.
pub fn nameserver_addresses(addrs: &Vec<String>) -> (res: Result<Vec<SocketAddress>, ResolverConfigError>)
    ensures
        match res {
            Ok(v) => v@.len() == addrs@.len() && forall|i: int|
                0 <= i < addrs@.len() ==> socket_address_from_str(#[trigger] addrs@[i]@) == Some(v@[i]),
            Err(ResolverConfigError::InvalidAddress(k)) => k < addrs@.len() && socket_address_from_str(
                addrs@[k as int]@,
            ) is None && forall|i: int| 0 <= i < k ==> (#[trigger] socket_address_from_str(addrs@[i]@)) is Some,
        },
{
    let mut out: Vec<SocketAddress> = Vec::new();
    let mut i: usize = 0;
    while i < addrs.len()
        invariant
            i <= addrs@.len(),
            out@.len() == i,
            forall|j: int| 0 <= j < i ==> socket_address_from_str(#[trigger] addrs@[j]@) == Some(out@[j]),
        decreases addrs.len() - i,
    {
        match parse_socket_address(addrs[i].as_str()) {
            Some(a) => out.push(a),
            None => {
                return Err(ResolverConfigError::InvalidAddress(i));
            },
        }
        i = i + 1;
    }
    Ok(out)
}

/// The message of a lookup that found no address.
pub open spec fn no_result_message(name: Seq<char>) -> Seq<char> {
    "Failed to find result for domain "@ + name
}

/// The answer of a lookup: the addresses found, or an error where there is
/// none.
pub fn lookup_answer(name: &str, addrs: Vec<IpAddress>) -> (res: Result<Vec<IpAddress>, String>)
    ensures
        addrs@.len() == 0 ==> (res matches Err(m) && m@ == no_result_message(name@)),
        addrs@.len() > 0 ==> res == Ok::<Vec<IpAddress>, String>(addrs),
{
    if addrs.len() == 0 {
        let mut m = String::new();
        push_str(&mut m, "Failed to find result for domain ");
        push_str(&mut m, name);
        Err(m)
    } else {
        Ok(addrs)
    }
}

/// The addresses of an answer as a script sees them: their texts, in order.
pub fn address_texts(addrs: &Vec<IpAddress>) -> (res: Vec<String>)
    ensures
        res@.len() == addrs@.len(),
        forall|i: int| 0 <= i < addrs@.len() ==> (#[trigger] res@[i])@ == ip_text(addrs@[i]),
{
    let mut out: Vec<String> = Vec::new();
    let mut i: usize = 0;
    while i < addrs.len()
        invariant
            i <= addrs@.len(),
            out@.len() == i,
            forall|j: int| 0 <= j < i ==> (#[trigger] out@[j])@ == ip_text(addrs@[j]),
        decreases addrs.len() - i,
    {
        out.push(ip_to_string(addrs[i]));
        i = i + 1;
    }
    out
}

} // verus!
