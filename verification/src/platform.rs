//! Numbers that the socket interface of the operating system fixes. Each is
//! the same on Linux, FreeBSD and macOS.

use vstd::prelude::*;

verus! {

/// `libc::IFNAMSIZ`: the room that the kernel has for the name of an interface,
/// with the zero byte at its end. It is 16.
#[verifier::external_body]
pub(crate) fn ifnamsiz() -> (r: usize)
    ensures
        r == 16,
{
    libc::IFNAMSIZ
}

/// `libc::IFF_UP`: the flag of an interface that is up. It is 1.
#[verifier::external_body]
pub(crate) fn iff_up() -> (r: i32)
    ensures
        r == 1,
{
    libc::IFF_UP
}

/// `libc::IFF_BROADCAST`: the flag of an interface that has a broadcast
/// address. It is 2.
#[verifier::external_body]
pub(crate) fn iff_broadcast() -> (r: i32)
    ensures
        r == 2,
{
    libc::IFF_BROADCAST
}

/// `libc::IFF_LOOPBACK`: the flag of a loopback interface. It is 8.
#[verifier::external_body]
pub(crate) fn iff_loopback() -> (r: i32)
    ensures
        r == 8,
{
    libc::IFF_LOOPBACK
}

/// `libc::POLLIN`: the event of a socket that can be read. It is 1.
#[verifier::external_body]
pub(crate) fn pollin() -> (r: i16)
    ensures
        r == 1,
{
    libc::POLLIN
}

} // verus!
