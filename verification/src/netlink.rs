//! The decisions of the exchange with the kernel module over netlink: how
//! each received datagram is read, and how a payload is added to the
//! process table.  Sending and receiving stay with the caller.
use vstd::prelude::*;
use vstd::utf8::{decode_utf8, valid_utf8};
use std::collections::HashMap;
use crate::listing::{apply_entries, names_view, parse_proc_list, tab_listing_entries};

verus! {

/// Size in bytes of `struct nlmsghdr`.
pub const NLMSG_HEADER_LEN: usize = 16;

/// The netlink message type that ends a multipart reply.
pub const NLMSG_DONE: u16 = 3;

/// What to do with one received datagram.
#[derive(Clone, Copy, Debug, PartialEq, Eq, Structural)]
pub enum NetlinkStep {
    /// The datagram is shorter than a message header: stop reading.
    Stop,
    /// The `len` bytes after the header are the payload; `done` is set when
    /// this message ends the reply.
    Payload { len: usize, done: bool },
}

/// How the reader goes on after receiving `received` bytes whose header
/// gives the message length `msg_len` and type `msg_type`.
pub open spec fn next_step(received: usize, msg_len: u32, msg_type: u16) -> NetlinkStep {
    if received < NLMSG_HEADER_LEN {
        NetlinkStep::Stop
    } else {
        NetlinkStep::Payload {
            len: (msg_len - NLMSG_HEADER_LEN) as usize,
            done: msg_type == NLMSG_DONE,
        }
    }
}

/// Decides what to do with a received datagram.  A header's length field
/// below the header size is left out: the payload length would underflow.
pub fn netlink_step(received: usize, msg_len: u32, msg_type: u16) -> (step: NetlinkStep)
    requires
        received >= NLMSG_HEADER_LEN ==> msg_len >= NLMSG_HEADER_LEN,
    ensures
        step == next_step(received, msg_len, msg_type),
        received < NLMSG_HEADER_LEN <==> step is Stop,
        step matches NetlinkStep::Payload { len, done } ==> done == (msg_type == 3) && len + 16
            == msg_len,
{
    if received < NLMSG_HEADER_LEN {
        return NetlinkStep::Stop;
    }
    let len = (msg_len as usize) - NLMSG_HEADER_LEN;
    NetlinkStep::Payload { len, done: msg_type == NLMSG_DONE }
}

/// Reading stops at a datagram shorter than a header; any other datagram
/// ends the reply exactly when its message type is `NLMSG_DONE` (3),
/// whatever the received length and the header's length field are (the
/// kernel pads messages, so the two need not agree), and its payload is the
/// message length less the header.
pub proof fn lemma_step_done_by_type_alone(received: usize, msg_len: u32, msg_type: u16)
    ensures
        received < 16 ==> next_step(received, msg_len, msg_type) == NetlinkStep::Stop,
        received >= 16 && msg_len >= 16 ==> (next_step(received, msg_len, msg_type) matches NetlinkStep::Payload { len, done }
            && done == (msg_type == 3) && len + 16 == msg_len),
{
}

/// Two datagrams of one message type are read alike as to ending the
/// reply, whatever their lengths.
pub proof fn lemma_step_done_same_type(r1: usize, l1: u32, r2: usize, l2: u32, msg_type: u16)
    requires
        r1 >= 16,
        r2 >= 16,
    ensures
        next_step(r1, l1, msg_type)->done == next_step(r2, l2, msg_type)->done,
{
}

/// `String::from_utf8` on a copy of the bytes: `Some` exactly when they are
/// valid UTF-8, holding the characters they encode.
#[verifier::external_body]
fn string_from_utf8(bytes: &[u8]) -> (s: Option<String>)
    ensures
        s is Some <==> valid_utf8(bytes@),
        s matches Some(s) ==> s@ == decode_utf8(bytes@),
{
    String::from_utf8(bytes.to_vec()).ok()
}

/// Adds the `PID<TAB>NAME` lines of a payload to `processes`; a payload
/// that is not valid UTF-8 adds nothing.
pub fn absorb_payload(payload: &[u8], processes: &mut HashMap<i32, String>)
    ensures
        valid_utf8(payload@) ==> names_view(final(processes)@) == apply_entries(
            names_view(old(processes)@),
            tab_listing_entries(decode_utf8(payload@)),
        ),
        !valid_utf8(payload@) ==> final(processes)@ == old(processes)@,
{
    match string_from_utf8(payload) {
        Some(text) => parse_proc_list(text.as_str(), processes),
        None => {},
    }
}

} // verus!
