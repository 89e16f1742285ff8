//! Messages of the Linux process connector.

use vstd::prelude::*;

use crate::bytes;
use crate::bytes::ByteOrder;

verus! {

pub const NETLINK_CONNECTOR: i32 = 11;

pub const NETLINK_ADD_MEMBERSHIP: i32 = 1;

pub const CN_IDX_PROC: u32 = 1;

pub const CN_VAL_PROC: u32 = 1;

pub const PROC_CN_MCAST_LISTEN: u32 = 1;

pub const PROC_CN_MCAST_IGNORE: u32 = 2;

pub const PROC_EVENT_FORK: u32 = 1;

pub const PROC_EVENT_EXEC: u32 = 2;

pub const PROC_EVENT_EXIT: u32 = 0x8000_0000;

/// The type of the last message of several.
pub const NLMSG_DONE: u16 = 3;

pub const NLMSG_HDR_LEN: usize = 16;

pub const CN_MSG_HDR_LEN: usize = 20;

pub const PROC_EVENT_DATA_OFFSET: usize = 36;

pub const PROC_EVENT_UNION_OFFSET: usize = 52;

/// Something that happened to a process.
#[derive(Clone, Copy, Debug, Eq, PartialEq, Structural)]
pub enum ProcEvent {
    Fork { parent_pid: u32, child_pid: u32 },
    Exec { process_pid: u32 },
    Exit { process_pid: u32 },
}

/// The 32-bit integer at `at`, if the message is that long.
pub open spec fn field(message: Seq<u8>, at: int, order: ByteOrder) -> Option<u32> {
    if at + 4 <= message.len() {
        Some(bytes::u32_at(message, at, order))
    } else {
        None
    }
}

/// The event that a message reports.
pub open spec fn event_of(message: Seq<u8>, order: ByteOrder) -> Option<ProcEvent> {
    if message.len() < PROC_EVENT_UNION_OFFSET + 4 || bytes::u32_at(message, 16, order)
        != CN_IDX_PROC || bytes::u32_at(message, 20, order) != CN_VAL_PROC {
        None
    } else {
        let kind = bytes::u32_at(message, 36, order);
        let first = bytes::u32_at(message, 52, order);
        if kind == PROC_EVENT_FORK {
            match field(message, 60, order) {
                Some(child_pid) => Some(ProcEvent::Fork { parent_pid: first, child_pid }),
                None => None,
            }
        } else if kind == PROC_EVENT_EXEC {
            Some(ProcEvent::Exec { process_pid: first })
        } else if kind == PROC_EVENT_EXIT {
            Some(ProcEvent::Exit { process_pid: first })
        } else {
            None
        }
    }
}

/// The 32-bit integer at `offset`, if the buffer is that long.
pub fn read_u32(buffer: &[u8], offset: usize, order: ByteOrder) -> (value: Option<u32>)
    ensures
        value == field(buffer@, offset as int, order),
{
    if buffer.len() >= 4 && offset <= buffer.len() - 4 {
        Some(bytes::read_u32_at(buffer, offset, order))
    } else {
        None
    }
}

pub fn parse_proc_event(buffer: &[u8], order: ByteOrder) -> (event: Option<ProcEvent>)
    ensures
        event == event_of(buffer@, order),
{
    if buffer.len() < PROC_EVENT_UNION_OFFSET + 4 {
        return None;
    }
    if bytes::read_u32_at(buffer, NLMSG_HDR_LEN, order) != CN_IDX_PROC {
        return None;
    }
    if bytes::read_u32_at(buffer, NLMSG_HDR_LEN + 4, order) != CN_VAL_PROC {
        return None;
    }
    let kind: u32 = bytes::read_u32_at(buffer, PROC_EVENT_DATA_OFFSET, order);
    let first: u32 = bytes::read_u32_at(buffer, PROC_EVENT_UNION_OFFSET, order);
    if kind == PROC_EVENT_FORK {
        match read_u32(buffer, PROC_EVENT_UNION_OFFSET + 8, order) {
            Some(child_pid) => Some(ProcEvent::Fork { parent_pid: first, child_pid }),
            None => None,
        }
    } else if kind == PROC_EVENT_EXEC {
        Some(ProcEvent::Exec { process_pid: first })
    } else if kind == PROC_EVENT_EXIT {
        Some(ProcEvent::Exit { process_pid: first })
    } else {
        None
    }
}

/// The message that tells the connector what to do: the header of a netlink message, that of a
/// connector message, and the operation.
pub open spec fn subscription(op: u32, order: ByteOrder) -> Seq<u8> {
    bytes::u32_bytes(40, order) + bytes::u16_bytes(NLMSG_DONE, order) + bytes::u16_bytes(0, order)
        + bytes::u32_bytes(1, order) + bytes::u32_bytes(0, order) + bytes::u32_bytes(
        CN_IDX_PROC,
        order,
    ) + bytes::u32_bytes(CN_VAL_PROC, order) + bytes::u32_bytes(0, order) + bytes::u32_bytes(
        0,
        order,
    ) + bytes::u16_bytes(4, order) + bytes::u16_bytes(0, order) + bytes::u32_bytes(op, order)
}

pub fn subscription_message(op: u32, order: ByteOrder) -> (message: Vec<u8>)
    ensures
        message@ == subscription(op, order),
{
    let mut message: Vec<u8> = Vec::new();
    bytes::push_u32(&mut message, 40, order);
    bytes::push_u16(&mut message, NLMSG_DONE, order);
    bytes::push_u16(&mut message, 0, order);
    bytes::push_u32(&mut message, 1, order);
    bytes::push_u32(&mut message, 0, order);
    bytes::push_u32(&mut message, CN_IDX_PROC, order);
    bytes::push_u32(&mut message, CN_VAL_PROC, order);
    bytes::push_u32(&mut message, 0, order);
    bytes::push_u32(&mut message, 0, order);
    bytes::push_u16(&mut message, 4, order);
    bytes::push_u16(&mut message, 0, order);
    bytes::push_u32(&mut message, op, order);
    assert(message@ =~= subscription(op, order));
    message
}

/// A subscription is as long as its header says, is addressed to the process connector, and
/// carries its operation as the whole payload.
pub proof fn law_subscription_is_well_formed(op: u32, order: ByteOrder)
    ensures
        subscription(op, order).len() == 40,
        bytes::u32_at(subscription(op, order), 0, order) == 40,
        bytes::u32_at(subscription(op, order), 16, order) == CN_IDX_PROC,
        bytes::u32_at(subscription(op, order), 20, order) == CN_VAL_PROC,
        bytes::u32_at(subscription(op, order), 36, order) == op,
{
    let message = subscription(op, order);
    assert(message.len() == 40);
    let none = Seq::<u8>::empty();
    bytes::lemma_u32_round_trip(none, 40, message.subrange(4, 40), order);
    assert(none + bytes::u32_bytes(40, order) + message.subrange(4, 40) =~= message);
    bytes::lemma_u32_round_trip(
        message.subrange(0, 16),
        CN_IDX_PROC,
        message.subrange(20, 40),
        order,
    );
    assert(message.subrange(0, 16) + bytes::u32_bytes(CN_IDX_PROC, order) + message.subrange(20, 40)
        =~= message);
    bytes::lemma_u32_round_trip(
        message.subrange(0, 20),
        CN_VAL_PROC,
        message.subrange(24, 40),
        order,
    );
    assert(message.subrange(0, 20) + bytes::u32_bytes(CN_VAL_PROC, order) + message.subrange(24, 40)
        =~= message);
    bytes::lemma_u32_round_trip(message.subrange(0, 36), op, none, order);
    assert(message.subrange(0, 36) + bytes::u32_bytes(op, order) + none =~= message);
}

/// A subscription is never mistaken for an event.
pub proof fn law_subscription_is_no_event(op: u32, order: ByteOrder)
    ensures
        event_of(subscription(op, order), order) is None,
{
    law_subscription_is_well_formed(op, order);
}

} // verus!
