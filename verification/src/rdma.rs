//! RDMA netlink constants from `linux/rdma_netlink.h`.

use vstd::prelude::*;

verus! {

pub const NETLINK_RDMA: i32 = 20;

// Clients
pub const RDMA_NL_NLDEV: u32 = 5;

// Commands
pub const RDMA_NLDEV_CMD_GET: u32 = 1;

pub const RDMA_NLDEV_CMD_PORT_GET: u32 = 5;

pub const RDMA_NLDEV_CMD_RES_QP_GET: u32 = 10;

pub const RDMA_NLDEV_CMD_STAT_GET: u32 = 17;

// Attributes
pub const RDMA_NLDEV_ATTR_DEV_INDEX: u16 = 1;

pub const RDMA_NLDEV_ATTR_DEV_NAME: u16 = 2;

pub const RDMA_NLDEV_ATTR_PORT_INDEX: u16 = 3;

pub const RDMA_NLDEV_ATTR_PORT_STATE: u16 = 16;

pub const RDMA_NLDEV_ATTR_RES_QP: u16 = 19;

pub const RDMA_NLDEV_ATTR_RES_QP_ENTRY: u16 = 20;

pub const RDMA_NLDEV_ATTR_RES_LQPN: u16 = 21;

pub const RDMA_NLDEV_ATTR_RES_TYPE: u16 = 26;

pub const RDMA_NLDEV_ATTR_RES_STATE: u16 = 27;

pub const RDMA_NLDEV_ATTR_RES_PID: u16 = 28;

pub const RDMA_NLDEV_ATTR_RES_KERN_NAME: u16 = 29;

pub const RDMA_NLDEV_ATTR_STAT_HWCOUNTERS: u16 = 80;

pub const RDMA_NLDEV_ATTR_STAT_HWCOUNTER_ENTRY: u16 = 81;

pub const RDMA_NLDEV_ATTR_STAT_HWCOUNTER_ENTRY_NAME: u16 = 82;

pub const RDMA_NLDEV_ATTR_STAT_HWCOUNTER_ENTRY_VALUE: u16 = 83;

// Netlink
pub const NLM_F_REQUEST: u16 = 1;

pub const NLM_F_ACK: u16 = 4;

pub const NLM_F_DUMP: u16 = 0x300;

pub const NLMSG_DONE: u16 = 3;

pub const NLMSG_ERROR: u16 = 2;

pub const NLA_F_NESTED: u16 = 0x8000;

/// The netlink message type of a command of one RDMA client: the client in
/// the bits above the tenth, the command below.
pub fn rdma_nl_get_type(client: u32, op: u32) -> (r: u16)
    requires
        (client % 0x40_0000) * 1024 + op <= u32::MAX,
    ensures
        r == (client * 1024 + op) % 0x1_0000,
{
    let base: u32 = client << 10;
    assert(base == (client % 0x40_0000) * 1024) by (bit_vector)
        requires
            base == client << 10u32,
    ;
    let sum: u32 = base + op;
    let low: u16 = sum as u16;
    assert(low == sum % 0x1_0000) by (bit_vector)
        requires
            low == sum as u16,
    ;
    assert(sum % 0x1_0000 == (client * 1024 + op) % 0x1_0000);
    low
}

/// The kernel's numbers of the RDMA netlink protocol.
pub proof fn law_protocol_numbers()
    ensures
        NETLINK_RDMA == 20,
        RDMA_NL_NLDEV == 5,
        RDMA_NLDEV_CMD_GET == 1,
        RDMA_NLDEV_CMD_PORT_GET == 5,
        RDMA_NLDEV_CMD_RES_QP_GET == 10,
        RDMA_NLDEV_CMD_STAT_GET == 17,
        RDMA_NLDEV_ATTR_DEV_INDEX == 1,
        RDMA_NLDEV_ATTR_DEV_NAME == 2,
        RDMA_NLDEV_ATTR_PORT_INDEX == 3,
        RDMA_NLDEV_ATTR_PORT_STATE == 16,
        RDMA_NLDEV_ATTR_RES_QP == 19,
        RDMA_NLDEV_ATTR_RES_QP_ENTRY == 20,
        RDMA_NLDEV_ATTR_RES_LQPN == 21,
        RDMA_NLDEV_ATTR_RES_TYPE == 26,
        RDMA_NLDEV_ATTR_RES_STATE == 27,
        RDMA_NLDEV_ATTR_RES_PID == 28,
        RDMA_NLDEV_ATTR_RES_KERN_NAME == 29,
        RDMA_NLDEV_ATTR_STAT_HWCOUNTERS == 80,
        RDMA_NLDEV_ATTR_STAT_HWCOUNTER_ENTRY == 81,
        RDMA_NLDEV_ATTR_STAT_HWCOUNTER_ENTRY_NAME == 82,
        RDMA_NLDEV_ATTR_STAT_HWCOUNTER_ENTRY_VALUE == 83,
        NLM_F_REQUEST == 1,
        NLM_F_ACK == 4,
        NLM_F_DUMP == 0x300,
        NLMSG_DONE == 3,
        NLMSG_ERROR == 2,
        NLA_F_NESTED == 0x8000,
{
}

} // verus!
