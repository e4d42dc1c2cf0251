//! Netlink messages: requests that are built and replies that are taken apart.

use rdmatop::netlink::{
    payload_messages, reply_ends, ByteOrder, Nla, NlMsgBuilder, NlMsgIter, NlaIter, NLMSG_HDR_LEN,
};
use rdmatop::rdma::{
    rdma_nl_get_type, NLA_F_NESTED, NLMSG_DONE, NLMSG_ERROR, NLM_F_ACK, NLM_F_DUMP, NLM_F_REQUEST,
    RDMA_NLDEV_ATTR_DEV_INDEX, RDMA_NLDEV_ATTR_DEV_NAME, RDMA_NLDEV_ATTR_PORT_INDEX,
    RDMA_NLDEV_ATTR_RES_KERN_NAME, RDMA_NLDEV_ATTR_RES_LQPN, RDMA_NLDEV_ATTR_RES_PID,
    RDMA_NLDEV_ATTR_RES_QP, RDMA_NLDEV_ATTR_RES_QP_ENTRY, RDMA_NLDEV_ATTR_RES_STATE,
    RDMA_NLDEV_ATTR_RES_TYPE, RDMA_NLDEV_ATTR_STAT_HWCOUNTERS,
    RDMA_NLDEV_ATTR_STAT_HWCOUNTER_ENTRY, RDMA_NLDEV_ATTR_STAT_HWCOUNTER_ENTRY_NAME,
    RDMA_NLDEV_ATTR_STAT_HWCOUNTER_ENTRY_VALUE, RDMA_NLDEV_CMD_GET, RDMA_NLDEV_CMD_STAT_GET,
    RDMA_NL_NLDEV,
};
use rdmatop::stat::{
    device_request, enumerate_devices, find_port, name_qps, port_request, qp_entries, qp_request, qp_seq,
    query_port_stats, read_all_qps, read_all_stats, PortWalk, ProcComm, RdmaDev,
};

const LE: ByteOrder = ByteOrder::Little;

fn attr(attr_type: u16, data: &[u8]) -> Vec<u8> {
    let mut out = Vec::new();
    out.extend_from_slice(&((data.len() + 4) as u16).to_le_bytes());
    out.extend_from_slice(&attr_type.to_le_bytes());
    out.extend_from_slice(data);
    while out.len() % 4 != 0 {
        out.push(0);
    }
    out
}

fn message(msg_type: u16, payload: &[u8]) -> Vec<u8> {
    let mut out = Vec::new();
    out.extend_from_slice(&((payload.len() + NLMSG_HDR_LEN) as u32).to_le_bytes());
    out.extend_from_slice(&msg_type.to_le_bytes());
    out.extend_from_slice(&[0; 10]);
    out.extend_from_slice(payload);
    out
}

fn named(name: &str) -> Vec<u8> {
    let mut z = name.as_bytes().to_vec();
    z.push(0);
    attr(RDMA_NLDEV_ATTR_DEV_NAME, &z)
}

fn number(attr_type: u16, v: u32) -> Vec<u8> {
    attr(attr_type, &v.to_le_bytes())
}

#[test]
fn requests_follow_the_byte_order_of_the_machine() {
    let msg = NlMsgBuilder::new(0x1234, 0x5, 7)
        .put_u32(RDMA_NLDEV_ATTR_DEV_INDEX, 0xdead_beef)
        .build();
    let mut expected = Vec::new();
    expected.extend_from_slice(&24u32.to_ne_bytes());
    expected.extend_from_slice(&0x1234u16.to_ne_bytes());
    expected.extend_from_slice(&0x5u16.to_ne_bytes());
    expected.extend_from_slice(&7u32.to_ne_bytes());
    expected.extend_from_slice(&0u32.to_ne_bytes());
    expected.extend_from_slice(&8u16.to_ne_bytes());
    expected.extend_from_slice(&1u16.to_ne_bytes());
    expected.extend_from_slice(&0xdead_beefu32.to_ne_bytes());
    assert_eq!(msg, expected);
    let mut iter = NlMsgIter::new(&msg);
    let back = iter.next().unwrap();
    assert_eq!(back.msg_type, 0x1234);
    let attrs = back.attrs().collect();
    assert_eq!(attrs.len(), 1);
    assert_eq!(attrs[0].u32(), 0xdead_beef);
    assert!(iter.next().is_none());
}

#[test]
fn the_byte_order_is_told_from_two_bytes() {
    assert_eq!(ByteOrder::of_one([1, 0]), ByteOrder::Little);
    assert_eq!(ByteOrder::of_one([0, 1]), ByteOrder::Big);
    assert_eq!(ByteOrder::native(), ByteOrder::of_one(1u16.to_ne_bytes()));
}

#[test]
fn both_byte_orders_round_trip() {
    for order in [ByteOrder::Little, ByteOrder::Big] {
        let msg = NlMsgBuilder::with_order(order, 9, 1, 2)
            .put_u32(3, 0x0102_0304)
            .put_raw(&[])
            .build();
        let back = NlMsgIter::with_order(order, &msg).next().unwrap();
        assert_eq!(back.msg_type, 9);
        let attrs = back.attrs().collect();
        assert_eq!((attrs[0].attr_type, attrs[0].u32()), (3, 0x0102_0304));
    }
}

#[test]
fn the_nesting_flag_is_not_read_back() {
    for order in [ByteOrder::Little, ByteOrder::Big] {
        let msg = NlMsgBuilder::with_order(order, 9, 1, 2)
            .put_u32(5 | NLA_F_NESTED, 1)
            .put_u32(0xffff, 2)
            .build();
        assert_eq!(msg.len(), 16 + 8 * 2);
        let mut iter = NlMsgIter::with_order(order, &msg);
        let attrs = iter.next().unwrap().attrs().collect();
        assert!(iter.next().is_none());
        let read: Vec<_> = attrs.iter().map(|a| (a.attr_type, a.data.len(), a.u32())).collect();
        assert_eq!(read, [(5, 4, 1), (0x7fff, 4, 2)]);
    }
}

#[test]
fn a_step_leaves_the_bytes_behind_the_attribute() {
    let mut bytes = attr(7, &[1, 2, 3]);
    bytes.extend_from_slice(&[9, 9]);
    let mut iter = NlaIter { rest: &bytes, order: LE };
    assert_eq!(iter.next().unwrap().data, &[1, 2, 3]);
    assert_eq!(iter.rest, &[9, 9]);
    assert!(iter.next().is_none());
    assert_eq!(iter.rest, &[9, 9]);
}

#[test]
fn short_attributes_read_as_zero() {
    let nla = Nla { attr_type: 1, data: &[1, 2], order: LE };
    assert_eq!((nla.u8(), nla.u32(), nla.u64()), (1, 0, 0));
    let none = Nla { attr_type: 1, data: &[], order: LE };
    assert_eq!((none.u8(), none.str()), (0, ""));
    let eight = Nla { attr_type: 1, data: &[1, 0, 0, 0, 2, 0, 0, 0], order: LE };
    assert_eq!((eight.u32(), eight.u64()), (1, 0x2_0000_0001));
    let text = Nla { attr_type: 1, data: b"efa0\0junk", order: LE };
    assert_eq!(text.str(), "efa0");
    let bare = Nla { attr_type: 1, data: b"efa0", order: LE };
    assert_eq!(bare.str(), "efa0");
    let broken = Nla { attr_type: 1, data: &[0xff, 0xfe, 0], order: LE };
    assert_eq!(broken.str(), "");
}

#[test]
fn nesting_flags_are_masked_and_padding_is_skipped() {
    let inner = [attr(7, &[1, 2, 3]), attr(8, &[9])].concat();
    let outer = attr(5 | NLA_F_NESTED, &inner);
    let msg = message(1, &outer);
    let attrs = NlMsgIter::with_order(LE, &msg).next().unwrap().attrs().collect();
    assert_eq!(attrs[0].attr_type, 5);
    let nested = attrs[0].nested().collect();
    assert_eq!(nested.len(), 2);
    assert_eq!((nested[0].attr_type, nested[0].data), (7, &[1u8, 2, 3][..]));
    assert_eq!((nested[1].attr_type, nested[1].data), (8, &[9u8][..]));
}

#[test]
fn a_cut_buffer_ends_the_walk() {
    let whole = message(1, &number(3, 5));
    for cut in 0..whole.len() {
        assert!(NlMsgIter::with_order(LE, &whole[..cut]).next().is_none(), "{cut}");
    }
    // An attribute that claims more than there is ends the attributes.
    let mut payload = number(3, 5);
    payload.extend_from_slice(&[200, 0, 4, 0, 1]);
    let msg = message(1, &payload);
    let attrs = NlMsgIter::with_order(LE, &msg).next().unwrap().attrs().collect();
    assert_eq!(attrs.len(), 1);
}

#[test]
fn replies_end_with_done_or_an_error() {
    let data = message(1, &number(3, 5));
    let done = message(NLMSG_DONE, &[]);
    let error = message(NLMSG_ERROR, &[0; 4]);
    assert!(!reply_ends(LE, &data));
    assert!(reply_ends(LE, &[data.clone(), done.clone()].concat()));
    assert!(reply_ends(LE, &[data.clone(), error].concat()));
    let both = [done, data].concat();
    assert_eq!(payload_messages(LE, &both).len(), 1);
}

#[test]
fn message_types_name_client_and_command() {
    assert_eq!(rdma_nl_get_type(RDMA_NL_NLDEV, RDMA_NLDEV_CMD_GET), 5 * 1024 + 1);
    assert_eq!(rdma_nl_get_type(RDMA_NL_NLDEV, RDMA_NLDEV_CMD_STAT_GET), 5 * 1024 + 17);
}

#[test]
fn requests_ask_for_devices_ports_and_queue_pairs() {
    let devices = device_request(LE);
    assert_eq!(devices.len(), 16);
    assert_eq!(&devices[6..8], &(NLM_F_REQUEST | NLM_F_ACK | NLM_F_DUMP).to_le_bytes());
    let port = port_request(LE, 3, 2, 100);
    let back = NlMsgIter::with_order(LE, &port).next().unwrap();
    let attrs = back.attrs().collect();
    assert_eq!((attrs[0].attr_type, attrs[0].u32()), (RDMA_NLDEV_ATTR_DEV_INDEX, 3));
    assert_eq!((attrs[1].attr_type, attrs[1].u32()), (RDMA_NLDEV_ATTR_PORT_INDEX, 2));
    assert_eq!(&port[8..12], &100u32.to_le_bytes());
    let qp = qp_request(LE, 4, qp_seq(1));
    assert_eq!(&qp[8..12], &201u32.to_le_bytes());
}

fn device(idx: u32, name: &str, ports: u32) -> Vec<u8> {
    message(
        1,
        &[
            number(RDMA_NLDEV_ATTR_DEV_INDEX, idx),
            named(name),
            number(RDMA_NLDEV_ATTR_PORT_INDEX, ports),
        ]
        .concat(),
    )
}

#[test]
fn devices_are_enumerated_over_all_buffers() {
    let bufs = vec![
        [device(0, "mlx5_0", 2), device(1, "", 1)].concat(),
        [device(2, "efa0", 1), message(NLMSG_DONE, &[])].concat(),
    ];
    let devs = enumerate_devices(LE, &bufs);
    let seen: Vec<_> = devs.iter().map(|d| (d.idx, d.name.as_str(), d.num_ports)).collect();
    assert_eq!(seen, vec![(0, "mlx5_0", 2), (2, "efa0", 1)]);
}

#[test]
fn every_port_of_every_device_is_asked_for() {
    let dev = |idx: u32, num_ports: u32| RdmaDev { idx, name: "d".to_string(), num_ports };
    let devs = [dev(7, 2), dev(8, 0), dev(9, 1)];
    let mut walk = PortWalk::new();
    let mut seen = Vec::new();
    while let Some(q) = walk.next(&devs) {
        seen.push((q.idx, q.port, q.seq));
    }
    assert_eq!(seen, vec![(7, 1, 100), (7, 2, 101), (9, 1, 102)]);
}

fn counters(name: &str, port: u32, values: &[(&str, u64)]) -> Vec<u8> {
    let entries: Vec<u8> = values
        .iter()
        .flat_map(|(n, v)| {
            let mut z = n.as_bytes().to_vec();
            z.push(0);
            attr(
                RDMA_NLDEV_ATTR_STAT_HWCOUNTER_ENTRY | NLA_F_NESTED,
                &[
                    attr(RDMA_NLDEV_ATTR_STAT_HWCOUNTER_ENTRY_NAME, &z),
                    attr(RDMA_NLDEV_ATTR_STAT_HWCOUNTER_ENTRY_VALUE, &v.to_le_bytes()),
                ]
                .concat(),
            )
        })
        .collect();
    message(
        1,
        &[
            named(name),
            number(RDMA_NLDEV_ATTR_PORT_INDEX, port),
            attr(RDMA_NLDEV_ATTR_STAT_HWCOUNTERS | NLA_F_NESTED, &entries),
        ]
        .concat(),
    )
}

#[test]
fn port_counters_are_read() {
    let bufs = vec![counters("mlx5_0", 1, &[("tx_bytes", 5), ("rx_bytes", u64::MAX)])];
    let stats = query_port_stats(LE, &bufs);
    assert_eq!(stats.len(), 1);
    assert_eq!((stats[0].dev_name.as_str(), stats[0].port), ("mlx5_0", 1));
    assert_eq!(stats[0].counter_value("tx_bytes"), Some(5));
    assert_eq!(stats[0].counter_value("rx_bytes"), Some(u64::MAX));
    assert_eq!(stats[0].counter_value("none"), None);
    // One failed query fails the whole reading.
    let all = read_all_stats(LE, &[Some(bufs.clone()), Some(bufs.clone())]).unwrap();
    assert_eq!(all.len(), 2);
    assert!(read_all_stats(LE, &[Some(bufs), None]).is_none());
}

fn queue_pairs(entries: &[Vec<u8>]) -> Vec<u8> {
    let inner: Vec<u8> = entries
        .iter()
        .flat_map(|e| attr(RDMA_NLDEV_ATTR_RES_QP_ENTRY | NLA_F_NESTED, e))
        .collect();
    message(1, &attr(RDMA_NLDEV_ATTR_RES_QP | NLA_F_NESTED, &inner))
}

#[test]
fn queue_pairs_are_named_by_their_process() {
    let entry = |pid: u32, lqpn: u32| {
        [
            number(RDMA_NLDEV_ATTR_RES_LQPN, lqpn),
            attr(RDMA_NLDEV_ATTR_RES_TYPE, &[2]),
            attr(RDMA_NLDEV_ATTR_RES_STATE, &[3]),
            number(RDMA_NLDEV_ATTR_RES_PID, pid),
        ]
        .concat()
    };
    let kernel = [
        number(RDMA_NLDEV_ATTR_RES_PID, 5),
        attr(RDMA_NLDEV_ATTR_RES_KERN_NAME, b"ib_core\0"),
    ]
    .concat();
    let devs = [RdmaDev { idx: 0, name: "mlx5_0".to_string(), num_ports: 1 }];
    let replies = [Some(vec![queue_pairs(&[entry(10, 1), entry(0, 2), kernel])])];
    let entries = qp_entries(LE, &devs, &replies);
    assert_eq!(entries.len(), 2);
    let comms = [ProcComm { pid: 10, text: " train\n".to_string() }];
    let qps = name_qps(&entries, &comms);
    assert_eq!((qps[0].comm.as_str(), qps[0].lqpn, qps[0].qp_type, qps[0].state), ("train", 1, 2, 3));
    assert_eq!((qps[1].comm.as_str(), qps[1].pid), ("ib_core", 5));
    assert_eq!(qps[0].dev_name, "mlx5_0");
    // A device that did not answer is passed over.
    assert!(read_all_qps(LE, &devs, &[None], &comms).is_empty());
    assert_eq!(read_all_qps(LE, &devs, &replies, &comms).len(), 2);
}

#[test]
fn a_port_is_found_by_device_name_and_number() {
    let dev = |idx: u32, name: &str, num_ports: u32| RdmaDev {
        idx,
        name: name.to_string(),
        num_ports,
    };
    let devs = [dev(3, "a", 1), dev(4, "b", 2), dev(5, "b", 4)];
    assert_eq!(find_port(&devs, "b", 2), Some(4));
    assert_eq!(find_port(&devs, "b", 3), Some(5));
    assert_eq!(find_port(&devs, "a", 2), None);
    assert_eq!(find_port(&devs, "c", 1), None);
    assert_eq!(find_port(&[], "a", 1), None);
}
