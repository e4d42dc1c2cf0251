//! Hardware counters and queue pairs as the kernel reports them, and the
//! processes that own the queue pairs.

use vstd::prelude::*;

use crate::lists;
use crate::netlink;
use crate::netlink::{Attr, ByteOrder, Message, Nla, NlMsg, NlMsgBuilder};
use crate::rdma::{
    rdma_nl_get_type, NLM_F_ACK, NLM_F_DUMP, NLM_F_REQUEST, RDMA_NLDEV_ATTR_DEV_INDEX,
    RDMA_NLDEV_ATTR_DEV_NAME, RDMA_NLDEV_ATTR_PORT_INDEX, RDMA_NLDEV_ATTR_RES_KERN_NAME,
    RDMA_NLDEV_ATTR_RES_LQPN, RDMA_NLDEV_ATTR_RES_PID, RDMA_NLDEV_ATTR_RES_QP,
    RDMA_NLDEV_ATTR_RES_QP_ENTRY, RDMA_NLDEV_ATTR_RES_STATE, RDMA_NLDEV_ATTR_RES_TYPE,
    RDMA_NLDEV_ATTR_STAT_HWCOUNTERS, RDMA_NLDEV_ATTR_STAT_HWCOUNTER_ENTRY,
    RDMA_NLDEV_ATTR_STAT_HWCOUNTER_ENTRY_NAME, RDMA_NLDEV_ATTR_STAT_HWCOUNTER_ENTRY_VALUE,
    RDMA_NLDEV_CMD_GET, RDMA_NLDEV_CMD_RES_QP_GET, RDMA_NLDEV_CMD_STAT_GET, RDMA_NL_NLDEV,
};
use crate::text;

verus! {

/// A single hardware counter name/value pair.
#[derive(Debug)]
pub struct HwCounter {
    pub name: String,
    pub value: u64,
}

/// What a counter holds.
pub struct HwCounterView {
    pub name: Seq<char>,
    pub value: u64,
}

impl View for HwCounter {
    type V = HwCounterView;

    open spec fn view(&self) -> HwCounterView {
        HwCounterView { name: self.name@, value: self.value }
    }
}

impl Clone for HwCounter {
    fn clone(&self) -> (r: Self)
        ensures
            r@ == self@,
    {
        HwCounter { name: self.name.clone(), value: self.value }
    }
}

/// Per-port statistics snapshot with all hw counters.
#[derive(Debug)]
pub struct PortStat {
    pub dev_name: String,
    pub port: u32,
    /// Port line rate in Mb/s, where it is known.
    pub link_mbps: Option<u64>,
    /// Port state number, where it is known.
    pub state: Option<u8>,
    pub counters: Vec<HwCounter>,
}

/// What a port snapshot holds.
#[verifier::ext_equal]
pub struct PortStatView {
    pub dev_name: Seq<char>,
    pub port: u32,
    pub link_mbps: Option<u64>,
    pub state: Option<u8>,
    pub counters: Seq<HwCounterView>,
}

impl View for PortStat {
    type V = PortStatView;

    open spec fn view(&self) -> PortStatView {
        PortStatView {
            dev_name: self.dev_name@,
            port: self.port,
            link_mbps: self.link_mbps,
            state: self.state,
            counters: lists::views(self.counters@),
        }
    }
}

impl Clone for PortStat {
    fn clone(&self) -> (r: Self)
        ensures
            r@ == self@,
    {
        let counters = self.counters.clone();
        assert(lists::views(counters@) =~= lists::views(self.counters@));
        PortStat {
            dev_name: self.dev_name.clone(),
            port: self.port,
            link_mbps: self.link_mbps,
            state: self.state,
            counters,
        }
    }
}

/// The value of the first counter with a name.
pub open spec fn value_named(counters: Seq<HwCounterView>, name: Seq<char>) -> Option<u64>
    decreases counters.len(),
{
    if counters.len() == 0 {
        None
    } else if counters[0].name == name {
        Some(counters[0].value)
    } else {
        value_named(counters.drop_first(), name)
    }
}

impl PortStat {
    /// Look up a counter value by name.
    pub fn counter_value(&self, name: &str) -> (r: Option<u64>)
        ensures
            r == value_named(self@.counters, name@),
    {
        let ghost all = self@.counters;
        let mut i: usize = 0;
        assert(all.skip(0) =~= all);
        while i < self.counters.len()
            invariant
                i <= self.counters.len(),
                all == lists::views(self.counters@),
                value_named(all, name@) == value_named(all.skip(i as int), name@),
            decreases self.counters.len() - i,
        {
            assert(all.skip(i as int)[0] == self.counters@[i as int]@);
            if text::same(self.counters[i].name.as_str(), name) {
                return Some(self.counters[i].value);
            }
            assert(all.skip(i as int).drop_first() =~= all.skip(i + 1));
            i += 1;
        }
        None
    }
}

/// The last attribute of a list that meets a condition.
pub open spec fn last_such(attrs: Seq<Attr>, p: spec_fn(Attr) -> bool) -> Option<Attr>
    decreases attrs.len(),
{
    if attrs.len() == 0 {
        None
    } else if p(attrs.last()) {
        Some(attrs.last())
    } else {
        last_such(attrs.drop_last(), p)
    }
}

/// The last attribute of a type.
pub open spec fn last_of(attrs: Seq<Attr>, attr_type: u16) -> Option<Attr> {
    last_such(attrs, |a: Attr| a.attr_type == attr_type)
}

/// The 32-bit number of the last attribute of a type.
pub open spec fn u32_of(order: ByteOrder, attrs: Seq<Attr>, attr_type: u16, absent: u32) -> u32 {
    match last_of(attrs, attr_type) {
        Some(a) => netlink::attr_u32(order, a.data),
        None => absent,
    }
}

/// The text of the last attribute of a type.
pub open spec fn text_of(attrs: Seq<Attr>, attr_type: u16, absent: Seq<char>) -> Seq<char> {
    match last_of(attrs, attr_type) {
        Some(a) => netlink::c_text(a.data),
        None => absent,
    }
}

/// The first byte of the last attribute of a type that has one.
pub open spec fn byte_of(attrs: Seq<Attr>, attr_type: u16) -> u8 {
    match last_such(attrs, |a: Attr| a.attr_type == attr_type && a.data.len() > 0) {
        Some(a) => a.data[0],
        None => 0,
    }
}

/// An RDMA device: its index, name and number of ports.
#[derive(Debug)]
pub struct RdmaDev {
    pub idx: u32,
    pub name: String,
    pub num_ports: u32,
}

/// What a device record holds.
pub struct RdmaDevView {
    pub idx: u32,
    pub name: Seq<char>,
    pub num_ports: u32,
}

impl View for RdmaDev {
    type V = RdmaDevView;

    open spec fn view(&self) -> RdmaDevView {
        RdmaDevView { idx: self.idx, name: self.name@, num_ports: self.num_ports }
    }
}

/// The index of the first device that has a name and a port of some number.
pub open spec fn port_at(devs: Seq<RdmaDevView>, device: Seq<char>, port: u32) -> Option<u32>
    decreases devs.len(),
{
    if devs.len() == 0 {
        None
    } else if devs[0].name == device && port <= devs[0].num_ports {
        Some(devs[0].idx)
    } else {
        port_at(devs.drop_first(), device, port)
    }
}

/// Finds the device of a port by name.
pub fn find_port(devs: &[RdmaDev], device: &str, port: u32) -> (r: Option<u32>)
    ensures
        r == port_at(lists::views(devs@), device@, port),
{
    let ghost all = lists::views(devs@);
    let mut i: usize = 0;
    assert(all.skip(0) =~= all);
    while i < devs.len()
        invariant
            i <= devs.len(),
            all == lists::views(devs@),
            port_at(all, device@, port) == port_at(all.skip(i as int), device@, port),
        decreases devs.len() - i,
    {
        assert(all.skip(i as int)[0] == devs@[i as int]@);
        if text::same(devs[i].name.as_str(), device) && port <= devs[i].num_ports {
            return Some(devs[i].idx);
        }
        assert(all.skip(i as int).drop_first() =~= all.skip(i + 1));
        i += 1;
    }
    None
}

/// The device that a message describes; none without a name.
pub open spec fn dev_in(order: ByteOrder, attrs: Seq<Attr>) -> Option<RdmaDevView> {
    let name = text_of(attrs, RDMA_NLDEV_ATTR_DEV_NAME, seq![]);
    if name.len() == 0 {
        None
    } else {
        Some(
            RdmaDevView {
                idx: u32_of(order, attrs, RDMA_NLDEV_ATTR_DEV_INDEX, 0),
                name,
                num_ports: u32_of(order, attrs, RDMA_NLDEV_ATTR_PORT_INDEX, 1),
            },
        )
    }
}

/// Reads the device that a message describes.
pub fn parse_dev(nlmsg: &NlMsg) -> (r: Option<RdmaDev>)
    ensures
        lists::opt_view(r) == dev_in(nlmsg.order, netlink::attributes(nlmsg.order, nlmsg.payload@)),
{
    let attrs = nlmsg.attrs().collect();
    let ghost all = netlink::attr_views(attrs@);
    let mut idx: u32 = 0;
    let mut name = String::new();
    let mut num_ports: u32 = 1;
    let mut i: usize = 0;
    while i < attrs.len()
        invariant
            i <= attrs.len(),
            all == netlink::attr_views(attrs@),
            forall|k: int| 0 <= k < attrs@.len() ==> (#[trigger] attrs@[k]).order == nlmsg.order,
            idx == u32_of(nlmsg.order, all.take(i as int), RDMA_NLDEV_ATTR_DEV_INDEX, 0),
            name@ == text_of(all.take(i as int), RDMA_NLDEV_ATTR_DEV_NAME, seq![]),
            num_ports == u32_of(nlmsg.order, all.take(i as int), RDMA_NLDEV_ATTR_PORT_INDEX, 1),
        decreases attrs.len() - i,
    {
        proof {
            text::lemma_take_step(all, i as int);
        }
        let nla = &attrs[i];
        assert(nla@ == all[i as int]);
        if nla.attr_type == RDMA_NLDEV_ATTR_DEV_INDEX {
            idx = nla.u32();
        } else if nla.attr_type == RDMA_NLDEV_ATTR_DEV_NAME {
            name = nla.str().to_owned();
        } else if nla.attr_type == RDMA_NLDEV_ATTR_PORT_INDEX {
            num_ports = nla.u32();
        }
        i += 1;
    }
    assert(all.take(all.len() as int) =~= all);
    if name.as_str().unicode_len() == 0 {
        None
    } else {
        Some(RdmaDev { idx, name, num_ports })
    }
}

/// The counter that an entry describes.
pub open spec fn counter_in(order: ByteOrder, attrs: Seq<Attr>) -> HwCounterView {
    HwCounterView {
        name: text_of(attrs, RDMA_NLDEV_ATTR_STAT_HWCOUNTER_ENTRY_NAME, seq![]),
        value: match last_of(attrs, RDMA_NLDEV_ATTR_STAT_HWCOUNTER_ENTRY_VALUE) {
            Some(a) => netlink::attr_u64(order, a.data),
            None => 0,
        },
    }
}

fn parse_hw_counter(entry: &Nla) -> (r: HwCounter)
    ensures
        r@ == counter_in(entry.order, netlink::attributes(entry.order, entry.data@)),
{
    let attrs = entry.nested().collect();
    let ghost all = netlink::attr_views(attrs@);
    let mut name = String::new();
    let mut value: u64 = 0;
    let mut i: usize = 0;
    while i < attrs.len()
        invariant
            i <= attrs.len(),
            all == netlink::attr_views(attrs@),
            forall|k: int| 0 <= k < attrs@.len() ==> (#[trigger] attrs@[k]).order == entry.order,
            name@ == counter_in(entry.order, all.take(i as int)).name,
            value == counter_in(entry.order, all.take(i as int)).value,
        decreases attrs.len() - i,
    {
        proof {
            text::lemma_take_step(all, i as int);
        }
        let f = &attrs[i];
        assert(f@ == all[i as int]);
        if f.attr_type == RDMA_NLDEV_ATTR_STAT_HWCOUNTER_ENTRY_NAME {
            name = f.str().to_owned();
        } else if f.attr_type == RDMA_NLDEV_ATTR_STAT_HWCOUNTER_ENTRY_VALUE {
            value = f.u64();
        }
        i += 1;
    }
    assert(all.take(all.len() as int) =~= all);
    HwCounter { name, value }
}

/// The counters of a counter table, in order.
pub open spec fn counters_in(order: ByteOrder, entries: Seq<Attr>) -> Seq<HwCounterView>
    decreases entries.len(),
{
    if entries.len() == 0 {
        seq![]
    } else {
        let before = counters_in(order, entries.drop_last());
        if entries.last().attr_type == RDMA_NLDEV_ATTR_STAT_HWCOUNTER_ENTRY {
            before.push(counter_in(order, netlink::attributes(order, entries.last().data)))
        } else {
            before
        }
    }
}

fn parse_counters(table: &Nla) -> (r: Vec<HwCounter>)
    ensures
        lists::views(r@) == counters_in(
            table.order,
            netlink::attributes(table.order, table.data@),
        ),
{
    let entries = table.nested().collect();
    let ghost all = netlink::attr_views(entries@);
    let mut out: Vec<HwCounter> = Vec::new();
    let mut i: usize = 0;
    assert(lists::views(out@) =~= counters_in(table.order, all.take(0)));
    while i < entries.len()
        invariant
            i <= entries.len(),
            all == netlink::attr_views(entries@),
            forall|k: int|
                0 <= k < entries@.len() ==> (#[trigger] entries@[k]).order == table.order,
            lists::views(out@) == counters_in(table.order, all.take(i as int)),
        decreases entries.len() - i,
    {
        proof {
            text::lemma_take_step(all, i as int);
        }
        let e = &entries[i];
        assert(e@ == all[i as int]);
        if e.attr_type == RDMA_NLDEV_ATTR_STAT_HWCOUNTER_ENTRY {
            let counter = parse_hw_counter(e);
            proof {
                lists::lemma_views_push(out@, counter);
            }
            out.push(counter);
        }
        i += 1;
    }
    assert(all.take(all.len() as int) =~= all);
    out
}

/// The port snapshot that a message describes; none without a device name.
pub open spec fn port_stat_in(order: ByteOrder, attrs: Seq<Attr>) -> Option<PortStatView> {
    let dev_name = text_of(attrs, RDMA_NLDEV_ATTR_DEV_NAME, seq![]);
    if dev_name.len() == 0 {
        None
    } else {
        Some(
            PortStatView {
                dev_name,
                port: u32_of(order, attrs, RDMA_NLDEV_ATTR_PORT_INDEX, 0),
                link_mbps: None,
                state: None,
                counters: match last_of(attrs, RDMA_NLDEV_ATTR_STAT_HWCOUNTERS) {
                    Some(a) => counters_in(order, netlink::attributes(order, a.data)),
                    None => seq![],
                },
            },
        )
    }
}

/// Reads the port snapshot that a message describes.
pub fn parse_port_stat(nlmsg: &NlMsg) -> (r: Option<PortStat>)
    ensures
        lists::opt_view(r) == port_stat_in(
            nlmsg.order,
            netlink::attributes(nlmsg.order, nlmsg.payload@),
        ),
{
    let attrs = nlmsg.attrs().collect();
    let ghost all = netlink::attr_views(attrs@);
    let mut dev_name = String::new();
    let mut port: u32 = 0;
    let mut counters: Vec<HwCounter> = Vec::new();
    let mut i: usize = 0;
    assert(lists::views(counters@) =~= seq![]);
    while i < attrs.len()
        invariant
            i <= attrs.len(),
            all == netlink::attr_views(attrs@),
            forall|k: int| 0 <= k < attrs@.len() ==> (#[trigger] attrs@[k]).order == nlmsg.order,
            dev_name@ == text_of(all.take(i as int), RDMA_NLDEV_ATTR_DEV_NAME, seq![]),
            port == u32_of(nlmsg.order, all.take(i as int), RDMA_NLDEV_ATTR_PORT_INDEX, 0),
            lists::views(counters@) == (match last_of(
                all.take(i as int),
                RDMA_NLDEV_ATTR_STAT_HWCOUNTERS,
            ) {
                Some(a) => counters_in(nlmsg.order, netlink::attributes(nlmsg.order, a.data)),
                None => seq![],
            }),
        decreases attrs.len() - i,
    {
        proof {
            text::lemma_take_step(all, i as int);
        }
        let nla = &attrs[i];
        assert(nla@ == all[i as int]);
        if nla.attr_type == RDMA_NLDEV_ATTR_DEV_NAME {
            dev_name = nla.str().to_owned();
        } else if nla.attr_type == RDMA_NLDEV_ATTR_PORT_INDEX {
            port = nla.u32();
        } else if nla.attr_type == RDMA_NLDEV_ATTR_STAT_HWCOUNTERS {
            counters = parse_counters(nla);
        }
        i += 1;
    }
    assert(all.take(all.len() as int) =~= all);
    if dev_name.as_str().unicode_len() == 0 {
        None
    } else {
        Some(PortStat { dev_name, port, link_mbps: None, state: None, counters })
    }
}

/// The data messages of a reply that came in several buffers, in order.
pub open spec fn reply_messages(order: ByteOrder, bufs: Seq<Vec<u8>>) -> Seq<Message>
    decreases bufs.len(),
{
    if bufs.len() == 0 {
        seq![]
    } else {
        reply_messages(order, bufs.drop_last()) + netlink::data_messages(
            netlink::messages(order, bufs.last()@),
        )
    }
}

/// Collects the data messages of a reply.
fn collect_messages<'a>(order: ByteOrder, bufs: &'a [Vec<u8>]) -> (r: Vec<NlMsg<'a>>)
    ensures
        netlink::message_views(r@) == reply_messages(order, bufs@),
        forall|k: int| 0 <= k < r@.len() ==> (#[trigger] r@[k]).order == order,
{
    let mut out: Vec<NlMsg<'a>> = Vec::new();
    let mut i: usize = 0;
    assert(netlink::message_views(out@) =~= reply_messages(order, bufs@.take(0)));
    while i < bufs.len()
        invariant
            i <= bufs.len(),
            netlink::message_views(out@) == reply_messages(order, bufs@.take(i as int)),
            forall|k: int| 0 <= k < out@.len() ==> (#[trigger] out@[k]).order == order,
        decreases bufs.len() - i,
    {
        proof {
            text::lemma_take_step(bufs@, i as int);
        }
        let mut more = netlink::payload_messages(order, bufs[i].as_slice());
        let ghost before = out@;
        let ghost added = more@;
        out.append(&mut more);
        assert(netlink::message_views(out@) =~= netlink::message_views(before)
            + netlink::message_views(added));
        assert forall|k: int| 0 <= k < out@.len() implies (#[trigger] out@[k]).order == order by {
            if k >= before.len() {
                assert(out@[k] == added[k - before.len()]);
            }
        }
        i += 1;
    }
    assert(bufs@.take(bufs@.len() as int) =~= bufs@);
    out
}

/// The devices that a list of messages describes, in order.
pub open spec fn devs_in(order: ByteOrder, ms: Seq<Message>) -> Seq<RdmaDevView>
    decreases ms.len(),
{
    if ms.len() == 0 {
        seq![]
    } else {
        let before = devs_in(order, ms.drop_last());
        match dev_in(order, netlink::attributes(order, ms.last().payload)) {
            Some(d) => before.push(d),
            None => before,
        }
    }
}

/// The request that asks the kernel for all RDMA devices.
pub fn device_request(order: ByteOrder) -> (r: Vec<u8>)
    ensures
        r@ == netlink::request(order, 0x1401, 0x305, 1, seq![]),
{
    proof {
        lemma_flags();
    }
    let b = NlMsgBuilder::with_order(
        order,
        rdma_nl_get_type(RDMA_NL_NLDEV, RDMA_NLDEV_CMD_GET),
        NLM_F_REQUEST | NLM_F_ACK | NLM_F_DUMP,
        1,
    );
    assert(b@ =~= netlink::header(order, 16, 0x1401, 0x305, 1) + netlink::u32_attrs(order, seq![]));
    b.build()
}

proof fn lemma_flags()
    ensures
        NLM_F_REQUEST | NLM_F_ACK | NLM_F_DUMP == 0x305,
        NLM_F_REQUEST | NLM_F_ACK == 5,
{
    assert(1u16 | 4u16 | 0x300u16 == 0x305u16) by (bit_vector);
    assert(1u16 | 4u16 == 5u16) by (bit_vector);
}

/// Reads the devices out of the reply to a device request.
pub fn enumerate_devices(order: ByteOrder, bufs: &[Vec<u8>]) -> (r: Vec<RdmaDev>)
    ensures
        lists::views(r@) == devs_in(order, reply_messages(order, bufs@)),
{
    let msgs = collect_messages(order, bufs);
    let ghost all = netlink::message_views(msgs@);
    let mut out: Vec<RdmaDev> = Vec::new();
    let mut i: usize = 0;
    assert(lists::views(out@) =~= devs_in(order, all.take(0)));
    while i < msgs.len()
        invariant
            i <= msgs.len(),
            all == netlink::message_views(msgs@),
            forall|k: int| 0 <= k < msgs@.len() ==> (#[trigger] msgs@[k]).order == order,
            lists::views(out@) == devs_in(order, all.take(i as int)),
        decreases msgs.len() - i,
    {
        proof {
            text::lemma_take_step(all, i as int);
            assert(msgs@[i as int]@ == all[i as int]);
        }
        if let Some(dev) = parse_dev(&msgs[i]) {
            proof {
                lists::lemma_views_push(out@, dev);
            }
            out.push(dev);
        }
        i += 1;
    }
    assert(all.take(all.len() as int) =~= all);
    out
}

/// The port snapshots that a list of messages describes, in order.
pub open spec fn stats_in(order: ByteOrder, ms: Seq<Message>) -> Seq<PortStatView>
    decreases ms.len(),
{
    if ms.len() == 0 {
        seq![]
    } else {
        let before = stats_in(order, ms.drop_last());
        match port_stat_in(order, netlink::attributes(order, ms.last().payload)) {
            Some(s) => before.push(s),
            None => before,
        }
    }
}

/// The request that asks the kernel for the counters of one port.
pub fn port_request(order: ByteOrder, dev_idx: u32, port: u32, seq: u32) -> (r: Vec<u8>)
    ensures
        r@ == netlink::request(
            order,
            0x1411,
            5,
            seq,
            seq![(RDMA_NLDEV_ATTR_DEV_INDEX, dev_idx), (RDMA_NLDEV_ATTR_PORT_INDEX, port)],
        ),
{
    proof {
        lemma_flags();
    }
    let b = NlMsgBuilder::with_order(
        order,
        rdma_nl_get_type(RDMA_NL_NLDEV, RDMA_NLDEV_CMD_STAT_GET),
        NLM_F_REQUEST | NLM_F_ACK,
        seq,
    ).put_u32(RDMA_NLDEV_ATTR_DEV_INDEX, dev_idx).put_u32(RDMA_NLDEV_ATTR_PORT_INDEX, port);
    proof {
        let attrs = seq![(RDMA_NLDEV_ATTR_DEV_INDEX, dev_idx)];
        netlink::lemma_u32_attrs_push(order, seq![], RDMA_NLDEV_ATTR_DEV_INDEX, dev_idx);
        netlink::lemma_u32_attrs_push(order, attrs, RDMA_NLDEV_ATTR_PORT_INDEX, port);
        assert(Seq::<(u16, u32)>::empty().push((RDMA_NLDEV_ATTR_DEV_INDEX, dev_idx)) =~= attrs);
        assert(attrs.push((RDMA_NLDEV_ATTR_PORT_INDEX, port)) =~= seq![
            (RDMA_NLDEV_ATTR_DEV_INDEX, dev_idx),
            (RDMA_NLDEV_ATTR_PORT_INDEX, port),
        ]);
        assert(b@ =~= netlink::header(order, 16, 0x1411, 5, seq) + netlink::u32_attrs(
            order,
            attrs.push((RDMA_NLDEV_ATTR_PORT_INDEX, port)),
        ));
    }
    b.build()
}

/// Parses the counters out of the reply to one port request.
pub fn query_port_stats(order: ByteOrder, bufs: &[Vec<u8>]) -> (r: Vec<PortStat>)
    ensures
        lists::views(r@) == stats_in(order, reply_messages(order, bufs@)),
{
    let msgs = collect_messages(order, bufs);
    let ghost all = netlink::message_views(msgs@);
    let mut out: Vec<PortStat> = Vec::new();
    let mut i: usize = 0;
    assert(lists::views(out@) =~= stats_in(order, all.take(0)));
    while i < msgs.len()
        invariant
            i <= msgs.len(),
            all == netlink::message_views(msgs@),
            forall|k: int| 0 <= k < msgs@.len() ==> (#[trigger] msgs@[k]).order == order,
            lists::views(out@) == stats_in(order, all.take(i as int)),
        decreases msgs.len() - i,
    {
        proof {
            text::lemma_take_step(all, i as int);
            assert(msgs@[i as int]@ == all[i as int]);
        }
        if let Some(stat) = parse_port_stat(&msgs[i]) {
            proof {
                lists::lemma_views_push(out@, stat);
            }
            out.push(stat);
        }
        i += 1;
    }
    assert(all.take(all.len() as int) =~= all);
    out
}

/// One port to query: the device index, the port and the sequence number.
#[derive(Clone, Copy, Debug, PartialEq, Eq, Structural)]
pub struct PortQuery {
    pub idx: u32,
    pub port: u32,
    pub seq: u32,
}

/// The position in a walk over every port of every device.
#[derive(Clone, Copy, Debug)]
pub struct PortWalk {
    dev: usize,
    port: u64,
    seq: u32,
}

/// The ports of one device from a port number on.
pub open spec fn ports_from(idx: u32, from: int, num_ports: u32) -> Seq<(u32, u32)> {
    Seq::new(
        if from <= num_ports {
            (num_ports - from + 1) as nat
        } else {
            0
        },
        |i: int| (idx, (from + i) as u32),
    )
}

/// Every port of every device: device by device, ports counted from one.
pub open spec fn all_ports(devs: Seq<RdmaDevView>) -> Seq<(u32, u32)>
    decreases devs.len(),
{
    if devs.len() == 0 {
        seq![]
    } else {
        ports_from(devs[0].idx, 1, devs[0].num_ports) + all_ports(devs.drop_first())
    }
}

impl PortWalk {
    /// The ports still to query, as device index and port.
    pub closed spec fn ahead(&self, devs: Seq<RdmaDevView>) -> Seq<(u32, u32)> {
        if self.dev < devs.len() {
            ports_from(devs[self.dev as int].idx, self.port as int, devs[self.dev as int].num_ports)
                + all_ports(devs.skip(self.dev + 1))
        } else {
            seq![]
        }
    }

    /// The sequence number of the next query.
    pub closed spec fn next_seq(&self) -> u32 {
        self.seq
    }

    /// Starts before the first port of the first device.
    pub fn new() -> (r: Self)
        ensures
            forall|devs: Seq<RdmaDevView>| #[trigger] r.ahead(devs) == all_ports(devs),
            r.next_seq() == 100,
    {
        let r = PortWalk { dev: 0, port: 1, seq: 100 };
        assert forall|devs: Seq<RdmaDevView>| #[trigger] r.ahead(devs) == all_ports(devs) by {
            if devs.len() > 0 {
                assert(devs.skip(1) =~= devs.drop_first());
            }
        }
        r
    }

    /// The next port to query; each query has the sequence number after the
    /// one before it.
    pub fn next(&mut self, devs: &[RdmaDev]) -> (r: Option<PortQuery>)
        ensures
            match r {
                Some(q) => {
                    let ahead = old(self).ahead(lists::views(devs@));
                    &&& ahead.len() > 0
                    &&& (q.idx, q.port) == ahead[0]
                    &&& q.seq == old(self).next_seq()
                    &&& final(self).ahead(lists::views(devs@)) == ahead.drop_first()
                    &&& final(self).next_seq() == (old(self).next_seq() + 1) % 0x1_0000_0000
                },
                None => old(self).ahead(lists::views(devs@)).len() == 0 && final(self).ahead(
                    lists::views(devs@),
                ).len() == 0,
            },
    {
        let ghost all = lists::views(devs@);
        let ghost start = self.ahead(all);
        let ghost seq0 = self.seq;
        while self.dev < devs.len()
            invariant
                all == lists::views(devs@),
                self.ahead(all) == start,
                self.seq == seq0,
                start == old(self).ahead(all),
                seq0 == old(self).next_seq(),
            decreases devs.len() - self.dev,
        {
            let ghost d = self.dev as int;
            assert(all[d] == devs@[d]@);
            let dev = &devs[self.dev];
            if self.port <= dev.num_ports as u64 {
                let q = PortQuery { idx: dev.idx, port: self.port as u32, seq: self.seq };
                let ghost here = ports_from(dev.idx, self.port as int, dev.num_ports);
                self.port = self.port + 1;
                self.seq = self.seq.wrapping_add(1);
                assert(here.drop_first() =~= ports_from(
                    dev.idx,
                    self.port as int,
                    dev.num_ports,
                ));
                assert(start =~= here + all_ports(all.skip(d + 1)));
                assert(start.drop_first() =~= here.drop_first() + all_ports(all.skip(d + 1)));
                return Some(q);
            }
            assert(self.ahead(all) =~= all_ports(all.skip(d + 1)));
            self.dev = self.dev + 1;
            self.port = 1;
            assert(self.ahead(all) =~= all_ports(all.skip(d + 1))) by {
                let left = all.skip(d + 1);
                if left.len() > 0 {
                    assert(left[0] == all[d + 1]);
                    assert(left.drop_first() =~= all.skip(d + 2));
                }
            }
        }
        None
    }
}

/// The replies of a list of queries; a query that failed has none.
pub open spec fn all_answered(replies: Seq<Option<Vec<Vec<u8>>>>) -> bool {
    forall|i: int| 0 <= i < replies.len() ==> #[trigger] replies[i] is Some
}

/// The port snapshots of all replies, in order.
pub open spec fn stats_of(order: ByteOrder, replies: Seq<Option<Vec<Vec<u8>>>>) -> Seq<PortStatView>
    decreases replies.len(),
{
    if replies.len() == 0 {
        seq![]
    } else {
        stats_of(order, replies.drop_last()) + (match replies.last() {
            Some(bufs) => stats_in(order, reply_messages(order, bufs@)),
            None => seq![],
        })
    }
}

/// All port counters out of the replies to the port requests. One failed
/// request fails the whole read.
pub fn read_all_stats(order: ByteOrder, replies: &[Option<Vec<Vec<u8>>>]) -> (r: Option<
    Vec<PortStat>,
>)
    ensures
        match r {
            Some(stats) => all_answered(replies@) && lists::views(stats@) == stats_of(
                order,
                replies@,
            ),
            None => !all_answered(replies@),
        },
{
    let mut all: Vec<PortStat> = Vec::new();
    let mut i: usize = 0;
    assert(lists::views(all@) =~= stats_of(order, replies@.take(0)));
    while i < replies.len()
        invariant
            i <= replies.len(),
            lists::views(all@) == stats_of(order, replies@.take(i as int)),
            forall|k: int| 0 <= k < i ==> #[trigger] replies@[k] is Some,
        decreases replies.len() - i,
    {
        proof {
            text::lemma_take_step(replies@, i as int);
        }
        match &replies[i] {
            Some(bufs) => {
                let mut more = query_port_stats(order, bufs.as_slice());
                let ghost before = all@;
                let ghost added = more@;
                all.append(&mut more);
                assert(lists::views(all@) =~= lists::views(before) + lists::views(added));
            },
            None => {
                assert(!(replies@[i as int] is Some));
                return None;
            },
        }
        i += 1;
    }
    assert(replies@.take(replies@.len() as int) =~= replies@);
    Some(all)
}

/// Queue pair info with device, PID, and process name.
#[derive(Debug)]
pub struct QpInfo {
    pub dev_name: String,
    pub lqpn: u32,
    pub qp_type: u8,
    pub state: u8,
    pub pid: u32,
    pub comm: String,
}

/// What a queue pair record holds.
pub struct QpInfoView {
    pub dev_name: Seq<char>,
    pub lqpn: u32,
    pub qp_type: u8,
    pub state: u8,
    pub pid: u32,
    pub comm: Seq<char>,
}

impl View for QpInfo {
    type V = QpInfoView;

    open spec fn view(&self) -> QpInfoView {
        QpInfoView {
            dev_name: self.dev_name@,
            lqpn: self.lqpn,
            qp_type: self.qp_type,
            state: self.state,
            pid: self.pid,
            comm: self.comm@,
        }
    }
}

impl Clone for QpInfo {
    fn clone(&self) -> (r: Self)
        ensures
            r@ == self@,
    {
        QpInfo {
            dev_name: self.dev_name.clone(),
            lqpn: self.lqpn,
            qp_type: self.qp_type,
            state: self.state,
            pid: self.pid,
            comm: self.comm.clone(),
        }
    }
}

/// A queue pair as the kernel lists it. The owner is named by the kernel, or
/// is the process with the given PID, whose name is not part of the reply.
#[derive(Debug)]
pub struct QpEntry {
    pub dev_name: String,
    pub lqpn: u32,
    pub qp_type: u8,
    pub state: u8,
    pub pid: u32,
    pub kern_name: Option<String>,
}

/// What a listed queue pair holds.
pub struct QpEntryView {
    pub dev_name: Seq<char>,
    pub lqpn: u32,
    pub qp_type: u8,
    pub state: u8,
    pub pid: u32,
    pub kern_name: Option<Seq<char>>,
}

impl View for QpEntry {
    type V = QpEntryView;

    open spec fn view(&self) -> QpEntryView {
        QpEntryView {
            dev_name: self.dev_name@,
            lqpn: self.lqpn,
            qp_type: self.qp_type,
            state: self.state,
            pid: self.pid,
            kern_name: lists::opt_text(self.kern_name),
        }
    }
}

/// The name that the kernel gives an owner: that of the last naming attribute,
/// unless a PID comes after it.
pub open spec fn kern_name_in(attrs: Seq<Attr>) -> Option<Seq<char>> {
    match last_such(
        attrs,
        |a: Attr|
            a.attr_type == RDMA_NLDEV_ATTR_RES_PID || a.attr_type == RDMA_NLDEV_ATTR_RES_KERN_NAME,
    ) {
        Some(a) => if a.attr_type == RDMA_NLDEV_ATTR_RES_KERN_NAME {
            Some(netlink::c_text(a.data))
        } else {
            None
        },
        None => None,
    }
}

/// The queue pair that an entry describes; none without a positive PID.
pub open spec fn qp_in(order: ByteOrder, dev_name: Seq<char>, attrs: Seq<Attr>) -> Option<
    QpEntryView,
> {
    let pid = u32_of(order, attrs, RDMA_NLDEV_ATTR_RES_PID, 0);
    if pid == 0 {
        None
    } else {
        Some(
            QpEntryView {
                dev_name,
                lqpn: u32_of(order, attrs, RDMA_NLDEV_ATTR_RES_LQPN, 0),
                qp_type: byte_of(attrs, RDMA_NLDEV_ATTR_RES_TYPE),
                state: byte_of(attrs, RDMA_NLDEV_ATTR_RES_STATE),
                pid,
                kern_name: kern_name_in(attrs),
            },
        )
    }
}

/// Reads the queue pair that an entry describes.
pub fn parse_single_qp(nla: &Nla, dev_name: &str) -> (r: Option<QpEntry>)
    ensures
        lists::opt_view(r) == qp_in(
            nla.order,
            dev_name@,
            netlink::attributes(nla.order, nla.data@),
        ),
{
    let attrs = nla.nested().collect();
    let ghost all = netlink::attr_views(attrs@);
    let mut lqpn: u32 = 0;
    let mut qp_type: u8 = 0;
    let mut state: u8 = 0;
    let mut pid: u32 = 0;
    let mut kern_name: Option<String> = None;
    let mut i: usize = 0;
    while i < attrs.len()
        invariant
            i <= attrs.len(),
            all == netlink::attr_views(attrs@),
            forall|k: int| 0 <= k < attrs@.len() ==> (#[trigger] attrs@[k]).order == nla.order,
            lqpn == u32_of(nla.order, all.take(i as int), RDMA_NLDEV_ATTR_RES_LQPN, 0),
            qp_type == byte_of(all.take(i as int), RDMA_NLDEV_ATTR_RES_TYPE),
            state == byte_of(all.take(i as int), RDMA_NLDEV_ATTR_RES_STATE),
            pid == u32_of(nla.order, all.take(i as int), RDMA_NLDEV_ATTR_RES_PID, 0),
            lists::opt_text(kern_name) == kern_name_in(all.take(i as int)),
        decreases attrs.len() - i,
    {
        proof {
            text::lemma_take_step(all, i as int);
        }
        let attr = &attrs[i];
        assert(attr@ == all[i as int]);
        if attr.attr_type == RDMA_NLDEV_ATTR_RES_LQPN {
            lqpn = attr.u32();
        } else if attr.attr_type == RDMA_NLDEV_ATTR_RES_TYPE {
            if attr.data.len() > 0 {
                qp_type = attr.u8();
            }
        } else if attr.attr_type == RDMA_NLDEV_ATTR_RES_STATE {
            if attr.data.len() > 0 {
                state = attr.u8();
            }
        } else if attr.attr_type == RDMA_NLDEV_ATTR_RES_PID {
            pid = attr.u32();
            kern_name = None;
        } else if attr.attr_type == RDMA_NLDEV_ATTR_RES_KERN_NAME {
            kern_name = Some(attr.str().to_owned());
        }
        i += 1;
    }
    assert(all.take(all.len() as int) =~= all);
    if pid > 0 {
        Some(QpEntry { dev_name: dev_name.to_owned(), lqpn, qp_type, state, pid, kern_name })
    } else {
        None
    }
}

/// The queue pairs of a table, in order.
pub open spec fn qp_table(order: ByteOrder, dev_name: Seq<char>, entries: Seq<Attr>) -> Seq<
    QpEntryView,
>
    decreases entries.len(),
{
    if entries.len() == 0 {
        seq![]
    } else {
        let before = qp_table(order, dev_name, entries.drop_last());
        if entries.last().attr_type == RDMA_NLDEV_ATTR_RES_QP_ENTRY {
            match qp_in(order, dev_name, netlink::attributes(order, entries.last().data)) {
                Some(qp) => before.push(qp),
                None => before,
            }
        } else {
            before
        }
    }
}

fn parse_qp_table(table: &Nla, dev_name: &str) -> (r: Vec<QpEntry>)
    ensures
        lists::views(r@) == qp_table(
            table.order,
            dev_name@,
            netlink::attributes(table.order, table.data@),
        ),
{
    let entries = table.nested().collect();
    let ghost all = netlink::attr_views(entries@);
    let mut out: Vec<QpEntry> = Vec::new();
    let mut i: usize = 0;
    assert(lists::views(out@) =~= qp_table(table.order, dev_name@, all.take(0)));
    while i < entries.len()
        invariant
            i <= entries.len(),
            all == netlink::attr_views(entries@),
            forall|k: int|
                0 <= k < entries@.len() ==> (#[trigger] entries@[k]).order == table.order,
            lists::views(out@) == qp_table(table.order, dev_name@, all.take(i as int)),
        decreases entries.len() - i,
    {
        proof {
            text::lemma_take_step(all, i as int);
        }
        let entry = &entries[i];
        assert(entry@ == all[i as int]);
        if entry.attr_type == RDMA_NLDEV_ATTR_RES_QP_ENTRY {
            if let Some(qp) = parse_single_qp(entry, dev_name) {
                proof {
                    lists::lemma_views_push(out@, qp);
                }
                out.push(qp);
            }
        }
        i += 1;
    }
    assert(all.take(all.len() as int) =~= all);
    out
}

/// The queue pairs that a message describes. A table belongs to the device
/// named last before it, or else to the device that was asked about.
pub open spec fn qps_in(order: ByteOrder, dev_name: Seq<char>, attrs: Seq<Attr>) -> Seq<QpEntryView>
    decreases attrs.len(),
{
    if attrs.len() == 0 {
        seq![]
    } else {
        let before = qps_in(order, dev_name, attrs.drop_last());
        if attrs.last().attr_type == RDMA_NLDEV_ATTR_RES_QP {
            let name = text_of(attrs.drop_last(), RDMA_NLDEV_ATTR_DEV_NAME, dev_name);
            before + qp_table(order, name, netlink::attributes(order, attrs.last().data))
        } else {
            before
        }
    }
}

/// Reads the queue pairs that a message describes.
pub fn parse_qp_response(nlmsg: &NlMsg, dev_name: &str) -> (r: Vec<QpEntry>)
    ensures
        lists::views(r@) == qps_in(
            nlmsg.order,
            dev_name@,
            netlink::attributes(nlmsg.order, nlmsg.payload@),
        ),
{
    let attrs = nlmsg.attrs().collect();
    let ghost all = netlink::attr_views(attrs@);
    let mut name = dev_name.to_owned();
    let mut qps: Vec<QpEntry> = Vec::new();
    let mut i: usize = 0;
    assert(lists::views(qps@) =~= qps_in(nlmsg.order, dev_name@, all.take(0)));
    while i < attrs.len()
        invariant
            i <= attrs.len(),
            all == netlink::attr_views(attrs@),
            forall|k: int| 0 <= k < attrs@.len() ==> (#[trigger] attrs@[k]).order == nlmsg.order,
            name@ == text_of(all.take(i as int), RDMA_NLDEV_ATTR_DEV_NAME, dev_name@),
            lists::views(qps@) == qps_in(nlmsg.order, dev_name@, all.take(i as int)),
        decreases attrs.len() - i,
    {
        proof {
            text::lemma_take_step(all, i as int);
        }
        let nla = &attrs[i];
        assert(nla@ == all[i as int]);
        if nla.attr_type == RDMA_NLDEV_ATTR_DEV_NAME {
            name = nla.str().to_owned();
        } else if nla.attr_type == RDMA_NLDEV_ATTR_RES_QP {
            let mut more = parse_qp_table(nla, name.as_str());
            let ghost before = qps@;
            let ghost added = more@;
            qps.append(&mut more);
            assert(lists::views(qps@) =~= lists::views(before) + lists::views(added));
        }
        i += 1;
    }
    assert(all.take(all.len() as int) =~= all);
    qps
}

/// The request that asks the kernel for the queue pairs of one device.
pub fn qp_request(order: ByteOrder, dev_idx: u32, seq: u32) -> (r: Vec<u8>)
    ensures
        r@ == netlink::request(
            order,
            0x140a,
            0x305,
            seq,
            seq![(RDMA_NLDEV_ATTR_DEV_INDEX, dev_idx)],
        ),
{
    proof {
        lemma_flags();
    }
    let b = NlMsgBuilder::with_order(
        order,
        rdma_nl_get_type(RDMA_NL_NLDEV, RDMA_NLDEV_CMD_RES_QP_GET),
        NLM_F_REQUEST | NLM_F_ACK | NLM_F_DUMP,
        seq,
    ).put_u32(RDMA_NLDEV_ATTR_DEV_INDEX, dev_idx);
    proof {
        let attrs = seq![(RDMA_NLDEV_ATTR_DEV_INDEX, dev_idx)];
        netlink::lemma_u32_attrs_push(order, seq![], RDMA_NLDEV_ATTR_DEV_INDEX, dev_idx);
        assert(Seq::<(u16, u32)>::empty().push((RDMA_NLDEV_ATTR_DEV_INDEX, dev_idx)) =~= attrs);
        assert(b@ =~= netlink::header(order, 16, 0x140a, 0x305, seq) + netlink::u32_attrs(
            order,
            attrs,
        ));
    }
    b.build()
}

/// The sequence number of the queue pair request of the `i`th device.
pub fn qp_seq(i: u32) -> (r: u32)
    ensures
        r == (200 + i) % 0x1_0000_0000,
{
    200u32.wrapping_add(i)
}

/// The queue pairs that a list of messages about one device describes.
pub open spec fn device_qps(order: ByteOrder, dev_name: Seq<char>, ms: Seq<Message>) -> Seq<
    QpEntryView,
>
    decreases ms.len(),
{
    if ms.len() == 0 {
        seq![]
    } else {
        device_qps(order, dev_name, ms.drop_last()) + qps_in(
            order,
            dev_name,
            netlink::attributes(order, ms.last().payload),
        )
    }
}

fn parse_device_qps(order: ByteOrder, dev_name: &str, bufs: &[Vec<u8>]) -> (r: Vec<QpEntry>)
    ensures
        lists::views(r@) == device_qps(order, dev_name@, reply_messages(order, bufs@)),
{
    let msgs = collect_messages(order, bufs);
    let ghost all = netlink::message_views(msgs@);
    let mut out: Vec<QpEntry> = Vec::new();
    let mut i: usize = 0;
    assert(lists::views(out@) =~= device_qps(order, dev_name@, all.take(0)));
    while i < msgs.len()
        invariant
            i <= msgs.len(),
            all == netlink::message_views(msgs@),
            forall|k: int| 0 <= k < msgs@.len() ==> (#[trigger] msgs@[k]).order == order,
            lists::views(out@) == device_qps(order, dev_name@, all.take(i as int)),
        decreases msgs.len() - i,
    {
        proof {
            text::lemma_take_step(all, i as int);
            assert(msgs@[i as int]@ == all[i as int]);
        }
        let mut more = parse_qp_response(&msgs[i], dev_name);
        let ghost before = out@;
        let ghost added = more@;
        out.append(&mut more);
        assert(lists::views(out@) =~= lists::views(before) + lists::views(added));
        i += 1;
    }
    assert(all.take(all.len() as int) =~= all);
    out
}

/// The queue pairs of all devices, in the order of the devices. A device whose
/// request failed has none.
pub open spec fn qps_of(
    order: ByteOrder,
    devs: Seq<RdmaDevView>,
    replies: Seq<Option<Vec<Vec<u8>>>>,
) -> Seq<QpEntryView>
    decreases replies.len(),
{
    if replies.len() == 0 {
        seq![]
    } else {
        let last = replies.len() - 1;
        qps_of(order, devs, replies.drop_last()) + (match replies.last() {
            Some(bufs) => device_qps(order, devs[last].name, reply_messages(order, bufs@)),
            None => seq![],
        })
    }
}

/// Lists the queue pairs out of the replies to the queue pair requests, one
/// reply for each device.
pub fn qp_entries(order: ByteOrder, devs: &[RdmaDev], replies: &[Option<Vec<Vec<u8>>>]) -> (r: Vec<
    QpEntry,
>)
    requires
        devs@.len() == replies@.len(),
    ensures
        lists::views(r@) == qps_of(order, lists::views(devs@), replies@),
{
    let ghost names = lists::views(devs@);
    let mut all: Vec<QpEntry> = Vec::new();
    let mut i: usize = 0;
    assert(lists::views(all@) =~= qps_of(order, names, replies@.take(0)));
    while i < replies.len()
        invariant
            i <= replies.len(),
            devs@.len() == replies@.len(),
            names == lists::views(devs@),
            lists::views(all@) == qps_of(order, names, replies@.take(i as int)),
        decreases replies.len() - i,
    {
        proof {
            text::lemma_take_step(replies@, i as int);
        }
        if let Some(bufs) = &replies[i] {
            let mut more = parse_device_qps(order, devs[i].name.as_str(), bufs.as_slice());
            let ghost before = all@;
            let ghost added = more@;
            all.append(&mut more);
            assert(lists::views(all@) =~= lists::views(before) + lists::views(added));
        } else {
            assert(lists::views(all@) =~= lists::views(all@) + seq![]);
        }
        i += 1;
    }
    assert(replies@.take(replies@.len() as int) =~= replies@);
    all
}

/// The text of `/proc/<pid>/comm` as it was read.
#[derive(Debug)]
pub struct ProcComm {
    pub pid: u32,
    pub text: String,
}

/// What was read of a process name.
pub struct ProcCommView {
    pub pid: u32,
    pub text: Seq<char>,
}

impl View for ProcComm {
    type V = ProcCommView;

    open spec fn view(&self) -> ProcCommView {
        ProcCommView { pid: self.pid, text: self.text@ }
    }
}

/// The name of a process: the text read for it without surrounding white
/// space, empty when nothing could be read.
pub open spec fn comm_of(comms: Seq<ProcCommView>, pid: u32) -> Seq<char>
    decreases comms.len(),
{
    if comms.len() == 0 {
        seq![]
    } else if comms[0].pid == pid {
        text::trimmed(comms[0].text)
    } else {
        comm_of(comms.drop_first(), pid)
    }
}

/// Looks up the name of a process.
pub fn read_proc_comm(comms: &[ProcComm], pid: u32) -> (r: String)
    ensures
        r@ == comm_of(lists::views(comms@), pid),
{
    let ghost all = lists::views(comms@);
    let mut i: usize = 0;
    assert(all.skip(0) =~= all);
    while i < comms.len()
        invariant
            i <= comms.len(),
            all == lists::views(comms@),
            comm_of(all, pid) == comm_of(all.skip(i as int), pid),
        decreases comms.len() - i,
    {
        assert(all.skip(i as int)[0] == comms@[i as int]@);
        if comms[i].pid == pid {
            return text::trim(comms[i].text.as_str());
        }
        assert(all.skip(i as int).drop_first() =~= all.skip(i + 1));
        i += 1;
    }
    String::new()
}

/// A listed queue pair with its owner named.
pub open spec fn named(e: QpEntryView, comms: Seq<ProcCommView>) -> QpInfoView {
    QpInfoView {
        dev_name: e.dev_name,
        lqpn: e.lqpn,
        qp_type: e.qp_type,
        state: e.state,
        pid: e.pid,
        comm: match e.kern_name {
            Some(n) => n,
            None => comm_of(comms, e.pid),
        },
    }
}

/// All queue pairs with their owners named.
pub open spec fn named_qps(entries: Seq<QpEntryView>, comms: Seq<ProcCommView>) -> Seq<QpInfoView> {
    Seq::new(entries.len(), |i: int| named(entries[i], comms))
}

/// Names the owners of listed queue pairs.
pub fn name_qps(entries: &[QpEntry], comms: &[ProcComm]) -> (r: Vec<QpInfo>)
    ensures
        lists::views(r@) == named_qps(lists::views(entries@), lists::views(comms@)),
{
    let ghost goal = named_qps(lists::views(entries@), lists::views(comms@));
    let mut out: Vec<QpInfo> = Vec::new();
    let mut i: usize = 0;
    assert(lists::views(out@) =~= goal.take(0));
    while i < entries.len()
        invariant
            i <= entries.len(),
            goal == named_qps(lists::views(entries@), lists::views(comms@)),
            lists::views(out@) == goal.take(i as int),
        decreases entries.len() - i,
    {
        let e = &entries[i];
        let comm = match &e.kern_name {
            Some(n) => n.clone(),
            None => read_proc_comm(comms, e.pid),
        };
        let qp = QpInfo {
            dev_name: e.dev_name.clone(),
            lqpn: e.lqpn,
            qp_type: e.qp_type,
            state: e.state,
            pid: e.pid,
            comm,
        };
        proof {
            lists::lemma_views_push(out@, qp);
            text::lemma_take_step(goal, i as int);
            assert(lists::views(entries@)[i as int] == e@);
            assert(goal[i as int] == qp@);
        }
        out.push(qp);
        i += 1;
    }
    assert(goal.take(goal.len() as int) =~= goal);
    out
}

/// All queue pairs with PID and device, out of the replies to the queue pair
/// requests and the process names that were read. A device whose request
/// failed is left out.
pub fn read_all_qps(
    order: ByteOrder,
    devs: &[RdmaDev],
    replies: &[Option<Vec<Vec<u8>>>],
    comms: &[ProcComm],
) -> (r: Vec<QpInfo>)
    requires
        devs@.len() == replies@.len(),
    ensures
        lists::views(r@) == named_qps(
            qps_of(order, lists::views(devs@), replies@),
            lists::views(comms@),
        ),
{
    let entries = qp_entries(order, devs, replies);
    name_qps(entries.as_slice(), comms)
}

/// Process info enriched with /proc data for htop-style display.
#[derive(Debug)]
pub struct ProcessRdmaInfo {
    pub pid: u32,
    pub dev_name: String,
    pub qp_count: usize,
    pub user: String,
    pub nice: i32,
    pub state: char,
    pub virt_kb: u64,
    pub res_kb: u64,
    pub shr_kb: u64,
    /// Memory of the machine, which the resident part is a share of.
    pub mem_total_kb: u64,
    pub threads: u32,
    pub cmdline: String,
}

/// What a process record holds.
pub struct ProcessRdmaInfoView {
    pub pid: u32,
    pub dev_name: Seq<char>,
    pub qp_count: int,
    pub user: Seq<char>,
    pub nice: i32,
    pub state: char,
    pub virt_kb: u64,
    pub res_kb: u64,
    pub shr_kb: u64,
    pub mem_total_kb: u64,
    pub threads: u32,
    pub cmdline: Seq<char>,
}

impl View for ProcessRdmaInfo {
    type V = ProcessRdmaInfoView;

    open spec fn view(&self) -> ProcessRdmaInfoView {
        ProcessRdmaInfoView {
            pid: self.pid,
            dev_name: self.dev_name@,
            qp_count: self.qp_count as int,
            user: self.user@,
            nice: self.nice,
            state: self.state,
            virt_kb: self.virt_kb,
            res_kb: self.res_kb,
            shr_kb: self.shr_kb,
            mem_total_kb: self.mem_total_kb,
            threads: self.threads,
            cmdline: self.cmdline@,
        }
    }
}

impl Clone for ProcessRdmaInfo {
    fn clone(&self) -> (r: Self)
        ensures
            r@ == self@,
    {
        ProcessRdmaInfo {
            pid: self.pid,
            dev_name: self.dev_name.clone(),
            qp_count: self.qp_count,
            user: self.user.clone(),
            nice: self.nice,
            state: self.state,
            virt_kb: self.virt_kb,
            res_kb: self.res_kb,
            shr_kb: self.shr_kb,
            mem_total_kb: self.mem_total_kb,
            threads: self.threads,
            cmdline: self.cmdline.clone(),
        }
    }
}

/// Raw fields from /proc/<pid>/stat
#[derive(Clone, Copy, Debug, PartialEq, Eq, Structural)]
pub struct ProcStat {
    pub state: char,
    pub nice: i32,
    pub vsize: u64,
    pub rss_pages: u64,
    pub num_threads: u32,
}

/// An unsigned field, or what stands for one that cannot be read.
pub open spec fn unsigned_or(s: Seq<char>, max: nat, absent: u64) -> u64 {
    match text::unsigned_value(s, max) {
        Some(v) => v as u64,
        None => absent,
    }
}

/// The fields of a process status line. The name in parentheses may hold
/// anything, so they are counted from the last closing parenthesis: state,
/// nice value, threads, virtual size and resident pages.
pub open spec fn proc_stat_in(data: Seq<char>) -> Option<ProcStat> {
    let parts = text::pieces(data, Some(')'));
    let fields = text::words(parts.last());
    if parts.len() < 2 || fields.len() < 22 {
        None
    } else {
        Some(
            ProcStat {
                state: fields[0][0],
                nice: match text::signed_value(fields[16]) {
                    Some(v) => v as i32,
                    None => 0,
                },
                num_threads: unsigned_or(fields[17], u32::MAX as nat, 1) as u32,
                vsize: unsigned_or(fields[20], u64::MAX as nat, 0),
                rss_pages: unsigned_or(fields[21], u64::MAX as nat, 0),
            },
        )
    }
}

/// No word is empty.
pub proof fn lemma_words_nonempty(v: Seq<Seq<char>>)
    ensures
        forall|i: int|
            0 <= i < text::nonempty(v).len() ==> (#[trigger] text::nonempty(v)[i]).len() > 0,
    decreases v.len(),
{
    if v.len() > 0 {
        lemma_words_nonempty(v.drop_last());
        let before = text::nonempty(v.drop_last());
        assert forall|i: int| 0 <= i < text::nonempty(v).len() implies (#[trigger] text::nonempty(
            v,
        )[i]).len() > 0 by {
            if i < before.len() {
                assert(text::nonempty(v)[i] == before[i]);
            }
        }
    }
}

fn parse_or(s: &str, max: u64, absent: u64) -> (r: u64)
    ensures
        r == unsigned_or(s@, max as nat, absent),
{
    match text::parse_unsigned(s, max) {
        Some(v) => v,
        None => absent,
    }
}

/// Reads the fields of a process status line.
pub fn read_proc_stat(data: &str) -> (r: Option<ProcStat>)
    ensures
        r == proc_stat_in(data@),
{
    let parts = text::split_pieces(data, Some(')'));
    let ghost spec_parts = text::pieces(data@, Some(')'));
    let n: usize = parts.len();
    assert(text::strings(parts@)[n - 1] == spec_parts.last());
    if n < 2 {
        return None;
    }
    let fields = text::split_words(parts[n - 1].as_str());
    let ghost words = text::words(spec_parts.last());
    if fields.len() < 22 {
        assert(text::strings(fields@).len() == fields@.len());
        return None;
    }
    proof {
        lemma_words_nonempty(text::pieces(spec_parts.last(), None));
        assert(text::strings(fields@) == words);
        assert(fields@[0]@ == words[0]);
        assert(fields@[16]@ == words[16]);
        assert(fields@[17]@ == words[17]);
        assert(fields@[20]@ == words[20]);
        assert(fields@[21]@ == words[21]);
    }
    let nice: i32 = match text::parse_i32(fields[16].as_str()) {
        Some(v) => v,
        None => 0,
    };
    Some(
        ProcStat {
            state: fields[0].as_str().get_char(0),
            nice,
            num_threads: parse_or(fields[17].as_str(), u32::MAX as u64, 1) as u32,
            vsize: parse_or(fields[20].as_str(), u64::MAX, 0),
            rss_pages: parse_or(fields[21].as_str(), u64::MAX, 0),
        },
    )
}

/// A number of four-kilobyte pages in kilobytes, in 64 bits.
pub open spec fn pages_to_kb(pages: u64) -> u64 {
    (pages * 4 % 0x1_0000_0000_0000_0000) as u64
}

fn kb_of_pages(pages: u64) -> (r: u64)
    ensures
        r == pages_to_kb(pages),
{
    pages.wrapping_mul(4)
}

/// The word at a place of a text as a number, or what stands for none.
pub open spec fn word_value(s: Seq<char>, i: int, max: nat, absent: u64) -> u64 {
    let words = text::words(s);
    if i < words.len() {
        unsigned_or(words[i], max, absent)
    } else {
        absent
    }
}

/// Reads the word at a place of a text as a number.
pub fn parse_word(s: &str, i: usize, max: u64, absent: u64) -> (r: u64)
    ensures
        r == word_value(s@, i as int, max as nat, absent),
{
    let words = text::split_words(s);
    assert(text::strings(words@).len() == words@.len());
    if i < words.len() {
        assert(text::strings(words@)[i as int] == words@[i as int]@);
        parse_or(words[i].as_str(), max, absent)
    } else {
        absent
    }
}

/// The shared memory of a process in kilobytes, from `/proc/<pid>/statm`.
pub fn read_proc_shr_kb(statm: &str) -> (r: u64)
    ensures
        r == pages_to_kb(word_value(statm@, 2, u64::MAX as nat, 0)),
{
    kb_of_pages(parse_word(statm, 2, u64::MAX, 0))
}

/// The first line that begins with a label.
pub open spec fn labelled_line(lines: Seq<Seq<char>>, label: Seq<char>) -> Option<Seq<char>>
    decreases lines.len(),
{
    if lines.len() == 0 {
        None
    } else if text::has_prefix(lines[0], label) {
        Some(lines[0])
    } else {
        labelled_line(lines.drop_first(), label)
    }
}

/// The number after a label, on the first line that begins with it.
pub open spec fn labelled_value(s: Seq<char>, label: Seq<char>, max: nat, absent: u64) -> u64 {
    match labelled_line(text::text_lines(s), label) {
        Some(line) => word_value(line, 1, max, absent),
        None => absent,
    }
}

fn read_labelled(s: &str, label: &str, max: u64, absent: u64) -> (r: u64)
    ensures
        r == labelled_value(s@, label@, max as nat, absent),
{
    let lines = text::split_lines(s);
    let ghost all = text::strings(lines@);
    let mut i: usize = 0;
    assert(all.skip(0) =~= all);
    while i < lines.len()
        invariant
            i <= lines.len(),
            all == text::strings(lines@),
            all == text::text_lines(s@),
            labelled_line(all, label@) == labelled_line(all.skip(i as int), label@),
        decreases lines.len() - i,
    {
        assert(all.skip(i as int)[0] == lines@[i as int]@);
        if text::starts_with(lines[i].as_str(), label) {
            return parse_word(lines[i].as_str(), 1, max, absent);
        }
        assert(all.skip(i as int).drop_first() =~= all.skip(i + 1));
        i += 1;
    }
    absent
}

/// The user of a process, from `/proc/<pid>/status`.
pub fn read_proc_uid(status: &str) -> (r: u32)
    ensures
        r == labelled_value(status@, "Uid:"@, u32::MAX as nat, 0),
{
    let v: u64 = read_labelled(status, "Uid:", u32::MAX as u64, 0);
    proof {
        lemma_labelled_bound(status@, "Uid:"@);
    }
    v as u32
}

proof fn lemma_labelled_bound(s: Seq<char>, label: Seq<char>)
    ensures
        labelled_value(s, label, u32::MAX as nat, 0) <= u32::MAX,
{
}

/// The memory of the machine in kilobytes, from `/proc/meminfo`; one when it
/// is not given.
pub fn total_memory_kb(meminfo: &str) -> (r: u64)
    ensures
        r == labelled_value(meminfo@, "MemTotal:"@, u64::MAX as nat, 1),
{
    read_labelled(meminfo, "MemTotal:", u64::MAX, 1)
}

/// The name on the first account line whose third field is an id; the id
/// itself when there is none.
pub open spec fn account_name(lines: Seq<Seq<char>>, id: Seq<char>) -> Seq<char>
    decreases lines.len(),
{
    if lines.len() == 0 {
        id
    } else {
        let fields = text::pieces(lines[0], Some(':'));
        if fields.len() > 2 && fields[2] == id {
            fields[0]
        } else {
            account_name(lines.drop_first(), id)
        }
    }
}

/// The account name of a user, from `/etc/passwd`.
pub fn uid_to_name(passwd: &str, uid: u32) -> (r: String)
    ensures
        r@ == account_name(text::text_lines(passwd@), text::decimal(uid as nat)),
{
    let id = text::decimal_u64(uid as u64);
    let lines = text::split_lines(passwd);
    let ghost all = text::strings(lines@);
    let mut i: usize = 0;
    assert(all.skip(0) =~= all);
    while i < lines.len()
        invariant
            i <= lines.len(),
            all == text::strings(lines@),
            all == text::text_lines(passwd@),
            id@ == text::decimal(uid as nat),
            account_name(all, id@) == account_name(all.skip(i as int), id@),
        decreases lines.len() - i,
    {
        assert(all.skip(i as int)[0] == lines@[i as int]@);
        let fields = text::split_pieces(lines[i].as_str(), Some(':'));
        assert(text::strings(fields@).len() == fields@.len());
        if fields.len() > 2 {
            assert(text::strings(fields@)[2] == fields@[2]@);
            if fields[2] == id {
                assert(text::strings(fields@)[0] == fields@[0]@);
                return fields[0].clone();
            }
        }
        assert(all.skip(i as int).drop_first() =~= all.skip(i + 1));
        i += 1;
    }
    id
}

/// The command line of a process as one text.
pub fn read_proc_cmdline(raw: &str) -> (r: String)
    ensures
        r@ == text::trimmed(text::replaced(raw@, '\0', ' ')),
{
    let spaced = text::replace_char(raw, '\0', ' ');
    text::trim(spaced.as_str())
}

/// State, nice value, virtual and resident kilobytes and threads of a process;
/// placeholders when its status could not be read.
pub open spec fn mem_stats(ps: Option<ProcStat>) -> (char, i32, u64, u64, u32) {
    match ps {
        Some(s) => (s.state, s.nice, s.vsize / 1024, pages_to_kb(s.rss_pages), s.num_threads),
        None => ('?', 0, 0, 0, 0),
    }
}

/// The figures shown for a process.
pub fn proc_mem_stats(ps: &Option<ProcStat>) -> (r: (char, i32, u64, u64, u32))
    ensures
        r == mem_stats(*ps),
{
    match ps {
        Some(s) => (s.state, s.nice, s.vsize / 1024, kb_of_pages(s.rss_pages), s.num_threads),
        None => ('?', 0, 0, 0, 0),
    }
}

/// The owner of a process; a question mark when nothing of it could be read.
pub open spec fn user_of(passwd: Seq<char>, uid: u32, known: bool) -> Seq<char> {
    if uid > 0 || known {
        account_name(text::text_lines(passwd), text::decimal(uid as nat))
    } else {
        "?"@
    }
}

/// Names the owner of a process.
pub fn resolve_user(passwd: &str, uid: u32, ps: &Option<ProcStat>) -> (r: String)
    ensures
        r@ == user_of(passwd@, uid, ps is Some),
{
    if uid > 0 || ps.is_some() {
        uid_to_name(passwd, uid)
    } else {
        "?".to_owned()
    }
}

/// The command line of a process, or its name when that is empty.
pub open spec fn command_of(raw: Seq<char>, comm: Seq<char>) -> Seq<char> {
    let line = text::trimmed(text::replaced(raw, '\0', ' '));
    if line.len() > 0 {
        line
    } else {
        comm
    }
}

/// Picks the text shown as the command of a process.
pub fn resolve_cmdline(raw: &str, comm: &str) -> (r: String)
    ensures
        r@ == command_of(raw@, comm@),
{
    let line = read_proc_cmdline(raw);
    if line.as_str().unicode_len() > 0 {
        line
    } else {
        comm.to_owned()
    }
}

/// The files of one process under `/proc` as they were read, each empty when
/// it could not be.
#[derive(Debug)]
pub struct ProcFiles {
    pub pid: u32,
    pub stat: String,
    pub statm: String,
    pub status: String,
    pub cmdline: String,
}

/// What was read of a process.
pub struct ProcFilesView {
    pub pid: u32,
    pub stat: Seq<char>,
    pub statm: Seq<char>,
    pub status: Seq<char>,
    pub cmdline: Seq<char>,
}

impl View for ProcFiles {
    type V = ProcFilesView;

    open spec fn view(&self) -> ProcFilesView {
        ProcFilesView {
            pid: self.pid,
            stat: self.stat@,
            statm: self.statm@,
            status: self.status@,
            cmdline: self.cmdline@,
        }
    }
}

/// The files that were read for a process; all empty when none were.
pub open spec fn files_of(files: Seq<ProcFilesView>, pid: u32) -> ProcFilesView
    decreases files.len(),
{
    if files.len() == 0 {
        ProcFilesView { pid, stat: seq![], statm: seq![], status: seq![], cmdline: seq![] }
    } else if files[0].pid == pid {
        files[0]
    } else {
        files_of(files.drop_first(), pid)
    }
}

/// The queue pairs of one process on one device.
pub struct QpTally {
    pub pid: u32,
    pub dev_name: String,
    pub comm: String,
    pub qp_count: usize,
}

/// What a tally holds.
pub struct QpTallyView {
    pub pid: u32,
    pub dev_name: Seq<char>,
    pub comm: Seq<char>,
    pub qp_count: int,
}

impl View for QpTally {
    type V = QpTallyView;

    open spec fn view(&self) -> QpTallyView {
        QpTallyView {
            pid: self.pid,
            dev_name: self.dev_name@,
            comm: self.comm@,
            qp_count: self.qp_count as int,
        }
    }
}

/// A process with its queue pairs counted and its files evaluated.
pub open spec fn enriched(
    t: QpTallyView,
    files: Seq<ProcFilesView>,
    passwd: Seq<char>,
    meminfo: Seq<char>,
) -> ProcessRdmaInfoView {
    let f = files_of(files, t.pid);
    let ps = proc_stat_in(f.stat);
    let m = mem_stats(ps);
    ProcessRdmaInfoView {
        pid: t.pid,
        dev_name: t.dev_name,
        qp_count: t.qp_count,
        user: user_of(
            passwd,
            labelled_value(f.status, "Uid:"@, u32::MAX as nat, 0) as u32,
            ps is Some,
        ),
        nice: m.1,
        state: m.0,
        virt_kb: m.2,
        res_kb: m.3,
        shr_kb: pages_to_kb(word_value(f.statm, 2, u64::MAX as nat, 0)),
        mem_total_kb: labelled_value(meminfo, "MemTotal:"@, u64::MAX as nat, 1),
        threads: m.4,
        cmdline: command_of(f.cmdline, t.comm),
    }
}

fn find_files(files: &[ProcFiles], pid: u32) -> (r: Option<&ProcFiles>)
    ensures
        match r {
            Some(f) => f@ == files_of(lists::views(files@), pid),
            None => files_of(lists::views(files@), pid) == (ProcFilesView {
                pid,
                stat: seq![],
                statm: seq![],
                status: seq![],
                cmdline: seq![],
            }),
        },
{
    let ghost all = lists::views(files@);
    let mut i: usize = 0;
    assert(all.skip(0) =~= all);
    while i < files.len()
        invariant
            i <= files.len(),
            all == lists::views(files@),
            files_of(all, pid) == files_of(all.skip(i as int), pid),
        decreases files.len() - i,
    {
        assert(all.skip(i as int)[0] == files@[i as int]@);
        if files[i].pid == pid {
            return Some(&files[i]);
        }
        assert(all.skip(i as int).drop_first() =~= all.skip(i + 1));
        i += 1;
    }
    None
}

/// Evaluates the files of a process.
pub fn enrich_process(
    tally: &QpTally,
    files: &[ProcFiles],
    passwd: &str,
    meminfo: &str,
) -> (r: ProcessRdmaInfo)
    ensures
        r@ == enriched(tally@, lists::views(files@), passwd@, meminfo@),
{
    let nothing = ProcFiles {
        pid: tally.pid,
        stat: String::new(),
        statm: String::new(),
        status: String::new(),
        cmdline: String::new(),
    };
    let f: &ProcFiles = match find_files(files, tally.pid) {
        Some(f) => f,
        None => &nothing,
    };
    let ps = read_proc_stat(f.stat.as_str());
    let (state, nice, virt_kb, res_kb, threads) = proc_mem_stats(&ps);
    let uid: u32 = read_proc_uid(f.status.as_str());
    ProcessRdmaInfo {
        pid: tally.pid,
        dev_name: tally.dev_name.clone(),
        qp_count: tally.qp_count,
        user: resolve_user(passwd, uid, &ps),
        nice,
        state,
        virt_kb,
        res_kb,
        shr_kb: read_proc_shr_kb(f.statm.as_str()),
        mem_total_kb: total_memory_kb(meminfo),
        threads,
        cmdline: resolve_cmdline(f.cmdline.as_str(), tally.comm.as_str()),
    }
}

/// Where the tally of a process on a device stands.
pub open spec fn tally_index(t: Seq<QpTallyView>, pid: u32, dev_name: Seq<char>) -> Option<int>
    decreases t.len(),
{
    if t.len() == 0 {
        None
    } else if t.last().pid == pid && t.last().dev_name == dev_name {
        Some(t.len() - 1)
    } else {
        tally_index(t.drop_last(), pid, dev_name)
    }
}

/// The queue pairs of each process on each device, counted in the order in
/// which they first appear. Queue pairs of the kernel have no process.
pub open spec fn tallied(qps: Seq<QpInfoView>) -> Seq<QpTallyView>
    decreases qps.len(),
{
    if qps.len() == 0 {
        seq![]
    } else {
        let before = tallied(qps.drop_last());
        let qp = qps.last();
        if qp.pid == 0 {
            before
        } else {
            match tally_index(before, qp.pid, qp.dev_name) {
                Some(i) => before.update(
                    i,
                    QpTallyView { qp_count: before[i].qp_count + 1, ..before[i] },
                ),
                None => before.push(
                    QpTallyView { pid: qp.pid, dev_name: qp.dev_name, comm: qp.comm, qp_count: 1 },
                ),
            }
        }
    }
}

proof fn lemma_tally_index(t: Seq<QpTallyView>, pid: u32, dev_name: Seq<char>)
    ensures
        match tally_index(t, pid, dev_name) {
            Some(i) => 0 <= i < t.len() && t[i].pid == pid && t[i].dev_name == dev_name,
            None => forall|i: int|
                0 <= i < t.len() ==> !((#[trigger] t[i]).pid == pid && t[i].dev_name == dev_name),
        },
    decreases t.len(),
{
    if t.len() > 0 && !(t.last().pid == pid && t.last().dev_name == dev_name) {
        lemma_tally_index(t.drop_last(), pid, dev_name);
        if tally_index(t, pid, dev_name) is None {
            assert forall|i: int| 0 <= i < t.len() implies !((#[trigger] t[i]).pid == pid
                && t[i].dev_name == dev_name) by {
                if i < t.len() - 1 {
                    assert(t[i] == t.drop_last()[i]);
                }
            }
        }
    }
}

fn find_tally(t: &[QpTally], pid: u32, dev_name: &str) -> (r: Option<usize>)
    ensures
        match tally_index(lists::views(t@), pid, dev_name@) {
            Some(i) => r is Some && r->0 == i && i < t@.len(),
            None => r is None,
        },
{
    let ghost all = lists::views(t@);
    let mut i: usize = t.len();
    assert(all.take(i as int) =~= all);
    while i > 0
        invariant
            i <= t.len(),
            all == lists::views(t@),
            tally_index(all, pid, dev_name@) == tally_index(all.take(i as int), pid, dev_name@),
        decreases i,
    {
        proof {
            text::lemma_take_step(all, i - 1);
            assert(all[i - 1] == t@[i - 1]@);
        }
        if t[i - 1].pid == pid && text::same(t[i - 1].dev_name.as_str(), dev_name) {
            return Some(i - 1);
        }
        i -= 1;
    }
    None
}

/// Counts the queue pairs of each process on each device.
pub fn tally(qps: &[QpInfo]) -> (r: Vec<QpTally>)
    ensures
        lists::views(r@) == tallied(lists::views(qps@)),
{
    let ghost all = lists::views(qps@);
    let mut out: Vec<QpTally> = Vec::new();
    let mut i: usize = 0;
    assert(lists::views(out@) =~= tallied(all.take(0)));
    while i < qps.len()
        invariant
            i <= qps.len(),
            all == lists::views(qps@),
            lists::views(out@) == tallied(all.take(i as int)),
            forall|k: int| 0 <= k < out@.len() ==> (#[trigger] out@[k]).qp_count <= i,
        decreases qps.len() - i,
    {
        proof {
            text::lemma_take_step(all, i as int);
            assert(all[i as int] == qps@[i as int]@);
        }
        let qp = &qps[i];
        if qp.pid != 0 {
            let ghost before = lists::views(out@);
            match find_tally(out.as_slice(), qp.pid, qp.dev_name.as_str()) {
                Some(k) => {
                    assert(before[k as int] == out@[k as int]@);
                    let more = QpTally {
                        pid: out[k].pid,
                        dev_name: out[k].dev_name.clone(),
                        comm: out[k].comm.clone(),
                        qp_count: out[k].qp_count + 1,
                    };
                    let ghost held = out@;
                    out.set(k, more);
                    assert(lists::views(out@) =~= before.update(k as int, more@));
                    assert forall|j: int| 0 <= j < out@.len() implies (#[trigger] out@[j]).qp_count
                        <= i + 1 by {
                        if j != k {
                            assert(out@[j] == held[j]);
                        }
                    }
                },
                None => {
                    let first = QpTally {
                        pid: qp.pid,
                        dev_name: qp.dev_name.clone(),
                        comm: qp.comm.clone(),
                        qp_count: 1,
                    };
                    proof {
                        lists::lemma_views_push(out@, first);
                    }
                    out.push(first);
                },
            }
        }
        i += 1;
    }
    assert(all.take(all.len() as int) =~= all);
    out
}

/// The queue pairs that belong to a process.
pub open spec fn owned_count(qps: Seq<QpInfoView>) -> int
    decreases qps.len(),
{
    if qps.len() == 0 {
        0
    } else {
        owned_count(qps.drop_last()) + if qps.last().pid != 0 {
            1int
        } else {
            0
        }
    }
}

/// The sum of all counts.
pub open spec fn counted(t: Seq<QpTallyView>) -> int
    decreases t.len(),
{
    if t.len() == 0 {
        0
    } else {
        counted(t.drop_last()) + t.last().qp_count
    }
}

proof fn lemma_counted_update(t: Seq<QpTallyView>, i: int, x: QpTallyView)
    requires
        0 <= i < t.len(),
    ensures
        counted(t.update(i, x)) == counted(t) - t[i].qp_count + x.qp_count,
    decreases t.len(),
{
    let u = t.update(i, x);
    if i == t.len() - 1 {
        assert(u.drop_last() =~= t.drop_last());
    } else {
        assert(u.drop_last() =~= t.drop_last().update(i, x));
        assert(t.drop_last()[i] == t[i]);
        lemma_counted_update(t.drop_last(), i, x);
    }
}

/// Every queue pair of a process is counted exactly once, and a process has
/// one count for each device.
pub proof fn law_tally_counts_each_once(qps: Seq<QpInfoView>)
    ensures
        counted(tallied(qps)) == owned_count(qps),
        forall|i: int, j: int|
            #![trigger tallied(qps)[i], tallied(qps)[j]]
            0 <= i < j < tallied(qps).len() ==> !(tallied(qps)[i].pid == tallied(qps)[j].pid
                && tallied(qps)[i].dev_name == tallied(qps)[j].dev_name),
    decreases qps.len(),
{
    if qps.len() > 0 {
        law_tally_counts_each_once(qps.drop_last());
        let before = tallied(qps.drop_last());
        let qp = qps.last();
        if qp.pid != 0 {
            lemma_tally_index(before, qp.pid, qp.dev_name);
            match tally_index(before, qp.pid, qp.dev_name) {
                Some(k) => {
                    lemma_counted_update(
                        before,
                        k,
                        QpTallyView { qp_count: before[k].qp_count + 1, ..before[k] },
                    );
                },
                None => {
                    let first = QpTallyView {
                        pid: qp.pid,
                        dev_name: qp.dev_name,
                        comm: qp.comm,
                        qp_count: 1,
                    };
                    assert(before.push(first).drop_last() =~= before);
                },
            }
        }
    }
}

impl lists::Ordered for ProcessRdmaInfo {
    /// More queue pairs first, then the smaller PID.
    open spec fn less(a: ProcessRdmaInfoView, b: ProcessRdmaInfoView) -> bool {
        a.qp_count > b.qp_count || (a.qp_count == b.qp_count && a.pid < b.pid)
    }

    fn before(&self, other: &Self) -> (r: bool) {
        self.qp_count > other.qp_count || (self.qp_count == other.qp_count && self.pid < other.pid)
    }
}

/// Every process with its queue pairs, before they are put in order.
pub open spec fn processes_of(
    qps: Seq<QpInfoView>,
    files: Seq<ProcFilesView>,
    passwd: Seq<char>,
    meminfo: Seq<char>,
) -> Seq<ProcessRdmaInfoView> {
    Seq::new(
        tallied(qps).len(),
        |i: int| enriched(tallied(qps)[i], files, passwd, meminfo),
    )
}

/// Whether processes stand by falling count of queue pairs, and those with the
/// same count by rising PID.
pub open spec fn busiest_first(procs: Seq<ProcessRdmaInfoView>) -> bool {
    forall|i: int, j: int|
        #![trigger procs[i], procs[j]]
        0 <= i < j < procs.len() ==> procs[i].qp_count > procs[j].qp_count || (procs[i].qp_count
            == procs[j].qp_count && procs[i].pid <= procs[j].pid)
}

proof fn lemma_busiest_first(procs: Seq<ProcessRdmaInfoView>)
    requires
        lists::in_order::<ProcessRdmaInfo>(procs),
    ensures
        busiest_first(procs),
    decreases procs.len(),
{
    if procs.len() > 1 {
        let front = procs.drop_last();
        let n = procs.len() - 1;
        assert(lists::in_order::<ProcessRdmaInfo>(front)) by {
            assert(forall|i: int| 0 <= i < front.len() ==> #[trigger] front[i] == procs[i]);
        }
        lemma_busiest_first(front);
        assert(!<ProcessRdmaInfo as lists::Ordered>::less(procs[n], procs[n - 1]));
        assert forall|i: int, j: int|
            #![trigger procs[i], procs[j]]
            0 <= i < j < procs.len() implies procs[i].qp_count > procs[j].qp_count || (
        procs[i].qp_count == procs[j].qp_count && procs[i].pid <= procs[j].pid) by {
            if j < n {
                assert(front[i] == procs[i] && front[j] == procs[j]);
            } else if i < n - 1 {
                assert(front[i] == procs[i] && front[n - 1] == procs[n - 1]);
            }
        }
    }
}

/// Aggregate QPs by (pid, device), enriched with what was read under `/proc`.
pub fn aggregate_by_process(
    qps: &[QpInfo],
    files: &[ProcFiles],
    passwd: &str,
    meminfo: &str,
) -> (r: Vec<ProcessRdmaInfo>)
    ensures
        lists::views(r@) == lists::sorted::<ProcessRdmaInfo>(
            processes_of(lists::views(qps@), lists::views(files@), passwd@, meminfo@),
        ),
        lists::views(r@).to_multiset() == processes_of(
            lists::views(qps@),
            lists::views(files@),
            passwd@,
            meminfo@,
        ).to_multiset(),
        busiest_first(lists::views(r@)),
{
    let counts = tally(qps);
    let ghost goal = processes_of(lists::views(qps@), lists::views(files@), passwd@, meminfo@);
    let mut out: Vec<ProcessRdmaInfo> = Vec::new();
    let mut i: usize = 0;
    assert(lists::views(out@) =~= goal.take(0));
    while i < counts.len()
        invariant
            i <= counts.len(),
            goal == processes_of(lists::views(qps@), lists::views(files@), passwd@, meminfo@),
            lists::views(counts@) == tallied(lists::views(qps@)),
            lists::views(out@) == goal.take(i as int),
        decreases counts.len() - i,
    {
        let p = enrich_process(&counts[i], files, passwd, meminfo);
        proof {
            lists::lemma_views_push(out@, p);
            text::lemma_take_step(goal, i as int);
            assert(lists::views(counts@)[i as int] == counts@[i as int]@);
        }
        out.push(p);
        i += 1;
    }
    assert(goal.take(goal.len() as int) =~= goal);
    let r = lists::sort(out);
    proof {
        lists::law_sorting_keeps_records::<ProcessRdmaInfo>(goal);
        lemma_busiest_first(lists::views(r@));
    }
    r
}

/// The queue pairs of a reply are those of its data messages one after the
/// other: what arrives later adds to what came before and replaces none of it.
pub proof fn law_device_qps_concatenate(
    order: ByteOrder,
    dev_name: Seq<char>,
    a: Seq<Message>,
    b: Seq<Message>,
)
    ensures
        device_qps(order, dev_name, a + b) == device_qps(order, dev_name, a) + device_qps(
            order,
            dev_name,
            b,
        ),
        device_qps(order, dev_name, a + b).len() == device_qps(order, dev_name, a).len()
            + device_qps(order, dev_name, b).len(),
    decreases b.len(),
{
    if b.len() == 0 {
        assert(a + b =~= a);
        assert(device_qps(order, dev_name, b) =~= seq![]);
    } else {
        law_device_qps_concatenate(order, dev_name, a, b.drop_last());
        assert((a + b).drop_last() =~= a + b.drop_last());
        assert((a + b).last() == b.last());
        assert(device_qps(order, dev_name, a + b) =~= device_qps(order, dev_name, a) + device_qps(
            order,
            dev_name,
            b,
        ));
    }
}

/// The queue pairs of a single message are those of its attributes, and no
/// message has none.
pub proof fn law_device_qps_of_one_message(order: ByteOrder, dev_name: Seq<char>, m: Message)
    ensures
        device_qps(order, dev_name, seq![]) == Seq::<QpEntryView>::empty(),
        device_qps(order, dev_name, seq![m]) == qps_in(
            order,
            dev_name,
            netlink::attributes(order, m.payload),
        ),
{
    assert(seq![m].drop_last() =~= seq![]);
    assert(device_qps(order, dev_name, seq![]) =~= Seq::<QpEntryView>::empty());
    assert(device_qps(order, dev_name, seq![m]) =~= qps_in(
        order,
        dev_name,
        netlink::attributes(order, m.payload),
    ));
}

/// How many queue pairs the messages from `i` on hold, each message on its own.
pub open spec fn qps_held(
    order: ByteOrder,
    dev_name: Seq<char>,
    ms: Seq<Message>,
    i: int,
) -> nat
    decreases ms.len() - i,
{
    if 0 <= i < ms.len() {
        qps_in(order, dev_name, netlink::attributes(order, ms[i].payload)).len() + qps_held(
            order,
            dev_name,
            ms,
            i + 1,
        )
    } else {
        0
    }
}

proof fn lemma_qps_held(order: ByteOrder, dev_name: Seq<char>, ms: Seq<Message>, i: int)
    requires
        0 <= i <= ms.len(),
    ensures
        device_qps(order, dev_name, ms.skip(i)).len() == qps_held(order, dev_name, ms, i),
    decreases ms.len() - i,
{
    if i < ms.len() {
        lemma_qps_held(order, dev_name, ms, i + 1);
        law_device_qps_concatenate(order, dev_name, seq![ms[i]], ms.skip(i + 1));
        law_device_qps_of_one_message(order, dev_name, ms[i]);
        assert(ms.skip(i) =~= seq![ms[i]] + ms.skip(i + 1));
    } else {
        assert(ms.skip(i) =~= seq![]);
    }
}

/// A reply holds as many queue pairs as its messages do together.
pub proof fn law_no_qp_is_lost(order: ByteOrder, dev_name: Seq<char>, ms: Seq<Message>)
    ensures
        device_qps(order, dev_name, ms).len() == qps_held(order, dev_name, ms, 0),
{
    lemma_qps_held(order, dev_name, ms, 0);
    assert(ms.skip(0) =~= ms);
}

/// The entries of a queue pair table are read one after the other; an entry
/// without an owning process, and what is no entry, adds nothing.
pub proof fn law_qp_table_concatenates(
    order: ByteOrder,
    dev_name: Seq<char>,
    a: Seq<Attr>,
    b: Seq<Attr>,
)
    ensures
        qp_table(order, dev_name, a + b) == qp_table(order, dev_name, a) + qp_table(
            order,
            dev_name,
            b,
        ),
    decreases b.len(),
{
    if b.len() == 0 {
        assert(a + b =~= a);
        assert(qp_table(order, dev_name, b) =~= seq![]);
    } else {
        law_qp_table_concatenates(order, dev_name, a, b.drop_last());
        assert((a + b).drop_last() =~= a + b.drop_last());
        assert((a + b).last() == b.last());
    }
    assert(qp_table(order, dev_name, a + b) =~= qp_table(order, dev_name, a) + qp_table(
        order,
        dev_name,
        b,
    ));
}

/// One entry of a queue pair table gives one queue pair, or none.
pub proof fn law_qp_table_of_one_entry(order: ByteOrder, dev_name: Seq<char>, entry: Attr)
    ensures
        entry.attr_type != 20 ==> qp_table(order, dev_name, seq![entry]) == Seq::<
            QpEntryView,
        >::empty(),
        entry.attr_type == 20 ==> qp_table(order, dev_name, seq![entry]) == (match qp_in(
            order,
            dev_name,
            netlink::attributes(order, entry.data),
        ) {
            Some(qp) => seq![qp],
            None => seq![],
        }),
{
    assert(seq![entry].drop_last() =~= seq![]);
    assert(qp_table(order, dev_name, seq![]) =~= seq![]);
    assert(qp_table(order, dev_name, seq![entry]) =~= (if entry.attr_type == 20 {
        match qp_in(order, dev_name, netlink::attributes(order, entry.data)) {
            Some(qp) => seq![qp],
            None => seq![],
        }
    } else {
        seq![]
    }));
}

/// A table after other attributes adds its entries, under the device name that
/// stood last before it; any other attribute adds no queue pair.
pub proof fn law_each_qp_table_counts(
    order: ByteOrder,
    dev_name: Seq<char>,
    attrs: Seq<Attr>,
    a: Attr,
)
    ensures
        a.attr_type != 19 ==> qps_in(order, dev_name, attrs.push(a)) == qps_in(
            order,
            dev_name,
            attrs,
        ),
        a.attr_type == 19 && lacks(attrs, 2) ==> qps_in(order, dev_name, attrs.push(a)) == qps_in(
            order,
            dev_name,
            attrs,
        ) + qp_table(order, dev_name, netlink::attributes(order, a.data)),
        forall|k: int|
            #![trigger attrs[k]]
            a.attr_type == 19 && is_last(attrs, k, 2) ==> qps_in(order, dev_name, attrs.push(a))
                == qps_in(order, dev_name, attrs) + qp_table(
                order,
                netlink::c_text(attrs[k].data),
                netlink::attributes(order, a.data),
            ),
{
    assert(attrs.push(a).drop_last() =~= attrs);
    law_absent_attribute(order, attrs, 2, 0, dev_name);
    assert forall|k: int| #![trigger attrs[k]] is_last(attrs, k, 2) implies text_of(
        attrs,
        2,
        dev_name,
    ) == netlink::c_text(attrs[k].data) by {
        law_last_attribute_wins(order, attrs, k, 0, dev_name);
    }
}

/// `attrs[k]` has the type, and no attribute after it has.
pub open spec fn is_last(attrs: Seq<Attr>, k: int, attr_type: u16) -> bool {
    &&& 0 <= k < attrs.len()
    &&& attrs[k].attr_type == attr_type
    &&& forall|j: int| k < j < attrs.len() ==> (#[trigger] attrs[j]).attr_type != attr_type
}

/// No attribute has the type.
pub open spec fn lacks(attrs: Seq<Attr>, attr_type: u16) -> bool {
    forall|j: int| 0 <= j < attrs.len() ==> (#[trigger] attrs[j]).attr_type != attr_type
}

proof fn lemma_last_such(attrs: Seq<Attr>, p: spec_fn(Attr) -> bool, k: int)
    requires
        0 <= k < attrs.len(),
        p(attrs[k]),
        forall|j: int| k < j < attrs.len() ==> !p(#[trigger] attrs[j]),
    ensures
        last_such(attrs, p) == Some(attrs[k]),
    decreases attrs.len(),
{
    if k < attrs.len() - 1 {
        assert(!p(attrs[attrs.len() - 1]));
        assert forall|j: int| k < j < attrs.drop_last().len() implies !p(
            #[trigger] attrs.drop_last()[j],
        ) by {
            assert(!p(attrs[j]));
        }
        lemma_last_such(attrs.drop_last(), p, k);
    }
}

proof fn lemma_none_such(attrs: Seq<Attr>, p: spec_fn(Attr) -> bool)
    requires
        forall|j: int| 0 <= j < attrs.len() ==> !p(#[trigger] attrs[j]),
    ensures
        last_such(attrs, p) == None::<Attr>,
    decreases attrs.len(),
{
    if attrs.len() > 0 {
        assert(!p(attrs[attrs.len() - 1]));
        assert forall|j: int| 0 <= j < attrs.drop_last().len() implies !p(
            #[trigger] attrs.drop_last()[j],
        ) by {
            assert(!p(attrs[j]));
        }
        lemma_none_such(attrs.drop_last(), p);
    }
}

/// Where a type occurs more than once, the attribute that comes last is read.
pub proof fn law_last_attribute_wins(
    order: ByteOrder,
    attrs: Seq<Attr>,
    k: int,
    absent: u32,
    none: Seq<char>,
)
    requires
        0 <= k < attrs.len(),
        is_last(attrs, k, attrs[k].attr_type),
    ensures
        last_of(attrs, attrs[k].attr_type) == Some(attrs[k]),
        u32_of(order, attrs, attrs[k].attr_type, absent) == netlink::attr_u32(order, attrs[k].data),
        text_of(attrs, attrs[k].attr_type, none) == netlink::c_text(attrs[k].data),
        attrs[k].data.len() > 0 ==> byte_of(attrs, attrs[k].attr_type) == attrs[k].data[0],
{
    let t = attrs[k].attr_type;
    lemma_last_such(attrs, |a: Attr| a.attr_type == t, k);
    if attrs[k].data.len() > 0 {
        lemma_last_such(attrs, |a: Attr| a.attr_type == t && a.data.len() > 0, k);
    }
}

/// Where a type does not occur, the value for its absence stands.
pub proof fn law_absent_attribute(
    order: ByteOrder,
    attrs: Seq<Attr>,
    attr_type: u16,
    absent: u32,
    none: Seq<char>,
)
    ensures
        lacks(attrs, attr_type) ==> {
            &&& last_of(attrs, attr_type) == None::<Attr>
            &&& u32_of(order, attrs, attr_type, absent) == absent
            &&& text_of(attrs, attr_type, none) == none
            &&& byte_of(attrs, attr_type) == 0
        },
{
    if lacks(attrs, attr_type) {
        lemma_none_such(attrs, |a: Attr| a.attr_type == attr_type);
        lemma_none_such(attrs, |a: Attr| a.attr_type == attr_type && a.data.len() > 0);
    }
}

/// A device takes its index, name and number of ports from the attributes 1, 2
/// and 3; it has index 0 and one port where those are missing, and there is no
/// device without a name.
pub proof fn law_device_attributes(order: ByteOrder, attrs: Seq<Attr>, i: int, n: int, p: int)
    ensures
        lacks(attrs, 2) ==> dev_in(order, attrs) is None,
        is_last(attrs, n, 2) ==> match dev_in(order, attrs) {
            Some(d) => {
                &&& netlink::c_text(attrs[n].data).len() > 0
                &&& d.name == netlink::c_text(attrs[n].data)
                &&& is_last(attrs, i, 1) ==> d.idx == netlink::attr_u32(order, attrs[i].data)
                &&& lacks(attrs, 1) ==> d.idx == 0
                &&& is_last(attrs, p, 3) ==> d.num_ports == netlink::attr_u32(order, attrs[p].data)
                &&& lacks(attrs, 3) ==> d.num_ports == 1
            },
            None => netlink::c_text(attrs[n].data).len() == 0,
        },
{
    law_absent_attribute(order, attrs, 1, 0, seq![]);
    law_absent_attribute(order, attrs, 2, 0, seq![]);
    law_absent_attribute(order, attrs, 3, 1, seq![]);
    if is_last(attrs, i, 1) {
        law_last_attribute_wins(order, attrs, i, 0, seq![]);
    }
    if is_last(attrs, n, 2) {
        law_last_attribute_wins(order, attrs, n, 0, seq![]);
    }
    if is_last(attrs, p, 3) {
        law_last_attribute_wins(order, attrs, p, 1, seq![]);
    }
}

/// The counters of a port take its device's name from attribute 2, its number
/// from attribute 3 and the counters from the table in attribute 80; without a
/// name there are none. Rate and state of the link are read elsewhere.
pub proof fn law_port_attributes(order: ByteOrder, attrs: Seq<Attr>, n: int, p: int, c: int)
    ensures
        lacks(attrs, 2) ==> port_stat_in(order, attrs) is None,
        is_last(attrs, n, 2) ==> match port_stat_in(order, attrs) {
            Some(s) => {
                &&& netlink::c_text(attrs[n].data).len() > 0
                &&& s.dev_name == netlink::c_text(attrs[n].data)
                &&& is_last(attrs, p, 3) ==> s.port == netlink::attr_u32(order, attrs[p].data)
                &&& lacks(attrs, 3) ==> s.port == 0
                &&& is_last(attrs, c, 80) ==> s.counters == counters_in(
                    order,
                    netlink::attributes(order, attrs[c].data),
                )
                &&& lacks(attrs, 80) ==> s.counters.len() == 0
                &&& s.link_mbps is None
                &&& s.state is None
            },
            None => netlink::c_text(attrs[n].data).len() == 0,
        },
{
    law_absent_attribute(order, attrs, 2, 0, seq![]);
    law_absent_attribute(order, attrs, 3, 0, seq![]);
    law_absent_attribute(order, attrs, 80, 0, seq![]);
    if is_last(attrs, n, 2) {
        law_last_attribute_wins(order, attrs, n, 0, seq![]);
    }
    if is_last(attrs, p, 3) {
        law_last_attribute_wins(order, attrs, p, 0, seq![]);
    }
    if is_last(attrs, c, 80) {
        law_last_attribute_wins(order, attrs, c, 0, seq![]);
    }
}

/// A counter takes its name from attribute 82 and its value from attribute 83.
pub proof fn law_counter_attributes(order: ByteOrder, attrs: Seq<Attr>, n: int, v: int)
    ensures
        is_last(attrs, n, 82) ==> counter_in(order, attrs).name == netlink::c_text(attrs[n].data),
        lacks(attrs, 82) ==> counter_in(order, attrs).name.len() == 0,
        is_last(attrs, v, 83) ==> counter_in(order, attrs).value == netlink::attr_u64(
            order,
            attrs[v].data,
        ),
        lacks(attrs, 83) ==> counter_in(order, attrs).value == 0,
{
    law_absent_attribute(order, attrs, 82, 0, seq![]);
    law_absent_attribute(order, attrs, 83, 0, seq![]);
    if is_last(attrs, n, 82) {
        law_last_attribute_wins(order, attrs, n, 0, seq![]);
    }
    if is_last(attrs, v, 83) {
        law_last_attribute_wins(order, attrs, v, 0, seq![]);
    }
}

/// Every entry of a counter table gives one counter, in order; what is no entry
/// gives none.
pub proof fn law_counters_concatenate(order: ByteOrder, a: Seq<Attr>, b: Seq<Attr>, entry: Attr)
    ensures
        counters_in(order, a + b) == counters_in(order, a) + counters_in(order, b),
        counters_in(order, seq![entry]) == (if entry.attr_type == 81 {
            seq![counter_in(order, netlink::attributes(order, entry.data))]
        } else {
            seq![]
        }),
    decreases b.len(),
{
    assert(seq![entry].drop_last() =~= seq![]);
    assert(counters_in(order, seq![]) =~= seq![]);
    assert(counters_in(order, seq![entry]) =~= (if entry.attr_type == 81 {
        seq![counter_in(order, netlink::attributes(order, entry.data))]
    } else {
        seq![]
    }));
    if b.len() == 0 {
        assert(a + b =~= a);
        assert(counters_in(order, b) =~= seq![]);
    } else {
        law_counters_concatenate(order, a, b.drop_last(), entry);
        assert((a + b).drop_last() =~= a + b.drop_last());
        assert((a + b).last() == b.last());
    }
    assert(counters_in(order, a + b) =~= counters_in(order, a) + counters_in(order, b));
}

/// A queue pair takes its number, type, state and owner from the attributes 21,
/// 26, 27 and 28, and a kernel owner's name from attribute 29 where that follows
/// the owner. An entry without an owning process is no queue pair.
pub proof fn law_qp_attributes(
    order: ByteOrder,
    dev_name: Seq<char>,
    attrs: Seq<Attr>,
    l: int,
    t: int,
    s: int,
    p: int,
    k: int,
)
    ensures
        lacks(attrs, 28) ==> qp_in(order, dev_name, attrs) is None,
        is_last(attrs, p, 28) ==> match qp_in(order, dev_name, attrs) {
            Some(qp) => {
                &&& netlink::attr_u32(order, attrs[p].data) != 0
                &&& qp.pid == netlink::attr_u32(order, attrs[p].data)
                &&& qp.dev_name == dev_name
                &&& is_last(attrs, l, 21) ==> qp.lqpn == netlink::attr_u32(order, attrs[l].data)
                &&& lacks(attrs, 21) ==> qp.lqpn == 0
                &&& is_last(attrs, t, 26) && attrs[t].data.len() > 0 ==> qp.qp_type
                    == attrs[t].data[0]
                &&& lacks(attrs, 26) ==> qp.qp_type == 0
                &&& is_last(attrs, s, 27) && attrs[s].data.len() > 0 ==> qp.state
                    == attrs[s].data[0]
                &&& lacks(attrs, 27) ==> qp.state == 0
                &&& is_last(attrs, k, 29) && k > p ==> qp.kern_name == Some(
                    netlink::c_text(attrs[k].data),
                )
                &&& is_last(attrs, k, 29) && k < p ==> qp.kern_name is None
                &&& lacks(attrs, 29) ==> qp.kern_name is None
            },
            None => netlink::attr_u32(order, attrs[p].data) == 0,
        },
{
    law_absent_attribute(order, attrs, 21, 0, seq![]);
    law_absent_attribute(order, attrs, 26, 0, seq![]);
    law_absent_attribute(order, attrs, 27, 0, seq![]);
    law_absent_attribute(order, attrs, 28, 0, seq![]);
    if is_last(attrs, l, 21) {
        law_last_attribute_wins(order, attrs, l, 0, seq![]);
    }
    if is_last(attrs, t, 26) {
        law_last_attribute_wins(order, attrs, t, 0, seq![]);
    }
    if is_last(attrs, s, 27) {
        law_last_attribute_wins(order, attrs, s, 0, seq![]);
    }
    if is_last(attrs, p, 28) {
        law_last_attribute_wins(order, attrs, p, 0, seq![]);
        let owner = |a: Attr|
            a.attr_type == RDMA_NLDEV_ATTR_RES_PID || a.attr_type == RDMA_NLDEV_ATTR_RES_KERN_NAME;
        if is_last(attrs, k, 29) && k > p {
            lemma_last_such(attrs, owner, k);
        } else if lacks(attrs, 29) || (is_last(attrs, k, 29) && k < p) {
            lemma_last_such(attrs, owner, p);
        }
    }
}

/// The data messages of a reply are those of its buffers one after the other,
/// without the messages that end it.
pub proof fn law_reply_messages_concatenate(order: ByteOrder, a: Seq<Vec<u8>>, b: Seq<Vec<u8>>)
    ensures
        reply_messages(order, a + b) == reply_messages(order, a) + reply_messages(order, b),
        a.len() == 1 ==> reply_messages(order, a) == netlink::data_messages(
            netlink::messages(order, a[0]@),
        ),
    decreases b.len(),
{
    if a.len() == 1 {
        assert(a.drop_last() =~= seq![]);
        assert(reply_messages(order, seq![]) =~= seq![]);
        assert(reply_messages(order, a) =~= netlink::data_messages(
            netlink::messages(order, a[0]@),
        ));
    }
    if b.len() == 0 {
        assert(a + b =~= a);
        assert(reply_messages(order, b) =~= seq![]);
    } else {
        law_reply_messages_concatenate(order, a, b.drop_last());
        assert((a + b).drop_last() =~= a + b.drop_last());
        assert((a + b).last() == b.last());
    }
    assert(reply_messages(order, a + b) =~= reply_messages(order, a) + reply_messages(order, b));
}

/// The devices of a reply are those of its messages one after the other.
pub proof fn law_devices_concatenate(
    order: ByteOrder,
    a: Seq<Message>,
    b: Seq<Message>,
    m: Message,
)
    ensures
        devs_in(order, a + b) == devs_in(order, a) + devs_in(order, b),
        devs_in(order, seq![m]) == (match dev_in(order, netlink::attributes(order, m.payload)) {
            Some(d) => seq![d],
            None => seq![],
        }),
    decreases b.len(),
{
    assert(seq![m].drop_last() =~= seq![]);
    assert(devs_in(order, seq![]) =~= seq![]);
    assert(devs_in(order, seq![m]) =~= (match dev_in(
        order,
        netlink::attributes(order, m.payload),
    ) {
        Some(d) => seq![d],
        None => seq![],
    }));
    if b.len() == 0 {
        assert(a + b =~= a);
        assert(devs_in(order, b) =~= seq![]);
    } else {
        law_devices_concatenate(order, a, b.drop_last(), m);
        assert((a + b).drop_last() =~= a + b.drop_last());
        assert((a + b).last() == b.last());
    }
    assert(devs_in(order, a + b) =~= devs_in(order, a) + devs_in(order, b));
}

/// The ports of a reply are those of its messages one after the other.
pub proof fn law_port_stats_concatenate(
    order: ByteOrder,
    a: Seq<Message>,
    b: Seq<Message>,
    m: Message,
)
    ensures
        stats_in(order, a + b) == stats_in(order, a) + stats_in(order, b),
        stats_in(order, seq![m]) == (match port_stat_in(
            order,
            netlink::attributes(order, m.payload),
        ) {
            Some(s) => seq![s],
            None => seq![],
        }),
    decreases b.len(),
{
    assert(seq![m].drop_last() =~= seq![]);
    assert(stats_in(order, seq![]) =~= seq![]);
    assert(stats_in(order, seq![m]) =~= (match port_stat_in(
        order,
        netlink::attributes(order, m.payload),
    ) {
        Some(s) => seq![s],
        None => seq![],
    }));
    if b.len() == 0 {
        assert(a + b =~= a);
        assert(stats_in(order, b) =~= seq![]);
    } else {
        law_port_stats_concatenate(order, a, b.drop_last(), m);
        assert((a + b).drop_last() =~= a + b.drop_last());
        assert((a + b).last() == b.last());
    }
    assert(stats_in(order, a + b) =~= stats_in(order, a) + stats_in(order, b));
}

/// A reading holds the ports of the replies one after the other.
pub proof fn law_replies_concatenate(
    order: ByteOrder,
    a: Seq<Option<Vec<Vec<u8>>>>,
    b: Seq<Option<Vec<Vec<u8>>>>,
)
    ensures
        stats_of(order, a + b) == stats_of(order, a) + stats_of(order, b),
        a.len() == 1 ==> stats_of(order, a) == (match a[0] {
            Some(bufs) => stats_in(order, reply_messages(order, bufs@)),
            None => seq![],
        }),
    decreases b.len(),
{
    if a.len() == 1 {
        assert(a.drop_last() =~= seq![]);
        assert(stats_of(order, seq![]) =~= seq![]);
        assert(stats_of(order, a) =~= (match a[0] {
            Some(bufs) => stats_in(order, reply_messages(order, bufs@)),
            None => seq![],
        }));
    }
    if b.len() == 0 {
        assert(a + b =~= a);
        assert(stats_of(order, b) =~= seq![]);
    } else {
        law_replies_concatenate(order, a, b.drop_last());
        assert((a + b).drop_last() =~= a + b.drop_last());
        assert((a + b).last() == b.last());
    }
    assert(stats_of(order, a + b) =~= stats_of(order, a) + stats_of(order, b));
}

/// The queue pairs of all devices are those of each device one after the other,
/// each under the name of the device whose reply they stand in.
pub proof fn law_qps_of_devices_concatenate(
    order: ByteOrder,
    devs: Seq<RdmaDevView>,
    replies: Seq<Option<Vec<Vec<u8>>>>,
    n: int,
)
    requires
        0 <= n < replies.len() <= devs.len(),
    ensures
        qps_of(order, devs, replies.take(0)) == Seq::<QpEntryView>::empty(),
        qps_of(order, devs, replies.take(replies.len() as int)) == qps_of(order, devs, replies),
        qps_of(order, devs, replies.take(n + 1)) == qps_of(order, devs, replies.take(n)) + (
        match replies[n] {
            Some(bufs) => device_qps(order, devs[n].name, reply_messages(order, bufs@)),
            None => seq![],
        }),
{
    assert(replies.take(replies.len() as int) =~= replies);
    assert(replies.take(n + 1).drop_last() =~= replies.take(n));
    assert(replies.take(n + 1).last() == replies[n]);
}

/// `counters[k]` has the name, and no counter before it has.
pub open spec fn is_first(counters: Seq<HwCounterView>, k: int, name: Seq<char>) -> bool {
    &&& 0 <= k < counters.len()
    &&& counters[k].name == name
    &&& forall|j: int| 0 <= j < k ==> (#[trigger] counters[j]).name != name
}

/// No counter has the name.
pub open spec fn uncounted(counters: Seq<HwCounterView>, name: Seq<char>) -> bool {
    forall|j: int| 0 <= j < counters.len() ==> (#[trigger] counters[j]).name != name
}

/// A counter is found by its name, the first where the name occurs more than
/// once, and is missing only where the name does not occur.
pub proof fn law_counter_is_found_by_name(counters: Seq<HwCounterView>, name: Seq<char>, k: int)
    ensures
        is_first(counters, k, name) ==> value_named(counters, name) == Some(counters[k].value),
        uncounted(counters, name) ==> value_named(counters, name) is None,
        value_named(counters, name) is None ==> uncounted(counters, name),
    decreases counters.len(),
{
    if counters.len() > 0 && counters[0].name != name {
        let rest = counters.drop_first();
        law_counter_is_found_by_name(rest, name, k - 1);
        assert forall|j: int| 0 <= j < rest.len() implies #[trigger] rest[j] == counters[j + 1] by {}
        if is_first(counters, k, name) {
            assert forall|j: int| 0 <= j < k - 1 implies (#[trigger] rest[j]).name != name by {
                assert(counters[j + 1].name != name);
            }
        }
        if uncounted(counters, name) {
            assert forall|j: int| 0 <= j < rest.len() implies (#[trigger] rest[j]).name
                != name by {
                assert(counters[j + 1].name != name);
            }
        }
        if uncounted(rest, name) {
            assert forall|j: int| 0 <= j < counters.len() implies (#[trigger] counters[j]).name
                != name by {
                if j > 0 {
                    assert(rest[j - 1].name != name);
                }
            }
        }
    }
}

/// The ports of the devices are walked device by device, each from port 1 to its
/// last, under the device's own index.
pub proof fn law_every_port_is_walked(devs: Seq<RdmaDevView>, d: RdmaDevView, i: int)
    ensures
        all_ports(seq![]) == Seq::<(u32, u32)>::empty(),
        all_ports(seq![d] + devs).len() == d.num_ports + all_ports(devs).len(),
        0 <= i < d.num_ports ==> all_ports(seq![d] + devs)[i] == (d.idx, (i + 1) as u32),
        all_ports(seq![d] + devs).skip(d.num_ports as int) == all_ports(devs),
{
    let all = seq![d] + devs;
    assert(all.drop_first() =~= devs);
    assert(all[0] == d);
    assert(all_ports(all).skip(d.num_ports as int) =~= all_ports(devs));
}

/// A port is found at the first device that has its name and so many ports.
pub proof fn law_port_is_found_by_device(
    devs: Seq<RdmaDevView>,
    device: Seq<char>,
    port: u32,
    k: int,
)
    ensures
        0 <= k < devs.len() && devs[k].name == device && port <= devs[k].num_ports && (forall|
            j: int,
        |
            0 <= j < k ==> (#[trigger] devs[j]).name != device || port > devs[j].num_ports)
            ==> port_at(devs, device, port) == Some(devs[k].idx),
        (forall|j: int|
            0 <= j < devs.len() ==> (#[trigger] devs[j]).name != device || port
                > devs[j].num_ports) ==> port_at(devs, device, port) is None,
    decreases devs.len(),
{
    if devs.len() > 0 && !(devs[0].name == device && port <= devs[0].num_ports) {
        let rest = devs.drop_first();
        law_port_is_found_by_device(rest, device, port, k - 1);
        assert forall|j: int| 0 <= j < rest.len() implies #[trigger] rest[j] == devs[j + 1] by {}
        if forall|j: int|
            0 <= j < devs.len() ==> (#[trigger] devs[j]).name != device || port
                > devs[j].num_ports {
            assert forall|j: int| 0 <= j < rest.len() implies (#[trigger] rest[j]).name != device
                || port > rest[j].num_ports by {
                assert(devs[j + 1].name != device || port > devs[j + 1].num_ports);
            }
        }
        if 0 <= k < devs.len() && (forall|j: int|
            0 <= j < k ==> (#[trigger] devs[j]).name != device || port > devs[j].num_ports) {
            assert forall|j: int| 0 <= j < k - 1 implies (#[trigger] rest[j]).name != device || port
                > rest[j].num_ports by {
                assert(devs[j + 1].name != device || port > devs[j + 1].num_ports);
            }
        }
    }
}

/// `comms[k]` is the process, and none before it is.
pub open spec fn is_first_comm(comms: Seq<ProcCommView>, k: int, pid: u32) -> bool {
    &&& 0 <= k < comms.len()
    &&& comms[k].pid == pid
    &&& forall|j: int| 0 <= j < k ==> (#[trigger] comms[j]).pid != pid
}

/// A process is named by the text that was read for it, without the white space
/// round it.
pub proof fn law_process_is_named_by_its_text(comms: Seq<ProcCommView>, pid: u32, k: int)
    ensures
        is_first_comm(comms, k, pid) ==> comm_of(comms, pid) == text::trimmed(comms[k].text),
        (forall|j: int| 0 <= j < comms.len() ==> (#[trigger] comms[j]).pid != pid) ==> comm_of(
            comms,
            pid,
        ).len() == 0,
    decreases comms.len(),
{
    if comms.len() > 0 && comms[0].pid != pid {
        let rest = comms.drop_first();
        law_process_is_named_by_its_text(rest, pid, k - 1);
        if is_first_comm(comms, k, pid) {
            assert forall|j: int| 0 <= j < k - 1 implies (#[trigger] rest[j]).pid != pid by {
                assert(comms[j + 1].pid != pid);
            }
        }
        if forall|j: int| 0 <= j < comms.len() ==> (#[trigger] comms[j]).pid != pid {
            assert forall|j: int| 0 <= j < rest.len() implies (#[trigger] rest[j]).pid != pid by {
                assert(comms[j + 1].pid != pid);
            }
        }
    }
}

/// A listed queue pair keeps all that was read of it and is named after its
/// owner: by the kernel's name where it has one, else by the process's.
pub proof fn law_named_qp_keeps_its_entry(
    entries: Seq<QpEntryView>,
    comms: Seq<ProcCommView>,
    i: int,
)
    requires
        0 <= i < entries.len(),
    ensures
        named_qps(entries, comms).len() == entries.len(),
        named_qps(entries, comms)[i].dev_name == entries[i].dev_name,
        named_qps(entries, comms)[i].lqpn == entries[i].lqpn,
        named_qps(entries, comms)[i].qp_type == entries[i].qp_type,
        named_qps(entries, comms)[i].state == entries[i].state,
        named_qps(entries, comms)[i].pid == entries[i].pid,
        entries[i].kern_name matches Some(n) ==> named_qps(entries, comms)[i].comm == n,
        entries[i].kern_name is None ==> named_qps(entries, comms)[i].comm == comm_of(
            comms,
            entries[i].pid,
        ),
{
}

/// Of the words behind the last `)` of a process's status the first is its
/// state, the 17th its niceness, the 18th its threads, the 21st its memory and
/// the 22nd the part of it that is resident.
pub proof fn law_process_status_fields(data: Seq<char>)
    ensures
        text::pieces(data, Some(')')).len() < 2 ==> proc_stat_in(data) is None,
        text::words(text::pieces(data, Some(')')).last()).len() < 22 ==> proc_stat_in(data) is None,
        proc_stat_in(data) matches Some(s) ==> {
            let f = text::words(text::pieces(data, Some(')')).last());
            &&& f.len() >= 22
            &&& s.state == f[0][0]
            &&& text::signed_value(f[16]) matches Some(v) ==> s.nice == v as i32
            &&& text::signed_value(f[16]) is None ==> s.nice == 0
            &&& text::unsigned_value(f[17], u32::MAX as nat) matches Some(v) ==> s.num_threads == v
            &&& text::unsigned_value(f[17], u32::MAX as nat) is None ==> s.num_threads == 1
            &&& text::unsigned_value(f[20], u64::MAX as nat) matches Some(v) ==> s.vsize == v
            &&& text::unsigned_value(f[20], u64::MAX as nat) is None ==> s.vsize == 0
            &&& text::unsigned_value(f[21], u64::MAX as nat) matches Some(v) ==> s.rss_pages == v
            &&& text::unsigned_value(f[21], u64::MAX as nat) is None ==> s.rss_pages == 0
        },
{
}

/// `lines[k]` begins with the label, and no line before it does.
pub open spec fn is_first_labelled(lines: Seq<Seq<char>>, k: int, label: Seq<char>) -> bool {
    &&& 0 <= k < lines.len()
    &&& text::has_prefix(lines[k], label)
    &&& forall|j: int| 0 <= j < k ==> !text::has_prefix(#[trigger] lines[j], label)
}

/// A labelled value is the second word of the first line with the label.
pub proof fn law_labelled_value_is_the_second_word(
    s: Seq<char>,
    label: Seq<char>,
    max: nat,
    absent: u64,
    k: int,
)
    requires
        max <= u64::MAX,
    ensures
        (forall|j: int|
            0 <= j < text::text_lines(s).len() ==> !text::has_prefix(
                #[trigger] text::text_lines(s)[j],
                label,
            )) ==> labelled_value(s, label, max, absent) == absent,
        is_first_labelled(text::text_lines(s), k, label) ==> {
            let words = text::words(text::text_lines(s)[k]);
            &&& words.len() < 2 ==> labelled_value(s, label, max, absent) == absent
            &&& words.len() >= 2 ==> match text::unsigned_value(words[1], max) {
                Some(v) => labelled_value(s, label, max, absent) == v,
                None => labelled_value(s, label, max, absent) == absent,
            }
        },
{
    lemma_labelled_line(text::text_lines(s), label, k);
}

proof fn lemma_labelled_line(lines: Seq<Seq<char>>, label: Seq<char>, k: int)
    ensures
        is_first_labelled(lines, k, label) ==> labelled_line(lines, label) == Some(lines[k]),
        (forall|j: int| 0 <= j < lines.len() ==> !text::has_prefix(#[trigger] lines[j], label))
            ==> labelled_line(lines, label) is None,
    decreases lines.len(),
{
    if lines.len() > 0 && !text::has_prefix(lines[0], label) {
        let rest = lines.drop_first();
        lemma_labelled_line(rest, label, k - 1);
        if is_first_labelled(lines, k, label) {
            assert forall|j: int| 0 <= j < k - 1 implies !text::has_prefix(
                #[trigger] rest[j],
                label,
            ) by {
                assert(!text::has_prefix(lines[j + 1], label));
            }
        }
        if forall|j: int| 0 <= j < lines.len() ==> !text::has_prefix(#[trigger] lines[j], label) {
            assert forall|j: int| 0 <= j < rest.len() implies !text::has_prefix(
                #[trigger] rest[j],
                label,
            ) by {
                assert(!text::has_prefix(lines[j + 1], label));
            }
        }
    }
}

/// Whether a line of the account file is that of a user: its third field is the
/// user's number.
pub open spec fn is_account(line: Seq<char>, id: Seq<char>) -> bool {
    text::pieces(line, Some(':')).len() > 2 && text::pieces(line, Some(':'))[2] == id
}

/// A user is named by the first field of the first line with the user's number,
/// and by the number itself where there is no such line.
pub proof fn law_user_is_named_by_account(lines: Seq<Seq<char>>, id: Seq<char>, k: int)
    ensures
        0 <= k < lines.len() && is_account(lines[k], id) && (forall|j: int|
            0 <= j < k ==> !is_account(#[trigger] lines[j], id)) ==> account_name(lines, id)
            == text::pieces(lines[k], Some(':'))[0],
        (forall|j: int| 0 <= j < lines.len() ==> !is_account(#[trigger] lines[j], id))
            ==> account_name(lines, id) == id,
    decreases lines.len(),
{
    if lines.len() > 0 && !is_account(lines[0], id) {
        let rest = lines.drop_first();
        law_user_is_named_by_account(rest, id, k - 1);
        if 0 <= k < lines.len() && (forall|j: int|
            0 <= j < k ==> !is_account(#[trigger] lines[j], id)) {
            assert forall|j: int| 0 <= j < k - 1 implies !is_account(#[trigger] rest[j], id) by {
                assert(!is_account(lines[j + 1], id));
            }
        }
        if forall|j: int| 0 <= j < lines.len() ==> !is_account(#[trigger] lines[j], id) {
            assert forall|j: int| 0 <= j < rest.len() implies !is_account(
                #[trigger] rest[j],
                id,
            ) by {
                assert(!is_account(lines[j + 1], id));
            }
        }
    }
}

/// `files[k]` is of the process, and none before it is.
pub open spec fn is_first_files(files: Seq<ProcFilesView>, k: int, pid: u32) -> bool {
    &&& 0 <= k < files.len()
    &&& files[k].pid == pid
    &&& forall|j: int| 0 <= j < k ==> (#[trigger] files[j]).pid != pid
}

proof fn lemma_files_of(files: Seq<ProcFilesView>, k: int, pid: u32)
    requires
        is_first_files(files, k, pid),
    ensures
        files_of(files, pid) == files[k],
    decreases files.len(),
{
    if k > 0 {
        let rest = files.drop_first();
        assert(files[0].pid != pid);
        assert forall|j: int| 0 <= j < k - 1 implies (#[trigger] rest[j]).pid != pid by {
            assert(files[j + 1].pid != pid);
        }
        lemma_files_of(rest, k - 1, pid);
    }
}

/// A process shows its owner, device and count as they were tallied, and from
/// its own files its state, niceness and threads, its memory in kilobytes, four
/// to a resident page, and its command line; its share is of all memory.
pub proof fn law_process_shows_its_files(
    t: QpTallyView,
    files: Seq<ProcFilesView>,
    passwd: Seq<char>,
    meminfo: Seq<char>,
    k: int,
)
    requires
        is_first_files(files, k, t.pid),
    ensures
        ({
            let p = enriched(t, files, passwd, meminfo);
            &&& p.pid == t.pid
            &&& p.dev_name == t.dev_name
            &&& p.qp_count == t.qp_count
            &&& proc_stat_in(files[k].stat) is None ==> p.state == '?' && p.nice == 0 && p.virt_kb
                == 0 && p.res_kb == 0 && p.threads == 0
            &&& proc_stat_in(files[k].stat) matches Some(s) ==> {
                &&& p.state == s.state
                &&& p.nice == s.nice
                &&& p.threads == s.num_threads
                &&& p.virt_kb == s.vsize / 1024
                &&& s.rss_pages * 4 <= u64::MAX ==> p.res_kb == s.rss_pages * 4
            }
            &&& text::words(files[k].statm).len() <= 2 ==> p.shr_kb == 0
            &&& text::words(files[k].statm).len() > 2 ==> (text::unsigned_value(
                text::words(files[k].statm)[2],
                u64::MAX as nat,
            ) matches Some(v) ==> (v * 4 <= u64::MAX ==> p.shr_kb == v * 4))
            &&& p.mem_total_kb == labelled_value(meminfo, "MemTotal:"@, u64::MAX as nat, 1)
            &&& p.user == user_of(
                passwd,
                labelled_value(files[k].status, "Uid:"@, u32::MAX as nat, 0) as u32,
                proc_stat_in(files[k].stat) is Some,
            )
            &&& text::trimmed(text::replaced(files[k].cmdline, '\0', ' ')).len() > 0 ==> p.cmdline
                == text::trimmed(text::replaced(files[k].cmdline, '\0', ' '))
            &&& text::trimmed(text::replaced(files[k].cmdline, '\0', ' ')).len() == 0 ==> p.cmdline
                == t.comm
        }),
{
    lemma_files_of(files, k, t.pid);
}

/// A user that is known by number is looked up; root counts only where the
/// process could be read.
pub proof fn law_unknown_user_is_a_question_mark(passwd: Seq<char>, uid: u32, known: bool)
    ensures
        uid > 0 || known ==> user_of(passwd, uid, known) == account_name(
            text::text_lines(passwd),
            text::decimal(uid as nat),
        ),
        uid == 0 && !known ==> user_of(passwd, uid, known) == "?"@,
{
}

/// How many queue pairs a process has on a device.
pub open spec fn held_by(qps: Seq<QpInfoView>, pid: u32, dev_name: Seq<char>) -> int
    decreases qps.len(),
{
    if qps.len() == 0 {
        0
    } else {
        held_by(qps.drop_last(), pid, dev_name) + if qps.last().pid == pid && qps.last().dev_name
            == dev_name {
            1int
        } else {
            0
        }
    }
}

/// Each count is that of one process's queue pairs on one device, and every
/// process that owns one has it; the kernel's own are left out.
pub proof fn law_each_count_is_of_one_process(qps: Seq<QpInfoView>)
    ensures
        forall|i: int|
            0 <= i < tallied(qps).len() ==> (#[trigger] tallied(qps)[i]).pid != 0
                && tallied(qps)[i].qp_count == held_by(
                qps,
                tallied(qps)[i].pid,
                tallied(qps)[i].dev_name,
            ),
        forall|k: int|
            0 <= k < qps.len() && (#[trigger] qps[k]).pid != 0 ==> exists|i: int|
                0 <= i < tallied(qps).len() && (#[trigger] tallied(qps)[i]).pid == qps[k].pid
                    && tallied(qps)[i].dev_name == qps[k].dev_name,
    decreases qps.len(),
{
    if qps.len() > 0 {
        let front = qps.drop_last();
        let qp = qps.last();
        let before = tallied(front);
        let after = tallied(qps);
        law_each_count_is_of_one_process(front);
        law_tally_counts_each_once(front);
        lemma_tally_index(before, qp.pid, qp.dev_name);
        let place = tally_index(before, qp.pid, qp.dev_name);
        if place is None {
            lemma_held_by_none(front, qp.pid, qp.dev_name);
        }
        assert forall|i: int| 0 <= i < after.len() implies (#[trigger] after[i]).pid != 0
            && after[i].qp_count == held_by(qps, after[i].pid, after[i].dev_name) by {
            if qp.pid == 0 {
                assert(after[i] == before[i]);
            } else {
                match place {
                    Some(k) => {
                        assert(before[k].pid == qp.pid);
                        assert(before[i].pid == after[i].pid && before[i].dev_name
                            == after[i].dev_name);
                        if i != k {
                            assert(after[i] == before[i]);
                            if i < k {
                                assert(!(before[i].pid == before[k].pid && before[i].dev_name
                                    == before[k].dev_name));
                            } else {
                                assert(!(before[k].pid == before[i].pid && before[k].dev_name
                                    == before[i].dev_name));
                            }
                        }
                    },
                    None => {
                        if i < before.len() {
                            assert(after[i] == before[i]);
                        }
                    },
                }
            }
        }
        assert forall|k: int| 0 <= k < qps.len() && (#[trigger] qps[k]).pid != 0 implies exists|
            i: int,
        |
            0 <= i < after.len() && (#[trigger] after[i]).pid == qps[k].pid && after[i].dev_name
                == qps[k].dev_name by {
            if k < front.len() {
                assert(front[k] == qps[k]);
                let i = choose|i: int|
                    0 <= i < before.len() && (#[trigger] before[i]).pid == front[k].pid
                        && before[i].dev_name == front[k].dev_name;
                assert(after[i].pid == before[i].pid && after[i].dev_name == before[i].dev_name);
            } else {
                match place {
                    Some(i) => {
                        assert(after[i].pid == qp.pid && after[i].dev_name == qp.dev_name);
                    },
                    None => {
                        assert(after[after.len() - 1].pid == qp.pid);
                    },
                }
            }
        }
    }
}

proof fn lemma_held_by_none(qps: Seq<QpInfoView>, pid: u32, dev_name: Seq<char>)
    requires
        tally_index(tallied(qps), pid, dev_name) is None,
    ensures
        pid != 0 ==> held_by(qps, pid, dev_name) == 0,
    decreases qps.len(),
{
    if qps.len() > 0 && pid != 0 {
        let front = qps.drop_last();
        let before = tallied(front);
        let after = tallied(qps);
        let qp = qps.last();
        lemma_tally_index(after, pid, dev_name);
        lemma_tally_index(before, pid, dev_name);
        lemma_tally_index(before, qp.pid, qp.dev_name);
        if let Some(i) = tally_index(before, pid, dev_name) {
            assert(after[i].pid == before[i].pid && after[i].dev_name == before[i].dev_name);
            assert(false);
        }
        lemma_held_by_none(front, pid, dev_name);
        if qp.pid == pid && qp.dev_name == dev_name {
            match tally_index(before, qp.pid, qp.dev_name) {
                Some(i) => {
                    assert(after[i].pid == pid);
                },
                None => {
                    assert(after[after.len() - 1].pid == pid);
                },
            }
        }
    }
}

/// Every count becomes one process.
pub proof fn law_each_count_becomes_a_process(
    qps: Seq<QpInfoView>,
    files: Seq<ProcFilesView>,
    passwd: Seq<char>,
    meminfo: Seq<char>,
    i: int,
)
    requires
        0 <= i < tallied(qps).len(),
    ensures
        processes_of(qps, files, passwd, meminfo).len() == tallied(qps).len(),
        processes_of(qps, files, passwd, meminfo)[i] == enriched(
            tallied(qps)[i],
            files,
            passwd,
            meminfo,
        ),
{
}

/// What a value holds is what its fields hold, each under its own name.
pub proof fn law_views_hold_every_field(
    hw_counter: HwCounter,
    port_stat: PortStat,
    rdma_dev: RdmaDev,
    qp_info: QpInfo,
    qp_entry: QpEntry,
    proc_comm: ProcComm,
    process_rdma_info: ProcessRdmaInfo,
    proc_files: ProcFiles,
    qp_tally: QpTally,
)
    ensures
        hw_counter@.name == hw_counter.name@,
        hw_counter@.value == hw_counter.value,
        port_stat@.dev_name == port_stat.dev_name@,
        port_stat@.port == port_stat.port,
        port_stat@.link_mbps == port_stat.link_mbps,
        port_stat@.state == port_stat.state,
        port_stat@.counters == lists::views(port_stat.counters@),
        rdma_dev@.idx == rdma_dev.idx,
        rdma_dev@.name == rdma_dev.name@,
        rdma_dev@.num_ports == rdma_dev.num_ports,
        qp_info@.dev_name == qp_info.dev_name@,
        qp_info@.lqpn == qp_info.lqpn,
        qp_info@.qp_type == qp_info.qp_type,
        qp_info@.state == qp_info.state,
        qp_info@.pid == qp_info.pid,
        qp_info@.comm == qp_info.comm@,
        qp_entry@.dev_name == qp_entry.dev_name@,
        qp_entry@.lqpn == qp_entry.lqpn,
        qp_entry@.qp_type == qp_entry.qp_type,
        qp_entry@.state == qp_entry.state,
        qp_entry@.pid == qp_entry.pid,
        qp_entry@.kern_name == lists::opt_text(qp_entry.kern_name),
        proc_comm@.pid == proc_comm.pid,
        proc_comm@.text == proc_comm.text@,
        process_rdma_info@.pid == process_rdma_info.pid,
        process_rdma_info@.dev_name == process_rdma_info.dev_name@,
        process_rdma_info@.qp_count == process_rdma_info.qp_count as int,
        process_rdma_info@.user == process_rdma_info.user@,
        process_rdma_info@.nice == process_rdma_info.nice,
        process_rdma_info@.state == process_rdma_info.state,
        process_rdma_info@.virt_kb == process_rdma_info.virt_kb,
        process_rdma_info@.res_kb == process_rdma_info.res_kb,
        process_rdma_info@.shr_kb == process_rdma_info.shr_kb,
        process_rdma_info@.mem_total_kb == process_rdma_info.mem_total_kb,
        process_rdma_info@.threads == process_rdma_info.threads,
        process_rdma_info@.cmdline == process_rdma_info.cmdline@,
        proc_files@.pid == proc_files.pid,
        proc_files@.stat == proc_files.stat@,
        proc_files@.statm == proc_files.statm@,
        proc_files@.status == proc_files.status@,
        proc_files@.cmdline == proc_files.cmdline@,
        qp_tally@.pid == qp_tally.pid,
        qp_tally@.dev_name == qp_tally.dev_name@,
        qp_tally@.comm == qp_tally.comm@,
        qp_tally@.qp_count == qp_tally.qp_count as int,
{
}

/// `qps[k]` is of the process on the device, and none before it is.
pub open spec fn is_first_qp(qps: Seq<QpInfoView>, k: int, pid: u32, dev_name: Seq<char>) -> bool {
    &&& 0 <= k < qps.len()
    &&& qps[k].pid == pid && qps[k].dev_name == dev_name
    &&& forall|j: int|
        0 <= j < k ==> (#[trigger] qps[j]).pid != pid || qps[j].dev_name != dev_name
}

/// A process is named after the first of its queue pairs on the device.
pub proof fn law_count_is_named_by_its_first(qps: Seq<QpInfoView>, i: int)
    requires
        0 <= i < tallied(qps).len(),
    ensures
        exists|k: int|
            is_first_qp(qps, k, tallied(qps)[i].pid, tallied(qps)[i].dev_name) && (
            #[trigger] qps[k]).comm == tallied(qps)[i].comm,
    decreases qps.len(),
{
    let front = qps.drop_last();
    let before = tallied(front);
    let after = tallied(qps);
    let qp = qps.last();
    lemma_tally_index(before, qp.pid, qp.dev_name);
    if i < before.len() {
        assert(after[i].pid == before[i].pid && after[i].dev_name == before[i].dev_name
            && after[i].comm == before[i].comm);
        law_count_is_named_by_its_first(front, i);
        let k = choose|k: int|
            is_first_qp(front, k, before[i].pid, before[i].dev_name) && (#[trigger] front[k]).comm
                == before[i].comm;
        assert(qps[k] == front[k]);
        assert forall|j: int| 0 <= j < k implies (#[trigger] qps[j]).pid != after[i].pid
            || qps[j].dev_name != after[i].dev_name by {
            assert(front[j] == qps[j]);
        }
        assert(is_first_qp(qps, k, after[i].pid, after[i].dev_name));
    } else {
        let k = qps.len() - 1;
        law_each_count_is_of_one_process(front);
        assert(qps[k] == qp);
        assert forall|j: int| 0 <= j < k implies (#[trigger] qps[j]).pid != qp.pid
            || qps[j].dev_name != qp.dev_name by {
            assert(front[j] == qps[j]);
        }
        assert(is_first_qp(qps, k, after[i].pid, after[i].dev_name));
    }
}

} // verus!
