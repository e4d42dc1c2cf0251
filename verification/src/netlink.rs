//! Netlink message builder and parser for RDMA netlink.
//!
//! The kernel writes numbers in the byte order of the machine. Every reader
//! and builder carries the order it works in, so what a buffer means is a
//! function of the buffer and the order alone.

use vstd::prelude::*;

use crate::rdma::{NLMSG_DONE, NLMSG_ERROR};
use crate::text;

verus! {

pub const NLMSG_HDR_LEN: usize = 16;

pub const NLA_HDR_LEN: usize = 4;

pub const NLA_ALIGN: usize = 4;

/// The order in which the bytes of a number follow each other.
#[derive(Clone, Copy, Debug, PartialEq, Eq, Structural)]
pub enum ByteOrder {
    Little,
    Big,
}

/// The number that a run of bytes writes.
pub open spec fn value(order: ByteOrder, b: Seq<u8>) -> nat
    decreases b.len(),
{
    if b.len() == 0 {
        0
    } else {
        match order {
            ByteOrder::Little => value(order, b.drop_first()) * 256 + b[0] as nat,
            ByteOrder::Big => value(order, b.drop_last()) * 256 + b.last() as nat,
        }
    }
}

/// The lowest `width` bytes of a number.
pub open spec fn bytes_of(order: ByteOrder, n: nat, width: nat) -> Seq<u8>
    decreases width,
{
    if width == 0 {
        seq![]
    } else {
        let low = (n % 256) as u8;
        let high = bytes_of(order, n / 256, (width - 1) as nat);
        match order {
            ByteOrder::Little => seq![low] + high,
            ByteOrder::Big => high.push(low),
        }
    }
}

/// Whether a number has no more than `width` bytes.
pub open spec fn fits(n: nat, width: nat) -> bool
    decreases width,
{
    if width == 0 {
        n == 0
    } else {
        fits(n / 256, (width - 1) as nat)
    }
}

/// A number is written in exactly `width` bytes.
pub proof fn lemma_bytes_len(order: ByteOrder, n: nat, width: nat)
    ensures
        bytes_of(order, n, width).len() == width,
    decreases width,
{
    if width > 0 {
        lemma_bytes_len(order, n / 256, (width - 1) as nat);
    }
}

/// Reading back what was written gives the number again.
pub proof fn lemma_value_of_bytes(order: ByteOrder, n: nat, width: nat)
    requires
        fits(n, width),
    ensures
        value(order, bytes_of(order, n, width)) == n,
    decreases width,
{
    if width > 0 {
        let high = bytes_of(order, n / 256, (width - 1) as nat);
        lemma_value_of_bytes(order, n / 256, (width - 1) as nat);
        match order {
            ByteOrder::Little => {
                assert(bytes_of(order, n, width).drop_first() =~= high);
            },
            ByteOrder::Big => {
                assert(bytes_of(order, n, width).drop_last() =~= high);
            },
        }
    }
}

/// Every number of a machine width fits its bytes.
pub proof fn lemma_fits(n: nat)
    ensures
        n < 0x1_0000 ==> fits(n, 2),
        n < 0x1_0000_0000 ==> fits(n, 4),
        n < 0x1_0000_0000_0000_0000 ==> fits(n, 8),
{
    reveal_with_fuel(fits, 9);
}

/// The byte order of the machine the program runs on.
pub open spec fn machine_order() -> ByteOrder {
    match vstd::endian::endianness() {
        vstd::endian::Endian::Little => ByteOrder::Little,
        vstd::endian::Endian::Big => ByteOrder::Big,
    }
}

/// `u16::to_ne_bytes` gives the two bytes of a number in the order of the
/// machine.
#[verifier::external_body]
fn machine_bytes(n: u16) -> (r: [u8; 2])
    ensures
        r@ == bytes_of(machine_order(), n as nat, 2),
{
    n.to_ne_bytes()
}

impl ByteOrder {
    /// The byte order of the machine the program runs on.
    pub fn native() -> (r: ByteOrder)
        ensures
            r == machine_order(),
    {
        ByteOrder::of_one(machine_bytes(1))
    }

    /// The order in which two bytes write the number one.
    pub fn of_one(b: [u8; 2]) -> (r: ByteOrder)
        ensures
            r == ByteOrder::Little <==> b[0] == 1,
            b@ == bytes_of(ByteOrder::Little, 1, 2) ==> r == ByteOrder::Little,
            b@ == bytes_of(ByteOrder::Big, 1, 2) ==> r == ByteOrder::Big,
    {
        proof {
            reveal_with_fuel(bytes_of, 3);
        }
        if b[0] == 1 {
            ByteOrder::Little
        } else {
            ByteOrder::Big
        }
    }
}

/// The bytes of a number fit in the machine type of their width.
pub proof fn lemma_value_bound(order: ByteOrder, b: Seq<u8>)
    ensures
        b.len() == 2 ==> value(order, b) < 0x1_0000,
        b.len() == 4 ==> value(order, b) < 0x1_0000_0000,
        b.len() == 8 ==> value(order, b) < 0x1_0000_0000_0000_0000,
{
    reveal_with_fuel(value, 9);
}

/// Reads `n` bytes as a number.
fn read_number(order: ByteOrder, b: &[u8], from: usize, n: usize) -> (r: u64)
    requires
        n <= 8,
        from + n <= b.len(),
    ensures
        r == value(order, b@.subrange(from as int, from + n)),
    decreases n,
{
    let ghost part = b@.subrange(from as int, from + n);
    if n == 0 {
        0
    } else {
        match order {
            ByteOrder::Little => {
                assert(part.drop_first() =~= b@.subrange(from + 1, from + n));
                let high: u64 = read_number(order, b, from + 1, n - 1);
                proof {
                    lemma_value_small(order, part.drop_first());
                }
                high * 256 + b[from] as u64
            },
            ByteOrder::Big => {
                assert(part.drop_last() =~= b@.subrange(from as int, from + n - 1));
                let high: u64 = read_number(order, b, from, n - 1);
                proof {
                    lemma_value_small(order, part.drop_last());
                }
                high * 256 + b[from + n - 1] as u64
            },
        }
    }
}

proof fn lemma_value_small(order: ByteOrder, b: Seq<u8>)
    requires
        b.len() <= 7,
    ensures
        value(order, b) < 0x100_0000_0000_0000,
{
    reveal_with_fuel(value, 8);
}

/// Appends the lowest `width` bytes of a number.
fn push_number(buf: &mut Vec<u8>, order: ByteOrder, n: u64, width: usize)
    ensures
        final(buf)@ == old(buf)@ + bytes_of(order, n as nat, width as nat),
    decreases width,
{
    if width == 0 {
        assert(buf@ =~= old(buf)@ + bytes_of(order, n as nat, width as nat));
    } else {
        let low: u8 = (n % 256) as u8;
        let ghost start = buf@;
        match order {
            ByteOrder::Little => {
                buf.push(low);
                push_number(buf, order, n / 256, width - 1);
            },
            ByteOrder::Big => {
                push_number(buf, order, n / 256, width - 1);
                buf.push(low);
            },
        }
        assert(buf@ =~= start + bytes_of(order, n as nat, width as nat));
    }
}

/// The least multiple of the attribute alignment that is not below a length.
pub open spec fn aligned(len: int) -> int {
    (len + 3) / 4 * 4
}

/// Rounds a length up to the attribute alignment.
fn align(len: usize) -> (r: usize)
    requires
        len <= usize::MAX - 3,
    ensures
        r == aligned(len as int),
{
    (len + (NLA_ALIGN - 1)) / NLA_ALIGN * NLA_ALIGN
}

/// Where the record after one of `len` bytes starts in a buffer of `total`.
pub open spec fn next_start(len: int, total: int) -> int {
    if aligned(len) < total {
        aligned(len)
    } else {
        total
    }
}

fn start_after(len: usize, total: usize) -> (r: usize)
    requires
        len <= total,
    ensures
        r == next_start(len as int, total as int),
        len <= r <= total,
{
    if len > usize::MAX - 3 {
        total
    } else {
        let end: usize = align(len);
        if end < total {
            end
        } else {
            total
        }
    }
}

/// One attribute as the kernel wrote it: its type without the nesting flag
/// and its payload.
pub struct Attr {
    pub attr_type: u16,
    pub data: Seq<u8>,
}

/// The length that the first attribute of a buffer claims.
pub open spec fn attr_len(order: ByteOrder, b: Seq<u8>) -> nat {
    value(order, b.subrange(0, 2))
}

/// Whether a buffer starts with a whole attribute.
pub open spec fn has_attr(order: ByteOrder, b: Seq<u8>) -> bool {
    b.len() >= 4 && 4 <= attr_len(order, b) <= b.len()
}

/// The first attribute of a buffer.
pub open spec fn first_attr(order: ByteOrder, b: Seq<u8>) -> Attr {
    Attr {
        attr_type: (value(order, b.subrange(2, 4)) % 0x8000) as u16,
        data: b.subrange(4, attr_len(order, b) as int),
    }
}

/// What follows the first attribute of a buffer.
pub open spec fn after_attr(order: ByteOrder, b: Seq<u8>) -> Seq<u8> {
    b.skip(next_start(attr_len(order, b) as int, b.len() as int))
}

/// The attributes of a buffer, up to the first that is not whole.
pub open spec fn attributes(order: ByteOrder, b: Seq<u8>) -> Seq<Attr>
    decreases b.len(),
{
    if has_attr(order, b) {
        seq![first_attr(order, b)] + attributes(order, after_attr(order, b))
    } else {
        seq![]
    }
}

/// The bytes before the first zero byte.
pub open spec fn before_zero(b: Seq<u8>) -> Seq<u8>
    decreases b.len(),
{
    if b.len() == 0 || b[0] == 0 {
        seq![]
    } else {
        seq![b[0]] + before_zero(b.drop_first())
    }
}

/// The text of a zero-terminated byte string; empty when it is not UTF-8.
pub open spec fn c_text(b: Seq<u8>) -> Seq<char> {
    if vstd::utf8::valid_utf8(before_zero(b)) {
        vstd::utf8::decode_utf8(before_zero(b))
    } else {
        seq![]
    }
}

/// `std::str::from_utf8` succeeds exactly on valid UTF-8 and then gives the
/// text that the bytes encode.
#[verifier::external_body]
fn utf8_text(v: &[u8]) -> (r: Option<&str>)
    ensures
        r is Some <==> vstd::utf8::valid_utf8(v@),
        r matches Some(s) ==> s@ == vstd::utf8::decode_utf8(v@),
{
    core::str::from_utf8(v).ok()
}

/// Parsed netlink attribute.
pub struct Nla<'a> {
    pub attr_type: u16,
    pub data: &'a [u8],
    pub order: ByteOrder,
}

impl<'a> View for Nla<'a> {
    type V = Attr;

    open spec fn view(&self) -> Attr {
        Attr { attr_type: self.attr_type, data: self.data@ }
    }
}

/// The byte an attribute carries; zero when it has none.
pub open spec fn attr_u8(data: Seq<u8>) -> u8 {
    if data.len() == 0 {
        0
    } else {
        data[0]
    }
}

/// The 32-bit number an attribute carries; zero when it is too short.
pub open spec fn attr_u32(order: ByteOrder, data: Seq<u8>) -> u32 {
    if data.len() < 4 {
        0
    } else {
        value(order, data.subrange(0, 4)) as u32
    }
}

/// The 64-bit number an attribute carries; zero when it is too short.
pub open spec fn attr_u64(order: ByteOrder, data: Seq<u8>) -> u64 {
    if data.len() < 8 {
        0
    } else {
        value(order, data.subrange(0, 8)) as u64
    }
}

impl<'a> Nla<'a> {
    pub fn u8(&self) -> (r: u8)
        ensures
            r == attr_u8(self.data@),
    {
        if self.data.len() == 0 {
            0
        } else {
            self.data[0]
        }
    }

    pub fn u32(&self) -> (r: u32)
        ensures
            r == attr_u32(self.order, self.data@),
    {
        if self.data.len() < 4 {
            return 0;
        }
        proof {
            lemma_value_bound(self.order, self.data@.subrange(0, 4));
        }
        read_number(self.order, self.data, 0, 4) as u32
    }

    pub fn u64(&self) -> (r: u64)
        ensures
            r == attr_u64(self.order, self.data@),
    {
        if self.data.len() < 8 {
            return 0;
        }
        proof {
            lemma_value_bound(self.order, self.data@.subrange(0, 8));
        }
        read_number(self.order, self.data, 0, 8)
    }

    /// The text up to the first zero byte.
    pub fn str(&self) -> (r: &str)
        ensures
            r@ == c_text(self.data@),
    {
        let end: usize = zero_position(self.data);
        let bytes: &[u8] = &self.data[0..end];
        assert(bytes@ == before_zero(self.data@));
        match utf8_text(bytes) {
            Some(s) => s,
            None => {
                proof {
                    reveal_strlit("");
                    assert(""@ =~= Seq::<char>::empty());
                }
                ""
            },
        }
    }

    /// Iterate child attributes within a nested attribute.
    pub fn nested(&self) -> (r: NlaIter<'a>)
        ensures
            r@ == attributes(self.order, self.data@),
            r.rest@ == self.data@,
            r.order == self.order,
    {
        NlaIter { rest: self.data, order: self.order }
    }
}

/// Where the first zero byte stands; the length when there is none.
pub fn zero_position(b: &[u8]) -> (r: usize)
    ensures
        r <= b.len(),
        b@.subrange(0, r as int) == before_zero(b@),
{
    let mut i: usize = 0;
    assert(b@.skip(0) =~= b@);
    while i < b.len() && b[i] != 0
        invariant
            i <= b.len(),
            before_zero(b@) == b@.subrange(0, i as int) + before_zero(b@.skip(i as int)),
        decreases b.len() - i,
    {
        let ghost left = b@.skip(i as int);
        assert(left[0] == b@[i as int]);
        assert(left.drop_first() =~= b@.skip(i + 1));
        assert(b@.subrange(0, i as int) + (seq![left[0]] + before_zero(left.drop_first()))
            =~= b@.subrange(0, i + 1) + before_zero(b@.skip(i + 1)));
        i += 1;
    }
    assert(i < b.len() ==> b@.skip(i as int)[0] == b@[i as int]);
    assert(before_zero(b@.skip(i as int)) =~= seq![]);
    assert(before_zero(b@) =~= b@.subrange(0, i as int));
    i
}

/// Iterator over netlink attributes in a byte buffer.
pub struct NlaIter<'a> {
    pub rest: &'a [u8],
    pub order: ByteOrder,
}

impl<'a> View for NlaIter<'a> {
    type V = Seq<Attr>;

    /// The attributes still to come.
    open spec fn view(&self) -> Seq<Attr> {
        attributes(self.order, self.rest@)
    }
}

impl<'a> NlaIter<'a> {
    /// The next attribute; none once the rest holds no whole attribute.
    pub fn next(&mut self) -> (r: Option<Nla<'a>>)
        ensures
            final(self).order == old(self).order,
            match r {
                Some(nla) => {
                    &&& has_attr(old(self).order, old(self).rest@)
                    &&& nla@ == first_attr(old(self).order, old(self).rest@)
                    &&& nla.order == old(self).order
                    &&& final(self).rest@ == after_attr(old(self).order, old(self).rest@)
                    &&& old(self)@.len() > 0
                    &&& nla@ == old(self)@[0]
                    &&& final(self)@ == old(self)@.drop_first()
                    &&& final(self).rest@.len() < old(self).rest@.len()
                },
                None => {
                    &&& !has_attr(old(self).order, old(self).rest@)
                    &&& old(self)@.len() == 0
                    &&& *final(self) == *old(self)
                },
            },
    {
        let ghost b = self.rest@;
        let total: usize = self.rest.len();
        if total < NLA_HDR_LEN {
            return None;
        }
        let len: usize = read_number(self.order, self.rest, 0, 2) as usize;
        let raw: u16 = read_number(self.order, self.rest, 2, 2) as u16;
        proof {
            lemma_value_bound(self.order, b.subrange(0, 2));
            lemma_value_bound(self.order, b.subrange(2, 4));
        }
        if len < NLA_HDR_LEN || len > total {
            return None;
        }
        let nla = Nla {
            attr_type: raw % 0x8000,
            data: &self.rest[NLA_HDR_LEN..len],
            order: self.order,
        };
        let from: usize = start_after(len, total);
        self.rest = &self.rest[from..total];
        assert(self.rest@ =~= after_attr(self.order, b));
        assert(nla@ == first_attr(self.order, b));
        assert(attributes(self.order, b).drop_first() =~= attributes(
            self.order,
            after_attr(self.order, b),
        ));
        Some(nla)
    }
}

/// The contents of a list of attributes.
pub open spec fn attr_views(v: Seq<Nla>) -> Seq<Attr> {
    Seq::new(v.len(), |i: int| v[i]@)
}

impl<'a> NlaIter<'a> {
    /// All attributes still to come, in order.
    pub fn collect(self) -> (r: Vec<Nla<'a>>)
        ensures
            attr_views(r@) == self@,
            forall|i: int| 0 <= i < r@.len() ==> (#[trigger] r@[i]).order == self.order,
    {
        let mut iter = NlaIter { rest: self.rest, order: self.order };
        let ghost all = iter@;
        let mut out: Vec<Nla<'a>> = Vec::new();
        assert(all.skip(0) =~= all);
        assert(attr_views(out@) =~= all.take(0));
        loop
            invariant
                out@.len() <= all.len(),
                iter@ == all.skip(out@.len() as int),
                iter.order == self.order,
                attr_views(out@) == all.take(out@.len() as int),
                forall|i: int| 0 <= i < out@.len() ==> (#[trigger] out@[i]).order == self.order,
                all == self@,
            decreases iter.rest@.len(),
        {
            let ghost n = out@.len() as int;
            match iter.next() {
                None => {
                    assert(all.take(n) =~= all);
                    return out;
                },
                Some(nla) => {
                    proof {
                        text::lemma_take_step(all, n);
                        assert(all.skip(n).drop_first() =~= all.skip(n + 1));
                    }
                    let ghost before = attr_views(out@);
                    out.push(nla);
                    assert(attr_views(out@) =~= before.push(all[n]));
                },
            }
        }
    }
}

/// A message header: total length, type, flags, sequence number and the
/// kernel as receiver.
pub open spec fn header(order: ByteOrder, len: nat, msg_type: u16, flags: u16, seq: u32) -> Seq<
    u8,
> {
    bytes_of(order, len, 4) + bytes_of(order, msg_type as nat, 2) + bytes_of(order, flags as nat, 2)
        + bytes_of(order, seq as nat, 4) + bytes_of(order, 0, 4)
}

/// An attribute that carries a 32-bit number.
pub open spec fn u32_attr(order: ByteOrder, attr_type: u16, val: u32) -> Seq<u8> {
    bytes_of(order, 8, 2) + bytes_of(order, attr_type as nat, 2) + bytes_of(order, val as nat, 4)
}

/// A buffer whose first four bytes are its own length.
pub open spec fn with_length(order: ByteOrder, b: Seq<u8>) -> Seq<u8> {
    bytes_of(order, b.len() % 0x1_0000_0000, 4) + b.skip(4)
}

/// Constructs a netlink message with chained attribute appends.
pub struct NlMsgBuilder {
    buf: Vec<u8>,
    order: ByteOrder,
}

impl View for NlMsgBuilder {
    type V = Seq<u8>;

    /// The bytes gathered so far, with the length field not yet final.
    closed spec fn view(&self) -> Seq<u8> {
        self.buf@
    }
}

impl NlMsgBuilder {
    #[verifier::type_invariant]
    spec fn has_header(self) -> bool {
        self.buf@.len() >= 16
    }

    /// The byte order the builder writes in.
    pub closed spec fn byte_order(&self) -> ByteOrder {
        self.order
    }

    /// Starts a message in the byte order of the machine.
    pub fn new(msg_type: u16, flags: u16, seq: u32) -> (r: Self)
        ensures
            r@ == header(machine_order(), 16, msg_type, flags, seq),
            r.byte_order() == machine_order(),
    {
        Self::with_order(ByteOrder::native(), msg_type, flags, seq)
    }

    /// Starts a message in a given byte order.
    pub fn with_order(order: ByteOrder, msg_type: u16, flags: u16, seq: u32) -> (r: Self)
        ensures
            r@ == header(order, 16, msg_type, flags, seq),
            r.byte_order() == order,
    {
        let mut buf: Vec<u8> = Vec::with_capacity(128);
        push_number(&mut buf, order, NLMSG_HDR_LEN as u64, 4);
        push_number(&mut buf, order, msg_type as u64, 2);
        push_number(&mut buf, order, flags as u64, 2);
        push_number(&mut buf, order, seq as u64, 4);
        push_number(&mut buf, order, 0, 4);
        proof {
            lemma_header_len(order, 16, msg_type, flags, seq);
            assert(buf@ =~= header(order, 16, msg_type, flags, seq));
        }
        NlMsgBuilder { buf, order }
    }

    /// Appends an attribute with a 32-bit number.
    pub fn put_u32(self, attr_type: u16, val: u32) -> (r: Self)
        ensures
            r@ == self@ + u32_attr(self.byte_order(), attr_type, val),
            r.byte_order() == self.byte_order(),
    {
        proof {
            use_type_invariant(&self);
        }
        let order = self.order;
        let ghost start = self.buf@;
        let mut buf = self.buf;
        push_number(&mut buf, order, (NLA_HDR_LEN + 4) as u64, 2);
        push_number(&mut buf, order, attr_type as u64, 2);
        push_number(&mut buf, order, val as u64, 4);
        assert(buf@ =~= start + u32_attr(order, attr_type, val));
        NlMsgBuilder { buf, order }
    }

    /// Finalize the message, patching the total length in the header.
    pub fn build(self) -> (r: Vec<u8>)
        ensures
            r@ == with_length(self.byte_order(), self@),
    {
        proof {
            use_type_invariant(&self);
        }
        let mut out: Vec<u8> = Vec::with_capacity(self.buf.len());
        let len: u64 = self.buf.len() as u64 % 0x1_0000_0000;
        push_number(&mut out, self.order, len, 4);
        let rest: &[u8] = &self.buf.as_slice()[4..self.buf.len()];
        out.extend_from_slice(rest);
        assert(rest@ =~= self.buf@.skip(4));
        assert(out@ =~= with_length(self.order, self.buf@));
        out
    }

    /// Append raw bytes (e.g. for ifinfomsg struct payload).
    pub fn put_raw(self, data: &[u8]) -> (r: Self)
        ensures
            r@ == self@ + data@,
            r.byte_order() == self.byte_order(),
    {
        proof {
            use_type_invariant(&self);
        }
        let order = self.order;
        let ghost start = self.buf@;
        let mut buf = self.buf;
        buf.extend_from_slice(data);
        assert(buf@ =~= start + data@);
        NlMsgBuilder { buf, order }
    }
}

proof fn lemma_header_len(order: ByteOrder, len: nat, msg_type: u16, flags: u16, seq: u32)
    ensures
        header(order, len, msg_type, flags, seq).len() == 16,
{
    lemma_bytes_len(order, len, 4);
    lemma_bytes_len(order, msg_type as nat, 2);
    lemma_bytes_len(order, flags as nat, 2);
    lemma_bytes_len(order, seq as nat, 4);
    lemma_bytes_len(order, 0, 4);
}

/// One message as the kernel wrote it.
pub struct Message {
    pub msg_type: u16,
    pub payload: Seq<u8>,
}

/// The length that the first message of a buffer claims.
pub open spec fn msg_len(order: ByteOrder, b: Seq<u8>) -> nat {
    value(order, b.subrange(0, 4))
}

/// Whether a buffer starts with a whole message.
pub open spec fn has_msg(order: ByteOrder, b: Seq<u8>) -> bool {
    b.len() >= 16 && 16 <= msg_len(order, b) <= b.len()
}

/// The first message of a buffer.
pub open spec fn first_msg(order: ByteOrder, b: Seq<u8>) -> Message {
    Message {
        msg_type: value(order, b.subrange(4, 6)) as u16,
        payload: b.subrange(16, msg_len(order, b) as int),
    }
}

/// What follows the first message of a buffer.
pub open spec fn after_msg(order: ByteOrder, b: Seq<u8>) -> Seq<u8> {
    b.skip(next_start(msg_len(order, b) as int, b.len() as int))
}

/// The messages of a buffer, up to the first that is not whole.
pub open spec fn messages(order: ByteOrder, b: Seq<u8>) -> Seq<Message>
    decreases b.len(),
{
    if has_msg(order, b) {
        seq![first_msg(order, b)] + messages(order, after_msg(order, b))
    } else {
        seq![]
    }
}

/// Whether a message ends a reply.
pub open spec fn ends_reply(m: Message) -> bool {
    m.msg_type == NLMSG_DONE || m.msg_type == NLMSG_ERROR
}

/// Iterator over netlink messages in a recv buffer.
pub struct NlMsgIter<'a> {
    buf: &'a [u8],
    order: ByteOrder,
}

impl<'a> View for NlMsgIter<'a> {
    type V = Seq<Message>;

    /// The messages still to come.
    open spec fn view(&self) -> Seq<Message> {
        messages(self.byte_order(), self.rest())
    }
}

/// A single netlink message.
pub struct NlMsg<'a> {
    pub msg_type: u16,
    pub payload: &'a [u8],
    pub order: ByteOrder,
}

impl<'a> View for NlMsg<'a> {
    type V = Message;

    open spec fn view(&self) -> Message {
        Message { msg_type: self.msg_type, payload: self.payload@ }
    }
}

impl<'a> NlMsg<'a> {
    pub fn attrs(&self) -> (r: NlaIter<'a>)
        ensures
            r@ == attributes(self.order, self.payload@),
            r.rest@ == self.payload@,
            r.order == self.order,
    {
        NlaIter { rest: self.payload, order: self.order }
    }

    pub fn is_done(&self) -> (r: bool)
        ensures
            r == (self.msg_type == NLMSG_DONE),
    {
        self.msg_type == NLMSG_DONE
    }

    pub fn is_error(&self) -> (r: bool)
        ensures
            r == (self.msg_type == NLMSG_ERROR),
    {
        self.msg_type == NLMSG_ERROR
    }
}

impl<'a> NlMsgIter<'a> {
    /// The byte order the messages are read in.
    pub closed spec fn byte_order(&self) -> ByteOrder {
        self.order
    }

    /// The bytes not yet read.
    pub closed spec fn rest(&self) -> Seq<u8> {
        self.buf@
    }

    /// Reads a buffer in the byte order of the machine.
    pub fn new(buf: &'a [u8]) -> (r: Self)
        ensures
            r@ == messages(machine_order(), buf@),
            r.byte_order() == machine_order(),
            r.rest() == buf@,
    {
        Self::with_order(ByteOrder::native(), buf)
    }

    /// Reads a buffer in a given byte order.
    pub fn with_order(order: ByteOrder, buf: &'a [u8]) -> (r: Self)
        ensures
            r@ == messages(order, buf@),
            r.byte_order() == order,
            r.rest() == buf@,
    {
        NlMsgIter { buf, order }
    }

    /// The next message; none once the rest holds no whole message.
    pub fn next(&mut self) -> (r: Option<NlMsg<'a>>)
        ensures
            final(self).byte_order() == old(self).byte_order(),
            match r {
                Some(msg) => {
                    &&& has_msg(old(self).byte_order(), old(self).rest())
                    &&& msg@ == first_msg(old(self).byte_order(), old(self).rest())
                    &&& msg.order == old(self).byte_order()
                    &&& final(self).rest() == after_msg(old(self).byte_order(), old(self).rest())
                    &&& old(self)@.len() > 0
                    &&& msg@ == old(self)@[0]
                    &&& final(self)@ == old(self)@.drop_first()
                    &&& final(self).rest().len() < old(self).rest().len()
                },
                None => {
                    &&& !has_msg(old(self).byte_order(), old(self).rest())
                    &&& old(self)@.len() == 0
                    &&& *final(self) == *old(self)
                },
            },
    {
        let ghost b = self.buf@;
        let total: usize = self.buf.len();
        if total < NLMSG_HDR_LEN {
            return None;
        }
        let long: u64 = read_number(self.order, self.buf, 0, 4);
        let msg_type: u16 = read_number(self.order, self.buf, 4, 2) as u16;
        proof {
            lemma_value_bound(self.order, b.subrange(0, 4));
            lemma_value_bound(self.order, b.subrange(4, 6));
        }
        if long < NLMSG_HDR_LEN as u64 || long > total as u64 {
            return None;
        }
        let len: usize = long as usize;
        let msg = NlMsg { msg_type, payload: &self.buf[NLMSG_HDR_LEN..len], order: self.order };
        let from: usize = start_after(len, total);
        self.buf = &self.buf[from..total];
        assert(self.buf@ =~= after_msg(self.order, b));
        assert(msg@ == first_msg(self.order, b));
        assert(messages(self.order, b).drop_first() =~= messages(
            self.order,
            after_msg(self.order, b),
        ));
        Some(msg)
    }
}

/// Whether some message of a received buffer ends the reply it belongs to:
/// the kernel is done, or has answered with an error.
pub fn reply_ends(order: ByteOrder, buf: &[u8]) -> (r: bool)
    ensures
        r == exists|i: int|
            0 <= i < messages(order, buf@).len() && #[trigger] ends_reply(messages(order, buf@)[i]),
{
    let mut iter = NlMsgIter::with_order(order, buf);
    let ghost all = iter@;
    let mut seen: Ghost<int> = Ghost(0);
    loop
        invariant
            all == messages(order, buf@),
            0 <= seen@ <= all.len(),
            iter@ == all.skip(seen@),
            forall|i: int| 0 <= i < seen@ ==> !ends_reply(all[i]),
        decreases iter.rest().len(),
    {
        match iter.next() {
            None => {
                assert(seen@ == all.len());
                return false;
            },
            Some(msg) => {
                assert(msg@ == all[seen@]);
                if msg.is_done() || msg.is_error() {
                    assert(ends_reply(all[seen@]));
                    return true;
                }
                proof {
                    assert(all.skip(seen@).drop_first() =~= all.skip(seen@ + 1));
                    seen@ = seen@ + 1;
                }
            },
        }
    }
}

/// The messages that carry data: all but those that end a reply.
pub open spec fn data_messages(ms: Seq<Message>) -> Seq<Message>
    decreases ms.len(),
{
    if ms.len() == 0 {
        seq![]
    } else if ends_reply(ms.last()) {
        data_messages(ms.drop_last())
    } else {
        data_messages(ms.drop_last()).push(ms.last())
    }
}

/// The contents of a list of messages.
pub open spec fn message_views(v: Seq<NlMsg>) -> Seq<Message> {
    Seq::new(v.len(), |i: int| v[i]@)
}

/// The messages of a buffer that carry data, in order.
pub fn payload_messages<'a>(order: ByteOrder, buf: &'a [u8]) -> (r: Vec<NlMsg<'a>>)
    ensures
        message_views(r@) == data_messages(messages(order, buf@)),
        forall|i: int| 0 <= i < r@.len() ==> (#[trigger] r@[i]).order == order,
{
    let mut iter = NlMsgIter::with_order(order, buf);
    let ghost all = iter@;
    let mut seen: Ghost<int> = Ghost(0);
    let mut out: Vec<NlMsg<'a>> = Vec::new();
    assert(all.skip(0) =~= all);
    assert(message_views(out@) =~= data_messages(all.take(0)));
    loop
        invariant
            all == messages(order, buf@),
            0 <= seen@ <= all.len(),
            iter@ == all.skip(seen@),
            iter.byte_order() == order,
            message_views(out@) == data_messages(all.take(seen@)),
            forall|i: int| 0 <= i < out@.len() ==> (#[trigger] out@[i]).order == order,
        decreases iter.rest().len(),
    {
        match iter.next() {
            None => {
                assert(all.take(seen@) =~= all);
                return out;
            },
            Some(msg) => {
                proof {
                    text::lemma_take_step(all, seen@);
                    assert(all.skip(seen@).drop_first() =~= all.skip(seen@ + 1));
                }
                if !(msg.is_done() || msg.is_error()) {
                    let ghost before = message_views(out@);
                    out.push(msg);
                    assert(message_views(out@) =~= before.push(all[seen@]));
                }
                proof {
                    seen@ = seen@ + 1;
                }
            },
        }
    }
}

/// A list of 32-bit attributes as a builder appends them.
pub open spec fn u32_attrs(order: ByteOrder, attrs: Seq<(u16, u32)>) -> Seq<u8>
    decreases attrs.len(),
{
    if attrs.len() == 0 {
        seq![]
    } else {
        u32_attr(order, attrs[0].0, attrs[0].1) + u32_attrs(order, attrs.drop_first())
    }
}

/// A finished request: what `with_order`, one `put_u32` for each attribute and
/// `build` give.
pub open spec fn request(
    order: ByteOrder,
    msg_type: u16,
    flags: u16,
    seq: u32,
    attrs: Seq<(u16, u32)>,
) -> Seq<u8> {
    with_length(order, header(order, 16, msg_type, flags, seq) + u32_attrs(order, attrs))
}

/// Appending one attribute extends the list at its end.
pub proof fn lemma_u32_attrs_push(order: ByteOrder, attrs: Seq<(u16, u32)>, attr_type: u16, val: u32)
    ensures
        u32_attrs(order, attrs.push((attr_type, val))) == u32_attrs(order, attrs) + u32_attr(
            order,
            attr_type,
            val,
        ),
    decreases attrs.len(),
{
    let more = attrs.push((attr_type, val));
    if attrs.len() == 0 {
        assert(more.drop_first() =~= seq![]);
        assert(u32_attrs(order, more.drop_first()) =~= seq![]);
        assert(u32_attrs(order, more) =~= u32_attr(order, attr_type, val));
        assert(u32_attrs(order, attrs) + u32_attr(order, attr_type, val) =~= u32_attr(
            order,
            attr_type,
            val,
        ));
    } else {
        assert(more.drop_first() =~= attrs.drop_first().push((attr_type, val)));
        lemma_u32_attrs_push(order, attrs.drop_first(), attr_type, val);
        assert(u32_attrs(order, more) =~= u32_attrs(order, attrs) + u32_attr(
            order,
            attr_type,
            val,
        ));
    }
}

proof fn lemma_u32_attr_parts(order: ByteOrder, attr_type: u16, val: u32)
    ensures
        u32_attr(order, attr_type, val).len() == 8,
        value(order, u32_attr(order, attr_type, val).subrange(0, 2)) == 8,
        value(order, u32_attr(order, attr_type, val).subrange(2, 4)) == attr_type,
        u32_attr(order, attr_type, val).subrange(4, 8) == bytes_of(order, val as nat, 4),
        value(order, bytes_of(order, val as nat, 4)) == val,
{
    let a = u32_attr(order, attr_type, val);
    lemma_bytes_len(order, 8, 2);
    lemma_bytes_len(order, attr_type as nat, 2);
    lemma_bytes_len(order, val as nat, 4);
    lemma_fits(8);
    lemma_fits(attr_type as nat);
    lemma_fits(val as nat);
    lemma_value_of_bytes(order, 8, 2);
    lemma_value_of_bytes(order, attr_type as nat, 2);
    lemma_value_of_bytes(order, val as nat, 4);
    assert(a.subrange(0, 2) =~= bytes_of(order, 8, 2));
    assert(a.subrange(2, 4) =~= bytes_of(order, attr_type as nat, 2));
    assert(a.subrange(4, 8) =~= bytes_of(order, val as nat, 4));
}

/// Attributes that a builder appended are read back in order: each with its
/// type, without the nesting flag, and with the four bytes of its number.
pub proof fn law_attributes_round_trip(order: ByteOrder, attrs: Seq<(u16, u32)>)
    ensures
        u32_attrs(order, attrs).len() == 8 * attrs.len(),
        attributes(order, u32_attrs(order, attrs)).len() == attrs.len(),
        forall|i: int|
            0 <= i < attrs.len() ==> {
                let read = #[trigger] attributes(order, u32_attrs(order, attrs))[i];
                &&& read.attr_type == attrs[i].0 % 0x8000
                &&& read.data.len() == 4
                &&& attr_u32(order, read.data) == attrs[i].1
            },
    decreases attrs.len(),
{
    let b = u32_attrs(order, attrs);
    if attrs.len() > 0 {
        let first = u32_attr(order, attrs[0].0, attrs[0].1);
        let rest = u32_attrs(order, attrs.drop_first());
        lemma_u32_attr_parts(order, attrs[0].0, attrs[0].1);
        law_attributes_round_trip(order, attrs.drop_first());
        assert(b.subrange(0, 2) =~= first.subrange(0, 2));
        assert(b.subrange(2, 4) =~= first.subrange(2, 4));
        assert(b.subrange(4, 8) =~= first.subrange(4, 8));
        assert(attr_len(order, b) == 8);
        assert(has_attr(order, b));
        assert(after_attr(order, b) =~= rest);
        let read = first_attr(order, b);
        assert(read.attr_type == attrs[0].0 % 0x8000);
        assert(read.data.subrange(0, 4) =~= bytes_of(order, attrs[0].1 as nat, 4));
        assert(attr_u32(order, read.data) == attrs[0].1);
        let all = attributes(order, b);
        assert(all =~= seq![read] + attributes(order, rest));
        assert forall|i: int| 0 <= i < attrs.len() implies {
            let read = #[trigger] all[i];
            &&& read.attr_type == attrs[i].0 % 0x8000
            &&& read.data.len() == 4
            &&& attr_u32(order, read.data) == attrs[i].1
        } by {
            if i > 0 {
                assert(all[i] == attributes(order, rest)[i - 1]);
                assert(attrs.drop_first()[i - 1] == attrs[i]);
            }
        }
    }
}

/// A request states its own length, in 32 bits, and while the length fits in
/// them, it reads back as one message of its type whose payload is the
/// attributes that were put in.
pub proof fn law_request_round_trip(
    order: ByteOrder,
    msg_type: u16,
    flags: u16,
    seq: u32,
    attrs: Seq<(u16, u32)>,
)
    ensures
        request(order, msg_type, flags, seq, attrs).len() == 16 + 8 * attrs.len(),
        msg_len(order, request(order, msg_type, flags, seq, attrs)) == (16 + 8 * attrs.len())
            % 0x1_0000_0000,
        16 + 8 * attrs.len() < 0x1_0000_0000 ==> messages(
            order,
            request(order, msg_type, flags, seq, attrs),
        ) == seq![Message { msg_type, payload: u32_attrs(order, attrs) }],
{
    let body = u32_attrs(order, attrs);
    let head = header(order, 16, msg_type, flags, seq);
    let b = request(order, msg_type, flags, seq, attrs);
    let len = (16 + 8 * attrs.len()) as nat;
    law_attributes_round_trip(order, attrs);
    lemma_header_len(order, 16, msg_type, flags, seq);
    lemma_bytes_len(order, 16, 4);
    let field = len % 0x1_0000_0000;
    lemma_bytes_len(order, field, 4);
    lemma_bytes_len(order, msg_type as nat, 2);
    lemma_bytes_len(order, flags as nat, 2);
    lemma_bytes_len(order, seq as nat, 4);
    lemma_bytes_len(order, 0, 4);
    lemma_fits(field);
    lemma_fits(msg_type as nat);
    lemma_value_of_bytes(order, field, 4);
    lemma_value_of_bytes(order, msg_type as nat, 2);
    assert((head + body).len() == len);
    assert(b.subrange(0, 4) =~= bytes_of(order, field, 4));
    assert(b.subrange(4, 6) =~= bytes_of(order, msg_type as nat, 2));
    if len < 0x1_0000_0000 {
        assert(b.subrange(16, len as int) =~= body);
        assert(after_msg(order, b) =~= seq![]);
        assert(messages(order, after_msg(order, b)) =~= seq![]);
        assert(messages(order, b) =~= seq![first_msg(order, b)]);
    }
}

/// An attribute with any data is read back with its type, without the nesting
/// flag, and its data; reading goes on behind its padding.
pub proof fn law_attribute_is_read_back(
    order: ByteOrder,
    attr_type: u16,
    data: Seq<u8>,
    padding: Seq<u8>,
    rest: Seq<u8>,
)
    requires
        data.len() + 4 <= 0xffff,
        padding.len() < 4,
        (data.len() + padding.len()) % 4 == 0,
    ensures
        attributes(
            order,
            bytes_of(order, data.len() + 4, 2) + bytes_of(order, attr_type as nat, 2) + data + padding
                + rest,
        ) == seq![Attr { attr_type: (attr_type % 0x8000) as u16, data }] + attributes(order, rest),
{
    let len = data.len() + 4;
    let b = bytes_of(order, len, 2) + bytes_of(order, attr_type as nat, 2) + data + padding + rest;
    lemma_fits(len);
    lemma_fits(attr_type as nat);
    lemma_bytes_len(order, len, 2);
    lemma_bytes_len(order, attr_type as nat, 2);
    lemma_value_of_bytes(order, len, 2);
    lemma_value_of_bytes(order, attr_type as nat, 2);
    assert(b.subrange(0, 2) =~= bytes_of(order, len, 2));
    assert(b.subrange(2, 4) =~= bytes_of(order, attr_type as nat, 2));
    assert(b.subrange(4, len as int) =~= data);
    assert(has_attr(order, b));
    assert(aligned(len as int) == len + padding.len());
    assert(after_attr(order, b) =~= rest);
}

/// A message with any payload is read back with its type and payload; reading
/// goes on behind its padding.
pub proof fn law_message_is_read_back(
    order: ByteOrder,
    msg_type: u16,
    flags: u16,
    seq: u32,
    payload: Seq<u8>,
    padding: Seq<u8>,
    rest: Seq<u8>,
)
    requires
        payload.len() + 16 < 0x1_0000_0000,
        padding.len() < 4,
        (payload.len() + padding.len()) % 4 == 0,
    ensures
        messages(
            order,
            header(order, payload.len() + 16, msg_type, flags, seq) + payload + padding + rest,
        ) == seq![Message { msg_type, payload }] + messages(order, rest),
{
    let len = payload.len() + 16;
    let h = header(order, len, msg_type, flags, seq);
    let b = h + payload + padding + rest;
    lemma_header_len(order, len, msg_type, flags, seq);
    lemma_fits(len);
    lemma_fits(msg_type as nat);
    lemma_bytes_len(order, len, 4);
    lemma_bytes_len(order, msg_type as nat, 2);
    lemma_bytes_len(order, flags as nat, 2);
    lemma_bytes_len(order, seq as nat, 4);
    lemma_bytes_len(order, 0, 4);
    lemma_value_of_bytes(order, len, 4);
    lemma_value_of_bytes(order, msg_type as nat, 2);
    assert(b.subrange(0, 4) =~= bytes_of(order, len, 4));
    assert(b.subrange(4, 6) =~= bytes_of(order, msg_type as nat, 2));
    assert(b.subrange(16, len as int) =~= payload);
    assert(has_msg(order, b));
    assert(aligned(len as int) == len + padding.len());
    assert(after_msg(order, b) =~= rest);
}

/// Data messages are kept in order; those that end a reply, of type 2 or 3, are
/// dropped wherever they stand.
pub proof fn law_data_messages_concatenate(a: Seq<Message>, b: Seq<Message>, m: Message)
    ensures
        data_messages(a + b) == data_messages(a) + data_messages(b),
        m.msg_type == 2 || m.msg_type == 3 ==> data_messages(seq![m]).len() == 0,
        m.msg_type != 2 && m.msg_type != 3 ==> data_messages(seq![m]) == seq![m],
    decreases b.len(),
{
    assert(seq![m].drop_last() =~= seq![]);
    assert(data_messages(seq![]) =~= seq![]);
    if m.msg_type != 2 && m.msg_type != 3 {
        assert(data_messages(seq![m]) =~= seq![m]);
    }
    if b.len() == 0 {
        assert(a + b =~= a);
        assert(data_messages(b) =~= seq![]);
    } else {
        law_data_messages_concatenate(a, b.drop_last(), m);
        assert((a + b).drop_last() =~= a + b.drop_last());
        assert((a + b).last() == b.last());
    }
    assert(data_messages(a + b) =~= data_messages(a) + data_messages(b));
}

/// The least significant byte stands first in the one order and last in the
/// other.
pub proof fn law_byte_orders_mirror(b: Seq<u8>, low: u8)
    ensures
        value(ByteOrder::Little, seq![low] + b) == 256 * value(ByteOrder::Little, b) + low,
        value(ByteOrder::Big, b.push(low)) == 256 * value(ByteOrder::Big, b) + low,
        value(ByteOrder::Little, seq![]) == 0,
        value(ByteOrder::Big, seq![]) == 0,
{
    assert((seq![low] + b).drop_first() =~= b);
    assert(b.push(low).drop_last() =~= b);
}

/// A number in an attribute is its first bytes; data that is too short is 0.
pub proof fn law_short_data_is_zero(order: ByteOrder, data: Seq<u8>)
    ensures
        data.len() < 4 ==> attr_u32(order, data) == 0,
        data.len() >= 4 ==> attr_u32(order, data) == value(order, data.take(4)),
        data.len() < 8 ==> attr_u64(order, data) == 0,
        data.len() >= 8 ==> attr_u64(order, data) == value(order, data.take(8)),
        data.len() == 0 ==> attr_u8(data) == 0,
        data.len() > 0 ==> attr_u8(data) == data[0],
{
    if data.len() >= 4 {
        assert(data.take(4) =~= data.subrange(0, 4));
        lemma_value_bound(order, data.subrange(0, 4));
    }
    if data.len() >= 8 {
        assert(data.take(8) =~= data.subrange(0, 8));
        lemma_value_bound(order, data.subrange(0, 8));
    }
}

/// A text ends before its first zero byte, or with its data.
pub proof fn law_text_ends_at_the_first_zero(s: Seq<u8>, rest: Seq<u8>)
    requires
        forall|i: int| 0 <= i < s.len() ==> #[trigger] s[i] != 0,
    ensures
        before_zero(s) == s,
        before_zero(s + seq![0u8] + rest) == s,
        vstd::utf8::valid_utf8(s) ==> c_text(s + seq![0u8] + rest) == vstd::utf8::decode_utf8(s),
        !vstd::utf8::valid_utf8(s) ==> c_text(s + seq![0u8] + rest).len() == 0,
    decreases s.len(),
{
    let b = s + seq![0u8] + rest;
    if s.len() == 0 {
        assert(before_zero(s) =~= s);
        assert(b[0] == 0);
        assert(before_zero(b) =~= s);
    } else {
        let tail = s.drop_first();
        assert forall|i: int| 0 <= i < tail.len() implies #[trigger] tail[i] != 0 by {
            assert(s[i + 1] != 0);
        }
        law_text_ends_at_the_first_zero(tail, rest);
        assert(s[0] != 0);
        assert(b.drop_first() =~= tail + seq![0u8] + rest);
        assert(seq![s[0]] + tail =~= s);
        assert(before_zero(b) =~= s);
        assert(before_zero(s) =~= s);
    }
}

} // verus!
