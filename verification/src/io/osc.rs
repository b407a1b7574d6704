//! Messages for sound control: their arguments, their addresses and which
//! handlers take them.

use crate::error::{IoError, IoResult};
use crate::number::{Double, Single};
use crate::text::{char_text, chars_of, find_char, join, same_text};
use rosc::{OscPacket, OscType};
use vstd::prelude::*;
use vstd::slice::slice_subrange;
use vstd::string::*;

verus! {

/// The bit pattern of positive infinity in 64 bits.
pub const INFINITY_BITS: u64 = 0x7ff0_0000_0000_0000;

/// An argument of a message.
#[derive(Debug)]
pub enum OscArg {
    /// An integer of 32 bits.
    Int(i32),
    /// A number of 32 bits.
    Float(Single),
    /// A text.
    String(String),
    /// Bytes.
    Blob(Vec<u8>),
    /// An integer of 64 bits.
    Long(i64),
    /// A number of 64 bits.
    Double(Double),
    /// A truth value.
    Bool(bool),
    /// Nothing.
    Nil,
    /// An impulse.
    Impulse,
}

/// A message.
#[derive(Debug)]
pub struct OscMessage {
    /// What the message is addressed to.
    pub address: String,
    /// The arguments.
    pub args: Vec<OscArg>,
}

/// An argument as the protocol carries it.
#[derive(Debug)]
pub enum WireArg {
    /// An integer of 32 bits.
    Int(i32),
    /// A number of 32 bits.
    Float(Single),
    /// A text.
    Text(String),
    /// Bytes.
    Blob(Vec<u8>),
    /// An integer of 64 bits.
    Long(i64),
    /// A number of 64 bits.
    Double(Double),
    /// A truth value.
    Bool(bool),
    /// Nothing.
    Nil,
    /// Infinity.
    Inf,
    /// A point in time.
    Time,
    /// A character.
    Char(char),
    /// A colour.
    Color,
    /// A message to an instrument.
    Midi,
    /// A list.
    Array(Vec<WireArg>),
}

/// What the protocol carries.
#[derive(Debug)]
pub enum WirePacket {
    /// A message: its address and its arguments.
    Message(String, Vec<WireArg>),
    /// Packets that belong together.
    Bundle(Vec<WirePacket>),
}

/// `rosc::OscType`, an argument as the decoder gives it, which cannot be looked
/// into.
#[verifier::external_type_specification]
#[verifier::external_body]
pub struct ExOscType(OscType);

/// `rosc::OscPacket`, a packet as the decoder gives it, which cannot be looked
/// into.
#[verifier::external_type_specification]
#[verifier::external_body]
pub struct ExOscPacket(OscPacket);

/// The packet that bytes hold for `rosc::decoder::decode_udp`, if they hold one.
pub uninterp spec fn packet_of(data: Seq<u8>) -> Option<WirePacket>;

/// A `rosc::OscType`, variant by variant. Numbers with a point keep their bits.
/// Of a point in time, a colour and a message to an instrument only the kind is
/// kept. Nothing is claimed of it by itself.
#[verifier::external_body]
fn wire_arg(arg: OscType) -> WireArg {
    match arg {
        OscType::Int(v) => WireArg::Int(v),
        OscType::Float(v) => WireArg::Float(Single { bits: v.to_bits() }),
        OscType::String(v) => WireArg::Text(v),
        OscType::Blob(v) => WireArg::Blob(v),
        OscType::Long(v) => WireArg::Long(v),
        OscType::Double(v) => WireArg::Double(Double { bits: v.to_bits() }),
        OscType::Bool(v) => WireArg::Bool(v),
        OscType::Array(v) => WireArg::Array(v.content.into_iter().map(wire_arg).collect()),
        other => wire_mark(other),
    }
}

/// A `rosc::OscType` of the kinds that `wire_arg` leaves, variant by variant.
#[verifier::external_body]
fn wire_mark(arg: OscType) -> WireArg {
    match arg {
        OscType::Char(v) => WireArg::Char(v),
        OscType::Inf => WireArg::Inf,
        OscType::Time(_) => WireArg::Time,
        OscType::Color(_) => WireArg::Color,
        OscType::Midi(_) => WireArg::Midi,
        _ => WireArg::Nil,
    }
}

/// A `rosc::OscPacket`, variant by variant. Nothing is claimed of it by itself.
#[verifier::external_body]
fn wire_packet(packet: OscPacket) -> WirePacket {
    match packet {
        OscPacket::Message(m) => {
            WirePacket::Message(m.addr, m.args.into_iter().map(wire_arg).collect())
        },
        OscPacket::Bundle(b) => {
            WirePacket::Bundle(b.content.into_iter().map(wire_packet).collect())
        },
    }
}

/// How many bundles can stand inside one another, so that they can be followed.
pub const MAX_BUNDLES: usize = 256;

/// How many lists can stand inside one another, so that they can be followed.
pub const MAX_LISTS: usize = 4096;

/// Where a text that starts at a place ends: the first zero from there on, or
/// the end of the packet.
pub open spec fn text_end(data: Seq<u8>, at: int, end: int) -> int
    decreases end - at,
{
    if at >= end || data[at] == 0 {
        at
    } else {
        text_end(data, at + 1, end)
    }
}

/// The next place from `at` on that is a multiple of four.
pub open spec fn aligned(at: int) -> int {
    (at + 3) / 4 * 4
}

/// The number of lists that are open after the first `n` type tags. The first
/// tag says only that tags follow.
pub open spec fn open_lists(tags: Seq<u8>, n: int) -> int
    decreases n,
{
    if n <= 1 {
        0
    } else if tags[n - 1] == 91 {
        open_lists(tags, n - 1) + 1
    } else if tags[n - 1] == 93 {
        open_lists(tags, n - 1) - 1
    } else {
        open_lists(tags, n - 1)
    }
}

/// Whether the type tags close at most `MAX_LISTS` lists that stand inside one
/// another.
pub open spec fn lists_are_shallow(tags: Seq<u8>) -> bool {
    forall|i: int, j: int|
        0 <= i <= j <= tags.len() && #[trigger] open_lists(tags, j) >= 0 ==> #[trigger] open_lists(
            tags,
            i,
        ) - open_lists(tags, j) <= MAX_LISTS
}

/// Whether the message between two places has shallow lists: its type tags are
/// the text after its address.
pub open spec fn message_is_shallow(data: Seq<u8>, at: int, end: int) -> bool {
    let tags = aligned(text_end(data, at, end) + 1);
    tags <= end ==> lists_are_shallow(data.subrange(tags, text_end(data, tags, end)))
}

/// Whether a bundle stands between two places: the word `#bundle` with a zero
/// behind it, and room for a time.
pub open spec fn is_bundle(data: Seq<u8>, at: int, end: int) -> bool {
    &&& aligned(at + 8) + 8 <= end
    &&& data.subrange(at, at + 8) == seq![35u8, 98u8, 117u8, 110u8, 100u8, 108u8, 101u8, 0u8]
}

/// The number that four bytes hold, the highest first.
pub open spec fn be32_value(data: Seq<u8>, at: int) -> int {
    data[at] * 16777216 + data[at + 1] * 65536 + data[at + 2] * 256 + data[at + 3]
}

/// Whether the packet between two places holds at most `room` bundles inside
/// one another, and only shallow lists.
pub open spec fn packet_is_shallow(data: Seq<u8>, at: int, end: int, room: nat) -> bool
    decreases end - at,
{
    if at >= end {
        true
    } else if data[at] == 47 {
        message_is_shallow(data, at, end)
    } else if is_bundle(data, at, end) {
        room > 0 && content_is_shallow(data, aligned(at + 8) + 8, end, (room - 1) as nat)
    } else {
        true
    }
}

/// Whether all packets of a bundle, from a place on, are shallow. Before each of
/// them stands its length.
pub open spec fn content_is_shallow(data: Seq<u8>, at: int, end: int, room: nat) -> bool
    decreases end - at,
{
    let next = at + 4 + be32_value(data, at);
    if at + 4 > end || next < at + 4 || next > end {
        true
    } else {
        packet_is_shallow(data, at + 4, next, room) && content_is_shallow(data, next, end, room)
    }
}

/// Whether bundles and lists in a datagram are not nested so deeply that
/// following them takes more room than a thread has.
pub open spec fn is_shallow(data: Seq<u8>) -> bool {
    packet_is_shallow(data, 0, data.len() as int, MAX_BUNDLES as nat)
}

fn find_text_end(data: &[u8], at: usize, end: usize) -> (r: usize)
    requires
        at <= end <= data@.len(),
    ensures
        r == text_end(data@, at as int, end as int),
        at <= r <= end,
{
    let mut i: usize = at;
    while i < end && data[i] != 0
        invariant
            at <= i <= end <= data@.len(),
            text_end(data@, at as int, end as int) == text_end(data@, i as int, end as int),
        decreases end - i,
    {
        i += 1;
    }
    i
}

/// The next place that is a multiple of four, if it is not behind the end.
fn find_aligned(at: usize, end: usize) -> (r: Option<usize>)
    requires
        at <= end,
    ensures
        match r {
            Some(n) => n == aligned(at as int) && at <= n <= end,
            None => aligned(at as int) > end,
        },
{
    let over: usize = at % 4;
    let gap: usize = if over == 0 {
        0
    } else {
        4 - over
    };
    if end - at < gap {
        None
    } else {
        Some(at + gap)
    }
}

fn shallow_lists(tags: &[u8]) -> (r: bool)
    ensures
        r == lists_are_shallow(tags@),
{
    let mut level: i128 = 0;
    let mut peak: i128 = 0;
    let mut n: usize = 0;
    let ghost mut top: int = 0;
    while n < tags.len()
        invariant
            n <= tags@.len(),
            -n <= level <= n,
            level <= peak <= n,
            level == open_lists(tags@, n as int),
            0 <= top <= n,
            peak == open_lists(tags@, top),
            forall|i: int| 0 <= i <= n ==> #[trigger] open_lists(tags@, i) <= peak,
            forall|i: int, j: int|
                0 <= i <= j <= n && #[trigger] open_lists(tags@, j) >= 0
                    ==> #[trigger] open_lists(tags@, i) - open_lists(tags@, j) <= MAX_LISTS,
        decreases tags@.len() - n,
    {
        if n > 0 {
            if tags[n] == 91 {
                level += 1;
            } else if tags[n] == 93 {
                level -= 1;
            }
        }
        n += 1;
        assert(level == open_lists(tags@, n as int));
        if level > peak {
            peak = level;
            proof {
                top = n as int;
            }
        }
        if level >= 0 && peak - level > MAX_LISTS as i128 {
            assert(open_lists(tags@, n as int) >= 0);
            assert(open_lists(tags@, top) - open_lists(tags@, n as int) > MAX_LISTS);
            return false;
        }
    }
    true
}

fn shallow_message(data: &[u8], at: usize, end: usize) -> (r: bool)
    requires
        at < end <= data@.len(),
    ensures
        r == message_is_shallow(data@, at as int, end as int),
{
    let zero: usize = find_text_end(data, at, end);
    if zero == end {
        return true;
    }
    match find_aligned(zero + 1, end) {
        Some(tags) => {
            let last: usize = find_text_end(data, tags, end);
            shallow_lists(slice_subrange(data, tags, last))
        },
        None => true,
    }
}

/// Where the packets of a bundle start, if a bundle stands between two places.
fn find_content(data: &[u8], at: usize, end: usize) -> (r: Option<usize>)
    requires
        at < end <= data@.len(),
    ensures
        match r {
            Some(n) => {
                &&& is_bundle(data@, at as int, end as int)
                &&& n == aligned(at + 8) + 8
                &&& at < n <= end
            },
            None => !is_bundle(data@, at as int, end as int),
        },
{
    if end - at < 8 {
        return None;
    }
    let begins: bool = data[at] == 35 && data[at + 1] == 98 && data[at + 2] == 117 && data[at + 3]
        == 110 && data[at + 4] == 100 && data[at + 5] == 108 && data[at + 6] == 101 && data[at + 7]
        == 0;
    proof {
        let word = seq![35u8, 98u8, 117u8, 110u8, 100u8, 108u8, 101u8, 0u8];
        let there = data@.subrange(at as int, at + 8);
        if begins {
            assert(there =~= word);
        } else if there == word {
            assert(there[0] == word[0] && there[1] == word[1] && there[2] == word[2] && there[3]
                == word[3] && there[4] == word[4] && there[5] == word[5] && there[6] == word[6]
                && there[7] == word[7]);
        }
    }
    if !begins {
        return None;
    }
    match find_aligned(at + 8, end) {
        Some(time) => if end - time < 8 {
            None
        } else {
            Some(time + 8)
        },
        None => None,
    }
}

fn shallow_packet(data: &[u8], at: usize, end: usize, room: usize) -> (r: bool)
    requires
        at <= end <= data@.len(),
    ensures
        r == packet_is_shallow(data@, at as int, end as int, room as nat),
    decreases room,
{
    if at == end {
        return true;
    }
    if data[at] == 47 {
        return shallow_message(data, at, end);
    }
    let mut i: usize = match find_content(data, at, end) {
        Some(content) => content,
        None => {
            return true;
        },
    };
    if room == 0 {
        return false;
    }
    while end - i >= 4
        invariant
            at <= i <= end <= data@.len(),
            room > 0,
            packet_is_shallow(data@, at as int, end as int, room as nat) == content_is_shallow(
                data@,
                i as int,
                end as int,
                (room - 1) as nat,
            ),
        decreases end - i,
    {
        let length: usize = get_be32(data, i) as usize;
        if length > end - i - 4 {
            return true;
        }
        if !shallow_packet(data, i + 4, i + 4 + length, room - 1) {
            return false;
        }
        i = i + 4 + length;
    }
    true
}

fn get_be32(data: &[u8], at: usize) -> (r: u32)
    requires
        at + 4 <= data@.len(),
    ensures
        r == be32_value(data@, at as int),
{
    data[at] as u32 * 16777216 + data[at + 1] as u32 * 65536 + data[at + 2] as u32 * 256
        + data[at + 3] as u32
}

/// Whether bundles and lists in a datagram are not nested too deeply.
pub fn shallow(data: &[u8]) -> (r: bool)
    ensures
        r == is_shallow(data@),
{
    shallow_packet(data, 0, data.len(), MAX_BUNDLES)
}

/// `rosc::decoder::decode_udp`: the packet that a datagram holds, or the text of
/// the error. Whether it holds one, and which, depends on the bytes alone. The
/// decoder calls itself for a bundle inside a bundle, and what it gives is
/// followed list by list, so that only shallow datagrams are handed to it.
#[verifier::external_body]
fn decode_packet(data: &[u8]) -> (r: Result<WirePacket, String>)
    requires
        is_shallow(data@),
    ensures
        match packet_of(data@) {
            Some(p) => r matches Ok(q) && q == p,
            None => r is Err,
        },
{
    match rosc::decoder::decode_udp(data) {
        Ok((_, packet)) => Ok(wire_packet(packet)),
        Err(e) => Err(e.to_string()),
    }
}

/// The message of a datagram: that of the packet which it holds, if there is
/// one. A datagram that holds no packet is an error.
pub fn receive(data: &[u8]) -> (r: IoResult<Option<OscMessage>>)
    requires
        is_shallow(data@),
    ensures
        match packet_of(data@) {
            None => r matches Err(IoError::ReadFailed(t)) && starts_with(
                t@,
                "Failed to decode OSC packet: "@,
            ),
            Some(WirePacket::Message(address, args)) => r matches Ok(Some(m)) && is_message(
                address,
                args@,
                m,
            ),
            Some(WirePacket::Bundle(content)) => if content@.len() > 0 && content@[0] is Message {
                r matches Ok(Some(m)) && is_message(
                    content@[0]->Message_0,
                    content@[0]->Message_1@,
                    m,
                )
            } else {
                r matches Ok(None)
            },
        },
{
    match decode_packet(data) {
        Ok(packet) => Ok(message_in(packet)),
        Err(text) => {
            let e: IoError = failure(OscStep::Decode, text.as_str());
            proof {
                let head = "Failed to decode OSC packet: "@;
                assert((head + text@).take(head.len() as int) =~= head);
            }
            Err(e)
        },
    }
}

/// Whether `a` is the argument that the protocol carries as `w`. Infinity is
/// a number, a character a text, and of a list only the first item counts. A
/// point in time, a colour and a message to an instrument have no argument of
/// their own, and come out as zero, zero and no bytes.
pub open spec fn stands_for(w: WireArg, a: OscArg) -> bool
    decreases w,
{
    match w {
        WireArg::Int(v) => a == OscArg::Int(v),
        WireArg::Float(v) => a == OscArg::Float(v),
        WireArg::Text(v) => a == OscArg::String(v),
        WireArg::Blob(v) => a == OscArg::Blob(v),
        WireArg::Long(v) => a == OscArg::Long(v),
        WireArg::Double(v) => a == OscArg::Double(v),
        WireArg::Bool(v) => a == OscArg::Bool(v),
        WireArg::Nil => a == OscArg::Nil,
        WireArg::Inf => a == OscArg::Double(Double { bits: INFINITY_BITS }),
        WireArg::Time => a == OscArg::Long(0),
        WireArg::Char(c) => a matches OscArg::String(t) && t@ == seq![c],
        WireArg::Color => a == OscArg::Int(0),
        WireArg::Midi => a matches OscArg::Blob(b) && b@.len() == 0,
        WireArg::Array(items) => if items@.len() > 0 {
            stands_for(items@[0], a)
        } else {
            a == OscArg::Nil
        },
    }
}

impl OscArg {
    /// The argument that the protocol carries as `w`.
    pub fn from_wire(w: WireArg) -> (r: OscArg)
        ensures
            stands_for(w, r),
        decreases w,
    {
        match w {
            WireArg::Int(v) => OscArg::Int(v),
            WireArg::Float(v) => OscArg::Float(v),
            WireArg::Text(v) => OscArg::String(v),
            WireArg::Blob(v) => OscArg::Blob(v),
            WireArg::Long(v) => OscArg::Long(v),
            WireArg::Double(v) => OscArg::Double(v),
            WireArg::Bool(v) => OscArg::Bool(v),
            WireArg::Nil => OscArg::Nil,
            WireArg::Inf => OscArg::Double(Double::from_bits(INFINITY_BITS)),
            WireArg::Time => OscArg::Long(0),
            WireArg::Char(c) => OscArg::String(char_text(c)),
            WireArg::Color => OscArg::Int(0),
            WireArg::Midi => OscArg::Blob(Vec::new()),
            WireArg::Array(items) => {
                let mut items: Vec<WireArg> = items;
                if items.len() > 0 {
                    let first: WireArg = items.remove(0);
                    Self::from_wire(first)
                } else {
                    OscArg::Nil
                }
            },
        }
    }

    /// What the protocol carries for an argument.
    pub open spec fn wire(self) -> WireArg {
        match self {
            OscArg::Int(v) => WireArg::Int(v),
            OscArg::Float(v) => WireArg::Float(v),
            OscArg::String(v) => WireArg::Text(v),
            OscArg::Blob(v) => WireArg::Blob(v),
            OscArg::Long(v) => WireArg::Long(v),
            OscArg::Double(v) => WireArg::Double(v),
            OscArg::Bool(v) => WireArg::Bool(v),
            OscArg::Nil => WireArg::Nil,
            OscArg::Impulse => WireArg::Inf,
        }
    }

    /// What the protocol carries for the argument.
    pub fn to_wire(self) -> (r: WireArg)
        ensures
            r == self.wire(),
    {
        match self {
            OscArg::Int(v) => WireArg::Int(v),
            OscArg::Float(v) => WireArg::Float(v),
            OscArg::String(v) => WireArg::Text(v),
            OscArg::Blob(v) => WireArg::Blob(v),
            OscArg::Long(v) => WireArg::Long(v),
            OscArg::Double(v) => WireArg::Double(v),
            OscArg::Bool(v) => WireArg::Bool(v),
            OscArg::Nil => WireArg::Nil,
            OscArg::Impulse => WireArg::Inf,
        }
    }
}

/// Every argument but an impulse comes back as it was sent.
pub proof fn arguments_round_trip(sent: OscArg, got: OscArg)
    requires
        sent !is Impulse,
    ensures
        stands_for(sent.wire(), got) <==> got == sent,
{
}

/// Whether a message is the one that the protocol carries with this address
/// and these arguments.
pub open spec fn is_message(address: String, args: Seq<WireArg>, m: OscMessage) -> bool {
    &&& m.address == address
    &&& m.args@.len() == args.len()
    &&& forall|i: int| 0 <= i < args.len() ==> stands_for(args[i], #[trigger] m.args@[i])
}

fn from_wire_all(args: Vec<WireArg>) -> (r: Vec<OscArg>)
    ensures
        r@.len() == args@.len(),
        forall|i: int| 0 <= i < args@.len() ==> stands_for(args@[i], #[trigger] r@[i]),
{
    let ghost given = args@;
    let mut args: Vec<WireArg> = args;
    let mut out: Vec<OscArg> = Vec::new();
    while args.len() > 0
        invariant
            out@.len() + args@.len() == given.len(),
            args@ == given.skip(out@.len() as int),
            forall|i: int| 0 <= i < out@.len() ==> stands_for(given[i], #[trigger] out@[i]),
        decreases args@.len(),
    {
        let first: WireArg = args.remove(0);
        assert(first == given[out@.len() as int]);
        out.push(OscArg::from_wire(first));
        assert(args@ =~= given.skip(out@.len() as int));
    }
    out
}

/// What the protocol carries for the arguments of a message.
pub fn to_wire_all(args: Vec<OscArg>) -> (r: Vec<WireArg>)
    ensures
        r@ == Seq::new(args@.len(), |i: int| args@[i].wire()),
{
    let ghost given = args@;
    let mut args: Vec<OscArg> = args;
    let mut out: Vec<WireArg> = Vec::new();
    while args.len() > 0
        invariant
            out@.len() + args@.len() == given.len(),
            args@ == given.skip(out@.len() as int),
            forall|i: int| 0 <= i < out@.len() ==> #[trigger] out@[i] == given[i].wire(),
        decreases args@.len(),
    {
        let first: OscArg = args.remove(0);
        assert(first == given[out@.len() as int]);
        out.push(first.to_wire());
        assert(args@ =~= given.skip(out@.len() as int));
    }
    assert(out@ =~= Seq::new(given.len(), |i: int| given[i].wire()));
    out
}

/// The message of a packet: a message as it is, and of a bundle the first
/// packet, where that is a message.
pub fn message_in(packet: WirePacket) -> (r: Option<OscMessage>)
    ensures
        match packet {
            WirePacket::Message(address, args) => r is Some && is_message(address, args@, r->0),
            WirePacket::Bundle(content) => if content@.len() > 0 && content@[0] is Message {
                &&& r is Some
                &&& is_message(content@[0]->Message_0, content@[0]->Message_1@, r->0)
            } else {
                r is None
            },
        },
{
    match packet {
        WirePacket::Message(address, args) => {
            Some(OscMessage { address, args: from_wire_all(args) })
        },
        WirePacket::Bundle(content) => {
            let mut content: Vec<WirePacket> = content;
            if content.len() == 0 {
                return None;
            }
            match content.remove(0) {
                WirePacket::Message(address, args) => Some(
                    OscMessage { address, args: from_wire_all(args) },
                ),
                WirePacket::Bundle(_) => None,
            }
        },
    }
}

impl OscMessage {
    /// A message with one argument.
    pub fn with_arg(address: &str, arg: OscArg) -> (r: Self)
        ensures
            r.address@ == address@,
            r.args@ == seq![arg],
    {
        let mut args: Vec<OscArg> = Vec::new();
        args.push(arg);
        assert(args@ =~= seq![arg]);
        OscMessage { address: address.to_owned(), args }
    }

    /// A message with the given arguments.
    pub fn with_args(address: &str, args: Vec<OscArg>) -> (r: Self)
        ensures
            r.address@ == address@,
            r.args == args,
    {
        OscMessage { address: address.to_owned(), args }
    }
}

/// Whether a text starts with another.
pub open spec fn starts_with(s: Seq<char>, prefix: Seq<char>) -> bool {
    prefix.len() <= s.len() && s.take(prefix.len() as int) == prefix
}

/// Whether a text ends with another.
pub open spec fn ends_with(s: Seq<char>, suffix: Seq<char>) -> bool {
    suffix.len() <= s.len() && s.skip(s.len() - suffix.len()) == suffix
}

/// Whether a pattern covers an address. A lone star covers all. A pattern
/// with one star covers what starts with what stands before it and ends with
/// what stands behind it. Any other covers only itself.
pub open spec fn covers(pattern: Seq<char>, address: Seq<char>) -> bool {
    let star = crate::text::first_char(pattern, '*', 0);
    let next = crate::text::first_char(pattern, '*', star + 1);
    if pattern == seq!['*'] {
        true
    } else if star < pattern.len() && next >= pattern.len() {
        starts_with(address, pattern.take(star)) && ends_with(address, pattern.skip(star + 1))
    } else {
        address == pattern
    }
}

/// Every pattern covers itself.
pub proof fn patterns_cover_themselves(pattern: Seq<char>)
    ensures
        covers(pattern, pattern),
{
    let star = crate::text::first_char(pattern, '*', 0);
    crate::text::first_char_bounds(pattern, '*', 0);
    if star < pattern.len() {
        assert(pattern.skip(pattern.len() - pattern.skip(star + 1).len()) =~= pattern.skip(
            star + 1,
        ));
    }
}

fn same_chars(a: &[char], b: &[char]) -> (r: bool)
    requires
        a@.len() == b@.len(),
    ensures
        r == (a@ == b@),
{
    let mut i: usize = 0;
    while i < a.len()
        invariant
            i <= a@.len(),
            a@.len() == b@.len(),
            forall|k: int| 0 <= k < i ==> #[trigger] a@[k] == b@[k],
        decreases a@.len() - i,
    {
        if a[i] != b[i] {
            return false;
        }
        i += 1;
    }
    assert(a@ =~= b@);
    true
}

/// Whether a pattern covers an address.
pub fn matches_pattern(address: &str, pattern: &str) -> (r: bool)
    ensures
        r == covers(pattern@, address@),
{
    proof {
        reveal_strlit("*");
        assert("*"@ =~= seq!['*']);
    }
    if same_text(pattern, "*") {
        return true;
    }
    let p: Vec<char> = chars_of(pattern);
    let a: Vec<char> = chars_of(address);
    let star: usize = find_char(p.as_slice(), '*', 0);
    if star < p.len() && find_char(p.as_slice(), '*', star + 1) >= p.len() {
        let behind: usize = p.len() - star - 1;
        if star > a.len() || behind > a.len() {
            return false;
        }
        let starts: bool = same_chars(
            slice_subrange(a.as_slice(), 0, star),
            slice_subrange(p.as_slice(), 0, star),
        );
        let ends: bool = same_chars(
            slice_subrange(a.as_slice(), a.len() - behind, a.len()),
            slice_subrange(p.as_slice(), star + 1, p.len()),
        );
        proof {
            assert(a@.subrange(0, star as int) =~= a@.take(star as int));
            assert(p@.subrange(0, star as int) =~= p@.take(star as int));
            assert(p@.subrange(star + 1, p@.len() as int) =~= p@.skip(star + 1));
            assert(a@.subrange(a@.len() - behind, a@.len() as int) =~= a@.skip(
                a@.len() - p@.skip(star + 1).len(),
            ));
        }
        return starts && ends;
    }
    same_text(address, pattern)
}

/// Handlers, each for the addresses that a pattern covers.
pub struct OscServer<H> {
    handlers: Vec<(String, H)>,
}

impl<H> OscServer<H> {
    /// The handlers with their patterns, in the order in which they came.
    pub closed spec fn registered(&self) -> Seq<(Seq<char>, H)> {
        Seq::new(self.handlers@.len(), |i: int| (self.handlers@[i].0@, self.handlers@[i].1))
    }

    /// No handlers.
    pub fn new() -> (r: Self)
        ensures
            r.registered() == Seq::<(Seq<char>, H)>::empty(),
    {
        let r: Self = OscServer { handlers: Vec::new() };
        assert(r.registered() =~= Seq::<(Seq<char>, H)>::empty());
        r
    }

    /// Puts a handler behind those that are there.
    pub fn add_handler(&mut self, pattern: &str, handler: H)
        ensures
            final(self).registered() == old(self).registered().push((pattern@, handler)),
    {
        self.handlers.push((pattern.to_owned(), handler));
        assert(self.registered() =~= old(self).registered().push((pattern@, handler)));
    }

    /// The places of the handlers whose pattern covers an address.
    pub open spec fn places(&self, address: Seq<char>, upto: int) -> Seq<usize>
        decreases upto,
    {
        if upto <= 0 {
            Seq::empty()
        } else if covers(self.registered()[upto - 1].0, address) {
            self.places(address, upto - 1).push((upto - 1) as usize)
        } else {
            self.places(address, upto - 1)
        }
    }

    /// The places of the handlers that take a message to an address, in the
    /// order in which they came.
    pub fn handlers_for(&self, address: &str) -> (r: Vec<usize>)
        ensures
            r@ == self.places(address@, self.registered().len() as int),
    {
        let mut out: Vec<usize> = Vec::new();
        let mut i: usize = 0;
        while i < self.handlers.len()
            invariant
                i <= self.handlers@.len(),
                out@ == self.places(address@, i as int),
            decreases self.handlers@.len() - i,
        {
            if matches_pattern(address, self.handlers[i].0.as_str()) {
                out.push(i);
            }
            i += 1;
        }
        out
    }

    /// The handler at a place.
    pub fn handler(&self, i: usize) -> (r: Option<&H>)
        ensures
            match r {
                Some(h) => i < self.registered().len() && *h == self.registered()[i as int].1,
                None => i >= self.registered().len(),
            },
    {
        if i < self.handlers.len() {
            Some(&self.handlers[i].1)
        } else {
            None
        }
    }

    /// The handlers that take a message are exactly those whose pattern
    /// covers its address, each once and in order.
    pub proof fn every_covering_handler_is_chosen(&self, address: Seq<char>, upto: int)
        requires
            0 <= upto <= self.registered().len(),
            self.registered().len() <= usize::MAX,
        ensures
            forall|i: int|
                0 <= i < upto ==> (covers(#[trigger] self.registered()[i].0, address)
                    <==> self.places(address, upto).contains(i as usize)),
            forall|k: int|
                0 <= k < self.places(address, upto).len() ==> #[trigger] self.places(
                    address,
                    upto,
                )[k] < upto,
            forall|j: int, k: int|
                0 <= j < k < self.places(address, upto).len() ==> #[trigger] self.places(
                    address,
                    upto,
                )[j] < #[trigger] self.places(address, upto)[k],
        decreases upto,
    {
        if upto > 0 {
            self.every_covering_handler_is_chosen(address, upto - 1);
            let fewer = self.places(address, upto - 1);
            let all = self.places(address, upto);
            assert forall|i: int| 0 <= i < upto implies (covers(
                #[trigger] self.registered()[i].0,
                address,
            ) <==> all.contains(i as usize)) by {
                if covers(self.registered()[upto - 1].0, address) {
                    assert(all[fewer.len() as int] == (upto - 1) as usize);
                    if i < upto - 1 {
                        if fewer.contains(i as usize) {
                            let k = fewer.index_of(i as usize);
                            assert(all[k] == i as usize);
                        }
                        if all.contains(i as usize) {
                            let k = all.index_of(i as usize);
                            assert(k < fewer.len());
                            assert(fewer[k] == i as usize);
                        }
                    }
                } else if i == upto - 1 && all.contains(i as usize) {
                    let k = fewer.index_of(i as usize);
                    assert(fewer[k] < upto - 1);
                }
            }
        }
    }
}

/// A step of sending or receiving.
#[derive(Debug, Clone, Copy, PartialEq, Eq, Structural)]
pub enum OscStep {
    /// Reading the address of the receiver.
    Target,
    /// Opening a socket.
    Bind,
    /// Finding the address of the socket.
    LocalAddress,
    /// Writing a message as bytes.
    EncodeMessage,
    /// Sending a message.
    SendMessage,
    /// Writing a bundle as bytes.
    EncodeBundle,
    /// Sending a bundle.
    SendBundle,
    /// Receiving.
    Receive,
    /// Reading a packet from bytes.
    Decode,
}

/// The error for a step that failed.
pub fn failure(step: OscStep, cause: &str) -> (r: IoError)
    ensures
        match step {
            OscStep::Target => r matches IoError::ConfigError(t) && t@ == "Invalid target address: "@
                + cause@,
            OscStep::Bind => r matches IoError::ConnectionFailed(t) && t@
                == "Failed to bind UDP socket: "@ + cause@,
            OscStep::LocalAddress => r matches IoError::ConnectionFailed(t) && t@
                == "Failed to get local address: "@ + cause@,
            OscStep::EncodeMessage => r matches IoError::SendFailed(t) && t@
                == "Failed to encode OSC message: "@ + cause@,
            OscStep::SendMessage => r matches IoError::SendFailed(t) && t@
                == "Failed to send OSC message: "@ + cause@,
            OscStep::EncodeBundle => r matches IoError::SendFailed(t) && t@
                == "Failed to encode OSC bundle: "@ + cause@,
            OscStep::SendBundle => r matches IoError::SendFailed(t) && t@
                == "Failed to send OSC bundle: "@ + cause@,
            OscStep::Receive => r matches IoError::ReadFailed(t) && t@
                == "Failed to receive OSC message: "@ + cause@,
            OscStep::Decode => r matches IoError::ReadFailed(t) && t@
                == "Failed to decode OSC packet: "@ + cause@,
        },
{
    match step {
        OscStep::Target => IoError::ConfigError(join("Invalid target address: ", cause)),
        OscStep::Bind => IoError::ConnectionFailed(join("Failed to bind UDP socket: ", cause)),
        OscStep::LocalAddress => IoError::ConnectionFailed(
            join("Failed to get local address: ", cause),
        ),
        OscStep::EncodeMessage => IoError::SendFailed(
            join("Failed to encode OSC message: ", cause),
        ),
        OscStep::SendMessage => IoError::SendFailed(join("Failed to send OSC message: ", cause)),
        OscStep::EncodeBundle => IoError::SendFailed(join("Failed to encode OSC bundle: ", cause)),
        OscStep::SendBundle => IoError::SendFailed(join("Failed to send OSC bundle: ", cause)),
        OscStep::Receive => IoError::ReadFailed(join("Failed to receive OSC message: ", cause)),
        OscStep::Decode => IoError::ReadFailed(join("Failed to decode OSC packet: ", cause)),
    }
}

} // verus!
