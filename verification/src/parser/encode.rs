//! Encoders: each gives the exact bytes of one control packet.
use vstd::prelude::*;
use vstd::string::StringSliceAdditionalSpecFns;
use crate::parser::{
    lemma_remaining_length_round_trip, remaining_length_at, remaining_length_bytes, LastWill, LastWillModel, MessageType, QoS, MAX_FIELD_LENGTH,
    MAX_REMAINING_LENGTH,
};

verus! {

/// A 16-bit number as two bytes, the high byte first.
pub open spec fn short_bytes(n: int) -> Seq<u8>
    recommends
        0 <= n <= MAX_FIELD_LENGTH,
{
    seq![(n / 256) as u8, (n % 256) as u8]
}

/// A length-prefixed field: the number of bytes as a 16-bit number, then the
/// bytes themselves.
pub open spec fn prefixed(bytes: Seq<u8>) -> Seq<u8>
    recommends
        bytes.len() <= MAX_FIELD_LENGTH,
{
    short_bytes(bytes.len() as int) + bytes
}

/// A whole packet: the first byte, the remaining-length field that counts
/// the bytes of `body`, then `body`.
pub open spec fn packet(first: u8, body: Seq<u8>) -> Seq<u8>
    recommends
        body.len() <= MAX_REMAINING_LENGTH,
{
    seq![first] + remaining_length_bytes(body.len()) + body
}

/// Every packet frames itself: where the body fits, the remaining-length
/// field behind the first byte reads back as the number of bytes that
/// follow it, and those bytes are the body.
pub proof fn lemma_packet_is_framed(first: u8, body: Seq<u8>)
    requires
        body.len() <= MAX_REMAINING_LENGTH,
    ensures
        remaining_length_at(packet(first, body), 1) == Some(
            ((packet(first, body).len() - body.len()) as int, body.len()),
        ),
        packet(first, body).subrange(
            packet(first, body).len() - body.len(),
            packet(first, body).len() as int,
        ) == body,
        packet(first, body)[0] == first,
{
    lemma_remaining_length_round_trip(body.len(), seq![first], body);
    let p = packet(first, body);
    assert(p.subrange(p.len() - body.len(), p.len() as int) =~= body);
}

/// The bytes of a string that may be absent.
pub open spec fn bytes_of(s: Option<&str>) -> Option<Seq<u8>> {
    match s {
        Some(s) => Some(s.spec_bytes()),
        None => None,
    }
}

/// The plain values of a last will that may be absent.
pub open spec fn will_of(lwt: Option<&LastWill>) -> Option<LastWillModel> {
    match lwt {
        Some(w) => Some(w@),
        None => None,
    }
}

/// A field that is written only where it is present.
pub open spec fn optional_field(bytes: Option<Seq<u8>>) -> Seq<u8> {
    match bytes {
        Some(b) => prefixed(b),
        None => Seq::empty(),
    }
}

/// The connect-flags byte: bit 7 user name present, bit 6 password present,
/// bit 5 will retain, bits 4 and 3 will QoS, bit 2 will present, bit 1 clean
/// session, bit 0 zero.
pub open spec fn connect_flags(
    user: bool,
    pass: bool,
    clean: bool,
    lwt: Option<LastWillModel>,
) -> u8 {
    ((if user { 128int } else { 0 }) + (if pass { 64int } else { 0 }) + (match lwt {
        Some(w) => (if w.retain { 32int } else { 0 }) + 8 * w.qos.code_of() + 4,
        None => 0,
    }) + (if clean { 2int } else { 0 })) as u8
}

/// Will topic and will message, each length-prefixed; nothing without a will.
pub open spec fn will_fields(lwt: Option<LastWillModel>) -> Seq<u8> {
    match lwt {
        Some(w) => prefixed(w.topic) + prefixed(w.msg),
        None => Seq::empty(),
    }
}

/// The ten bytes every CONNECT has behind its fixed header: the protocol
/// name "MQTT" as a length-prefixed field, protocol level 4, the connect
/// flags, and the keep-alive interval.
#[verifier::opaque]
pub open spec fn connect_fixed(flags: u8, keep_alive: u16) -> Seq<u8> {
    seq![0u8, 4u8, 0x4du8, 0x51u8, 0x54u8, 0x54u8, 4u8, flags] + short_bytes(keep_alive as int)
}

/// The payload of a CONNECT, in this order: client identifier, will topic
/// and will message where there is a will, user name and password where
/// they are present, each as a length-prefixed field.
pub open spec fn connect_payload(
    client_id: Seq<u8>,
    user: Option<Seq<u8>>,
    pass: Option<Seq<u8>>,
    lwt: Option<LastWillModel>,
) -> Seq<u8> {
    prefixed(client_id) + will_fields(lwt) + optional_field(user) + optional_field(pass)
}

/// What follows the fixed header of a CONNECT: the ten fixed bytes, then the
/// payload.
pub open spec fn connect_body(
    client_id: Seq<u8>,
    user: Option<Seq<u8>>,
    pass: Option<Seq<u8>>,
    keep_alive: u16,
    clean: bool,
    lwt: Option<LastWillModel>,
) -> Seq<u8> {
    connect_fixed(connect_flags(user.is_some(), pass.is_some(), clean, lwt), keep_alive)
        + connect_payload(client_id, user, pass, lwt)
}

/// Bytes that an optional field adds to a packet.
pub open spec fn optional_size(bytes: Option<Seq<u8>>) -> nat {
    match bytes {
        Some(b) => 2 + b.len(),
        None => 0,
    }
}

/// The remaining length of a CONNECT: 10 for the fixed part, plus the size
/// of the client identifier's field, plus that of each of the will's two
/// fields, of the user name and of the password where they are present.
pub open spec fn connect_size(
    client_id: Seq<u8>,
    user: Option<Seq<u8>>,
    pass: Option<Seq<u8>>,
    lwt: Option<LastWillModel>,
) -> nat {
    10 + (2 + client_id.len()) + (match lwt {
        Some(w) => (2 + w.topic.len()) + (2 + w.msg.len()),
        None => 0,
    }) + optional_size(user) + optional_size(pass)
}

/// What follows the fixed header of a CONNECT has the length that
/// `connect_size` gives.
pub proof fn lemma_connect_remaining_length(
    client_id: Seq<u8>,
    user: Option<Seq<u8>>,
    pass: Option<Seq<u8>>,
    keep_alive: u16,
    clean: bool,
    lwt: Option<LastWillModel>,
)
    ensures
        connect_body(client_id, user, pass, keep_alive, clean, lwt).len() == connect_size(
            client_id,
            user,
            pass,
            lwt,
        ),
{
    reveal(connect_fixed);
}

/// The first byte of a PUBLISH: 3 in the high nibble, then the duplicate
/// flag, two bits of QoS and the retain flag.
pub open spec fn publish_header(qos: QoS, retain: bool, dup: bool) -> u8 {
    (48 + (if dup { 8int } else { 0 }) + 2 * qos.code_of() + (if retain { 1int } else { 0 })) as u8
}

/// A packet identifier where one is carried, else nothing.
pub open spec fn optional_id(id: Option<u16>) -> Seq<u8> {
    match id {
        Some(v) => short_bytes(v as int),
        None => Seq::empty(),
    }
}

/// What follows the fixed header of a PUBLISH: the topic as a length-prefixed
/// field, the packet identifier where there is one, and the message as it
/// is, up to the end of the packet.
pub open spec fn publish_body(topic: Seq<u8>, msg: Seq<u8>, id: Option<u16>) -> Seq<u8> {
    prefixed(topic) + optional_id(id) + msg
}

/// The remaining length of a PUBLISH is 2 plus the topic's bytes, plus 2
/// where an identifier is carried, plus the message's bytes.
pub proof fn lemma_publish_remaining_length(topic: Seq<u8>, msg: Seq<u8>, id: Option<u16>)
    ensures
        publish_body(topic, msg, id).len() == 2 + topic.len() + (if id.is_some() {
            2int
        } else {
            0int
        }) + msg.len(),
{
}

/// The topic filters of a SUBSCRIBE in order: each as a length-prefixed field
/// with the byte of its requested QoS behind it.
pub open spec fn subscribe_topics(subs: Seq<(&str, QoS)>) -> Seq<u8>
    decreases subs.len(),
{
    if subs.len() == 0 {
        Seq::empty()
    } else {
        subscribe_topics(subs.drop_last()) + prefixed(subs.last().0.spec_bytes())
            + seq![subs.last().1.code_of()]
    }
}

/// The sum, over the requested topics, of 2 plus the topic's bytes plus 1.
pub open spec fn subscribe_topics_size(subs: Seq<(&str, QoS)>) -> nat
    decreases subs.len(),
{
    if subs.len() == 0 {
        0
    } else {
        subscribe_topics_size(subs.drop_last()) + 2 + subs.last().0.spec_bytes().len() + 1
    }
}

/// The topic filters of an UNSUBSCRIBE in order, each as a length-prefixed
/// field.
pub open spec fn unsubscribe_topics(topics: Seq<&str>) -> Seq<u8>
    decreases topics.len(),
{
    if topics.len() == 0 {
        Seq::empty()
    } else {
        unsubscribe_topics(topics.drop_last()) + prefixed(topics.last().spec_bytes())
    }
}

/// The sum, over the topics, of 2 plus the topic's bytes.
pub open spec fn unsubscribe_topics_size(topics: Seq<&str>) -> nat
    decreases topics.len(),
{
    if topics.len() == 0 {
        0
    } else {
        unsubscribe_topics_size(topics.drop_last()) + 2 + topics.last().spec_bytes().len()
    }
}

/// What follows the fixed header of a SUBSCRIBE: the packet identifier, then
/// the requested topics.
pub open spec fn subscribe_body(subs: Seq<(&str, QoS)>, msg_id: u16) -> Seq<u8> {
    short_bytes(msg_id as int) + subscribe_topics(subs)
}

/// What follows the fixed header of an UNSUBSCRIBE: the packet identifier,
/// then the topics.
pub open spec fn unsubscribe_body(topics: Seq<&str>, msg_id: u16) -> Seq<u8> {
    short_bytes(msg_id as int) + unsubscribe_topics(topics)
}

/// Whether a CONNECT can carry these strings: each fits a length-prefixed
/// field.
pub open spec fn connect_admits(
    client_id: Seq<u8>,
    user: Option<Seq<u8>>,
    pass: Option<Seq<u8>>,
) -> bool {
    &&& client_id.len() <= MAX_FIELD_LENGTH
    &&& user matches Some(u) ==> u.len() <= MAX_FIELD_LENGTH
    &&& pass matches Some(p) ==> p.len() <= MAX_FIELD_LENGTH
}

/// Whether a PUBLISH can carry this topic and message, with a packet
/// identifier or without: the topic fits a length-prefixed field, and the
/// remaining length fits its own field.
pub open spec fn publish_admits(topic: Seq<u8>, msg: Seq<u8>, with_id: bool) -> bool {
    &&& topic.len() <= MAX_FIELD_LENGTH
    &&& 2 + topic.len() + (if with_id { 2int } else { 0int }) + msg.len()
        <= MAX_REMAINING_LENGTH
}

/// Whether a SUBSCRIBE can carry these topics: each fits a length-prefixed
/// field, and the remaining length fits its own field.
pub open spec fn subscribe_admits(subs: Seq<(&str, QoS)>) -> bool {
    &&& forall|i: int|
        0 <= i < subs.len() ==> (#[trigger] subs[i]).0.spec_bytes().len() <= MAX_FIELD_LENGTH
    &&& 2 + subscribe_topics_size(subs) <= MAX_REMAINING_LENGTH
}

/// Whether an UNSUBSCRIBE can carry these topics: each fits a
/// length-prefixed field, and the remaining length fits its own field.
pub open spec fn unsubscribe_admits(topics: Seq<&str>) -> bool {
    &&& forall|i: int|
        0 <= i < topics.len() ==> (#[trigger] topics[i]).spec_bytes().len() <= MAX_FIELD_LENGTH
    &&& 2 + unsubscribe_topics_size(topics) <= MAX_REMAINING_LENGTH
}

/// The topics of a SUBSCRIBE take as many bytes as the sum says, and the
/// first `k` of them take no more than all of them.
pub proof fn lemma_subscribe_size(subs: Seq<(&str, QoS)>, k: int)
    requires
        0 <= k <= subs.len(),
    ensures
        subscribe_topics(subs).len() == subscribe_topics_size(subs),
        subscribe_topics_size(subs.take(k)) <= subscribe_topics_size(subs),
    decreases subs.len(),
{
    if subs.len() > 0 {
        lemma_subscribe_size(subs.drop_last(), if k < subs.len() { k } else { 0 });
        if k < subs.len() {
            assert(subs.drop_last().take(k) =~= subs.take(k));
        } else {
            assert(subs.take(k) =~= subs);
        }
    } else {
        assert(subs.take(k) =~= subs);
    }
}

/// The topics of an UNSUBSCRIBE take as many bytes as the sum says, and the
/// first `k` of them take no more than all of them.
pub proof fn lemma_unsubscribe_size(topics: Seq<&str>, k: int)
    requires
        0 <= k <= topics.len(),
    ensures
        unsubscribe_topics(topics).len() == unsubscribe_topics_size(topics),
        unsubscribe_topics_size(topics.take(k)) <= unsubscribe_topics_size(topics),
    decreases topics.len(),
{
    if topics.len() > 0 {
        lemma_unsubscribe_size(topics.drop_last(), if k < topics.len() { k } else { 0 });
        if k < topics.len() {
            assert(topics.drop_last().take(k) =~= topics.take(k));
        } else {
            assert(topics.take(k) =~= topics);
        }
    } else {
        assert(topics.take(k) =~= topics);
    }
}

/// The high byte of `i`.
fn msb(i: u16) -> (b: u8)
    ensures
        b == i / 256,
{
    assert(((i & 0xff00) >> 8) == i / 256) by (bit_vector);
    ((i & 0xff00) >> 8) as u8
}

/// The low byte of `i`.
fn lsb(i: u16) -> (b: u8)
    ensures
        b == i % 256,
{
    assert((i & 0xff) == i % 256) by (bit_vector);
    (i & 0xff) as u8
}

/// Appends `n`, high byte first.
fn push_short(buf: &mut Vec<u8>, n: u16)
    ensures
        final(buf)@ == old(buf)@ + short_bytes(n as int),
{
    buf.push(msb(n));
    buf.push(lsb(n));
    assert(buf@ =~= old(buf)@ + short_bytes(n as int));
}

/// Appends `bytes` as a length-prefixed field.
fn push_field(buf: &mut Vec<u8>, bytes: &[u8])
    requires
        bytes@.len() <= MAX_FIELD_LENGTH,
    ensures
        final(buf)@ == old(buf)@ + prefixed(bytes@),
{
    push_short(buf, bytes.len() as u16);
    buf.extend_from_slice(bytes);
    assert(buf@ =~= old(buf)@ + prefixed(bytes@));
}

/// Bytes that `field` takes in a packet: none where it is absent.
fn field_len(field: Option<&str>) -> (n: usize)
    requires
        field matches Some(s) ==> s.spec_bytes().len() <= MAX_FIELD_LENGTH,
    ensures
        n == optional_size(bytes_of(field)),
        n <= MAX_FIELD_LENGTH + 2,
{
    match field {
        Some(s) => s.as_bytes().len() + 2,
        None => 0,
    }
}

/// The remaining length of the CONNECT for these values.
fn connect_len(client_id: &str, user: Option<&str>, pass: Option<&str>, lwt: Option<&LastWill>) -> (n:
    usize)
    requires
        connect_admits(client_id.spec_bytes(), bytes_of(user), bytes_of(pass)),
    ensures
        n == connect_size(client_id.spec_bytes(), bytes_of(user), bytes_of(pass), will_of(lwt)),
        n <= MAX_REMAINING_LENGTH,
{
    let id_len: usize = client_id.as_bytes().len() + 2;
    let lwt_len: usize = match lwt {
        Some(w) => w.topic().as_bytes().len() + w.msg().as_bytes().len() + 4,
        None => 0,
    };
    let user_len: usize = field_len(user);
    let pw_len: usize = field_len(pass);
    10 + id_len + lwt_len + user_len + pw_len
}

/// The connect-flags byte for these values.
fn connect_flag_byte(user: bool, pass: bool, clean: bool, lwt: Option<&LastWill>) -> (flags: u8)
    ensures
        flags == connect_flags(user, pass, clean, will_of(lwt)),
{
    let lwt_flags: u8 = match lwt {
        Some(w) => (if w.retain() { 32u8 } else { 0u8 }) + 8 * w.qos().code() + 4,
        None => 0,
    };
    (if user { 128u8 } else { 0u8 }) + (if pass { 64u8 } else { 0u8 }) + lwt_flags + (if clean {
        2u8
    } else {
        0u8
    })
}

/// Appends `field` as a length-prefixed field, or nothing where it is absent.
fn push_optional(buf: &mut Vec<u8>, field: Option<&str>)
    requires
        field matches Some(s) ==> s.spec_bytes().len() <= MAX_FIELD_LENGTH,
    ensures
        final(buf)@ == old(buf)@ + optional_field(bytes_of(field)),
{
    match field {
        Some(s) => {
            push_field(buf, s.as_bytes());
        },
        None => {
            assert(buf@ =~= old(buf)@ + optional_field(bytes_of(field)));
        },
    }
}

/// Appends the will's topic and message, or nothing without a will.
fn push_will(buf: &mut Vec<u8>, lwt: Option<&LastWill>)
    ensures
        final(buf)@ == old(buf)@ + will_fields(will_of(lwt)),
{
    match lwt {
        Some(w) => {
            push_field(buf, w.topic().as_bytes());
            push_field(buf, w.msg().as_bytes());
        },
        None => {},
    }
    assert(buf@ =~= old(buf)@ + will_fields(will_of(lwt)));
}

/// Appends the payload of a CONNECT.
fn push_payload(
    buf: &mut Vec<u8>,
    client_id: &str,
    user: Option<&str>,
    pass: Option<&str>,
    lwt: Option<&LastWill>,
)
    requires
        connect_admits(client_id.spec_bytes(), bytes_of(user), bytes_of(pass)),
    ensures
        final(buf)@ == old(buf)@ + connect_payload(
            client_id.spec_bytes(),
            bytes_of(user),
            bytes_of(pass),
            will_of(lwt),
        ),
{
    push_field(buf, client_id.as_bytes());
    push_will(buf, lwt);
    push_optional(buf, user);
    push_optional(buf, pass);
    assert(buf@ =~= old(buf)@ + connect_payload(
        client_id.spec_bytes(),
        bytes_of(user),
        bytes_of(pass),
        will_of(lwt),
    ));
}

/// Appends protocol name, protocol level, connect flags and keep-alive.
fn push_protocol(buf: &mut Vec<u8>, flags: u8, keep_alive: u16)
    ensures
        final(buf)@ == old(buf)@ + connect_fixed(flags, keep_alive),
{
    reveal(connect_fixed);
    buf.push(0x00);
    buf.push(0x04);
    buf.push(0x4d);
    buf.push(0x51);
    buf.push(0x54);
    buf.push(0x54);
    buf.push(4);
    buf.push(flags);
    push_short(buf, keep_alive);
    assert(buf@ =~= old(buf)@ + connect_fixed(flags, keep_alive));
}

/// Number of bytes the remaining-length field takes for `remaining_len`.
pub fn rlen_size(remaining_len: usize) -> (size: usize)
    ensures
        size == if remaining_len < 128 {
            1usize
        } else if remaining_len < 16384 {
            2usize
        } else if remaining_len < 2097152 {
            3usize
        } else {
            4usize
        },
        remaining_len <= MAX_REMAINING_LENGTH ==> size == remaining_length_bytes(
            remaining_len as nat,
        ).len(),
{
    if remaining_len < 128 {
        1
    } else if remaining_len < 16384 {
        2
    } else if remaining_len < 2097152 {
        3
    } else {
        4
    }
}

/// Appends the remaining-length field for `remaining_length` to `buf`.
pub fn rlen(buf: &mut Vec<u8>, remaining_length: u32)
    requires
        remaining_length <= MAX_REMAINING_LENGTH,
    ensures
        final(buf)@ == old(buf)@ + remaining_length_bytes(remaining_length as nat),
{
    let x: u32 = remaining_length;
    if x < 128 {
        buf.push(x as u8);
    } else if x < 16384 {
        buf.push((128 + x / 128) as u8);
        buf.push((x % 128) as u8);
    } else if x < 2097152 {
        buf.push((128 + x / 16384) as u8);
        buf.push((128 + (x / 128) % 128) as u8);
        buf.push((x % 128) as u8);
    } else {
        buf.push((128 + x / 2097152) as u8);
        buf.push((128 + (x / 16384) % 128) as u8);
        buf.push((128 + (x / 128) % 128) as u8);
        buf.push((x % 128) as u8);
    }
    assert(buf@ =~= old(buf)@ + remaining_length_bytes(remaining_length as nat));
}

/// Tells whether `connect` can be called with these strings.
pub fn connect_fits(client_id: &str, user: Option<&str>, pass: Option<&str>) -> (fits: bool)
    ensures
        fits == connect_admits(client_id.spec_bytes(), bytes_of(user), bytes_of(pass)),
{
    let user_fits: bool = match user {
        Some(u) => u.as_bytes().len() <= MAX_FIELD_LENGTH,
        None => true,
    };
    let pass_fits: bool = match pass {
        Some(p) => p.as_bytes().len() <= MAX_FIELD_LENGTH,
        None => true,
    };
    client_id.as_bytes().len() <= MAX_FIELD_LENGTH && user_fits && pass_fits
}

/// Tells whether `publish` can be called with this topic and message.
pub fn publish_fits(topic: &str, msg: &str, with_id: bool) -> (fits: bool)
    ensures
        fits == publish_admits(topic.spec_bytes(), msg.spec_bytes(), with_id),
{
    let pid_len: usize = if with_id { 2 } else { 0 };
    let topic_len: usize = topic.as_bytes().len();
    let msg_len: usize = msg.as_bytes().len();
    topic_len <= MAX_FIELD_LENGTH && msg_len <= MAX_REMAINING_LENGTH && 2 + topic_len + pid_len
        + msg_len <= MAX_REMAINING_LENGTH
}

/// Tells whether `subscribe` can be called with these topics.
pub fn subscribe_fits(subs: &Vec<(&str, QoS)>) -> (fits: bool)
    ensures
        fits == subscribe_admits(subs@),
{
    let n: usize = subs.len();
    let mut rlength: usize = 2;
    let mut k: usize = 0;
    while k < n
        invariant
            n == subs@.len(),
            0 <= k <= n,
            rlength == 2 + subscribe_topics_size(subs@.take(k as int)),
            rlength <= MAX_REMAINING_LENGTH,
            forall|j: int|
                0 <= j < k ==> (#[trigger] subs@[j]).0.spec_bytes().len() <= MAX_FIELD_LENGTH,
        decreases n - k,
    {
        proof {
            lemma_subscribe_size(subs@, k + 1);
            assert(subs@.take(k + 1).drop_last() =~= subs@.take(k as int));
        }
        let topic_len: usize = subs[k].0.as_bytes().len();
        if topic_len > MAX_FIELD_LENGTH {
            return false;
        }
        rlength = rlength + 3 + topic_len;
        if rlength > MAX_REMAINING_LENGTH {
            return false;
        }
        k = k + 1;
    }
    assert(subs@.take(n as int) =~= subs@);
    true
}

/// Tells whether `unsubscribe` can be called with these topics.
pub fn unsubscribe_fits(topics: &Vec<&str>) -> (fits: bool)
    ensures
        fits == unsubscribe_admits(topics@),
{
    let n: usize = topics.len();
    let mut rlength: usize = 2;
    let mut k: usize = 0;
    while k < n
        invariant
            n == topics@.len(),
            0 <= k <= n,
            rlength == 2 + unsubscribe_topics_size(topics@.take(k as int)),
            rlength <= MAX_REMAINING_LENGTH,
            forall|j: int|
                0 <= j < k ==> (#[trigger] topics@[j]).spec_bytes().len() <= MAX_FIELD_LENGTH,
        decreases n - k,
    {
        proof {
            lemma_unsubscribe_size(topics@, k + 1);
            assert(topics@.take(k + 1).drop_last() =~= topics@.take(k as int));
        }
        let topic_len: usize = topics[k].as_bytes().len();
        if topic_len > MAX_FIELD_LENGTH {
            return false;
        }
        rlength = rlength + 2 + topic_len;
        if rlength > MAX_REMAINING_LENGTH {
            return false;
        }
        k = k + 1;
    }
    assert(topics@.take(n as int) =~= topics@);
    true
}

/// The CONNECT packet that opens a session.
pub fn connect(
    client_id: &str,
    user: Option<&str>,
    pass: Option<&str>,
    keep_alive: u16,
    clean: bool,
    lwt: Option<&LastWill>,
) -> (buf: Vec<u8>)
    requires
        connect_admits(client_id.spec_bytes(), bytes_of(user), bytes_of(pass)),
    ensures
        buf@ == packet(
            0x10,
            connect_body(
                client_id.spec_bytes(),
                bytes_of(user),
                bytes_of(pass),
                keep_alive,
                clean,
                will_of(lwt),
            ),
        ),
{
    let ghost body = connect_body(
        client_id.spec_bytes(),
        bytes_of(user),
        bytes_of(pass),
        keep_alive,
        clean,
        will_of(lwt),
    );
    let remaining_len: usize = connect_len(client_id, user, pass, lwt);
    let flags: u8 = connect_flag_byte(user.is_some(), pass.is_some(), clean, lwt);
    proof {
        lemma_connect_remaining_length(
            client_id.spec_bytes(),
            bytes_of(user),
            bytes_of(pass),
            keep_alive,
            clean,
            will_of(lwt),
        );
    }
    let mut buf: Vec<u8> = Vec::with_capacity(remaining_len + 1 + rlen_size(remaining_len));
    buf.push(0x10);
    rlen(&mut buf, remaining_len as u32);
    push_protocol(&mut buf, flags, keep_alive);
    push_payload(&mut buf, client_id, user, pass, lwt);
    assert(buf@ =~= packet(0x10, body));
    buf
}

/// A PUBLISH packet for `msg` on `topic`. A packet identifier goes with every
/// QoS but `AtMostOnce`, and with that one none.
pub fn publish(topic: &str, msg: &str, qos: QoS, retain: bool, dup: bool, id: Option<u16>) -> (buf:
    Vec<u8>)
    requires
        id.is_none() <==> qos == QoS::AtMostOnce,
        publish_admits(topic.spec_bytes(), msg.spec_bytes(), id.is_some()),
    ensures
        buf@ == packet(
            publish_header(qos, retain, dup),
            publish_body(topic.spec_bytes(), msg.spec_bytes(), id),
        ),
{
    let ghost body = publish_body(topic.spec_bytes(), msg.spec_bytes(), id);
    let pid_len: usize = match id {
        Some(_) => 2,
        None => 0,
    };
    let remaining_len: usize = 2 + topic.as_bytes().len() + msg.as_bytes().len() + pid_len;
    assert(remaining_len == body.len());
    let mut buf: Vec<u8> = Vec::with_capacity(remaining_len + 1 + rlen_size(remaining_len));

    let fixed_header: u8 = 0x30 + (if dup { 8u8 } else { 0u8 }) + 2 * qos.code() + (if retain {
        1u8
    } else {
        0u8
    });
    buf.push(fixed_header);
    rlen(&mut buf, remaining_len as u32);
    let ghost head = buf@;

    push_field(&mut buf, topic.as_bytes());
    match id {
        Some(v) => {
            push_short(&mut buf, v);
        },
        None => {},
    }
    buf.extend_from_slice(msg.as_bytes());
    assert(buf@ =~= head + body);
    assert(buf@ =~= packet(publish_header(qos, retain, dup), body));
    buf
}

/// A SUBSCRIBE packet that asks for each topic at the QoS beside it.
pub fn subscribe(subs: Vec<(&str, QoS)>, msg_id: u16) -> (buf: Vec<u8>)
    requires
        subscribe_admits(subs@),
    ensures
        buf@ == packet(0x82, subscribe_body(subs@, msg_id)),
        subscribe_body(subs@, msg_id).len() == 2 + subscribe_topics_size(subs@),
{
    let n: usize = subs.len();
    let mut rlength: usize = 2;
    let mut k: usize = 0;
    while k < n
        invariant
            n == subs@.len(),
            0 <= k <= n,
            rlength == 2 + subscribe_topics_size(subs@.take(k as int)),
            2 + subscribe_topics_size(subs@) <= MAX_REMAINING_LENGTH,
        decreases n - k,
    {
        proof {
            lemma_subscribe_size(subs@, k + 1);
            assert(subs@.take(k + 1).drop_last() =~= subs@.take(k as int));
        }
        rlength = rlength + 3 + subs[k].0.as_bytes().len();
        k = k + 1;
    }
    proof {
        assert(subs@.take(n as int) =~= subs@);
        lemma_subscribe_size(subs@, 0);
    }
    let mut buf: Vec<u8> = Vec::with_capacity(1 + rlen_size(rlength) + rlength);

    let fixed: u8 = MessageType::SUBSCRIBE.code() * 16 + 2;
    buf.push(fixed);
    rlen(&mut buf, rlength as u32);
    let ghost head = buf@;
    push_short(&mut buf, msg_id);

    let mut i: usize = 0;
    while i < n
        invariant
            n == subs@.len(),
            0 <= i <= n,
            buf@ == head + short_bytes(msg_id as int) + subscribe_topics(subs@.take(i as int)),
            forall|j: int|
                0 <= j < subs@.len() ==> (#[trigger] subs@[j]).0.spec_bytes().len()
                    <= MAX_FIELD_LENGTH,
        decreases n - i,
    {
        push_field(&mut buf, subs[i].0.as_bytes());
        buf.push(subs[i].1.code());
        proof {
            assert(subs@.take(i + 1).drop_last() =~= subs@.take(i as int));
            assert(subs@.take(i + 1).last() == subs@[i as int]);
            assert(buf@ =~= head + short_bytes(msg_id as int) + subscribe_topics(
                subs@.take(i + 1),
            ));
        }
        i = i + 1;
    }
    assert(subs@.take(n as int) =~= subs@);
    assert(buf@ =~= packet(0x82, subscribe_body(subs@, msg_id)));
    buf
}

/// An UNSUBSCRIBE packet for the topics given.
pub fn unsubscribe(topics: Vec<&str>, msg_id: u16) -> (buf: Vec<u8>)
    requires
        unsubscribe_admits(topics@),
    ensures
        buf@ == packet(0xa2, unsubscribe_body(topics@, msg_id)),
        unsubscribe_body(topics@, msg_id).len() == 2 + unsubscribe_topics_size(topics@),
{
    let n: usize = topics.len();
    let mut rlength: usize = 2;
    let mut k: usize = 0;
    while k < n
        invariant
            n == topics@.len(),
            0 <= k <= n,
            rlength == 2 + unsubscribe_topics_size(topics@.take(k as int)),
            2 + unsubscribe_topics_size(topics@) <= MAX_REMAINING_LENGTH,
        decreases n - k,
    {
        proof {
            lemma_unsubscribe_size(topics@, k + 1);
            assert(topics@.take(k + 1).drop_last() =~= topics@.take(k as int));
        }
        rlength = rlength + 2 + topics[k].as_bytes().len();
        k = k + 1;
    }
    proof {
        assert(topics@.take(n as int) =~= topics@);
        lemma_unsubscribe_size(topics@, 0);
    }
    let mut buf: Vec<u8> = Vec::with_capacity(1 + rlen_size(rlength) + rlength);

    let fixed: u8 = MessageType::UNSUBSCRIBE.code() * 16 + 2;
    buf.push(fixed);
    rlen(&mut buf, rlength as u32);
    let ghost head = buf@;
    push_short(&mut buf, msg_id);

    let mut i: usize = 0;
    while i < n
        invariant
            n == topics@.len(),
            0 <= i <= n,
            buf@ == head + short_bytes(msg_id as int) + unsubscribe_topics(
                topics@.take(i as int),
            ),
            forall|j: int|
                0 <= j < topics@.len() ==> (#[trigger] topics@[j]).spec_bytes().len()
                    <= MAX_FIELD_LENGTH,
        decreases n - i,
    {
        push_field(&mut buf, topics[i].as_bytes());
        proof {
            assert(topics@.take(i + 1).drop_last() =~= topics@.take(i as int));
            assert(topics@.take(i + 1).last() == topics@[i as int]);
            assert(buf@ =~= head + short_bytes(msg_id as int) + unsubscribe_topics(
                topics@.take(i + 1),
            ));
        }
        i = i + 1;
    }
    assert(topics@.take(n as int) =~= topics@);
    assert(buf@ =~= packet(0xa2, unsubscribe_body(topics@, msg_id)));
    buf
}

/// The two bytes of a PINGREQ.
pub fn pingreq() -> (buf: Vec<u8>)
    ensures
        buf@ == seq![0xc0u8, 0u8],
        buf@ == packet(0xc0, Seq::empty()),
{
    let b: u8 = MessageType::PINGREQ.code() * 16;
    let mut buf: Vec<u8> = Vec::with_capacity(2);
    buf.push(b);
    buf.push(0);
    assert(buf@ =~= seq![0xc0u8, 0u8]);
    assert(buf@ =~= packet(0xc0, Seq::empty()));
    buf
}

/// The two bytes of a DISCONNECT.
pub fn disconnect() -> (buf: Vec<u8>)
    ensures
        buf@ == seq![0xe0u8, 0u8],
        buf@ == packet(0xe0, Seq::empty()),
{
    let b: u8 = MessageType::DISCONNECT.code() * 16;
    let mut buf: Vec<u8> = Vec::with_capacity(2);
    buf.push(b);
    buf.push(0);
    assert(buf@ =~= seq![0xe0u8, 0u8]);
    assert(buf@ =~= packet(0xe0, Seq::empty()));
    buf
}

} // verus!
