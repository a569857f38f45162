//! Control packets as data, and the decoder for what a broker sends.
use vstd::prelude::*;
use vstd::string::StringSliceAdditionalSpecFns;
use vstd::utf8::encode_utf8;

pub mod encode;

verus! {

/// Largest value the remaining-length field of a fixed header can carry.
pub const MAX_REMAINING_LENGTH: usize = 268_435_455;

/// Delivery guarantee of a publication.
#[derive(PartialEq, Eq, Debug, Clone, Copy, Structural)]
pub enum QoS {
    AtMostOnce,
    AtLeastOnce,
    ExactlyOnce,
}

impl QoS {
    /// The two-bit number that stands for this level on the wire.
    pub open spec fn code_of(self) -> u8 {
        match self {
            QoS::AtMostOnce => 0,
            QoS::AtLeastOnce => 1,
            QoS::ExactlyOnce => 2,
        }
    }

    /// The level a wire number stands for, if it stands for one.
    pub open spec fn of_code(n: u8) -> Option<QoS> {
        if n == 0 {
            Some(QoS::AtMostOnce)
        } else if n == 1 {
            Some(QoS::AtLeastOnce)
        } else if n == 2 {
            Some(QoS::ExactlyOnce)
        } else {
            None
        }
    }

    pub fn code(self) -> (c: u8)
        ensures
            c == self.code_of(),
            c <= 2,
    {
        match self {
            QoS::AtMostOnce => 0,
            QoS::AtLeastOnce => 1,
            QoS::ExactlyOnce => 2,
        }
    }

    /// Closed mapping from a wire number: unknown numbers give `None`.
    pub fn from_u8(n: u8) -> (r: Option<QoS>)
        ensures
            r == Self::of_code(n),
    {
        match n {
            0 => Some(QoS::AtMostOnce),
            1 => Some(QoS::AtLeastOnce),
            2 => Some(QoS::ExactlyOnce),
            _ => None,
        }
    }
}

impl Default for QoS {
    fn default() -> (r: QoS)
        ensures
            r == QoS::AtMostOnce,
    {
        QoS::AtMostOnce
    }
}

/// The fourteen kinds of control packet.
#[allow(non_camel_case_types)]
#[derive(PartialEq, Eq, Debug, Clone, Copy, Structural)]
pub enum MessageType {
    CONNECT,
    CONNACK,
    PUBLISH,
    PUBACK,
    PUBREC,
    PUBREL,
    PUBCOMP,
    SUBSCRIBE,
    SUBACK,
    UNSUBSCRIBE,
    UNSUBACK,
    PINGREQ,
    PINGRESP,
    DISCONNECT,
}

impl MessageType {
    /// The number, 1 to 14, held in the top nibble of a fixed header.
    pub open spec fn code_of(self) -> u8 {
        match self {
            MessageType::CONNECT => 1,
            MessageType::CONNACK => 2,
            MessageType::PUBLISH => 3,
            MessageType::PUBACK => 4,
            MessageType::PUBREC => 5,
            MessageType::PUBREL => 6,
            MessageType::PUBCOMP => 7,
            MessageType::SUBSCRIBE => 8,
            MessageType::SUBACK => 9,
            MessageType::UNSUBSCRIBE => 10,
            MessageType::UNSUBACK => 11,
            MessageType::PINGREQ => 12,
            MessageType::PINGRESP => 13,
            MessageType::DISCONNECT => 14,
        }
    }

    /// The kind a number stands for; `None` for 0, 15 and above.
    pub open spec fn of_code(n: u8) -> Option<MessageType> {
        if n == 1 {
            Some(MessageType::CONNECT)
        } else if n == 2 {
            Some(MessageType::CONNACK)
        } else if n == 3 {
            Some(MessageType::PUBLISH)
        } else if n == 4 {
            Some(MessageType::PUBACK)
        } else if n == 5 {
            Some(MessageType::PUBREC)
        } else if n == 6 {
            Some(MessageType::PUBREL)
        } else if n == 7 {
            Some(MessageType::PUBCOMP)
        } else if n == 8 {
            Some(MessageType::SUBSCRIBE)
        } else if n == 9 {
            Some(MessageType::SUBACK)
        } else if n == 10 {
            Some(MessageType::UNSUBSCRIBE)
        } else if n == 11 {
            Some(MessageType::UNSUBACK)
        } else if n == 12 {
            Some(MessageType::PINGREQ)
        } else if n == 13 {
            Some(MessageType::PINGRESP)
        } else if n == 14 {
            Some(MessageType::DISCONNECT)
        } else {
            None
        }
    }

    pub fn code(self) -> (c: u8)
        ensures
            c == self.code_of(),
            1 <= c <= 14,
    {
        match self {
            MessageType::CONNECT => 1,
            MessageType::CONNACK => 2,
            MessageType::PUBLISH => 3,
            MessageType::PUBACK => 4,
            MessageType::PUBREC => 5,
            MessageType::PUBREL => 6,
            MessageType::PUBCOMP => 7,
            MessageType::SUBSCRIBE => 8,
            MessageType::SUBACK => 9,
            MessageType::UNSUBSCRIBE => 10,
            MessageType::UNSUBACK => 11,
            MessageType::PINGREQ => 12,
            MessageType::PINGRESP => 13,
            MessageType::DISCONNECT => 14,
        }
    }

    /// Closed mapping from a number: anything outside 1 to 14 gives `None`.
    pub fn from_u8(n: u8) -> (r: Option<MessageType>)
        ensures
            r == Self::of_code(n),
    {
        match n {
            1 => Some(MessageType::CONNECT),
            2 => Some(MessageType::CONNACK),
            3 => Some(MessageType::PUBLISH),
            4 => Some(MessageType::PUBACK),
            5 => Some(MessageType::PUBREC),
            6 => Some(MessageType::PUBREL),
            7 => Some(MessageType::PUBCOMP),
            8 => Some(MessageType::SUBSCRIBE),
            9 => Some(MessageType::SUBACK),
            10 => Some(MessageType::UNSUBSCRIBE),
            11 => Some(MessageType::UNSUBACK),
            12 => Some(MessageType::PINGREQ),
            13 => Some(MessageType::PINGRESP),
            14 => Some(MessageType::DISCONNECT),
            _ => None,
        }
    }
}

/// Longest run of bytes a length-prefixed field can hold.
pub const MAX_FIELD_LENGTH: usize = 65_535;

/// What a last will holds, as plain values: its strings as the bytes that go
/// on the wire.
pub struct LastWillModel {
    pub topic: Seq<u8>,
    pub msg: Seq<u8>,
    pub qos: QoS,
    pub retain: bool,
}

/// The publication a broker makes for a client whose session ends without a
/// DISCONNECT. The topic is never empty, and topic and message each fit a
/// length-prefixed field.
#[derive(Debug)]
pub struct LastWill {
    topic: String,
    msg: String,
    qos: QoS,
    retain: bool,
}

impl View for LastWill {
    type V = LastWillModel;

    closed spec fn view(&self) -> LastWillModel {
        LastWillModel {
            topic: encode_utf8(self.topic@),
            msg: encode_utf8(self.msg@),
            qos: self.qos,
            retain: self.retain,
        }
    }
}

impl LastWill {
    #[verifier::type_invariant]
    closed spec fn well_formed(self) -> bool {
        &&& 1 <= encode_utf8(self.topic@).len() <= MAX_FIELD_LENGTH
        &&& encode_utf8(self.msg@).len() <= MAX_FIELD_LENGTH
    }

    /// Which topics and messages make a last will.
    pub open spec fn admits(topic: Seq<u8>, msg: Seq<u8>) -> bool {
        1 <= topic.len() <= MAX_FIELD_LENGTH && msg.len() <= MAX_FIELD_LENGTH
    }

    /// A last will, or `None` where the topic is empty or one of the two
    /// strings is longer than 65535 bytes.
    pub fn new(topic: String, msg: String, qos: QoS, retain: bool) -> (r: Option<LastWill>)
        ensures
            r.is_some() == Self::admits(encode_utf8(topic@), encode_utf8(msg@)),
            r matches Some(w) ==> w@ == (LastWillModel {
                topic: encode_utf8(topic@),
                msg: encode_utf8(msg@),
                qos,
                retain,
            }),
    {
        let topic_len: usize = topic.as_str().as_bytes().len();
        let msg_len: usize = msg.as_str().as_bytes().len();
        if topic_len == 0 || topic_len > MAX_FIELD_LENGTH || msg_len > MAX_FIELD_LENGTH {
            None
        } else {
            Some(LastWill { topic, msg, qos, retain })
        }
    }

    pub fn topic(&self) -> (s: &str)
        ensures
            s.spec_bytes() == self@.topic,
            Self::admits(self@.topic, self@.msg),
    {
        proof {
            use_type_invariant(self);
        }
        self.topic.as_str()
    }

    pub fn msg(&self) -> (s: &str)
        ensures
            s.spec_bytes() == self@.msg,
            Self::admits(self@.topic, self@.msg),
    {
        proof {
            use_type_invariant(self);
        }
        self.msg.as_str()
    }

    pub fn qos(&self) -> (q: QoS)
        ensures
            q == self@.qos,
    {
        self.qos
    }

    pub fn retain(&self) -> (b: bool)
        ensures
            b == self@.retain,
    {
        self.retain
    }

}

/// What the broker answers for one topic of a SUBSCRIBE.
#[derive(PartialEq, Eq, Debug, Clone, Copy, Structural)]
pub enum SubAckCode {
    SubAckSuccess(QoS),
    SubAckFailure,
}

/// Packets that `decode` understands.
#[derive(PartialEq, Debug)]
pub enum Message {
    Connack(u8),
    SubAck(Box<Vec<SubAckCode>>),
    UnsubAck,
    PingReq,
    PingResp,
    Disconnect,
}

/// A `Message` as a plain value.
pub enum MessageModel {
    Connack(u8),
    SubAck(Seq<SubAckCode>),
    UnsubAck,
    PingReq,
    PingResp,
    Disconnect,
}

impl View for Message {
    type V = MessageModel;

    open spec fn view(&self) -> MessageModel {
        match self {
            Message::Connack(code) => MessageModel::Connack(*code),
            Message::SubAck(codes) => MessageModel::SubAck(codes@),
            Message::UnsubAck => MessageModel::UnsubAck,
            Message::PingReq => MessageModel::PingReq,
            Message::PingResp => MessageModel::PingResp,
            Message::Disconnect => MessageModel::Disconnect,
        }
    }
}

/// A number and its kind name each other: `from_u8` undoes `code`, and a
/// number that `from_u8` accepts is the code of what it returns.
pub proof fn lemma_codes_are_closed(q: QoS, t: MessageType, n: u8)
    ensures
        QoS::of_code(q.code_of()) == Some(q),
        MessageType::of_code(t.code_of()) == Some(t),
        QoS::of_code(n) matches Some(x) ==> x.code_of() == n,
        MessageType::of_code(n) matches Some(x) ==> x.code_of() == n,
        QoS::of_code(n).is_some() <==> n <= 2,
        MessageType::of_code(n).is_some() <==> 1 <= n <= 14,
{
}

/// The remaining-length field for `n`: one to four bytes, seven bits of `n`
/// in each, the most significant group first, and the high bit set on every
/// byte but the last.
pub open spec fn remaining_length_bytes(n: nat) -> Seq<u8>
    recommends
        n <= MAX_REMAINING_LENGTH,
{
    if n < 128 {
        seq![n as u8]
    } else if n < 16384 {
        seq![(128 + n / 128) as u8, (n % 128) as u8]
    } else if n < 2097152 {
        seq![(128 + n / 16384) as u8, (128 + (n / 128) % 128) as u8, (n % 128) as u8]
    } else {
        seq![
            (128 + n / 2097152) as u8,
            (128 + (n / 16384) % 128) as u8,
            (128 + (n / 128) % 128) as u8,
            (n % 128) as u8,
        ]
    }
}

/// What a remaining-length field that starts at `index` holds: the offset
/// just behind the field and the number it carries. `None` where the bytes
/// end before a byte with a clear high bit, or where the fourth byte still
/// has its high bit set.
pub open spec fn remaining_length_at(data: Seq<u8>, index: int) -> Option<(int, nat)> {
    if index < 0 || index >= data.len() {
        None
    } else if data[index] < 128 {
        Some((index + 1, data[index] as nat))
    } else if index + 1 >= data.len() {
        None
    } else if data[index + 1] < 128 {
        Some((index + 2, ((data[index] - 128) * 128 + data[index + 1]) as nat))
    } else if index + 2 >= data.len() {
        None
    } else if data[index + 2] < 128 {
        Some(
            (
                index + 3,
                (((data[index] - 128) * 128 + (data[index + 1] - 128)) * 128 + data[index
                    + 2]) as nat,
            ),
        )
    } else if index + 3 >= data.len() {
        None
    } else if data[index + 3] < 128 {
        Some(
            (
                index + 4,
                ((((data[index] - 128) * 128 + (data[index + 1] - 128)) * 128 + (data[index + 2]
                    - 128)) * 128 + data[index + 3]) as nat,
            ),
        )
    } else {
        None
    }
}

/// Reads the remaining-length field that starts at `index`. Gives the offset
/// of the first byte behind it and the number read.
pub fn parse_rlen(data: &[u8], index: usize) -> (r: Option<(usize, usize)>)
    ensures
        match r {
            Some((next, value)) => remaining_length_at(data@, index as int) == Some(
                (next as int, value as nat),
            ),
            None => remaining_length_at(data@, index as int).is_none(),
        },
        r matches Some((next, value)) ==> index < next <= data@.len() && next <= index + 4 && value
            <= MAX_REMAINING_LENGTH,
{
    let len: usize = data.len();
    if index >= len {
        return None;
    }
    let a: u8 = data[index];
    if a < 128 {
        return Some((index + 1, a as usize));
    }
    if index + 1 >= len {
        return None;
    }
    let b: u8 = data[index + 1];
    let high: usize = (a - 128) as usize * 128;
    if b < 128 {
        return Some((index + 2, high + b as usize));
    }
    if index + 2 >= len {
        return None;
    }
    let c: u8 = data[index + 2];
    let high: usize = (high + (b - 128) as usize) * 128;
    if c < 128 {
        return Some((index + 3, high + c as usize));
    }
    if index + 3 >= len {
        return None;
    }
    let d: u8 = data[index + 3];
    let high: usize = (high + (c - 128) as usize) * 128;
    if d < 128 {
        Some((index + 4, high + d as usize))
    } else {
        None
    }
}

/// Writing a length and reading it back gives the length again, wherever the
/// field stands: for every `n` up to the largest a field can carry, the field
/// written for `n` behind `before` and in front of `after` is read as `n`,
/// and the reader stops just behind the field.
pub proof fn lemma_remaining_length_round_trip(n: nat, before: Seq<u8>, after: Seq<u8>)
    requires
        n <= MAX_REMAINING_LENGTH,
    ensures
        remaining_length_at(
            before + remaining_length_bytes(n) + after,
            before.len() as int,
        ) == Some(((before.len() + remaining_length_bytes(n).len()) as int, n)),
{
    let field = remaining_length_bytes(n);
    let data = before + field + after;
    let at = before.len() as int;
    assert forall|k: int| 0 <= k < field.len() implies data[at + k] == field[k] by {}
    if n < 128 {
        assert(data[at] == field[0]);
    } else if n < 16384 {
        assert(data[at] == field[0]);
        assert(data[at + 1] == field[1]);
    } else if n < 2097152 {
        assert(data[at] == field[0]);
        assert(data[at + 1] == field[1]);
        assert(data[at + 2] == field[2]);
    } else {
        assert(data[at] == field[0]);
        assert(data[at + 1] == field[1]);
        assert(data[at + 2] == field[2]);
        assert(data[at + 3] == field[3]);
    }
}

/// The 16-bit number in the two bytes at `index`, high byte first; `None`
/// where the two bytes are not both there.
pub open spec fn short_at(data: Seq<u8>, index: int) -> Option<u16> {
    if 0 <= index && index + 1 < data.len() {
        Some((data[index] * 256 + data[index + 1]) as u16)
    } else {
        None
    }
}

/// What one return byte of a SUBACK means: a byte that names a QoS grants
/// it, every other byte reports failure.
pub open spec fn suback_code(byte: u8) -> SubAckCode {
    match QoS::of_code(byte) {
        Some(qos) => SubAckCode::SubAckSuccess(qos),
        None => SubAckCode::SubAckFailure,
    }
}

/// A CONNACK: the remaining length is exactly 2, and the return code is the
/// second of the two bytes, behind a reserved one.
pub open spec fn connack_of(data: Seq<u8>) -> Option<MessageModel> {
    match remaining_length_at(data, 1) {
        Some((index, n)) => if n == 2 && index + 2 <= data.len() {
            Some(MessageModel::Connack(data[index + 1]))
        } else {
            None
        },
        None => None,
    }
}

/// A SUBACK: two bytes of packet identifier, which must be there, then one
/// return byte for each topic up to the end that the remaining length
/// declares. The declared bytes must all be in `data`.
pub open spec fn suback_of(data: Seq<u8>) -> Option<MessageModel> {
    match remaining_length_at(data, 1) {
        Some((index, n)) => if n >= 2 && index + n <= data.len() {
            Some(
                MessageModel::SubAck(
                    Seq::new((n - 2) as nat, |k: int| suback_code(data[index + 2 + k])),
                ),
            )
        } else {
            None
        },
        None => None,
    }
}

/// An UNSUBACK: the two bytes of packet identifier are declared and there.
pub open spec fn unsuback_of(data: Seq<u8>) -> Option<MessageModel> {
    match remaining_length_at(data, 1) {
        Some((index, n)) => if n >= 2 && index + 2 <= data.len() {
            Some(MessageModel::UnsubAck)
        } else {
            None
        },
        None => None,
    }
}

/// The message that `data` holds, if it holds one. The high nibble of the
/// first byte must name a kind of packet and a remaining-length field must
/// follow it. Of the kinds, CONNACK, SUBACK, UNSUBACK, PINGRESP and
/// DISCONNECT are understood; each of the others gives `None`.
pub open spec fn message_of(data: Seq<u8>) -> Option<MessageModel> {
    if data.len() == 0 {
        None
    } else if remaining_length_at(data, 1).is_none() {
        None
    } else {
        match MessageType::of_code(data[0] / 16) {
            Some(MessageType::CONNACK) => connack_of(data),
            Some(MessageType::SUBACK) => suback_of(data),
            Some(MessageType::UNSUBACK) => unsuback_of(data),
            Some(MessageType::PINGRESP) => Some(MessageModel::PingResp),
            Some(MessageType::DISCONNECT) => Some(MessageModel::Disconnect),
            _ => None,
        }
    }
}

/// A decoded message, or the lack of one, as a plain value.
pub open spec fn model_of(m: Option<Message>) -> Option<MessageModel> {
    match m {
        Some(m) => Some(m@),
        None => None,
    }
}

/// Reads the 16-bit number at `index`, high byte first.
pub fn parse_short(data: &[u8], index: usize) -> (r: Option<u16>)
    ensures
        r == short_at(data@, index as int),
{
    let len: usize = data.len();
    if index >= len || index + 1 >= len {
        return None;
    }
    let high: u16 = data[index] as u16;
    let low: u16 = data[index + 1] as u16;
    Some(high * 256 + low)
}

/// Decodes a CONNACK whose first byte has been recognised.
pub fn parse_connack(data: &[u8]) -> (r: Option<Message>)
    ensures
        model_of(r) == connack_of(data@),
{
    match parse_rlen(data, 1) {
        Some((index, remaining_length)) => {
            if remaining_length == 2 && data.len() - index >= 2 {
                Some(Message::Connack(data[index + 1]))
            } else {
                None
            }
        },
        None => None,
    }
}

/// Decodes a SUBACK whose first byte has been recognised.
pub fn parse_suback(data: &[u8]) -> (r: Option<Message>)
    ensures
        model_of(r) == suback_of(data@),
{
    match parse_rlen(data, 1) {
        Some((index, remaining_length)) => {
            if parse_short(data, index).is_none() {
                return None;
            }
            if remaining_length < 2 || remaining_length > data.len() - index {
                return None;
            }
            let end: usize = index + remaining_length;
            let mut i: usize = index + 2;
            let mut codes: Vec<SubAckCode> = Vec::with_capacity(remaining_length - 2);
            while i < end
                invariant
                    index + 2 <= i <= end <= data@.len(),
                    codes@.len() == i - (index + 2),
                    forall|k: int|
                        0 <= k < codes@.len() ==> codes@[k] == suback_code(
                            #[trigger] data@[index + 2 + k],
                        ),
                decreases end - i,
            {
                let code: SubAckCode = match QoS::from_u8(data[i]) {
                    Some(qos) => SubAckCode::SubAckSuccess(qos),
                    None => SubAckCode::SubAckFailure,
                };
                codes.push(code);
                i += 1;
            }
            assert(codes@ =~= Seq::new(
                (remaining_length - 2) as nat,
                |k: int| suback_code(data@[index + 2 + k]),
            ));
            Some(Message::SubAck(Box::new(codes)))
        },
        None => None,
    }
}

/// Decodes an UNSUBACK whose first byte has been recognised.
pub fn parse_unsuback(data: &[u8]) -> (r: Option<Message>)
    ensures
        model_of(r) == unsuback_of(data@),
{
    match parse_rlen(data, 1) {
        Some((index, remaining_length)) => {
            if remaining_length >= 2 && parse_short(data, index).is_some() {
                Some(Message::UnsubAck)
            } else {
                None
            }
        },
        None => None,
    }
}

/// Decodes one packet from the start of `data`. Gives `None` for bytes that
/// hold no message this client understands, and never reads outside `data`.
pub fn decode(data: &[u8]) -> (r: Option<Message>)
    ensures
        model_of(r) == message_of(data@),
{
    if data.len() == 0 {
        return None;
    }
    let kind: Option<MessageType> = MessageType::from_u8(data[0] / 16);
    if parse_rlen(data, 1).is_none() {
        return None;
    }
    match kind {
        Some(MessageType::CONNACK) => parse_connack(data),
        Some(MessageType::SUBACK) => parse_suback(data),
        Some(MessageType::UNSUBACK) => parse_unsuback(data),
        Some(MessageType::PINGRESP) => Some(Message::PingResp),
        Some(MessageType::DISCONNECT) => Some(Message::Disconnect),
        _ => None,
    }
}

/// Malformed bytes hold no message: nothing is decoded from no bytes, from
/// a first byte whose high nibble names no kind of packet, from a
/// remaining-length field that is cut short or runs past four bytes, or
/// from a CONNACK whose remaining length is not 2.
pub proof fn lemma_malformed_is_rejected(data: Seq<u8>)
    requires
        data.len() == 0 || MessageType::of_code(data[0] / 16).is_none() || remaining_length_at(
            data,
            1,
        ).is_none() || (MessageType::of_code(data[0] / 16) == Some(MessageType::CONNACK)
            && remaining_length_at(data, 1).unwrap().1 != 2),
    ensures
        message_of(data).is_none(),
{
}

/// Only what a broker sends back is decoded: bytes that hold a message
/// start with a CONNACK, SUBACK, UNSUBACK, PINGRESP or DISCONNECT header,
/// and the message is of that kind.
pub proof fn lemma_decoded_kinds(data: Seq<u8>)
    requires
        message_of(data).is_some(),
    ensures
        data.len() >= 2,
        match message_of(data).unwrap() {
            MessageModel::Connack(_) => data[0] / 16 == 2,
            MessageModel::SubAck(_) => data[0] / 16 == 9,
            MessageModel::UnsubAck => data[0] / 16 == 11,
            MessageModel::PingResp => data[0] / 16 == 13,
            MessageModel::Disconnect => data[0] / 16 == 14,
            MessageModel::PingReq => false,
        },
{
}

} // verus!
