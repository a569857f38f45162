//! The session: what a client sends and how it reads what comes back. The
//! session decides and keeps the books; whoever owns the connection writes
//! the bytes it hands out and hands in the bytes that were read.
use vstd::prelude::*;
use vstd::string::StringSliceAdditionalSpecFns;
use crate::parser::encode;
use crate::parser::encode::{
    bytes_of, connect_admits, connect_body, packet, publish_admits, publish_body, publish_header,
    subscribe_admits, subscribe_body, unsubscribe_admits, unsubscribe_body, will_of,
};
use crate::parser::{decode, message_of, LastWill, Message, MessageModel, QoS};

verus! {

/// `std::io::Error`, the error of a failed read or write. Nothing is claimed
/// of it: it is carried from the transport to the caller as it came.
#[verifier::external_type_specification]
#[verifier::external_body]
pub struct ExIoError(std::io::Error);

/// Why a broker refused a CONNECT.
#[derive(Debug, PartialEq, Eq, Clone, Copy, Structural)]
pub enum ConnectError {
    WrongProtocolVersion,
    IdentifierRejected,
    ServerUnavailable,
    BadUserOrPassword,
    NotAuthorized,
    OtherError,
}

impl ConnectError {
    /// The refusal that a CONNACK return code stands for: 1 to 5 each name
    /// one, every other code but 0 is `OtherError`, and 0 is no refusal.
    pub open spec fn of_code(n: u8) -> Option<ConnectError> {
        if n == 0 {
            None
        } else if n == 1 {
            Some(ConnectError::WrongProtocolVersion)
        } else if n == 2 {
            Some(ConnectError::IdentifierRejected)
        } else if n == 3 {
            Some(ConnectError::ServerUnavailable)
        } else if n == 4 {
            Some(ConnectError::BadUserOrPassword)
        } else if n == 5 {
            Some(ConnectError::NotAuthorized)
        } else {
            Some(ConnectError::OtherError)
        }
    }

    pub fn from_u8(n: u8) -> (r: Option<ConnectError>)
        ensures
            r == Self::of_code(n),
    {
        match n {
            0 => None,
            1 => Some(ConnectError::WrongProtocolVersion),
            2 => Some(ConnectError::IdentifierRejected),
            3 => Some(ConnectError::ServerUnavailable),
            4 => Some(ConnectError::BadUserOrPassword),
            5 => Some(ConnectError::NotAuthorized),
            _ => Some(ConnectError::OtherError),
        }
    }
}

/// Everything that can go wrong in a session.
#[derive(Debug)]
pub enum MqttError {
    /// The transport failed.
    BrokenIO(std::io::Error),
    /// Something was to be sent or read without a connection.
    NoConnection,
    /// The bytes read hold no message this client understands.
    MqttParseError(&'static str),
    /// The read gave no bytes.
    NoData,
    /// The broker refused the CONNECT.
    ConnectRefused(ConnectError),
    /// A CONNACK was due and something else came.
    WrongMessage(Message),
}

/// The parameters of one connection attempt. Every field is given when the
/// value is made.
#[derive(Debug)]
pub struct ConnectOptions<'a> {
    pub host_port: &'a str,
    pub client_id: &'a str,
    pub user: Option<&'a str>,
    pub pass: Option<&'a str>,
    pub keep_alive: u16,
    pub clean: bool,
    pub lwt: Option<&'a LastWill>,
}

impl<'a> ConnectOptions<'a> {
    /// Whether a CONNECT can carry these options.
    pub open spec fn admitted(&self) -> bool {
        connect_admits(self.client_id.spec_bytes(), bytes_of(self.user), bytes_of(self.pass))
    }

    /// The CONNECT packet for these options.
    pub open spec fn request(&self) -> Seq<u8> {
        packet(
            0x10,
            connect_body(
                self.client_id.spec_bytes(),
                bytes_of(self.user),
                bytes_of(self.pass),
                self.keep_alive,
                self.clean,
                will_of(self.lwt),
            ),
        )
    }

    /// Tells whether a CONNECT can carry these options.
    pub fn fits(&self) -> (fits: bool)
        ensures
            fits == self.admitted(),
    {
        encode::connect_fits(self.client_id, self.user, self.pass)
    }
}

/// The packet identifier that follows `last`: one more, and 1 after 65535,
/// so that an identifier is never 0.
pub open spec fn id_after(last: u16) -> u16 {
    if last == 65535 {
        1
    } else {
        (last + 1) as u16
    }
}

/// The last identifier of a session after `calls` calls of `next_id`, when
/// it was `last` before them.
pub open spec fn id_after_calls(last: u16, calls: nat) -> u16
    decreases calls,
{
    if calls == 0 {
        last
    } else {
        id_after(id_after_calls(last, (calls - 1) as nat))
    }
}

/// Identifiers are given out in strictly increasing order: as long as 65535
/// is not passed, the identifier after `calls` calls is the last one before
/// them plus `calls`. From a new session the first is 1, the second 2, and
/// so on.
pub proof fn lemma_identifiers_increase(last: u16, calls: nat)
    requires
        last + calls <= 65535,
    ensures
        id_after_calls(last, calls) == last + calls,
        calls > 0 ==> id_after_calls(last, calls) > id_after_calls(last, (calls - 1) as nat),
        calls > 0 ==> id_after_calls(last, calls) >= 1,
    decreases calls,
{
    if calls > 0 {
        lemma_identifiers_increase(last, (calls - 1) as nat);
    }
}

/// What the answer to a CONNECT means: return code 0 accepts, every other
/// return code refuses for the reason it stands for, and any message but a
/// CONNACK is out of place.
pub fn connack_outcome(reply: Message) -> (r: Result<(), MqttError>)
    ensures
        match reply@ {
            MessageModel::Connack(code) => match ConnectError::of_code(code) {
                None => r.is_ok(),
                Some(reason) => r == Err::<(), MqttError>(MqttError::ConnectRefused(reason)),
            },
            _ => r == Err::<(), MqttError>(MqttError::WrongMessage(reply)),
        },
{
    match reply {
        Message::Connack(code) => match ConnectError::from_u8(code) {
            None => Ok(()),
            Some(reason) => Err(MqttError::ConnectRefused(reason)),
        },
        other => Err(MqttError::WrongMessage(other)),
    }
}

/// What one read means: no bytes are `NoData`, bytes that hold no message
/// are a parse error, and all others are the message they hold.
pub fn received(data: &[u8]) -> (r: Result<Message, MqttError>)
    ensures
        match r {
            Ok(msg) => data@.len() > 0 && message_of(data@) == Some(msg@),
            Err(MqttError::NoData) => data@.len() == 0,
            Err(MqttError::MqttParseError(text)) => data@.len() > 0 && message_of(data@).is_none()
                && text@ == "Message unrecognized"@,
            Err(_) => false,
        },
{
    if data.len() == 0 {
        return Err(MqttError::NoData);
    }
    match decode(data) {
        Some(msg) => Ok(msg),
        None => Err(MqttError::MqttParseError("Message unrecognized")),
    }
}

/// One client's session with a broker: whether it is connected, and the
/// last packet identifier it gave out.
#[derive(Debug)]
pub struct Session {
    connected: bool,
    last_id: u16,
}

impl Session {
    /// Whether the session is connected.
    pub closed spec fn connected(&self) -> bool {
        self.connected
    }

    /// The last packet identifier given out; 0 before the first.
    pub closed spec fn last(&self) -> u16 {
        self.last_id
    }

    /// A session that is not connected and has given out no identifier.
    pub fn new() -> (s: Session)
        ensures
            !s.connected(),
            s.last() == 0,
    {
        Session { connected: false, last_id: 0 }
    }

    pub fn is_connected(&self) -> (b: bool)
        ensures
            b == self.connected(),
    {
        self.connected
    }

    pub fn last_id(&self) -> (id: u16)
        ensures
            id == self.last(),
    {
        self.last_id
    }

    /// Gives out the next packet identifier: one more than the last, and so
    /// greater than every one before it, until 65535 has been given out;
    /// then it starts again at 1.
    pub fn next_id(&mut self) -> (id: u16)
        ensures
            id == id_after(old(self).last()),
            id >= 1,
            old(self).last() < 65535 ==> id > old(self).last(),
            final(self).last() == id,
            final(self).connected() == old(self).connected(),
    {
        if self.last_id == 65535 {
            self.last_id = 1;
        } else {
            self.last_id = self.last_id + 1;
        }
        self.last_id
    }

    /// The CONNECT packet to write on a transport that has just been opened.
    /// The session itself does not change until the answer is in.
    pub fn connect(&self, options: &ConnectOptions) -> (buf: Vec<u8>)
        requires
            options.admitted(),
        ensures
            buf@ == options.request(),
    {
        encode::connect(
            options.client_id,
            options.user,
            options.pass,
            options.keep_alive,
            options.clean,
            options.lwt,
        )
    }

    /// Takes the bytes of the one read that follows a CONNECT. The session
    /// is connected afterwards if and only if they hold a CONNACK with
    /// return code 0; every other outcome is an error and leaves the
    /// session disconnected.
    pub fn handshake(&mut self, data: &[u8]) -> (r: Result<(), MqttError>)
        ensures
            final(self).last() == old(self).last(),
            final(self).connected() == r.is_ok(),
            r.is_ok() <==> message_of(data@) == Some(MessageModel::Connack(0)) && data@.len() > 0,
            match r {
                Ok(_) => true,
                Err(MqttError::NoData) => data@.len() == 0,
                Err(MqttError::MqttParseError(_)) => data@.len() > 0 && message_of(
                    data@,
                ).is_none(),
                Err(MqttError::ConnectRefused(reason)) => {
                    &&& data@.len() > 0
                    &&& message_of(data@) matches Some(MessageModel::Connack(code))
                    &&& ConnectError::of_code(code) == Some(reason)
                },
                Err(MqttError::WrongMessage(msg)) => data@.len() > 0 && message_of(data@) == Some(
                    msg@,
                ) && !(msg@ is Connack),
                Err(_) => false,
            },
    {
        let outcome: Result<(), MqttError> = match received(data) {
            Ok(msg) => connack_outcome(msg),
            Err(e) => Err(e),
        };
        self.connected = outcome.is_ok();
        outcome
    }

    /// The transport failed with `error`: the session is disconnected, and
    /// the failure is handed back as the error to report.
    pub fn broken(&mut self, error: std::io::Error) -> (e: MqttError)
        ensures
            !final(self).connected(),
            final(self).last() == old(self).last(),
            e == MqttError::BrokenIO(error),
    {
        self.connected = false;
        MqttError::BrokenIO(error)
    }

    /// The DISCONNECT packet to write, after which the session is
    /// disconnected; no answer is expected. Without a connection nothing is
    /// to be written.
    pub fn disconnect(&mut self) -> (r: Result<Vec<u8>, MqttError>)
        ensures
            !final(self).connected(),
            final(self).last() == old(self).last(),
            match r {
                Ok(buf) => old(self).connected() && buf@ == seq![0xe0u8, 0u8],
                Err(e) => !old(self).connected() && e == MqttError::NoConnection,
            },
    {
        if !self.connected {
            return Err(MqttError::NoConnection);
        }
        self.connected = false;
        Ok(encode::disconnect())
    }

    /// Takes the bytes of one read and gives the message they hold.
    pub fn recv(&self, data: &[u8]) -> (r: Result<Message, MqttError>)
        ensures
            match r {
                Ok(msg) => self.connected() && data@.len() > 0 && message_of(data@) == Some(
                    msg@,
                ),
                Err(MqttError::NoConnection) => !self.connected(),
                Err(MqttError::NoData) => self.connected() && data@.len() == 0,
                Err(MqttError::MqttParseError(_)) => self.connected() && data@.len() > 0
                    && message_of(data@).is_none(),
                Err(_) => false,
            },
    {
        if !self.connected {
            return Err(MqttError::NoConnection);
        }
        received(data)
    }

    /// The identifier that a publication at `qos` carries when the last one
    /// given out was `last`: none at `AtMostOnce`, else the next.
    pub open spec fn publish_id(last: u16, qos: QoS) -> Option<u16> {
        if qos == QoS::AtMostOnce {
            None
        } else {
            Some(id_after(last))
        }
    }

    /// The PUBLISH packet to write. A publication at `AtMostOnce` takes no
    /// packet identifier; every other takes the next one, connected or not.
    pub fn publish(&mut self, topic: &str, msg: &str, qos: QoS, retained: bool, dup: bool) -> (r:
        Result<Vec<u8>, MqttError>)
        requires
            publish_admits(topic.spec_bytes(), msg.spec_bytes(), qos != QoS::AtMostOnce),
        ensures
            final(self).connected() == old(self).connected(),
            final(self).last() == match Self::publish_id(old(self).last(), qos) {
                Some(id) => id,
                None => old(self).last(),
            },
            match r {
                Ok(buf) => old(self).connected() && buf@ == packet(
                    publish_header(qos, retained, dup),
                    publish_body(
                        topic.spec_bytes(),
                        msg.spec_bytes(),
                        Self::publish_id(old(self).last(), qos),
                    ),
                ),
                Err(e) => !old(self).connected() && e == MqttError::NoConnection,
            },
    {
        let id: Option<u16> = match qos {
            QoS::AtMostOnce => None,
            _ => Some(self.next_id()),
        };
        let buf: Vec<u8> = encode::publish(topic, msg, qos, retained, dup, id);
        if self.connected {
            Ok(buf)
        } else {
            Err(MqttError::NoConnection)
        }
    }

    /// The SUBSCRIBE packet to write. The whole request takes one packet
    /// identifier, the next one, connected or not.
    pub fn subscribe(&mut self, subscriptions: Vec<(&str, QoS)>) -> (r: Result<Vec<u8>, MqttError>)
        requires
            subscribe_admits(subscriptions@),
        ensures
            final(self).connected() == old(self).connected(),
            final(self).last() == id_after(old(self).last()),
            match r {
                Ok(buf) => old(self).connected() && buf@ == packet(
                    0x82,
                    subscribe_body(subscriptions@, id_after(old(self).last())),
                ),
                Err(e) => !old(self).connected() && e == MqttError::NoConnection,
            },
    {
        let id: u16 = self.next_id();
        let buf: Vec<u8> = encode::subscribe(subscriptions, id);
        if self.connected {
            Ok(buf)
        } else {
            Err(MqttError::NoConnection)
        }
    }

    /// The UNSUBSCRIBE packet to write. The whole request takes one packet
    /// identifier, the next one, connected or not.
    pub fn unsubscribe(&mut self, topics: Vec<&str>) -> (r: Result<Vec<u8>, MqttError>)
        requires
            unsubscribe_admits(topics@),
        ensures
            final(self).connected() == old(self).connected(),
            final(self).last() == id_after(old(self).last()),
            match r {
                Ok(buf) => old(self).connected() && buf@ == packet(
                    0xa2,
                    unsubscribe_body(topics@, id_after(old(self).last())),
                ),
                Err(e) => !old(self).connected() && e == MqttError::NoConnection,
            },
    {
        let id: u16 = self.next_id();
        let buf: Vec<u8> = encode::unsubscribe(topics, id);
        if self.connected {
            Ok(buf)
        } else {
            Err(MqttError::NoConnection)
        }
    }
}

} // verus!
