//! Connection-level vocabulary shared with the transport layer.
//!
//! The transports themselves (TCP, TLS, Unix domain sockets) live outside
//! the verified library; what is shared is the connection method, the
//! message-type constants ([`crate::qmsg_type`]) and the [`Query`] trait
//! that turns a value into a message.

use vstd::prelude::*;
use vstd::string::StringExecFns;
use crate::codec::KdbMessage;
use crate::qattribute;
use crate::types::K;

verus! {

/// How a q process is reached.
pub enum ConnectionMethod {
    TCP,
    TLS,
    /// Unix domain socket.
    UDS,
}

/// A value that can travel as a query: either a textual command or a
/// functional form.
pub trait Query {
    /// Wrap this query into a message of the given type.
    fn to_kdb_message(&self, message_type: u8) -> KdbMessage;
}

impl Query for K {
    /// A functional query: the value itself.
    fn to_kdb_message(&self, message_type: u8) -> KdbMessage {
        KdbMessage::new(message_type, self.clone())
    }
}

impl Query for str {
    /// A textual query: the command as a q string.  A query too long for
    /// the frame's 32-bit length field travels as an error atom instead of
    /// being silently cut.
    fn to_kdb_message(&self, message_type: u8) -> KdbMessage {
        if self.as_bytes().len() <= 0xffffffffusize {
            KdbMessage::new(message_type, K::new_string(String::from_str(self), qattribute::NONE))
        } else {
            KdbMessage::new(
                message_type,
                K::new_error(String::from_str("query too long for an IPC frame")),
            )
        }
    }
}

} // verus!
