//! Streams that arrive as SNMP notifications. One trap or inform is one
//! Stream: its variable bindings, one `oid=value` line each, and the
//! community or user, version and trap identifier in the origin.
//!
//! SNMP is how the estate's equipment says what happened: a switch whose
//! link went down, a UPS on battery, an appliance past a threshold, every
//! one raises a trap at a manager on UDP port 162. A Receive Location is
//! that manager, taking traps and acknowledging informs; a Send Location
//! raises a trap or an inform of its own, or sets one object on an agent.
//! v2c with a community, and v3 with a user at noAuthNoPriv; the
//! authentication and privacy of RFC 3414 stay open (`v3` says why).
//!
//! The origin URI carries what the message header knew:
//! `snmp://peer?community=public&version=2c&trap-oid=1.3.6.1.4.1.9.0.1&pdu=trap`,
//! or `user=ops&version=3` for v3.
//!
//! A send goes to `snmp://host:162?community=public&trap-oid=...` as a trap,
//! `snmp+inform://host:162` as an inform that waits for its acknowledgement,
//! `snmp+set://host:161/1.3.6.1.4.1.9.9.1.0?community=private` as a SET of
//! the bytes as one OCTET STRING that waits for the response, or a bare
//! `host:port` as a trap with everything as configured. A trap's bindings
//! are the bytes' `oid=value` lines; `sysUpTime.0` and `snmpTrapOID.0` are
//! put first when the lines do not open with them.
//!
//! Every type that reads or writes has a model beside it, `ValueModel` of
//! `Value` and so on, and the contracts are stated over the models: what a
//! value is on the wire, what bytes are read as, and what is refused for
//! what reason. The functions named `law_` relate them: what is written
//! reads back, what is asked is answered, and what does not fit is refused.
//! `laws` holds those that say what each operation is for.

pub mod ber;
pub mod envelope;
pub mod error;
pub mod hex;
pub mod laws;
pub mod lines;
pub mod loopback;
pub mod message;
pub mod octets;
pub mod pdu;
pub mod target;
pub mod text;
pub mod tlv;
pub mod transport;
pub mod v3;

pub use ber::Value;
pub use envelope::{Envelope, GEN_ERR, MAX_DATAGRAM};
pub use error::{Error, Result};
pub use pdu::{Binding, Message, Pdu, PduType};
pub use target::{Action, SnmpTarget};
pub use transport::{react, Arrived, Reaction, Request, SnmpTransport};
pub use v3::V3Message;
