//! The core of an MQTT v5 publish/subscribe system: the packet codec
//! (variable byte integers, typed property blocks, CONNECT, CONNACK,
//! PUBLISH, PUBACK, SUBSCRIBE, SUBACK, UNSUBSCRIBE, UNSUBACK, PINGREQ,
//! PINGRESP, DISCONNECT), topic matching, the broker's subscription table,
//! retained messages and sessions, the QoS 1 in-flight ledger, and the
//! connection rules of broker and client, each proved against its
//! contract.

pub mod bytes;
pub mod strings;
pub mod reason_codes;
pub mod vbi;
pub mod fixed_header;
pub mod topic;
pub mod publish;
pub mod router;
pub mod inflight;
pub mod pingreq;
pub mod suback;
pub mod connect;
pub mod timing;
pub mod session;
pub mod properties;
pub mod acks;
pub mod subscribe;
pub mod connection;
pub mod unsubscribe;
pub mod packet;
