use vstd::prelude::*;

verus! {

/// The reason codes this library sends and recognises, as MQTT v5 defines
/// them for CONNACK, PUBACK, SUBACK and DISCONNECT.
#[derive(Clone, Copy, Debug, PartialEq, Eq, Structural)]
pub enum ReasonMode {
    Success,
    NoMatchingSubscribers,
    UnspecifiedError,
    MalformedPacket,
    ProtocolError,
    ImplementationSpecificError,
    UnsupportedProtocolVersion,
    ClientIdentifierNotValid,
    BadUserNameOrPassword,
    NotAuthorized,
    ServerUnavailable,
    ServerBusy,
    Banned,
    BadAuthenticationMethod,
    KeepAliveTimeout,
    SessionTakenOver,
    TopicNameInvalid,
    PacketIdentifierInUse,
    PacketTooLarge,
    QuotaExceeded,
    PayloadFormatInvalid,
    RetainNotSupported,
    QoSNotSupported,
    UseAnotherServer,
    ServerMoved,
    ConnectionRateExceeded,
}

/// The byte that stands for each reason on the wire.
pub open spec fn reason_id(r: ReasonMode) -> u8 {
    match r {
        ReasonMode::Success => 0x00,
        ReasonMode::NoMatchingSubscribers => 0x10,
        ReasonMode::UnspecifiedError => 0x80,
        ReasonMode::MalformedPacket => 0x81,
        ReasonMode::ProtocolError => 0x82,
        ReasonMode::ImplementationSpecificError => 0x83,
        ReasonMode::UnsupportedProtocolVersion => 0x84,
        ReasonMode::ClientIdentifierNotValid => 0x85,
        ReasonMode::BadUserNameOrPassword => 0x86,
        ReasonMode::NotAuthorized => 0x87,
        ReasonMode::ServerUnavailable => 0x88,
        ReasonMode::ServerBusy => 0x89,
        ReasonMode::Banned => 0x8A,
        ReasonMode::BadAuthenticationMethod => 0x8C,
        ReasonMode::KeepAliveTimeout => 0x8D,
        ReasonMode::SessionTakenOver => 0x8E,
        ReasonMode::TopicNameInvalid => 0x90,
        ReasonMode::PacketIdentifierInUse => 0x91,
        ReasonMode::PacketTooLarge => 0x95,
        ReasonMode::QuotaExceeded => 0x97,
        ReasonMode::PayloadFormatInvalid => 0x99,
        ReasonMode::RetainNotSupported => 0x9A,
        ReasonMode::QoSNotSupported => 0x9B,
        ReasonMode::UseAnotherServer => 0x9C,
        ReasonMode::ServerMoved => 0x9D,
        ReasonMode::ConnectionRateExceeded => 0x9F,
    }
}

impl ReasonMode {
    /// The reason code byte of this reason.
    pub fn get_id(&self) -> (r: u8)
        ensures
            r == reason_id(*self),
    {
        match *self {
            ReasonMode::Success => 0x00,
            ReasonMode::NoMatchingSubscribers => 0x10,
                ReasonMode::UnspecifiedError => 0x80,
            ReasonMode::MalformedPacket => 0x81,
            ReasonMode::ProtocolError => 0x82,
            ReasonMode::ImplementationSpecificError => 0x83,
            ReasonMode::UnsupportedProtocolVersion => 0x84,
            ReasonMode::ClientIdentifierNotValid => 0x85,
            ReasonMode::BadUserNameOrPassword => 0x86,
            ReasonMode::NotAuthorized => 0x87,
            ReasonMode::ServerUnavailable => 0x88,
            ReasonMode::ServerBusy => 0x89,
            ReasonMode::Banned => 0x8A,
            ReasonMode::BadAuthenticationMethod => 0x8C,
            ReasonMode::KeepAliveTimeout => 0x8D,
            ReasonMode::SessionTakenOver => 0x8E,
            ReasonMode::TopicNameInvalid => 0x90,
            ReasonMode::PacketIdentifierInUse => 0x91,
            ReasonMode::PacketTooLarge => 0x95,
            ReasonMode::QuotaExceeded => 0x97,
            ReasonMode::PayloadFormatInvalid => 0x99,
            ReasonMode::RetainNotSupported => 0x9A,
            ReasonMode::QoSNotSupported => 0x9B,
            ReasonMode::UseAnotherServer => 0x9C,
            ReasonMode::ServerMoved => 0x9D,
            ReasonMode::ConnectionRateExceeded => 0x9F,
        }
    }
}

/// The reason a code byte stands for, where it is one of this set.
pub open spec fn reason_from_id(b: u8) -> Option<ReasonMode> {
    match b {
        0x00u8 => Some(ReasonMode::Success),
        0x10u8 => Some(ReasonMode::NoMatchingSubscribers),
        0x80u8 => Some(ReasonMode::UnspecifiedError),
        0x81u8 => Some(ReasonMode::MalformedPacket),
        0x82u8 => Some(ReasonMode::ProtocolError),
        0x83u8 => Some(ReasonMode::ImplementationSpecificError),
        0x84u8 => Some(ReasonMode::UnsupportedProtocolVersion),
        0x85u8 => Some(ReasonMode::ClientIdentifierNotValid),
        0x86u8 => Some(ReasonMode::BadUserNameOrPassword),
        0x87u8 => Some(ReasonMode::NotAuthorized),
        0x88u8 => Some(ReasonMode::ServerUnavailable),
        0x89u8 => Some(ReasonMode::ServerBusy),
        0x8Au8 => Some(ReasonMode::Banned),
        0x8Cu8 => Some(ReasonMode::BadAuthenticationMethod),
        0x8Du8 => Some(ReasonMode::KeepAliveTimeout),
        0x8Eu8 => Some(ReasonMode::SessionTakenOver),
        0x90u8 => Some(ReasonMode::TopicNameInvalid),
        0x91u8 => Some(ReasonMode::PacketIdentifierInUse),
        0x95u8 => Some(ReasonMode::PacketTooLarge),
        0x97u8 => Some(ReasonMode::QuotaExceeded),
        0x99u8 => Some(ReasonMode::PayloadFormatInvalid),
        0x9Au8 => Some(ReasonMode::RetainNotSupported),
        0x9Bu8 => Some(ReasonMode::QoSNotSupported),
        0x9Cu8 => Some(ReasonMode::UseAnotherServer),
        0x9Du8 => Some(ReasonMode::ServerMoved),
        0x9Fu8 => Some(ReasonMode::ConnectionRateExceeded),
        _ => None,
    }
}

/// Each reason reads back from its own code byte.
pub proof fn lemma_reason_id_round_trip(r: ReasonMode)
    ensures
        reason_from_id(reason_id(r)) == Some(r),
{
}

impl ReasonMode {
    /// The reason a code byte stands for; `None` for a byte outside the set.
    pub fn from_id(b: u8) -> (r: Option<ReasonMode>)
        ensures
            r == reason_from_id(b),
    {
        match b {
            0x00u8 => Some(ReasonMode::Success),
            0x10u8 => Some(ReasonMode::NoMatchingSubscribers),
                0x80u8 => Some(ReasonMode::UnspecifiedError),
            0x81u8 => Some(ReasonMode::MalformedPacket),
            0x82u8 => Some(ReasonMode::ProtocolError),
            0x83u8 => Some(ReasonMode::ImplementationSpecificError),
            0x84u8 => Some(ReasonMode::UnsupportedProtocolVersion),
            0x85u8 => Some(ReasonMode::ClientIdentifierNotValid),
            0x86u8 => Some(ReasonMode::BadUserNameOrPassword),
            0x87u8 => Some(ReasonMode::NotAuthorized),
            0x88u8 => Some(ReasonMode::ServerUnavailable),
            0x89u8 => Some(ReasonMode::ServerBusy),
            0x8Au8 => Some(ReasonMode::Banned),
            0x8Cu8 => Some(ReasonMode::BadAuthenticationMethod),
            0x8Du8 => Some(ReasonMode::KeepAliveTimeout),
            0x8Eu8 => Some(ReasonMode::SessionTakenOver),
            0x90u8 => Some(ReasonMode::TopicNameInvalid),
            0x91u8 => Some(ReasonMode::PacketIdentifierInUse),
            0x95u8 => Some(ReasonMode::PacketTooLarge),
            0x97u8 => Some(ReasonMode::QuotaExceeded),
            0x99u8 => Some(ReasonMode::PayloadFormatInvalid),
            0x9Au8 => Some(ReasonMode::RetainNotSupported),
            0x9Bu8 => Some(ReasonMode::QoSNotSupported),
            0x9Cu8 => Some(ReasonMode::UseAnotherServer),
            0x9Du8 => Some(ReasonMode::ServerMoved),
            0x9Fu8 => Some(ReasonMode::ConnectionRateExceeded),
            _ => None,
        }
    }
}

} // verus!
