use vstd::prelude::*;

verus! {

/// The result code with which the audio backend reports success.
pub const SUCCESS: i32 = 0;

/// A failure reported by the audio backend. Each variant stands for one of the
/// backend's negative result codes, given by [`Error::code`].
#[derive(Debug, Clone, Copy, PartialEq, Eq, Structural)]
pub enum Error {
    UnknownError,
    InvalidArgs,
    InvalidOperation,
    OutOfMemory,
    OutOfRange,
    AccessDenied,
    DoesNotExist,
    AlreadyExists,
    TooManyOpenFiles,
    InvalidFile,
    TooBig,
    PathTooLong,
    NameTooLong,
    NotDirectory,
    IsDirectory,
    DirectoryNotEmpty,
    AtEnd,
    NoSpace,
    Busy,
    IoError,
    Interrupt,
    UNAVAILABLE,
    AlreadyInUse,
    BadAddress,
    BadSeek,
    BadPipe,
    Deadlock,
    TooManyLinks,
    NotImplemented,
    NoMessage,
    BadMessage,
    NoDataAvailable,
    InvalidData,
    Timeout,
    NoNetwork,
    NotUnique,
    NotSocket,
    NoAddress,
    BadProtocol,
    ProtocolUnavailable,
    ProtocolNotSupported,
    ProtocolFamilyNotSupported,
    AddressFamilyNotSupported,
    SocketNotSupported,
    ConnectionReset,
    AlreadyConnected,
    NotConnected,
    ConnectionRefused,
    NoHost,
    InProgress,
    Cancelled,
    MemoryAlreadyMapped,
    FormatNotSupported,
    DeviceTypeNotSupported,
    ShareModeNotSupported,
    NoBackend,
    NoDevice,
    ApiNotFound,
    InvalidDeviceConfig,
    Loop,
    DeviceNotInitialized,
    DeviceAlreadyInitialized,
    DeviceNotStarted,
    DeviceNotStopped,
    FailedToOpenBackendDevice,
    FailedToStartBackendDevice,
    FailedToStopBackendDevice,
}

impl Error {
    /// The backend's result code for this failure.
    pub open spec fn code_spec(self) -> int {
        match self {
            Error::UnknownError => -1,
            Error::InvalidArgs => -2,
            Error::InvalidOperation => -3,
            Error::OutOfMemory => -4,
            Error::OutOfRange => -5,
            Error::AccessDenied => -6,
            Error::DoesNotExist => -7,
            Error::AlreadyExists => -8,
            Error::TooManyOpenFiles => -9,
            Error::InvalidFile => -10,
            Error::TooBig => -11,
            Error::PathTooLong => -12,
            Error::NameTooLong => -13,
            Error::NotDirectory => -14,
            Error::IsDirectory => -15,
            Error::DirectoryNotEmpty => -16,
            Error::AtEnd => -17,
            Error::NoSpace => -18,
            Error::Busy => -19,
            Error::IoError => -20,
            Error::Interrupt => -21,
            Error::UNAVAILABLE => -22,
            Error::AlreadyInUse => -23,
            Error::BadAddress => -24,
            Error::BadSeek => -25,
            Error::BadPipe => -26,
            Error::Deadlock => -27,
            Error::TooManyLinks => -28,
            Error::NotImplemented => -29,
            Error::NoMessage => -30,
            Error::BadMessage => -31,
            Error::NoDataAvailable => -32,
            Error::InvalidData => -33,
            Error::Timeout => -34,
            Error::NoNetwork => -35,
            Error::NotUnique => -36,
            Error::NotSocket => -37,
            Error::NoAddress => -38,
            Error::BadProtocol => -39,
            Error::ProtocolUnavailable => -40,
            Error::ProtocolNotSupported => -41,
            Error::ProtocolFamilyNotSupported => -42,
            Error::AddressFamilyNotSupported => -43,
            Error::SocketNotSupported => -44,
            Error::ConnectionReset => -45,
            Error::AlreadyConnected => -46,
            Error::NotConnected => -47,
            Error::ConnectionRefused => -48,
            Error::NoHost => -49,
            Error::InProgress => -50,
            Error::Cancelled => -51,
            Error::MemoryAlreadyMapped => -52,
            Error::FormatNotSupported => -100,
            Error::DeviceTypeNotSupported => -101,
            Error::ShareModeNotSupported => -102,
            Error::NoBackend => -103,
            Error::NoDevice => -104,
            Error::ApiNotFound => -105,
            Error::InvalidDeviceConfig => -106,
            Error::Loop => -107,
            Error::DeviceNotInitialized => -200,
            Error::DeviceAlreadyInitialized => -201,
            Error::DeviceNotStarted => -202,
            Error::DeviceNotStopped => -203,
            Error::FailedToOpenBackendDevice => -301,
            Error::FailedToStartBackendDevice => -302,
            Error::FailedToStopBackendDevice => -303,
        }
    }

    /// The failure that the result code `num` stands for, if it stands for one.
    pub open spec fn of_code(num: int) -> Option<Error> {
        if num == -1 {
            Some(Error::UnknownError)
        } else if num == -2 {
            Some(Error::InvalidArgs)
        } else if num == -3 {
            Some(Error::InvalidOperation)
        } else if num == -4 {
            Some(Error::OutOfMemory)
        } else if num == -5 {
            Some(Error::OutOfRange)
        } else if num == -6 {
            Some(Error::AccessDenied)
        } else if num == -7 {
            Some(Error::DoesNotExist)
        } else if num == -8 {
            Some(Error::AlreadyExists)
        } else if num == -9 {
            Some(Error::TooManyOpenFiles)
        } else if num == -10 {
            Some(Error::InvalidFile)
        } else if num == -11 {
            Some(Error::TooBig)
        } else if num == -12 {
            Some(Error::PathTooLong)
        } else if num == -13 {
            Some(Error::NameTooLong)
        } else if num == -14 {
            Some(Error::NotDirectory)
        } else if num == -15 {
            Some(Error::IsDirectory)
        } else if num == -16 {
            Some(Error::DirectoryNotEmpty)
        } else if num == -17 {
            Some(Error::AtEnd)
        } else if num == -18 {
            Some(Error::NoSpace)
        } else if num == -19 {
            Some(Error::Busy)
        } else if num == -20 {
            Some(Error::IoError)
        } else if num == -21 {
            Some(Error::Interrupt)
        } else if num == -22 {
            Some(Error::UNAVAILABLE)
        } else if num == -23 {
            Some(Error::AlreadyInUse)
        } else if num == -24 {
            Some(Error::BadAddress)
        } else if num == -25 {
            Some(Error::BadSeek)
        } else if num == -26 {
            Some(Error::BadPipe)
        } else if num == -27 {
            Some(Error::Deadlock)
        } else if num == -28 {
            Some(Error::TooManyLinks)
        } else if num == -29 {
            Some(Error::NotImplemented)
        } else if num == -30 {
            Some(Error::NoMessage)
        } else if num == -31 {
            Some(Error::BadMessage)
        } else if num == -32 {
            Some(Error::NoDataAvailable)
        } else if num == -33 {
            Some(Error::InvalidData)
        } else if num == -34 {
            Some(Error::Timeout)
        } else if num == -35 {
            Some(Error::NoNetwork)
        } else if num == -36 {
            Some(Error::NotUnique)
        } else if num == -37 {
            Some(Error::NotSocket)
        } else if num == -38 {
            Some(Error::NoAddress)
        } else if num == -39 {
            Some(Error::BadProtocol)
        } else if num == -40 {
            Some(Error::ProtocolUnavailable)
        } else if num == -41 {
            Some(Error::ProtocolNotSupported)
        } else if num == -42 {
            Some(Error::ProtocolFamilyNotSupported)
        } else if num == -43 {
            Some(Error::AddressFamilyNotSupported)
        } else if num == -44 {
            Some(Error::SocketNotSupported)
        } else if num == -45 {
            Some(Error::ConnectionReset)
        } else if num == -46 {
            Some(Error::AlreadyConnected)
        } else if num == -47 {
            Some(Error::NotConnected)
        } else if num == -48 {
            Some(Error::ConnectionRefused)
        } else if num == -49 {
            Some(Error::NoHost)
        } else if num == -50 {
            Some(Error::InProgress)
        } else if num == -51 {
            Some(Error::Cancelled)
        } else if num == -52 {
            Some(Error::MemoryAlreadyMapped)
        } else if num == -100 {
            Some(Error::FormatNotSupported)
        } else if num == -101 {
            Some(Error::DeviceTypeNotSupported)
        } else if num == -102 {
            Some(Error::ShareModeNotSupported)
        } else if num == -103 {
            Some(Error::NoBackend)
        } else if num == -104 {
            Some(Error::NoDevice)
        } else if num == -105 {
            Some(Error::ApiNotFound)
        } else if num == -106 {
            Some(Error::InvalidDeviceConfig)
        } else if num == -107 {
            Some(Error::Loop)
        } else if num == -200 {
            Some(Error::DeviceNotInitialized)
        } else if num == -201 {
            Some(Error::DeviceAlreadyInitialized)
        } else if num == -202 {
            Some(Error::DeviceNotStarted)
        } else if num == -203 {
            Some(Error::DeviceNotStopped)
        } else if num == -301 {
            Some(Error::FailedToOpenBackendDevice)
        } else if num == -302 {
            Some(Error::FailedToStartBackendDevice)
        } else if num == -303 {
            Some(Error::FailedToStopBackendDevice)
        } else {
            None
        }
    }

    /// Every failure is the one that its own code stands for.
    pub proof fn lemma_code_round_trip(self)
        ensures
            Error::of_code(self.code_spec()) == Some(self),
    {
    }

    /// A code that stands for a failure is that failure's code.
    pub proof fn lemma_of_code_inverse(num: int)
        ensures
            match Error::of_code(num) {
                Some(e) => e.code_spec() == num,
                None => true,
            },
    {
    }

    #[verifier::when_used_as_spec(code_spec_i32)]
    pub fn code(&self) -> (num: i32)
        ensures
            num == self.code_spec(),
    {
        match self {
            Error::UnknownError => -1,
            Error::InvalidArgs => -2,
            Error::InvalidOperation => -3,
            Error::OutOfMemory => -4,
            Error::OutOfRange => -5,
            Error::AccessDenied => -6,
            Error::DoesNotExist => -7,
            Error::AlreadyExists => -8,
            Error::TooManyOpenFiles => -9,
            Error::InvalidFile => -10,
            Error::TooBig => -11,
            Error::PathTooLong => -12,
            Error::NameTooLong => -13,
            Error::NotDirectory => -14,
            Error::IsDirectory => -15,
            Error::DirectoryNotEmpty => -16,
            Error::AtEnd => -17,
            Error::NoSpace => -18,
            Error::Busy => -19,
            Error::IoError => -20,
            Error::Interrupt => -21,
            Error::UNAVAILABLE => -22,
            Error::AlreadyInUse => -23,
            Error::BadAddress => -24,
            Error::BadSeek => -25,
            Error::BadPipe => -26,
            Error::Deadlock => -27,
            Error::TooManyLinks => -28,
            Error::NotImplemented => -29,
            Error::NoMessage => -30,
            Error::BadMessage => -31,
            Error::NoDataAvailable => -32,
            Error::InvalidData => -33,
            Error::Timeout => -34,
            Error::NoNetwork => -35,
            Error::NotUnique => -36,
            Error::NotSocket => -37,
            Error::NoAddress => -38,
            Error::BadProtocol => -39,
            Error::ProtocolUnavailable => -40,
            Error::ProtocolNotSupported => -41,
            Error::ProtocolFamilyNotSupported => -42,
            Error::AddressFamilyNotSupported => -43,
            Error::SocketNotSupported => -44,
            Error::ConnectionReset => -45,
            Error::AlreadyConnected => -46,
            Error::NotConnected => -47,
            Error::ConnectionRefused => -48,
            Error::NoHost => -49,
            Error::InProgress => -50,
            Error::Cancelled => -51,
            Error::MemoryAlreadyMapped => -52,
            Error::FormatNotSupported => -100,
            Error::DeviceTypeNotSupported => -101,
            Error::ShareModeNotSupported => -102,
            Error::NoBackend => -103,
            Error::NoDevice => -104,
            Error::ApiNotFound => -105,
            Error::InvalidDeviceConfig => -106,
            Error::Loop => -107,
            Error::DeviceNotInitialized => -200,
            Error::DeviceAlreadyInitialized => -201,
            Error::DeviceNotStarted => -202,
            Error::DeviceNotStopped => -203,
            Error::FailedToOpenBackendDevice => -301,
            Error::FailedToStartBackendDevice => -302,
            Error::FailedToStopBackendDevice => -303,
        }
    }

    pub open spec fn code_spec_i32(&self) -> i32 {
        self.code_spec() as i32
    }

    /// The failure that `num` stands for; `None` for success and for every
    /// number that is no result code of the backend.
    pub fn from_i32(num: i32) -> (error: Option<Error>)
        ensures
            error == Error::of_code(num as int),
    {
        match num {
            -1 => Some(Error::UnknownError),
            -2 => Some(Error::InvalidArgs),
            -3 => Some(Error::InvalidOperation),
            -4 => Some(Error::OutOfMemory),
            -5 => Some(Error::OutOfRange),
            -6 => Some(Error::AccessDenied),
            -7 => Some(Error::DoesNotExist),
            -8 => Some(Error::AlreadyExists),
            -9 => Some(Error::TooManyOpenFiles),
            -10 => Some(Error::InvalidFile),
            -11 => Some(Error::TooBig),
            -12 => Some(Error::PathTooLong),
            -13 => Some(Error::NameTooLong),
            -14 => Some(Error::NotDirectory),
            -15 => Some(Error::IsDirectory),
            -16 => Some(Error::DirectoryNotEmpty),
            -17 => Some(Error::AtEnd),
            -18 => Some(Error::NoSpace),
            -19 => Some(Error::Busy),
            -20 => Some(Error::IoError),
            -21 => Some(Error::Interrupt),
            -22 => Some(Error::UNAVAILABLE),
            -23 => Some(Error::AlreadyInUse),
            -24 => Some(Error::BadAddress),
            -25 => Some(Error::BadSeek),
            -26 => Some(Error::BadPipe),
            -27 => Some(Error::Deadlock),
            -28 => Some(Error::TooManyLinks),
            -29 => Some(Error::NotImplemented),
            -30 => Some(Error::NoMessage),
            -31 => Some(Error::BadMessage),
            -32 => Some(Error::NoDataAvailable),
            -33 => Some(Error::InvalidData),
            -34 => Some(Error::Timeout),
            -35 => Some(Error::NoNetwork),
            -36 => Some(Error::NotUnique),
            -37 => Some(Error::NotSocket),
            -38 => Some(Error::NoAddress),
            -39 => Some(Error::BadProtocol),
            -40 => Some(Error::ProtocolUnavailable),
            -41 => Some(Error::ProtocolNotSupported),
            -42 => Some(Error::ProtocolFamilyNotSupported),
            -43 => Some(Error::AddressFamilyNotSupported),
            -44 => Some(Error::SocketNotSupported),
            -45 => Some(Error::ConnectionReset),
            -46 => Some(Error::AlreadyConnected),
            -47 => Some(Error::NotConnected),
            -48 => Some(Error::ConnectionRefused),
            -49 => Some(Error::NoHost),
            -50 => Some(Error::InProgress),
            -51 => Some(Error::Cancelled),
            -52 => Some(Error::MemoryAlreadyMapped),
            -100 => Some(Error::FormatNotSupported),
            -101 => Some(Error::DeviceTypeNotSupported),
            -102 => Some(Error::ShareModeNotSupported),
            -103 => Some(Error::NoBackend),
            -104 => Some(Error::NoDevice),
            -105 => Some(Error::ApiNotFound),
            -106 => Some(Error::InvalidDeviceConfig),
            -107 => Some(Error::Loop),
            -200 => Some(Error::DeviceNotInitialized),
            -201 => Some(Error::DeviceAlreadyInitialized),
            -202 => Some(Error::DeviceNotStarted),
            -203 => Some(Error::DeviceNotStopped),
            -301 => Some(Error::FailedToOpenBackendDevice),
            -302 => Some(Error::FailedToStartBackendDevice),
            -303 => Some(Error::FailedToStopBackendDevice),
            _ => None,
        }
    }

    /// Turns a result code of the backend into a `Result`: success for
    /// [`SUCCESS`], otherwise the failure that the code stands for.
    pub fn from(num: i32) -> (result: Result<(), Error>)
        requires
            num == SUCCESS || Error::of_code(num as int).is_some(),
        ensures
            num == SUCCESS ==> result == Ok::<(), Error>(()),
            num != SUCCESS ==> result.is_err() && Some(result->Err_0) == Error::of_code(num as int),
    {
        if num == SUCCESS {
            Ok(())
        } else {
            match Error::from_i32(num) {
                Some(error) => Err(error),
                None => Ok(()),
            }
        }
    }
}

} // verus!
