use vstd::prelude::*;

verus! {

/// The outcome that a server reports in the status field of a response.
#[derive(Debug, PartialEq, Eq, Structural, Clone, Copy)]
pub enum Status {
    UnknownStatus,
    NoError,
    KeyNotFound,
    KeyExists,
    ValueTooLarge,
    InvalidArguments,
    ItemNotStored,
    IncrDecrOnNonNumericValue,
    VbucketBelongsToAnotherServer,
    AuthenticationError,
    AuthenticationContinue,
    UnknownCommand,
    OutOfMemory,
    NotSupported,
    InternalError,
    Busy,
    TemporaryFailure,
}

impl Status {
    /// The status that a 16-bit code stands for; a code with no meaning of
    /// its own is `UnknownStatus`.
    pub open spec fn from_code(code: u16) -> Status {
        if code == 0x00 {
            Status::NoError
        } else if code == 0x01 {
            Status::KeyNotFound
        } else if code == 0x02 {
            Status::KeyExists
        } else if code == 0x03 {
            Status::ValueTooLarge
        } else if code == 0x04 {
            Status::InvalidArguments
        } else if code == 0x05 {
            Status::ItemNotStored
        } else if code == 0x06 {
            Status::IncrDecrOnNonNumericValue
        } else if code == 0x07 {
            Status::VbucketBelongsToAnotherServer
        } else if code == 0x08 {
            Status::AuthenticationError
        } else if code == 0x09 {
            Status::AuthenticationContinue
        } else if code == 0x81 {
            Status::UnknownCommand
        } else if code == 0x82 {
            Status::OutOfMemory
        } else if code == 0x83 {
            Status::NotSupported
        } else if code == 0x84 {
            Status::InternalError
        } else if code == 0x85 {
            Status::Busy
        } else if code == 0x86 {
            Status::TemporaryFailure
        } else {
            Status::UnknownStatus
        }
    }

    /// Decodes a status code.
    pub fn from_u16(code: u16) -> (r: Status)
        ensures
            r == Status::from_code(code),
    {
        match code {
            0x00 => Status::NoError,
            0x01 => Status::KeyNotFound,
            0x02 => Status::KeyExists,
            0x03 => Status::ValueTooLarge,
            0x04 => Status::InvalidArguments,
            0x05 => Status::ItemNotStored,
            0x06 => Status::IncrDecrOnNonNumericValue,
            0x07 => Status::VbucketBelongsToAnotherServer,
            0x08 => Status::AuthenticationError,
            0x09 => Status::AuthenticationContinue,
            0x81 => Status::UnknownCommand,
            0x82 => Status::OutOfMemory,
            0x83 => Status::NotSupported,
            0x84 => Status::InternalError,
            0x85 => Status::Busy,
            0x86 => Status::TemporaryFailure,
            _ => Status::UnknownStatus,
        }
    }

    /// The human-readable description of a status.
    pub open spec fn text(self) -> Seq<char> {
        match self {
            Status::UnknownStatus => "Unknown status"@,
            Status::NoError => "No error"@,
            Status::KeyNotFound => "Key not found"@,
            Status::KeyExists => "Key exists"@,
            Status::ValueTooLarge => "Value too large"@,
            Status::InvalidArguments => "Invalid arguments"@,
            Status::ItemNotStored => "Item not stored"@,
            Status::IncrDecrOnNonNumericValue => "Incr or decr on non-numeric value"@,
            Status::VbucketBelongsToAnotherServer => "Vbucket belongs to another server"@,
            Status::AuthenticationError => "Authentication error"@,
            Status::AuthenticationContinue => "Authentication continue"@,
            Status::UnknownCommand => "Unknown command"@,
            Status::OutOfMemory => "Out of memory"@,
            Status::NotSupported => "Not supported"@,
            Status::InternalError => "Internal error"@,
            Status::Busy => "Busy"@,
            Status::TemporaryFailure => "TemporaryFailure"@,
        }
    }

    /// Describes the status in words.
    pub fn message(&self) -> (r: &'static str)
        ensures
            r@ == self.text(),
    {
        match self {
            Status::UnknownStatus => "Unknown status",
            Status::NoError => "No error",
            Status::KeyNotFound => "Key not found",
            Status::KeyExists => "Key exists",
            Status::ValueTooLarge => "Value too large",
            Status::InvalidArguments => "Invalid arguments",
            Status::ItemNotStored => "Item not stored",
            Status::IncrDecrOnNonNumericValue => "Incr or decr on non-numeric value",
            Status::VbucketBelongsToAnotherServer => "Vbucket belongs to another server",
            Status::AuthenticationError => "Authentication error",
            Status::AuthenticationContinue => "Authentication continue",
            Status::UnknownCommand => "Unknown command",
            Status::OutOfMemory => "Out of memory",
            Status::NotSupported => "Not supported",
            Status::InternalError => "Internal error",
            Status::Busy => "Busy",
            Status::TemporaryFailure => "TemporaryFailure",
        }
    }
}

impl From<u16> for Status {
    fn from(val: u16) -> (r: Status) {
        Status::from_u16(val)
    }
}

impl vstd::std_specs::convert::FromSpecImpl<u16> for Status {
    open spec fn obeys_from_spec() -> bool {
        true
    }

    open spec fn from_spec(v: u16) -> Status {
        Status::from_code(v)
    }
}

} // verus!
