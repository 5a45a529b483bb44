//! The error taxonomy every operation reports, and the mapping from server
//! status bytes to typed errors.

use vstd::prelude::*;

verus! {

/// Everything that can go wrong in a client operation.
#[derive(Debug, Clone)]
pub enum FastDFSError {
    /// The client has been closed.
    ClientClosed,
    /// The requested file does not exist (server status 2).
    FileNotFound(String),
    /// The tracker reported no storage server for a store query.
    NoStorageServer,
    /// Establishing a connection exceeded the connect deadline.
    ConnectionTimeout(String),
    /// A read or write exceeded the per-operation network deadline.
    NetworkTimeout(String),
    /// A file identifier failed validation.
    InvalidFileId(String),
    /// The server violated the wire format.
    InvalidResponse(String),
    /// A storage server is offline.
    StorageServerOffline(String),
    /// A tracker server is offline.
    TrackerServerOffline(String),
    /// The server is out of space (server status 28).
    InsufficientSpace,
    /// The file already exists (server status 6).
    FileAlreadyExists(String),
    /// Metadata failed validation.
    InvalidMetadata(String),
    /// The operation is not supported.
    OperationNotSupported(String),
    /// An argument failed validation (also server status 22).
    InvalidArgument(String),
    /// Any other non-zero server status.
    Protocol {
        /// The status byte the server returned.
        code: u8,
        /// A human-readable description.
        message: String,
    },
    /// An underlying transport failure.
    Network {
        /// Which operation failed: `connect`, `read` or `write`.
        operation: String,
        /// The endpoint the operation addressed.
        addr: String,
        /// A human-readable description of the underlying failure.
        message: String,
    },
    /// A local input or output failure.
    Io(String),
    /// Bytes that were expected to be UTF-8 were not.
    Utf8(String),
}

impl FastDFSError {
    /// Whether a retry may see the error vanish: transport failures and a
    /// tracker with no storage server are transient, everything else is
    /// permanent.
    pub open spec fn spec_is_transient(&self) -> bool {
        match self {
            FastDFSError::ConnectionTimeout(_) => true,
            FastDFSError::NetworkTimeout(_) => true,
            FastDFSError::Network { .. } => true,
            FastDFSError::NoStorageServer => true,
            _ => false,
        }
    }

    /// Whether a retry may see the error vanish.
    #[verifier::when_used_as_spec(spec_is_transient)]
    pub fn is_transient(&self) -> (b: bool)
        ensures
            b == self.spec_is_transient(),
    {
        match self {
            FastDFSError::ConnectionTimeout(_) => true,
            FastDFSError::NetworkTimeout(_) => true,
            FastDFSError::Network { .. } => true,
            FastDFSError::NoStorageServer => true,
            _ => false,
        }
    }
}

/// The decimal digit characters of `n`, without leading zeros.
pub open spec fn spec_u8_decimal(n: u8) -> Seq<char> {
    if n < 10 {
        seq![spec_digit_char((n % 10) as u8)]
    } else if n < 100 {
        seq![spec_digit_char((n / 10) as u8), spec_digit_char((n % 10) as u8)]
    } else {
        seq![
            spec_digit_char((n / 100) as u8),
            spec_digit_char(((n / 10) % 10) as u8),
            spec_digit_char((n % 10) as u8),
        ]
    }
}

/// The character for one decimal digit.
pub open spec fn spec_digit_char(d: u8) -> char {
    match d {
        0 => '0',
        1 => '1',
        2 => '2',
        3 => '3',
        4 => '4',
        5 => '5',
        6 => '6',
        7 => '7',
        8 => '8',
        _ => '9',
    }
}

/// The message carried by a `Protocol` error for an unrecognised status byte.
pub open spec fn spec_unknown_code_message(status: u8) -> Seq<char> {
    "Unknown error code: "@ + spec_u8_decimal(status)
}

fn digit_str(d: u8) -> (s: &'static str)
    requires
        d < 10,
    ensures
        s@ =~= seq![spec_digit_char(d)],
{
    proof {
        reveal_strlit("0");
        reveal_strlit("1");
        reveal_strlit("2");
        reveal_strlit("3");
        reveal_strlit("4");
        reveal_strlit("5");
        reveal_strlit("6");
        reveal_strlit("7");
        reveal_strlit("8");
        reveal_strlit("9");
    }
    match d {
        0 => "0",
        1 => "1",
        2 => "2",
        3 => "3",
        4 => "4",
        5 => "5",
        6 => "6",
        7 => "7",
        8 => "8",
        _ => "9",
    }
}

/// The decimal digits of `n` as a string, without leading zeros.
pub fn u8_decimal_string(n: u8) -> (s: String)
    ensures
        s@ == spec_u8_decimal(n),
{
    if n < 10 {
        let s = String::from_str(digit_str(n % 10));
        assert(s@ =~= spec_u8_decimal(n));
        s
    } else if n < 100 {
        let mut s = String::from_str(digit_str(n / 10));
        s.append(digit_str(n % 10));
        assert(s@ =~= spec_u8_decimal(n));
        s
    } else {
        let mut s = String::from_str(digit_str(n / 100));
        s.append(digit_str((n / 10) % 10));
        s.append(digit_str(n % 10));
        assert(s@ =~= spec_u8_decimal(n));
        s
    }
}

/// Maps a server status byte to the error it stands for; 0 means success and
/// maps to no error.
pub fn map_status_to_error(status: u8) -> (r: Option<FastDFSError>)
    ensures
        (status == 0) <==> (r is None),
        status == 2 ==> (r matches Some(FastDFSError::FileNotFound(id)) && id@ =~= Seq::<
            char,
        >::empty()),
        status == 6 ==> (r matches Some(FastDFSError::FileAlreadyExists(id)) && id@ =~= Seq::<
            char,
        >::empty()),
        status == 22 ==> (r matches Some(FastDFSError::InvalidArgument(d)) && d@ =~= Seq::<
            char,
        >::empty()),
        status == 28 ==> (r matches Some(FastDFSError::InsufficientSpace)),
        status != 0 && status != 2 && status != 6 && status != 22 && status != 28 ==> (
        r matches Some(FastDFSError::Protocol { code, message }) && code == status && message@
            == spec_unknown_code_message(status)),
{
    match status {
        0 => None,
        2 => Some(FastDFSError::FileNotFound(String::new())),
        6 => Some(FastDFSError::FileAlreadyExists(String::new())),
        22 => Some(FastDFSError::InvalidArgument(String::new())),
        28 => Some(FastDFSError::InsufficientSpace),
        _ => {
            let mut message = String::from_str("Unknown error code: ");
            let digits = u8_decimal_string(status);
            message.append(digits.as_str());
            Some(FastDFSError::Protocol { code: status, message })
        },
    }
}

} // verus!
