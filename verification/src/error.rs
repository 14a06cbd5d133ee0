//! The error kinds of the service, their human-readable texts, and their
//! conversion into wire-level responses.

use vstd::prelude::*;
use vstd::string::StringExecFns;
use crate::pb::{CommandResponse, CommandResponseModel, KvPairModel, Value, ValueModel,
    STATUS_BAD_REQUEST, STATUS_INTERNAL, STATUS_NOT_FOUND};

verus! {

/// Everything that can go wrong while executing a command.
#[derive(Clone, Debug, PartialEq)]
pub enum KVError {
    /// The requested key is absent: table, key.
    NotFound(String, String),
    /// No request alternative was populated, or it was malformed.
    InvalidCommand(String),
    /// A value's actual alternative does not match the requested
    /// extraction: the value, and the name of the attempted target type.
    ConvertError(Value, &'static str),
    /// A backend fault: operation name, table, key, underlying cause.
    StorageError(&'static str, String, String, String),
    /// A message could not be serialised.
    EncodeError,
    /// A byte sequence was not a valid message.
    DecodeError,
    /// An unimplemented or unreachable path.
    InternalError(String),
}

/// The text of a not-found error for the given table and key.
pub open spec fn not_found_text(t: Seq<char>, k: Seq<char>) -> Seq<char> {
    "Not found for table: "@ + t + ", key: "@ + k
}

/// The text of an invalid-command error for the given reason.
pub open spec fn invalid_command_text(reason: Seq<char>) -> Seq<char> {
    "Command is invalid: `"@ + reason + "`"@
}

/// An error of the backend or serialisation class: never a not-found or
/// an invalid command, so it always maps to the internal status.
pub open spec fn is_backend_error(e: KVError) -> bool {
    ||| e is StorageError
    ||| e is EncodeError
    ||| e is DecodeError
    ||| e is InternalError
}

/// The human-readable text of an error, as a character sequence.
pub open spec fn error_text(e: KVError) -> Seq<char> {
    match e {
        KVError::NotFound(t, k) => not_found_text(t@, k@),
        KVError::InvalidCommand(s) => invalid_command_text(s@),
        KVError::ConvertError(_, target) => "Cannot convert value to "@ + target@,
        KVError::StorageError(op, t, k, cause) =>
            "Cannot process command "@ + op@ + " with table: "@ + t@ + ", key: "@ + k@
                + ". Error: "@ + cause@,
        KVError::EncodeError => "Failed to encode protobuf message"@,
        KVError::DecodeError => "Failed to decode protobuf message"@,
        KVError::InternalError(s) => "Internal error: "@ + s@,
    }
}

/// The wire status that an error maps to: not-found and invalid-command
/// have their own codes, everything else is an internal fault.
pub open spec fn status_of(e: KVError) -> u32 {
    match e {
        KVError::NotFound(_, _) => STATUS_NOT_FOUND,
        KVError::InvalidCommand(_) => STATUS_BAD_REQUEST,
        _ => STATUS_INTERNAL,
    }
}

/// The model of the response that an error converts to: its status, its
/// text as the message, and no values or pairs.
pub open spec fn resp_error(e: KVError) -> CommandResponseModel {
    CommandResponseModel {
        status: status_of(e),
        message: error_text(e),
        values: Seq::empty(),
        pairs: Seq::empty(),
    }
}

impl KVError {
    /// The error's human-readable text.
    pub fn message(&self) -> (r: String)
        ensures
            r@ == error_text(*self),
    {
        match self {
            KVError::NotFound(t, k) => {
                let mut m = String::new();
                m.append("Not found for table: ");
                m.append(t.as_str());
                m.append(", key: ");
                m.append(k.as_str());
                proof { assert(m@ =~= error_text(*self)); }
                m
            },
            KVError::InvalidCommand(s) => {
                let mut m = String::new();
                m.append("Command is invalid: `");
                m.append(s.as_str());
                m.append("`");
                proof { assert(m@ =~= error_text(*self)); }
                m
            },
            KVError::ConvertError(_, target) => {
                let mut m = String::new();
                m.append("Cannot convert value to ");
                m.append(target);
                proof { assert(m@ =~= error_text(*self)); }
                m
            },
            KVError::StorageError(op, t, k, cause) => {
                let mut m = String::new();
                m.append("Cannot process command ");
                m.append(op);
                m.append(" with table: ");
                m.append(t.as_str());
                m.append(", key: ");
                m.append(k.as_str());
                m.append(". Error: ");
                m.append(cause.as_str());
                proof { assert(m@ =~= error_text(*self)); }
                m
            },
            KVError::EncodeError => {
                let mut m = String::new();
                m.append("Failed to encode protobuf message");
                proof { assert(m@ =~= error_text(*self)); }
                m
            },
            KVError::DecodeError => {
                let mut m = String::new();
                m.append("Failed to decode protobuf message");
                proof { assert(m@ =~= error_text(*self)); }
                m
            },
            KVError::InternalError(s) => {
                let mut m = String::new();
                m.append("Internal error: ");
                m.append(s.as_str());
                proof { assert(m@ =~= error_text(*self)); }
                m
            },
        }
    }

    /// Converts the error into the response that is sent back: the
    /// mapped status, the error text as the message, and no payload.
    pub fn into_response(self) -> (r: CommandResponse)
        ensures
            r@ == resp_error(self),
    {
        let message = self.message();
        let status = match &self {
            KVError::NotFound(_, _) => STATUS_NOT_FOUND,
            KVError::InvalidCommand(_) => STATUS_BAD_REQUEST,
            _ => STATUS_INTERNAL,
        };
        let r = CommandResponse { status, message, values: Vec::new(), pairs: Vec::new() };
        proof {
            assert(r@.values =~= Seq::<ValueModel>::empty());
            assert(r@.pairs =~= Seq::<KvPairModel>::empty());
        }
        r
    }
}

} // verus!
