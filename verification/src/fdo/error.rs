//! The errors that the standard interfaces return, each with the name it has
//! on the bus.

use vstd::prelude::*;
use vstd::std_specs::convert::FromSpecImpl;
use vstd::string::StrSliceExecFns;
use crate::text::{concat, str_eq};

verus! {

/// The start of the bus name of every standard error.
pub const ERROR_PREFIX: &'static str = "org.freedesktop.DBus.Error.";

/// An error of one of the standard kinds, with the text that describes it.
#[derive(Clone, Debug, PartialEq, Eq)]
pub enum Error {
    /// An error of the connection itself; it has no name of its own on the
    /// bus and travels as `Failed`.
    ZBus(crate::error::Error),
    /// A generic error; the text says what went wrong.
    Failed(String),
    /// There was not enough memory to complete an operation.
    NoMemory(String),
    /// The bus does not know how to launch a service for the name that was asked for.
    ServiceUnknown(String),
    /// The bus name that was asked for has no owner.
    NameHasNoOwner(String),
    /// No reply to a message that expects one.
    NoReply(String),
    /// Something went wrong reading or writing.
    IOError(String),
    /// A bus address was malformed.
    BadAddress(String),
    /// The feature that was asked for is not supported.
    NotSupported(String),
    /// Some limited resource is exhausted.
    LimitsExceeded(String),
    /// Security restrictions do not allow what was asked for.
    AccessDenied(String),
    /// Authentication did not work.
    AuthFailed(String),
    /// Nothing answers at the other end of the connection.
    NoServer(String),
    /// A timeout occurred that has no better name.
    Timeout(String),
    /// There is no network access.
    NoNetwork(String),
    /// The address is in use already.
    AddressInUse(String),
    /// The connection is disconnected.
    Disconnected(String),
    /// The arguments of a method call were not valid.
    InvalidArgs(String),
    /// A file is missing.
    FileNotFound(String),
    /// A file exists that should not.
    FileExists(String),
    /// The method is not known to the object.
    UnknownMethod(String),
    /// The object is not known to the peer.
    UnknownObject(String),
    /// The interface is not known to the object.
    UnknownInterface(String),
    /// The property is not known to the interface.
    UnknownProperty(String),
    /// The property is read-only.
    PropertyReadOnly(String),
    /// A timeout occurred while a call waited for its reply.
    TimedOut(String),
    /// The match rule is not among those of the connection.
    MatchRuleNotFound(String),
    /// The match rule is not well formed.
    MatchRuleInvalid(String),
    /// A type signature is not valid.
    InvalidSignature(String),
    /// A file holds what it should not.
    InvalidFileContent(String),
    /// The object path is in use already.
    ObjectPathInUse(String),
    /// The message contradicts itself.
    InconsistentMessage(String),
}

/// For results that fail with a standard error.
pub type Result<T> = core::result::Result<T, Error>;

impl Error {
    /// The last element of the error's bus name.
    pub open spec fn spec_short_name(&self) -> Seq<char> {
        match self {
            Error::ZBus(_) => "Failed"@,
            Error::Failed(_) => "Failed"@,
            Error::NoMemory(_) => "NoMemory"@,
            Error::ServiceUnknown(_) => "ServiceUnknown"@,
            Error::NameHasNoOwner(_) => "NameHasNoOwner"@,
            Error::NoReply(_) => "NoReply"@,
            Error::IOError(_) => "IOError"@,
            Error::BadAddress(_) => "BadAddress"@,
            Error::NotSupported(_) => "NotSupported"@,
            Error::LimitsExceeded(_) => "LimitsExceeded"@,
            Error::AccessDenied(_) => "AccessDenied"@,
            Error::AuthFailed(_) => "AuthFailed"@,
            Error::NoServer(_) => "NoServer"@,
            Error::Timeout(_) => "Timeout"@,
            Error::NoNetwork(_) => "NoNetwork"@,
            Error::AddressInUse(_) => "AddressInUse"@,
            Error::Disconnected(_) => "Disconnected"@,
            Error::InvalidArgs(_) => "InvalidArgs"@,
            Error::FileNotFound(_) => "FileNotFound"@,
            Error::FileExists(_) => "FileExists"@,
            Error::UnknownMethod(_) => "UnknownMethod"@,
            Error::UnknownObject(_) => "UnknownObject"@,
            Error::UnknownInterface(_) => "UnknownInterface"@,
            Error::UnknownProperty(_) => "UnknownProperty"@,
            Error::PropertyReadOnly(_) => "PropertyReadOnly"@,
            Error::TimedOut(_) => "TimedOut"@,
            Error::MatchRuleNotFound(_) => "MatchRuleNotFound"@,
            Error::MatchRuleInvalid(_) => "MatchRuleInvalid"@,
            Error::InvalidSignature(_) => "InvalidSignature"@,
            Error::InvalidFileContent(_) => "InvalidFileContent"@,
            Error::ObjectPathInUse(_) => "ObjectPathInUse"@,
            Error::InconsistentMessage(_) => "InconsistentMessage"@,
        }
    }

    /// The name that the error has on the bus:
    /// `org.freedesktop.DBus.Error.` and the name of the kind.
    pub open spec fn spec_name(&self) -> Seq<char> {
        ERROR_PREFIX@ + self.spec_short_name()
    }

    /// The text that came with the error; an error of the connection has none.
    pub open spec fn spec_description(&self) -> Option<Seq<char>> {
        match self {
            Error::ZBus(_) => None,
            Error::Failed(d) => Some(d@),
            Error::NoMemory(d) => Some(d@),
            Error::ServiceUnknown(d) => Some(d@),
            Error::NameHasNoOwner(d) => Some(d@),
            Error::NoReply(d) => Some(d@),
            Error::IOError(d) => Some(d@),
            Error::BadAddress(d) => Some(d@),
            Error::NotSupported(d) => Some(d@),
            Error::LimitsExceeded(d) => Some(d@),
            Error::AccessDenied(d) => Some(d@),
            Error::AuthFailed(d) => Some(d@),
            Error::NoServer(d) => Some(d@),
            Error::Timeout(d) => Some(d@),
            Error::NoNetwork(d) => Some(d@),
            Error::AddressInUse(d) => Some(d@),
            Error::Disconnected(d) => Some(d@),
            Error::InvalidArgs(d) => Some(d@),
            Error::FileNotFound(d) => Some(d@),
            Error::FileExists(d) => Some(d@),
            Error::UnknownMethod(d) => Some(d@),
            Error::UnknownObject(d) => Some(d@),
            Error::UnknownInterface(d) => Some(d@),
            Error::UnknownProperty(d) => Some(d@),
            Error::PropertyReadOnly(d) => Some(d@),
            Error::TimedOut(d) => Some(d@),
            Error::MatchRuleNotFound(d) => Some(d@),
            Error::MatchRuleInvalid(d) => Some(d@),
            Error::InvalidSignature(d) => Some(d@),
            Error::InvalidFileContent(d) => Some(d@),
            Error::ObjectPathInUse(d) => Some(d@),
            Error::InconsistentMessage(d) => Some(d@),
        }
    }

    /// The last element of the error's bus name.
    pub fn short_name(&self) -> (r: &'static str)
        ensures
            r@ == self.spec_short_name(),
    {
        match self {
            Error::ZBus(_) => "Failed",
            Error::Failed(_) => "Failed",
            Error::NoMemory(_) => "NoMemory",
            Error::ServiceUnknown(_) => "ServiceUnknown",
            Error::NameHasNoOwner(_) => "NameHasNoOwner",
            Error::NoReply(_) => "NoReply",
            Error::IOError(_) => "IOError",
            Error::BadAddress(_) => "BadAddress",
            Error::NotSupported(_) => "NotSupported",
            Error::LimitsExceeded(_) => "LimitsExceeded",
            Error::AccessDenied(_) => "AccessDenied",
            Error::AuthFailed(_) => "AuthFailed",
            Error::NoServer(_) => "NoServer",
            Error::Timeout(_) => "Timeout",
            Error::NoNetwork(_) => "NoNetwork",
            Error::AddressInUse(_) => "AddressInUse",
            Error::Disconnected(_) => "Disconnected",
            Error::InvalidArgs(_) => "InvalidArgs",
            Error::FileNotFound(_) => "FileNotFound",
            Error::FileExists(_) => "FileExists",
            Error::UnknownMethod(_) => "UnknownMethod",
            Error::UnknownObject(_) => "UnknownObject",
            Error::UnknownInterface(_) => "UnknownInterface",
            Error::UnknownProperty(_) => "UnknownProperty",
            Error::PropertyReadOnly(_) => "PropertyReadOnly",
            Error::TimedOut(_) => "TimedOut",
            Error::MatchRuleNotFound(_) => "MatchRuleNotFound",
            Error::MatchRuleInvalid(_) => "MatchRuleInvalid",
            Error::InvalidSignature(_) => "InvalidSignature",
            Error::InvalidFileContent(_) => "InvalidFileContent",
            Error::ObjectPathInUse(_) => "ObjectPathInUse",
            Error::InconsistentMessage(_) => "InconsistentMessage",
        }
    }

    /// The name that the error has on the bus.
    pub fn name(&self) -> (r: String)
        ensures
            r@ == self.spec_name(),
    {
        concat(ERROR_PREFIX, self.short_name())
    }

    /// The text that came with the error, if any.
    pub fn description(&self) -> (r: Option<&str>)
        ensures
            match r {
                Some(d) => self.spec_description() == Some(d@),
                None => self.spec_description() is None,
            },
    {
        match self {
            Error::ZBus(_) => None,
            Error::Failed(d) => Some(d.as_str()),
            Error::NoMemory(d) => Some(d.as_str()),
            Error::ServiceUnknown(d) => Some(d.as_str()),
            Error::NameHasNoOwner(d) => Some(d.as_str()),
            Error::NoReply(d) => Some(d.as_str()),
            Error::IOError(d) => Some(d.as_str()),
            Error::BadAddress(d) => Some(d.as_str()),
            Error::NotSupported(d) => Some(d.as_str()),
            Error::LimitsExceeded(d) => Some(d.as_str()),
            Error::AccessDenied(d) => Some(d.as_str()),
            Error::AuthFailed(d) => Some(d.as_str()),
            Error::NoServer(d) => Some(d.as_str()),
            Error::Timeout(d) => Some(d.as_str()),
            Error::NoNetwork(d) => Some(d.as_str()),
            Error::AddressInUse(d) => Some(d.as_str()),
            Error::Disconnected(d) => Some(d.as_str()),
            Error::InvalidArgs(d) => Some(d.as_str()),
            Error::FileNotFound(d) => Some(d.as_str()),
            Error::FileExists(d) => Some(d.as_str()),
            Error::UnknownMethod(d) => Some(d.as_str()),
            Error::UnknownObject(d) => Some(d.as_str()),
            Error::UnknownInterface(d) => Some(d.as_str()),
            Error::UnknownProperty(d) => Some(d.as_str()),
            Error::PropertyReadOnly(d) => Some(d.as_str()),
            Error::TimedOut(d) => Some(d.as_str()),
            Error::MatchRuleNotFound(d) => Some(d.as_str()),
            Error::MatchRuleInvalid(d) => Some(d.as_str()),
            Error::InvalidSignature(d) => Some(d.as_str()),
            Error::InvalidFileContent(d) => Some(d.as_str()),
            Error::ObjectPathInUse(d) => Some(d.as_str()),
            Error::InconsistentMessage(d) => Some(d.as_str()),
        }
    }

    /// The standard error whose bus name ends in `short` after the common
    /// prefix, carrying `description`. Where no standard error has that
    /// name, the description is handed back.
    pub fn from_short_name(short: &str, description: String) -> (r: core::result::Result<
        Error,
        String,
    >)
        ensures
            match r {
                Ok(e) => !(e is ZBus) && e.spec_short_name() == short@ && e.spec_description()
                    == Some(description@),
                Err(d) => d == description && forall|e: Error|
                    #![trigger e.spec_short_name()]
                    !(e is ZBus) ==> e.spec_short_name() != short@,
            },
    {
        if str_eq(short, "Failed") {
            Ok(Error::Failed(description))
        } else if str_eq(short, "NoMemory") {
            Ok(Error::NoMemory(description))
        } else if str_eq(short, "ServiceUnknown") {
            Ok(Error::ServiceUnknown(description))
        } else if str_eq(short, "NameHasNoOwner") {
            Ok(Error::NameHasNoOwner(description))
        } else if str_eq(short, "NoReply") {
            Ok(Error::NoReply(description))
        } else if str_eq(short, "IOError") {
            Ok(Error::IOError(description))
        } else if str_eq(short, "BadAddress") {
            Ok(Error::BadAddress(description))
        } else if str_eq(short, "NotSupported") {
            Ok(Error::NotSupported(description))
        } else if str_eq(short, "LimitsExceeded") {
            Ok(Error::LimitsExceeded(description))
        } else if str_eq(short, "AccessDenied") {
            Ok(Error::AccessDenied(description))
        } else if str_eq(short, "AuthFailed") {
            Ok(Error::AuthFailed(description))
        } else if str_eq(short, "NoServer") {
            Ok(Error::NoServer(description))
        } else if str_eq(short, "Timeout") {
            Ok(Error::Timeout(description))
        } else if str_eq(short, "NoNetwork") {
            Ok(Error::NoNetwork(description))
        } else if str_eq(short, "AddressInUse") {
            Ok(Error::AddressInUse(description))
        } else if str_eq(short, "Disconnected") {
            Ok(Error::Disconnected(description))
        } else if str_eq(short, "InvalidArgs") {
            Ok(Error::InvalidArgs(description))
        } else if str_eq(short, "FileNotFound") {
            Ok(Error::FileNotFound(description))
        } else if str_eq(short, "FileExists") {
            Ok(Error::FileExists(description))
        } else if str_eq(short, "UnknownMethod") {
            Ok(Error::UnknownMethod(description))
        } else if str_eq(short, "UnknownObject") {
            Ok(Error::UnknownObject(description))
        } else if str_eq(short, "UnknownInterface") {
            Ok(Error::UnknownInterface(description))
        } else if str_eq(short, "UnknownProperty") {
            Ok(Error::UnknownProperty(description))
        } else if str_eq(short, "PropertyReadOnly") {
            Ok(Error::PropertyReadOnly(description))
        } else if str_eq(short, "TimedOut") {
            Ok(Error::TimedOut(description))
        } else if str_eq(short, "MatchRuleNotFound") {
            Ok(Error::MatchRuleNotFound(description))
        } else if str_eq(short, "MatchRuleInvalid") {
            Ok(Error::MatchRuleInvalid(description))
        } else if str_eq(short, "InvalidSignature") {
            Ok(Error::InvalidSignature(description))
        } else if str_eq(short, "InvalidFileContent") {
            Ok(Error::InvalidFileContent(description))
        } else if str_eq(short, "ObjectPathInUse") {
            Ok(Error::ObjectPathInUse(description))
        } else if str_eq(short, "InconsistentMessage") {
            Ok(Error::InconsistentMessage(description))
        } else {
            Err(description)
        }
    }

    /// The error of the connection as a standard error: the error that the
    /// remote side answered with, where its name is that of a standard one,
    /// and the error itself, wrapped, in every other case.
    pub fn from_zbus(e: crate::error::Error) -> (r: Error)
        ensures
            is_standard_form(e, r),
    {
        match e {
            crate::error::Error::MethodError(name, description) => {
                let short = match strip_error_prefix(name.as_str()) {
                    Some(short) => short,
                    None => {
                        proof {
                            assert forall|x: Error| !(x is ZBus) implies #[trigger] x.spec_name()
                                != name@ by {
                                lemma_name_has_prefix(x);
                            }
                        }
                        return Error::ZBus(crate::error::Error::MethodError(name, description));
                    },
                };
                let (text, given) = match description {
                    Some(text) => (text, true),
                    None => (String::new(), false),
                };
                match Error::from_short_name(short, text) {
                    Ok(found) => {
                        assert(found.spec_name() == name@);
                        found
                    },
                    Err(text) => {
                        proof {
                            assert forall|x: Error| !(x is ZBus) implies #[trigger] x.spec_name()
                                != name@ by {
                                if x.spec_name() == name@ {
                                    let a = x.spec_short_name();
                                    let n = ERROR_PREFIX@.len() as int;
                                    assert(a =~= (ERROR_PREFIX@ + a).skip(n));
                                    assert(short@ =~= (ERROR_PREFIX@ + short@).skip(n));
                                }
                            }
                        }
                        let description = if given {
                            Some(text)
                        } else {
                            None
                        };
                        Error::ZBus(crate::error::Error::MethodError(name, description))
                    },
                }
            },
            other => Error::ZBus(other),
        }
    }
}

/// `name` is the bus name of a standard error.
pub open spec fn is_standard_name(name: Seq<char>) -> bool {
    exists|x: Error| !(x is ZBus) && #[trigger] x.spec_name() == name
}

/// The standard error `r` is what the error `e` of the connection is taken
/// for: an error that the remote side answered with under a standard name is
/// the standard error of that name, with the text that came along or with
/// no text; every other error is wrapped as it is.
pub open spec fn is_standard_form(e: crate::error::Error, r: Error) -> bool {
    match e {
        crate::error::Error::MethodError(name, description) => if is_standard_name(name@) {
            &&& !(r is ZBus)
            &&& r.spec_name() == name@
            &&& r.spec_description() == Some(
                match description {
                    Some(d) => d@,
                    None => Seq::<char>::empty(),
                },
            )
        } else {
            r == Error::ZBus(e)
        },
        _ => r == Error::ZBus(e),
    }
}

/// The bus name of every standard error starts with the common prefix.
pub proof fn lemma_name_has_prefix(e: Error)
    ensures
        ERROR_PREFIX@.is_prefix_of(e.spec_name()),
{
    assert(e.spec_name().subrange(0, ERROR_PREFIX@.len() as int) =~= ERROR_PREFIX@);
}

/// What stands behind the common prefix in the bus name of an error.
pub fn strip_error_prefix(name: &str) -> (r: Option<&str>)
    ensures
        match r {
            Some(rest) => name@ == ERROR_PREFIX@ + rest@,
            None => !ERROR_PREFIX@.is_prefix_of(name@),
        },
{
    let n = ERROR_PREFIX.unicode_len();
    let len = name.unicode_len();
    if len < n {
        return None;
    }
    let head = name.substring_char(0, n);
    if !str_eq(head, ERROR_PREFIX) {
        return None;
    }
    let rest = name.substring_char(n, len);
    assert(name@ =~= head@ + rest@);
    Some(rest)
}

impl From<crate::error::Error> for Error {
    fn from(e: crate::error::Error) -> (r: Error)
        ensures
            is_standard_form(e, r),
    {
        Error::from_zbus(e)
    }
}

/// What the conversion gives is said by its own contract, in terms of
/// [`is_standard_form`]; the function below pins nothing down.
impl FromSpecImpl<crate::error::Error> for Error {
    open spec fn obeys_from_spec() -> bool {
        false
    }

    open spec fn from_spec(e: crate::error::Error) -> Error {
        Error::ZBus(e)
    }
}

} // verus!
