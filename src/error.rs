use vstd::prelude::*;

verus! {

/// Failures reported by the store, a closed and flat taxonomy.
#[derive(Debug, Clone, Copy, PartialEq, Eq, Structural)]
pub enum Error {
    Nomem,
    PathTooLong,
    UnknownField,
    UnknownUuid,
    InvalidTrailId,
    HandleIsNull,
    HandleAlreadyOpened,
    UnknownOption,
    InvalidOptionValue,
    InvalidUuid,
    IoOpen,
    IoClose,
    IoWrite,
    IoRead,
    IoTruncate,
    IoPackage,
    InvalidInfoFile,
    InvalidVersionFile,
    IncompatibleVersion,
    InvalidFieldsFile,
    InvalidUuidsFile,
    InvalidCodebookFile,
    InvalidTrailsFile,
    InvalidLexiconFile,
    InvalidPackage,
    TooManyFields,
    DuplicateFields,
    InvalidFieldname,
    TooManyTrails,
    ValueTooLong,
    AppendFieldsMismatch,
    LexiconTooLarge,
    TimestampTooLarge,
    TrailTooLong,
    OnlyDiffFilter,
}

/// The numeric status under which each error travels between the core and
/// its storage collaborator; zero stands for success and is no error.
pub open spec fn spec_code(e: Error) -> i32 {
    match e {
        Error::Nomem => -2i32,
        Error::PathTooLong => -3i32,
        Error::UnknownField => -4i32,
        Error::UnknownUuid => -5i32,
        Error::InvalidTrailId => -6i32,
        Error::HandleIsNull => -7i32,
        Error::HandleAlreadyOpened => -8i32,
        Error::UnknownOption => -9i32,
        Error::InvalidOptionValue => -10i32,
        Error::InvalidUuid => -11i32,
        Error::IoOpen => -65i32,
        Error::IoClose => -66i32,
        Error::IoWrite => -67i32,
        Error::IoRead => -68i32,
        Error::IoTruncate => -69i32,
        Error::IoPackage => -70i32,
        Error::InvalidInfoFile => -129i32,
        Error::InvalidVersionFile => -130i32,
        Error::IncompatibleVersion => -131i32,
        Error::InvalidFieldsFile => -132i32,
        Error::InvalidUuidsFile => -133i32,
        Error::InvalidCodebookFile => -134i32,
        Error::InvalidTrailsFile => -135i32,
        Error::InvalidLexiconFile => -136i32,
        Error::InvalidPackage => -137i32,
        Error::TooManyFields => -257i32,
        Error::DuplicateFields => -258i32,
        Error::InvalidFieldname => -259i32,
        Error::TooManyTrails => -260i32,
        Error::ValueTooLong => -261i32,
        Error::AppendFieldsMismatch => -262i32,
        Error::LexiconTooLarge => -263i32,
        Error::TimestampTooLarge => -264i32,
        Error::TrailTooLong => -265i32,
        Error::OnlyDiffFilter => -513i32,
    }
}

/// The error that a numeric status stands for; `None` for success and for a
/// status outside the taxonomy.
pub open spec fn spec_from_code(c: i32) -> Option<Error> {
    if c == -2i32 {
        Some(Error::Nomem)
    } else if c == -3i32 {
        Some(Error::PathTooLong)
    } else if c == -4i32 {
        Some(Error::UnknownField)
    } else if c == -5i32 {
        Some(Error::UnknownUuid)
    } else if c == -6i32 {
        Some(Error::InvalidTrailId)
    } else if c == -7i32 {
        Some(Error::HandleIsNull)
    } else if c == -8i32 {
        Some(Error::HandleAlreadyOpened)
    } else if c == -9i32 {
        Some(Error::UnknownOption)
    } else if c == -10i32 {
        Some(Error::InvalidOptionValue)
    } else if c == -11i32 {
        Some(Error::InvalidUuid)
    } else if c == -65i32 {
        Some(Error::IoOpen)
    } else if c == -66i32 {
        Some(Error::IoClose)
    } else if c == -67i32 {
        Some(Error::IoWrite)
    } else if c == -68i32 {
        Some(Error::IoRead)
    } else if c == -69i32 {
        Some(Error::IoTruncate)
    } else if c == -70i32 {
        Some(Error::IoPackage)
    } else if c == -129i32 {
        Some(Error::InvalidInfoFile)
    } else if c == -130i32 {
        Some(Error::InvalidVersionFile)
    } else if c == -131i32 {
        Some(Error::IncompatibleVersion)
    } else if c == -132i32 {
        Some(Error::InvalidFieldsFile)
    } else if c == -133i32 {
        Some(Error::InvalidUuidsFile)
    } else if c == -134i32 {
        Some(Error::InvalidCodebookFile)
    } else if c == -135i32 {
        Some(Error::InvalidTrailsFile)
    } else if c == -136i32 {
        Some(Error::InvalidLexiconFile)
    } else if c == -137i32 {
        Some(Error::InvalidPackage)
    } else if c == -257i32 {
        Some(Error::TooManyFields)
    } else if c == -258i32 {
        Some(Error::DuplicateFields)
    } else if c == -259i32 {
        Some(Error::InvalidFieldname)
    } else if c == -260i32 {
        Some(Error::TooManyTrails)
    } else if c == -261i32 {
        Some(Error::ValueTooLong)
    } else if c == -262i32 {
        Some(Error::AppendFieldsMismatch)
    } else if c == -263i32 {
        Some(Error::LexiconTooLarge)
    } else if c == -264i32 {
        Some(Error::TimestampTooLarge)
    } else if c == -265i32 {
        Some(Error::TrailTooLong)
    } else if c == -513i32 {
        Some(Error::OnlyDiffFilter)
    } else {
        None
    }
}

impl Error {
    /// The numeric status of this error.
    pub fn code(&self) -> (r: i32)
        ensures
            r == spec_code(*self),
            r < 0,
    {
        match self {
            Error::Nomem => -2,
            Error::PathTooLong => -3,
            Error::UnknownField => -4,
            Error::UnknownUuid => -5,
            Error::InvalidTrailId => -6,
            Error::HandleIsNull => -7,
            Error::HandleAlreadyOpened => -8,
            Error::UnknownOption => -9,
            Error::InvalidOptionValue => -10,
            Error::InvalidUuid => -11,
            Error::IoOpen => -65,
            Error::IoClose => -66,
            Error::IoWrite => -67,
            Error::IoRead => -68,
            Error::IoTruncate => -69,
            Error::IoPackage => -70,
            Error::InvalidInfoFile => -129,
            Error::InvalidVersionFile => -130,
            Error::IncompatibleVersion => -131,
            Error::InvalidFieldsFile => -132,
            Error::InvalidUuidsFile => -133,
            Error::InvalidCodebookFile => -134,
            Error::InvalidTrailsFile => -135,
            Error::InvalidLexiconFile => -136,
            Error::InvalidPackage => -137,
            Error::TooManyFields => -257,
            Error::DuplicateFields => -258,
            Error::InvalidFieldname => -259,
            Error::TooManyTrails => -260,
            Error::ValueTooLong => -261,
            Error::AppendFieldsMismatch => -262,
            Error::LexiconTooLarge => -263,
            Error::TimestampTooLarge => -264,
            Error::TrailTooLong => -265,
            Error::OnlyDiffFilter => -513,
        }
    }

    /// The error that a numeric status stands for, if any.
    pub fn from_code(c: i32) -> (r: Option<Error>)
        ensures
            r == spec_from_code(c),
    {
        if c == -2 {
            Some(Error::Nomem)
        } else if c == -3 {
            Some(Error::PathTooLong)
        } else if c == -4 {
            Some(Error::UnknownField)
        } else if c == -5 {
            Some(Error::UnknownUuid)
        } else if c == -6 {
            Some(Error::InvalidTrailId)
        } else if c == -7 {
            Some(Error::HandleIsNull)
        } else if c == -8 {
            Some(Error::HandleAlreadyOpened)
        } else if c == -9 {
            Some(Error::UnknownOption)
        } else if c == -10 {
            Some(Error::InvalidOptionValue)
        } else if c == -11 {
            Some(Error::InvalidUuid)
        } else if c == -65 {
            Some(Error::IoOpen)
        } else if c == -66 {
            Some(Error::IoClose)
        } else if c == -67 {
            Some(Error::IoWrite)
        } else if c == -68 {
            Some(Error::IoRead)
        } else if c == -69 {
            Some(Error::IoTruncate)
        } else if c == -70 {
            Some(Error::IoPackage)
        } else if c == -129 {
            Some(Error::InvalidInfoFile)
        } else if c == -130 {
            Some(Error::InvalidVersionFile)
        } else if c == -131 {
            Some(Error::IncompatibleVersion)
        } else if c == -132 {
            Some(Error::InvalidFieldsFile)
        } else if c == -133 {
            Some(Error::InvalidUuidsFile)
        } else if c == -134 {
            Some(Error::InvalidCodebookFile)
        } else if c == -135 {
            Some(Error::InvalidTrailsFile)
        } else if c == -136 {
            Some(Error::InvalidLexiconFile)
        } else if c == -137 {
            Some(Error::InvalidPackage)
        } else if c == -257 {
            Some(Error::TooManyFields)
        } else if c == -258 {
            Some(Error::DuplicateFields)
        } else if c == -259 {
            Some(Error::InvalidFieldname)
        } else if c == -260 {
            Some(Error::TooManyTrails)
        } else if c == -261 {
            Some(Error::ValueTooLong)
        } else if c == -262 {
            Some(Error::AppendFieldsMismatch)
        } else if c == -263 {
            Some(Error::LexiconTooLarge)
        } else if c == -264 {
            Some(Error::TimestampTooLarge)
        } else if c == -265 {
            Some(Error::TrailTooLong)
        } else if c == -513 {
            Some(Error::OnlyDiffFilter)
        } else {
            None
        }
    }

    /// How the error is shown to people: `Error::` and the variant's name.
    pub fn name(&self) -> (r: &'static str)
        ensures
            r@ == spec_name(*self),
    {
        match self {
            Error::Nomem => "Error::Nomem",
            Error::PathTooLong => "Error::PathTooLong",
            Error::UnknownField => "Error::UnknownField",
            Error::UnknownUuid => "Error::UnknownUuid",
            Error::InvalidTrailId => "Error::InvalidTrailId",
            Error::HandleIsNull => "Error::HandleIsNull",
            Error::HandleAlreadyOpened => "Error::HandleAlreadyOpened",
            Error::UnknownOption => "Error::UnknownOption",
            Error::InvalidOptionValue => "Error::InvalidOptionValue",
            Error::InvalidUuid => "Error::InvalidUuid",
            Error::IoOpen => "Error::IoOpen",
            Error::IoClose => "Error::IoClose",
            Error::IoWrite => "Error::IoWrite",
            Error::IoRead => "Error::IoRead",
            Error::IoTruncate => "Error::IoTruncate",
            Error::IoPackage => "Error::IoPackage",
            Error::InvalidInfoFile => "Error::InvalidInfoFile",
            Error::InvalidVersionFile => "Error::InvalidVersionFile",
            Error::IncompatibleVersion => "Error::IncompatibleVersion",
            Error::InvalidFieldsFile => "Error::InvalidFieldsFile",
            Error::InvalidUuidsFile => "Error::InvalidUuidsFile",
            Error::InvalidCodebookFile => "Error::InvalidCodebookFile",
            Error::InvalidTrailsFile => "Error::InvalidTrailsFile",
            Error::InvalidLexiconFile => "Error::InvalidLexiconFile",
            Error::InvalidPackage => "Error::InvalidPackage",
            Error::TooManyFields => "Error::TooManyFields",
            Error::DuplicateFields => "Error::DuplicateFields",
            Error::InvalidFieldname => "Error::InvalidFieldname",
            Error::TooManyTrails => "Error::TooManyTrails",
            Error::ValueTooLong => "Error::ValueTooLong",
            Error::AppendFieldsMismatch => "Error::AppendFieldsMismatch",
            Error::LexiconTooLarge => "Error::LexiconTooLarge",
            Error::TimestampTooLarge => "Error::TimestampTooLarge",
            Error::TrailTooLong => "Error::TrailTooLong",
            Error::OnlyDiffFilter => "Error::OnlyDiffFilter",
        }
    }
}

/// How an error is shown: `Error::` and the variant's name.
pub open spec fn spec_name(e: Error) -> Seq<char> {
    match e {
        Error::Nomem => "Error::Nomem"@,
        Error::PathTooLong => "Error::PathTooLong"@,
        Error::UnknownField => "Error::UnknownField"@,
        Error::UnknownUuid => "Error::UnknownUuid"@,
        Error::InvalidTrailId => "Error::InvalidTrailId"@,
        Error::HandleIsNull => "Error::HandleIsNull"@,
        Error::HandleAlreadyOpened => "Error::HandleAlreadyOpened"@,
        Error::UnknownOption => "Error::UnknownOption"@,
        Error::InvalidOptionValue => "Error::InvalidOptionValue"@,
        Error::InvalidUuid => "Error::InvalidUuid"@,
        Error::IoOpen => "Error::IoOpen"@,
        Error::IoClose => "Error::IoClose"@,
        Error::IoWrite => "Error::IoWrite"@,
        Error::IoRead => "Error::IoRead"@,
        Error::IoTruncate => "Error::IoTruncate"@,
        Error::IoPackage => "Error::IoPackage"@,
        Error::InvalidInfoFile => "Error::InvalidInfoFile"@,
        Error::InvalidVersionFile => "Error::InvalidVersionFile"@,
        Error::IncompatibleVersion => "Error::IncompatibleVersion"@,
        Error::InvalidFieldsFile => "Error::InvalidFieldsFile"@,
        Error::InvalidUuidsFile => "Error::InvalidUuidsFile"@,
        Error::InvalidCodebookFile => "Error::InvalidCodebookFile"@,
        Error::InvalidTrailsFile => "Error::InvalidTrailsFile"@,
        Error::InvalidLexiconFile => "Error::InvalidLexiconFile"@,
        Error::InvalidPackage => "Error::InvalidPackage"@,
        Error::TooManyFields => "Error::TooManyFields"@,
        Error::DuplicateFields => "Error::DuplicateFields"@,
        Error::InvalidFieldname => "Error::InvalidFieldname"@,
        Error::TooManyTrails => "Error::TooManyTrails"@,
        Error::ValueTooLong => "Error::ValueTooLong"@,
        Error::AppendFieldsMismatch => "Error::AppendFieldsMismatch"@,
        Error::LexiconTooLarge => "Error::LexiconTooLarge"@,
        Error::TimestampTooLarge => "Error::TimestampTooLarge"@,
        Error::TrailTooLong => "Error::TrailTooLong"@,
        Error::OnlyDiffFilter => "Error::OnlyDiffFilter"@,
    }
}

/// Every error survives the trip through its numeric status.
pub proof fn lemma_code_round_trip(e: Error)
    ensures
        spec_from_code(spec_code(e)) == Some(e),
        spec_code(e) != 0,
{
}

/// Maps a status to the outcome of the operation that reported it: success
/// for zero, the error for a known status, `None` for a status outside the
/// taxonomy.
pub fn status_result(c: i32) -> (r: Option<Result<(), Error>>)
    ensures
        c == 0 ==> r == Some(Ok::<(), Error>(())),
        c != 0 ==> (r == match spec_from_code(c) {
            Some(e) => Some(Err::<(), Error>(e)),
            None => None::<Result<(), Error>>,
        }),
{
    if c == 0 {
        Some(Ok(()))
    } else {
        match Error::from_code(c) {
            Some(e) => Some(Err(e)),
            None => None,
        }
    }
}

} // verus!
