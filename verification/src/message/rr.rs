use crate::errors::{decimal, decimal_string};
use vstd::prelude::*;
use vstd::string::StringExecFns;

verus! {

/// Why a record's type or class field was refused.
#[derive(Debug, PartialEq, Eq, Structural, Clone, Copy)]
pub enum Error {
    UnsupportedType(u16),
    UnsupportedClass(u16),
}

/// The record types this library understands. `A` is a host address.
#[derive(Clone, Copy, Debug, Default, PartialEq, Eq, Structural)]
pub enum Type {
    #[default]
    A,
}

/// The record classes this library understands. `In` is the Internet.
#[derive(Clone, Copy, Debug, Default, PartialEq, Eq, Structural)]
pub enum Class {
    #[default]
    In,
}

impl Type {
    /// The number that stands for this type on the wire.
    pub open spec fn code(self) -> u16 {
        match self {
            Type::A => 1,
        }
    }
}

impl Class {
    /// The number that stands for this class on the wire.
    pub open spec fn code(self) -> u16 {
        match self {
            Class::In => 1,
        }
    }
}

impl TryFrom<u16> for Type {
    type Error = Error;

    /// Accepts the number of a supported type and refuses every other number,
    /// which the error then carries.
    fn try_from(value: u16) -> (r: Result<Self, Self::Error>) {
        match value {
            1 => Ok(Type::A),
            _ => Err(Error::UnsupportedType(value)),
        }
    }
}

impl vstd::std_specs::convert::TryFromSpecImpl<u16> for Type {
    open spec fn obeys_try_from_spec() -> bool {
        true
    }

    open spec fn try_from_spec(value: u16) -> Result<Self, Self::Error> {
        if value == 1 {
            Ok(Type::A)
        } else {
            Err(Error::UnsupportedType(value))
        }
    }
}

impl From<Type> for u16 {
    /// The number that stands for the type on the wire.
    fn from(value: Type) -> (r: u16) {
        match value {
            Type::A => 1,
        }
    }
}

impl vstd::std_specs::convert::FromSpecImpl<Type> for u16 {
    open spec fn obeys_from_spec() -> bool {
        true
    }

    open spec fn from_spec(value: Type) -> u16 {
        value.code()
    }
}

impl TryFrom<u16> for Class {
    type Error = Error;

    /// Accepts the number of a supported class and refuses every other
    /// number, which the error then carries.
    fn try_from(value: u16) -> (r: Result<Self, Self::Error>) {
        match value {
            1 => Ok(Class::In),
            _ => Err(Error::UnsupportedClass(value)),
        }
    }
}

impl vstd::std_specs::convert::TryFromSpecImpl<u16> for Class {
    open spec fn obeys_try_from_spec() -> bool {
        true
    }

    open spec fn try_from_spec(value: u16) -> Result<Self, Self::Error> {
        if value == 1 {
            Ok(Class::In)
        } else {
            Err(Error::UnsupportedClass(value))
        }
    }
}

impl From<Class> for u16 {
    /// The number that stands for the class on the wire.
    fn from(value: Class) -> (r: u16) {
        match value {
            Class::In => 1,
        }
    }
}

impl vstd::std_specs::convert::FromSpecImpl<Class> for u16 {
    open spec fn obeys_from_spec() -> bool {
        true
    }

    open spec fn from_spec(value: Class) -> u16 {
        value.code()
    }
}

impl Error {
    /// What the error says, in words.
    pub open spec fn message(self) -> Seq<char> {
        match self {
            Error::UnsupportedType(value) => "Unsupported type "@ + decimal(value as nat),
            Error::UnsupportedClass(value) => "Unsupported class "@ + decimal(value as nat),
        }
    }

    /// What the error says, in words.
    pub fn to_string(&self) -> (text: String)
        ensures
            text@ == self.message(),
    {
        match self {
            Error::UnsupportedType(value) => {
                let mut text = String::from_str("Unsupported type ");
                text.append(decimal_string(*value as usize).as_str());
                text
            },
            Error::UnsupportedClass(value) => {
                let mut text = String::from_str("Unsupported class ");
                text.append(decimal_string(*value as usize).as_str());
                text
            },
        }
    }
}

} // verus!
