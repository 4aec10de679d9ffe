use vstd::prelude::*;
use vstd::string::StringExecFns;
use vstd::string::to_string_from_display_ensures;

verus! {

/// Why a map key could not be written or read.
#[derive(Debug, Clone, PartialEq, Eq)]
pub enum KeyError {
    /// The map has no field under this key.
    UnknownKey(String),
    /// The value given for the key did not fit the field.
    Deserialize { key: String, message: String },
    /// The field's value could not be produced.
    Serialize { key: String, message: String },
}

impl KeyError {
    /// The error for a key the map does not have.
    pub fn unknown(key: String) -> (e: Self)
        ensures
            e == KeyError::UnknownKey(key),
    {
        KeyError::UnknownKey(key)
    }

    /// The error for a value that did not fit the field under `key`;
    /// `error` says why.
    pub fn deserialize<E: std::fmt::Display>(key: String, error: E) -> (e: Self)
        ensures
            e matches KeyError::Deserialize { key: k, message: m } && k == key
                && to_string_from_display_ensures::<E>(&error, m),
    {
        KeyError::Deserialize { key, message: error.to_string() }
    }

    /// The error for a field under `key` whose value could not be produced;
    /// `error` says why.
    pub fn serialize<E: std::fmt::Display>(key: String, error: E) -> (e: Self)
        ensures
            e matches KeyError::Serialize { key: k, message: m } && k == key
                && to_string_from_display_ensures::<E>(&error, m),
    {
        KeyError::Serialize { key, message: error.to_string() }
    }

    /// The human-readable description of the error.
    pub fn message(&self) -> (s: String)
        ensures
            match self {
                KeyError::UnknownKey(key) => s@ == "unknown map key `"@ + key@ + "`"@,
                KeyError::Deserialize { key, message } => s@ == "failed to deserialize map key `"@
                    + key@ + "`: "@ + message@,
                KeyError::Serialize { key, message } => s@ == "failed to serialize map key `"@
                    + key@ + "`: "@ + message@,
            },
    {
        match self {
            KeyError::UnknownKey(key) => {
                let s = String::from_str("unknown map key `");
                let s = s.concat(key.as_str());
                s.concat("`")
            },
            KeyError::Deserialize { key, message } => {
                let s = String::from_str("failed to deserialize map key `");
                let s = s.concat(key.as_str());
                let s = s.concat("`: ");
                s.concat(message.as_str())
            },
            KeyError::Serialize { key, message } => {
                let s = String::from_str("failed to serialize map key `");
                let s = s.concat(key.as_str());
                let s = s.concat("`: ");
                s.concat(message.as_str())
            },
        }
    }
}

} // verus!
