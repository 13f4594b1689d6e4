//! The JSON reading that `opt` annotations need, done by serde_json behind
//! trusted declarations: parsing a text into a `serde_json::Value` and
//! reading members out of it. The assembly of a `ScriptOpt` from such a
//! value is verified code.

use vstd::prelude::*;
use vstd::string::StringExecFns;
use crate::script::ScriptOpt;

verus! {

/// Relies on serde_json::Value as the representation of parsed JSON; the
/// value is opaque here and only read through the accessors below.
#[verifier::external_type_specification]
#[verifier::external_body]
pub struct ExJsonValue(serde_json::Value);

/// Relies on serde_json::from_str::<Value>: parses a JSON text into a
/// value tree; a failure carries serde's message.
#[verifier::external_body]
fn json_parse(s: &str) -> Result<serde_json::Value, String> {
    match serde_json::from_str::<serde_json::Value>(s) {
        Ok(v) => Ok(v),
        Err(e) => Err(e.to_string()),
    }
}

/// Relies on serde_json::Value::get: the member of a JSON object under the
/// given key, where the value is an object holding that key.
#[verifier::external_body]
fn json_get<'a>(v: &'a serde_json::Value, key: &str) -> Option<&'a serde_json::Value> {
    v.get(key)
}

/// Relies on serde_json::Value::as_str: the content of a JSON string value.
#[verifier::external_body]
fn json_as_str(v: &serde_json::Value) -> Option<String> {
    match v.as_str() {
        Some(s) => Some(s.to_string()),
        None => None,
    }
}

/// Relies on serde_json::Value::as_bool: the content of a JSON boolean value.
#[verifier::external_body]
fn json_as_bool(v: &serde_json::Value) -> Option<bool> {
    v.as_bool()
}

/// Relies on serde_json::Value::is_null: whether the value is JSON null.
#[verifier::external_body]
fn json_is_null(v: &serde_json::Value) -> bool {
    v.is_null()
}

/// A required string member of an option object.
fn required_string(v: &serde_json::Value, key: &str) -> Result<String, String> {
    match json_get(v, key) {
        Some(m) => match json_as_str(m) {
            Some(s) => Ok(s),
            None => {
                let mut msg = String::from_str("member '");
                msg.append(key);
                msg.append("' is not a string");
                Err(msg)
            },
        },
        None => {
            let mut msg = String::from_str("missing member '");
            msg.append(key);
            msg.append("'");
            Err(msg)
        },
    }
}

/// An optional string member: absent or null reads as none.
fn optional_string(v: &serde_json::Value, key: &str) -> Result<Option<String>, String> {
    match json_get(v, key) {
        Some(m) => {
            if json_is_null(m) {
                Ok(None)
            } else {
                match json_as_str(m) {
                    Some(s) => Ok(Some(s)),
                    None => {
                        let mut msg = String::from_str("member '");
                        msg.append(key);
                        msg.append("' is not a string");
                        Err(msg)
                    },
                }
            }
        },
        None => Ok(None),
    }
}

/// An optional boolean member: absent or null reads as none.
fn optional_bool(v: &serde_json::Value, key: &str) -> Result<Option<bool>, String> {
    match json_get(v, key) {
        Some(m) => {
            if json_is_null(m) {
                Ok(None)
            } else {
                match json_as_bool(m) {
                    Some(b) => Ok(Some(b)),
                    None => {
                        let mut msg = String::from_str("member '");
                        msg.append(key);
                        msg.append("' is not a boolean");
                        Err(msg)
                    },
                }
            }
        },
        None => Ok(None),
    }
}

/// A boolean member that defaults to false when absent.
fn bool_with_default(v: &serde_json::Value, key: &str) -> Result<bool, String> {
    match json_get(v, key) {
        Some(m) => match json_as_bool(m) {
            Some(b) => Ok(b),
            None => {
                let mut msg = String::from_str("member '");
                msg.append(key);
                msg.append("' is not a boolean");
                Err(msg)
            },
        },
        None => Ok(false),
    }
}

/// Assemble a `ScriptOpt` from the JSON text of an `opt` annotation: an
/// object tagged by its `type` member as a boolean, string or worktree
/// option, with `name` and `description` required, `optional` defaulting
/// to false, and the kind's own members read as declared.
pub(crate) fn opt_from_json(text: &str) -> (r: Result<ScriptOpt, String>)
{
    let v: serde_json::Value = match json_parse(text) {
        Ok(v) => v,
        Err(e) => {
            return Err(e);
        },
    };
    let tag: String = match json_get(&v, "type") {
        Some(t) => match json_as_str(t) {
            Some(s) => s,
            None => {
                return Err(String::from_str("member 'type' is not a string"));
            },
        },
        None => {
            return Err(String::from_str("missing member 'type'"));
        },
    };
    let name: String = match required_string(&v, "name") {
        Ok(s) => s,
        Err(e) => {
            return Err(e);
        },
    };
    let description: String = match required_string(&v, "description") {
        Ok(s) => s,
        Err(e) => {
            return Err(e);
        },
    };
    let optional: bool = match bool_with_default(&v, "optional") {
        Ok(b) => b,
        Err(e) => {
            return Err(e);
        },
    };
    if crate::text::str_eq(tag.as_str(), "boolean") {
        let default: Option<bool> = match optional_bool(&v, "default") {
            Ok(d) => d,
            Err(e) => {
                return Err(e);
            },
        };
        Ok(ScriptOpt::Boolean { name, description, default, optional })
    } else if crate::text::str_eq(tag.as_str(), "string") {
        let default: Option<String> = match optional_string(&v, "default") {
            Ok(d) => d,
            Err(e) => {
                return Err(e);
            },
        };
        let pattern: Option<String> = match optional_string(&v, "pattern") {
            Ok(d) => d,
            Err(e) => {
                return Err(e);
            },
        };
        let pattern_help: Option<String> = match optional_string(&v, "pattern_help") {
            Ok(d) => d,
            Err(e) => {
                return Err(e);
            },
        };
        Ok(ScriptOpt::String { name, description, default, optional, pattern, pattern_help })
    } else if crate::text::str_eq(tag.as_str(), "worktree") {
        let base_dir_arg: String = match required_string(&v, "base_dir_arg") {
            Ok(s) => s,
            Err(_) => match required_string(&v, "baseDirArg") {
                Ok(s) => s,
                Err(e) => {
                    return Err(e);
                },
            },
        };
        Ok(ScriptOpt::Worktree { name, description, base_dir_arg, optional })
    } else {
        let mut msg = String::from_str("unknown option type '");
        msg.append(tag.as_str());
        msg.append("'");
        Err(msg)
    }
}

} // verus!
