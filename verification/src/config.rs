//! The process settings' rules: allowed origins, boolean switches and when
//! the in-memory development mode may start.

use vstd::prelude::*;
use vstd::string::StringExecFns;
use crate::text::{ascii_lower, split, split_pieces, str_eq, to_ascii_lowercase, trim, trimmed};

verus! {

/// Why the settings cannot start the process.
#[derive(Debug)]
pub enum ConfigError {
    Invalid { name: &'static str, value: String },
    MissingDevelopmentPassword,
    DevelopmentMustBindLoopback,
}

pub open spec fn config_message(e: ConfigError) -> Seq<char> {
    match e {
        ConfigError::Invalid { name, value } => "invalid "@ + name@ + ": "@ + value@,
        ConfigError::MissingDevelopmentPassword => "in-memory development mode requires GEO_DEV_PASSWORD"@,
        ConfigError::DevelopmentMustBindLoopback => "in-memory development mode must bind to a loopback address"@,
    }
}

impl ConfigError {
    /// The error's message.
    pub fn message(&self) -> (m: String)
        ensures
            m@ == config_message(*self),
    {
        match self {
            ConfigError::Invalid { name, value } => String::from_str("invalid ").concat(name).concat(": ").concat(value.as_str()),
            ConfigError::MissingDevelopmentPassword => String::from_str("in-memory development mode requires GEO_DEV_PASSWORD"),
            ConfigError::DevelopmentMustBindLoopback => String::from_str(
                "in-memory development mode must bind to a loopback address",
            ),
        }
    }
}

/// The origins the local front ends use.
pub fn default_allowed_origins() -> (v: Vec<String>)
    ensures
        v@.map_values(|s: String| s@) == seq![
            "http://localhost:5173"@,
            "http://127.0.0.1:5173"@,
            "http://localhost:8080"@,
            "http://127.0.0.1:8080"@,
        ],
{
    let mut v: Vec<String> = Vec::new();
    v.push(String::from_str("http://localhost:5173"));
    v.push(String::from_str("http://127.0.0.1:5173"));
    v.push(String::from_str("http://localhost:8080"));
    v.push(String::from_str("http://127.0.0.1:8080"));
    assert(v@.map_values(|s: String| s@) =~= seq![
        "http://localhost:5173"@,
        "http://127.0.0.1:5173"@,
        "http://localhost:8080"@,
        "http://127.0.0.1:8080"@,
    ]);
    v
}

/// The trimmed, non-empty pieces of a comma-separated list.
pub open spec fn origin_pieces(pieces: Seq<Seq<char>>) -> Seq<Seq<char>>
    decreases pieces.len(),
{
    if pieces.len() == 0 {
        Seq::empty()
    } else if trimmed(pieces.last()).len() == 0 {
        origin_pieces(pieces.drop_last())
    } else {
        origin_pieces(pieces.drop_last()).push(trimmed(pieces.last()))
    }
}

pub open spec fn origins_rule(value: Seq<char>) -> Option<Seq<Seq<char>>> {
    let o = origin_pieces(split_pieces(value, ','));
    if o.len() == 0 {
        None
    } else {
        Some(o)
    }
}

/// The allowed origins of a comma-separated list; an empty list is invalid.
pub fn parse_origins(value: String) -> (r: Result<Vec<String>, ConfigError>)
    ensures
        match origins_rule(value@) {
            Some(o) => r matches Ok(v) && v@.map_values(|s: String| s@) == o,
            None => r matches Err(e) && config_message(e) == "invalid GEO_ALLOWED_ORIGINS: "@ + value@,
        },
{
    let pieces = split(value.as_str(), ',');
    let ghost ps = split_pieces(value@, ',');
    let mut out: Vec<String> = Vec::new();
    let mut i: usize = 0;
    assert(ps.take(0) =~= Seq::<Seq<char>>::empty());
    assert(out@.map_values(|s: String| s@) =~= Seq::<Seq<char>>::empty());
    while i < pieces.len()
        invariant
            i <= pieces.len(),
            ps == pieces@.map_values(|p: String| p@),
            out@.map_values(|s: String| s@) == origin_pieces(ps.take(i as int)),
        decreases pieces.len() - i,
    {
        proof {
            assert(ps.take(i + 1).drop_last() =~= ps.take(i as int));
            assert(ps.take(i + 1).last() == pieces@[i as int]@);
        }
        let t = trim(pieces[i].as_str());
        if t.unicode_len() > 0 {
            let ghost before = out@;
            let o = t.to_owned();
            let ghost ov = o@;
            out.push(o);
            assert(out@.map_values(|s: String| s@) =~= before.map_values(|s: String| s@).push(ov));
        }
        i += 1;
    }
    assert(ps.take(pieces.len() as int) =~= ps);
    if out.len() == 0 {
        proof {
            reveal_strlit("GEO_ALLOWED_ORIGINS");
            reveal_strlit("invalid ");
            reveal_strlit(": ");
            reveal_strlit("invalid GEO_ALLOWED_ORIGINS: ");
            assert("invalid "@ + "GEO_ALLOWED_ORIGINS"@ + ": "@ + value@ =~= "invalid GEO_ALLOWED_ORIGINS: "@ + value@);
        }
        return Err(ConfigError::Invalid { name: "GEO_ALLOWED_ORIGINS", value });
    }
    Ok(out)
}

/// A boolean switch: `1`, `true`, `yes`, `on` or `0`, `false`, `no`, `off`
/// in any ASCII case; unset means the default.
pub open spec fn switch_rule(value: Option<Seq<char>>, default: bool) -> Option<bool> {
    match value {
        None => Some(default),
        Some(v) => {
            let l = ascii_lower(v);
            if l == "1"@ || l == "true"@ || l == "yes"@ || l == "on"@ {
                Some(true)
            } else if l == "0"@ || l == "false"@ || l == "no"@ || l == "off"@ {
                Some(false)
            } else {
                None
            }
        },
    }
}

pub fn env_bool(name: &'static str, value: Option<String>, default: bool) -> (r: Result<bool, ConfigError>)
    ensures
        match switch_rule(
            match value {
                Some(v) => Some(v@),
                None => None,
            },
            default,
        ) {
            Some(b) => r == Ok::<bool, ConfigError>(b),
            None => r matches Err(e) && e matches ConfigError::Invalid { name: n, value: v } && n == name
                && Some(v@) == match value {
                Some(x) => Some(x@),
                None => None,
            },
        },
{
    let v = match value {
        None => return Ok(default),
        Some(v) => v,
    };
    let l = to_ascii_lowercase(v.as_str());
    let t = l.as_str();
    if str_eq(t, "1") || str_eq(t, "true") || str_eq(t, "yes") || str_eq(t, "on") {
        Ok(true)
    } else if str_eq(t, "0") || str_eq(t, "false") || str_eq(t, "no") || str_eq(t, "off") {
        Ok(false)
    } else {
        Err(ConfigError::Invalid { name, value: v })
    }
}

/// The development password, when the in-memory mode may start: bound to a
/// loopback address and with a non-empty password.
pub fn validate_for_memory_mode(loopback: bool, dev_password: &Option<String>) -> (r: Result<&str, ConfigError>)
    ensures
        !loopback ==> r matches Err(ConfigError::DevelopmentMustBindLoopback),
        loopback ==> match dev_password {
            Some(p) => if p@.len() > 0 {
                r matches Ok(x) && x@ == p@
            } else {
                r matches Err(ConfigError::MissingDevelopmentPassword)
            },
            None => r matches Err(ConfigError::MissingDevelopmentPassword),
        },
{
    if !loopback {
        return Err(ConfigError::DevelopmentMustBindLoopback);
    }
    match dev_password {
        Some(p) => {
            if p.unicode_len() > 0 {
                Ok(p.as_str())
            } else {
                Err(ConfigError::MissingDevelopmentPassword)
            }
        },
        None => Err(ConfigError::MissingDevelopmentPassword),
    }
}

} // verus!
