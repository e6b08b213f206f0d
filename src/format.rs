//! The registry of supported serialization formats.
use vstd::prelude::*;
use vstd::string::StrSliceExecFns;
use crate::engine::Capabilities;

verus! {

/// A supported serialization format, with its configuration.
#[derive(Debug, Clone, Copy, PartialEq, Eq, Structural)]
pub enum Format {
    Json { pretty: bool },
    MsgPack,
    Toml { pretty: bool },
    Yaml,
    Pickle,
    Ron,
    Cbor,
    /// `application/x-www-form-urlencoded`.
    Url,
}

/// A format name that the registry does not know.
#[derive(Debug, Clone, PartialEq, Eq)]
pub struct UnsupportedFormat {
    pub given_name: String,
}

/// The format that a name stands for, if any. Names are matched exactly,
/// in all lower case or all upper case.
pub open spec fn format_of(s: Seq<char>) -> Option<Format> {
    if s == "json"@ || s == "JSON"@ {
        Some(Format::Json { pretty: true })
    } else if s == "yaml"@ || s == "YAML"@ {
        Some(Format::Yaml)
    } else if s == "toml"@ || s == "TOML"@ {
        Some(Format::Toml { pretty: true })
    } else if s == "msgpack"@ || s == "MSGPACK"@ {
        Some(Format::MsgPack)
    } else if s == "pickle"@ || s == "PICKLE"@ {
        Some(Format::Pickle)
    } else if s == "ron"@ || s == "RON"@ {
        Some(Format::Ron)
    } else if s == "cbor"@ || s == "CBOR"@ {
        Some(Format::Cbor)
    } else if s == "url"@ || s == "URL"@ {
        Some(Format::Url)
    } else {
        None
    }
}

/// What each format can represent natively. Integers span the signed and
/// unsigned 64-bit range where the format's encoder writes both, the signed
/// range alone for TOML, and the full token range for pickle's and CBOR's
/// big integers. JSON, TOML and urlencoded forms take strings alone as map
/// keys; a form has no null. Map keys keep the order in
/// which the decoder emits them in every format.
pub open spec fn caps_of(f: Format) -> Capabilities {
    match f {
        Format::Json { .. } => Capabilities {
            null: true, bytes: false, option: false, structs: false, variants: false, string_keys: true,
            int_min: I64_MIN, int_max: U64_MAX,
        },
        Format::MsgPack => Capabilities {
            null: true, bytes: true, option: false, structs: false, variants: false, string_keys: false,
            int_min: I64_MIN, int_max: U64_MAX,
        },
        Format::Toml { .. } => Capabilities {
            null: false, bytes: false, option: false, structs: false, variants: false, string_keys: true,
            int_min: I64_MIN, int_max: I64_MAX,
        },
        Format::Yaml => Capabilities {
            null: true, bytes: false, option: false, structs: false, variants: true, string_keys: false,
            int_min: I64_MIN, int_max: U64_MAX,
        },
        Format::Pickle => Capabilities {
            null: true, bytes: true, option: false, structs: false, variants: false, string_keys: false,
            int_min: i128::MIN, int_max: i128::MAX,
        },
        Format::Ron => Capabilities {
            null: true, bytes: false, option: true, structs: true, variants: true, string_keys: false,
            int_min: I64_MIN, int_max: U64_MAX,
        },
        Format::Cbor => Capabilities {
            null: true, bytes: true, option: false, structs: false, variants: false, string_keys: false,
            int_min: i128::MIN, int_max: i128::MAX,
        },
        Format::Url => Capabilities {
            null: false, bytes: false, option: false, structs: false, variants: false, string_keys: true,
            int_min: I64_MIN, int_max: U64_MAX,
        },
    }
}

pub const I64_MIN: i128 = -9223372036854775808;
pub const I64_MAX: i128 = 9223372036854775807;
pub const U64_MAX: i128 = 18446744073709551615;

/// Whether two strings hold the same characters.
pub fn same_text(a: &str, b: &str) -> (r: bool)
    ensures
        r == (a@ == b@),
{
    let n = a.unicode_len();
    if n != b.unicode_len() {
        return false;
    }
    let mut i: usize = 0;
    while i < n
        invariant
            n == a@.len(),
            n == b@.len(),
            i <= n,
            a@.subrange(0, i as int) == b@.subrange(0, i as int),
        decreases n - i,
    {
        if a.get_char(i) != b.get_char(i) {
            assert(a@[i as int] != b@[i as int]);
            return false;
        }
        assert(a@.subrange(0, i + 1) == a@.subrange(0, i as int).push(a@[i as int]));
        assert(b@.subrange(0, i + 1) == b@.subrange(0, i as int).push(b@[i as int]));
        i = i + 1;
    }
    assert(a@ == a@.subrange(0, n as int));
    assert(b@ == b@.subrange(0, n as int));
    true
}

/// Whether `s` is one of the two spellings given.
fn either(s: &str, lower: &str, upper: &str) -> (r: bool)
    ensures
        r == (s@ == lower@ || s@ == upper@),
{
    same_text(s, lower) || same_text(s, upper)
}

impl Format {
    /// What this format can represent natively.
    pub fn capabilities(&self) -> (r: Capabilities)
        ensures
            r == caps_of(*self),
            r.wf(),
    {
        match self {
            Format::Json { .. } => Capabilities {
                null: true, bytes: false, option: false, structs: false, variants: false, string_keys: true,
                int_min: I64_MIN, int_max: U64_MAX,
            },
            Format::MsgPack => Capabilities {
                null: true, bytes: true, option: false, structs: false, variants: false, string_keys: false,
                int_min: I64_MIN, int_max: U64_MAX,
            },
            Format::Toml { .. } => Capabilities {
                null: false, bytes: false, option: false, structs: false, variants: false, string_keys: true,
                int_min: I64_MIN, int_max: I64_MAX,
            },
            Format::Yaml => Capabilities {
                null: true, bytes: false, option: false, structs: false, variants: true, string_keys: false,
                int_min: I64_MIN, int_max: U64_MAX,
            },
            Format::Pickle => Capabilities {
                null: true, bytes: true, option: false, structs: false, variants: false, string_keys: false,
                int_min: i128::MIN, int_max: i128::MAX,
            },
            Format::Ron => Capabilities {
                null: true, bytes: false, option: true, structs: true, variants: true, string_keys: false,
                int_min: I64_MIN, int_max: U64_MAX,
            },
            Format::Cbor => Capabilities {
                null: true, bytes: true, option: false, structs: false, variants: false, string_keys: false,
                int_min: i128::MIN, int_max: i128::MAX,
            },
            Format::Url => Capabilities {
                null: false, bytes: false, option: false, structs: false, variants: false, string_keys: true,
                int_min: I64_MIN, int_max: U64_MAX,
            },
        }
    }

    /// Resolves a format name through the registry. JSON and TOML are
    /// pretty-printed by default.
    pub fn from_str(s: &str) -> (r: Result<Format, UnsupportedFormat>)
        ensures
            match r {
                Ok(f) => format_of(s@) == Some(f),
                Err(e) => format_of(s@).is_none() && e.given_name@ == s@,
            },
    {
        proof {
            reveal_strlit("json");
            reveal_strlit("JSON");
            reveal_strlit("yaml");
            reveal_strlit("YAML");
            reveal_strlit("toml");
            reveal_strlit("TOML");
            reveal_strlit("msgpack");
            reveal_strlit("MSGPACK");
            reveal_strlit("pickle");
            reveal_strlit("PICKLE");
            reveal_strlit("ron");
            reveal_strlit("RON");
            reveal_strlit("cbor");
            reveal_strlit("CBOR");
            reveal_strlit("url");
            reveal_strlit("URL");
        }
        if either(s, "json", "JSON") {
            Ok(Format::Json { pretty: true })
        } else if either(s, "yaml", "YAML") {
            Ok(Format::Yaml)
        } else if either(s, "toml", "TOML") {
            Ok(Format::Toml { pretty: true })
        } else if either(s, "msgpack", "MSGPACK") {
            Ok(Format::MsgPack)
        } else if either(s, "pickle", "PICKLE") {
            Ok(Format::Pickle)
        } else if either(s, "ron", "RON") {
            Ok(Format::Ron)
        } else if either(s, "cbor", "CBOR") {
            Ok(Format::Cbor)
        } else if either(s, "url", "URL") {
            Ok(Format::Url)
        } else {
            Err(UnsupportedFormat { given_name: s.to_string() })
        }
    }
}

} // verus!
