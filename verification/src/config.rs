//! Server configuration read from TOML text.
//!
//! The configuration names the address to bind, a default cap on request
//! body sizes, and the default handler task mode.  Unknown keys are
//! ignored; a key of the wrong shape, a malformed socket address, and the
//! retired spelling of the body-size cap are reported with a message.

use vstd::prelude::*;

use crate::sockaddr::BindAddress;
use crate::sockaddr::parse_addr_spec;
use crate::sockaddr::parse_bind_address;
use crate::util::dec_str_signed;
use crate::util::i64_to_string;
use crate::util::str_eq;

verus! {

/// What happens to a request handler when its client disconnects early.
#[derive(Debug, Clone, Copy, PartialEq, Eq, Structural)]
pub enum HandlerTaskMode {
    /// the handler's task is cancelled with the connection
    CancelOnDisconnect,
    /// the handler's task runs to completion regardless
    Detached,
}

impl Default for HandlerTaskMode {
    /// Handlers run detached where no mode is named.
    fn default() -> (r: Self)
        ensures
            r == HandlerTaskMode::Detached,
    {
        HandlerTaskMode::Detached
    }
}

/// The server configuration.
#[derive(Debug, Clone, Copy, PartialEq, Eq, Structural)]
pub struct ConfigDropshot {
    /// IP address and TCP port to which to bind for accepting connections
    pub bind_address: BindAddress,
    /// maximum allowed size of a request body, in bytes
    pub default_request_body_max_bytes: usize,
    /// default behaviour of a handler when its client disconnects
    pub default_handler_task_mode: HandlerTaskMode,
}

/// The configuration assumed where the text says nothing: any port on
/// the loopback address, a one-kilobyte body cap, detached handlers.
pub open spec fn default_config() -> ConfigDropshot {
    ConfigDropshot {
        bind_address: BindAddress { a: 127, b: 0, c: 0, d: 1, port: 0 },
        default_request_body_max_bytes: 1024,
        default_handler_task_mode: HandlerTaskMode::Detached,
    }
}

impl Default for ConfigDropshot {
    fn default() -> (r: Self)
        ensures
            r == default_config(),
    {
        ConfigDropshot {
            bind_address: BindAddress { a: 127, b: 0, c: 0, d: 1, port: 0 },
            default_request_body_max_bytes: 1024,
            default_handler_task_mode: HandlerTaskMode::Detached,
        }
    }
}

/// A top-level TOML value reduced to its plain content; anything beyond
/// a string, integer or boolean keeps only the name of its type.
#[derive(Debug, Clone, PartialEq, Eq)]
pub enum RawTomlValue {
    Str(String),
    Int(i64),
    Bool(bool),
    Other(String),
}

/// The mathematical value of a [`RawTomlValue`].
pub enum RawTomlView {
    Str(Seq<char>),
    Int(i64),
    Bool(bool),
    Other(Seq<char>),
}

impl View for RawTomlValue {
    type V = RawTomlView;

    open spec fn view(&self) -> RawTomlView {
        match self {
            RawTomlValue::Str(s) => RawTomlView::Str(s@),
            RawTomlValue::Int(i) => RawTomlView::Int(*i),
            RawTomlValue::Bool(b) => RawTomlView::Bool(*b),
            RawTomlValue::Other(t) => RawTomlView::Other(t@),
        }
    }
}

/// The mathematical value of a sequence of raw entries.
pub open spec fn entries_view(entries: Seq<(String, RawTomlValue)>) -> Seq<
    (Seq<char>, RawTomlView),
> {
    Seq::new(entries.len(), |i: int| (entries[i].0@, entries[i].1@))
}

/// What parsing TOML text yields: the top-level entries, in increasing
/// key order, with each value reduced to its plain content; or the
/// parser's message.
pub uninterp spec fn toml_top_level(s: Seq<char>) -> Result<
    Seq<(Seq<char>, RawTomlView)>,
    Seq<char>,
>;

/// The mathematical value of a raw parse result.
pub open spec fn toml_result_view(r: Result<Vec<(String, RawTomlValue)>, String>) -> Result<
    Seq<(Seq<char>, RawTomlView)>,
    Seq<char>,
> {
    match r {
        Ok(v) => Ok(entries_view(v@)),
        Err(m) => Err(m@),
    }
}

/// Relies on `toml::from_str::<toml::Table>`: parses the text as a TOML
/// document and yields its top-level table, whose entries are held in
/// lexicographic key order; each value is reduced here to its plain
/// content, with `Value::type_str` naming anything beyond a string,
/// integer or boolean; a parse failure yields `toml::de::Error::message`.
#[verifier::external_body]
fn parse_toml_table(s: &str) -> (r: Result<Vec<(String, RawTomlValue)>, String>)
    ensures
        toml_result_view(r) == toml_top_level(s@),
{
    match toml::from_str::<toml::Table>(s) {
        Ok(table) => Ok(
            table
                .into_iter()
                .map(|(k, v)| (k, match v {
                    toml::Value::String(x) => RawTomlValue::Str(x),
                    toml::Value::Integer(x) => RawTomlValue::Int(x),
                    toml::Value::Boolean(x) => RawTomlValue::Bool(x),
                    other => RawTomlValue::Other(other.type_str().to_string()),
                }))
                .collect(),
        ),
        Err(e) => Err(e.message().to_string()),
    }
}

/// How a value reads in an error message: its type, and its content for
/// a string, integer or boolean.
pub open spec fn value_desc(v: RawTomlView) -> Seq<char> {
    match v {
        RawTomlView::Str(s) => "string \""@ + s + "\""@,
        RawTomlView::Int(i) => "integer `"@ + dec_str_signed(i as int) + "`"@,
        RawTomlView::Bool(b) => if b {
            "boolean `true`"@
        } else {
            "boolean `false`"@
        },
        RawTomlView::Other(t) => t,
    }
}

/// The message for a value of the wrong shape.
pub open spec fn type_err_msg(v: RawTomlView, expected: Seq<char>) -> Seq<char> {
    "invalid type: "@ + value_desc(v) + ", expected "@ + expected
}

/// Fold one top-level entry into the configuration, or the message that
/// rejects it.  Unknown keys are ignored; the retired key
/// `request_body_max_bytes` is rejected whatever its value.
pub open spec fn apply_entry(cfg: ConfigDropshot, key: Seq<char>, v: RawTomlView) -> Result<
    ConfigDropshot,
    Seq<char>,
> {
    if key == "bind_address"@ {
        match v {
            RawTomlView::Str(s) => match parse_addr_spec(s) {
                Some(a) => Ok(ConfigDropshot { bind_address: a, ..cfg }),
                None => Err("invalid socket address syntax"@),
            },
            _ => Err(type_err_msg(v, "socket address"@)),
        }
    } else if key == "default_request_body_max_bytes"@ {
        match v {
            RawTomlView::Int(i) => if i >= 0 {
                Ok(ConfigDropshot { default_request_body_max_bytes: i as usize, ..cfg })
            } else {
                Err("invalid value: "@ + value_desc(v) + ", expected usize"@)
            },
            _ => Err(type_err_msg(v, "usize"@)),
        }
    } else if key == "default_handler_task_mode"@ {
        match v {
            RawTomlView::Str(s) => if s == "cancel-on-disconnect"@ {
                Ok(
                    ConfigDropshot {
                        default_handler_task_mode: HandlerTaskMode::CancelOnDisconnect,
                        ..cfg
                    },
                )
            } else if s == "detached"@ {
                Ok(
                    ConfigDropshot {
                        default_handler_task_mode: HandlerTaskMode::Detached,
                        ..cfg
                    },
                )
            } else {
                Err(
                    "unknown variant `"@ + s
                        + "`, expected `cancel-on-disconnect` or `detached`"@,
                )
            },
            _ => Err(type_err_msg(v, "a handler task mode"@)),
        }
    } else if key == "request_body_max_bytes"@ {
        Err(
            "invalid type: "@ + value_desc(v)
                + ", expected the field to be absent (request_body_max_bytes has been renamed to default_request_body_max_bytes)"@,
        )
    } else {
        Ok(cfg)
    }
}

/// Fold the entries into the configuration in order; the first rejected
/// entry decides the message.
pub open spec fn apply_entries(
    entries: Seq<(Seq<char>, RawTomlView)>,
    cfg: ConfigDropshot,
) -> Result<ConfigDropshot, Seq<char>>
    decreases entries.len(),
{
    if entries.len() == 0 {
        Ok(cfg)
    } else {
        match apply_entry(cfg, entries[0].0, entries[0].1) {
            Err(m) => Err(m),
            Ok(c2) => apply_entries(entries.drop_first(), c2),
        }
    }
}

/// What reading configuration text yields: the parsed entries folded
/// over the default configuration, or the first complaint.
pub open spec fn read_config_spec(s: Seq<char>) -> Result<ConfigDropshot, Seq<char>> {
    match toml_top_level(s) {
        Err(m) => Err(m),
        Ok(entries) => apply_entries(entries, default_config()),
    }
}

/// Reported when configuration text is rejected.
#[derive(Debug, Clone, PartialEq, Eq)]
pub struct ConfigError {
    pub message: String,
}

impl ConfigError {
    /// What went wrong.
    pub fn message(&self) -> (m: &str)
        ensures
            m@ == self.message@,
    {
        self.message.as_str()
    }
}

/// The mathematical value of a configuration read.
pub open spec fn config_result_view(r: Result<ConfigDropshot, ConfigError>) -> Result<
    ConfigDropshot,
    Seq<char>,
> {
    match r {
        Ok(c) => Ok(c),
        Err(e) => Err(e.message@),
    }
}

/// Render a value for an error message.
fn value_desc_exec(v: &RawTomlValue) -> (s: String)
    ensures
        s@ == value_desc(v@),
{
    proof {
        reveal_strlit("string \"");
        reveal_strlit("\"");
        reveal_strlit("integer `");
        reveal_strlit("`");
        reveal_strlit("boolean `true`");
        reveal_strlit("boolean `false`");
    }
    match v {
        RawTomlValue::Str(x) => {
            let s = String::from_str("string \"");
            let s = s.concat(x.as_str());
            s.concat("\"")
        },
        RawTomlValue::Int(i) => {
            let s = String::from_str("integer `");
            let s = s.concat(i64_to_string(*i).as_str());
            s.concat("`")
        },
        RawTomlValue::Bool(b) => {
            if *b {
                String::from_str("boolean `true`")
            } else {
                String::from_str("boolean `false`")
            }
        },
        RawTomlValue::Other(t) => t.clone(),
    }
}

/// Build the message for a value of the wrong shape.
fn type_err_exec(v: &RawTomlValue, expected: &str) -> (s: String)
    ensures
        s@ == type_err_msg(v@, expected@),
{
    proof {
        reveal_strlit("invalid type: ");
        reveal_strlit(", expected ");
    }
    let s = String::from_str("invalid type: ");
    let s = s.concat(value_desc_exec(v).as_str());
    let s = s.concat(", expected ");
    s.concat(expected)
}

/// Fold one entry into the configuration.
fn apply_entry_exec(cfg: ConfigDropshot, key: &String, v: &RawTomlValue) -> (r: Result<
    ConfigDropshot,
    ConfigError,
>)
    ensures
        config_result_view(r) == apply_entry(cfg, key@, v@),
{
    proof {
        reveal_strlit("bind_address");
        reveal_strlit("default_request_body_max_bytes");
        reveal_strlit("default_handler_task_mode");
        reveal_strlit("request_body_max_bytes");
        reveal_strlit("invalid socket address syntax");
        reveal_strlit("socket address");
        reveal_strlit("usize");
        reveal_strlit("a handler task mode");
        reveal_strlit("invalid value: ");
        reveal_strlit(", expected usize");
        reveal_strlit("cancel-on-disconnect");
        reveal_strlit("detached");
        reveal_strlit("unknown variant `");
        reveal_strlit("`, expected `cancel-on-disconnect` or `detached`");
        reveal_strlit(
            ", expected the field to be absent (request_body_max_bytes has been renamed to default_request_body_max_bytes)",
        );
        reveal_strlit("invalid type: ");
    }
    if str_eq(key.as_str(), "bind_address") {
        match v {
            RawTomlValue::Str(x) => match parse_bind_address(x.as_str()) {
                Some(a) => Ok(ConfigDropshot { bind_address: a, ..cfg }),
                None => Err(
                    ConfigError {
                        message: String::from_str("invalid socket address syntax"),
                    },
                ),
            },
            _ => Err(ConfigError { message: type_err_exec(v, "socket address") }),
        }
    } else if str_eq(key.as_str(), "default_request_body_max_bytes") {
        match v {
            RawTomlValue::Int(i) => {
                if *i >= 0 {
                    Ok(
                        ConfigDropshot {
                            default_request_body_max_bytes: *i as usize,
                            ..cfg
                        },
                    )
                } else {
                    let m = String::from_str("invalid value: ");
                    let m = m.concat(value_desc_exec(v).as_str());
                    let m = m.concat(", expected usize");
                    Err(ConfigError { message: m })
                }
            },
            _ => Err(ConfigError { message: type_err_exec(v, "usize") }),
        }
    } else if str_eq(key.as_str(), "default_handler_task_mode") {
        match v {
            RawTomlValue::Str(x) => {
                if str_eq(x.as_str(), "cancel-on-disconnect") {
                    Ok(
                        ConfigDropshot {
                            default_handler_task_mode: HandlerTaskMode::CancelOnDisconnect,
                            ..cfg
                        },
                    )
                } else if str_eq(x.as_str(), "detached") {
                    Ok(
                        ConfigDropshot {
                            default_handler_task_mode: HandlerTaskMode::Detached,
                            ..cfg
                        },
                    )
                } else {
                    let m = String::from_str("unknown variant `");
                    let m = m.concat(x.as_str());
                    let m = m.concat("`, expected `cancel-on-disconnect` or `detached`");
                    Err(ConfigError { message: m })
                }
            },
            _ => Err(ConfigError { message: type_err_exec(v, "a handler task mode") }),
        }
    } else if str_eq(key.as_str(), "request_body_max_bytes") {
        let m = String::from_str("invalid type: ");
        let m = m.concat(value_desc_exec(v).as_str());
        let m = m.concat(
            ", expected the field to be absent (request_body_max_bytes has been renamed to default_request_body_max_bytes)",
        );
        Err(ConfigError { message: m })
    } else {
        Ok(cfg)
    }
}

/// Fold the entries from position `i` on into the configuration.
fn apply_from(entries: &Vec<(String, RawTomlValue)>, i: usize, cfg: ConfigDropshot) -> (r: Result<
    ConfigDropshot,
    ConfigError,
>)
    requires
        i <= entries@.len(),
    ensures
        config_result_view(r) == apply_entries(entries_view(entries@).skip(i as int), cfg),
    decreases entries@.len() - i,
{
    let ghost tail = entries_view(entries@).skip(i as int);
    if i == entries.len() {
        proof {
            assert(tail =~= Seq::<(Seq<char>, RawTomlView)>::empty());
        }
        Ok(cfg)
    } else {
        proof {
            assert(tail[0] == entries_view(entries@)[i as int]);
            assert(tail.drop_first() =~= entries_view(entries@).skip(i + 1));
        }
        match apply_entry_exec(cfg, &entries[i].0, &entries[i].1) {
            Err(e) => Err(e),
            Ok(c2) => apply_from(entries, i + 1, c2),
        }
    }
}

/// Load a configuration from the TOML text `contents`.  `label`
/// identifies the text to the caller and plays no part in parsing.
pub fn read_config(label: &str, contents: &str) -> (r: Result<ConfigDropshot, ConfigError>)
    ensures
        config_result_view(r) == read_config_spec(contents@),
{
    let _ = label;
    match parse_toml_table(contents) {
        Err(m) => Err(ConfigError { message: m }),
        Ok(entries) => {
            proof {
                assert(entries_view(entries@).skip(0) =~= entries_view(entries@));
            }
            apply_from(&entries, 0, ConfigDropshot::default())
        },
    }
}

} // verus!
