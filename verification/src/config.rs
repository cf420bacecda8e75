//! Configuration model: server, port, identity name, channels to join.
//!
//! The surrounding binary reads the configuration file once at startup and
//! hands its text here. Parsing the TOML surface is the `toml` crate's work,
//! behind trusted wrappers whose results carry names (`toml_int_key` and its
//! siblings): each names what the crate extracts for one key, a function of
//! the document text alone. The contract of [`config_from_toml`] ties every
//! field of the returned [`Config`] to those names, and states exactly when
//! a document is rejected; [`Config::from_parts`] holds the decisions about
//! already-extracted values (the port range, the defaults).

use vstd::prelude::*;

verus! {

/// The configuration surface, loaded once at startup.
#[derive(Clone, Debug, PartialEq, Eq)]
pub struct Config {
    /// Upstream port.
    pub port: u16,
    /// Identity name used for registration.
    pub nick: String,
    /// Upstream server host.
    pub server: String,
    /// Channels to join once registration completes, in join order.
    pub channels: Vec<String>,
}

/// `c` holds exactly the default values.
pub open spec fn is_default_config(c: Config) -> bool {
    &&& c.port == 6667
    &&& c.nick@ == "RustBot"@
    &&& c.server@ == "irc.quakenet.org"@
    &&& c.channels@.len() == 0
}

impl Default for Config {
    /// The defaults used when no configuration file exists.
    fn default() -> (c: Config)
        ensures
            is_default_config(c),
    {
        Config {
            port: 6667,
            nick: "RustBot".to_owned(),
            server: "irc.quakenet.org".to_owned(),
            channels: Vec::new(),
        }
    }
}

impl Config {
    /// Assemble a configuration from already-extracted field values.
    ///
    /// This is where every decision about extracted values is made: the
    /// port must fit a 16-bit port number, everything else is taken as
    /// given. An out-of-range port rejects the whole configuration, as a
    /// decoding failure aborted startup before.
    pub fn from_parts(port: i64, nick: String, server: String, channels: Vec<String>) -> (r:
        Option<Config>)
        ensures
            match r {
                Some(c) => 0 <= port <= 65535 && c.port == port as u16 && c.nick@ == nick@
                    && c.server@ == server@ && c.channels@.map_values(|s: String| s@)
                    == channels@.map_values(|s: String| s@),
                None => !(0 <= port <= 65535),
            },
    {
        if 0 <= port && port <= 65535 {
            Some(Config { port: port as u16, nick, server, channels })
        } else {
            None
        }
    }
}

/// The integer the `toml` crate reads under `key` in the document `text`:
/// nothing when the document does not parse, the key is absent, or its
/// value is not an integer.
pub uninterp spec fn toml_int_key(text: Seq<char>, key: Seq<char>) -> Option<i64>;

/// The string the `toml` crate reads under `key` in the document `text`.
pub uninterp spec fn toml_str_key(text: Seq<char>, key: Seq<char>) -> Option<Seq<char>>;

/// The string array the `toml` crate reads under `key` in the document
/// `text`: nothing when any element is not a string.
pub uninterp spec fn toml_str_array_key(text: Seq<char>, key: Seq<char>) -> Option<
    Seq<Seq<char>>,
>;

/// Whether the document `text` parses and holds `key` at top level.
pub uninterp spec fn toml_has_key(text: Seq<char>, key: Seq<char>) -> bool;

/// Relies on the `toml` crate's `FromStr` for `Table` and `Map::contains_key`:
/// whether the document parses and its top-level table holds the key.
#[verifier::external_body]
fn has_key(text: &str, key: &str) -> (r: bool)
    ensures
        r == toml_has_key(text@, key@),
{
    text.parse::<toml::Table>().ok().map_or(false, |t| t.contains_key(key))
}

/// Relies on the `toml` crate's `FromStr` for `Table`, `Map::get` and
/// `Value::as_integer`: the integer under the key, if the document parses
/// and the key holds an integer.
#[verifier::external_body]
fn get_int_key(text: &str, key: &str) -> (r: Option<i64>)
    ensures
        r == toml_int_key(text@, key@),
{
    text.parse::<toml::Table>().ok().and_then(|t| t.get(key).and_then(|v| v.as_integer()))
}

/// Relies on the `toml` crate's `FromStr` for `Table`, `Map::get` and
/// `Value::as_str`: the string under the key, if the document parses and
/// the key holds a string.
#[verifier::external_body]
fn get_str_key(text: &str, key: &str) -> (r: Option<String>)
    ensures
        match r {
            Some(s) => toml_str_key(text@, key@) == Some(s@),
            None => toml_str_key(text@, key@) is None,
        },
{
    text.parse::<toml::Table>().ok().and_then(
        |t| t.get(key).and_then(|v| v.as_str().map(|s| s.to_owned())),
    )
}

/// Relies on the `toml` crate's `FromStr` for `Table`, `Map::get`,
/// `Value::as_array` and `Value::as_str`: the string array under the key,
/// if the document parses and the key holds an array of strings.
#[verifier::external_body]
fn get_str_array_key(text: &str, key: &str) -> (r: Option<Vec<String>>)
    ensures
        match r {
            Some(v) => toml_str_array_key(text@, key@) == Some(
                v@.map_values(|s: String| s@),
            ),
            None => toml_str_array_key(text@, key@) is None,
        },
{
    text.parse::<toml::Table>().ok().and_then(
        |t| {
            t.get(key)?.as_array()?.iter().map(|v| v.as_str().map(|s| s.to_owned())).collect()
        },
    )
}

/// What an accepted configuration document yields: each field of the
/// configuration equals what the `toml` crate reads under its key, and the
/// channels are empty exactly when their key is absent.
pub open spec fn toml_config_ok(text: Seq<char>, c: Config) -> bool {
    &&& toml_int_key(text, "port"@) == Some(c.port as i64)
    &&& toml_str_key(text, "nick"@) == Some(c.nick@)
    &&& toml_str_key(text, "server"@) == Some(c.server@)
    &&& if toml_has_key(text, "channels"@) {
        toml_str_array_key(text, "channels"@) == Some(c.channels@.map_values(|s: String| s@))
    } else {
        c.channels@.len() == 0
    }
}

/// Why a configuration document is rejected: a required key yields nothing
/// (the document does not parse, the key is absent, or it is mistyped), the
/// channel list is present but not an array of strings, or the port is
/// outside the 16-bit range.
pub open spec fn toml_config_rejected(text: Seq<char>) -> bool {
    ||| toml_int_key(text, "port"@) is None
    ||| toml_str_key(text, "nick"@) is None
    ||| toml_str_key(text, "server"@) is None
    ||| (toml_has_key(text, "channels"@) && toml_str_array_key(text, "channels"@) is None)
    ||| !(0 <= toml_int_key(text, "port"@)->Some_0 <= 65535)
}

/// Decode a configuration document.
///
/// `port`, `nick` and `server` are required; `channels`, an array of
/// strings, may be absent and defaults to none. An accepted document gives
/// exactly the values the `toml` crate reads under those keys
/// ([`toml_config_ok`]); a document is rejected exactly for the reasons
/// [`toml_config_rejected`] lists, and the caller treats that as a fatal
/// startup error.
pub fn config_from_toml(text: &str) -> (r: Option<Config>)
    ensures
        match r {
            Some(c) => toml_config_ok(text@, c),
            None => toml_config_rejected(text@),
        },
{
    let port: i64 = match get_int_key(text, "port") {
        Some(i) => i,
        None => {
            return None;
        },
    };
    let nick: String = match get_str_key(text, "nick") {
        Some(s) => s,
        None => {
            return None;
        },
    };
    let server: String = match get_str_key(text, "server") {
        Some(s) => s,
        None => {
            return None;
        },
    };
    let channels: Vec<String> = if has_key(text, "channels") {
        match get_str_array_key(text, "channels") {
            Some(v) => v,
            None => {
                return None;
            },
        }
    } else {
        Vec::new()
    };
    let ghost channels_view = channels@.map_values(|s: String| s@);
    let r = Config::from_parts(port, nick, server, channels);
    proof {
        if r is Some {
            let c = r->Some_0;
            assert(c.port as i64 == port);
            assert(c.channels@.map_values(|s: String| s@) == channels_view);
            assert(toml_int_key(text@, "port"@) == Some(c.port as i64));
            assert(toml_str_key(text@, "nick"@) == Some(c.nick@));
            assert(toml_str_key(text@, "server"@) == Some(c.server@));
            if toml_has_key(text@, "channels"@) {
                assert(toml_str_array_key(text@, "channels"@) == Some(
                    c.channels@.map_values(|s: String| s@),
                ));
            } else {
                assert(c.channels@.len() == channels_view.len());
                assert(c.channels@.len() == 0);
            }
            assert(toml_config_ok(text@, c));
        } else {
            assert(toml_int_key(text@, "port"@)->Some_0 == port);
            assert(toml_config_rejected(text@));
        }
    }
    r
}

/// The startup decision over the outcome of reading the configuration file:
/// a missing or unreadable file falls back to the defaults; a file that was
/// read must decode, and a rejected document refuses startup.
pub fn config_from_read(contents: Option<&str>) -> (r: Option<Config>)
    ensures
        match contents {
            None => r matches Some(c) && is_default_config(c),
            Some(text) => match r {
                Some(c) => toml_config_ok(text@, c),
                None => toml_config_rejected(text@),
            },
        },
{
    match contents {
        None => Some(Config::default()),
        Some(text) => config_from_toml(text),
    }
}

} // verus!
