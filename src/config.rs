use vstd::prelude::*;
use vstd::string::*;

verus! {

/// MQTT port used when none is configured or it does not parse.
pub const DEFAULT_MQTT_PORT: u16 = 1883;

/// Settings of the service, read once at start.
pub struct Config {
    pub mqtt_broker: String,
    pub mqtt_port: u16,
    pub mqtt_username: String,
    pub mqtt_password: String,
    pub api_enabled: bool,
    pub api_key: String,
    pub api_host: String,
}

/// Lower-case form of `s` as `str::to_lowercase` gives it.
pub uninterp spec fn lower_of(s: Seq<char>) -> Seq<char>;

/// Relies on str::to_lowercase, whose result depends on the characters alone.
#[verifier::external_body]
fn lowercase(s: &str) -> (r: String)
    ensures
        r@ == lower_of(s@),
{
    s.to_lowercase()
}

pub open spec fn is_digit(c: char) -> bool {
    '0' <= c <= '9'
}

/// `s` is one or more decimal digits.
pub open spec fn all_digits(s: Seq<char>) -> bool {
    s.len() > 0 && forall|i: int| 0 <= i < s.len() ==> is_digit(#[trigger] s[i])
}

/// Value of the decimal digits `s`.
pub open spec fn digits_value(s: Seq<char>) -> nat
    decreases s.len(),
{
    if s.len() == 0 {
        0
    } else {
        digits_value(s.drop_last()) * 10 + (s.last() as nat - '0' as nat) as nat
    }
}

/// The digits of an unsigned decimal literal: an optional `+` and then at
/// least one digit.
pub open spec fn unsigned_digits(s: Seq<char>) -> Option<Seq<char>> {
    if s.len() > 0 && s[0] == '+' && all_digits(s.skip(1)) {
        Some(s.skip(1))
    } else if all_digits(s) {
        Some(s)
    } else {
        None
    }
}

/// What `u16::from_str` gives on `s`: the value of an unsigned decimal
/// literal that fits in 16 bits, else none.
pub open spec fn parse_u16_spec(s: Seq<char>) -> Option<u16> {
    match unsigned_digits(s) {
        Some(d) => if digits_value(d) <= u16::MAX {
            Some(digits_value(d) as u16)
        } else {
            None
        },
        None => None,
    }
}

proof fn lemma_digits_value_grows(d: Seq<char>, k: int)
    requires
        0 <= k <= d.len(),
    ensures
        digits_value(d.subrange(0, k)) <= digits_value(d),
    decreases d.len(),
{
    if k < d.len() {
        lemma_digits_value_grows(d.drop_last(), k);
        assert(d.drop_last().subrange(0, k) =~= d.subrange(0, k));
    } else {
        assert(d.subrange(0, k) =~= d);
    }
}

proof fn lemma_unsigned_digits(s: Seq<char>, start: int)
    requires
        start == 0 || start == 1,
        start == 1 ==> s.len() > 0 && s[0] == '+',
        start == 0 ==> (s.len() > 0 ==> s[0] != '+'),
    ensures
        unsigned_digits(s) == if all_digits(s.subrange(start, s.len() as int)) {
            Some(s.subrange(start, s.len() as int))
        } else {
            None::<Seq<char>>
        },
{
    if start == 1 {
        assert(s.skip(1) =~= s.subrange(1, s.len() as int));
        assert(!is_digit(s[0]));
    } else {
        assert(s.subrange(0, s.len() as int) =~= s);
    }
}

/// Parses a port number as `u16::from_str` does: an optional `+` followed by
/// decimal digits whose value fits in a u16.
pub fn parse_u16(s: &str) -> (r: Option<u16>)
    ensures
        r == parse_u16_spec(s@),
{
    let n = s.unicode_len();
    let mut start: usize = 0;
    if n > 0 && s.get_char(0) == '+' {
        start = 1;
    }
    let ghost d = s@.subrange(start as int, n as int);
    proof {
        lemma_unsigned_digits(s@, start as int);
    }
    if start >= n {
        return None;
    }
    let mut v: u32 = 0;
    let mut i: usize = start;
    while i < n
        invariant
            start <= i <= n,
            n == s@.len(),
            d == s@.subrange(start as int, n as int),
            start == 1 ==> s@[0] == '+',
            unsigned_digits(s@) == if all_digits(d) {
                Some(d)
            } else {
                None::<Seq<char>>
            },
            v <= u16::MAX,
            v as nat == digits_value(d.subrange(0, i - start)),
            forall|j: int| 0 <= j < i - start ==> is_digit(#[trigger] d[j]),
        decreases n - i,
    {
        let c = s.get_char(i);
        assert(c == d[i - start]);
        if !('0' <= c && c <= '9') {
            return None;
        }
        let digit = (c as u32) - ('0' as u32);
        assert(d.subrange(0, i + 1 - start).drop_last() =~= d.subrange(0, i - start));
        v = v * 10 + digit;
        if v > 65535 {
            proof {
                lemma_digits_value_grows(d, i + 1 - start);
                if all_digits(d) {
                    assert(d.subrange(0, d.len() as int) =~= d);
                }
            }
            return None;
        }
        i = i + 1;
    }
    assert(d.subrange(0, n - start) =~= d);
    Some(v as u16)
}

/// The sink is enabled when the lower-cased setting reads "true".
pub fn flag_enabled(lowered: &str) -> (r: bool)
    ensures
        r == (lowered@ == "true"@),
{
    let expected = "true".to_owned();
    let lowered = lowered.to_owned();
    lowered == expected
}

fn require(v: Option<String>, name: &str) -> (r: Result<String, String>)
    ensures
        match r {
            Ok(s) => v is Some && s@ == v->Some_0@,
            Err(e) => v is None && e@ == name@ + " not set"@,
        },
{
    match v {
        Some(s) => Ok(s),
        None => {
            let mut e = name.to_owned();
            e.append(" not set");
            Err(e)
        },
    }
}

impl Config {
    /// Builds the settings from the values found for MQTT_BROKER, MQTT_PORT,
    /// MQTT_USERNAME, MQTT_PASSWORD, API_ENABLED, API_KEY and API_HOST (none
    /// where unset). The sink is enabled when API_ENABLED reads "true" in any
    /// case, and disabled when it is unset. An enabled sink requires its key
    /// and host; a disabled one leaves them empty.
    /// A port that is unset or does not parse falls back to 1883. The error
    /// names the first required setting that is missing.
    pub fn from_settings(
        mqtt_broker: Option<String>,
        mqtt_port: Option<String>,
        mqtt_username: Option<String>,
        mqtt_password: Option<String>,
        api_enabled: Option<String>,
        api_key: Option<String>,
        api_host: Option<String>,
    ) -> (r: Result<Config, String>)
        ensures
            ({
                let enabled = match api_enabled {
                    Some(v) => lower_of(v@) == "true"@,
                    None => false,
                };
                let missing = if mqtt_broker is None {
                    Some("MQTT_BROKER"@)
                } else if mqtt_username is None {
                    Some("MQTT_USERNAME"@)
                } else if mqtt_password is None {
                    Some("MQTT_PASSWORD"@)
                } else if enabled && api_key is None {
                    Some("API_KEY"@)
                } else if enabled && api_host is None {
                    Some("API_HOST"@)
                } else {
                    None
                };
                match r {
                    Err(e) => missing is Some && e@ == missing->Some_0 + " not set"@,
                    Ok(c) => {
                        &&& missing is None
                        &&& c.mqtt_broker@ == mqtt_broker->Some_0@
                        &&& c.mqtt_port == match mqtt_port {
                            Some(p) => match parse_u16_spec(p@) {
                                Some(n) => n,
                                None => DEFAULT_MQTT_PORT,
                            },
                            None => DEFAULT_MQTT_PORT,
                        }
                        &&& c.mqtt_username@ == mqtt_username->Some_0@
                        &&& c.mqtt_password@ == mqtt_password->Some_0@
                        &&& c.api_enabled == enabled
                        &&& c.api_key@ == if enabled { api_key->Some_0@ } else { Seq::empty() }
                        &&& c.api_host@ == if enabled { api_host->Some_0@ } else { Seq::empty() }
                    },
                }
            }),
    {
        let enabled = match api_enabled {
            Some(v) => {
                let lowered = lowercase(v.as_str());
                flag_enabled(lowered.as_str())
            },
            None => false,
        };
        let mqtt_broker = require(mqtt_broker, "MQTT_BROKER")?;
        let mqtt_port = match mqtt_port {
            Some(p) => match parse_u16(p.as_str()) {
                Some(n) => n,
                None => DEFAULT_MQTT_PORT,
            },
            None => DEFAULT_MQTT_PORT,
        };
        let mqtt_username = require(mqtt_username, "MQTT_USERNAME")?;
        let mqtt_password = require(mqtt_password, "MQTT_PASSWORD")?;
        let api_key = if enabled {
            require(api_key, "API_KEY")?
        } else {
            String::new()
        };
        let api_host = if enabled {
            require(api_host, "API_HOST")?
        } else {
            String::new()
        };
        Ok(Config {
            mqtt_broker,
            mqtt_port,
            mqtt_username,
            mqtt_password,
            api_enabled: enabled,
            api_key,
            api_host,
        })
    }
}

} // verus!
