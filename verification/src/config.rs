//! The service's settings and how they are read from their raw text.
use vstd::prelude::*;
use crate::text::{nat_digits, to_chars, usize_text};
use vstd::utf8::encode_utf8;
use vstd::string::StringSliceAdditionalSpecFns;

verus! {

broadcast use vstd::string::group_string_axioms;

/// The least length of the session key, in bytes.
pub const MIN_SESSION_KEY_BYTES: usize = 64;

/// The service's settings.
#[derive(Debug)]
pub struct Config {
    pub bind_addr: String,
    pub port: u16,
    pub session_key: Vec<u8>,
    pub data_dir: String,
    pub backup_dir: String,
}

/// Why a port number does not parse (as `u16::from_str` tells it).
#[derive(Clone, Copy, Debug, PartialEq, Eq, Structural)]
pub enum PortError {
    /// Nothing to parse.
    Empty,
    /// A character that is not a digit (a lone `+` counts as one).
    InvalidDigit,
    /// The number is above 65535.
    TooLarge,
}

/// Why the settings are refused.
#[derive(Debug)]
pub enum ConfigError {
    /// The port does not parse.
    InvalidPort(PortError),
    /// No session key is given.
    MissingSessionKey,
    /// The session key decodes to fewer than 64 bytes (the number it has).
    SessionKeyTooShort(usize),
}

/// The text that explains why the settings are refused.
pub open spec fn config_error_text(e: ConfigError) -> Seq<char> {
    match e {
        ConfigError::InvalidPort(p) => "invalid PORT: "@ + match p {
            PortError::Empty => "cannot parse integer from empty string"@,
            PortError::InvalidDigit => "invalid digit found in string"@,
            PortError::TooLarge => "number too large to fit in target type"@,
        },
        ConfigError::MissingSessionKey => "SESSION_KEY is required (>= 64 bytes of random data)"@,
        ConfigError::SessionKeyTooShort(n) => "SESSION_KEY must decode to at least 64 bytes (got "@ + nat_digits(n as nat) + ")"@,
    }
}

impl ConfigError {
    /// The text that explains why the settings are refused.
    pub fn describe(&self) -> (s: String)
        ensures
            s@ == config_error_text(*self),
    {
        match self {
            ConfigError::InvalidPort(p) => {
                let mut s = "invalid PORT: ".to_owned();
                s.append(
                    match p {
                        PortError::Empty => "cannot parse integer from empty string",
                        PortError::InvalidDigit => "invalid digit found in string",
                        PortError::TooLarge => "number too large to fit in target type",
                    },
                );
                s
            },
            ConfigError::MissingSessionKey => "SESSION_KEY is required (>= 64 bytes of random data)".to_owned(),
            ConfigError::SessionKeyTooShort(n) => {
                let mut s = "SESSION_KEY must decode to at least 64 bytes (got ".to_owned();
                let t = usize_text(*n);
                s.append(t.as_str());
                s.append(")");
                s
            },
        }
    }
}

/// The value of the decimal digit `c`.
pub open spec fn digit_value(c: char) -> int {
    (c as u32) - ('0' as u32)
}

/// `c` is a decimal digit.
pub open spec fn is_dec_digit(c: char) -> bool {
    '0' <= c <= '9'
}

/// The digits `s` read from the left onto `acc`: the first non-digit or the first step
/// above 65535 stops the reading with an error.
pub open spec fn scan_u16(s: Seq<char>, acc: int) -> Result<u16, PortError>
    decreases s.len(),
{
    if s.len() == 0 {
        Ok(acc as u16)
    } else if !is_dec_digit(s[0]) {
        Err(PortError::InvalidDigit)
    } else if acc * 10 + digit_value(s[0]) > 65535 {
        Err(PortError::TooLarge)
    } else {
        scan_u16(s.drop_first(), acc * 10 + digit_value(s[0]))
    }
}

/// What `u16::from_str` gives for `s`: an optional leading `+`, then decimal digits.
pub open spec fn parsed_u16(s: Seq<char>) -> Result<u16, PortError> {
    if s.len() == 0 {
        Err(PortError::Empty)
    } else if s[0] == '+' {
        if s.len() == 1 {
            Err(PortError::InvalidDigit)
        } else {
            scan_u16(s.drop_first(), 0)
        }
    } else {
        scan_u16(s, 0)
    }
}

/// Parses a port number.
pub fn parse_port(s: &str) -> (r: Result<u16, PortError>)
    ensures
        r == parsed_u16(s@),
{
    let v = to_chars(s);
    if v.len() == 0 {
        return Err(PortError::Empty);
    }
    let mut i: usize = 0;
    if v[0] == '+' {
        if v.len() == 1 {
            return Err(PortError::InvalidDigit);
        }
        i = 1;
    }
    let ghost start = i;
    let mut acc: u32 = 0;
    assert(s@.skip(i as int) =~= (if start == 1 { s@.drop_first() } else { s@ }));
    assert(parsed_u16(s@) == scan_u16(s@.skip(start as int), 0));
    while i < v.len()
        invariant
            parsed_u16(s@) == scan_u16(s@.skip(start as int), 0),
            v@ == s@,
            start <= i <= v@.len(),
            acc <= 65535,
            scan_u16(s@.skip(start as int), 0) == scan_u16(s@.skip(i as int), acc as int),
        decreases v@.len() - i,
    {
        let c = v[i];
        assert(s@.skip(i as int)[0] == c);
        assert(s@.skip(i as int).drop_first() =~= s@.skip(i + 1));
        if !('0' <= c && c <= '9') {
            return Err(PortError::InvalidDigit);
        }
        let d = (c as u32) - ('0' as u32);
        if acc * 10 + d > 65535 {
            return Err(PortError::TooLarge);
        }
        acc = acc * 10 + d;
        i = i + 1;
    }
    assert(s@.skip(i as int) =~= Seq::<char>::empty());
    Ok(acc as u16)
}

/// `c` is an ASCII hexadecimal digit.
pub open spec fn is_hex(c: char) -> bool {
    ('0' <= c <= '9') || ('a' <= c <= 'f') || ('A' <= c <= 'F')
}

/// The value of the hexadecimal digit `c`.
pub open spec fn hex_value(c: char) -> int {
    if '0' <= c <= '9' {
        (c as u32) - ('0' as u32)
    } else if 'a' <= c <= 'f' {
        (c as u32) - ('a' as u32) + 10
    } else {
        (c as u32) - ('A' as u32) + 10
    }
}

/// The bytes that the hexadecimal text `s` encodes: `None` unless `s` is a non-empty,
/// even-length string of hexadecimal digits (two per byte, high digit first).
pub open spec fn hex_decoded(s: Seq<char>) -> Option<Seq<u8>> {
    if s.len() == 0 || s.len() % 2 != 0 || !(forall|i: int| 0 <= i < s.len() ==> is_hex(#[trigger] s[i])) {
        None
    } else {
        Some(Seq::new((s.len() / 2) as nat, |i: int| (hex_value(s[2 * i]) * 16 + hex_value(s[2 * i + 1])) as u8))
    }
}

/// The hexadecimal digit for the value `n` (below 16), in upper case if `upper`.
pub open spec fn hex_digit_char(n: int, upper: bool) -> char {
    if n < 10 {
        (48 + n) as char
    } else if upper {
        (55 + n) as char
    } else {
        (87 + n) as char
    }
}

/// `bytes` as hexadecimal text: two digits per byte, high digit first, in upper case if
/// `upper`.
pub open spec fn hex_encoded(bytes: Seq<u8>, upper: bool) -> Seq<char> {
    Seq::new(
        2 * bytes.len(),
        |i: int| hex_digit_char(if i % 2 == 0 { bytes[i / 2] / 16 } else { bytes[i / 2] % 16 } as int, upper),
    )
}

/// Decoding the hexadecimal text of non-empty bytes, in either letter case, gives the
/// bytes back.
pub proof fn lemma_hex_round_trip(bytes: Seq<u8>, upper: bool)
    requires
        bytes.len() > 0,
    ensures
        hex_decoded(hex_encoded(bytes, upper)) == Some(bytes),
{
    let s = hex_encoded(bytes, upper);
    assert forall|i: int| 0 <= i < s.len() implies is_hex(#[trigger] s[i]) && hex_value(s[i]) == (if i % 2 == 0 {
        bytes[i / 2] / 16
    } else {
        bytes[i / 2] % 16
    }) by {
        let n: int = if i % 2 == 0 { bytes[i / 2] / 16 } else { bytes[i / 2] % 16 } as int;
        assert(0 <= n < 16);
    }
    let d = Seq::new((s.len() / 2) as nat, |i: int| (hex_value(s[2 * i]) * 16 + hex_value(s[2 * i + 1])) as u8);
    assert forall|i: int| 0 <= i < bytes.len() implies d[i] == bytes[i] by {
        assert(s[2 * i] == hex_digit_char((bytes[i] / 16) as int, upper));
        assert((2 * i) % 2 == 0 && (2 * i) / 2 == i);
        assert((2 * i + 1) % 2 == 1 && (2 * i + 1) / 2 == i);
        assert(hex_value(s[2 * i]) == bytes[i] / 16);
        assert(hex_value(s[2 * i + 1]) == bytes[i] % 16);
    }
    assert(d =~= bytes);
}

/// The value of a hexadecimal digit.
fn hex_digit(c: char) -> (r: Option<u8>)
    ensures
        is_hex(c) ==> r == Some(hex_value(c) as u8),
        !is_hex(c) ==> r is None,
{
    if '0' <= c && c <= '9' {
        Some(((c as u32) - ('0' as u32)) as u8)
    } else if 'a' <= c && c <= 'f' {
        Some(((c as u32) - ('a' as u32) + 10) as u8)
    } else if 'A' <= c && c <= 'F' {
        Some(((c as u32) - ('A' as u32) + 10) as u8)
    } else {
        None
    }
}

/// Decodes hexadecimal text.
pub fn hex_decode(s: &str) -> (r: Option<Vec<u8>>)
    ensures
        match hex_decoded(s@) {
            Some(b) => r matches Some(v) && v@ == b,
            None => r is None,
        },
{
    let v = to_chars(s);
    let n = v.len();
    if n == 0 || n % 2 != 0 {
        return None;
    }
    let mut i: usize = 0;
    while i < n
        invariant
            v@ == s@,
            n == v@.len(),
            i <= n,
            forall|k: int| 0 <= k < i ==> is_hex(#[trigger] s@[k]),
        decreases n - i,
    {
        if hex_digit(v[i]).is_none() {
            assert(!is_hex(s@[i as int]));
            return None;
        }
        i = i + 1;
    }
    let mut out: Vec<u8> = Vec::new();
    let mut j: usize = 0;
    while j < n / 2
        invariant
            v@ == s@,
            n == v@.len(),
            n % 2 == 0,
            j <= n / 2,
            forall|k: int| 0 <= k < n ==> is_hex(#[trigger] s@[k]),
            out@ =~= Seq::new(j as nat, |k: int| (hex_value(s@[2 * k]) * 16 + hex_value(s@[2 * k + 1])) as u8),
        decreases n / 2 - j,
    {
        assert(is_hex(s@[2 * j as int]));
        assert(is_hex(s@[2 * j + 1]));
        let hi = hex_digit(v[2 * j]).unwrap();
        let lo = hex_digit(v[2 * j + 1]).unwrap();
        out.push(hi * 16 + lo);
        j = j + 1;
    }
    Some(out)
}

/// The session key that the raw setting `raw` gives: the bytes its hexadecimal text
/// encodes, or else its own UTF-8 bytes.
pub open spec fn session_key_bytes(raw: Seq<char>) -> Seq<u8> {
    match hex_decoded(raw) {
        Some(b) => b,
        None => encode_utf8(raw),
    }
}

/// The session key that a raw setting gives.
pub fn decode_session_key(raw: &str) -> (r: Vec<u8>)
    ensures
        r@ == session_key_bytes(raw@),
{
    match hex_decode(raw) {
        Some(bytes) => bytes,
        None => {
            let b = raw.as_bytes();
            assert(raw.spec_bytes() == encode_utf8(raw@));
            vstd::slice::slice_to_vec(b)
        },
    }
}

/// The value of an optional string, or `default` where it is absent.
pub open spec fn or_default(o: Option<String>, default: Seq<char>) -> Seq<char> {
    match o {
        Some(s) => s@,
        None => default,
    }
}

/// An optional setting, or its default.
fn setting(o: Option<String>, default: &str) -> (r: String)
    ensures
        r@ == or_default(o, default@),
{
    match o {
        Some(s) => s,
        None => default.to_owned(),
    }
}

impl Config {
    /// The settings from their raw values, each `None` where it is not set: the bind
    /// address (default `127.0.0.1`), the port (default `8080`), the session key
    /// (required; it must give at least 64 bytes), the data directory (default
    /// `./data`) and the backup directory (default `./backups`). The checks come in that
    /// order.
    pub fn from_values(
        bind_addr: Option<String>,
        port: Option<String>,
        session_key: Option<String>,
        data_dir: Option<String>,
        backup_dir: Option<String>,
    ) -> (r: Result<Config, ConfigError>)
        ensures
            parsed_u16(or_default(port, "8080"@)) matches Err(e) ==> (r matches Err(ConfigError::InvalidPort(x)) && x == e),
            parsed_u16(or_default(port, "8080"@)) matches Ok(p) ==> match session_key {
                None => r matches Err(ConfigError::MissingSessionKey),
                Some(k) => if session_key_bytes(k@).len() < MIN_SESSION_KEY_BYTES {
                    r matches Err(ConfigError::SessionKeyTooShort(n)) && n == session_key_bytes(k@).len()
                } else {
                    &&& r matches Ok(c)
                    &&& c.bind_addr@ == or_default(bind_addr, "127.0.0.1"@)
                    &&& c.port == p
                    &&& c.session_key@ == session_key_bytes(k@)
                    &&& c.data_dir@ == or_default(data_dir, "./data"@)
                    &&& c.backup_dir@ == or_default(backup_dir, "./backups"@)
                },
            },
    {
        let bind_addr = setting(bind_addr, "127.0.0.1");
        let port_text = setting(port, "8080");
        let port = match parse_port(port_text.as_str()) {
            Ok(p) => p,
            Err(e) => return Err(ConfigError::InvalidPort(e)),
        };
        let raw_key = match session_key {
            Some(k) => k,
            None => return Err(ConfigError::MissingSessionKey),
        };
        let key = decode_session_key(raw_key.as_str());
        if key.len() < MIN_SESSION_KEY_BYTES {
            return Err(ConfigError::SessionKeyTooShort(key.len()));
        }
        Ok(Config {
            bind_addr,
            port,
            session_key: key,
            data_dir: setting(data_dir, "./data"),
            backup_dir: setting(backup_dir, "./backups"),
        })
    }
}

} // verus!
