//! The engine's configuration, built once at startup and handed to the
//! components that need it.

use vstd::prelude::*;
use vstd::string::StrSliceExecFns;

verus! {

/// The configuration. `max_vectors` and `wal_flush_interval_sec` are kept
/// for the caller: the store checks no capacity, and every log append is
/// flushed.
#[derive(Debug, Clone)]
pub struct Config {
    pub host: String,
    pub port: u16,
    pub dimension: usize,
    pub max_vectors: usize,
    pub snapshot_path: String,
    pub wal_path: String,
    pub snapshot_interval_sec: u64,
    pub wal_flush_interval_sec: u64,
}

/// The settings that were given explicitly; the others take their
/// defaults.
pub struct ConfigValues {
    pub host: Option<String>,
    pub port: Option<u16>,
    pub dimension: Option<usize>,
    pub max_vectors: Option<usize>,
    pub snapshot_path: Option<String>,
    pub wal_path: Option<String>,
    pub snapshot_interval_sec: Option<u64>,
    pub wal_flush_interval_sec: Option<u64>,
}

/// The port to listen on where none is given.
pub const DEFAULT_PORT: u16 = 8080;

/// The dimension of the default collection where none is given.
pub const DEFAULT_DIMENSION: usize = 768;

/// The configured capacity where none is given.
pub const DEFAULT_MAX_VECTORS: usize = 100000;

/// The seconds between two snapshots where none are given.
pub const DEFAULT_SNAPSHOT_INTERVAL_SEC: u64 = 3600;

/// The seconds between two log flushes where none are given.
pub const DEFAULT_WAL_FLUSH_INTERVAL_SEC: u64 = 1;

/// The settings as text, as the environment gives them; `None` where a
/// setting is absent.
pub struct RawSettings {
    pub host: Option<String>,
    pub port: Option<String>,
    pub dimension: Option<String>,
    pub max_vectors: Option<String>,
    pub snapshot_path: Option<String>,
    pub wal_path: Option<String>,
    pub snapshot_interval_sec: Option<String>,
    pub wal_flush_interval_sec: Option<String>,
}

/// A setting that should be a number and is not one that fits.
#[derive(Clone, Copy, Debug, PartialEq, Eq, Structural)]
pub enum ConfigError {
    Port,
    Dimension,
    MaxVectors,
    SnapshotIntervalSec,
    WalFlushIntervalSec,
}

impl ConfigError {
    /// The text of this error.
    pub open spec fn spec_message(self) -> Seq<char> {
        match self {
            ConfigError::Port => "PORT must be a number"@,
            ConfigError::Dimension => "DIMENSION must be a number"@,
            ConfigError::MaxVectors => "MAX_VECTORS must be a number"@,
            ConfigError::SnapshotIntervalSec => "SNAPSHOT_INTERVAL_SEC must be a number"@,
            ConfigError::WalFlushIntervalSec => "WAL_FLUSH_INTERVAL_SEC must be a number"@,
        }
    }

    /// The message that names the setting.
    pub fn message(&self) -> (text: String)
        ensures
            text@ == self.spec_message(),
    {
        match self {
            ConfigError::Port => "PORT must be a number".to_owned(),
            ConfigError::Dimension => "DIMENSION must be a number".to_owned(),
            ConfigError::MaxVectors => "MAX_VECTORS must be a number".to_owned(),
            ConfigError::SnapshotIntervalSec => "SNAPSHOT_INTERVAL_SEC must be a number".to_owned(),
            ConfigError::WalFlushIntervalSec => "WAL_FLUSH_INTERVAL_SEC must be a number".to_owned(),
        }
    }
}

/// Whether the character is one of the digits `0` to `9`.
pub open spec fn is_digit(c: char) -> bool {
    48 <= c as u32 <= 57
}

/// The number that a run of digits writes in decimal.
pub open spec fn digits_value(s: Seq<char>) -> nat
    decreases s.len(),
{
    if s.len() == 0 {
        0
    } else {
        (digits_value(s.drop_last()) * 10 + (s.last() as u32 - 48)) as nat
    }
}

/// The digits of a number's text: the text itself, without a leading `+`.
pub open spec fn digits_of(text: Seq<char>) -> Seq<char> {
    if text.len() > 0 && text[0] == '+' {
        text.subrange(1, text.len() as int)
    } else {
        text
    }
}

/// The number that a text writes, where it writes one no larger than
/// `max`: one or more digits, with or without a `+` in front.
pub open spec fn number_of(text: Seq<char>, max: u64) -> Option<u64> {
    let digits = digits_of(text);
    if digits.len() > 0 && (forall|i: int| 0 <= i < digits.len() ==> is_digit(#[trigger] digits[i]))
        && digits_value(digits) <= max {
        Some(digits_value(digits) as u64)
    } else {
        None
    }
}

proof fn lemma_digits_value_grows(s: Seq<char>, i: int, j: int)
    requires
        0 <= i <= j <= s.len(),
        forall|k: int| 0 <= k < s.len() ==> is_digit(#[trigger] s[k]),
    ensures
        digits_value(s.subrange(0, i)) <= digits_value(s.subrange(0, j)),
    decreases j - i,
{
    if i < j {
        lemma_digits_value_grows(s, i, j - 1);
        assert(s.subrange(0, j).drop_last() =~= s.subrange(0, j - 1));
        assert(is_digit(s[j - 1]));
        assert(s.subrange(0, j).last() == s[j - 1]);
    }
}

/// Reads a number no larger than `max` from its decimal text.
pub fn parse_number(text: &str, max: u64) -> (r: Option<u64>)
    ensures
        r == number_of(text@, max),
{
    let n: usize = text.unicode_len();
    if n == 0 {
        return None;
    }
    let start: usize = if text.get_char(0) == '+' { 1 } else { 0 };
    let ghost digits = digits_of(text@);
    if start == n {
        return None;
    }
    let mut value: u64 = 0;
    let mut i: usize = start;
    assert(digits.subrange(0, 0) =~= Seq::<char>::empty());
    while i < n
        invariant
            n == text@.len(),
            start <= i <= n,
            start < n,
            digits == digits_of(text@),
            digits == text@.subrange(start as int, n as int),
            forall|k: int| 0 <= k < i - start ==> is_digit(#[trigger] digits[k]),
            value == digits_value(digits.subrange(0, i - start)),
            value <= max,
        decreases n - i,
    {
        let c: char = text.get_char(i);
        let code: u32 = c as u32;
        assert(digits[i - start] == c);
        if code < 48 || code > 57 {
            return None;
        }
        let digit: u64 = (code - 48) as u64;
        proof {
            let next = digits.subrange(0, i - start + 1);
            assert(next.drop_last() =~= digits.subrange(0, i - start));
            assert(next.last() == c);
            assert(digits_value(next) == value * 10 + digit);
        }
        if digit > max || value > (max - digit) / 10 {
            proof {
                assert(value * 10 + digit > max) by (nonlinear_arith)
                    requires
                        digit > max || value > (max - digit) / 10,
                        0 <= digit,
                        0 <= value,
                ;
                if forall|k: int| 0 <= k < digits.len() ==> is_digit(#[trigger] digits[k]) {
                    lemma_digits_value_grows(digits, i - start + 1, digits.len() as int);
                    assert(digits.subrange(0, digits.len() as int) =~= digits);
                }
            }
            return None;
        }
        assert(value * 10 + digit <= max) by (nonlinear_arith)
            requires
                value <= (max - digit) / 10,
                digit <= max,
                0 <= digit,
        ;
        value = value * 10 + digit;
        i = i + 1;
    }
    assert(digits.subrange(0, n - start) =~= digits);
    Some(value)
}

fn number_or(value: &Option<String>, default: u64, max: u64) -> (r: Option<u64>)
    requires
        default <= max,
    ensures
        r == Config::setting(*value, default, max),
        r is Some ==> r->Some_0 <= max,
{
    match value {
        Some(text) => parse_number(text.as_str(), max),
        None => Some(default),
    }
}

fn text_or(value: Option<String>, default: &str) -> (text: String)
    ensures
        text@ == (match value {
            Some(v) => v@,
            None => default@,
        }),
{
    match value {
        Some(v) => v,
        None => default.to_owned(),
    }
}

impl Config {
    /// The value of a numeric setting: its number where text is given, the
    /// default where none is, and nothing where the text is no number that
    /// fits.
    pub open spec fn setting(value: Option<String>, default: u64, max: u64) -> Option<u64> {
        match value {
            Some(text) => number_of(text@, max),
            None => Some(default),
        }
    }

    /// Reads the first numeric setting that is not a number, in the order
    /// port, dimension, capacity, snapshot interval, flush interval.
    pub open spec fn first_error(raw: RawSettings) -> Option<ConfigError> {
        if Self::setting(raw.port, DEFAULT_PORT as u64, u16::MAX as u64) is None {
            Some(ConfigError::Port)
        } else if Self::setting(raw.dimension, DEFAULT_DIMENSION as u64, usize::MAX as u64)
            is None {
            Some(ConfigError::Dimension)
        } else if Self::setting(raw.max_vectors, DEFAULT_MAX_VECTORS as u64, usize::MAX as u64)
            is None {
            Some(ConfigError::MaxVectors)
        } else if Self::setting(
            raw.snapshot_interval_sec,
            DEFAULT_SNAPSHOT_INTERVAL_SEC,
            u64::MAX,
        ) is None {
            Some(ConfigError::SnapshotIntervalSec)
        } else if Self::setting(
            raw.wal_flush_interval_sec,
            DEFAULT_WAL_FLUSH_INTERVAL_SEC,
            u64::MAX,
        ) is None {
            Some(ConfigError::WalFlushIntervalSec)
        } else {
            None
        }
    }

    /// Builds the configuration from the settings' texts. A numeric
    /// setting whose text is not a number that fits is an error that names
    /// the setting; an absent setting takes its default.
    pub fn from_settings(raw: RawSettings) -> (r: Result<Config, ConfigError>)
        ensures
            match r {
                Ok(config) => {
                    &&& Self::first_error(raw) is None
                    &&& config.host@ == (match raw.host {
                        Some(v) => v@,
                        None => "0.0.0.0"@,
                    })
                    &&& Some(config.port as u64) == Self::setting(
                        raw.port,
                        DEFAULT_PORT as u64,
                        u16::MAX as u64,
                    )
                    &&& Some(config.dimension as u64) == Self::setting(
                        raw.dimension,
                        DEFAULT_DIMENSION as u64,
                        usize::MAX as u64,
                    )
                    &&& Some(config.max_vectors as u64) == Self::setting(
                        raw.max_vectors,
                        DEFAULT_MAX_VECTORS as u64,
                        usize::MAX as u64,
                    )
                    &&& config.snapshot_path@ == (match raw.snapshot_path {
                        Some(v) => v@,
                        None => "snapshot.bin"@,
                    })
                    &&& config.wal_path@ == (match raw.wal_path {
                        Some(v) => v@,
                        None => "wal.bin"@,
                    })
                    &&& Some(config.snapshot_interval_sec) == Self::setting(
                        raw.snapshot_interval_sec,
                        DEFAULT_SNAPSHOT_INTERVAL_SEC,
                        u64::MAX,
                    )
                    &&& Some(config.wal_flush_interval_sec) == Self::setting(
                        raw.wal_flush_interval_sec,
                        DEFAULT_WAL_FLUSH_INTERVAL_SEC,
                        u64::MAX,
                    )
                },
                Err(e) => Self::first_error(raw) == Some(e),
            },
    {
        let port = match number_or(&raw.port, DEFAULT_PORT as u64, u16::MAX as u64) {
            Some(v) => v as u16,
            None => {
                return Err(ConfigError::Port);
            },
        };
        let dimension = match number_or(
            &raw.dimension,
            DEFAULT_DIMENSION as u64,
            usize::MAX as u64,
        ) {
            Some(v) => v as usize,
            None => {
                return Err(ConfigError::Dimension);
            },
        };
        let max_vectors = match number_or(
            &raw.max_vectors,
            DEFAULT_MAX_VECTORS as u64,
            usize::MAX as u64,
        ) {
            Some(v) => v as usize,
            None => {
                return Err(ConfigError::MaxVectors);
            },
        };
        let snapshot_interval_sec = match number_or(
            &raw.snapshot_interval_sec,
            DEFAULT_SNAPSHOT_INTERVAL_SEC,
            u64::MAX,
        ) {
            Some(v) => v,
            None => {
                return Err(ConfigError::SnapshotIntervalSec);
            },
        };
        let wal_flush_interval_sec = match number_or(
            &raw.wal_flush_interval_sec,
            DEFAULT_WAL_FLUSH_INTERVAL_SEC,
            u64::MAX,
        ) {
            Some(v) => v,
            None => {
                return Err(ConfigError::WalFlushIntervalSec);
            },
        };
        Ok(
            Config::from_values(
                ConfigValues {
                    host: raw.host,
                    port: Some(port),
                    dimension: Some(dimension),
                    max_vectors: Some(max_vectors),
                    snapshot_path: raw.snapshot_path,
                    wal_path: raw.wal_path,
                    snapshot_interval_sec: Some(snapshot_interval_sec),
                    wal_flush_interval_sec: Some(wal_flush_interval_sec),
                },
            ),
        )
    }

    /// Builds the configuration from the settings that were given, with
    /// the default for each that was not: host "0.0.0.0", port 8080,
    /// dimension 768, at most 100000 vectors, snapshot file
    /// "snapshot.bin", log file "wal.bin", a snapshot every 3600 seconds
    /// and a log flush every second.
    pub fn from_values(values: ConfigValues) -> (config: Config)
        ensures
            config.host@ == (match values.host {
                Some(v) => v@,
                None => "0.0.0.0"@,
            }),
            config.port == (match values.port {
                Some(v) => v,
                None => DEFAULT_PORT,
            }),
            config.dimension == (match values.dimension {
                Some(v) => v,
                None => DEFAULT_DIMENSION,
            }),
            config.max_vectors == (match values.max_vectors {
                Some(v) => v,
                None => DEFAULT_MAX_VECTORS,
            }),
            config.snapshot_path@ == (match values.snapshot_path {
                Some(v) => v@,
                None => "snapshot.bin"@,
            }),
            config.wal_path@ == (match values.wal_path {
                Some(v) => v@,
                None => "wal.bin"@,
            }),
            config.snapshot_interval_sec == (match values.snapshot_interval_sec {
                Some(v) => v,
                None => DEFAULT_SNAPSHOT_INTERVAL_SEC,
            }),
            config.wal_flush_interval_sec == (match values.wal_flush_interval_sec {
                Some(v) => v,
                None => DEFAULT_WAL_FLUSH_INTERVAL_SEC,
            }),
    {
        Config {
            host: text_or(values.host, "0.0.0.0"),
            port: match values.port {
                Some(v) => v,
                None => DEFAULT_PORT,
            },
            dimension: match values.dimension {
                Some(v) => v,
                None => DEFAULT_DIMENSION,
            },
            max_vectors: match values.max_vectors {
                Some(v) => v,
                None => DEFAULT_MAX_VECTORS,
            },
            snapshot_path: text_or(values.snapshot_path, "snapshot.bin"),
            wal_path: text_or(values.wal_path, "wal.bin"),
            snapshot_interval_sec: match values.snapshot_interval_sec {
                Some(v) => v,
                None => DEFAULT_SNAPSHOT_INTERVAL_SEC,
            },
            wal_flush_interval_sec: match values.wal_flush_interval_sec {
                Some(v) => v,
                None => DEFAULT_WAL_FLUSH_INTERVAL_SEC,
            },
        }
    }
}

} // verus!
