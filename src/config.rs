//! Relay configuration from environment values, with the documented
//! defaults: database `sqlite:jottery.db`, port 3030 and a 10 MiB payload
//! limit. A missing or malformed value falls back to its default.
use vstd::prelude::*;

verus! {

pub const DEFAULT_PORT: u16 = 3030;
pub const DEFAULT_MAX_PAYLOAD_SIZE: u64 = 10_485_760;

pub open spec fn is_digit(c: char) -> bool {
    '0' <= c && c <= '9'
}

pub open spec fn digit_value(c: char) -> int {
    (c as u32) as int - ('0' as u32) as int
}

/// Whether a text is a non-empty run of decimal digits.
pub open spec fn is_decimal(s: Seq<char>) -> bool {
    s.len() > 0 && forall|i: int| 0 <= i < s.len() ==> is_digit(#[trigger] s[i])
}

/// The value of a run of decimal digits.
pub open spec fn decimal_value(s: Seq<char>) -> int
    decreases s.len(),
{
    if s.len() == 0 {
        0
    } else {
        decimal_value(s.drop_last()) * 10 + digit_value(s.last())
    }
}

proof fn lemma_decimal_nonneg(s: Seq<char>)
    requires
        forall|i: int| 0 <= i < s.len() ==> is_digit(#[trigger] s[i]),
    ensures
        decimal_value(s) >= 0,
    decreases s.len(),
{
    if s.len() > 0 {
        lemma_decimal_nonneg(s.drop_last());
    }
}

/// Parses a run of decimal digits no greater than `max`.
pub fn parse_decimal(s: &str, max: u64) -> (r: Option<u64>)
    requires
        max < u64::MAX,
    ensures
        r == if is_decimal(s@) && decimal_value(s@) <= max {
            Some(decimal_value(s@) as u64)
        } else {
            None::<u64>
        },
        r is Some ==> r->0 <= max,
        is_decimal(s@) ==> decimal_value(s@) >= 0,
{
    let n = s.unicode_len();
    if n == 0 {
        return None;
    }
    let cap: u64 = max + 1;
    let mut acc: u64 = 0;
    let mut i: usize = 0;
    while i < n
        invariant
            n == s@.len(),
            i <= n,
            cap == max + 1,
            max < u64::MAX,
            forall|j: int| 0 <= j < i ==> is_digit(#[trigger] s@[j]),
            acc <= cap,
            acc == if decimal_value(s@.take(i as int)) < cap { decimal_value(s@.take(i as int)) } else { cap as int },
        decreases n - i,
    {
        let c = s.get_char(i);
        if c < '0' || c > '9' {
            assert(!is_decimal(s@));
            return None;
        }
        let d = (c as u32 - '0' as u32) as u64;
        proof {
            let p = s@.take(i as int);
            assert(s@.take(i + 1).drop_last() == p);
            assert(s@.take(i + 1).last() == c);
            lemma_decimal_nonneg(p);
            let v = decimal_value(p);
            assert(d == digit_value(c));
            assert(0 <= d <= 9);
            if v >= cap {
                assert(v * 10 + d >= cap) by (nonlinear_arith)
                    requires v >= cap, cap >= 1, d >= 0;
            }
        }
        let next: u128 = acc as u128 * 10 + d as u128;
        if acc >= cap || next >= cap as u128 {
            acc = cap;
        } else {
            acc = next as u64;
        }
        i = i + 1;
    }
    proof {
        assert(s@.take(n as int) == s@);
        lemma_decimal_nonneg(s@);
    }
    if acc >= cap {
        None
    } else {
        Some(acc)
    }
}

/// Relay settings.
#[derive(Debug, Clone)]
pub struct Config {
    pub database_url: String,
    pub port: u16,
    pub max_payload_size: u64,
}

impl Config {
    /// Settings from the values of `DATABASE_URL`, `PORT` and
    /// `MAX_PAYLOAD_SIZE`, each falling back to its default.
    pub fn from_values(database_url: Option<String>, port: Option<&str>, max_payload_size: Option<&str>) -> (r: Config)
        ensures
            r.database_url@ == match database_url {
                Some(u) => u@,
                None => "sqlite:jottery.db"@,
            },
            r.port == match port {
                Some(p) => if is_decimal(p@) && decimal_value(p@) <= u16::MAX {
                    decimal_value(p@) as u16
                } else {
                    DEFAULT_PORT
                },
                None => DEFAULT_PORT,
            },
            r.max_payload_size == match max_payload_size {
                Some(m) => if is_decimal(m@) && decimal_value(m@) <= u64::MAX - 1 {
                    decimal_value(m@) as u64
                } else {
                    DEFAULT_MAX_PAYLOAD_SIZE
                },
                None => DEFAULT_MAX_PAYLOAD_SIZE,
            },
    {
        let database_url = match database_url {
            Some(u) => u,
            None => "sqlite:jottery.db".to_string(),
        };
        let port = match port {
            Some(p) => match parse_decimal(p, 65535) {
                Some(v) => {
                    assert(v <= 65535);
                    v as u16
                },
                None => DEFAULT_PORT,
            },
            None => DEFAULT_PORT,
        };
        let max_payload_size = match max_payload_size {
            Some(m) => match parse_decimal(m, u64::MAX - 1) {
                Some(v) => v,
                None => DEFAULT_MAX_PAYLOAD_SIZE,
            },
            None => DEFAULT_MAX_PAYLOAD_SIZE,
        };
        Config { database_url, port, max_payload_size }
    }
}

} // verus!
