//! The settings the assistant runs with, resolved from optional values.
use vstd::prelude::*;
use vstd::string::StringExecFns;

verus! {

/// Rounds of suggestions asked for when nothing else is configured.
pub const DEFAULT_SUGGESTION_COUNT: i32 = 2;

/// The language-model service and how many suggestions to ask it for.
#[derive(Debug)]
pub struct Config {
    pub api_key: String,
    pub endpoint: String,
    pub model: String,
    pub suggestion_count: i32,
}

/// `c` is an ASCII decimal digit.
pub open spec fn is_digit(c: char) -> bool {
    '0' <= c <= '9'
}

/// The number that the ASCII digits `s` write in decimal.
pub open spec fn digits_value(s: Seq<char>) -> int
    decreases s.len(),
{
    if s.len() == 0 {
        0
    } else {
        digits_value(s.drop_last()) * 10 + (s.last() as u32 - '0' as u32)
    }
}

/// `s` is one or more ASCII decimal digits.
pub open spec fn is_digits(s: Seq<char>) -> bool {
    s.len() > 0 && forall|i: int| 0 <= i < s.len() ==> is_digit(#[trigger] s[i])
}

/// The integer that `s` writes: an optional `+` or `-` and then decimal digits.
pub open spec fn decimal_value(s: Seq<char>) -> Option<int> {
    if s.len() > 0 && (s[0] == '+' || s[0] == '-') {
        let d = s.drop_first();
        if is_digits(d) {
            Some(
                if s[0] == '-' {
                    -digits_value(d)
                } else {
                    digits_value(d)
                },
            )
        } else {
            None
        }
    } else if is_digits(s) {
        Some(digits_value(s))
    } else {
        None
    }
}

/// What `s` reads as an `i32`: its decimal value, where that is in range.
pub open spec fn i32_of(s: Seq<char>) -> Option<i32> {
    match decimal_value(s) {
        Some(v) => if i32::MIN <= v <= i32::MAX {
            Some(v as i32)
        } else {
            None
        },
        None => None,
    }
}

/// Relies on `str::parse::<i32>` (`i32::from_str`): it accepts an optional
/// `+` or `-` followed by one or more ASCII digits whose value fits in `i32`,
/// and fails on anything else.
#[verifier::external_body]
fn parse_i32(s: &str) -> (r: Option<i32>)
    ensures
        r == i32_of(s@),
{
    s.parse::<i32>().ok()
}

/// The suggestion count that the text `s` configures: its value, or the
/// default where it does not read as an `i32`.
pub open spec fn count_of(s: Option<Seq<char>>) -> i32 {
    match s {
        Some(t) => match i32_of(t) {
            Some(v) => v,
            None => DEFAULT_SUGGESTION_COUNT,
        },
        None => DEFAULT_SUGGESTION_COUNT,
    }
}

impl Config {
    /// The configuration from the values that were set; each unset value
    /// takes its default.
    pub fn from_settings(
        api_key: String,
        endpoint: Option<String>,
        model: Option<String>,
        suggestion_count: Option<String>,
    ) -> (r: Config)
        ensures
            r.api_key == api_key,
            r.endpoint@ == match endpoint {
                Some(e) => e@,
                None => "https://openrouter.ai/api/v1"@,
            },
            r.model@ == match model {
                Some(m) => m@,
                None => "meta-llama/llama-3.1-70b-instruct:free"@,
            },
            r.suggestion_count == count_of(
                match suggestion_count {
                    Some(s) => Some(s@),
                    None => None,
                },
            ),
    {
        let endpoint = match endpoint {
            Some(e) => e,
            None => String::from_str("https://openrouter.ai/api/v1"),
        };
        let model = match model {
            Some(m) => m,
            None => String::from_str("meta-llama/llama-3.1-70b-instruct:free"),
        };
        let count = match suggestion_count {
            Some(s) => match parse_i32(s.as_str()) {
                Some(v) => v,
                None => DEFAULT_SUGGESTION_COUNT,
            },
            None => DEFAULT_SUGGESTION_COUNT,
        };
        Config { api_key, endpoint, model, suggestion_count: count }
    }
}

} // verus!
