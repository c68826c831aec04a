//! The run configuration: two positional arguments and the value of the
//! `CASE_SENSITIVE` environment variable, validated into a `Config` or
//! refused with a `RunError`.

use vstd::prelude::*;

verus! {

/// Why a run could not be carried out.
#[derive(Clone, Copy, Debug, PartialEq, Eq, Structural)]
pub enum RunError {
    /// Fewer than two positional arguments were supplied.
    MissingArgument,
    /// The `CASE_SENSITIVE` environment variable is not set.
    MissingEnvironment,
    /// The `CASE_SENSITIVE` environment variable is not a decimal integer.
    InvalidEnvironmentValue,
    /// The target file could not be read as text.
    FileReadError,
}

impl RunError {
    /// The diagnostic text for each failure.
    pub open spec fn spec_message(self) -> Seq<char> {
        match self {
            RunError::MissingArgument => "not enough arguments"@,
            RunError::MissingEnvironment => "the CASE_SENSITIVE environment variable is not set"@,
            RunError::InvalidEnvironmentValue => "the CASE_SENSITIVE environment variable is not an integer"@,
            RunError::FileReadError => "could not read the file"@,
        }
    }

    /// A single-line diagnostic for reporting the failure.
    pub fn message(&self) -> (r: &'static str)
        ensures
            r@ == self.spec_message(),
    {
        match self {
            RunError::MissingArgument => "not enough arguments",
            RunError::MissingEnvironment => "the CASE_SENSITIVE environment variable is not set",
            RunError::InvalidEnvironmentValue => "the CASE_SENSITIVE environment variable is not an integer",
            RunError::FileReadError => "could not read the file",
        }
    }
}

/// `c` is an ASCII decimal digit.
pub open spec fn is_digit(c: char) -> bool {
    48 <= c as u32 <= 57
}

/// Numeric value of a sequence of digits, most significant first.
pub open spec fn digits_val(s: Seq<char>) -> int
    decreases s.len(),
{
    if s.len() == 0 {
        0
    } else {
        digits_val(s.drop_last()) * 10 + (s.last() as u32 - 48)
    }
}

/// The digits of an integer literal: everything after an optional sign.
pub open spec fn int_body(s: Seq<char>) -> Seq<char> {
    if s.len() > 0 && (s[0] == '+' || s[0] == '-') {
        s.drop_first()
    } else {
        s
    }
}

/// The sign an integer literal denotes.
pub open spec fn int_sign(s: Seq<char>) -> int {
    if s.len() > 0 && s[0] == '-' {
        -1
    } else {
        1
    }
}

/// `s` is a decimal integer literal: an optional sign, then one or more
/// digits and nothing else.
pub open spec fn is_int_literal(s: Seq<char>) -> bool {
    int_body(s).len() > 0 && forall|i: int|
        0 <= i < int_body(s).len() ==> is_digit(#[trigger] int_body(s)[i])
}

/// The mathematical value an integer literal denotes.
pub open spec fn int_literal_val(s: Seq<char>) -> int {
    int_sign(s) * digits_val(int_body(s))
}

/// `s` parses as an `i32`: a well-formed literal whose value fits.
pub open spec fn parses_to_i32(s: Seq<char>) -> bool {
    is_int_literal(s) && i32::MIN <= int_literal_val(s) <= i32::MAX
}

/// A sequence of digits has a non-negative value.
proof fn lemma_digits_val_nonneg(s: Seq<char>)
    requires
        forall|i: int| 0 <= i < s.len() ==> is_digit(#[trigger] s[i]),
    ensures
        digits_val(s) >= 0,
    decreases s.len(),
{
    if s.len() > 0 {
        assert(forall|i: int| 0 <= i < s.drop_last().len() ==> s.drop_last()[i] == s[i]);
        lemma_digits_val_nonneg(s.drop_last());
    }
}

/// Appending digits never shrinks the value of a digit sequence.
proof fn lemma_digits_val_prefix(s: Seq<char>, k: int)
    requires
        forall|i: int| 0 <= i < s.len() ==> is_digit(#[trigger] s[i]),
        0 <= k <= s.len(),
    ensures
        digits_val(s) >= digits_val(s.subrange(0, k)),
    decreases s.len(),
{
    if k == s.len() {
        assert(s.subrange(0, k) =~= s);
    } else {
        assert(forall|i: int| 0 <= i < s.drop_last().len() ==> s.drop_last()[i] == s[i]);
        lemma_digits_val_prefix(s.drop_last(), k);
        assert(s.drop_last().subrange(0, k) =~= s.subrange(0, k));
        lemma_digits_val_nonneg(s.drop_last());
        lemma_digits_val_nonneg(s.subrange(0, k));
    }
}

/// Parse `s` as a decimal `i32`, exactly as far as the value is a
/// well-formed literal that fits: an optional sign, one or more digits, and
/// a value between `i32::MIN` and `i32::MAX`.
pub fn parse_i32(s: &str) -> (r: Option<i32>)
    ensures
        parses_to_i32(s@) ==> r == Some(int_literal_val(s@) as i32),
        !parses_to_i32(s@) ==> r is None,
{
    let n: usize = s.unicode_len();
    let has_sign: bool = n > 0 && (s.get_char(0) == '+' || s.get_char(0) == '-');
    let neg: bool = n > 0 && s.get_char(0) == '-';
    let start: usize = if has_sign {
        1
    } else {
        0
    };
    proof {
        assert(int_body(s@) =~= s@.subrange(start as int, n as int));
    }
    if start >= n {
        return None;
    }
    let ghost body = s@.subrange(start as int, n as int);
    let mut i: usize = start;
    let mut acc: u64 = 0;
    while i < n
        invariant
            n == s@.len(),
            n <= usize::MAX,
            start <= i <= n,
            start < n,
            body == s@.subrange(start as int, n as int),
            body == int_body(s@),
            neg == (int_sign(s@) == -1),
            forall|j: int| 0 <= j < i - start ==> is_digit(#[trigger] body[j]),
            acc == digits_val(body.subrange(0, i - start)),
            acc <= 2147483648,
        decreases n - i,
    {
        let c: char = s.get_char(i);
        let d: u32 = c as u32;
        if d < 48 || d > 57 {
            proof {
                assert(!is_digit(body[i - start]));
            }
            return None;
        }
        proof {
            let k = i - start as int;
            assert(body.subrange(0, k + 1).drop_last() =~= body.subrange(0, k));
            assert(body.subrange(0, k + 1).last() == body[k]);
            assert(body[k] == s@[i as int]);
        }
        acc = acc * 10 + ((d - 48) as u64);
        if acc > 2147483648 {
            proof {
                let k = i + 1 - start as int;
                if is_int_literal(s@) {
                    lemma_digits_val_prefix(body, k);
                    assert(digits_val(body) >= acc);
                    assert(!parses_to_i32(s@));
                }
            }
            return None;
        }
        i = i + 1;
    }
    proof {
        assert(body.subrange(0, n - start as int) =~= body);
        assert(is_int_literal(s@));
        assert(acc == digits_val(int_body(s@)));
    }
    if neg {
        let v: i64 = -(acc as i64);
        proof {
            assert(int_literal_val(s@) == -(acc as int));
            assert(i32::MIN <= v <= i32::MAX);
        }
        Some(v as i32)
    } else {
        if acc > 2147483647 {
            proof {
                assert(int_literal_val(s@) == acc as int);
                assert(!parses_to_i32(s@));
            }
            return None;
        }
        Some(acc as i32)
    }
}

/// The validated run configuration: what to search for, where, and how.
pub struct Config {
    pub query: String,
    pub filename: String,
    pub case_sensitive: bool,
}

impl Config {
    /// Build a run configuration from the positional arguments (program name
    /// excluded) and the value of the `CASE_SENSITIVE` environment variable,
    /// `None` when it is unset. The first argument is the query and the
    /// second the file path; matching is case-sensitive exactly when the
    /// variable holds the integer `1`.
    pub fn new(args: &Vec<String>, case_env: Option<String>) -> (r: Result<Config, RunError>)
        ensures
            args@.len() < 2 ==> r == Result::<Config, RunError>::Err(RunError::MissingArgument),
            args@.len() >= 2 ==> match case_env {
                None => r == Result::<Config, RunError>::Err(RunError::MissingEnvironment),
                Some(v) => if parses_to_i32(v@) {
                    r matches Ok(c) && c.query@ == args@[0]@ && c.filename@ == args@[1]@
                        && c.case_sensitive == (int_literal_val(v@) == 1)
                } else {
                    r == Result::<Config, RunError>::Err(RunError::InvalidEnvironmentValue)
                },
            },
    {
        if args.len() < 2 {
            return Err(RunError::MissingArgument);
        }
        let value: String = match case_env {
            None => {
                return Err(RunError::MissingEnvironment);
            },
            Some(v) => v,
        };
        let parsed: i32 = match parse_i32(value.as_str()) {
            None => {
                return Err(RunError::InvalidEnvironmentValue);
            },
            Some(p) => p,
        };
        let query: String = args[0].clone();
        let filename: String = args[1].clone();
        Ok(Config { query, filename, case_sensitive: parsed == 1 })
    }
}

} // verus!
