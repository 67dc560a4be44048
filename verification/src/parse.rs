//! Command-line values: decimal parsing of thread counts and memory limits,
//! and the default thread count.
use vstd::prelude::*;

verus! {

/// One mebibyte in bytes.
pub const MIB: u64 = 1048576;

/// The largest number of worker threads chosen when none is requested.
pub const MAX_DEFAULT_THREADS: usize = 8;

/// Whether `c` is one of the ASCII digits `0` to `9`.
pub open spec fn is_digit_char(c: char) -> bool {
    '0' <= c && c <= '9'
}

/// The numeric value of a digit character.
pub open spec fn digit_value(c: char) -> nat {
    (c as int - '0' as int) as nat
}

/// The value of a string of decimal digits, most significant first.
pub open spec fn digits_value(d: Seq<char>) -> nat
    decreases d.len(),
{
    if d.len() == 0 {
        0
    } else {
        digits_value(d.drop_last()) * 10 + digit_value(d.last())
    }
}

/// The digits of an unsigned number: the text after an optional leading `+`.
pub open spec fn unsigned_digits(s: Seq<char>) -> Seq<char> {
    if s.len() > 0 && s[0] == '+' {
        s.drop_first()
    } else {
        s
    }
}

/// A non-empty run of decimal digits.
pub open spec fn is_decimal(d: Seq<char>) -> bool {
    d.len() > 0 && forall|i: int| 0 <= i < d.len() ==> #[trigger] is_digit_char(d[i])
}

/// The number that `s` spells as an unsigned decimal integer (an optional `+`
/// followed by at least one digit, nothing else), of any size.
pub open spec fn parsed_unsigned(s: Seq<char>) -> Option<nat> {
    if is_decimal(unsigned_digits(s)) {
        Some(digits_value(unsigned_digits(s)))
    } else {
        None
    }
}

/// The value of `s` as an unsigned integer no larger than `max`, if it is one.
pub open spec fn parsed_at_most(s: Seq<char>, max: nat) -> Option<nat> {
    match parsed_unsigned(s) {
        Some(v) => if v <= max {
            Some(v)
        } else {
            None
        },
        None => None,
    }
}

proof fn lemma_ascii_byte_is_char(c: char, b: u8)
    requires
        '\0' <= c <= '\u{7f}',
        b == c as u8,
    ensures
        b as int == c as int,
{
}

/// Parses `s` as an unsigned decimal integer that does not exceed `max`.
/// The accepted text is an optional `+` and one or more ASCII digits.
pub fn parse_unsigned(s: &str, max: u64) -> (r: Option<u64>)
    ensures
        r == (match parsed_at_most(s@, max as nat) {
            Some(v) => Some(v as u64),
            None => None::<u64>,
        }),
{
    if !s.is_ascii() {
        proof {
            // A character outside ASCII is not a digit nor a sign.
            let d = unsigned_digits(s@);
            if is_decimal(d) {
                let k = choose|k: int| 0 <= k < s@.len() && !('\0' <= #[trigger] s@[k] <= '\u{7f}');
                if s@.len() > 0 && s@[0] == '+' {
                    if k == 0 {
                    } else {
                        assert(is_digit_char(d[k - 1]));
                    }
                } else {
                    assert(is_digit_char(d[k]));
                }
            }
        }
        return None;
    }
    let bytes = s.as_bytes();
    proof {
        vstd::string::is_ascii_spec_bytes(s);
        vstd::utf8::is_ascii_chars_encode_utf8(s@);
    }
    assert(bytes@.len() == s@.len());
    assert(forall|i: int| 0 <= i < s@.len() ==> #[trigger] bytes@[i] == s@[i] as u8);
    let len = bytes.len();
    let start: usize = if len > 0 && bytes[0] == 43u8 {
        1
    } else {
        0
    };
    proof {
        if len > 0 {
            lemma_ascii_byte_is_char(s@[0], bytes@[0]);
        }
    }
    let ghost d = unsigned_digits(s@);
    assert(d =~= s@.subrange(start as int, s@.len() as int));
    if start == len {
        return None;
    }
    let mut value: u64 = 0;
    let mut overflow = false;
    let mut i = start;
    while i < len
        invariant
            start <= i <= len,
            start < len,
            len == s@.len(),
            len == bytes@.len(),
            d =~= s@.subrange(start as int, len as int),
            d == unsigned_digits(s@),
            forall|j: int| 0 <= j < s@.len() ==> #[trigger] bytes@[j] == s@[j] as u8,
            forall|j: int| 0 <= j < s@.len() ==> '\0' <= #[trigger] s@[j] <= '\u{7f}',
            forall|j: int| start <= j < i ==> is_digit_char(#[trigger] s@[j]),
            !overflow ==> value as nat == digits_value(d.take(i - start)) && value <= max,
            overflow ==> digits_value(d.take(i - start)) > max,
        decreases len - i,
    {
        let b = bytes[i];
        proof {
            lemma_ascii_byte_is_char(s@[i as int], b);
        }
        if b < 48u8 || b > 57u8 {
            proof {
                assert(d[i - start] == s@[i as int]);
                assert('0' as int == 48 && '9' as int == 57);
                assert(s@[i as int] as int == b as int);
                assert(!is_digit_char(s@[i as int]));
                assert(!is_digit_char(d[i - start]));
                assert(!is_decimal(d));
            }
            return None;
        }
        let digit: u64 = (b - 48u8) as u64;
        let ghost prev = d.take(i - start);
        let ghost next = d.take(i - start + 1);
        assert(next.drop_last() =~= prev);
        assert(d[i - start] == s@[i as int]);
        assert(digits_value(next) == digits_value(prev) * 10 + digit);
        if !overflow {
            let grown: u128 = (value as u128) * 10 + (digit as u128);
            if grown > max as u128 {
                overflow = true;
            } else {
                value = grown as u64;
            }
        } else {
            assert(digits_value(next) >= digits_value(prev)) by (nonlinear_arith)
                requires
                    digits_value(next) == digits_value(prev) * 10 + digit,
            ;
        }
        i = i + 1;
    }
    assert(d.take(len - start) =~= d);
    assert(is_decimal(d));
    if overflow {
        None
    } else {
        Some(value)
    }
}

/// The thread count that `s` requests: a positive integer that fits in `usize`.
pub open spec fn thread_count_value(s: Seq<char>) -> Option<nat> {
    match parsed_unsigned(s) {
        Some(n) => if 1 <= n <= usize::MAX {
            Some(n)
        } else {
            None
        },
        None => None,
    }
}

/// The memory limit in MiB that `s` requests: a positive integer whose value in
/// bytes fits in `usize`.
pub open spec fn memory_limit_value(s: Seq<char>) -> Option<nat> {
    match parsed_unsigned(s) {
        Some(n) => if 1 <= n && n * MIB <= usize::MAX {
            Some(n)
        } else {
            None
        },
        None => None,
    }
}

/// Parses a worker-thread count: a positive decimal integer that fits in `usize`.
pub fn parse_threads(value: &str) -> (r: Result<usize, String>)
    ensures
        match thread_count_value(value@) {
            Some(n) => r == Ok::<usize, String>(n as usize),
            None => r matches Err(e) && e@ == "thread count must be at least 1"@,
        },
{
    let max = usize::MAX as u64;
    match parse_unsigned(value, max) {
        Some(n) => {
            if n > 0 {
                return Ok(n as usize);
            }
        },
        None => {},
    }
    Err(String::from_str("thread count must be at least 1"))
}

/// Parses a memory limit in MiB: a positive decimal integer whose value in
/// bytes still fits in `usize`.
pub fn parse_memory_limit(value: &str) -> (r: Result<u64, String>)
    ensures
        match memory_limit_value(value@) {
            Some(n) => r == Ok::<u64, String>(n as u64),
            None => r matches Err(e) && e@ == "memory limit must be a positive number of MiB"@,
        },
{
    let max = (usize::MAX as u64) / MIB;
    match parse_unsigned(value, max) {
        Some(n) => {
            if n > 0 {
                return Ok(n);
            }
        },
        None => {},
    }
    Err(String::from_str("memory limit must be a positive number of MiB"))
}

/// The number of worker threads used when none is requested: what the machine
/// reports as available (one when it reports nothing), kept between one and
/// eight so that many-core machines do not multiply peak memory.
pub fn default_threads(available_parallelism: Option<usize>) -> (r: usize)
    ensures
        r == match available_parallelism {
            Some(n) => if n < 1 {
                1
            } else if n > 8 {
                8
            } else {
                n
            },
            None => 1,
        },
        1 <= r <= MAX_DEFAULT_THREADS,
{
    let n = match available_parallelism {
        Some(n) => n,
        None => 1,
    };
    if n < 1 {
        1
    } else if n > MAX_DEFAULT_THREADS {
        MAX_DEFAULT_THREADS
    } else {
        n
    }
}

} // verus!
