use vstd::prelude::*;

verus! {

/// What a run of an interpreter process left behind.
#[derive(Debug)]
pub struct PythonExecutionResult {
    pub success: bool,
    pub stdout: String,
    pub stderr: String,
    pub exit_code: Option<i32>,
}

impl PythonExecutionResult {
    /// The result of a run that ended with `exit_code` (`None` when the process
    /// was ended by a signal): it succeeded exactly when the code is zero.
    pub fn from_exit(exit_code: Option<i32>, stdout: String, stderr: String) -> (r: Self)
        ensures
            r.success == (exit_code == Some(0i32)),
            r.exit_code == exit_code,
            r.stdout == stdout,
            r.stderr == stderr,
    {
        let success = match exit_code {
            Some(c) => c == 0,
            None => false,
        };
        PythonExecutionResult { success, stdout, stderr, exit_code }
    }
}

/// The characters of `s` without its leading and trailing white space.
pub uninterp spec fn trimmed(s: Seq<char>) -> Seq<char>;

/// Relies on `str::trim`, which removes leading and trailing characters of
/// Unicode's White_Space property: the result depends on the characters alone.
#[verifier::external_body]
fn trim(s: &str) -> (r: &str)
    ensures
        r@ == trimmed(s@),
{
    s.trim()
}

pub open spec fn is_digit(c: char) -> bool {
    '0' <= c <= '9'
}

/// The value of the decimal digits `d`.
pub open spec fn digits_value(d: Seq<char>) -> int
    decreases d.len(),
{
    if d.len() == 0 {
        0
    } else {
        digits_value(d.drop_last()) * 10 + (d.last() as int - '0' as int)
    }
}

/// `s` without a leading plus sign.
pub open spec fn unsigned_part(s: Seq<char>) -> Seq<char> {
    if s.len() > 0 && s[0] == '+' {
        s.drop_first()
    } else {
        s
    }
}

/// The `u32` that `s` writes in decimal: an optional plus sign, then one or
/// more decimal digits, of value at most `u32::MAX`; `None` for any other text.
pub open spec fn decimal_u32(s: Seq<char>) -> Option<u32> {
    let d = unsigned_part(s);
    if d.len() > 0 && (forall|i: int| 0 <= i < d.len() ==> is_digit(#[trigger] d[i]))
        && digits_value(d) <= u32::MAX {
        Some(digits_value(d) as u32)
    } else {
        None
    }
}

/// The process id that a pid file holds: its text, without surrounding white
/// space, read as a decimal `u32`; `None` where that text is no such number.
pub fn parse_pid(text: &str) -> (r: Option<u32>)
    ensures
        r == decimal_u32(trimmed(text@)),
{
    let t = trim(text);
    let ghost s = t@;
    if !t.is_ascii() {
        proof {
            let k = choose|k: int| 0 <= k < s.len() && !('\0' <= #[trigger] s[k] <= '\u{7f}');
            let d = unsigned_part(s);
            if s.len() > 0 && s[0] == '+' {
                assert(d[k - 1] == s[k]);
                assert(!is_digit(d[k - 1]));
            } else {
                assert(!is_digit(d[k]));
            }
        }
        return None;
    }
    let bytes = t.as_bytes();
    proof {
        vstd::string::is_ascii_spec_bytes(t);
    }
    let n = bytes.len();
    let mut i: usize = 0;
    if n > 0 && bytes[0] == 43u8 {
        i = 1;
    }
    let start = i;
    let ghost d = unsigned_part(s);
    assert(d =~= s.subrange(start as int, n as int));
    if start == n {
        assert(d.len() == 0);
        return None;
    }
    let mut value: u64 = 0;
    let mut over = false;
    while i < n
        invariant
            start <= i <= n,
            n == s.len(),
            bytes@ == Seq::new(s.len(), |k: int| s[k] as u8),
            forall|k: int| 0 <= k < s.len() ==> '\0' <= #[trigger] s[k] <= '\u{7f}',
            s == trimmed(text@),
            d == unsigned_part(s),
            d == s.subrange(start as int, n as int),
            forall|k: int| start <= k < i ==> is_digit(#[trigger] s[k]),
            !over ==> value == digits_value(s.subrange(start as int, i as int)) && value
                <= u32::MAX,
            over ==> digits_value(s.subrange(start as int, i as int)) > u32::MAX,
        decreases n - i,
    {
        let b = bytes[i];
        let ghost c = s[i as int];
        assert(b == c as u8);
        assert(c as u32 <= 0x7f);
        assert((c as u8) as int == c as int);
        if b < 48u8 || b > 57u8 {
            proof {
                assert(d[i - start] == c);
                assert(!is_digit(d[i - start]));
            }
            return None;
        }
        let ghost prefix = s.subrange(start as int, i + 1);
        assert(prefix.drop_last() =~= s.subrange(start as int, i as int));
        assert(prefix.last() == c);
        if !over {
            let v = value * 10 + (b - 48u8) as u64;
            if v > u32::MAX as u64 {
                over = true;
            } else {
                value = v;
            }
        }
        i = i + 1;
    }
    proof {
        assert(s.subrange(start as int, n as int) == d);
        assert forall|k: int| 0 <= k < d.len() implies is_digit(#[trigger] d[k]) by {
            assert(d[k] == s[start + k]);
        }
    }
    if over {
        None
    } else {
        Some(value as u32)
    }
}

} // verus!
