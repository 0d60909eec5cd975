//! Reading the command line: `-j <threads> <target>`, or a help flag.
use vstd::prelude::*;

verus! {

/// Whether `c` is an ASCII decimal digit.
pub open spec fn is_digit(c: char) -> bool {
    '0' <= c && c <= '9'
}

/// The number that the decimal digits `s` write.
pub open spec fn digits_value(s: Seq<char>) -> int
    decreases s.len(),
{
    if s.len() == 0 {
        0
    } else {
        digits_value(s.drop_last()) * 10 + (s.last() as int - '0' as int)
    }
}

/// The digits of a thread count: an optional leading `+` is dropped.
pub open spec fn unsigned_digits(s: Seq<char>) -> Seq<char> {
    if s.len() > 0 && s[0] == '+' {
        s.drop_first()
    } else {
        s
    }
}

/// The 16-bit unsigned integer that `s` writes in decimal, as Rust's integer
/// parsing reads it: an optional `+`, then one or more digits, with a value
/// of at most 65535.
pub open spec fn parse_u16_spec(s: Seq<char>) -> Option<u16> {
    let d = unsigned_digits(s);
    if d.len() > 0 && (forall|k: int| 0 <= k < d.len() ==> is_digit(#[trigger] d[k]))
        && digits_value(d) <= 65535 {
        Some(digits_value(d) as u16)
    } else {
        None
    }
}

/// Whether `needle` occurs in `hay` as a contiguous run.
pub open spec fn has_substring(hay: Seq<char>, needle: Seq<char>) -> bool {
    exists|i: int|
        0 <= i && i + needle.len() <= hay.len() && #[trigger] hay.subrange(i, i + needle.len())
            == needle
}

/// The short help flag.
pub open spec fn help_short() -> Seq<char> {
    seq!['-', 'h']
}

/// The long help flag.
pub open spec fn help_long() -> Seq<char> {
    seq!['-', '-', 'h', 'e', 'l', 'p']
}

/// The thread-count flag.
pub open spec fn threads_flag() -> Seq<char> {
    seq!['-', 'j']
}

/// Whether a flag asks for the usage text.
pub open spec fn is_help(flag: Seq<char>) -> bool {
    has_substring(flag, help_short()) || has_substring(flag, help_long())
}

/// Why a command line was refused.
#[derive(Clone, Copy, Debug, PartialEq, Eq, Structural)]
pub enum ArgError {
    /// No token follows the program name.
    NotEnoughArguments,
    /// More than four tokens follow the program name.
    TooManyArguments,
    /// The token after `-j` is missing or is no 16-bit unsigned integer.
    BadThreadCount,
    /// The first token is neither a help flag nor `-j`.
    UnrecognizedFlag,
}

impl ArgError {
    /// A sentence for the operator.
    pub fn message(&self) -> &'static str {
        match self {
            ArgError::NotEnoughArguments => "Not enough arguments",
            ArgError::TooManyArguments => "Too many arguments",
            ArgError::BadThreadCount => "Failed to parse number of threads",
            ArgError::UnrecognizedFlag => "Something is wrong with arguments, call with the -h flag for help",
        }
    }
}

/// A command line that asks for a scan.
pub struct Arguments {
    /// The host to scan, as written: an address or a host name.
    pub target: String,
    /// How many workers share the port space.
    pub threads: u16,
}

/// What a command line asks for.
pub enum ArgsOutcome {
    /// A scan of `target` with `threads` workers.
    ParsedOk(Arguments),
    /// The usage text, and nothing more.
    HelpRequested,
    /// Nothing: the command line is wrong.
    InvalidArguments(ArgError),
}

/// The usage text printed for a help flag.
pub fn usage() -> (r: &'static str) {
    "Usage:\r\n-j to select how many threads you want\r\n-h or --help to show this help message"
}

impl Arguments {
    /// Reads a command line `args`, the program's name first: a help flag,
    /// or `-j <threads>`, with the target as the last token.
    pub fn new(args: &[String]) -> (r: ArgsOutcome)
        ensures
            args@.len() < 2 ==> r == ArgsOutcome::InvalidArguments(ArgError::NotEnoughArguments),
            args@.len() > 5 ==> r == ArgsOutcome::InvalidArguments(ArgError::TooManyArguments),
            2 <= args@.len() <= 5 && is_help(args@[1]@) ==> r is HelpRequested,
            2 <= args@.len() <= 5 && !is_help(args@[1]@) && has_substring(
                args@[1]@,
                threads_flag(),
            ) ==> match (if args@.len() >= 3 {
                parse_u16_spec(args@[2]@)
            } else {
                None
            }) {
                None => r == ArgsOutcome::InvalidArguments(ArgError::BadThreadCount),
                Some(t) => r matches ArgsOutcome::ParsedOk(a) && a.threads == t && a.target@
                    == args@[args@.len() - 1]@,
            },
            2 <= args@.len() <= 5 && !is_help(args@[1]@) && !has_substring(
                args@[1]@,
                threads_flag(),
            ) ==> r == ArgsOutcome::InvalidArguments(ArgError::UnrecognizedFlag),
    {
        if args.len() < 2 {
            return ArgsOutcome::InvalidArguments(ArgError::NotEnoughArguments);
        } else if args.len() > 5 {
            return ArgsOutcome::InvalidArguments(ArgError::TooManyArguments);
        }
        proof {
            reveal_strlit("-h");
            reveal_strlit("--help");
            reveal_strlit("-j");
            assert("-h"@ =~= help_short());
            assert("--help"@ =~= help_long());
            assert("-j"@ =~= threads_flag());
        }
        let flag = args[1].as_str();
        if contains(flag, "-h") || contains(flag, "--help") {
            return ArgsOutcome::HelpRequested;
        } else if contains(flag, "-j") {
            if args.len() < 3 {
                return ArgsOutcome::InvalidArguments(ArgError::BadThreadCount);
            }
            return match parse_u16(args[2].as_str()) {
                Some(threads) => {
                    let target = args[args.len() - 1].clone();
                    ArgsOutcome::ParsedOk(Arguments { target, threads })
                },
                None => ArgsOutcome::InvalidArguments(ArgError::BadThreadCount),
            };
        }
        ArgsOutcome::InvalidArguments(ArgError::UnrecognizedFlag)
    }
}

/// Whether `needle` occurs in `hay`.
pub fn contains(hay: &str, needle: &str) -> (r: bool)
    ensures
        r == has_substring(hay@, needle@),
{
    let h = chars_of(hay);
    let nd = chars_of(needle);
    if nd.len() > h.len() {
        return false;
    }
    let hl = h.len();
    let last = hl - nd.len();
    let mut i: usize = 0;
    while i <= last
        invariant
            h@ == hay@,
            nd@ == needle@,
            last == h@.len() - nd@.len(),
            hl == h@.len(),
            i <= last + 1,
            forall|s: int|
                0 <= s < i ==> #[trigger] hay@.subrange(s, s + needle@.len()) != needle@,
        decreases last + 1 - i,
    {
        let mut j: usize = 0;
        let mut same = true;
        while j < nd.len()
            invariant
                h@ == hay@,
                nd@ == needle@,
                i + nd@.len() <= h@.len(),
                hl == h@.len(),
                j <= nd@.len(),
                same == forall|k: int| 0 <= k < j ==> h@[i + k] == nd@[k],
            decreases nd@.len() - j,
        {
            if h[i + j] != nd[j] {
                same = false;
            }
            j = j + 1;
        }
        if same {
            assert(hay@.subrange(i as int, i + needle@.len()) =~= needle@);
            return true;
        }
        proof {
            let k = choose|k: int| 0 <= k < j && h@[i + k] != nd@[k];
            assert(hay@.subrange(i as int, i + needle@.len())[k] != needle@[k]);
        }
        i = i + 1;
    }
    proof {
        assert forall|s: int|
            0 <= s && s + needle@.len() <= hay@.len() implies #[trigger] hay@.subrange(
            s,
            s + needle@.len(),
        ) != needle@ by {
            assert(s < i);
        }
    }
    false
}

/// The 16-bit unsigned integer that `s` writes in decimal, or `None`.
pub fn parse_u16(s: &str) -> (r: Option<u16>)
    ensures
        r == parse_u16_spec(s@),
{
    let c = chars_of(s);
    let len = c.len();
    let start: usize = if len > 0 && c[0] == '+' { 1 } else { 0 };
    let ghost d = unsigned_digits(s@);
    assert(d =~= c@.subrange(start as int, len as int));
    if start == len {
        return None;
    }
    let mut val: u32 = 0;
    let mut k: usize = start;
    while k < len
        invariant
            c@ == s@,
            len == c@.len(),
            start <= k <= len,
            d == c@.subrange(start as int, len as int),
            d == unsigned_digits(s@),
            forall|m: int| 0 <= m < k - start ==> is_digit(#[trigger] d[m]),
            val as int == digits_value(d.take(k - start)),
            val <= 65535,
        decreases len - k,
    {
        let ch = c[k];
        assert(d[k - start] == ch);
        if !('0' <= ch && ch <= '9') {
            assert(!is_digit(d[k - start]));
            assert(parse_u16_spec(s@) is None);
            return None;
        }
        let ghost m = k - start;
        assert(d.take(m + 1).drop_last() =~= d.take(m));
        assert(d.take(m + 1).last() == ch);
        val = val * 10 + (ch as u32 - '0' as u32);
        assert(val as int == digits_value(d.take(m + 1)));
        if val > 65535 {
            proof {
                if forall|q: int| 0 <= q < d.len() ==> is_digit(#[trigger] d[q]) {
                    lemma_prefix_value(d, m + 1);
                }
                assert(parse_u16_spec(s@) is None);
            }
            return None;
        }
        k = k + 1;
    }
    assert(d.take(k - start) =~= d);
    Some(val as u16)
}

/// For a run of digits, a prefix never writes a larger number than the whole.
proof fn lemma_prefix_value(d: Seq<char>, m: int)
    requires
        0 <= m <= d.len(),
        forall|q: int| 0 <= q < d.len() ==> is_digit(#[trigger] d[q]),
    ensures
        digits_value(d.take(m)) <= digits_value(d),
    decreases d.len() - m,
{
    if m < d.len() {
        lemma_prefix_value(d, m + 1);
        assert(d.take(m + 1).drop_last() =~= d.take(m));
        assert(is_digit(d[m]));
        lemma_digits_nonneg(d.take(m));
    } else {
        assert(d.take(m) =~= d);
    }
}

proof fn lemma_digits_nonneg(d: Seq<char>)
    requires
        forall|q: int| 0 <= q < d.len() ==> is_digit(#[trigger] d[q]),
    ensures
        digits_value(d) >= 0,
    decreases d.len(),
{
    if d.len() > 0 {
        let e = d.drop_last();
        assert forall|q: int| 0 <= q < e.len() implies is_digit(#[trigger] e[q]) by {
            assert(e[q] == d[q]);
        }
        lemma_digits_nonneg(e);
        assert(is_digit(d[d.len() - 1]));
    }
}

/// The characters of `s`, one by one.
fn chars_of(s: &str) -> (r: Vec<char>)
    ensures
        r@ == s@,
{
    let len = s.unicode_len();
    let mut out: Vec<char> = Vec::new();
    let mut i: usize = 0;
    while i < len
        invariant
            len == s@.len(),
            i <= len,
            out@ == s@.subrange(0, i as int),
        decreases len - i,
    {
        out.push(s.get_char(i));
        i = i + 1;
        assert(out@ =~= s@.subrange(0, i as int));
    }
    assert(out@ =~= s@);
    out
}

} // verus!
