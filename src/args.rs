//! Command-line arguments: `PROGRAM [-n LEN] FILE`.
use vstd::prelude::*;
use vstd::string::*;

verus! {

/// Whether `c` is an ASCII decimal digit.
pub open spec fn is_digit(c: char) -> bool {
    '0' <= c && c <= '9'
}

/// The value of the decimal digit `c`.
pub open spec fn digit_value(c: char) -> nat {
    (c as u32 - '0' as u32) as nat
}

/// The value of a string of decimal digits, most significant first.
pub open spec fn decimal_value(s: Seq<char>) -> nat
    decreases s.len(),
{
    if s.len() == 0 {
        0
    } else {
        decimal_value(s.drop_last()) * 10 + digit_value(s.last())
    }
}

/// The digits of an unsigned number: the text after one optional leading `+`.
pub open spec fn unsigned_digits(s: Seq<char>) -> Seq<char> {
    if s.len() > 0 && s[0] == '+' {
        s.drop_first()
    } else {
        s
    }
}

/// `s` read as a `u64` the way `str::parse` reads one: an optional `+`, then
/// one or more decimal digits and nothing else, of a value that fits.
pub open spec fn u64_value(s: Seq<char>) -> Option<u64> {
    let d = unsigned_digits(s);
    if d.len() > 0 && (forall|i: int| 0 <= i < d.len() ==> is_digit(#[trigger] d[i]))
        && decimal_value(d) <= u64::MAX {
        Some(decimal_value(d) as u64)
    } else {
        None
    }
}

/// A prefix of a digit string is worth no more than the whole.
proof fn lemma_decimal_value_prefix(s: Seq<char>, i: int)
    requires
        0 <= i <= s.len(),
        forall|k: int| 0 <= k < s.len() ==> is_digit(#[trigger] s[k]),
    ensures
        decimal_value(s.take(i)) <= decimal_value(s),
    decreases s.len(),
{
    if i < s.len() {
        let t = s.drop_last();
        assert(s.take(i) =~= t.take(i));
        assert forall|k: int| 0 <= k < t.len() implies is_digit(#[trigger] t[k]) by {
            assert(t[k] == s[k]);
        }
        lemma_decimal_value_prefix(t, i);
    } else {
        assert(s.take(i) =~= s);
    }
}

/// Reads a length argument as a `u64`.
pub fn parse_length(s: &String) -> (r: Option<u64>)
    ensures
        r == u64_value(s@),
{
    let text = s.as_str();
    let n = text.unicode_len();
    let mut start: usize = 0;
    if n > 0 && text.get_char(0) == '+' {
        start = 1;
    }
    let ghost d = unsigned_digits(s@);
    assert(d =~= s@.subrange(start as int, n as int));
    if start == n {
        return None;
    }
    let mut v: u64 = 0;
    let mut i: usize = start;
    while i < n
        invariant
            text@ == s@,
            n == s@.len(),
            start <= i <= n,
            d == s@.subrange(start as int, n as int),
            d == unsigned_digits(s@),
            forall|k: int| start <= k < i ==> is_digit(#[trigger] s@[k]),
            v == decimal_value(d.take(i - start)),
        decreases n - i,
    {
        let c = text.get_char(i);
        if !('0' <= c && c <= '9') {
            assert(d[i - start] == s@[i as int]);
            assert(!(forall|k: int| 0 <= k < d.len() ==> is_digit(#[trigger] d[k])));
            return None;
        }
        let digit = (c as u32 - '0' as u32) as u64;
        assert(d.take(i + 1 - start).drop_last() =~= d.take(i - start));
        assert(d.take(i + 1 - start).last() == c);
        assert(decimal_value(d.take(i + 1 - start)) == v * 10 + digit);
        let next = match v.checked_mul(10) {
            Some(t) => t.checked_add(digit),
            None => None,
        };
        match next {
            Some(w) => {
                v = w;
            },
            None => {
                proof {
                    if forall|k: int| 0 <= k < d.len() ==> is_digit(#[trigger] d[k]) {
                        lemma_decimal_value_prefix(d, i + 1 - start);
                    }
                }
                return None;
            },
        }
        i = i + 1;
    }
    assert(d.take(n - start) =~= d);
    assert forall|k: int| 0 <= k < d.len() implies is_digit(#[trigger] d[k]) by {
        assert(d[k] == s@[k + start]);
    }
    Some(v)
}

/// The usage line for `program_name`.
pub open spec fn usage_text(program_name: Seq<char>) -> Seq<char> {
    "Usage: "@ + program_name + " [-n LEN] FILE"@
}

/// The message for a length argument `arg` that is not a number.
pub open spec fn invalid_length_text(program_name: Seq<char>, arg: Seq<char>) -> Seq<char> {
    "Invalid length: "@ + arg + "\n"@ + usage_text(program_name)
}

/// The message when no argument at all is given, not even the program name.
pub open spec fn no_arguments_text() -> Seq<char> {
    "Error"@
}

/// Reads `args` from index `i` on, with the length and file path found so far:
/// `-n` takes the next argument as the length (a later one replaces an
/// earlier), and the first other argument is the file path.
pub open spec fn scan_args(
    program_name: Seq<char>,
    args: Seq<Seq<char>>,
    i: int,
    len: Option<u64>,
    file_path: Option<Seq<char>>,
) -> Result<(Option<u64>, Option<Seq<char>>), Seq<char>>
    decreases args.len() - i,
{
    if i < 0 || i >= args.len() {
        Ok((len, file_path))
    } else if args[i] == "-n"@ {
        if i + 1 >= args.len() {
            Err(usage_text(program_name))
        } else {
            match u64_value(args[i + 1]) {
                Some(v) => scan_args(program_name, args, i + 2, Some(v), file_path),
                None => Err(invalid_length_text(program_name, args[i + 1])),
            }
        }
    } else {
        scan_args(
            program_name,
            args,
            i + 1,
            len,
            if file_path is None {
                Some(args[i])
            } else {
                file_path
            },
        )
    }
}

/// The outcome of parsing `args`, the program name first: the program name,
/// the length limit and the file path, or the error message.
pub open spec fn parse_outcome(args: Seq<Seq<char>>) -> Result<
    (Seq<char>, Option<u64>, Seq<char>),
    Seq<char>,
> {
    if args.len() == 0 {
        Err(no_arguments_text())
    } else {
        match scan_args(args[0], args, 1, None, None) {
            Err(e) => Err(e),
            Ok((len, None)) => Err(usage_text(args[0])),
            Ok((len, Some(file_path))) => Ok((args[0], len, file_path)),
        }
    }
}

/// The parsed command line.
pub struct Args {
    program_name: String,
    len: Option<u64>,
    file_path: String,
}

impl View for Args {
    type V = (Seq<char>, Option<u64>, Seq<char>);

    closed spec fn view(&self) -> (Seq<char>, Option<u64>, Seq<char>) {
        (self.program_name@, self.len, self.file_path@)
    }
}

impl Args {
    fn usage_message(program_name: &String) -> (r: String)
        ensures
            r@ == usage_text(program_name@),
    {
        let mut r = String::from_str("Usage: ");
        r.append(program_name.as_str());
        r.append(" [-n LEN] FILE");
        r
    }

    /// Parses the command line, the program name first.
    pub fn parse(args: Vec<String>) -> (r: Result<Args, String>)
        ensures
            match r {
                Ok(a) => parse_outcome(args@.map_values(|s: String| s@)) == Ok::<
                    (Seq<char>, Option<u64>, Seq<char>),
                    Seq<char>,
                >(a@),
                Err(e) => parse_outcome(args@.map_values(|s: String| s@)) == Err::<
                    (Seq<char>, Option<u64>, Seq<char>),
                    Seq<char>,
                >(e@),
            },
    {
        let ghost views = args@.map_values(|s: String| s@);
        if args.len() == 0 {
            return Err(String::from_str("Error"));
        }
        let program_name = args[0].clone();
        let flag = String::from_str("-n");
        let mut len: Option<u64> = None;
        let mut file_path: Option<String> = None;
        let mut i: usize = 1;
        while i < args.len()
            invariant
                views == args@.map_values(|s: String| s@),
                program_name@ == views[0],
                flag@ == "-n"@,
                1 <= i <= args.len(),
                scan_args(views[0], views, 1, None, None) == scan_args(
                    views[0],
                    views,
                    i as int,
                    len,
                    match file_path {
                        Some(f) => Some(f@),
                        None => None,
                    },
                ),
            decreases args.len() - i,
        {
            if args[i] == flag {
                if i + 1 >= args.len() {
                    return Err(Self::usage_message(&program_name));
                }
                match parse_length(&args[i + 1]) {
                    Some(v) => {
                        len = Some(v);
                    },
                    None => {
                        let mut e = String::from_str("Invalid length: ");
                        e.append(args[i + 1].as_str());
                        e.append("\n");
                        let usage = Self::usage_message(&program_name);
                        e.append(usage.as_str());
                        return Err(e);
                    },
                }
                i = i + 2;
            } else {
                if file_path.is_none() {
                    file_path = Some(args[i].clone());
                }
                i = i + 1;
            }
        }
        match file_path {
            Some(f) => Ok(Args { program_name, len, file_path: f }),
            None => Err(Self::usage_message(&program_name)),
        }
    }

    /// The file to dump.
    pub fn file_path(&self) -> (r: &str)
        ensures
            r@ == self@.2,
    {
        self.file_path.as_str()
    }

    /// The name the program was run under.
    pub fn program_name(&self) -> (r: &str)
        ensures
            r@ == self@.0,
    {
        self.program_name.as_str()
    }

    /// The most bytes to read, where `-n` gave a limit.
    pub fn byte_limit(&self) -> (r: Option<u64>)
        ensures
            r == self@.1,
    {
        self.len
    }
}

} // verus!
