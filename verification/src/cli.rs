//! The command line: `[PATH] [--top N]`, `-h`/`--help`.
use vstd::prelude::*;

verus! {

/// How many entries each section of the report shows unless `--top` says otherwise.
pub const DEFAULT_TOP: usize = 15;

/// What the command line asks for.
#[derive(Debug, PartialEq, Eq)]
pub enum Command {
    /// Show the usage text.
    Help,
    /// Scan a path.
    Run(Config),
}

/// The settings of a scan.
#[derive(Debug, PartialEq, Eq)]
pub struct Config {
    /// The path to scan.
    pub root: String,
    /// How many entries each section of the report shows.
    pub top: usize,
}

/// Whether every character is an ASCII decimal digit.
pub open spec fn all_digits(s: Seq<char>) -> bool {
    forall|i: int| 0 <= i < s.len() ==> '0' <= #[trigger] s[i] && s[i] <= '9'
}

/// The value of a string of decimal digits.
pub open spec fn digits_value(s: Seq<char>) -> nat
    decreases s.len(),
{
    if s.len() == 0 {
        0
    } else {
        digits_value(s.drop_last()) * 10 + ((s.last() as nat) - 48) as nat
    }
}

/// What `usize::from_str` makes of `s`: digits, optionally after one `+`,
/// at least one of them, with a value that fits in a `usize`.
pub open spec fn parsed_usize(s: Seq<char>) -> Option<nat> {
    let digits = if s.len() > 0 && s[0] == '+' {
        s.drop_first()
    } else {
        s
    };
    if digits.len() > 0 && all_digits(digits) && digits_value(digits) <= usize::MAX {
        Some(digits_value(digits))
    } else {
        None
    }
}

/// What the command line `args[i..]` gives, where the earlier arguments set
/// the path to `root` (if any) and the count to `top`, and `cwd` is the
/// current directory or the message saying why it is not known.
pub open spec fn parse_outcome(
    args: Seq<String>,
    i: nat,
    root: Option<String>,
    top: usize,
    cwd: Result<String, String>,
) -> Result<Command, Seq<char>>
    decreases args.len() - i,
{
    if i >= args.len() {
        match cwd {
            Err(message) => Err(message@),
            Ok(dir) => Ok(
                Command::Run(
                    Config {
                        root: match root {
                            Some(r) => r,
                            None => dir,
                        },
                        top,
                    },
                ),
            ),
        }
    } else {
        let arg = args[i as int]@;
        if arg == "-h"@ || arg == "--help"@ {
            Ok(Command::Help)
        } else if arg == "-n"@ || arg == "--top"@ {
            if i + 1 >= args.len() {
                Err(arg + " requires a number"@)
            } else {
                match parsed_usize(args[i + 1int]@) {
                    None => Err(arg + " requires a positive number"@),
                    Some(v) => if v == 0 {
                        Err(arg + " requires a number greater than zero"@)
                    } else {
                        parse_outcome(args, i + 2, root, v as usize, cwd)
                    },
                }
            }
        } else if arg.len() > 0 && arg[0] == '-' {
            Err("unknown option: "@ + arg)
        } else if root is Some {
            Err("only one scan path is supported"@)
        } else {
            parse_outcome(args, i + 1, Some(args[i as int]), top, cwd)
        }
    }
}

/// What `parse_args` gives for `args` and `cwd`.
pub open spec fn parsed_command(args: Seq<String>, cwd: Result<String, String>) -> Result<Command, Seq<char>> {
    parse_outcome(args, 0, None, DEFAULT_TOP, cwd)
}

/// Whether a result of `parse_args` is the spec result `s`.
pub open spec fn same_outcome(r: Result<Command, String>, s: Result<Command, Seq<char>>) -> bool {
    match (r, s) {
        (Ok(a), Ok(b)) => a == b,
        (Err(e), Err(m)) => e@ == m,
        _ => false,
    }
}

/// Parses a count the way `usize::from_str` does.
pub fn parse_usize(s: &str) -> (r: Option<usize>)
    ensures
        match parsed_usize(s@) {
            Some(v) => r == Some(v as usize),
            None => r is None,
        },
{
    let chars = crate::text::chars_of(s);
    let start: usize = if chars.len() > 0 && chars[0] == '+' { 1 } else { 0 };
    let ghost digits = if s@.len() > 0 && s@[0] == '+' { s@.drop_first() } else { s@ };
    assert(digits =~= chars@.subrange(start as int, chars@.len() as int));
    if start == chars.len() {
        return None;
    }
    let n = chars.len();
    let mut k: usize = start;
    while k < n
        invariant
            start <= k <= n,
            n == chars@.len(),
            chars@ == s@,
            digits == chars@.subrange(start as int, n as int),
            digits == (if s@.len() > 0 && s@[0] == '+' { s@.drop_first() } else { s@ }),
            forall|m: int| start <= m < k ==> '0' <= #[trigger] chars@[m] && chars@[m] <= '9',
        decreases n - k,
    {
        if chars[k] < '0' || chars[k] > '9' {
            assert(!all_digits(digits)) by {
                assert(digits[k - start] == chars@[k as int]);
            }
            assert(parsed_usize(s@) is None);
            return None;
        }
        k = k + 1;
    }
    assert(all_digits(digits));
    let mut value: usize = 0;
    let mut i: usize = start;
    while i < n
        invariant
            start <= i <= n,
            n == chars@.len(),
            chars@ == s@,
            digits == chars@.subrange(start as int, n as int),
            digits == (if s@.len() > 0 && s@[0] == '+' { s@.drop_first() } else { s@ }),
            all_digits(digits),
            value == digits_value(digits.subrange(0, i - start)),
        decreases n - i,
    {
        let c = chars[i];
        assert(c == digits[i - start]);
        assert(digits.subrange(0, i - start + 1).drop_last() =~= digits.subrange(0, i - start));
        let d: usize = ((c as u32) - 48) as usize;
        if value > (usize::MAX - d) / 10 {
            proof {
                assert(digits.subrange(0, digits.len() as int) =~= digits);
                lemma_digits_value_prefix(digits, (i - start) as nat, digits.len());
                assert(d == (digits[i - start] as nat) - 48);
                assert(digits_value(digits) >= value * 10 + d);
                assert(value * 10 + d > usize::MAX) by (nonlinear_arith)
                    requires
                        value > (usize::MAX - d) / 10,
                        d <= 9,
                ;
            }
            return None;
        }
        assert(value * 10 + d <= usize::MAX) by (nonlinear_arith)
            requires
                value <= (usize::MAX - d) / 10,
                d <= 9,
        ;
        value = value * 10 + d;
        i = i + 1;
    }
    assert(digits.subrange(0, n - start) =~= digits);
    Some(value)
}

/// A longer prefix of digits has at least the value of a shorter one.
proof fn lemma_digits_value_prefix(s: Seq<char>, i: nat, j: nat)
    requires
        i <= j <= s.len(),
        all_digits(s),
    ensures
        digits_value(s.subrange(0, i as int)) <= digits_value(s.subrange(0, j as int)),
        i < j ==> digits_value(s.subrange(0, i as int)) * 10 + ((s[i as int] as nat) - 48) as nat
            <= digits_value(s.subrange(0, j as int)),
    decreases j - i,
{
    if i < j {
        lemma_digits_value_prefix(s, i + 1, j);
        let p = s.subrange(0, i + 1int);
        assert(p.drop_last() =~= s.subrange(0, i as int));
    }
}

/// A `String` holding the text of a literal.
fn string_from(lit: &str) -> (r: String)
    ensures
        r@ == lit@,
{
    let mut r = String::new();
    r.append(lit);
    assert(r@ =~= lit@);
    r
}

/// Reads the command line `args` (without the program name). `cwd` is the
/// current directory, or the message saying why it could not be found; it
/// is the path scanned when `args` names none, and its error is the result
/// whenever no other result comes first.
pub fn parse_args(args: Vec<String>, cwd: Result<String, String>) -> (r: Result<Command, String>)
    ensures
        same_outcome(r, parsed_command(args@, cwd)),
{
    let mut root: Option<String> = None;
    let mut top: usize = DEFAULT_TOP;
    let mut i: usize = 0;
    let n = args.len();
    while i < n
        invariant
            n == args@.len(),
            i <= n,
            parse_outcome(args@, i as nat, root, top, cwd) == parsed_command(args@, cwd),
        decreases n - i,
    {
        let arg = &args[i];
        let a = crate::text::chars_of(arg.as_str());
        if crate::text::chars_equal_str(a.as_slice(), "-h") || crate::text::chars_equal_str(
            a.as_slice(),
            "--help",
        ) {
            return Ok(Command::Help);
        }
        if crate::text::chars_equal_str(a.as_slice(), "-n") || crate::text::chars_equal_str(
            a.as_slice(),
            "--top",
        ) {
            if i + 1 >= n {
                let mut message = arg.clone();
                message.append(" requires a number");
                return Err(message);
            }
            match parse_usize(args[i + 1].as_str()) {
                None => {
                    let mut message = arg.clone();
                    message.append(" requires a positive number");
                    return Err(message);
                },
                Some(v) => {
                    if v == 0 {
                        let mut message = arg.clone();
                        message.append(" requires a number greater than zero");
                        return Err(message);
                    }
                    top = v;
                    i = i + 2;
                },
            }
        } else if a.len() > 0 && a[0] == '-' {
            let mut message = string_from("unknown option: ");
            message.append(arg.as_str());
            return Err(message);
        } else if root.is_some() {
            return Err(string_from("only one scan path is supported"));
        } else {
            root = Some(arg.clone());
            i = i + 1;
        }
    }
    match cwd {
        Err(message) => Err(message),
        Ok(dir) => {
            let root = match root {
                Some(r) => r,
                None => dir,
            };
            Ok(Command::Run(Config { root, top }))
        },
    }
}

/// The usage text for the program named `program`.
pub open spec fn usage_text(program: Seq<char>) -> Seq<char> {
    "Usage: "@ + program + " [PATH] [--top N]\n\nRecursively scans PATH and reports the largest files, largest directories,\nlikely cleanup candidates, and directories that could not be accessed.\n\nExamples:\n"@
        + program + " C:\\ --top 25\n"@ + program
        + " \"%LOCALAPPDATA%\\Temp\"\n\nThis tool is read-only. It reports cleanup candidates but never deletes files."@
}

/// The usage text for the program named `program`.
pub fn usage(program: &str) -> (r: String)
    ensures
        r@ == usage_text(program@),
{
    let mut r = string_from("Usage: ");
    r.append(program);
    r.append(
        " [PATH] [--top N]\n\nRecursively scans PATH and reports the largest files, largest directories,\nlikely cleanup candidates, and directories that could not be accessed.\n\nExamples:\n",
    );
    r.append(program);
    r.append(" C:\\ --top 25\n");
    r.append(program);
    r.append(
        " \"%LOCALAPPDATA%\\Temp\"\n\nThis tool is read-only. It reports cleanup candidates but never deletes files.",
    );
    r
}

/// Whether an argument is the option that sets the count.
pub open spec fn is_top_option(a: Seq<char>) -> bool {
    a == "-n"@ || a == "--top"@
}

/// Whether the count `top` is what the options among `args[from..]` leave:
/// the value after the last `-n`/`--top` there, or `default` when there is
/// none.
pub open spec fn top_from_options(args: Seq<String>, from: int, default: usize, top: usize) -> bool {
    ||| exists|k: int|
        #![trigger is_top_option(args[k]@)]
        from <= k && k + 1 < args.len() && is_top_option(args[k]@) && parsed_usize(args[k + 1]@)
            == Some(top as nat) && forall|j: int| k < j < args.len() ==> !is_top_option(#[trigger] args[j]@)
    ||| (forall|j: int| from <= j < args.len() ==> !is_top_option(#[trigger] args[j]@)) && top == default
}

/// A value that parses as a count is not the count option.
proof fn lemma_count_is_not_option(a: Seq<char>)
    requires
        parsed_usize(a) is Some,
    ensures
        !is_top_option(a),
{
    reveal_strlit("-n");
    reveal_strlit("--top");
    if a == "-n"@ || a == "--top"@ {
        assert(a[0] == '-');
        let digits = if a.len() > 0 && a[0] == '+' { a.drop_first() } else { a };
        assert(digits == a);
        assert(!('0' <= digits[0] && digits[0] <= '9'));
    }
}

/// The count that parsing from `args[i]` on gives is what the options from
/// there leave, starting from the count `top` set so far.
proof fn lemma_top_from(args: Seq<String>, i: nat, root: Option<String>, top: usize, cwd: Result<String, String>)
    ensures
        parse_outcome(args, i, root, top, cwd) matches Ok(Command::Run(c)) ==> top_from_options(
            args,
            i as int,
            top,
            c.top,
        ),
    decreases args.len() - i,
{
    if i < args.len() {
        let arg = args[i as int]@;
        if arg == "-h"@ || arg == "--help"@ {
        } else if is_top_option(arg) {
            if i + 1 < args.len() {
                match parsed_usize(args[i + 1int]@) {
                    Some(v) => {
                        if v != 0 {
                            lemma_top_from(args, i + 2, root, v as usize, cwd);
                            lemma_count_is_not_option(args[i + 1int]@);
                            if let Ok(Command::Run(c)) = parse_outcome(args, i, root, top, cwd) {
                                if !(exists|k: int|
                                    #![trigger is_top_option(args[k]@)]
                                    i + 2 <= k && k + 1 < args.len() && is_top_option(args[k]@)
                                        && parsed_usize(args[k + 1]@) == Some(c.top as nat)
                                        && forall|j: int| k < j < args.len() ==> !is_top_option(#[trigger] args[j]@)) {
                                    assert(is_top_option(args[i as int]@));
                                    assert forall|j: int| i < j < args.len() implies !is_top_option(#[trigger] args[j]@) by {
                                        if j == i + 1 {
                                        }
                                    }
                                }
                            }
                        }
                    },
                    None => {},
                }
            }
        } else if arg.len() > 0 && arg[0] == '-' {
        } else if root is Some {
        } else {
            lemma_top_from(args, i + 1, Some(args[i as int]), top, cwd);
            reveal_strlit("-n");
            reveal_strlit("--top");
            assert(!is_top_option(arg)) by {
                if is_top_option(arg) {
                    assert(arg[0] == '-');
                }
            }
        }
    }
}

/// The count of a scan is the value after the last `-n`/`--top` option,
/// wherever it stands among the other arguments, or the default count when
/// there is no such option.
pub proof fn lemma_top_is_last_option(args: Seq<String>, cwd: Result<String, String>)
    ensures
        parsed_command(args, cwd) matches Ok(Command::Run(c)) ==> top_from_options(
            args,
            0,
            DEFAULT_TOP,
            c.top,
        ),
{
    lemma_top_from(args, 0, None, DEFAULT_TOP, cwd);
}

} // verus!
