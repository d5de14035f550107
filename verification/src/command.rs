//! Command-line intent: what a list of arguments asks the program to do.

use vstd::prelude::*;

verus! {

/// A string argument marks an option when it begins with `-`.
pub open spec fn is_option_spec(s: Seq<char>) -> bool {
    s.len() > 0 && s[0] == '-'
}

/// The two paths a run works on: where the JSON object is read from and where
/// the `.env`-style lines are written to.
pub struct Args {
    pub input: String,
    pub output: String,
}

/// What a list of command-line arguments resolves to.
pub enum ParseOutcome {
    /// Print usage: no arguments at all, or `-h` / `--help` alone.
    Help,
    /// Print name and version: `-v` / `--version` alone.
    Version,
    /// A single argument that looks like an option but is none of the four known ones.
    UnexpectedOption,
    /// A single argument that is not an option: too few paths.
    InvalidArgs,
    /// Two or more arguments: the first two are the input and output paths.
    Run(Args),
}

/// Whether an argument looks like an option (begins with `-`).
pub fn is_option(arg: &str) -> (r: bool)
    ensures
        r == is_option_spec(arg@),
{
    if arg.unicode_len() == 0 {
        false
    } else {
        arg.get_char(0) == '-'
    }
}

/// Character-for-character string equality.
fn str_eq(a: &str, b: &str) -> (r: bool)
    ensures
        r == (a@ == b@),
{
    let na = a.unicode_len();
    let nb = b.unicode_len();
    if na != nb {
        return false;
    }
    let mut i: usize = 0;
    while i < na
        invariant
            na == a@.len(),
            na == b@.len(),
            i <= na,
            forall|j: int| 0 <= j < i ==> a@[j] == b@[j],
        decreases na - i,
    {
        if a.get_char(i) != b.get_char(i) {
            proof {
                if a@ == b@ {
                    assert(a@[i as int] == b@[i as int]);
                }
            }
            return false;
        }
        i += 1;
    }
    proof {
        assert(a@ =~= b@);
    }
    true
}

/// Resolves the process arguments (program name already removed) to an outcome:
/// no arguments or a lone `-h`/`--help` ask for usage, a lone `-v`/`--version`
/// for the version, any other lone option is unexpected, a lone non-option is
/// too few arguments, and with two or more arguments the first two are taken as
/// the input and output paths (the rest are ignored).
pub fn parse_args(args: &Vec<String>) -> (r: ParseOutcome)
    ensures
        args@.len() == 0 ==> r is Help,
        args@.len() == 1 && is_option_spec(args@[0]@) ==> {
            &&& (r is Version <==> (args@[0]@ == "-v"@ || args@[0]@ == "--version"@))
            &&& (r is Help <==> (args@[0]@ == "-h"@ || args@[0]@ == "--help"@))
            &&& (r is UnexpectedOption <==> !(args@[0]@ == "-v"@ || args@[0]@ == "--version"@
                || args@[0]@ == "-h"@ || args@[0]@ == "--help"@))
        },
        args@.len() == 1 && !is_option_spec(args@[0]@) ==> r is InvalidArgs,
        args@.len() >= 2 ==> (r matches ParseOutcome::Run(a)
            && a.input@ == args@[0]@ && a.output@ == args@[1]@),
{
    proof {
        reveal_strlit("-v");
        reveal_strlit("--version");
        reveal_strlit("-h");
        reveal_strlit("--help");
    }
    if args.len() == 0 {
        return ParseOutcome::Help;
    }
    if args.len() == 1 {
        let first = args[0].as_str();
        if is_option(first) {
            if str_eq(first, "-v") || str_eq(first, "--version") {
                proof {
                    assert("-v"@[1] != "-h"@[1]);
                    assert("-v"@.len() != "--help"@.len());
                    assert("--version"@.len() != "-h"@.len());
                    assert("--version"@.len() != "--help"@.len());
                }
                return ParseOutcome::Version;
            }
            if str_eq(first, "-h") || str_eq(first, "--help") {
                return ParseOutcome::Help;
            }
            return ParseOutcome::UnexpectedOption;
        }
        return ParseOutcome::InvalidArgs;
    }
    let input = args[0].clone();
    let output = args[1].clone();
    ParseOutcome::Run(Args { input, output })
}

} // verus!
