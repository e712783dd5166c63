use vstd::prelude::*;
use vstd::string::StrSliceExecFns;

use crate::error::Error;

verus! {

/// The outcome of command-line parsing, as contracts speak of it: the three
/// recognized flags and the positional source file list.
pub ghost struct ParsedArgs {
    pub show_help: bool,
    pub replace: bool,
    pub quiet: bool,
    pub files: Seq<Seq<char>>,
}

/// The parsed command line: recognized flags, and the explicit source file
/// list given as positional arguments (empty when none were given).
#[derive(Debug)]
pub struct Args {
    pub show_help: bool,
    pub replace: bool,
    pub quiet: bool,
    pub files: Vec<String>,
}

impl View for Args {
    type V = ParsedArgs;

    open spec fn view(&self) -> ParsedArgs {
        ParsedArgs {
            show_help: self.show_help,
            replace: self.replace,
            quiet: self.quiet,
            files: self.files.deep_view(),
        }
    }
}

/// A parse outcome with no flag set and the given file list.
pub open spec fn default_args(files: Seq<Seq<char>>) -> ParsedArgs {
    ParsedArgs { show_help: false, replace: false, quiet: false, files }
}

/// Folds flags seen so far into the outcome of parsing the remaining
/// arguments; an error from the remainder wins, as parsing stops there.
pub open spec fn or_flags(h: bool, r: bool, q: bool, rest: Result<ParsedArgs, Seq<char>>) -> Result<
    ParsedArgs,
    Seq<char>,
> {
    match rest {
        Ok(p) => Ok(
            ParsedArgs {
                show_help: h || p.show_help,
                replace: r || p.replace,
                quiet: q || p.quiet,
                files: p.files,
            },
        ),
        Err(f) => Err(f),
    }
}

/// What parsing the argument list yields.  Flags may appear in any order
/// and accumulate until the list ends, a bare `--` ends flag parsing (all
/// later tokens are literal file paths), any other token starting with `-`
/// is an unknown option (the error holds it), and the first ordinary token
/// starts the file list, which runs to the end of the arguments.
pub open spec fn parse_spec(argv: Seq<Seq<char>>) -> Result<ParsedArgs, Seq<char>>
    decreases argv.len(),
{
    if argv.len() == 0 {
        Ok(default_args(Seq::empty()))
    } else {
        let a = argv[0];
        let rest = argv.skip(1);
        if a == "-h"@ || a == "--help"@ {
            or_flags(true, false, false, parse_spec(rest))
        } else if a == "-r"@ || a == "--replace"@ {
            or_flags(false, true, false, parse_spec(rest))
        } else if a == "-q"@ || a == "--quiet"@ {
            or_flags(false, false, true, parse_spec(rest))
        } else if a == "--"@ {
            Ok(default_args(rest))
        } else if a.len() > 0 && a[0] == '-' {
            Err(a)
        } else {
            Ok(default_args(argv))
        }
    }
}

/// A fresh vector holding `argv[from..to]`.
fn copy_strings(argv: &Vec<String>, from: usize, to: usize) -> (r: Vec<String>)
    requires
        from <= to <= argv@.len(),
    ensures
        r.deep_view() == argv.deep_view().subrange(from as int, to as int),
{
    let mut out: Vec<String> = Vec::new();
    let mut i: usize = from;
    proof {
        assert(out.deep_view() =~~= argv.deep_view().subrange(from as int, from as int));
    }
    while i < to
        invariant
            from <= i <= to <= argv@.len(),
            out.deep_view() == argv.deep_view().subrange(from as int, i as int),
        decreases to - i,
    {
        let ghost prev = out.deep_view();
        out.push(argv[i].clone());
        proof {
            assert(out.deep_view() =~~= prev.push(argv.deep_view()[i as int]));
            assert(prev.push(argv.deep_view()[i as int]) =~~= argv.deep_view().subrange(
                from as int,
                i + 1,
            ));
        }
        i = i + 1;
    }
    out
}

/// Parses the command line (without the program's own name).  Returns the
/// parsed arguments, or `UnknownOption` holding the offending token; in the
/// error case parsing has aborted before any I/O.
pub fn parse_args(argv: &Vec<String>) -> (r: Result<Args, Error>)
    ensures
        r matches Ok(a) ==> parse_spec(argv.deep_view()) == Ok::<ParsedArgs, Seq<char>>(a@),
        r matches Err(e) ==> (e matches Error::UnknownOption(f) && parse_spec(argv.deep_view())
            == Err::<ParsedArgs, Seq<char>>(f@)),
{
    let flag_h = "-h".to_owned();
    let flag_help = "--help".to_owned();
    let flag_r = "-r".to_owned();
    let flag_replace = "--replace".to_owned();
    let flag_q = "-q".to_owned();
    let flag_quiet = "--quiet".to_owned();
    let flag_end = "--".to_owned();
    let mut show_help = false;
    let mut replace = false;
    let mut quiet = false;
    let ghost full = argv.deep_view();
    let mut i: usize = 0;
    proof {
        assert(full.skip(0) =~~= full);
    }
    while i < argv.len()
        invariant
            i <= argv@.len(),
            full == argv.deep_view(),
            flag_h@ == "-h"@,
            flag_help@ == "--help"@,
            flag_r@ == "-r"@,
            flag_replace@ == "--replace"@,
            flag_q@ == "-q"@,
            flag_quiet@ == "--quiet"@,
            flag_end@ == "--"@,
            parse_spec(full) == or_flags(show_help, replace, quiet, parse_spec(full.skip(i as int))),
        decreases argv@.len() - i,
    {
        let a = &argv[i];
        proof {
            assert(full.skip(i as int)[0] == full[i as int]);
            assert(full[i as int] == argv@[i as int]@);
            assert(full.skip(i as int).skip(1) =~~= full.skip(i + 1));
        }
        if *a == flag_h || *a == flag_help {
            show_help = true;
        } else if *a == flag_r || *a == flag_replace {
            replace = true;
        } else if *a == flag_q || *a == flag_quiet {
            quiet = true;
        } else if *a == flag_end {
            let files = copy_strings(argv, i + 1, argv.len());
            proof {
                assert(files.deep_view() =~~= full.skip(i + 1));
            }
            return Ok(Args { show_help, replace, quiet, files });
        } else if !a.as_str().is_empty() && a.as_str().get_char(0) == '-' {
            return Err(Error::UnknownOption(a.clone()));
        } else {
            let files = copy_strings(argv, i, argv.len());
            proof {
                assert(files.deep_view() =~~= full.skip(i as int));
            }
            return Ok(Args { show_help, replace, quiet, files });
        }
        i = i + 1;
    }
    let files: Vec<String> = Vec::new();
    proof {
        assert(full.skip(i as int) =~~= Seq::<Seq<char>>::empty());
        assert(files.deep_view() =~~= Seq::<Seq<char>>::empty());
    }
    Ok(Args { show_help, replace, quiet, files })
}

} // verus!
