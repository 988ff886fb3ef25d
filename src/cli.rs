use vstd::prelude::*;
use crate::text::{decimal_u64, ends_with, has_prefix, has_suffix, parse_u64, same_text, starts_with};
use crate::wallpaper::WallSetterProgram;

verus! {

/// One command-line setting.
#[allow(non_camel_case_types)]
#[derive(Debug, PartialEq)]
pub enum CliOption {
    /// The directory of images to rotate.
    Path(String),
    PrintState,
    PrintHelp,
    /// Minutes between two wallpapers.
    Interval(u64),
    RestartSWWW,
    Program(WallSetterProgram),
}

/// Why the command line was refused.
#[derive(Debug)]
pub enum Error {
    /// An argument that is not a known option, or a malformed value.
    InvalidOption(String),
    /// No arguments, or the last one is not a directory.
    InvalidOptionsStructure,
}

/// The setting that one argument (other than the directory) stands for, or
/// nothing when it is not valid. `--help` asks for the state listing.
pub open spec fn classify(a: Seq<char>) -> Option<CliOption> {
    if a == "--print-state"@ || a == "--help"@ {
        Some(CliOption::PrintState)
    } else if starts_with(a, "--interval="@) {
        match decimal_u64(a.skip(11)) {
            Some(n) => if n > 0 {
                Some(CliOption::Interval(n))
            } else {
                None
            },
            None => None,
        }
    } else if a == "--restart-swww"@ {
        Some(CliOption::RestartSWWW)
    } else if starts_with(a, "--program="@) {
        if ends_with(a, "swww"@) {
            Some(CliOption::Program(WallSetterProgram::SWWW))
        } else if ends_with(a, "plasma-apply-wallpaperimage"@) {
            Some(CliOption::Program(WallSetterProgram::PLASMA))
        } else {
            None
        }
    } else {
        None
    }
}

/// Reads one argument other than the directory.
pub fn parse_option(arg: &String) -> (r: Option<CliOption>)
    ensures
        r == classify(arg@),
{
    let a = arg.as_str();
    proof {
        reveal_strlit("--interval=");
    }
    if same_text(a, "--print-state") || same_text(a, "--help") {
        Some(CliOption::PrintState)
    } else if has_prefix(a, "--interval=") {
        let n = a.unicode_len();
        // The value follows the eleven characters of `--interval=`.
        let value = parse_u64(a.substring_char(11, n));
        match value {
            Some(m) => if m > 0 {
                Some(CliOption::Interval(m))
            } else {
                None
            },
            None => None,
        }
    } else if same_text(a, "--restart-swww") {
        Some(CliOption::RestartSWWW)
    } else if has_prefix(a, "--program=") {
        if has_suffix(a, "swww") {
            Some(CliOption::Program(WallSetterProgram::SWWW))
        } else if has_suffix(a, "plasma-apply-wallpaperimage") {
            Some(CliOption::Program(WallSetterProgram::PLASMA))
        } else {
            None
        }
    } else {
        None
    }
}

/// Every argument from position `k` on, other than the last one, is valid.
pub open spec fn valid_from(args: Seq<String>, k: int) -> bool {
    forall|j: int| k <= j < args.len() - 1 ==> #[trigger] classify(args[j]@) is Some
}

/// `v` is what a command line of valid arguments reads as: the directory
/// first, then each other argument's setting, from the last to the first.
pub open spec fn read_all(args: Seq<String>, v: Seq<CliOption>) -> bool {
    &&& v.len() == args.len()
    &&& (v[0] matches CliOption::Path(p) && p@ == args.last()@)
    &&& forall|i: int|
        1 <= i < v.len() ==> Some(#[trigger] v[i]) == classify(args[args.len() - 1 - i]@)
}

/// `s` is the invalid argument nearest the end (the directory aside).
pub open spec fn rejected_at(args: Seq<String>, s: Seq<char>) -> bool {
    exists|k: int|
        0 <= k < args.len() - 1 && classify(#[trigger] args[k]@) is None && valid_from(args, k + 1)
            && s == args[k]@
}

/// Reads the command line (without the program name). The last argument is
/// the directory, `last_is_dir` says whether it is one; the others are read
/// from the last to the first, and the first invalid one met is reported.
pub fn process_args(args: &Vec<String>, last_is_dir: bool) -> (r: Result<Vec<CliOption>, Error>)
    ensures
        (r matches Err(Error::InvalidOptionsStructure)) <==> (args@.len() == 0 || !last_is_dir),
        args@.len() > 0 && last_is_dir && valid_from(args@, 0) ==> (r matches Ok(v)
            && read_all(args@, v@)),
        args@.len() > 0 && last_is_dir && !valid_from(args@, 0) ==> (r matches Err(
            Error::InvalidOption(s),
        ) && rejected_at(args@, s@)),
{
    let n = args.len();
    if n == 0 || !last_is_dir {
        return Err(Error::InvalidOptionsStructure);
    }
    let mut options: Vec<CliOption> = Vec::new();
    options.push(CliOption::Path(args[n - 1].clone()));
    let mut k: usize = n - 1;
    while k > 0
        invariant
            n == args@.len(),
            n > 0,
            last_is_dir,
            k < n,
            valid_from(args@, k as int),
            options@.len() == n - k,
            options@[0] matches CliOption::Path(p) && p@ == args@.last()@,
            forall|i: int|
                1 <= i < options@.len() ==> Some(#[trigger] options@[i]) == classify(
                    args@[n - 1 - i]@,
                ),
        decreases k,
    {
        k = k - 1;
        match parse_option(&args[k]) {
            Some(o) => {
                let ghost before = options@;
                options.push(o);
                assert(options@[n - 1 - k] == o);
                assert forall|i: int| 1 <= i < options@.len() implies Some(#[trigger] options@[i])
                    == classify(args@[n - 1 - i]@) by {
                    if i < before.len() {
                        assert(options@[i] == before[i]);
                    }
                }
            },
            None => {
                return Err(Error::InvalidOption(args[k].clone()));
            },
        }
    }
    Ok(options)
}

} // verus!
