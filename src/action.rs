use vstd::prelude::*;
use vstd::string::*;

use crate::registry::{is_listing_of, listing_text, registry_of, Candidate, Registry};
use crate::scan::{candidates_of, scan_path, scan_path_spec, Directory};
use crate::signals::{env_spec, env_version, opt_view, shebang_spec, shebang_version, venv_override, venv_python_spec};
use crate::resolve::{requested, resolve, resolve_spec, venv_view, ResolveError, Signals};
use crate::version::{is_digit, parse_spec, ParseError, Version};

verus! {

/// A command line, already split into its parts.
#[derive(Debug)]
pub struct Request {
    /// The version asked for by a `-X` or `-X.Y` flag.
    pub version_flag: Option<Version>,
    /// The script to run, if the first argument passed on names one.
    pub script_path: Option<String>,
    pub help_requested: bool,
    pub list_requested: bool,
    /// The arguments to hand to the interpreter.
    pub remaining_args: Vec<String>,
}

/// What the launcher does once it has decided.
#[derive(Debug)]
pub enum Action {
    /// Print the message, then show the chosen interpreter's own help.
    Help(String, String),
    /// Print the listing of the interpreters found.
    List(String),
    /// Run the executable with these arguments.
    Execute { executable: String, args: Vec<String> },
}

pub open spec fn usage_spec() -> Seq<char> {
    "Python launcher\nusage: py [-h | --help | --list | -X | -X.Y] [args]\n\n"@
}

/// The launcher's own help text.
pub fn usage() -> (r: String)
    ensures
        r@ == usage_spec(),
{
    String::from_str("Python launcher\nusage: py [-h | --help | --list | -X | -X.Y] [args]\n\n")
}

pub open spec fn is_help_word(s: Seq<char>) -> bool {
    s == "-h"@ || s == "--help"@
}

pub open spec fn is_list_word(s: Seq<char>) -> bool {
    s == "--list"@
}

/// A version flag: a dash and then a digit.
pub open spec fn is_version_word(s: Seq<char>) -> bool {
    s.len() >= 2 && s[0] == '-' && is_digit(s[1])
}

/// How many leading arguments the launcher takes for itself: the program
/// name, and a help, list or version flag right after it.
pub open spec fn consumed(args: Seq<String>) -> int {
    if args.len() == 0 {
        0
    } else if args.len() >= 2 && (is_help_word(args[1]@) || is_list_word(args[1]@) || is_version_word(args[1]@)) {
        2
    } else {
        1
    }
}

fn equals_text(s: &str, lit: &str) -> (r: bool)
    ensures
        r == (s@ == lit@),
{
    let n: usize = s.unicode_len();
    if n != lit.unicode_len() {
        return false;
    }
    let mut i: usize = 0;
    while i < n
        invariant
            i <= n,
            n == s@.len(),
            n == lit@.len(),
            forall|j: int| 0 <= j < i ==> s@[j] == lit@[j],
        decreases n - i,
    {
        if s.get_char(i) != lit.get_char(i) {
            return false;
        }
        i = i + 1;
    }
    proof { assert(s@ =~= lit@); }
    true
}

fn copy_strings(v: &Vec<String>, from: usize) -> (r: Vec<String>)
    requires
        from <= v@.len(),
    ensures
        r@ == v@.subrange(from as int, v@.len() as int),
{
    let mut r: Vec<String> = Vec::new();
    let mut i: usize = from;
    while i < v.len()
        invariant
            from <= i <= v@.len(),
            r@ == v@.subrange(from as int, i as int),
        decreases v@.len() - i,
    {
        r.push(v[i].clone());
        proof {
            assert(r@ =~= v@.subrange(from as int, i as int + 1));
        }
        i = i + 1;
    }
    r
}

/// Reads the command line: a help, list or version flag may follow the
/// program name; the rest goes to the interpreter, its first part naming
/// the script unless it is an option.
pub fn parse_args(args: &Vec<String>) -> (r: Result<Request, ParseError>)
    ensures
        r is Err <==> (args@.len() >= 2 && is_version_word(args@[1]@)
            && parse_spec(args@[1]@.drop_first()) is None),
        r is Ok ==> ({
            let q = r.unwrap();
            let k = consumed(args@);
            &&& q.help_requested == (args@.len() >= 2 && is_help_word(args@[1]@))
            &&& q.list_requested == (args@.len() >= 2 && is_list_word(args@[1]@))
            &&& q.version_flag == (if args@.len() >= 2 && is_version_word(args@[1]@) {
                parse_spec(args@[1]@.drop_first())
            } else {
                None
            })
            &&& q.remaining_args@ == args@.subrange(k, args@.len() as int)
            &&& q.script_path == (if args@.len() > k && !(args@[k]@.len() > 0 && args@[k]@[0] == '-') {
                Some(args@[k])
            } else {
                None
            })
        }),
{
    let n: usize = args.len();
    let mut help = false;
    let mut list = false;
    let mut flag: Option<Version> = None;
    let mut k: usize = if n == 0 { 0 } else { 1 };
    proof {
        reveal_strlit("-h");
        reveal_strlit("--help");
        reveal_strlit("--list");
    }
    if n >= 2 {
        let first = args[1].as_str();
        if equals_text(first, "-h") || equals_text(first, "--help") {
            help = true;
            k = 2;
        } else if equals_text(first, "--list") {
            list = true;
            k = 2;
        } else {
            let m: usize = first.unicode_len();
            if m >= 2 && first.get_char(0) == '-' && is_digit_char(first.get_char(1)) {
                proof {
                    assert(first@.drop_first() =~= first@.subrange(1, m as int));
                }
                match Version::parse(first.substring_char(1, m)) {
                    Ok(v) => {
                        flag = Some(v);
                        k = 2;
                    },
                    Err(e) => {
                        return Err(e);
                    },
                }
            }
        }
    }
    let remaining = copy_strings(args, k);
    let mut script: Option<String> = None;
    if k < n {
        let a = args[k].as_str();
        let dash = a.unicode_len() > 0 && a.get_char(0) == '-';
        if !dash {
            script = Some(args[k].clone());
        }
    }
    Ok(Request {
        version_flag: flag,
        script_path: script,
        help_requested: help,
        list_requested: list,
        remaining_args: remaining,
    })
}

fn is_digit_char(c: char) -> (r: bool)
    ensures
        r == is_digit(c),
{
    c == '0' || c == '1' || c == '2' || c == '3' || c == '4' || c == '5' || c == '6'
        || c == '7' || c == '8' || c == '9'
}

/// Decides what to do: show help (with the chosen interpreter), list the
/// interpreters found, or run the chosen interpreter with the remaining
/// arguments. Help and run fail when resolution fails.
pub fn build_action(req: &Request, signals: &Signals, reg: &Registry) -> (r: Result<Action, ResolveError>)
    requires
        reg.wf(),
    ensures
        ({
            let outcome = resolve_spec(venv_view(*signals),
                requested(req.version_flag, signals.shebang, signals.env), reg@);
            if req.help_requested {
                match r {
                    Ok(Action::Help(m, e)) => m@ == usage_spec() && outcome == Ok::<Seq<char>, ResolveError>(e@),
                    Ok(_) => false,
                    Err(err) => outcome == Err::<Seq<char>, ResolveError>(err),
                }
            } else if req.list_requested {
                match r {
                    Ok(Action::List(t)) => exists|s: Seq<Candidate>| is_listing_of(s, reg@) && t@ == listing_text(s),
                    _ => false,
                }
            } else {
                match r {
                    Ok(Action::Execute { executable, args }) => outcome == Ok::<Seq<char>, ResolveError>(executable@)
                        && args@ == req.remaining_args@,
                    Ok(_) => false,
                    Err(err) => outcome == Err::<Seq<char>, ResolveError>(err),
                }
            }
        }),
{
    if req.help_requested {
        match resolve(req.version_flag, signals, reg) {
            Ok(e) => Ok(Action::Help(usage(), e)),
            Err(err) => Err(err),
        }
    } else if req.list_requested {
        Ok(Action::List(reg.listing()))
    } else {
        match resolve(req.version_flag, signals, reg) {
            Ok(e) => Ok(Action::Execute { executable: e, args: copy_strings(&req.remaining_args, 0) }),
            Err(err) => Err(err),
        }
    }
}

/// The shebang signal: read only when a script was named and its first line
/// could be read.
pub open spec fn shebang_signal(script_named: bool, first_line: Option<Seq<char>>) -> Option<Version> {
    if script_named && first_line is Some {
        shebang_spec(first_line.unwrap())
    } else {
        None
    }
}

/// The virtual-environment signal.
pub open spec fn venv_signal(root: Option<Seq<char>>, executable: bool) -> Option<Seq<char>> {
    if root is Some && root.unwrap().len() > 0 && executable {
        Some(venv_python_spec(root.unwrap()))
    } else {
        None
    }
}

/// Decides what to do from the request and a snapshot of the environment:
/// the search path's directories, the virtual-environment variable and
/// whether its interpreter is executable, the script's first line, and the
/// preferred-version variables.
pub fn decide(
    req: &Request,
    dirs: &Vec<Directory>,
    venv_root: &Option<String>,
    venv_executable: bool,
    first_line: &Option<String>,
    preferred: &Option<String>,
    preferred3: &Option<String>,
) -> (r: Result<Action, ResolveError>)
    ensures
        exists|cands: Seq<Candidate>| {
            &&& candidates_of(cands, scan_path_spec(dirs@))
            &&& ({
                let outcome = resolve_spec(
                    venv_signal(opt_view(*venv_root), venv_executable),
                    requested(req.version_flag,
                        shebang_signal(req.script_path is Some, opt_view(*first_line)),
                        env_spec(opt_view(*preferred), opt_view(*preferred3))),
                    registry_of(cands));
                if req.help_requested {
                    match r {
                        Ok(Action::Help(m, e)) => m@ == usage_spec() && outcome == Ok::<Seq<char>, ResolveError>(e@),
                        Ok(_) => false,
                        Err(err) => outcome == Err::<Seq<char>, ResolveError>(err),
                    }
                } else if req.list_requested {
                    match r {
                        Ok(Action::List(t)) => exists|s: Seq<Candidate>|
                            is_listing_of(s, registry_of(cands)) && t@ == listing_text(s),
                        _ => false,
                    }
                } else {
                    match r {
                        Ok(Action::Execute { executable, args }) => outcome == Ok::<Seq<char>, ResolveError>(executable@)
                            && args@ == req.remaining_args@,
                        Ok(_) => false,
                        Err(err) => outcome == Err::<Seq<char>, ResolveError>(err),
                    }
                }
            })
        },
{
    let cands = scan_path(dirs);
    let reg = Registry::from_candidates(&cands);
    let shebang = match (&req.script_path, first_line) {
        (Some(_), Some(line)) => shebang_version(line.as_str()),
        _ => None,
    };
    let signals = Signals {
        venv: venv_override(venv_root, venv_executable),
        shebang,
        env: env_version(preferred, preferred3),
    };
    let r = build_action(req, &signals, &reg);
    proof {
        assert(venv_view(signals) == venv_signal(opt_view(*venv_root), venv_executable));
    }
    r
}

} // verus!
