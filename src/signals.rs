use vstd::prelude::*;
use vstd::string::*;

use crate::scan::python_word;
use crate::version::{parse_spec, Version};

verus! {

/// The interpreter inside a virtual environment rooted at `root`.
pub open spec fn venv_python_spec(root: Seq<char>) -> Seq<char> {
    root + seq!['/', 'b', 'i', 'n', '/', 'p', 'y', 't', 'h', 'o', 'n']
}

/// The path of the interpreter inside the virtual environment at `root`.
pub fn venv_python_path(root: &str) -> (r: String)
    ensures
        r@ == venv_python_spec(root@),
{
    let mut r = String::from_str(root);
    proof { reveal_strlit("/bin/python"); }
    r.append("/bin/python");
    r
}

/// The override path: the virtual environment's interpreter, when the
/// variable naming the environment is set and non-empty and that interpreter
/// is executable.
pub fn venv_override(root: &Option<String>, interpreter_executable: bool) -> (r: Option<String>)
    ensures
        r is Some == (root is Some && root.unwrap()@.len() > 0 && interpreter_executable),
        r is Some ==> r.unwrap()@ == venv_python_spec(root.unwrap()@),
{
    match root {
        Some(dir) => {
            if dir.as_str().unicode_len() > 0 && interpreter_executable {
                Some(venv_python_path(dir.as_str()))
            } else {
                None
            }
        },
        None => None,
    }
}

pub open spec fn is_separator(c: char, slash: bool) -> bool {
    if slash { c == '/' } else { c == ' ' || c == '\t' }
}

/// Where the last token of `s[..i]` starts: just after the last separator
/// before `i`, or 0.
pub open spec fn token_start(s: Seq<char>, i: int, slash: bool) -> int
    decreases i,
{
    if i <= 0 {
        0
    } else if is_separator(s[i - 1], slash) {
        i
    } else {
        token_start(s, i - 1, slash)
    }
}

/// The part of `s` after its last separator.
pub open spec fn last_token(s: Seq<char>, slash: bool) -> Seq<char> {
    s.subrange(token_start(s, s.len() as int, slash), s.len() as int)
}

/// The version that a script's first line asks for: the line starts with
/// `#!`, and the program named by its last word is `python` followed by a
/// version.
pub open spec fn shebang_spec(line: Seq<char>) -> Option<Version> {
    if line.len() >= 2 && line[0] == '#' && line[1] == '!' {
        let program = last_token(last_token(line, false), true);
        if program.len() >= 6 && program.subrange(0, 6) == python_word() {
            parse_spec(program.subrange(6, program.len() as int))
        } else {
            None
        }
    } else {
        None
    }
}

fn find_token_start(s: &str, slash: bool) -> (r: usize)
    ensures
        r as int == token_start(s@, s@.len() as int, slash),
        r <= s@.len(),
{
    let mut i: usize = s.unicode_len();
    while i > 0
        invariant
            i <= s@.len(),
            token_start(s@, i as int, slash) == token_start(s@, s@.len() as int, slash),
        decreases i,
    {
        let c = s.get_char(i - 1);
        let sep = if slash { c == '/' } else { c == ' ' || c == '\t' };
        if sep {
            return i;
        }
        i = i - 1;
    }
    0
}

/// The part of `s` after its last separator.
fn last_token_of(s: &str, slash: bool) -> (r: &str)
    ensures
        r@ == last_token(s@, slash),
{
    let start = find_token_start(s, slash);
    s.substring_char(start, s.unicode_len())
}

/// The version request in a script's first line, if it holds one.
pub fn shebang_version(line: &str) -> (r: Option<Version>)
    ensures
        r == shebang_spec(line@),
{
    let n: usize = line.unicode_len();
    if n < 2 || line.get_char(0) != '#' || line.get_char(1) != '!' {
        return None;
    }
    let word = last_token_of(line, false);
    let program = last_token_of(word, true);
    let m: usize = program.unicode_len();
    if m < 6 {
        return None;
    }
    let head = program.substring_char(0, 6);
    proof { reveal_strlit("python"); }
    let is_python = head.get_char(0) == 'p' && head.get_char(1) == 'y' && head.get_char(2) == 't'
        && head.get_char(3) == 'h' && head.get_char(4) == 'o' && head.get_char(5) == 'n';
    proof {
        if is_python {
            assert(head@ =~= python_word());
        }
    }
    if !is_python {
        return None;
    }
    match Version::parse(program.substring_char(6, m)) {
        Ok(v) => Some(v),
        Err(_) => None,
    }
}

/// A version read from an environment variable; a value that does not parse
/// counts as absent.
pub open spec fn env_value_spec(value: Option<Seq<char>>) -> Option<Version> {
    match value {
        Some(s) => parse_spec(s),
        None => None,
    }
}

/// The request of the environment-variable tier: the preferred version; when
/// that names major 3 alone, the preferred Python 3 version supplies the
/// minor if it names a full 3.x version.
pub open spec fn env_spec(preferred: Option<Seq<char>>, preferred3: Option<Seq<char>>) -> Option<Version> {
    match env_value_spec(preferred) {
        Some(v) => {
            let w = env_value_spec(preferred3);
            if v.major == 3 && v.minor is None && w is Some && w.unwrap().major == 3
                && w.unwrap().minor is Some {
                w
            } else {
                Some(v)
            }
        },
        None => None,
    }
}

pub open spec fn opt_view(s: Option<String>) -> Option<Seq<char>> {
    match s {
        Some(t) => Some(t@),
        None => None,
    }
}

fn env_value(value: &Option<String>) -> (r: Option<Version>)
    ensures
        r == env_value_spec(opt_view(*value)),
{
    match value {
        Some(s) => match Version::parse(s.as_str()) {
            Ok(v) => Some(v),
            Err(_) => None,
        },
        None => None,
    }
}

/// The version request that the environment variables make, if any.
pub fn env_version(preferred: &Option<String>, preferred3: &Option<String>) -> (r: Option<Version>)
    ensures
        r == env_spec(opt_view(*preferred), opt_view(*preferred3)),
{
    match env_value(preferred) {
        Some(v) => {
            if v.major == 3 && v.minor.is_none() {
                match env_value(preferred3) {
                    Some(w) => {
                        if w.major == 3 && w.minor.is_some() {
                            Some(w)
                        } else {
                            Some(v)
                        }
                    },
                    None => Some(v),
                }
            } else {
                Some(v)
            }
        },
        None => None,
    }
}

} // verus!
