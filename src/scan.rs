use vstd::prelude::*;
use vstd::string::*;

use crate::registry::{fully_qualified, Candidate};
use crate::version::{parse_spec, Version};

verus! {

/// One entry of a directory listing, as the file system reported it.
#[derive(Debug)]
pub struct DirEntry {
    /// The file name within the directory.
    pub name: String,
    /// The canonical path that the entry resolves to (itself unless a link).
    pub target: String,
    /// Whether the current user may execute it.
    pub executable: bool,
}

/// One directory of the search path with its entries.
#[derive(Debug)]
pub struct Directory {
    pub path: String,
    pub entries: Vec<DirEntry>,
}

pub open spec fn python_word() -> Seq<char> {
    seq!['p', 'y', 't', 'h', 'o', 'n']
}

/// The version that an executable's file name declares: `python` followed by
/// a full `major.minor` version.
pub open spec fn file_version_spec(name: Seq<char>) -> Option<Version> {
    if name.len() >= 6 && name.subrange(0, 6) == python_word() {
        match parse_spec(name.subrange(6, name.len() as int)) {
            Some(v) => if v.minor is Some { Some(v) } else { None },
            None => None,
        }
    } else {
        None
    }
}

/// The path of `name` inside `dir`.
pub open spec fn join_spec(dir: Seq<char>, name: Seq<char>) -> Seq<char> {
    dir + seq!['/'] + name
}

/// What a scan of one directory keeps, in order, as (version, path, target):
/// executable entries whose names declare a full version, skipping any whose
/// target an entry kept before it already has.
pub open spec fn scan_spec(dir: Seq<char>, entries: Seq<DirEntry>) -> Seq<(Version, Seq<char>, Seq<char>)>
    decreases entries.len(),
{
    if entries.len() == 0 {
        Seq::empty()
    } else {
        let kept = scan_spec(dir, entries.drop_last());
        let e = entries.last();
        let v = file_version_spec(e.name@);
        if e.executable && v is Some && !(exists|k: int| 0 <= k < kept.len() && (#[trigger] kept[k]).2 == e.target@) {
            kept.push((v.unwrap(), join_spec(dir, e.name@), e.target@))
        } else {
            kept
        }
    }
}

/// The scan of every directory in search-path order.
pub open spec fn scan_path_spec(dirs: Seq<Directory>) -> Seq<(Version, Seq<char>, Seq<char>)>
    decreases dirs.len(),
{
    if dirs.len() == 0 {
        Seq::empty()
    } else {
        scan_path_spec(dirs.drop_last()) + scan_spec(dirs.last().path@, dirs.last().entries@)
    }
}

/// `cands` holds the versions and paths of `found`, in the same order.
pub open spec fn candidates_of(cands: Seq<Candidate>, found: Seq<(Version, Seq<char>, Seq<char>)>) -> bool {
    &&& cands.len() == found.len()
    &&& forall|i: int| 0 <= i < cands.len() ==> (#[trigger] cands[i]).version == found[i].0
        && cands[i].path@ == found[i].1
}

fn starts_with_python(s: &str) -> (r: bool)
    ensures
        r == (s@.len() >= 6 && s@.subrange(0, 6) == python_word()),
{
    let n: usize = s.unicode_len();
    if n < 6 {
        return false;
    }
    let r = s.get_char(0) == 'p' && s.get_char(1) == 'y' && s.get_char(2) == 't'
        && s.get_char(3) == 'h' && s.get_char(4) == 'o' && s.get_char(5) == 'n';
    proof {
        if r {
            assert(s@.subrange(0, 6) =~= python_word());
        } else if s@.subrange(0, 6) == python_word() {
            assert(s@.subrange(0, 6)[0] == s@[0]);
            assert(s@.subrange(0, 6)[1] == s@[1]);
            assert(s@.subrange(0, 6)[2] == s@[2]);
            assert(s@.subrange(0, 6)[3] == s@[3]);
            assert(s@.subrange(0, 6)[4] == s@[4]);
            assert(s@.subrange(0, 6)[5] == s@[5]);
        }
    }
    r
}

/// The full version that an executable's file name declares, if any.
pub fn file_version(name: &str) -> (r: Option<Version>)
    ensures
        r == file_version_spec(name@),
{
    if !starts_with_python(name) {
        return None;
    }
    let rest = name.substring_char(6, name.unicode_len());
    match Version::parse(rest) {
        Ok(v) => if v.minor.is_some() { Some(v) } else { None },
        Err(_) => None,
    }
}

/// The path of `name` inside `dir`.
pub fn join(dir: &str, name: &str) -> (r: String)
    ensures
        r@ == join_spec(dir@, name@),
{
    let mut r = String::from_str(dir);
    proof { reveal_strlit("/"); }
    r.append("/");
    r.append(name);
    r
}

/// The interpreters found in one directory.
pub fn scan_directory(dir: &str, entries: &Vec<DirEntry>) -> (r: Vec<Candidate>)
    ensures
        candidates_of(r@, scan_spec(dir@, entries@)),
        fully_qualified(r@),
{
    let mut out: Vec<Candidate> = Vec::new();
    let mut targets: Vec<String> = Vec::new();
    let mut i: usize = 0;
    while i < entries.len()
        invariant
            i <= entries@.len(),
            candidates_of(out@, scan_spec(dir@, entries@.subrange(0, i as int))),
            fully_qualified(out@),
            targets@.len() == out@.len(),
            forall|k: int| 0 <= k < targets@.len() ==> (#[trigger] targets@[k])@
                == scan_spec(dir@, entries@.subrange(0, i as int))[k].2,
        decreases entries@.len() - i,
    {
        let ghost kept = scan_spec(dir@, entries@.subrange(0, i as int));
        proof {
            assert(entries@.subrange(0, i as int + 1).drop_last() =~= entries@.subrange(0, i as int));
        }
        let e = &entries[i];
        let v = file_version(e.name.as_str());
        if e.executable && v.is_some() {
            let mut seen = false;
            let mut k: usize = 0;
            while k < targets.len()
                invariant
                    k <= targets@.len(),
                    targets@.len() == kept.len(),
                    forall|j: int| 0 <= j < targets@.len() ==> (#[trigger] targets@[j])@ == kept[j].2,
                    seen == (exists|j: int| 0 <= j < k && (#[trigger] kept[j]).2 == e.target@),
                decreases targets@.len() - k,
            {
                if targets[k] == e.target {
                    seen = true;
                }
                proof {
                    if !seen {
                        assert forall|j: int| 0 <= j < k + 1 implies (#[trigger] kept[j]).2 != e.target@ by {
                            if j == k {
                                assert(targets@[j]@ == kept[j].2);
                            }
                        }
                    }
                }
                k = k + 1;
            }
            if !seen {
                let path = join(dir, e.name.as_str());
                match v {
                    Some(ver) => {
                        out.push(Candidate { version: ver, path });
                        targets.push(e.target.clone());
                    },
                    None => {},
                }
            }
        }
        i = i + 1;
    }
    proof {
        assert(entries@.subrange(0, i as int) =~= entries@);
    }
    out
}

/// The interpreters found along the search path, directory by directory.
pub fn scan_path(dirs: &Vec<Directory>) -> (r: Vec<Candidate>)
    ensures
        candidates_of(r@, scan_path_spec(dirs@)),
        fully_qualified(r@),
{
    let mut out: Vec<Candidate> = Vec::new();
    let mut i: usize = 0;
    while i < dirs.len()
        invariant
            i <= dirs@.len(),
            candidates_of(out@, scan_path_spec(dirs@.subrange(0, i as int))),
            fully_qualified(out@),
        decreases dirs@.len() - i,
    {
        proof {
            assert(dirs@.subrange(0, i as int + 1).drop_last() =~= dirs@.subrange(0, i as int));
        }
        let mut found = scan_directory(dirs[i].path.as_str(), &dirs[i].entries);
        out.append(&mut found);
        i = i + 1;
    }
    proof {
        assert(dirs@.subrange(0, i as int) =~= dirs@);
    }
    out
}

} // verus!
