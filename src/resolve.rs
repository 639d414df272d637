use vstd::prelude::*;

use crate::registry::{best_index, lookup, registry_of, Candidate, Registry};
use crate::version::Version;

verus! {

/// The signals that the environment gives, each possibly absent.
#[derive(Debug)]
pub struct Signals {
    /// The interpreter of an active virtual environment.
    pub venv: Option<String>,
    /// The version asked for by the script's first line.
    pub shebang: Option<Version>,
    /// The version asked for by the environment variables.
    pub env: Option<Version>,
}

/// Why no interpreter could be chosen.
#[derive(Clone, Copy, Debug, PartialEq, Eq, Structural)]
pub enum ResolveError {
    /// A version was requested and no interpreter has it.
    NoMatchingVersion(Version),
    /// No version was requested and no interpreter was found.
    NoInterpreters,
}

/// The version request of the highest tier that gives one: the command-line
/// flag, then the script's first line, then the environment variables.
pub open spec fn requested(flag: Option<Version>, shebang: Option<Version>, env: Option<Version>) -> Option<Version> {
    if flag is Some {
        flag
    } else if shebang is Some {
        shebang
    } else {
        env
    }
}

/// The outcome of resolution over the registry entries `reg`.
pub open spec fn resolve_spec(
    venv: Option<Seq<char>>,
    req: Option<Version>,
    reg: Seq<Candidate>,
) -> Result<Seq<char>, ResolveError> {
    if venv is Some {
        Ok(venv.unwrap())
    } else {
        let k = best_index(reg, req);
        if k >= 0 {
            Ok(reg[k].path@)
        } else {
            match req {
                Some(v) => Err(ResolveError::NoMatchingVersion(v)),
                None => Err(ResolveError::NoInterpreters),
            }
        }
    }
}

pub open spec fn result_view(r: Result<String, ResolveError>) -> Result<Seq<char>, ResolveError> {
    match r {
        Ok(p) => Ok(p@),
        Err(e) => Err(e),
    }
}

pub open spec fn venv_view(s: Signals) -> Option<Seq<char>> {
    match s.venv {
        Some(p) => Some(p@),
        None => None,
    }
}

/// Chooses the executable to run: the virtual environment's interpreter
/// when there is one; else the highest version in the registry that the
/// highest-tier request accepts; else the highest version of all.
pub fn resolve(flag: Option<Version>, signals: &Signals, reg: &Registry) -> (r: Result<String, ResolveError>)
    ensures
        result_view(r) == resolve_spec(venv_view(*signals), requested(flag, signals.shebang, signals.env), reg@),
{
    match &signals.venv {
        Some(p) => return Ok(p.clone()),
        None => {},
    }
    let req = if flag.is_some() {
        flag
    } else if signals.shebang.is_some() {
        signals.shebang
    } else {
        signals.env
    };
    proof { crate::registry::lemma_best_index(reg@, req); }
    match reg.best_match(req) {
        Some(p) => Ok(p),
        None => match req {
            Some(v) => Err(ResolveError::NoMatchingVersion(v)),
            None => Err(ResolveError::NoInterpreters),
        },
    }
}

/// First found wins: whatever the request, the path chosen from the registry
/// built from `cands` is that of the first candidate found with the chosen
/// version.
pub proof fn law_first_found_wins(cands: Seq<Candidate>, req: Option<Version>)
    requires
        crate::registry::fully_qualified(cands),
    ensures
        best_index(registry_of(cands), req) >= 0 ==> ({
            let reg = registry_of(cands);
            let e = reg[best_index(reg, req)];
            lookup(cands, e.version) == Some(e.path@)
        }),
{
    let reg = registry_of(cands);
    crate::registry::lemma_best_index(reg, req);
    let k = best_index(reg, req);
    if k >= 0 {
        let e = reg[k];
        crate::registry::lemma_registry_lookup(cands, e.version);
        crate::registry::lemma_registry_wf(cands);
        crate::registry::lemma_lookup_unique(reg, k);
    }
}

/// An active virtual environment wins over every other signal.
pub proof fn law_venv_overrides(venv: Seq<char>, req: Option<Version>, reg: Seq<Candidate>)
    ensures
        resolve_spec(Some(venv), req, reg) == Ok::<Seq<char>, ResolveError>(venv),
{
}

/// Without a virtual environment, the outcome is that of the search-path
/// tiers alone: the best registry entry for the request, or an error.
pub proof fn law_no_venv_uses_registry(req: Option<Version>, reg: Seq<Candidate>)
    ensures
        resolve_spec(None, req, reg) is Ok <==> best_index(reg, req) >= 0,
        best_index(reg, req) >= 0 ==> resolve_spec(None, req, reg)
            == Ok::<Seq<char>, ResolveError>(reg[best_index(reg, req)].path@),
{
}

/// With no interpreter found, an unversioned request fails with
/// `NoInterpreters` and a versioned one with `NoMatchingVersion`.
pub proof fn law_empty_registry(req: Option<Version>)
    ensures
        resolve_spec(None, req, Seq::<Candidate>::empty()) == (match req {
            Some(v) => Err::<Seq<char>, ResolveError>(ResolveError::NoMatchingVersion(v)),
            None => Err(ResolveError::NoInterpreters),
        }),
{
}

/// A malformed preferred-version value gives no signal: the request is the
/// one that the remaining tiers make.
pub proof fn law_malformed_env_ignored(
    flag: Option<Version>,
    shebang: Option<Version>,
    preferred: Seq<char>,
    preferred3: Option<Seq<char>>,
)
    requires
        crate::version::parse_spec(preferred) is None,
    ensures
        crate::signals::env_spec(Some(preferred), preferred3) is None,
        requested(flag, shebang, crate::signals::env_spec(Some(preferred), preferred3))
            == requested(flag, shebang, None),
{
}

} // verus!
