use vstd::prelude::*;
use vstd::string::*;

use crate::version::Version;

verus! {

/// One interpreter found on disk: its version and the path of its executable.
#[derive(Debug)]
pub struct Candidate {
    pub version: Version,
    pub path: String,
}

/// A field-by-field copy of a candidate.
pub fn copy_candidate(c: &Candidate) -> (r: Candidate)
    ensures
        r == *c,
{
    Candidate { version: c.version, path: c.path.clone() }
}

/// The path of the first candidate in `s` with version `v`.
pub open spec fn lookup(s: Seq<Candidate>, v: Version) -> Option<Seq<char>>
    decreases s.len(),
{
    if s.len() == 0 {
        None
    } else if lookup(s.drop_last(), v) is Some {
        lookup(s.drop_last(), v)
    } else if s.last().version == v {
        Some(s.last().path@)
    } else {
        None
    }
}

/// The registry that a sequence of candidates yields: the first candidate of
/// each version, in the order found.
pub open spec fn registry_of(cands: Seq<Candidate>) -> Seq<Candidate>
    decreases cands.len(),
{
    if cands.len() == 0 {
        Seq::empty()
    } else {
        let r = registry_of(cands.drop_last());
        if lookup(r, cands.last().version) is Some {
            r
        } else {
            r.push(cands.last())
        }
    }
}

pub open spec fn unique_versions(s: Seq<Candidate>) -> bool {
    forall|i: int, j: int| 0 <= i < j < s.len() ==> s[i].version != s[j].version
}

pub open spec fn fully_qualified(s: Seq<Candidate>) -> bool {
    forall|i: int| 0 <= i < s.len() ==> (#[trigger] s[i]).version.minor is Some
}

/// Whether a request accepts a version; `None` asks for any version.
pub open spec fn accepts(req: Option<Version>, v: Version) -> bool {
    match req {
        None => true,
        Some(r) => r.spec_matches(v),
    }
}

/// The index of the highest version in `s` that `req` accepts, or -1.
pub open spec fn best_index(s: Seq<Candidate>, req: Option<Version>) -> int
    decreases s.len(),
{
    if s.len() == 0 {
        -1
    } else {
        let k = best_index(s.drop_last(), req);
        if accepts(req, s.last().version) && (k < 0 || s[k].version.spec_less(s.last().version)) {
            s.len() - 1
        } else {
            k
        }
    }
}

/// Strictly descending by version.
pub open spec fn descending(s: Seq<Candidate>) -> bool {
    forall|i: int, j: int| 0 <= i < j < s.len() ==> s[j].version.spec_less(s[i].version)
}

/// The listing text: one line per entry, its version, a tab, its path.
pub open spec fn listing_text(s: Seq<Candidate>) -> Seq<char>
    decreases s.len(),
{
    if s.len() == 0 {
        Seq::empty()
    } else {
        listing_text(s.drop_last()) + crate::version::format_spec(s.last().version) + seq!['\t']
            + s.last().path@ + seq!['\n']
    }
}

/// `s` lists exactly the entries of `reg`, highest version first.
pub open spec fn is_listing_of(s: Seq<Candidate>, reg: Seq<Candidate>) -> bool {
    &&& descending(s)
    &&& s.len() == reg.len()
    &&& forall|c: Candidate| s.contains(c) <==> reg.contains(c)
}

proof fn lemma_less_total(a: Version, b: Version)
    ensures
        a != b ==> (a.spec_less(b) || b.spec_less(a)),
        !(a.spec_less(b) && b.spec_less(a)),
        !a.spec_less(a),
{
}

proof fn lemma_less_transitive(a: Version, b: Version, c: Version)
    requires
        a.spec_less(b),
        b.spec_less(c),
    ensures
        a.spec_less(c),
{
}

proof fn lemma_lookup_some(s: Seq<Candidate>, v: Version)
    ensures
        lookup(s, v) is Some <==> exists|i: int| 0 <= i < s.len() && s[i].version == v,
    decreases s.len(),
{
    if s.len() > 0 {
        let p = s.drop_last();
        lemma_lookup_some(p, v);
        if lookup(p, v) is Some {
            let i = choose|i: int| 0 <= i < p.len() && p[i].version == v;
            assert(s[i] == p[i]);
        }
        if exists|i: int| 0 <= i < s.len() && s[i].version == v {
            let i = choose|i: int| 0 <= i < s.len() && s[i].version == v;
            if i < p.len() {
                assert(p[i] == s[i]);
            }
        }
    }
}

proof fn lemma_lookup_push(s: Seq<Candidate>, c: Candidate, v: Version)
    ensures
        lookup(s.push(c), v) == (if lookup(s, v) is Some {
            lookup(s, v)
        } else if c.version == v {
            Some(c.path@)
        } else {
            None
        }),
{
    assert(s.push(c).drop_last() =~= s);
}

/// The registry keeps, for each version, exactly the first candidate found.
pub proof fn lemma_registry_lookup(cands: Seq<Candidate>, v: Version)
    ensures
        lookup(registry_of(cands), v) == lookup(cands, v),
    decreases cands.len(),
{
    if cands.len() > 0 {
        let p = cands.drop_last();
        let c = cands.last();
        lemma_registry_lookup(p, v);
        lemma_registry_lookup(p, c.version);
        let r = registry_of(p);
        if lookup(r, c.version) is None {
            lemma_lookup_push(r, c, v);
        }
    }
}

/// In a sequence with distinct versions, looking up an entry's version finds
/// that entry.
pub proof fn lemma_lookup_unique(s: Seq<Candidate>, k: int)
    requires
        unique_versions(s),
        0 <= k < s.len(),
    ensures
        lookup(s, s[k].version) == Some(s[k].path@),
    decreases s.len(),
{
    let p = s.drop_last();
    if k < s.len() - 1 {
        assert(p[k] == s[k]);
        lemma_lookup_unique(p, k);
    } else {
        lemma_lookup_some(p, s[k].version);
        if lookup(p, s[k].version) is Some {
            let i = choose|i: int| 0 <= i < p.len() && p[i].version == s[k].version;
            assert(p[i] == s[i]);
        }
    }
}

pub proof fn lemma_registry_wf(cands: Seq<Candidate>)
    requires
        fully_qualified(cands),
    ensures
        unique_versions(registry_of(cands)),
        fully_qualified(registry_of(cands)),
    decreases cands.len(),
{
    if cands.len() > 0 {
        let p = cands.drop_last();
        assert forall|i: int| 0 <= i < p.len() implies (#[trigger] p[i]).version.minor is Some by {
            assert(p[i] == cands[i]);
        }
        lemma_registry_wf(p);
        let r = registry_of(p);
        lemma_lookup_some(r, cands.last().version);
        assert(fully_qualified(cands) ==> cands[cands.len() - 1].version.minor is Some);
    }
}

/// `best_index` picks an accepted entry that no accepted entry exceeds, and
/// finds one whenever any entry is accepted.
pub proof fn lemma_best_index(s: Seq<Candidate>, req: Option<Version>)
    ensures
        -1 <= best_index(s, req) < s.len(),
        best_index(s, req) >= 0 ==> accepts(req, s[best_index(s, req)].version),
        best_index(s, req) >= 0 ==> forall|j: int|
            0 <= j < s.len() && accepts(req, #[trigger] s[j].version)
                ==> !s[best_index(s, req)].version.spec_less(s[j].version),
        best_index(s, req) < 0 <==> forall|j: int|
            0 <= j < s.len() ==> !accepts(req, #[trigger] s[j].version),
    decreases s.len(),
{
    if s.len() > 0 {
        let p = s.drop_last();
        lemma_best_index(p, req);
        let k = best_index(p, req);
        let last = s.last();
        if k >= 0 {
            assert(s[k] == p[k]);
        }
        assert forall|j: int| 0 <= j < p.len() implies #[trigger] s[j] == p[j] by {}
        let b = best_index(s, req);
        if b >= 0 {
            assert forall|j: int| 0 <= j < s.len() && accepts(req, #[trigger] s[j].version)
                implies !s[b].version.spec_less(s[j].version) by {
                lemma_less_total(s[b].version, s[j].version);
                if j < p.len() {
                    assert(s[j] == p[j]);
                    if b == s.len() - 1 && k >= 0 {
                        if s[b].version.spec_less(s[j].version) {
                            lemma_less_transitive(s[k].version, s[b].version, s[j].version);
                        }
                    }
                }
            }
        }
        if b < 0 {
            assert forall|j: int| 0 <= j < s.len() implies !accepts(req, #[trigger] s[j].version) by {
                if j < p.len() {
                    assert(s[j] == p[j]);
                }
            }
        }
    }
}

/// The catalogue of interpreters found on the search path: one entry per
/// version, the first one found winning.
pub struct Registry {
    entries: Vec<Candidate>,
}

impl Registry {
    pub closed spec fn view(&self) -> Seq<Candidate> {
        self.entries@
    }

    pub open spec fn wf(&self) -> bool {
        unique_versions(self@) && fully_qualified(self@)
    }

    pub fn new() -> (r: Registry)
        ensures
            r@ == Seq::<Candidate>::empty(),
            r.wf(),
    {
        Registry { entries: Vec::new() }
    }

    /// The path of the entry with version `v`, if there is one.
    pub fn get(&self, v: &Version) -> (r: Option<String>)
        ensures
            r is Some == (lookup(self@, *v) is Some),
            r is Some ==> r.unwrap()@ == lookup(self@, *v).unwrap(),
    {
        let mut i: usize = 0;
        while i < self.entries.len()
            invariant
                i <= self.entries@.len(),
                lookup(self.entries@.subrange(0, i as int), *v) is None,
            decreases self.entries@.len() - i,
        {
            let ghost s = self.entries@;
            proof {
                lemma_lookup_push(s.subrange(0, i as int), s[i as int], *v);
                assert(s.subrange(0, i as int).push(s[i as int]) =~= s.subrange(0, i as int + 1));
            }
            if self.entries[i].version == *v {
                proof {
                    lemma_lookup_prefix(s, i as int + 1, *v);
                }
                return Some(self.entries[i].path.clone());
            }
            i = i + 1;
        }
        proof {
            assert(self.entries@.subrange(0, i as int) =~= self.entries@);
        }
        None
    }

    /// Adds a candidate unless its version is already present.
    pub fn insert(&mut self, c: Candidate)
        requires
            old(self).wf(),
            c.version.minor is Some,
        ensures
            final(self).wf(),
            final(self)@ == (if lookup(old(self)@, c.version) is Some {
                old(self)@
            } else {
                old(self)@.push(c)
            }),
    {
        let present = self.get(&c.version);
        if present.is_none() {
            proof {
                lemma_lookup_some(self@, c.version);
            }
            self.entries.push(c);
        }
    }

    /// Builds the registry from candidates in the order they were found.
    pub fn from_candidates(cands: &Vec<Candidate>) -> (r: Registry)
        requires
            fully_qualified(cands@),
        ensures
            r.wf(),
            r@ == registry_of(cands@),
    {
        let mut r = Registry::new();
        let mut i: usize = 0;
        while i < cands.len()
            invariant
                i <= cands@.len(),
                fully_qualified(cands@),
                r.wf(),
                r@ == registry_of(cands@.subrange(0, i as int)),
            decreases cands@.len() - i,
        {
            proof {
                assert(cands@.subrange(0, i as int + 1).drop_last() =~= cands@.subrange(0, i as int));
                assert(cands@[i as int].version.minor is Some);
            }
            let c = copy_candidate(&cands[i]);
            r.insert(c);
            i = i + 1;
        }
        proof {
            assert(cands@.subrange(0, i as int) =~= cands@);
        }
        r
    }

    /// The path of the highest version that `req` accepts (any version when
    /// `req` is `None`).
    pub fn best_match(&self, req: Option<Version>) -> (r: Option<String>)
        ensures
            r is Some == (best_index(self@, req) >= 0),
            r is Some ==> r.unwrap()@ == self@[best_index(self@, req)].path@,
    {
        let mut best: Option<usize> = None;
        let mut i: usize = 0;
        while i < self.entries.len()
            invariant
                i <= self.entries@.len(),
                best_index(self.entries@.subrange(0, i as int), req) == (match best {
                    Some(k) => k as int,
                    None => -1,
                }),
            decreases self.entries@.len() - i,
        {
            let ghost s = self.entries@;
            proof {
                let t = s.subrange(0, i as int + 1);
                assert(t.drop_last() =~= s.subrange(0, i as int));
                lemma_best_index(s.subrange(0, i as int), req);
                match best {
                    Some(k) => { assert(t[k as int] == s[k as int]); },
                    None => {},
                }
            }
            let ok = match req {
                None => true,
                Some(q) => q.matches(&self.entries[i].version),
            };
            if ok {
                match best {
                    None => { best = Some(i); },
                    Some(k) => {
                        if self.entries[k].version.less_than(&self.entries[i].version) {
                            best = Some(i);
                        }
                    },
                }
            }
            i = i + 1;
        }
        proof {
            assert(self.entries@.subrange(0, i as int) =~= self.entries@);
            lemma_best_index(self.entries@, req);
        }
        match best {
            Some(k) => Some(self.entries[k].path.clone()),
            None => None,
        }
    }

    /// All entries, highest version first.
    pub fn all(&self) -> (r: Vec<Candidate>)
        requires
            self.wf(),
        ensures
            is_listing_of(r@, self@),
    {
        let mut out: Vec<Candidate> = Vec::new();
        let mut i: usize = 0;
        while i < self.entries.len()
            invariant
                i <= self.entries@.len(),
                self.wf(),
                is_listing_of(out@, self.entries@.subrange(0, i as int)),
            decreases self.entries@.len() - i,
        {
            let ghost e = self.entries@;
            let ghost pre = e.subrange(0, i as int);
            let x = copy_candidate(&self.entries[i]);
            proof {
                assert forall|k: int| 0 <= k < out@.len() implies out@[k].version != x.version by {
                    assert(pre.contains(out@[k]));
                    let m = choose|m: int| 0 <= m < pre.len() && pre[m] == out@[k];
                    assert(e[m] == pre[m]);
                }
            }
            let mut pos: usize = 0;
            while pos < out.len() && !out[pos].version.less_than(&x.version)
                invariant
                    pos <= out@.len(),
                    forall|k: int| 0 <= k < pos ==> x.version.spec_less(#[trigger] out@[k].version),
                    forall|k: int| 0 <= k < out@.len() ==> out@[k].version != x.version,
                decreases out@.len() - pos,
            {
                proof { lemma_less_total(x.version, out@[pos as int].version); }
                pos = pos + 1;
            }
            let ghost old_out = out@;
            out.insert(pos, x);
            proof {
                let n = out@;
                let post = e.subrange(0, i as int + 1);
                assert(post =~= pre.push(e[i as int]));
                assert forall|a: int, b: int| 0 <= a < b < n.len()
                    implies n[b].version.spec_less(n[a].version) by {
                    if b < pos {
                    } else if b == pos {
                    } else if a < pos {
                        lemma_less_total(x.version, old_out[pos as int].version);
                        if a < pos && b - 1 > pos {
                            lemma_less_transitive(old_out[b - 1].version, old_out[pos as int].version, x.version);
                        }
                        lemma_less_transitive(old_out[b - 1].version, x.version, old_out[a].version);
                    } else if a == pos {
                        lemma_less_total(x.version, old_out[pos as int].version);
                        if b - 1 > pos {
                            lemma_less_transitive(old_out[b - 1].version, old_out[pos as int].version, x.version);
                        }
                    }
                }
                assert forall|y: Candidate| n.contains(y) <==> post.contains(y) by {
                    if n.contains(y) {
                        let k = choose|k: int| 0 <= k < n.len() && n[k] == y;
                        if k < pos {
                            assert(old_out[k] == y);
                            assert(old_out.contains(y));
                        } else if k == pos {
                            assert(post[i as int] == y);
                        } else {
                            assert(old_out[k - 1] == y);
                            assert(old_out.contains(y));
                        }
                        if old_out.contains(y) {
                            let m = choose|m: int| 0 <= m < pre.len() && pre[m] == y;
                            assert(post[m] == y);
                        }
                    }
                    if post.contains(y) {
                        let m = choose|m: int| 0 <= m < post.len() && post[m] == y;
                        if m < pre.len() {
                            assert(pre[m] == y);
                            assert(pre.contains(y));
                            let k = choose|k: int| 0 <= k < old_out.len() && old_out[k] == y;
                            if k < pos {
                                assert(n[k] == y);
                            } else {
                                assert(n[k + 1] == y);
                            }
                        } else {
                            assert(n[pos as int] == y);
                        }
                    }
                }
            }
            i = i + 1;
        }
        proof {
            assert(self.entries@.subrange(0, i as int) =~= self.entries@);
        }
        out
    }

    /// The listing text: every entry on a line of its own, highest version first.
    pub fn listing(&self) -> (r: String)
        requires
            self.wf(),
        ensures
            exists|s: Seq<Candidate>| is_listing_of(s, self@) && r@ == listing_text(s),
    {
        let sorted = self.all();
        format_listing(&sorted)
    }
}

/// The listing text of `entries`, in their order.
pub fn format_listing(entries: &Vec<Candidate>) -> (r: String)
    ensures
        r@ == listing_text(entries@),
{
    let mut r = String::new();
    let mut i: usize = 0;
    while i < entries.len()
        invariant
            i <= entries@.len(),
            r@ == listing_text(entries@.subrange(0, i as int)),
        decreases entries@.len() - i,
    {
        proof {
            assert(entries@.subrange(0, i as int + 1).drop_last() =~= entries@.subrange(0, i as int));
            reveal_strlit("\t");
            reveal_strlit("\n");
        }
        let v = entries[i].version.to_string();
        r.append(v.as_str());
        r.append("\t");
        r.append(entries[i].path.as_str());
        r.append("\n");
        i = i + 1;
    }
    proof {
        assert(entries@.subrange(0, i as int) =~= entries@);
    }
    r
}

proof fn lemma_lookup_prefix(s: Seq<Candidate>, k: int, v: Version)
    requires
        0 <= k <= s.len(),
        lookup(s.subrange(0, k), v) is Some,
    ensures
        lookup(s, v) == lookup(s.subrange(0, k), v),
    decreases s.len() - k,
{
    if k < s.len() {
        lemma_lookup_push(s.subrange(0, k), s[k], v);
        assert(s.subrange(0, k).push(s[k]) =~= s.subrange(0, k + 1));
        lemma_lookup_prefix(s, k + 1, v);
    } else {
        assert(s.subrange(0, k) =~= s);
    }
}

/// The listing of the registry built from `cands` holds each discovered
/// version exactly once, highest first, duplicates across directories
/// included.
pub proof fn law_listing_one_per_version(cands: Seq<Candidate>, s: Seq<Candidate>, v: Version)
    requires
        fully_qualified(cands),
        is_listing_of(s, registry_of(cands)),
    ensures
        descending(s),
        unique_versions(s),
        (exists|i: int| 0 <= i < s.len() && s[i].version == v)
            <==> (exists|j: int| 0 <= j < cands.len() && cands[j].version == v),
{
    let reg = registry_of(cands);
    assert forall|i: int, j: int| 0 <= i < j < s.len() implies s[i].version != s[j].version by {
        lemma_less_total(s[i].version, s[j].version);
    }
    lemma_registry_lookup(cands, v);
    lemma_lookup_some(reg, v);
    lemma_lookup_some(cands, v);
    if exists|i: int| 0 <= i < s.len() && s[i].version == v {
        let i = choose|i: int| 0 <= i < s.len() && s[i].version == v;
        assert(s.contains(s[i]));
        assert(reg.contains(s[i]));
    }
    if exists|j: int| 0 <= j < reg.len() && reg[j].version == v {
        let j = choose|j: int| 0 <= j < reg.len() && reg[j].version == v;
        assert(reg.contains(reg[j]));
        assert(s.contains(reg[j]));
    }
}

} // verus!
