//! Detection of the installed version from file content: SHA-256 digests in
//! lowercase hex, and a scan over the catalog from newest to oldest that asks
//! for the digest of each file it needs at most once.

use crate::catalog::{Determinants, Version};
use vstd::prelude::*;

verus! {

/// The SHA-256 digest of `data`.
pub uninterp spec fn sha256_of(data: Seq<u8>) -> Seq<u8>;

/// Relies on `sha2::Sha256::digest`: the 32-byte SHA-256 digest of `data`.
#[verifier::external_body]
fn sha256(data: &[u8]) -> (r: Vec<u8>)
    ensures
        r@ == sha256_of(data@),
        r@.len() == 32,
{
    <sha2::Sha256 as sha2::Digest>::digest(data).to_vec()
}

/// The lowercase hex digit of a value below 16.
pub open spec fn hex_digit(n: int) -> char {
    seq!['0', '1', '2', '3', '4', '5', '6', '7', '8', '9', 'a', 'b', 'c', 'd', 'e', 'f'][n]
}

/// Lowercase hex of `b`: two digits per byte, the high half first.
pub open spec fn hex_lower(b: Seq<u8>) -> Seq<char>
    decreases b.len(),
{
    if b.len() == 0 {
        Seq::empty()
    } else {
        hex_lower(b.drop_last()) + seq![hex_digit(b.last() as int / 16), hex_digit(b.last() as int % 16)]
    }
}

/// Relies on `base16ct::lower::encode_string`: lowercase hex, two digits per
/// byte with the high half first. It panics only on inputs longer than half
/// the address space.
#[verifier::external_body]
fn lower_hex(b: &[u8]) -> (r: String)
    requires
        b@.len() <= usize::MAX / 2,
    ensures
        r@ == hex_lower(b@),
{
    base16ct::lower::encode_string(b)
}

/// The digest of a file's content as the catalog writes it: SHA-256 in
/// lowercase hex.
pub fn file_digest(data: &[u8]) -> (r: String)
    ensures
        r@ == hex_lower(sha256_of(data@)),
{
    let d = sha256(data);
    lower_hex(d.as_slice())
}

/// What the cache `c` knows of `file`: nothing, or the digest that was found
/// for it (none when the file could not be opened). The latest entry wins.
pub open spec fn lookup(c: Seq<(String, Option<String>)>, file: Seq<char>) -> Option<Option<Seq<char>>>
    decreases c.len(),
{
    if c.len() == 0 {
        None
    } else if c.last().0@ == file {
        Some(
            match c.last().1 {
                Some(h) => Some(h@),
                None => None,
            },
        )
    } else {
        lookup(c.drop_last(), file)
    }
}

/// The cache shows that the determinant `d` holds.
pub open spec fn det_holds(d: Determinants, c: Seq<(String, Option<String>)>) -> bool {
    lookup(c, d.file@) == Some(Some(d.sha256@))
}

/// The cache shows that the determinant `d` fails.
pub open spec fn det_fails(d: Determinants, c: Seq<(String, Option<String>)>) -> bool {
    &&& lookup(c, d.file@) is Some
    &&& lookup(c, d.file@) != Some(Some(d.sha256@))
}

/// Every determinant of `v` holds according to the cache.
pub open spec fn accepted(v: Version, c: Seq<(String, Option<String>)>) -> bool {
    forall|k: int| 0 <= k < v.determinants@.len() ==> #[trigger] det_holds(v.determinants@[k], c)
}

/// Some determinant of `v` fails according to the cache.
pub open spec fn rejected(v: Version, c: Seq<(String, Option<String>)>) -> bool {
    exists|k: int| 0 <= k < v.determinants@.len() && #[trigger] det_fails(v.determinants@[k], c)
}

/// Why the installed version could not be told.
pub enum GetVersionError {
    /// A determinant file could be opened but not read.
    Io(String),
    /// No version of the catalog matches the tree.
    VersionNotFound,
    /// No installation path was given.
    MissingPath,
}

/// What the scan asks of its caller next.
pub enum ScanStep {
    /// The digest of this file, relative to the tree root, is needed.
    NeedDigest(String),
    /// The version at this index is the newest whose determinants all hold.
    Found(usize),
    /// No version of the catalog matches the tree.
    NotFound,
}

/// A scan of the catalog from the newest version to the oldest. Versions at
/// `remaining` and above are rejected; the candidate is the version just
/// below `remaining`, whose first `determinant` determinants hold.
pub struct VersionScan {
    pub remaining: usize,
    pub determinant: usize,
    pub cache: Vec<(String, Option<String>)>,
}

fn cache_get<'a>(c: &'a Vec<(String, Option<String>)>, file: &String) -> (r: Option<&'a Option<String>>)
    ensures
        match r {
            None => lookup(c@, file@) is None,
            Some(h) => lookup(c@, file@) == Some(
                match *h {
                    Some(s) => Some(s@),
                    None => None,
                },
            ),
        },
{
    let mut i: usize = c.len();
    assert(c@.take(i as int) =~= c@);
    while i > 0
        invariant
            i <= c@.len(),
            lookup(c@, file@) == lookup(c@.take(i as int), file@),
        decreases i,
    {
        assert(c@.take(i as int).drop_last() =~= c@.take(i - 1));
        if c[i - 1].0 == *file {
            return Some(&c[i - 1].1);
        }
        i = i - 1;
    }
    None
}

impl VersionScan {
    /// The scan state is consistent with the catalog `vs`.
    pub open spec fn wf(&self, vs: Seq<Version>) -> bool {
        &&& self.remaining <= vs.len()
        &&& forall|j: int| self.remaining <= j < vs.len() ==> #[trigger] rejected(vs[j], self.cache@)
        &&& self.remaining > 0 ==> {
            &&& self.determinant <= vs[self.remaining - 1].determinants@.len()
            &&& forall|k: int| 0 <= k < self.determinant ==> #[trigger] det_holds(
                vs[self.remaining - 1].determinants@[k],
                self.cache@,
            )
        }
    }

    /// A scan that has looked at nothing yet.
    pub fn start(versions: &Vec<Version>) -> (r: VersionScan)
        ensures
            r.wf(versions@),
            r.cache@.len() == 0,
    {
        VersionScan { remaining: versions.len(), determinant: 0, cache: Vec::new() }
    }

    /// Advances the scan as far as the cache allows.
    pub fn next(&mut self, versions: &Vec<Version>) -> (r: ScanStep)
        requires
            old(self).wf(versions@),
        ensures
            final(self).wf(versions@),
            final(self).cache == old(self).cache,
            r matches ScanStep::Found(k) ==> {
                &&& k < versions@.len()
                &&& accepted(versions@[k as int], final(self).cache@)
                &&& forall|j: int| k < j < versions@.len() ==> #[trigger] rejected(versions@[j], final(self).cache@)
            },
            r is NotFound ==> forall|j: int| 0 <= j < versions@.len() ==> #[trigger] rejected(versions@[j], final(self).cache@),
            r matches ScanStep::NeedDigest(f) ==> {
                &&& lookup(final(self).cache@, f@) is None
                &&& 0 < final(self).remaining
                &&& final(self).determinant < versions@[final(self).remaining - 1].determinants@.len()
                &&& f@ == versions@[final(self).remaining - 1].determinants@[final(self).determinant as int].file@
            },
    {
        loop
            invariant
                self.wf(versions@),
                self.cache == old(self).cache,
            decreases self.remaining, versions@[self.remaining - 1].determinants@.len() - self.determinant,
        {
            if self.remaining == 0 {
                return ScanStep::NotFound;
            }
            let v = &versions[self.remaining - 1];
            if self.determinant == v.determinants.len() {
                return ScanStep::Found(self.remaining - 1);
            }
            let d = &v.determinants[self.determinant];
            match cache_get(&self.cache, &d.file) {
                None => {
                    return ScanStep::NeedDigest(d.file.clone());
                },
                Some(Some(h)) => {
                    if *h == d.sha256 {
                        self.determinant = self.determinant + 1;
                    } else {
                        assert(det_fails(v.determinants@[self.determinant as int], self.cache@));
                        self.remaining = self.remaining - 1;
                        self.determinant = 0;
                    }
                },
                Some(None) => {
                    assert(det_fails(v.determinants@[self.determinant as int], self.cache@));
                    self.remaining = self.remaining - 1;
                    self.determinant = 0;
                },
            }
        }
    }

    /// Records the digest found for `file`, or none when it could not be
    /// opened. A file the cache already knows keeps its first record.
    pub fn record(&mut self, versions: &Vec<Version>, file: String, digest: Option<String>)
        requires
            old(self).wf(versions@),
        ensures
            final(self).wf(versions@),
            final(self).remaining == old(self).remaining,
            final(self).determinant == old(self).determinant,
            forall|f: Seq<char>| #[trigger] lookup(old(self).cache@, f) is Some ==> lookup(final(self).cache@, f) == lookup(old(self).cache@, f),
            lookup(old(self).cache@, file@) is None ==> lookup(final(self).cache@, file@) == Some(
                match digest {
                    Some(h) => Some(h@),
                    None => None,
                },
            ),
    {
        let ghost before = self.cache@;
        if cache_get(&self.cache, &file).is_some() {
            return;
        }
        self.cache.push((file, digest));
        assert(self.cache@.drop_last() =~= before);
        assert forall|f: Seq<char>| #[trigger] lookup(before, f) is Some implies lookup(self.cache@, f) == lookup(before, f) by {
            if f == file@ {
                assert(false);
            }
        }
        assert forall|j: int| self.remaining <= j < versions@.len() implies #[trigger] rejected(versions@[j], self.cache@) by {
            assert(rejected(versions@[j], before));
            let k = choose|k: int| 0 <= k < versions@[j].determinants@.len() && #[trigger] det_fails(versions@[j].determinants@[k], before);
            assert(lookup(before, versions@[j].determinants@[k].file@) is Some);
            assert(det_fails(versions@[j].determinants@[k], self.cache@));
        }
        if self.remaining > 0 {
            assert forall|k: int| 0 <= k < self.determinant implies #[trigger] det_holds(
                versions@[self.remaining - 1].determinants@[k],
                self.cache@,
            ) by {
                assert(det_holds(versions@[self.remaining - 1].determinants@[k], before));
                assert(lookup(before, versions@[self.remaining - 1].determinants@[k].file@) is Some);
            }
        }
    }
}


/// Every determinant of `v` holds in the tree `fs`, which maps each file that
/// can be opened to the digest of its content.
pub open spec fn matches_tree(v: Version, fs: Map<Seq<char>, Seq<char>>) -> bool {
    forall|k: int| 0 <= k < v.determinants@.len() ==> {
        &&& fs.contains_key(#[trigger] v.determinants@[k].file@)
        &&& fs[v.determinants@[k].file@] == v.determinants@[k].sha256@
    }
}

/// The newest of the first `n` versions that matches the tree.
pub open spec fn installed_below(vs: Seq<Version>, fs: Map<Seq<char>, Seq<char>>, n: int) -> Option<int>
    decreases n,
{
    if n <= 0 {
        None
    } else if matches_tree(vs[n - 1], fs) {
        Some(n - 1)
    } else {
        installed_below(vs, fs, n - 1)
    }
}

/// The installed version: the newest version of the catalog that matches
/// the tree.
pub open spec fn installed_version(vs: Seq<Version>, fs: Map<Seq<char>, Seq<char>>) -> Option<int> {
    installed_below(vs, fs, vs.len() as int)
}

/// Every record of the cache is true of the tree `fs`.
pub open spec fn cache_agrees(c: Seq<(String, Option<String>)>, fs: Map<Seq<char>, Seq<char>>) -> bool {
    forall|f: Seq<char>| #[trigger] lookup(c, f) is Some ==> lookup(c, f) == Some(
        if fs.contains_key(f) {
            Some(fs[f])
        } else {
            None
        },
    )
}

proof fn lemma_verdicts_hold(v: Version, c: Seq<(String, Option<String>)>, fs: Map<Seq<char>, Seq<char>>)
    requires
        cache_agrees(c, fs),
    ensures
        accepted(v, c) ==> matches_tree(v, fs),
        rejected(v, c) ==> !matches_tree(v, fs),
{
    if accepted(v, c) {
        assert forall|k: int| 0 <= k < v.determinants@.len() implies {
            &&& fs.contains_key(#[trigger] v.determinants@[k].file@)
            &&& fs[v.determinants@[k].file@] == v.determinants@[k].sha256@
        } by {
            assert(det_holds(v.determinants@[k], c));
            assert(lookup(c, v.determinants@[k].file@) is Some);
        }
    }
    if rejected(v, c) {
        let k = choose|k: int| 0 <= k < v.determinants@.len() && #[trigger] det_fails(v.determinants@[k], c);
        assert(lookup(c, v.determinants@[k].file@) is Some);
    }
}

proof fn lemma_rejected_above(vs: Seq<Version>, c: Seq<(String, Option<String>)>, fs: Map<Seq<char>, Seq<char>>, k: int, n: int)
    requires
        cache_agrees(c, fs),
        0 <= k <= n <= vs.len(),
        forall|j: int| k <= j < vs.len() ==> #[trigger] rejected(vs[j], c),
    ensures
        installed_below(vs, fs, n) == installed_below(vs, fs, k),
    decreases n,
{
    if n > k {
        lemma_verdicts_hold(vs[n - 1], c, fs);
        lemma_rejected_above(vs, c, fs, k, n - 1);
    }
}

/// A scan that stops on version `k` found the installed version: when every
/// record of its cache is true of the tree, the version it accepts while it
/// rejects every newer one is the newest version that matches the tree,
/// whatever the older versions hold.
pub proof fn lemma_scan_finds_installed(
    vs: Seq<Version>,
    c: Seq<(String, Option<String>)>,
    fs: Map<Seq<char>, Seq<char>>,
    k: int,
)
    requires
        cache_agrees(c, fs),
        0 <= k < vs.len(),
        accepted(vs[k], c),
        forall|j: int| k < j < vs.len() ==> #[trigger] rejected(vs[j], c),
    ensures
        installed_version(vs, fs) == Some(k),
{
    lemma_rejected_above(vs, c, fs, k + 1, vs.len() as int);
    lemma_verdicts_hold(vs[k], c, fs);
}

/// A scan that rejects every version is right that none matches the tree,
/// when every record of its cache is true of the tree.
pub proof fn lemma_scan_finds_none(vs: Seq<Version>, c: Seq<(String, Option<String>)>, fs: Map<Seq<char>, Seq<char>>)
    requires
        cache_agrees(c, fs),
        forall|j: int| 0 <= j < vs.len() ==> #[trigger] rejected(vs[j], c),
    ensures
        installed_version(vs, fs) is None,
{
    lemma_rejected_above(vs, c, fs, 0, vs.len() as int);
}

} // verus!
