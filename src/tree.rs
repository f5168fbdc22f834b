//! Deltas of whole directory trees. A tree is held as its regular files, each
//! a path relative to the tree's root and a content; an archive is a list of
//! per-file deltas keyed by the same relative paths.

use crate::delta::{
    apply_delta, chunked_delta, generate_delta, made_from, patched, piece_sizes_fit, sizes_fit, CHUNK_SIZE,
};
use vstd::prelude::*;

verus! {

/// A regular file of a tree: its path relative to the root, and its content.
pub struct TreeFile {
    pub path: String,
    pub content: Vec<u8>,
}

/// One entry of a delta archive: a relative path and the delta of that file.
pub struct ArchiveEntry {
    pub path: String,
    pub delta: Vec<u8>,
}

/// Progress of a tree diff: files done, out of the files of the new tree.
#[derive(Clone, Copy)]
pub struct DiffState {
    pub done: usize,
    pub out_of: usize,
}

/// The file that a tree patch is working on.
pub struct CurrentPatchingPath {
    pub path: String,
}

/// Why a tree diff failed.
pub enum DiffError {
    /// A file could not be read or the archive could not be written.
    Io(String),
    /// The new tree could not be walked.
    Walkdir(String),
    /// The delta of a file could not be computed.
    DdeltaDiff(anyhow::Error),
    /// The old and new paths are not both directories.
    TypeMismatch,
}

/// Why a tree patch failed.
pub enum PatchError {
    /// A file could not be read or written.
    Io(String),
    /// An entry of the archive is not a delta for its old file.
    DdeltaPatch(anyhow::Error),
    /// The pieces of an entry's delta announce more new bytes in all than a
    /// 64-bit count holds, so it cannot be a delta at all.
    DeltaSizeOverflow,
    /// The old path is not a directory, or the destination is not one and exists.
    TypeMismatch,
}

/// What a path given to a diff or a patch names.
#[derive(Clone, Copy, PartialEq, Eq, Structural)]
pub enum InputKind {
    File,
    Directory,
    /// Nothing is there.
    Missing,
    /// Something that is neither a regular file nor a directory.
    Other,
}

/// How a diff or a patch works on the paths it was given.
#[derive(Clone, Copy, PartialEq, Eq, Structural)]
pub enum TreeMode {
    /// Both are directories: every file of the tree.
    Tree,
    /// Both are regular files: the one file.
    SingleFile,
}

/// Both paths are directories, or both are regular files; anything else is
/// a mismatch.
pub fn diff_mode(old: InputKind, new: InputKind) -> (r: Result<TreeMode, DiffError>)
    ensures
        old == InputKind::Directory && new == InputKind::Directory ==> r == Ok::<TreeMode, DiffError>(TreeMode::Tree),
        old == InputKind::File && new == InputKind::File ==> r == Ok::<TreeMode, DiffError>(TreeMode::SingleFile),
        !(old == InputKind::Directory && new == InputKind::Directory) && !(old == InputKind::File && new == InputKind::File)
            ==> (r matches Err(DiffError::TypeMismatch)),
{
    match (old, new) {
        (InputKind::Directory, InputKind::Directory) => Ok(TreeMode::Tree),
        (InputKind::File, InputKind::File) => Ok(TreeMode::SingleFile),
        _ => Err(DiffError::TypeMismatch),
    }
}

/// A destination that is of the kind `kind`, or is yet to be made.
pub open spec fn fits(destination: InputKind, kind: InputKind) -> bool {
    destination == kind || destination == InputKind::Missing
}

/// A patch works on a directory into a directory that exists or is to be
/// made, or on a regular file into a file that exists or is to be made;
/// anything else is a mismatch.
pub fn patch_mode(old: InputKind, destination: InputKind) -> (r: Result<TreeMode, PatchError>)
    ensures
        old == InputKind::Directory && fits(destination, InputKind::Directory) ==> r == Ok::<TreeMode, PatchError>(
            TreeMode::Tree,
        ),
        old == InputKind::File && fits(destination, InputKind::File) ==> r == Ok::<TreeMode, PatchError>(
            TreeMode::SingleFile,
        ),
        !(old == InputKind::Directory && fits(destination, InputKind::Directory)) && !(old == InputKind::File && fits(
            destination,
            InputKind::File,
        )) ==> (r matches Err(PatchError::TypeMismatch)),
{
    match (old, destination) {
        (InputKind::Directory, InputKind::Directory) | (InputKind::Directory, InputKind::Missing) => Ok(TreeMode::Tree),
        (InputKind::File, InputKind::File) | (InputKind::File, InputKind::Missing) => Ok(TreeMode::SingleFile),
        _ => Err(PatchError::TypeMismatch),
    }
}

impl DiffState {
    /// The state before the first file, out of `out_of` files.
    pub fn new(out_of: usize) -> (r: DiffState)
        ensures
            r.done == 0,
            r.out_of == out_of,
    {
        DiffState { done: 0, out_of }
    }

    /// The state after one more file is done.
    pub fn advance(self) -> (r: DiffState)
        requires
            self.done < usize::MAX,
        ensures
            r.done == self.done + 1,
            r.out_of == self.out_of,
    {
        DiffState { done: self.done + 1, out_of: self.out_of }
    }
}

/// Index of the last file of `t` whose path is `p`, or -1 when none is.
pub open spec fn find_file(t: Seq<TreeFile>, p: Seq<char>) -> int
    decreases t.len(),
{
    if t.len() == 0 {
        -1
    } else if t.last().path@ == p {
        t.len() - 1
    } else {
        find_file(t.drop_last(), p)
    }
}

/// A tree as (path, content) pairs.
pub open spec fn tree_view(t: Seq<TreeFile>) -> Seq<(Seq<char>, Seq<u8>)> {
    t.map_values(|f: TreeFile| (f.path@, f.content@))
}

/// An archive as (path, delta) pairs.
pub open spec fn archive_view(a: Seq<ArchiveEntry>) -> Seq<(Seq<char>, Seq<u8>)> {
    a.map_values(|e: ArchiveEntry| (e.path@, e.delta@))
}

/// Every file of `new` has a file of the same path in `old`.
pub open spec fn covered(old: Seq<TreeFile>, new: Seq<TreeFile>) -> bool {
    forall|k: int| 0 <= k < new.len() ==> find_file(old, #[trigger] new[k].path@) >= 0
}

/// The archive that diffing `old` against `new` with pieces of `chunk` bytes
/// gives: for each file of `new` in order that has a counterpart in `old`, its
/// path and the delta from the counterpart to it.
pub open spec fn diff_entries(old: Seq<TreeFile>, new: Seq<TreeFile>, chunk: nat) -> Seq<(Seq<char>, Seq<u8>)>
    decreases new.len(),
{
    if new.len() == 0 {
        Seq::empty()
    } else {
        let rest = diff_entries(old, new.drop_last(), chunk);
        let f = new.last();
        let i = find_file(old, f.path@);
        if i >= 0 {
            rest.push((f.path@, chunked_delta(old[i].content@, f.content@, chunk)))
        } else {
            rest
        }
    }
}

/// The staged files that applying the archive `a` to `old` gives: for each
/// entry in order that has a counterpart in `old`, its path and the patched
/// content; none when one of those deltas cannot be applied.
pub open spec fn apply_entries(old: Seq<TreeFile>, a: Seq<ArchiveEntry>) -> Option<Seq<(Seq<char>, Seq<u8>)>>
    decreases a.len(),
{
    if a.len() == 0 {
        Some(Seq::empty())
    } else {
        let e = a.last();
        let i = find_file(old, e.path@);
        match apply_entries(old, a.drop_last()) {
            None => None,
            Some(rest) => if i < 0 {
                Some(rest)
            } else {
                match applied(old[i].content@, e.delta@) {
                    None => None,
                    Some(v) => Some(rest.push((e.path@, v))),
                }
            },
        }
    }
}

/// What applying the delta `d` to `old` gives: none when its pieces announce
/// too many bytes in all, else what the patch primitive gives.
pub open spec fn applied(old: Seq<u8>, d: Seq<u8>) -> Option<Seq<u8>> {
    if sizes_fit(d) {
        patched(old, d)
    } else {
        None
    }
}

/// Every delta of the archive `a` announces few enough bytes in all.
pub open spec fn all_fit(a: Seq<ArchiveEntry>) -> bool {
    forall|m: int| 0 <= m < a.len() ==> sizes_fit(#[trigger] a[m].delta@)
}

/// Applying `d` to `old` rebuilds whatever content `d` was made to lead to.
pub open spec fn sound_delta(old: Seq<u8>, d: Seq<u8>) -> bool {
    forall|new: Seq<u8>, c: nat| c > 0 && d == #[trigger] chunked_delta(old, new, c) ==> applied(old, d) == Some(new)
}

fn find_in_tree(t: &Vec<TreeFile>, p: &String) -> (r: Option<usize>)
    ensures
        match r {
            Some(i) => find_file(t@, p@) == i && i < t@.len(),
            None => find_file(t@, p@) == -1,
        },
{
    let mut i: usize = t.len();
    assert(t@.take(i as int) =~= t@);
    while i > 0
        invariant
            i <= t@.len(),
            find_file(t@, p@) == find_file(t@.take(i as int), p@),
        decreases i,
    {
        assert(t@.take(i as int).drop_last() =~= t@.take(i - 1));
        if t[i - 1].path == *p {
            return Some(i - 1);
        }
        i = i - 1;
    }
    None
}

proof fn lemma_find_file(t: Seq<TreeFile>, p: Seq<char>)
    ensures
        -1 <= find_file(t, p) < t.len(),
        find_file(t, p) >= 0 ==> t[find_file(t, p)].path@ == p,
    decreases t.len(),
{
    if t.len() > 0 && t.last().path@ != p {
        lemma_find_file(t.drop_last(), p);
    }
}

/// The archive entry of one file of the new tree: none when `old` has no file
/// of its path, else the delta from that file to it.
pub fn diff_entry(old: &Vec<TreeFile>, new_file: &TreeFile, chunk: usize) -> (r: Result<Option<ArchiveEntry>, DiffError>)
    requires
        chunk > 0,
    ensures
        r is Ok,
        r matches Ok(None) <==> find_file(old@, new_file.path@) < 0,
        r matches Ok(Some(e)) ==> sizes_fit(e.delta@),
        r matches Ok(Some(e)) ==> {
            &&& find_file(old@, new_file.path@) >= 0
            &&& e.path@ == new_file.path@
            &&& e.delta@ == chunked_delta(
                old@[find_file(old@, new_file.path@)].content@,
                new_file.content@,
                chunk as nat,
            )
        },
{
    match find_in_tree(old, &new_file.path) {
        None => Ok(None),
        Some(i) => {
            match generate_delta(old[i].content.as_slice(), new_file.content.as_slice(), chunk) {
                Ok(d) => Ok(Some(ArchiveEntry { path: new_file.path.clone(), delta: d })),
                Err(e) => Err(DiffError::DdeltaDiff(e)),
            }
        },
    }
}

/// The archive of deltas from `old` to `new`, with pieces of `chunk` bytes.
/// Files of `new` with no counterpart in `old` are left out.
pub fn diff_tree_chunked(old: &Vec<TreeFile>, new: &Vec<TreeFile>, chunk: usize) -> (r: Result<Vec<ArchiveEntry>, DiffError>)
    requires
        chunk > 0,
    ensures
        r is Ok,
        r matches Ok(a) ==> archive_view(a@) == diff_entries(old@, new@, chunk as nat) && all_fit(a@),
{
    let mut out: Vec<ArchiveEntry> = Vec::new();
    let mut k: usize = 0;
    while k < new.len()
        invariant
            chunk > 0,
            k <= new@.len(),
            archive_view(out@) == diff_entries(old@, new@.take(k as int), chunk as nat),
            all_fit(out@),
        decreases new@.len() - k,
    {
        assert(new@.take(k + 1).drop_last() =~= new@.take(k as int));
        match diff_entry(old, &new[k], chunk) {
            Ok(Some(e)) => {
                out.push(e);
                assert(archive_view(out@) =~= diff_entries(old@, new@.take(k + 1), chunk as nat));
            },
            Ok(None) => {
                assert(archive_view(out@) =~= diff_entries(old@, new@.take(k + 1), chunk as nat));
            },
            Err(e) => {
                return Err(e);
            },
        }
        k = k + 1;
    }
    assert(new@.take(k as int) =~= new@);
    Ok(out)
}

/// The archive of deltas from `old` to `new`, with the default piece size.
pub fn diff_tree(old: &Vec<TreeFile>, new: &Vec<TreeFile>) -> (r: Result<Vec<ArchiveEntry>, DiffError>)
    ensures
        r is Ok,
        r matches Ok(a) ==> archive_view(a@) == diff_entries(old@, new@, CHUNK_SIZE as nat) && all_fit(a@),
{
    diff_tree_chunked(old, new, CHUNK_SIZE)
}

/// The staged file of one archive entry: none when `old` has no file of its
/// path, else that file patched by the entry's delta.
pub fn apply_entry(old: &Vec<TreeFile>, entry: &ArchiveEntry) -> (r: Result<Option<TreeFile>, PatchError>)
    ensures
        find_file(old@, entry.path@) < 0 ==> r matches Ok(None),
        find_file(old@, entry.path@) >= 0 ==> {
            let base = old@[find_file(old@, entry.path@)].content@;
            &&& r is Ok <==> applied(base, entry.delta@) is Some
            &&& (r matches Ok(Some(f)) ==> f.path@ == entry.path@ && applied(base, entry.delta@) == Some(f.content@))
            &&& (r is Ok ==> (r matches Ok(Some(_))))
            &&& r is Ok ==> sound_delta(base, entry.delta@)
            &&& (r matches Err(PatchError::DdeltaPatch(_)) ==> !made_from(base, entry.delta@))
            &&& (!sizes_fit(entry.delta@) ==> (r matches Err(PatchError::DeltaSizeOverflow)))
        },
        r is Err ==> (r matches Err(PatchError::DdeltaPatch(_))) || (r matches Err(PatchError::DeltaSizeOverflow)),
        (r matches Err(PatchError::DeltaSizeOverflow)) ==> !sizes_fit(entry.delta@),
{
    match find_in_tree(old, &entry.path) {
        None => Ok(None),
        Some(i) => {
            if !piece_sizes_fit(entry.delta.as_slice()) {
                return Err(PatchError::DeltaSizeOverflow);
            }
            match apply_delta(old[i].content.as_slice(), entry.delta.as_slice()) {
                Ok(v) => Ok(Some(TreeFile { path: entry.path.clone(), content: v })),
                Err(e) => Err(PatchError::DdeltaPatch(e)),
            }
        },
    }
}

/// The files of `new`, in order, that have a counterpart in `old`.
pub open spec fn with_counterpart(old: Seq<TreeFile>, new: Seq<TreeFile>) -> Seq<TreeFile>
    decreases new.len(),
{
    if new.len() == 0 {
        Seq::empty()
    } else if find_file(old, new.last().path@) >= 0 {
        with_counterpart(old, new.drop_last()).push(new.last())
    } else {
        with_counterpart(old, new.drop_last())
    }
}

proof fn lemma_covered_keeps_all(old: Seq<TreeFile>, new: Seq<TreeFile>)
    requires
        covered(old, new),
    ensures
        with_counterpart(old, new) == new,
    decreases new.len(),
{
    if new.len() > 0 {
        let init = new.drop_last();
        assert forall|k: int| 0 <= k < init.len() implies find_file(old, #[trigger] init[k].path@) >= 0 by {
            assert(init[k] == new[k]);
        }
        lemma_covered_keeps_all(old, init);
        assert(find_file(old, new[new.len() - 1].path@) >= 0);
        assert(init.push(new.last()) =~= new);
    }
}

proof fn lemma_diff_entries_made(old: Seq<TreeFile>, new: Seq<TreeFile>, c: nat)
    requires
        c > 0,
    ensures
        forall|m: int| 0 <= m < diff_entries(old, new, c).len() ==> {
            &&& find_file(old, #[trigger] diff_entries(old, new, c)[m].0) >= 0
            &&& made_from(old[find_file(old, diff_entries(old, new, c)[m].0)].content@, diff_entries(old, new, c)[m].1)
        },
    decreases new.len(),
{
    if new.len() > 0 {
        let init = new.drop_last();
        lemma_diff_entries_made(old, init, c);
        let f = new.last();
        let i = find_file(old, f.path@);
        if i >= 0 {
            assert(chunked_delta(old[i].content@, f.content@, c) == chunked_delta(old[i].content@, f.content@, c));
            assert(made_from(old[i].content@, chunked_delta(old[i].content@, f.content@, c)));
        }
        assert forall|m: int| 0 <= m < diff_entries(old, new, c).len() implies {
            &&& find_file(old, #[trigger] diff_entries(old, new, c)[m].0) >= 0
            &&& made_from(old[find_file(old, diff_entries(old, new, c)[m].0)].content@, diff_entries(old, new, c)[m].1)
        } by {
            if m < diff_entries(old, init, c).len() {
                assert(diff_entries(old, new, c)[m] == diff_entries(old, init, c)[m]);
            }
        }
    }
}

proof fn lemma_round_trip_entries(old: Seq<TreeFile>, new: Seq<TreeFile>, c: nat, a: Seq<ArchiveEntry>)
    requires
        c > 0,
        archive_view(a) == diff_entries(old, new, c),
        forall|m: int| 0 <= m < a.len() && find_file(old, a[m].path@) >= 0 ==> sound_delta(
            old[find_file(old, #[trigger] a[m].path@)].content@,
            a[m].delta@,
        ),
    ensures
        apply_entries(old, a) == Some(tree_view(with_counterpart(old, new))),
    decreases new.len(),
{
    assert(archive_view(a).len() == a.len());
    if new.len() == 0 {
        assert(a.len() == 0);
        assert(tree_view(with_counterpart(old, new)) =~= Seq::<(Seq<char>, Seq<u8>)>::empty());
    } else {
        let init = new.drop_last();
        let f = new.last();
        let i = find_file(old, f.path@);
        if i < 0 {
            lemma_round_trip_entries(old, init, c, a);
        } else {
            let n = a.len() - 1;
            let ai = a.drop_last();
            assert(archive_view(ai) =~= diff_entries(old, init, c)) by {
                assert forall|m: int| 0 <= m < ai.len() implies archive_view(ai)[m] == diff_entries(old, init, c)[m] by {
                    assert(archive_view(a)[m] == diff_entries(old, new, c)[m]);
                }
            }
            assert forall|m: int| 0 <= m < ai.len() && find_file(old, ai[m].path@) >= 0 implies sound_delta(
                old[find_file(old, #[trigger] ai[m].path@)].content@,
                ai[m].delta@,
            ) by {
                assert(ai[m] == a[m]);
            }
            lemma_round_trip_entries(old, init, c, ai);
            assert(archive_view(a)[n] == diff_entries(old, new, c)[n]);
            assert(a[n].path@ == f.path@);
            assert(sound_delta(old[i].content@, a[n].delta@));
            assert(a[n].delta@ == chunked_delta(old[i].content@, f.content@, c));
            assert(applied(old[i].content@, a[n].delta@) == Some(f.content@));
            assert(tree_view(with_counterpart(old, new)) =~= tree_view(with_counterpart(old, init)).push((f.path@, f.content@)));
        }
    }
}

/// The staged files that applying the archive `archive` to the tree `old`
/// gives, in archive order. Entries with no counterpart in `old` are left
/// out. When the archive was diffed from `old` to a tree `new`, the staged
/// files are the files of `new` that have a counterpart in `old`: all of
/// `new` when every file of it has one.
pub fn apply_tree(old: &Vec<TreeFile>, archive: &Vec<ArchiveEntry>) -> (r: Result<Vec<TreeFile>, PatchError>)
    ensures
        r is Ok <==> apply_entries(old@, archive@) is Some,
        r matches Ok(s) ==> apply_entries(old@, archive@) == Some(tree_view(s@)),
        r is Err ==> (r matches Err(PatchError::DdeltaPatch(_))) || (r matches Err(PatchError::DeltaSizeOverflow)),
        forall|new: Seq<TreeFile>, c: nat| c > 0 && all_fit(archive@) && archive_view(archive@)
            == #[trigger] diff_entries(old@, new, c) ==> (r matches Ok(s) && tree_view(s@) == tree_view(with_counterpart(old@, new))),
        forall|new: Seq<TreeFile>, c: nat| c > 0 && covered(old@, new) && all_fit(archive@) && archive_view(archive@)
            == #[trigger] diff_entries(old@, new, c) ==> (r matches Ok(s) && tree_view(s@) == tree_view(new)),
{
    let mut out: Vec<TreeFile> = Vec::new();
    let mut k: usize = 0;
    while k < archive.len()
        invariant
            k <= archive@.len(),
            apply_entries(old@, archive@.take(k as int)) == Some(tree_view(out@)),
            forall|m: int| 0 <= m < k && find_file(old@, archive@[m].path@) >= 0 ==> sound_delta(
                old@[find_file(old@, #[trigger] archive@[m].path@)].content@,
                archive@[m].delta@,
            ),
        decreases archive@.len() - k,
    {
        assert(archive@.take(k + 1).drop_last() =~= archive@.take(k as int));
        proof { lemma_find_file(old@, archive@[k as int].path@); }
        let step = apply_entry(old, &archive[k]);
        proof {
            if step is Err {
                assert(step matches Err(PatchError::DdeltaPatch(_)) || !sizes_fit(archive@[k as int].delta@));
            }
        }
        match step {
            Ok(Some(f)) => {
                out.push(f);
                assert(tree_view(out@) =~= tree_view(out@.drop_last()).push((f.path@, f.content@)));
            },
            Ok(None) => {},
            Err(e) => {
                proof {
                    lemma_apply_entries_prefix_fails(old@, archive@, k as int);
                    assert forall|new: Seq<TreeFile>, c: nat| c > 0 && all_fit(archive@) && archive_view(archive@)
                        == #[trigger] diff_entries(old@, new, c) implies false by {
                        assert(sizes_fit(archive@[k as int].delta@));
                        lemma_diff_entries_made(old@, new, c);
                        assert(archive_view(archive@)[k as int] == diff_entries(old@, new, c)[k as int]);
                        assert(archive_view(archive@)[k as int] == (archive@[k as int].path@, archive@[k as int].delta@));
                        let de = diff_entries(old@, new, c);
                        assert(find_file(old@, de[k as int].0) >= 0);
                        assert(made_from(old@[find_file(old@, de[k as int].0)].content@, de[k as int].1));
                    }
                }
                return Err(e);
            },
        }
        k = k + 1;
    }
    assert(archive@.take(k as int) =~= archive@);
    proof {
        assert forall|new: Seq<TreeFile>, c: nat| c > 0 && all_fit(archive@) && archive_view(archive@)
            == #[trigger] diff_entries(old@, new, c) implies tree_view(out@) == tree_view(with_counterpart(old@, new)) by {
            lemma_round_trip_entries(old@, new, c, archive@);
        }
        assert forall|new: Seq<TreeFile>, c: nat| c > 0 && covered(old@, new) && all_fit(archive@) && archive_view(archive@)
            == #[trigger] diff_entries(old@, new, c) implies tree_view(out@) == tree_view(new) by {
            lemma_round_trip_entries(old@, new, c, archive@);
            lemma_covered_keeps_all(old@, new);
        }
    }
    Ok(out)
}

proof fn lemma_apply_entries_prefix_fails(old: Seq<TreeFile>, a: Seq<ArchiveEntry>, k: int)
    requires
        0 <= k < a.len(),
        find_file(old, a[k].path@) >= 0,
        applied(old[find_file(old, a[k].path@)].content@, a[k].delta@) is None,
    ensures
        apply_entries(old, a) is None,
    decreases a.len(),
{
    if k < a.len() - 1 {
        assert(a.drop_last()[k] == a[k]);
        lemma_apply_entries_prefix_fails(old, a.drop_last(), k);
    }
}


proof fn lemma_diff_paths(old: Seq<TreeFile>, new: Seq<TreeFile>, c: nat)
    ensures
        forall|m: int| 0 <= m < diff_entries(old, new, c).len() ==> {
            &&& find_file(old, #[trigger] diff_entries(old, new, c)[m].0) >= 0
            &&& exists|k: int| 0 <= k < new.len() && new[k].path@ == diff_entries(old, new, c)[m].0
        },
    decreases new.len(),
{
    if new.len() > 0 {
        let init = new.drop_last();
        lemma_diff_paths(old, init, c);
        assert forall|m: int| 0 <= m < diff_entries(old, new, c).len() implies {
            &&& find_file(old, #[trigger] diff_entries(old, new, c)[m].0) >= 0
            &&& exists|k: int| 0 <= k < new.len() && new[k].path@ == diff_entries(old, new, c)[m].0
        } by {
            if m < diff_entries(old, init, c).len() {
                let k = choose|k: int| 0 <= k < init.len() && init[k].path@ == diff_entries(old, init, c)[m].0;
                assert(new[k] == init[k]);
            } else {
                assert(new[new.len() - 1].path@ == diff_entries(old, new, c)[m].0);
            }
        }
    }
}

proof fn lemma_apply_paths(old: Seq<TreeFile>, a: Seq<ArchiveEntry>)
    ensures
        apply_entries(old, a) matches Some(s) ==> forall|m: int| 0 <= m < s.len() ==> {
            &&& find_file(old, #[trigger] s[m].0) >= 0
            &&& exists|k: int| 0 <= k < a.len() && a[k].path@ == s[m].0
        },
    decreases a.len(),
{
    if a.len() > 0 {
        let init = a.drop_last();
        lemma_apply_paths(old, init);
        if let Some(s) = apply_entries(old, a) {
            let rest = apply_entries(old, init)->Some_0;
            assert forall|m: int| 0 <= m < s.len() implies {
                &&& find_file(old, #[trigger] s[m].0) >= 0
                &&& exists|k: int| 0 <= k < a.len() && a[k].path@ == s[m].0
            } by {
                if m < rest.len() {
                    assert(s[m] == rest[m]);
                    let k = choose|k: int| 0 <= k < init.len() && init[k].path@ == rest[m].0;
                    assert(a[k] == init[k]);
                } else {
                    assert(a[a.len() - 1].path@ == s[m].0);
                }
            }
        }
    }
}

/// Files on one side only are left alone: every entry that diffing `old`
/// against `new` gives is a file of `new` that also has a counterpart in
/// `old`, so a file present only in `new` never enters the archive; and every
/// file that applying `archive` to `old` stages is an entry of the archive
/// with a counterpart in `old`, so a file of `old` that no entry names is
/// never staged, and the merge leaves it as it was.
pub proof fn lemma_asymmetric_files_skipped(
    old: Seq<TreeFile>,
    new: Seq<TreeFile>,
    chunk: nat,
    archive: Seq<ArchiveEntry>,
)
    ensures
        forall|m: int| 0 <= m < diff_entries(old, new, chunk).len() ==> {
            &&& find_file(old, #[trigger] diff_entries(old, new, chunk)[m].0) >= 0
            &&& exists|k: int| 0 <= k < new.len() && new[k].path@ == diff_entries(old, new, chunk)[m].0
        },
        apply_entries(old, archive) matches Some(s) ==> forall|m: int| 0 <= m < s.len() ==> {
            &&& find_file(old, #[trigger] s[m].0) >= 0
            &&& exists|k: int| 0 <= k < archive.len() && archive[k].path@ == s[m].0
        },
{
    lemma_diff_paths(old, new, chunk);
    lemma_apply_paths(old, archive);
}

} // verus!
