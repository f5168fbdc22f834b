//! Chunked binary deltas of single files, computed and applied by the
//! `ddelta` crate.

use vstd::prelude::*;

verus! {

#[verifier::external_type_specification]
#[verifier::external_body]
pub struct ExAnyhowError(anyhow::Error);

/// Size of the pieces that both byte streams are cut into, which bounds the
/// memory that one delta takes.
pub const CHUNK_SIZE: usize = 400_000_000;

/// The delta that turns `old` into `new` when both are cut into pieces of
/// `chunk` bytes.
pub uninterp spec fn chunked_delta(old: Seq<u8>, new: Seq<u8>, chunk: nat) -> Seq<u8>;

/// What applying the delta `patch` to `old` gives, or none when `patch` is
/// not a well-formed delta for `old`.
pub uninterp spec fn patched(old: Seq<u8>, patch: Seq<u8>) -> Option<Seq<u8>>;

/// 256 to the power `n`.
pub open spec fn pow256(n: nat) -> nat
    decreases n,
{
    if n == 0 {
        1
    } else {
        256 * pow256((n - 1) as nat)
    }
}

/// The big-endian number in the `n` bytes of `s` from `p`.
pub open spec fn be_n(s: Seq<u8>, p: int, n: nat) -> nat
    decreases n,
{
    if n == 0 {
        0
    } else {
        be_n(s, p, (n - 1) as nat) * 256 + s[p + n - 1] as nat
    }
}

/// The big-endian 64-bit number in the 8 bytes of `s` from `p`.
pub open spec fn be64(s: Seq<u8>, p: int) -> nat {
    be_n(s, p, 8)
}

/// Where the piece whose first entry header starts at `q` ends: after its
/// all-zero entry header, each entry header (24 bytes: diff length, extra
/// length, seek) being followed by that many diff and extra bytes; -1 when
/// the piece runs past the end of `s`.
pub open spec fn piece_end(s: Seq<u8>, q: int) -> int
    decreases s.len() - q,
{
    if q < 0 || q + 24 > s.len() {
        -1
    } else if be64(s, q) == 0 && be64(s, q + 8) == 0 && be64(s, q + 16) == 0 {
        q + 24
    } else if q + 24 + be64(s, q) + be64(s, q + 8) > s.len() {
        -1
    } else {
        piece_end(s, q + 24 + be64(s, q) + be64(s, q + 8))
    }
}

/// From the piece header at `p` on, with `sum` new bytes announced by the
/// pieces before, the announced sizes (the second 8 bytes of each 16-byte
/// piece header) never add up past `u64::MAX`.
pub open spec fn sizes_fit_from(s: Seq<u8>, p: int, sum: nat) -> bool
    decreases s.len() - p,
{
    if p < 0 || p + 16 > s.len() {
        true
    } else if sum + be64(s, p + 8) > u64::MAX {
        false
    } else if piece_end(s, p + 16) < p + 16 || piece_end(s, p + 16) > s.len() {
        true
    } else {
        sizes_fit_from(s, piece_end(s, p + 16), sum + be64(s, p + 8))
    }
}

/// The sizes that the pieces of the delta `s` announce add up, one piece
/// after the other, to no more than `u64::MAX`.
pub open spec fn sizes_fit(s: Seq<u8>) -> bool {
    sizes_fit_from(s, 0, 0)
}

proof fn lemma_pow_le(a: nat, b: nat)
    requires
        a <= b,
    ensures
        pow256(a) <= pow256(b),
    decreases b - a,
{
    if a < b {
        lemma_pow_le(a, (b - 1) as nat);
    }
}

proof fn lemma_piece_end_after(s: Seq<u8>, q: int)
    ensures
        piece_end(s, q) >= 0 ==> piece_end(s, q) >= q + 24 && piece_end(s, q) <= s.len(),
    decreases s.len() - q,
{
    if q >= 0 && q + 24 <= s.len() && !(be64(s, q) == 0 && be64(s, q + 8) == 0 && be64(s, q + 16) == 0)
        && q + 24 + be64(s, q) + be64(s, q + 8) <= s.len() {
        lemma_piece_end_after(s, q + 24 + be64(s, q) + be64(s, q + 8));
    }
}

proof fn lemma_be_bound(s: Seq<u8>, p: int, n: nat)
    ensures
        be_n(s, p, n) < pow256(n),
    decreases n,
{
    if n > 0 {
        lemma_be_bound(s, p, (n - 1) as nat);
        let a = be_n(s, p, (n - 1) as nat);
        let b = s[p + n - 1] as nat;
        let m = pow256((n - 1) as nat);
        assert(a * 256 + b < 256 * m) by (nonlinear_arith)
            requires
                a < m,
                b < 256,
        ;
    }
}

fn read_be64(s: &[u8], p: usize) -> (r: u128)
    requires
        p + 8 <= s@.len(),
    ensures
        r == be64(s@, p as int),
        r <= u64::MAX,
{
    let n = s.len();
    let mut v: u128 = 0;
    let mut i: usize = 0;
    proof {
        assert(pow256(7) == 72057594037927936) by {
            reveal_with_fuel(pow256, 8);
        }
    }
    while i < 8
        invariant
            i <= 8,
            n == s@.len(),
            p + 8 <= n,
            v == be_n(s@, p as int, i as nat),
            pow256(7) == 72057594037927936,
        decreases 8 - i,
    {
        proof {
            lemma_be_bound(s@, p as int, i as nat);
            lemma_pow_le(i as nat, 7);
        }
        v = v * 256 + s[p + i] as u128;
        i = i + 1;
    }
    proof {
        lemma_be_bound(s@, p as int, 8);
        assert(pow256(8) == 18446744073709551616) by {
            reveal_with_fuel(pow256, 9);
        }
    }
    v
}

fn piece_end_of(s: &[u8], q0: u128) -> (r: Option<u128>)
    requires
        q0 <= s@.len(),
    ensures
        match r {
            Some(e) => e == piece_end(s@, q0 as int) && e >= q0 + 24 && e <= s@.len(),
            None => piece_end(s@, q0 as int) < 0,
        },
{
    let n = s.len();
    let len = n as u128;
    let mut q = q0;
    loop
        invariant
            len == s@.len(),
            n == s@.len(),
            q0 <= q <= len,
            piece_end(s@, q0 as int) == piece_end(s@, q as int),
        decreases len - q,
    {
        if q + 24 > len {
            return None;
        }
        let d = read_be64(s, q as usize);
        let e = read_be64(s, (q + 8) as usize);
        let k = read_be64(s, (q + 16) as usize);
        if d == 0 && e == 0 && k == 0 {
            return Some(q + 24);
        }
        if q + 24 + d + e > len {
            return None;
        }
        q = q + 24 + d + e;
    }
}

/// Whether the sizes announced by the pieces of `patch` add up to no more
/// than `u64::MAX`.
pub fn piece_sizes_fit(patch: &[u8]) -> (r: bool)
    ensures
        r == sizes_fit(patch@),
{
    let n = patch.len();
    let len = n as u128;
    let mut p: u128 = 0;
    let mut sum: u128 = 0;
    loop
        invariant
            len == patch@.len(),
            n == patch@.len(),
            p <= len,
            sum <= u64::MAX,
            sizes_fit(patch@) == sizes_fit_from(patch@, p as int, sum as nat),
        decreases len - p,
    {
        if p + 16 > len {
            return true;
        }
        let size = read_be64(patch, (p + 8) as usize);
        if sum + size > u64::MAX as u128 {
            return false;
        }
        match piece_end_of(patch, p + 16) {
            None => {
                return true;
            },
            Some(e) => {
                p = e;
                sum = sum + size;
            },
        }
    }
}

/// `patch` is a delta that was made from `old` to some content with some
/// piece size.
pub open spec fn made_from(old: Seq<u8>, patch: Seq<u8>) -> bool {
    exists|new: Seq<u8>, c: nat| c > 0 && patch == #[trigger] chunked_delta(old, new, c)
}

/// Relies on `ddelta::generate_chunked`: the delta from `old` to `new` with
/// pieces of `chunk` bytes, written to memory. Reading slices and writing to
/// a vector cannot fail, and the piece size is kept below `i32::MAX`, so it
/// succeeds; each piece announces the length of its piece of `new`, and
/// these add up to the length of `new`.
#[verifier::external_body]
pub(crate) fn generate_delta(old: &[u8], new: &[u8], chunk: usize) -> (r: Result<Vec<u8>, anyhow::Error>)
    requires
        chunk > 0,
    ensures
        r is Ok,
        r matches Ok(d) ==> d@ == chunked_delta(old@, new@, chunk as nat) && sizes_fit(d@),
{
    let mut out: Vec<u8> = Vec::new();
    ddelta::generate_chunked(&mut { old }, &mut { new }, &mut out, chunk, |_| ()).map(|_| out)
}

/// Relies on `ddelta::apply_chunked`, which rebuilds the new content from the
/// old one and a delta that `ddelta::generate_chunked` made from them, with
/// any piece size, and fails on a delta it cannot read. It adds up the sizes
/// that the pieces announce and panics when that sum overflows, which
/// `requires` leaves out.
#[verifier::external_body]
pub(crate) fn apply_delta(old: &[u8], patch: &[u8]) -> (r: Result<Vec<u8>, anyhow::Error>)
    requires
        sizes_fit(patch@),
    ensures
        r is Ok <==> patched(old@, patch@) is Some,
        r matches Ok(v) ==> patched(old@, patch@) == Some(v@),
        r is Err ==> !made_from(old@, patch@),
        r matches Ok(v) ==> forall|new: Seq<u8>, c: nat| c > 0 && patch@ == #[trigger] chunked_delta(old@, new, c) ==> v@ == new,
{
    let mut out: Vec<u8> = Vec::new();
    ddelta::apply_chunked(&mut std::io::Cursor::new(old), &mut out, &mut { patch }).map(|_| out)
}

} // verus!
