use vstd::prelude::*;
use vstd::arithmetic::power2::{pow2, lemma_pow2_unfold, lemma2_to64};
use sha2::Sha256;

verus! {

/// SHA-256 of a byte string, as computed by the `sha2` crate.
pub uninterp spec fn sha256_of(data: Seq<u8>) -> Seq<u8>;

/// A 256-bit digest, used as the content address of every ledger object.
#[derive(Clone, Copy, Debug)]
pub struct Digest {
    pub bytes: [u8; 32],
}

impl View for Digest {
    type V = Seq<u8>;

    open spec fn view(&self) -> Seq<u8> {
        self.bytes@
    }
}

/// `x` written as `n` bytes, least significant first (the top is cut off).
pub open spec fn le_bytes(x: nat, n: nat) -> Seq<u8>
    decreases n,
{
    if n == 0 {
        Seq::empty()
    } else {
        seq![(x % 256) as u8] + le_bytes(x / 256, (n - 1) as nat)
    }
}

/// Whether the top `d` bits of byte `b` are all zero.
pub open spec fn top_bits_zero(b: u8, d: nat) -> bool {
    (b as nat) < pow2((8 - d) as nat)
}

/// Relies on `sha2::Sha256::digest`: the 32-byte SHA-256 digest of `data`.
#[verifier::external_body]
pub(crate) fn sha256(data: &Vec<u8>) -> (r: Digest)
    ensures
        r@ == sha256_of(data@),
{
    Digest { bytes: <Sha256 as sha2::Digest>::digest(data.as_slice()).into() }
}

impl Digest {
    /// The digest held by the first 32 bytes of `s`.
    pub fn from_slice(s: &[u8]) -> (r: Digest)
        requires
            s@.len() == 32,
        ensures
            r@ == s@,
    {
        let mut bytes: [u8; 32] = [0u8; 32];
        let mut i: usize = 0;
        while i < 32
            invariant
                i <= 32,
                s@.len() == 32,
                bytes@.len() == 32,
                forall|k: int| 0 <= k < i ==> bytes@[k] == s@[k],
            decreases 32 - i,
        {
            bytes[i] = s[i];
            i = i + 1;
        }
        assert(bytes@ =~= s@);
        Digest { bytes }
    }

    /// Whether the two digests hold the same bytes.
    pub fn same_as(&self, other: &Digest) -> (r: bool)
        ensures
            r == (self@ == other@),
    {
        let mut i: usize = 0;
        while i < 32
            invariant
                i <= 32,
                self@.len() == 32,
                other@.len() == 32,
                forall|k: int| 0 <= k < i ==> self@[k] == other@[k],
            decreases 32 - i,
        {
            if self.bytes[i] != other.bytes[i] {
                return false;
            }
            i = i + 1;
        }
        assert(self@ =~= other@);
        true
    }

    /// Proof-of-work predicate: the top `difficulty` bits of the first byte
    /// are zero.
    pub fn pow_verified(&self, difficulty: usize) -> (r: bool)
        requires
            difficulty <= 8,
        ensures
            r == top_bits_zero(self@[0], difficulty as nat),
            difficulty == 0 ==> r,
            difficulty == 8 ==> (r <==> self@[0] == 0),
    {
        let mut limit: u16 = 256;
        let mut k: usize = 0;
        proof {
            lemma2_to64();
        }
        while k < difficulty
            invariant
                k <= difficulty <= 8,
                limit as nat == pow2((8 - k) as nat),
            decreases difficulty - k,
        {
            proof {
                lemma_pow2_unfold((8 - k) as nat);
                lemma2_to64();
            }
            limit = limit / 2;
            k = k + 1;
        }
        (self.bytes[0] as u16) < limit
    }
}

/// Appends `bytes` to `buf`.
pub fn push_all(buf: &mut Vec<u8>, bytes: &[u8])
    ensures
        final(buf)@ == old(buf)@ + bytes@,
{
    let ghost start = buf@;
    let mut i: usize = 0;
    while i < bytes.len()
        invariant
            i <= bytes@.len(),
            buf@ == start + bytes@.take(i as int),
        decreases bytes@.len() - i,
    {
        buf.push(bytes[i]);
        assert(bytes@.take(i + 1) =~= bytes@.take(i as int).push(bytes@[i as int]));
        i = i + 1;
    }
    assert(bytes@.take(i as int) =~= bytes@);
}

/// `x` as `n` little-endian bytes.
pub fn le_encode(x: u128, n: usize) -> (r: Vec<u8>)
    ensures
        r@ == le_bytes(x as nat, n as nat),
{
    let mut out: Vec<u8> = Vec::new();
    let mut rest: u128 = x;
    let mut i: usize = 0;
    while i < n
        invariant
            i <= n,
            out@ + le_bytes(rest as nat, (n - i) as nat) == le_bytes(x as nat, n as nat),
        decreases n - i,
    {
        let ghost before = out@;
        assert(le_bytes(rest as nat, (n - i) as nat) == seq![(rest as nat % 256) as u8] + le_bytes(
            (rest / 256) as nat,
            (n - i - 1) as nat,
        ));
        out.push((rest % 256) as u8);
        assert(out@ == before + seq![(rest as nat % 256) as u8]);
        assert(out@ + le_bytes((rest / 256) as nat, (n - i - 1) as nat) =~= before + le_bytes(
            rest as nat,
            (n - i) as nat,
        ));
        rest = rest / 256;
        i = i + 1;
    }
    assert(out@ =~= out@ + le_bytes(rest as nat, 0));
    out
}

} // verus!
