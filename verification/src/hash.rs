//! Change-detection fingerprint of a file: a deterministic 64-bit hash
//! of the path string, the observed size and the observed modification
//! time, rendered in lowercase hexadecimal. It detects change, it is no
//! cryptographic content hash: the file's bytes are never read.

use vstd::prelude::*;
use vstd::utf8::encode_utf8;
use crate::model::FileMeta;
use crate::text::hex_of;
use crate::text::u64_to_hex;

verus! {

/// One FNV-1a round: fold a 64-bit value into the state by xor, then
/// multiply by the FNV prime modulo two to the sixty-fourth.
pub open spec fn fnv_mix(h: u64, v: u64) -> u64 {
    ((((h ^ v) as nat) * 0x100000001b3) % 0x10000000000000000) as u64
}

/// FNV-1a over a byte sequence, starting from state `h`.
pub open spec fn fnv1a(s: Seq<u8>, h: u64) -> u64
    decreases s.len(),
{
    if s.len() == 0 {
        h
    } else {
        fnv1a(s.skip(1), fnv_mix(h, s[0] as u64))
    }
}

/// The fingerprint value: FNV-1a over the path's UTF-8 bytes from the
/// standard offset basis, then one round each for size and modification
/// time.
pub open spec fn file_fingerprint(path: Seq<char>, size: u64, modified: u64) -> u64 {
    fnv_mix(fnv_mix(fnv1a(encode_utf8(path), 0xcbf29ce484222325u64), size), modified)
}

/// Folding one more byte at the end of the input equals one more round
/// on the folded state.
proof fn lemma_fnv1a_snoc(s: Seq<u8>, b: u8, h: u64)
    ensures
        fnv1a(s.push(b), h) == fnv_mix(fnv1a(s, h), b as u64),
    decreases s.len(),
{
    if s.len() == 0 {
        assert(s.push(b)[0] == b);
        assert(s.push(b).skip(1) =~= Seq::<u8>::empty());
        assert(fnv1a(Seq::<u8>::empty(), fnv_mix(h, b as u64)) == fnv_mix(h, b as u64));
        assert(fnv1a(s, h) == h);
    } else {
        assert(s.push(b)[0] == s[0]);
        assert(s.push(b).skip(1) =~= s.skip(1).push(b));
        lemma_fnv1a_snoc(s.skip(1), b, fnv_mix(h, s[0] as u64));
    }
}

/// One executable FNV-1a round.
fn fnv_mix_exec(h: u64, v: u64) -> (r: u64)
    ensures
        r == fnv_mix(h, v),
{
    let x: u64 = h ^ v;
    let prod: u128 = (x as u128) * 0x100000001b3u128;
    (prod % 0x10000000000000000u128) as u64
}

/// The change-detection fingerprint of a file, derived deterministically
/// from its path and its observed `(size, modified)` metadata pair, in
/// lowercase hexadecimal.
pub fn get_file_hash(file_path: &str, meta: &FileMeta) -> (r: String)
    ensures
        r@ == hex_of(file_fingerprint(file_path@, meta.size, meta.modified) as nat),
{
    let bytes = file_path.as_bytes_vec();
    let n = bytes.len();
    let mut h: u64 = 0xcbf29ce484222325;
    let mut i: usize = 0;
    while i < n
        invariant
            n == bytes@.len(),
            i <= n,
            bytes@ == encode_utf8(file_path@),
            h == fnv1a(bytes@.take(i as int), 0xcbf29ce484222325u64),
        decreases n - i,
    {
        let b = bytes[i];
        proof {
            lemma_fnv1a_snoc(bytes@.take(i as int), b, 0xcbf29ce484222325u64);
            assert(bytes@.take(i + 1 as int) =~= bytes@.take(i as int).push(b));
        }
        h = fnv_mix_exec(h, b as u64);
        i = i + 1;
    }
    proof {
        assert(bytes@.take(n as int) =~= bytes@);
    }
    let h1 = fnv_mix_exec(h, meta.size);
    let h2 = fnv_mix_exec(h1, meta.modified);
    u64_to_hex(h2)
}

} // verus!
