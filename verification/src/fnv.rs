//! FNV-1a hashing, the agent's one fingerprint: 64 bits for file and
//! line identities, 128 bits for message content identities, rendered as
//! fixed-width lowercase hexadecimal.
use vstd::prelude::*;
use vstd::wrapping::u64_specs;
use vstd::wrapping::u128_specs;
use vstd::utf8::encode_utf8;
use crate::text::string_of;

verus! {

/// The FNV-1a 64-bit offset basis.
pub const FNV64_OFFSET: u64 = 0xcbf29ce484222325;

/// The FNV-1a 64-bit prime.
pub const FNV64_PRIME: u64 = 0x100000001b3;

/// The FNV-1a 128-bit offset basis.
pub const FNV128_OFFSET: u128 = 0x6c62272e07bb014262b821756295c58d;

/// The FNV-1a 128-bit prime.
pub const FNV128_PRIME: u128 = 0x0000000001000000000000000000013b;

/// One FNV-1a round: xor the byte in, multiply by the prime modulo 2^64.
pub open spec fn fnv64_step(h: u64, b: u8) -> u64 {
    u64_specs::wrapping_mul(h ^ (b as u64), FNV64_PRIME)
}

/// FNV-1a 64 of `bytes`, starting from the state `h`.
pub open spec fn fnv64_fold(h: u64, bytes: Seq<u8>) -> u64
    decreases bytes.len(),
{
    if bytes.len() == 0 {
        h
    } else {
        fnv64_step(fnv64_fold(h, bytes.drop_last()), bytes.last())
    }
}

/// One FNV-1a round on 128 bits.
pub open spec fn fnv128_step(h: u128, b: u8) -> u128 {
    u128_specs::wrapping_mul(h ^ (b as u128), FNV128_PRIME)
}

/// FNV-1a 128 of `bytes`, starting from the state `h`.
pub open spec fn fnv128_fold(h: u128, bytes: Seq<u8>) -> u128
    decreases bytes.len(),
{
    if bytes.len() == 0 {
        h
    } else {
        fnv128_step(fnv128_fold(h, bytes.drop_last()), bytes.last())
    }
}

/// Hashing in pieces is hashing the whole: the state after `a` and then
/// `b` is the state after `a + b`.
pub proof fn lemma_fnv64_concat(h: u64, a: Seq<u8>, b: Seq<u8>)
    ensures
        fnv64_fold(fnv64_fold(h, a), b) == fnv64_fold(h, a + b),
    decreases b.len(),
{
    if b.len() == 0 {
        assert(a + b == a);
    } else {
        lemma_fnv64_concat(h, a, b.drop_last());
        assert((a + b).drop_last() == a + b.drop_last());
        assert((a + b).last() == b.last());
    }
}

/// Continues an FNV-1a 64 hash from state `h` over `bytes`.
pub fn fnv64_update(h: u64, bytes: &[u8]) -> (r: u64)
    ensures
        r == fnv64_fold(h, bytes@),
{
    let mut r = h;
    let mut i: usize = 0;
    while i < bytes.len()
        invariant
            i <= bytes.len(),
            r == fnv64_fold(h, bytes@.take(i as int)),
        decreases bytes.len() - i,
    {
        assert(bytes@.take(i + 1).drop_last() == bytes@.take(i as int));
        r = (r ^ (bytes[i] as u64)).wrapping_mul(FNV64_PRIME);
        i = i + 1;
    }
    assert(bytes@.take(bytes.len() as int) == bytes@);
    r
}

/// Continues an FNV-1a 128 hash from state `h` over `bytes`.
pub fn fnv128_update(h: u128, bytes: &[u8]) -> (r: u128)
    ensures
        r == fnv128_fold(h, bytes@),
{
    let mut r = h;
    let mut i: usize = 0;
    while i < bytes.len()
        invariant
            i <= bytes.len(),
            r == fnv128_fold(h, bytes@.take(i as int)),
        decreases bytes.len() - i,
    {
        assert(bytes@.take(i + 1).drop_last() == bytes@.take(i as int));
        r = (r ^ (bytes[i] as u128)).wrapping_mul(FNV128_PRIME);
        i = i + 1;
    }
    assert(bytes@.take(bytes.len() as int) == bytes@);
    r
}

/// The lowercase hexadecimal digit for `d` (0..16).
pub open spec fn hex_char(d: nat) -> char {
    if d < 10 {
        (('0' as nat) + d) as char
    } else {
        (('a' as nat) + d - 10) as char
    }
}

/// The last `k` hexadecimal digits of `n`, most significant first, with
/// leading zeros (`format!("{:0k$x}")` for values below 16^k).
pub open spec fn hex_fixed(n: nat, k: nat) -> Seq<char>
    decreases k,
{
    if k == 0 {
        Seq::empty()
    } else {
        hex_fixed(n / 16, (k - 1) as nat).push(hex_char(n % 16))
    }
}

fn hex_digit(d: u128) -> (c: char)
    requires
        d < 16,
    ensures
        c == hex_char(d as nat),
{
    if d < 10 {
        ((48 + d) as u8) as char
    } else {
        ((87 + d) as u8) as char
    }
}

fn hex_digits(n: u128, k: usize) -> (v: Vec<char>)
    ensures
        v@ == hex_fixed(n as nat, k as nat),
    decreases k,
{
    if k == 0 {
        Vec::new()
    } else {
        let mut v = hex_digits(n / 16, k - 1);
        v.push(hex_digit(n % 16));
        v
    }
}

/// `h` as 16 lowercase hexadecimal digits (`format!("{:016x}", h)`).
pub fn hex64(h: u64) -> (s: String)
    ensures
        s@ == hex_fixed(h as nat, 16),
{
    string_of(&hex_digits(h as u128, 16))
}

/// `h` as 32 lowercase hexadecimal digits (`format!("{:032x}", h)`).
pub fn hex128(h: u128) -> (s: String)
    ensures
        s@ == hex_fixed(h as nat, 32),
{
    string_of(&hex_digits(h, 32))
}

/// The decimal digits of `n` as ASCII bytes (`n.to_string()`).
pub open spec fn decimal_bytes(n: nat) -> Seq<u8>
    decreases n,
{
    if n < 10 {
        seq![(48 + n) as u8]
    } else {
        decimal_bytes(n / 10).push((48 + n % 10) as u8)
    }
}

/// The decimal digits of `n` as ASCII bytes.
pub fn u64_decimal_bytes(n: u64) -> (v: Vec<u8>)
    ensures
        v@ == decimal_bytes(n as nat),
    decreases n,
{
    if n < 10 {
        let mut v = Vec::new();
        v.push((48 + n) as u8);
        assert(v@ == seq![(48 + n) as u8]);
        v
    } else {
        let mut v = u64_decimal_bytes(n / 10);
        v.push((48 + n % 10) as u8);
        v
    }
}

/// An FNV-1a 64 hash fed in pieces; its view is every byte fed so far.
pub struct Fnv64Stream {
    state: u64,
    fed: Ghost<Seq<u8>>,
}

impl View for Fnv64Stream {
    type V = Seq<u8>;

    closed spec fn view(&self) -> Seq<u8> {
        self.fed@
    }
}

impl Fnv64Stream {
    #[verifier::type_invariant]
    spec fn state_matches(self) -> bool {
        self.state == fnv64_fold(FNV64_OFFSET, self.fed@)
    }

    /// A hash that has been fed nothing.
    pub fn new() -> (s: Fnv64Stream)
        ensures
            s@ == Seq::<u8>::empty(),
    {
        Fnv64Stream { state: FNV64_OFFSET, fed: Ghost(Seq::empty()) }
    }

    /// Feeds `bytes`.
    pub fn update(&mut self, bytes: &[u8])
        ensures
            final(self)@ == old(self)@ + bytes@,
    {
        proof {
            use_type_invariant(&*self);
            lemma_fnv64_concat(FNV64_OFFSET, self.fed@, bytes@);
        }
        let h = fnv64_update(self.state, bytes);
        let ghost fed = self.fed@ + bytes@;
        *self = Fnv64Stream { state: h, fed: Ghost(fed) };
    }

    /// FNV-1a 64 of every byte fed so far.
    pub fn digest(&self) -> (h: u64)
        ensures
            h == fnv64_fold(FNV64_OFFSET, self@),
    {
        proof {
            use_type_invariant(self);
        }
        self.state
    }

    /// The digest as 16 lowercase hexadecimal digits.
    pub fn hex(&self) -> (s: String)
        ensures
            s@ == hex_fixed(fnv64_fold(FNV64_OFFSET, self@) as nat, 16),
    {
        hex64(self.digest())
    }
}

/// The bytes a file tree's fingerprint runs over: for each file, in the
/// order of the walk, its path relative to the root, then its size in
/// decimal.
pub open spec fn tree_bytes(entries: Seq<(Seq<char>, u64)>) -> Seq<u8>
    decreases entries.len(),
{
    if entries.len() == 0 {
        Seq::empty()
    } else {
        tree_bytes(entries.drop_last()) + encode_utf8(entries.last().0) + decimal_bytes(entries.last().1 as nat)
    }
}

/// The fingerprint of a file tree (names and sizes, not contents):
/// FNV-1a 64 over `tree_bytes` of its files in walk order.
pub fn tree_fingerprint(entries: &Vec<(String, u64)>) -> (h: u64)
    ensures
        h == fnv64_fold(FNV64_OFFSET, tree_bytes(entries@.map_values(|e: (String, u64)| (e.0@, e.1)))),
{
    let ghost ev = entries@.map_values(|e: (String, u64)| (e.0@, e.1));
    let mut h = FNV64_OFFSET;
    let mut i: usize = 0;
    while i < entries.len()
        invariant
            i <= entries.len(),
            ev == entries@.map_values(|e: (String, u64)| (e.0@, e.1)),
            h == fnv64_fold(FNV64_OFFSET, tree_bytes(ev.take(i as int))),
        decreases entries.len() - i,
    {
        let (rel, size) = (&entries[i].0, entries[i].1);
        let sz = u64_decimal_bytes(size);
        proof {
            assert(ev.take(i + 1).drop_last() == ev.take(i as int));
            assert(ev.take(i + 1).last() == (rel@, size));
            lemma_fnv64_concat(FNV64_OFFSET, tree_bytes(ev.take(i as int)), encode_utf8(rel@));
            lemma_fnv64_concat(FNV64_OFFSET, tree_bytes(ev.take(i as int)) + encode_utf8(rel@), sz@);
        }
        h = fnv64_update(h, rel.as_str().as_bytes());
        h = fnv64_update(h, sz.as_slice());
        i = i + 1;
    }
    assert(ev.take(entries.len() as int) == ev);
    h
}

} // verus!
