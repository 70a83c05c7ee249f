//! Interned names.
use crate::text::Chars;
use crate::token::{
    predefined_str, PREDEFINED_SYMBOL_COUNT, predefined_text, predefined_token, Token,
    token_of_symbol,
};
use std::collections::HashMap;
use vstd::prelude::*;

verus! {

/// The multiplier of the hash.
pub const K: u64 = 0x517c_c1b7_2722_0a95;

/// What the hash of the empty input is; not zero, so that such keys do not all
/// fall into bucket zero.
pub const SEED: u64 = 0x9E37_79B9_7F4A_7C15;

/// `h` rotated left by five bits.
pub open spec fn rotated(h: u64) -> u64 {
    (h << 5u64) | (h >> 59u64)
}

/// The hash `h` after the word `v`.
pub open spec fn mix(h: u64, v: u64) -> u64 {
    (rotated(h) ^ v).wrapping_mul(K)
}

/// Up to eight bytes as a little-endian word, the missing ones zero.
pub open spec fn le_word(b: Seq<u8>) -> u64
    decreases b.len(),
{
    if b.len() == 0 {
        0
    } else {
        (le_word(b.drop_first()) << 8u64) | (b[0] as u64)
    }
}

/// The hash `h` after the words of `b`, the last one padded with zeros.
pub open spec fn absorb(h: u64, b: Seq<u8>) -> u64
    decreases b.len(),
{
    if b.len() >= 8 {
        absorb(mix(h, le_word(b.take(8))), b.skip(8))
    } else if b.len() > 0 {
        mix(h, le_word(b))
    } else {
        h
    }
}

/// The hash `h` after a write of `b`.
pub open spec fn hash_write(h: u64, b: Seq<u8>) -> u64 {
    absorb(h ^ (b.len() as u64).wrapping_mul(K), b)
}

/// A fast multiply-rotate hash, the same in every process.
pub struct SymbolHasher(pub u64);

fn mixed(h: u64, v: u64) -> (r: u64)
    ensures
        r == mix(h, v),
{
    (((h << 5u64) | (h >> 59u64)) ^ v).wrapping_mul(K)
}

fn word_at(bytes: &[u8], from: usize, n: usize) -> (r: u64)
    requires
        from + n <= bytes@.len(),
        n <= 8,
    ensures
        r == le_word(bytes@.subrange(from as int, from + n)),
{
    let total: usize = bytes.len();
    let mut acc: u64 = 0;
    let mut k: usize = n;
    assert(bytes@.subrange(from + n, from + n) =~= Seq::<u8>::empty());
    while k > 0
        invariant
            k <= n,
            from + n <= total,
            total == bytes@.len(),
            acc == le_word(bytes@.subrange(from + k, from + n)),
        decreases k,
    {
        k = k - 1;
        let b: u8 = bytes[from + k];
        acc = (acc << 8u64) | (b as u64);
        proof {
            let s = bytes@.subrange(from + k, from + n);
            assert(s.drop_first() =~= bytes@.subrange(from + k + 1, from + n));
        }
    }
    acc
}

impl Default for SymbolHasher {
    fn default() -> (r: Self)
        ensures
            r.0 == SEED,
    {
        SymbolHasher(SEED)
    }
}

impl SymbolHasher {
    /// The hash of what was written so far.
    pub fn finish(&self) -> (r: u64)
        ensures
            r == self.0,
    {
        self.0
    }

    /// Hashes a run of bytes: its length, then its words.
    pub fn write(&mut self, bytes: &[u8])
        ensures
            final(self).0 == hash_write(old(self).0, bytes@),
    {
        let n: usize = bytes.len();
        let mut h: u64 = self.0 ^ (n as u64).wrapping_mul(K);
        let mut i: usize = 0;
        assert(bytes@.skip(0) =~= bytes@);
        while n - i >= 8
            invariant
                i <= n,
                n == bytes@.len(),
                absorb(h, bytes@.skip(i as int)) == hash_write(old(self).0, bytes@),
            decreases n - i,
        {
            let ghost rest = bytes@.skip(i as int);
            assert(rest.take(8) =~= bytes@.subrange(i as int, i + 8));
            assert(rest.skip(8) =~= bytes@.skip(i + 8));
            h = mixed(h, word_at(bytes, i, 8));
            i = i + 8;
        }
        if n - i > 0 {
            assert(bytes@.skip(i as int) =~= bytes@.subrange(i as int, n as int));
            h = mixed(h, word_at(bytes, i, n - i));
        }
        self.0 = h;
    }

    /// Hashes one byte as a word.
    pub fn write_u8(&mut self, n: u8)
        ensures
            final(self).0 == mix(old(self).0, n as u64),
    {
        self.0 = mixed(self.0, n as u64);
    }

    /// Hashes two bytes as a word.
    pub fn write_u16(&mut self, n: u16)
        ensures
            final(self).0 == mix(old(self).0, n as u64),
    {
        self.0 = mixed(self.0, n as u64);
    }

    /// Hashes four bytes as a word.
    pub fn write_u32(&mut self, n: u32)
        ensures
            final(self).0 == mix(old(self).0, n as u64),
    {
        self.0 = mixed(self.0, n as u64);
    }

    /// Hashes one word.
    pub fn write_u64(&mut self, n: u64)
        ensures
            final(self).0 == mix(old(self).0, n),
    {
        self.0 = mixed(self.0, n);
    }

    /// Hashes a machine word.
    pub fn write_usize(&mut self, n: usize)
        ensures
            final(self).0 == mix(old(self).0, n as u64),
    {
        self.0 = mixed(self.0, n as u64);
    }
}

/// An interned name: its index in the pool that made it.
#[derive(Clone, Copy, PartialEq, Eq, Structural, Hash, PartialOrd, Ord, Debug)]
pub struct Symbol(pub usize);

impl Symbol {
    /// Whether every pool starts with this symbol.
    pub fn is_predefined(self) -> (r: bool)
        ensures
            r == (self.0 < PREDEFINED_SYMBOL_COUNT),
    {
        self.0 < PREDEFINED_SYMBOL_COUNT
    }

    /// The token of this symbol: a keyword's own, or an identifier.
    pub fn into_token(self) -> (r: Token)
        ensures
            self.0 < PREDEFINED_SYMBOL_COUNT ==> r == predefined_token(self.0 as int),
            self.0 >= PREDEFINED_SYMBOL_COUNT ==> r == Token::Ident(self),
    {
        if self.is_predefined() {
            token_of_symbol(self.0)
        } else {
            Token::Ident(self)
        }
    }
}

/// A symbol that is a keyword.
#[derive(Clone, Copy, PartialEq, Eq, Structural, Debug)]
pub struct Keyword(pub Symbol);

/// The names that every pool starts with.
pub open spec fn predefined_texts() -> Seq<Chars> {
    Seq::new(PREDEFINED_SYMBOL_COUNT as nat, |i: int| predefined_text(i))
}

/// The names of a pool after `s` is interned: `s` is appended unless it is there.
pub open spec fn with_text(texts: Seq<Chars>, s: Chars) -> Seq<Chars> {
    if texts.contains(s) {
        texts
    } else {
        texts.push(s)
    }
}

/// A pool of names, each held once. A name is found by its hash.
pub struct SymbolPool {
    strings: Vec<String>,
    buckets: HashMap<u64, Vec<usize>>,
}

/// The hash under which `s` is filed.
spec fn text_hash(s: Chars) -> u64 {
    hash_write(SEED, vstd::utf8::encode_utf8(s))
}

fn hash_of(s: &str) -> (r: u64)
    ensures
        r == text_hash(s@),
{
    let mut hasher = SymbolHasher(SEED);
    hasher.write(s.as_bytes());
    hasher.finish()
}

impl SymbolPool {
    /// The names, in the order in which they were interned.
    pub closed spec fn texts(self) -> Seq<Chars> {
        self.strings@.map_values(|s: String| s@)
    }

    /// No name is held twice, and each is filed under its hash.
    pub closed spec fn wf(self) -> bool {
        &&& self.texts().no_duplicates()
        &&& forall|i: int|
            0 <= i < self.strings@.len() ==> {
                let h = text_hash(#[trigger] self.strings@[i]@);
                self.buckets@.contains_key(h) && self.buckets@[h]@.contains(i as usize)
            }
        &&& forall|h: u64, k: int|
            self.buckets@.contains_key(h) && 0 <= k < self.buckets@[h]@.len() ==> (
            #[trigger] self.buckets@[h]@[k]) < self.strings@.len()
    }

    /// The names of a pool are distinct.
    pub proof fn names_are_distinct(self)
        requires
            self.wf(),
        ensures
            self.texts().no_duplicates(),
    {
    }

    /// A pool with the predefined names.
    pub fn new() -> (r: Self)
        ensures
            r.wf(),
            r.texts() == predefined_texts(),
    {
        broadcast use vstd::std_specs::hash::group_hash_axioms;

        let mut pool = SymbolPool { strings: Vec::new(), buckets: HashMap::new() };
        assert(pool.texts() =~= predefined_texts().take(0));
        let mut i: usize = 0;
        while i < PREDEFINED_SYMBOL_COUNT
            invariant
                i <= PREDEFINED_SYMBOL_COUNT,
                pool.wf(),
                pool.texts() == predefined_texts().take(i as int),
            decreases PREDEFINED_SYMBOL_COUNT - i,
        {
            let name: &'static str = predefined_str(i);
            proof {
                let before = predefined_texts().take(i as int);
                if before.contains(name@) {
                    let j = choose|j: int| 0 <= j < before.len() && before[j] == name@;
                    crate::token::predefined_texts_are_distinct(i as int, j);
                }
                assert(predefined_texts().take(i + 1) =~= before.push(name@));
            }
            let _ = pool.intern(name);
            i = i + 1;
        }
        assert(predefined_texts().take(PREDEFINED_SYMBOL_COUNT as int) =~= predefined_texts());
        pool
    }

    /// The symbol of `s`; `s` is appended to the pool unless it is there.
    pub fn intern(&mut self, s: &str) -> (r: Symbol)
        requires
            old(self).wf(),
        ensures
            final(self).wf(),
            final(self).texts() == with_text(old(self).texts(), s@),
            r.0 < final(self).texts().len(),
            final(self).texts()[r.0 as int] == s@,
            r.0 == final(self).texts().index_of(s@),
    {
        broadcast use vstd::std_specs::hash::group_hash_axioms;

        if let Some(sym) = self.get(s) {
            return sym;
        }
        let h: u64 = hash_of(s);
        let id: usize = self.strings.len();
        let ghost texts0 = self.texts();
        let ghost strings0 = self.strings@;
        let ghost buckets0 = self.buckets@;
        let mut bucket: Vec<usize> = match self.buckets.remove(&h) {
            Some(b) => b,
            None => Vec::new(),
        };
        let ghost bucket0 = bucket@;
        bucket.push(id);
        self.buckets.insert(h, bucket);
        self.strings.push(s.to_string());
        proof {
            assert(self.texts() =~= texts0.push(s@));
            assert(self.buckets@ =~= buckets0.insert(h, bucket));
            assert forall|i: int| 0 <= i < self.strings@.len() implies {
                let h = text_hash(#[trigger] self.strings@[i]@);
                self.buckets@.contains_key(h) && self.buckets@[h]@.contains(i as usize)
            } by {
                let hi = text_hash(self.strings@[i]@);
                if i < strings0.len() {
                    assert(self.strings@[i] == strings0[i]);
                    assert(buckets0.contains_key(hi) && buckets0[hi]@.contains(i as usize));
                    if hi == h {
                        let k = choose|k: int|
                            0 <= k < buckets0[h]@.len() && buckets0[h]@[k] == i as usize;
                        assert(bucket@[k] == i as usize);
                    }
                } else {
                    assert(bucket@[bucket@.len() - 1] == i as usize);
                }
            }
            assert(texts0.push(s@)[id as int] == s@);
            assert(self.texts().contains(s@));
        }
        Symbol(id)
    }

    /// The symbol of `s`, if `s` was interned.
    pub fn get(&self, s: &str) -> (r: Option<Symbol>)
        requires
            self.wf(),
        ensures
            r is Some <==> self.texts().contains(s@),
            r matches Some(sym) ==> {
                &&& sym.0 < self.texts().len()
                &&& self.texts()[sym.0 as int] == s@
                &&& sym.0 == self.texts().index_of(s@)
            },
    {
        broadcast use vstd::std_specs::hash::group_hash_axioms;

        let h: u64 = hash_of(s);
        match self.buckets.get(&h) {
            None => {
                proof {
                    if self.texts().contains(s@) {
                        let i = self.texts().index_of(s@);
                        assert(self.strings@[i]@ == s@);
                    }
                }
                None
            },
            Some(bucket) => {
                let mut k: usize = 0;
                while k < bucket.len()
                    invariant
                        self.wf(),
                        h == text_hash(s@),
                        self.buckets@.contains_key(h),
                        *bucket == self.buckets@[h],
                        k <= bucket@.len(),
                        forall|j: int|
                            0 <= j < k ==> self.strings@[#[trigger] bucket@[j] as int]@ != s@,
                    decreases bucket.len() - k,
                {
                    let id: usize = bucket[k];
                    if self.strings[id].as_str().eq(s) {
                        assert(self.texts()[id as int] == s@);
                        assert(self.texts().contains(s@));
                        return Some(Symbol(id));
                    }
                    k = k + 1;
                }
                proof {
                    if self.texts().contains(s@) {
                        let i = self.texts().index_of(s@);
                        assert(self.strings@[i]@ == s@);
                        assert(i < self.strings.len());
                        let j = choose|j: int| 0 <= j < bucket@.len() && bucket@[j] == i as usize;
                        assert(self.strings@[bucket@[j] as int]@ == s@);
                    }
                }
                None
            },
        }
    }

    /// The name of a symbol of this pool.
    pub fn resolve(&self, sym: Symbol) -> (r: &str)
        requires
            sym.0 < self.texts().len(),
        ensures
            r@ == self.texts()[sym.0 as int],
    {
        self.strings[sym.0].as_str()
    }

    /// How many names the pool holds.
    pub fn len(&self) -> (r: usize)
        ensures
            r == self.texts().len(),
    {
        self.strings.len()
    }
}

/// A name that is interned again is not added again.
pub proof fn interning_again_adds_nothing(texts: Seq<Chars>, s: Chars)
    ensures
        with_text(with_text(texts, s), s) == with_text(texts, s),
        with_text(texts, s).contains(s),
{
    if !texts.contains(s) {
        assert(texts.push(s)[texts.len() as int] == s);
    }
}

/// Names that a pool holds keep their symbols when another is interned, and none
/// is held twice.
pub proof fn interning_keeps_symbols(texts: Seq<Chars>, s: Chars)
    requires
        texts.no_duplicates(),
    ensures
        texts.is_prefix_of(with_text(texts, s)),
        with_text(texts, s).no_duplicates(),
        forall|t: Chars|
            texts.contains(t) ==> #[trigger] with_text(texts, s).index_of(t) == texts.index_of(t),
{
    let after = with_text(texts, s);
    if !texts.contains(s) {
        assert(after.take(texts.len() as int) =~= texts);
        assert forall|i: int, j: int| 0 <= i < after.len() && 0 <= j < after.len() && i
            != j implies after[i] != after[j] by {
            if i < texts.len() {
                assert(texts.contains(texts[i]));
            }
            if j < texts.len() {
                assert(texts.contains(texts[j]));
            }
        }
    } else {
        assert(after.take(texts.len() as int) =~= texts);
    }
    assert forall|t: Chars| texts.contains(t) implies #[trigger] after.index_of(t)
        == texts.index_of(t) by {
        let i = texts.index_of(t);
        assert(texts[i] == t);
        assert(after[i] == t);
        assert(after.contains(t));
        let j = after.index_of(t);
        assert(after[j] == t);
    }
}

/// Different names have different symbols.
pub proof fn different_names_have_different_symbols(texts: Seq<Chars>, a: Chars, b: Chars)
    requires
        texts.contains(a),
        texts.contains(b),
        a != b,
    ensures
        texts.index_of(a) != texts.index_of(b),
{
    assert(texts[texts.index_of(a)] == a);
    assert(texts[texts.index_of(b)] == b);
}

} // verus!
