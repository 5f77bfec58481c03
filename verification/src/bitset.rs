//! Growable bit sets and a symbol table used by the set-algebra resolver.

use vstd::prelude::*;

verus! {

/// Whether bit `k` (counted from the least significant bit) of `w` is set.
pub open spec fn word_bit(w: u64, k: nat) -> bool {
    k < 64 && (w >> (k as u64)) & 1u64 == 1u64
}

/// Whether `bit` is present in a word vector laid out 64 bits per word.
pub open spec fn words_have(words: Seq<u64>, bit: nat) -> bool {
    bit / 64 < words.len() && word_bit(words[(bit / 64) as int], bit % 64)
}

proof fn lemma_or_bit(a: u64, b: u64, k: u64)
    requires
        k < 64,
    ensures
        ((a | b) >> k) & 1u64 == 1u64 <==> ((a >> k) & 1u64 == 1u64 || (b >> k) & 1u64 == 1u64),
{
    assert(((a | b) >> k) & 1u64 == 1u64 <==> ((a >> k) & 1u64 == 1u64 || (b >> k) & 1u64 == 1u64))
        by (bit_vector)
        requires
            k < 64,
    ;
}

proof fn lemma_mask_bit(a: u64, k: u64, j: u64)
    requires
        k < 64,
        j < 64,
    ensures
        ((a | (1u64 << k)) >> j) & 1u64 == 1u64 <==> (j == k || (a >> j) & 1u64 == 1u64),
        (a & (1u64 << k)) != 0 <==> (a >> k) & 1u64 == 1u64,
{
    assert(((a | (1u64 << k)) >> j) & 1u64 == 1u64 <==> (j == k || (a >> j) & 1u64 == 1u64))
        by (bit_vector)
        requires
            k < 64,
            j < 64,
    ;
    assert((a & (1u64 << k)) != 0 <==> (a >> k) & 1u64 == 1u64) by (bit_vector)
        requires
            k < 64,
    ;
}

proof fn lemma_zero_word(j: u64)
    requires
        j < 64,
    ensures
        (0u64 >> j) & 1u64 != 1u64,
{
    assert((0u64 >> j) & 1u64 != 1u64) by (bit_vector);
}

proof fn lemma_andnot_bit(a: u64, b: u64, j: u64)
    requires
        j < 64,
    ensures
        ((a & !b) >> j) & 1u64 == 1u64 <==> ((a >> j) & 1u64 == 1u64 && (b >> j) & 1u64 != 1u64),
{
    assert(((a & !b) >> j) & 1u64 == 1u64 <==> ((a >> j) & 1u64 == 1u64 && (b >> j) & 1u64
        != 1u64)) by (bit_vector)
        requires
            j < 64,
    ;
}

/// A nonzero word has some set bit.
proof fn lemma_nonzero_has_bit(x: u64)
    requires
        x != 0,
    ensures
        exists|j: nat| j < 64 && #[trigger] word_bit(x, j),
    decreases x,
{
    if x & 1u64 == 1u64 {
        assert((x >> 0u64) & 1u64 == x & 1u64) by (bit_vector);
        assert(word_bit(x, 0));
    } else {
        assert(x != 0 && x & 1u64 != 1u64 ==> (x >> 1u64) != 0 && (x >> 1u64) < x) by (bit_vector);
        let y = x >> 1u64;
        lemma_nonzero_has_bit(y);
        let j = choose|j: nat| j < 64 && #[trigger] word_bit(y, j);
        let ju = j as u64;
        if ju == 63 {
            assert(((x >> 1u64) >> 63u64) & 1u64 != 1u64) by (bit_vector);
            assert(false);
        }
        assert(ju < 63 ==> ((x >> 1u64) >> ju) & 1u64 == (x >> (ju + 1)) & 1u64) by (bit_vector);
        assert(word_bit(x, j + 1));
    }
}

/// A growable set of small non-negative integers, 64 per word.
#[derive(Debug, Default, PartialEq, Eq)]
pub struct BitSet {
    words: Vec<u64>,
}

impl Clone for BitSet {
    /// A copy holding the same bits.
    fn clone(&self) -> (c: Self)
        ensures
            c.view() == self.view(),
            c.word_count() == self.word_count(),
    {
        proof {
            use_type_invariant(self);
        }
        let words = self.words.clone();
        assert(words@ =~= self.words@);
        BitSet { words }
    }
}

impl BitSet {
    /// The words never outnumber those that bits of type `usize` can need,
    /// so every bit of the set is a `usize`.
    #[verifier::type_invariant]
    spec fn words_fit(self) -> bool {
        self.words@.len() <= usize::MAX / 64 + 1
    }

    /// The bits present in the set.
    pub closed spec fn view(&self) -> Set<nat> {
        Set::new(|b: nat| words_have(self.words@, b))
    }

    /// Number of words currently allocated.
    pub closed spec fn word_count(&self) -> nat {
        self.words@.len()
    }

    /// Every bit of the set lies within its words.
    pub proof fn lemma_bits_below(&self)
        ensures
            forall|b: nat| #[trigger] self.view().contains(b) ==> b < 64 * self.word_count(),
    {
        assert forall|b: nat| #[trigger] self.view().contains(b) implies b < 64 * self.word_count() by {
            let n = self.words@.len();
            assert(b / 64 < n);
            assert(b < 64 * n) by (nonlinear_arith)
                requires
                    b / 64 < n,
            ;
        }
    }

    /// A set whose words fit holds only bits that are `usize` values.
    proof fn lemma_bits_fit(&self)
        requires
            self.words@.len() <= usize::MAX / 64 + 1,
        ensures
            forall|b: nat| #[trigger] self.view().contains(b) ==> b <= usize::MAX,
    {
        assert(usize::MAX == 0xffff_ffff || usize::MAX == 0xffff_ffff_ffff_ffff);
        assert(usize::MAX % 64 == 63);
        let q = usize::MAX / 64;
        assert forall|b: nat| #[trigger] self.view().contains(b) implies b <= usize::MAX by {
            assert(b / 64 < self.words@.len());
            assert(b <= usize::MAX) by (nonlinear_arith)
                requires
                    b / 64 <= q,
                    q == usize::MAX / 64,
                    usize::MAX % 64 == 63,
            ;
        }
    }

    /// Creates an empty set with room for `bits` bits.
    pub fn with_capacity(bits: usize) -> (s: Self)
        ensures
            s.view() =~= Set::<nat>::empty(),
            s.word_count() * 64 >= bits,
            s.word_count() == bits / 64 + (if bits % 64 == 0 { 0nat } else { 1nat }),
    {
        let n: usize = if bits % 64 == 0 {
            bits / 64
        } else {
            bits / 64 + 1
        };
        let words = vec![0u64; n];
        let s = Self { words };
        assert forall|b: nat| !words_have(s.words@, b) by {
            if b / 64 < s.words@.len() {
                assert(s.words@[(b / 64) as int] == 0u64);
                lemma_zero_word((b % 64) as u64);
            }
        }
        s
    }

    /// Grows the word vector so that `bit` has a word to live in.
    fn ensure(&mut self, bit: usize)
        requires
            bit / 64 + 1 <= usize::MAX,
        ensures
            final(self).view() == old(self).view(),
            final(self).word_count() > bit / 64,
            final(self).word_count() >= old(self).word_count(),
    {
        let need_words = (bit / 64) + 1;
        if need_words > self.words.len() {
            let ghost old_words = self.words@;
            let mut words: Vec<u64> = Vec::new();
            std::mem::swap(&mut words, &mut self.words);
            words.resize(need_words, 0u64);
            assert forall|b: nat| words_have(words@, b) == words_have(old_words, b) by {
                let w = (b / 64) as int;
                if w < old_words.len() {
                    assert(words@[w] == words@.subrange(0, old_words.len() as int)[w]);
                } else if w < words@.len() {
                    lemma_zero_word((b % 64) as u64);
                }
            }
            assert(bit / 64 <= usize::MAX / 64);
            self.words = words;
            assert(self.view() =~= old(self).view());
        }
    }

    /// Adds `bit`; returns true when it was not present before.
    pub fn insert(&mut self, bit: usize) -> (added: bool)
        requires
            bit / 64 + 1 <= usize::MAX,
        ensures
            final(self).view() == old(self).view().insert(bit as nat),
            added == !old(self).view().contains(bit as nat),
    {
        self.ensure(bit);
        let ghost mid = self.view();
        let word = bit / 64;
        let k: u64 = (bit % 64) as u64;
        let mask = 1u64 << k;
        let w = self.words[word];
        let existed = w & mask != 0;
        proof {
            lemma_mask_bit(w, k, 0);
            assert(existed == mid.contains(bit as nat));
        }
        let ghost before = self.words@;
        proof {
            use_type_invariant(&*self);
        }
        let mut words: Vec<u64> = Vec::new();
        std::mem::swap(&mut words, &mut self.words);
        words.set(word, w | mask);
        self.words = words;
        proof {
            assert forall|b: nat| words_have(self.words@, b) == (words_have(before, b) || b == bit)
                by {
                let wi = (b / 64) as int;
                if wi == word as int {
                    lemma_mask_bit(w, k, (b % 64) as u64);
                }
            }
            assert(self.view() =~= mid.insert(bit as nat));
        }
        !existed
    }

    /// Whether `bit` is present.
    pub fn contains(&self, bit: usize) -> (r: bool)
        ensures
            r == self.view().contains(bit as nat),
    {
        let word = bit / 64;
        if word >= self.words.len() {
            return false;
        }
        let k: u64 = (bit % 64) as u64;
        let mask = 1u64 << k;
        proof {
            lemma_mask_bit(self.words@[word as int], k, 0);
        }
        self.words[word] & mask != 0
    }

    /// Adds every bit of `other`.
    pub fn union_with(&mut self, other: &Self)
        ensures
            final(self).view() == old(self).view().union(other.view()),
    {
        let ghost old_view = self.view();
        proof {
            use_type_invariant(&*self);
            use_type_invariant(other);
        }
        let mut words: Vec<u64> = Vec::new();
        std::mem::swap(&mut words, &mut self.words);
        if other.words.len() > words.len() {
            let ghost old_words = words@;
            words.resize(other.words.len(), 0u64);
            assert forall|b: nat| words_have(words@, b) == words_have(old_words, b) by {
                let w = (b / 64) as int;
                if w < old_words.len() {
                    assert(words@[w] == words@.subrange(0, old_words.len() as int)[w]);
                } else if w < words@.len() {
                    lemma_zero_word((b % 64) as u64);
                }
            }
        }
        let ghost start = words@;
        let n = other.words.len();
        let mut i: usize = 0;
        while i < n
            invariant
                n == other.words@.len(),
                i <= n,
                words@.len() == start.len(),
                start.len() >= n,
                forall|j: int| 0 <= j < i ==> words@[j] == (start[j] | other.words@[j]),
                forall|j: int| i <= j < start.len() ==> words@[j] == start[j],
            decreases n - i,
        {
            let v = words[i] | other.words[i];
            words.set(i, v);
            i = i + 1;
        }
        self.words = words;
        proof {
            assert forall|b: nat| words_have(self.words@, b) == (words_have(start, b) || words_have(
                other.words@,
                b,
            )) by {
                let w = (b / 64) as int;
                if w < n {
                    lemma_or_bit(start[w], other.words@[w], (b % 64) as u64);
                }
            }
            assert(self.view() =~= old_view.union(other.view()));
        }
    }

    /// Whether every bit of `self` is also in `other`.
    pub fn is_subset_of(&self, other: &Self) -> (r: bool)
        ensures
            r == self.view().subset_of(other.view()),
            forall|b: nat| #[trigger] self.view().contains(b) ==> b < 64 * self.word_count(),
            forall|b: nat| #[trigger] other.view().contains(b) ==> b < 64 * other.word_count(),
            forall|b: nat| #[trigger] self.view().contains(b) ==> b <= usize::MAX,
            forall|b: nat| #[trigger] other.view().contains(b) ==> b <= usize::MAX,
            r == (forall|i: usize| #[trigger] self.view().contains(i as nat) ==> other.view().contains(i as nat)),
    {
        proof {
            self.lemma_bits_below();
            other.lemma_bits_below();
            use_type_invariant(self);
            use_type_invariant(other);
            self.lemma_bits_fit();
            other.lemma_bits_fit();
            assert((forall|i: usize| #[trigger] self.view().contains(i as nat) ==> other.view().contains(i as nat))
                ==> self.view().subset_of(other.view())) by {
                if forall|i: usize| #[trigger] self.view().contains(i as nat) ==> other.view().contains(i as nat) {
                    assert forall|b: nat| self.view().contains(b) implies other.view().contains(b) by {
                        let i = b as usize;
                        assert(i as nat == b);
                    }
                }
            }
        }
        self.words_subset(other)
    }

    /// Whether every bit of `self` is a bit of `other`, word by word.
    fn words_subset(&self, other: &Self) -> (r: bool)
        ensures
            r == self.view().subset_of(other.view()),
            forall|b: nat| #[trigger] self.view().contains(b) ==> b < 64 * self.word_count(),
            forall|b: nat| #[trigger] other.view().contains(b) ==> b < 64 * other.word_count(),
    {
        proof {
            self.lemma_bits_below();
            other.lemma_bits_below();
        }
        let n = self.words.len();
        let mut i: usize = 0;
        while i < n
            invariant
                n == self.words@.len(),
                i <= n,
                forall|b: nat| b / 64 < i && #[trigger] words_have(self.words@, b) ==> words_have(
                    other.words@,
                    b,
                ),
            decreases n - i,
        {
            let left = self.words[i];
            let right = if i < other.words.len() {
                other.words[i]
            } else {
                0u64
            };
            if left & !right != 0 {
                proof {
                    lemma_nonzero_has_bit(left & !right);
                    let j = choose|j: nat| j < 64 && #[trigger] word_bit(left & !right, j);
                    lemma_andnot_bit(left, right, j as u64);
                    let b: nat = (i as nat) * 64 + j;
                    assert(b / 64 == i as nat && b % 64 == j) by (nonlinear_arith)
                        requires
                            b == (i as nat) * 64 + j,
                            j < 64,
                    ;
                    assert(words_have(self.words@, b));
                    if i >= other.words.len() {
                        assert(!words_have(other.words@, b));
                    }
                    assert(self.view().contains(b) && !other.view().contains(b));
                }
                return false;
            }
            proof {
                assert forall|b: nat| b / 64 < i + 1 && #[trigger] words_have(self.words@, b)
                    implies words_have(other.words@, b) by {
                    if b / 64 == i as nat {
                        lemma_andnot_bit(left, right, (b % 64) as u64);
                        lemma_zero_word((b % 64) as u64);
                        assert((left & !right) >> ((b % 64) as u64) == 0u64 >> ((b % 64) as u64));
                    }
                }
            }
            i = i + 1;
        }
        proof {
            assert(self.view().subset_of(other.view()));
        }
        true
    }
}

/// Interns strings as dense indices: the first new key gets 0, the next 1,
/// and a key seen before gets its index back.
#[derive(Debug, Default)]
pub struct SymbolTable {
    keys: Vec<String>,
}

impl SymbolTable {
    /// The interned keys, each at its index.
    pub closed spec fn view(&self) -> Seq<Seq<char>> {
        self.keys@.map_values(|k: String| k@)
    }

    /// No key is interned twice.
    pub open spec fn well_formed(&self) -> bool {
        forall|i: int, j: int| 0 <= i < j < self.view().len() ==> self.view()[i] != self.view()[j]
    }

    /// Creates an empty table.
    pub fn new() -> (t: Self)
        ensures
            t.view() == Seq::<Seq<char>>::empty(),
            t.well_formed(),
    {
        let t = SymbolTable { keys: Vec::new() };
        assert(t.view() =~= Seq::<Seq<char>>::empty());
        t
    }

    /// Number of interned keys.
    pub fn len(&self) -> (n: usize)
        ensures
            n == self.view().len(),
    {
        assert(self.view().len() == self.keys@.len());
        self.keys.len()
    }

    /// Returns the index of `key`, interning it at the next index when it is
    /// new.
    pub fn intern(&mut self, key: String) -> (index: usize)
        requires
            old(self).well_formed(),
        ensures
            final(self).well_formed(),
            old(self).view().contains(key@) ==> final(self).view() == old(self).view(),
            !old(self).view().contains(key@) ==> final(self).view() == old(self).view().push(key@),
            index < final(self).view().len(),
            final(self).view()[index as int] == key@,
            final(self).view().len() <= usize::MAX,
    {
        let mut i: usize = 0;
        while i < self.keys.len()
            invariant
                self.well_formed(),
                i <= self.keys@.len(),
                forall|j: int| 0 <= j < i ==> self.keys@[j]@ != key@,
            decreases self.keys@.len() - i,
        {
            if self.keys[i] == key {
                assert(self.view()[i as int] == key@);
                return i;
            }
            i += 1;
        }
        let ghost before = self.view();
        assert(!before.contains(key@)) by {
            if before.contains(key@) {
                let j = choose|j: int| 0 <= j < before.len() && before[j] == key@;
                assert(self.keys@[j]@ == key@);
            }
        }
        let index = self.keys.len();
        self.keys.push(key);
        assert(self.view() =~= before.push(key@));
        assert(self.view().len() == self.keys.len());
        index
    }
}

} // verus!
