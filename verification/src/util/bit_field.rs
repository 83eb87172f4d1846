//! Sets of small numbers stored in the bits of a word.

use vstd::prelude::*;

verus! {

/// Whether a bit is set.
pub open spec fn bit(word: usize, i: int) -> bool {
    0 <= i < usize::BITS && (word >> (i as usize)) & 1 == 1
}

/// The number of bits set below the given one.
pub open spec fn ones_below(word: usize, i: int) -> nat
    decreases i,
{
    if i <= 0 {
        0
    } else {
        ones_below(word, i - 1) + (if bit(word, i - 1) {
            1nat
        } else {
            0nat
        })
    }
}

proof fn lemma_set_bit_at(word: usize, i: usize, j: usize)
    by (bit_vector)
    requires
        i < usize::BITS,
        j < usize::BITS,
    ensures
        ((word | (1usize << i)) >> j) & 1 == 1 <==> (word >> j) & 1 == 1 || i == j,
        ((word & !(1usize << i)) >> j) & 1 == 1 <==> (word >> j) & 1 == 1 && i != j,
        (word & (1usize << i)) != 0 <==> (word >> i) & 1 == 1,
{
}

/// Setting and clearing a bit affects this bit only.
pub proof fn lemma_set_bit(word: usize, i: usize)
    requires
        i < usize::BITS,
    ensures
        forall|j: int| #[trigger] bit(word | (1usize << i), j) <==> bit(word, j) || i == j,
        forall|j: int| #[trigger] bit(word & !(1usize << i), j) <==> bit(word, j) && i != j,
        (word & (1usize << i)) != 0 <==> bit(word, i as int),
{
    lemma_set_bit_at(word, i, i);
    assert forall|j: int| #[trigger] bit(word | (1usize << i), j) <==> bit(word, j) || i == j by {
        if 0 <= j < usize::BITS {
            lemma_set_bit_at(word, i, j as usize);
        }
    }
    assert forall|j: int| #[trigger] bit(word & !(1usize << i), j) <==> bit(word, j) && i
        != j by {
        if 0 <= j < usize::BITS {
            lemma_set_bit_at(word, i, j as usize);
        }
    }
}

proof fn lemma_shift_step(word: usize, k: usize)
    by (bit_vector)
    requires
        k < usize::BITS - 1,
    ensures
        (word >> k) & 1 == 0 && word >> ((k + 1) as usize) == 0 ==> word >> k == 0,
{
}

proof fn lemma_shift_ends(word: usize, top: usize)
    by (bit_vector)
    requires
        top == usize::BITS - 1,
    ensures
        (word >> top) & 1 == 0 ==> word >> top == 0,
        word >> 0 == word,
        (word >> top) & 1 == 0 || (word >> top) & 1 == 1,
{
}

proof fn lemma_bit_is_binary(word: usize, k: usize)
    by (bit_vector)
    ensures
        (word >> k) & 1 == 0 || (word >> k) & 1 == 1,
        (0usize >> k) & 1 == 0,
{
}

proof fn lemma_high_bits_clear(word: usize, k: int)
    requires
        0 <= k < usize::BITS,
        forall|j: int| k <= j < usize::BITS ==> !bit(word, j),
    ensures
        word >> (k as usize) == 0,
    decreases usize::BITS - k,
{
    assert(!bit(word, k));
    lemma_bit_is_binary(word, k as usize);
    if k == usize::BITS - 1 {
        lemma_shift_ends(word, k as usize);
    } else {
        lemma_high_bits_clear(word, k + 1);
        lemma_shift_step(word, k as usize);
    }
}

/// A word is null if and only if none of its bits is set.
pub proof fn lemma_zero(word: usize)
    ensures
        word == 0 <==> (forall|j: int| !bit(word, j)),
        word != 0 ==> exists|j: int| #[trigger] bit(word, j),
{
    if word == 0 {
        assert forall|j: int| !bit(word, j) by {
            if 0 <= j < usize::BITS {
                lemma_bit_is_binary(word, j as usize);
            }
        }
    } else if forall|j: int| !bit(word, j) {
        lemma_high_bits_clear(word, 0);
        lemma_shift_ends(word, (usize::BITS - 1) as usize);
    }
}

proof fn lemma_only_bit(word: usize, i: usize)
    by (bit_vector)
    requires
        i < usize::BITS,
    ensures
        word & !(1usize << i) == 0 && (word >> i) & 1 == 1 <==> word == 1usize << i,
{
}

/// A word equals a power of two if and only if the corresponding bit is the
/// only one that is set.
pub proof fn lemma_single(word: usize, i: usize)
    requires
        i < usize::BITS,
    ensures
        word == 1usize << i <==> bit(word, i as int) && (forall|j: int| bit(word, j) ==> j == i),
{
    lemma_only_bit(word, i);
    lemma_set_bit(word, i);
    lemma_zero(word & !(1usize << i));
    if word == 1usize << i {
        assert forall|j: int| bit(word, j) implies j == i by {
            assert(!bit(word & !(1usize << i), j));
        }
    }
    if bit(word, i as int) && (forall|j: int| bit(word, j) ==> j == i) {
        assert forall|j: int| !bit(word & !(1usize << i), j) by {}
    }
}

proof fn lemma_low_ones_at(n: usize, j: usize)
    by (bit_vector)
    requires
        1 <= n <= usize::BITS,
        j < usize::BITS,
    ensures
        ((!0usize >> ((usize::BITS - n) as usize)) >> j) & 1 == 1 <==> j < n,
{
}

/// Shifting a word full of ones leaves the given number of low bits set.
pub proof fn lemma_low_ones(n: usize)
    requires
        1 <= n <= usize::BITS,
    ensures
        forall|j: int| #[trigger]
            bit(!0usize >> ((usize::BITS - n) as usize), j) <==> 0 <= j < n,
{
    assert forall|j: int| #[trigger] bit(!0usize >> ((usize::BITS - n) as usize), j) <==> 0 <= j
        < n by {
        if 0 <= j < usize::BITS {
            lemma_low_ones_at(n, j as usize);
        }
    }
}

proof fn lemma_shift_right_at(word: usize, s: usize, j: usize)
    by (bit_vector)
    requires
        s < usize::BITS,
        j < usize::BITS,
    ensures
        s + j < usize::BITS ==> ((word >> s) >> j) & 1 == (word >> ((s + j) as usize)) & 1,
        s + j >= usize::BITS ==> ((word >> s) >> j) & 1 == 0,
{
}

/// Shifting a word to the right renumbers its bits.
pub proof fn lemma_shift_right(word: usize, s: usize)
    requires
        s < usize::BITS,
    ensures
        forall|j: int| 0 <= j ==> (#[trigger] bit(word >> s, j) <==> bit(word, s + j)),
{
    assert forall|j: int| 0 <= j implies (#[trigger] bit(word >> s, j) <==> bit(word, s + j)) by {
        if j < usize::BITS {
            lemma_shift_right_at(word, s, j as usize);
        }
    }
}

proof fn lemma_combine_at(a: usize, b: usize, j: usize)
    by (bit_vector)
    ensures
        ((a | b) >> j) & 1 == 1 <==> (a >> j) & 1 == 1 || (b >> j) & 1 == 1,
{
}

proof fn lemma_keep_low_at(word: usize, s: usize, j: usize)
    by (bit_vector)
    requires
        s < usize::BITS,
        j < usize::BITS,
    ensures
        (1usize << s) >= 1,
        ((word & ((1usize << s) - 1) as usize) >> j) & 1 == 1 <==> (word >> j) & 1 == 1 && j < s,
{
}

proof fn lemma_shift_left_at(word: usize, t: usize, j: usize)
    by (bit_vector)
    requires
        t < usize::BITS,
        j < usize::BITS,
    ensures
        j >= t ==> ((word << t) >> j) & 1 == (word >> ((j - t) as usize)) & 1,
        j < t ==> ((word << t) >> j) & 1 == 0,
{
}

/// The bits of a word of `n` bits after it was rotated to the right.
pub open spec fn rotated_bit(word: usize, s: int, n: int, j: int) -> bool {
    0 <= j < n && bit(word, if s + j < n {
        s + j
    } else {
        s + j - n
    })
}

/// Rotates a word of `n` bits to the right, so that the bit of rank `s`
/// becomes the least significant bit.
pub fn rotate_right(word: usize, s: usize, n: usize) -> (r: usize)
    requires
        s < n <= usize::BITS,
        forall|j: int| n <= j ==> !bit(word, j),
    ensures
        forall|j: int| #[trigger] bit(r, j) <==> rotated_bit(word, s as int, n as int, j),
{
    if s == 0 {
        return word;
    }
    proof {
        lemma_keep_low_at(word, s, 0);
    }
    let lower_bits: usize = word & ((1usize << s) - 1);
    let high: usize = word >> s;
    let low: usize = lower_bits << (n - s);
    proof {
        lemma_shift_right(word, s);
        assert forall|j: int| #[trigger] bit(high | low, j) <==> rotated_bit(
            word,
            s as int,
            n as int,
            j,
        ) by {
            if 0 <= j < usize::BITS {
                lemma_combine_at(high, low, j as usize);
                lemma_shift_left_at(lower_bits, (n - s) as usize, j as usize);
                if j >= n - s {
                    lemma_keep_low_at(word, s, (j - (n - s)) as usize);
                }
                assert(bit(high, j) <==> bit(word, s + j));
            }
        }
    }
    high | low
}

/// Counts the bits that are set.
pub fn count_ones(word: usize) -> (count: usize)
    ensures
        count == ones_below(word, usize::BITS as int),
        count <= usize::BITS,
        count > 0 <==> word != 0,
{
    let mut count: usize = 0;
    let mut i: usize = 0;
    while i < usize::BITS as usize
        invariant
            i <= usize::BITS,
            count == ones_below(word, i as int),
            count <= i,
        decreases usize::BITS - i,
    {
        if (word >> i) & 1 == 1 {
            count += 1;
        }
        i += 1;
    }
    proof {
        lemma_zero(word);
        if word != 0 {
            let j = choose|j: int| bit(word, j);
            lemma_ones_below_grows(word, j + 1, usize::BITS as int);
        } else {
            lemma_no_ones(word, usize::BITS as int);
        }
    }
    count
}

/// The number of bits set does not decrease when more bits are counted.
pub proof fn lemma_ones_below_grows(word: usize, i: int, j: int)
    requires
        0 <= i <= j,
    ensures
        ones_below(word, i) <= ones_below(word, j) <= ones_below(word, i) + j - i,
    decreases j - i,
{
    if i < j {
        lemma_ones_below_grows(word, i, j - 1);
    }
}

proof fn lemma_no_ones(word: usize, i: int)
    requires
        forall|j: int| !bit(word, j),
    ensures
        ones_below(word, i) == 0,
    decreases i,
{
    if i > 0 {
        lemma_no_ones(word, i - 1);
    }
}

/// Finds the position of the `rank`-th set bit, starting the search from the
/// least significant bit.
///
/// A rank of 1 specifies the first set bit. If less bits than `rank` are set,
/// the total number of bits is returned.
pub fn find_bit(word: usize, rank: usize) -> (position: usize)
    requires
        rank >= 1,
    ensures
        position <= usize::BITS,
        position < usize::BITS <==> rank <= ones_below(word, usize::BITS as int),
        position < usize::BITS ==> bit(word, position as int) && ones_below(word, position as int)
            == rank - 1,
{
    let mut count: usize = 0;
    let mut i: usize = 0;
    while i < usize::BITS as usize
        invariant
            i <= usize::BITS,
            count == ones_below(word, i as int),
            count < rank,
            count <= i,
        decreases usize::BITS - i,
    {
        if (word >> i) & 1 == 1 {
            count += 1;
            if count == rank {
                proof {
                    lemma_ones_below_grows(word, i + 1, usize::BITS as int);
                }
                return i;
            }
        }
        i += 1;
    }
    i
}

/// The bits set below some bit are counted one by one.
pub proof fn law_ones_below(word: usize, i: int)
    requires
        0 <= i <= usize::BITS,
    ensures
        ones_below(word, i) == Seq::new(i as nat, |j: int| j).filter(|j: int| bit(word, j)).len(),
    decreases i,
{
    reveal(Seq::filter);
    if i > 0 {
        law_ones_below(word, i - 1);
        assert(Seq::new(i as nat, |j: int| j).drop_last() =~= Seq::new((i - 1) as nat, |j: int| j));
    }
}

/// A rotation of a word of `n` bits to the right renumbers its bits, in cyclic order.
pub proof fn law_rotation(word: usize, s: int, n: int, j: int)
    requires
        0 <= s < n,
        0 <= j < n,
    ensures
        s + j < n ==> (rotated_bit(word, s, n, j) <==> bit(word, s + j)),
        s + j >= n ==> (rotated_bit(word, s, n, j) <==> bit(word, s + j - n)),
{
}

} // verus!
