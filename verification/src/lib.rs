//! Byte-frequency analysis for entropy measurement.
//!
//! The heart of the crate is [`Entropy`], a 256-entry occurrence table built
//! from a byte sequence in a single pass. Every entry records how often the
//! corresponding byte value appears in the input, and `length` records the
//! total number of bytes observed. Floating-point derivations (Shannon and
//! metric entropy) are computed by the caller from this table.

use vstd::prelude::*;

verus! {

/// Contains metadata about the bytes that are used in the entropy calculation.
///
/// `byte_count` is a lookup table that contains the number of occurrences of
/// a byte specified by the index, e.g. 0x00 is `byte_count[0]`.
///
/// `length` is the number of bytes observed.
pub struct Entropy {
    pub byte_count: [u64; 256],
    pub length: u64,
}

/// How many times the byte value `v` occurs in the sequence `s`.
pub open spec fn occurrences(s: Seq<u8>, v: u8) -> nat
    decreases s.len(),
{
    if s.len() == 0 {
        0
    } else {
        occurrences(s.drop_last(), v) + (if s.last() == v {
            1nat
        } else {
            0nat
        })
    }
}

/// A byte value cannot occur more often than the sequence is long.
proof fn lemma_occurrences_le_len(s: Seq<u8>, v: u8)
    ensures
        occurrences(s, v) <= s.len(),
    decreases s.len(),
{
    if s.len() > 0 {
        lemma_occurrences_le_len(s.drop_last(), v);
    }
}

/// `occurrences` agrees with the multiset view of the sequence: a byte's
/// frequency depends only on which bytes the input holds, not on their order.
proof fn lemma_occurrences_is_multiset_count(s: Seq<u8>, v: u8)
    ensures
        occurrences(s, v) == s.to_multiset().count(v),
    decreases s.len(),
{
    broadcast use vstd::seq_lib::group_to_multiset_ensures;

    if s.len() == 0 {
        assert(s.to_multiset().count(v) == 0);
    } else {
        lemma_occurrences_is_multiset_count(s.drop_last(), v);
        assert(s =~= s.drop_last().push(s.last()));
        if s.last() == v {
            vstd::multiset::lemma_insert_increases_count_by_1(s.drop_last().to_multiset(), v);
        } else {
            vstd::multiset::lemma_insert_other_elements_unchanged(
                s.drop_last().to_multiset(),
                s.last(),
                v,
            );
        }
    }
}

/// The sum of the entries of a frequency table, read as a sequence.
pub open spec fn sum_of_counts(c: Seq<u64>) -> int
    decreases c.len(),
{
    if c.len() == 0 {
        0
    } else {
        sum_of_counts(c.drop_last()) + c.last()
    }
}

/// Updating one entry of a table changes the sum by the difference at
/// that entry.
proof fn lemma_sum_of_counts_update(c: Seq<u64>, j: int, x: u64)
    requires
        0 <= j < c.len(),
    ensures
        sum_of_counts(c.update(j, x)) == sum_of_counts(c) - c[j] + x,
    decreases c.len(),
{
    if j == c.len() - 1 {
        assert(c.update(j, x).drop_last() =~= c.drop_last());
    } else {
        assert(c.update(j, x).drop_last() =~= c.drop_last().update(j, x));
        lemma_sum_of_counts_update(c.drop_last(), j, x);
    }
}

/// A table whose entries are all zero sums to zero.
proof fn lemma_sum_of_counts_zero(c: Seq<u64>)
    requires
        forall|j: int| 0 <= j < c.len() ==> c[j] == 0,
    ensures
        sum_of_counts(c) == 0,
    decreases c.len(),
{
    if c.len() > 0 {
        lemma_sum_of_counts_zero(c.drop_last());
    }
}

/// A 256-entry table that records the occurrence count of every byte value
/// of `s` sums to the length of `s`: every byte of the input is counted in
/// exactly one entry.
proof fn lemma_sum_of_occurrences(s: Seq<u8>, c: Seq<u64>)
    requires
        c.len() == 256,
        forall|v: u8| c[v as int] == occurrences(s, v),
    ensures
        sum_of_counts(c) == s.len(),
    decreases s.len(),
{
    if s.len() == 0 {
        assert forall|j: int| 0 <= j < c.len() implies c[j] == 0 by {
            assert(c[j] == occurrences(s, j as u8));
        }
        lemma_sum_of_counts_zero(c);
    } else {
        let s0 = s.drop_last();
        let b = s.last();
        assert(c[b as int] == occurrences(s, b));
        assert(occurrences(s, b) == occurrences(s0, b) + 1);
        let c0 = c.update(b as int, (c[b as int] - 1) as u64);
        assert forall|v: u8| c0[v as int] == occurrences(s0, v) by {
            assert(c[v as int] == occurrences(s, v));
        }
        lemma_sum_of_occurrences(s0, c0);
        lemma_sum_of_counts_update(c, b as int, (c[b as int] - 1) as u64);
    }
}

impl Entropy {
    /// The table is exactly the frequency table of the byte sequence `s`:
    /// the recorded length is the length of `s`, and each of the 256 entries
    /// is the number of occurrences of its byte value in `s`.
    pub open spec fn is_table_of(self, s: Seq<u8>) -> bool {
        &&& self.length == s.len()
        &&& forall|v: u8| self.byte_count@[v as int] == occurrences(s, v)
    }

    /// Builds the frequency table for `bytes`: all 256 counts start at zero,
    /// one pass over the input increments the entry of each byte read, and
    /// `length` ends up as the total number of bytes.
    pub fn new(bytes: &[u8]) -> (table: Entropy)
        ensures
            table.is_table_of(bytes@),
    {
        let ghost s: Seq<u8> = bytes@;
        let mut byte_count: [u64; 256] = [0u64; 256];
        let mut i: usize = 0;
        while i < bytes.len()
            invariant
                i <= s.len(),
                s == bytes@,
                s.len() == bytes.len(),
                forall|v: u8| byte_count@[v as int] == occurrences(s.take(i as int), v),
            decreases s.len() - i,
        {
            let b = bytes[i];
            proof {
                lemma_occurrences_le_len(s.take(i as int), b);
            }
            byte_count[b as usize] = byte_count[b as usize] + 1;
            proof {
                assert forall|v: u8| byte_count@[v as int] == occurrences(
                    s.take(i + 1int),
                    v,
                ) by {
                    assert(s.take(i + 1int).drop_last() =~= s.take(i as int));
                    assert(s.take(i + 1int).last() == b);
                }
            }
            i = i + 1;
        }
        proof {
            assert(s.take(s.len() as int) =~= s);
        }
        Entropy { byte_count, length: bytes.len() as u64 }
    }
}

/// The sum of all 256 frequency entries equals the recorded total length:
/// every byte of the input is accounted for in exactly one entry.
pub proof fn lemma_counts_sum_to_length(table: Entropy, s: Seq<u8>)
    requires
        table.is_table_of(s),
    ensures
        sum_of_counts(table.byte_count@) == table.length,
{
    lemma_sum_of_occurrences(s, table.byte_count@);
}

/// An empty input yields a table with total length zero and every one of
/// the 256 entries zero.
pub proof fn lemma_empty_input_counts(table: Entropy, s: Seq<u8>)
    requires
        table.is_table_of(s),
        s.len() == 0,
    ensures
        table.length == 0,
        forall|v: u8| table.byte_count@[v as int] == 0,
{
    assert forall|v: u8| table.byte_count@[v as int] == 0 by {
        assert(table.byte_count@[v as int] == occurrences(s, v));
    }
}

/// An input made of a single repeated byte value concentrates the whole
/// length in that value's entry and leaves every other entry at zero.
pub proof fn lemma_single_symbol_counts(table: Entropy, s: Seq<u8>, b: u8)
    requires
        table.is_table_of(s),
        forall|i: int| 0 <= i < s.len() ==> s[i] == b,
    ensures
        table.byte_count@[b as int] == s.len(),
        forall|v: u8| v != b ==> table.byte_count@[v as int] == 0,
{
    lemma_occurrences_uniform(s, b);
    assert forall|v: u8| v != b implies table.byte_count@[v as int] == 0 by {
        assert(table.byte_count@[v as int] == occurrences(s, v));
    }
}

/// In a sequence of one repeated byte value, that value occurs as often as
/// the sequence is long and every other value occurs zero times.
proof fn lemma_occurrences_uniform(s: Seq<u8>, b: u8)
    requires
        forall|i: int| 0 <= i < s.len() ==> s[i] == b,
    ensures
        occurrences(s, b) == s.len(),
        forall|v: u8| v != b ==> occurrences(s, v) == 0,
    decreases s.len(),
{
    if s.len() > 0 {
        assert(s.last() == b);
        lemma_occurrences_uniform(s.drop_last(), b);
        assert forall|v: u8| v != b implies occurrences(s, v) == 0 by {
            assert(occurrences(s, v) == occurrences(s.drop_last(), v));
        }
    } else {
        assert forall|v: u8| v != b implies occurrences(s, v) == 0 by {
            assert(occurrences(s, v) == 0);
        }
    }
}

/// The frequency table is invariant under any permutation of the input:
/// two byte sequences holding the same bytes, in whatever order, produce
/// identical tables, so any value derived from the table alone is
/// order-independent.
pub proof fn lemma_table_permutation_invariant(
    first: Entropy,
    second: Entropy,
    s1: Seq<u8>,
    s2: Seq<u8>,
)
    requires
        first.is_table_of(s1),
        second.is_table_of(s2),
        s1.to_multiset() == s2.to_multiset(),
    ensures
        first.byte_count == second.byte_count,
        first.length == second.length,
{
    broadcast use vstd::seq_lib::group_to_multiset_ensures;

    assert forall|j: int| 0 <= j < 256 implies first.byte_count@[j] == second.byte_count@[j] by {
        let v = j as u8;
        lemma_occurrences_is_multiset_count(s1, v);
        lemma_occurrences_is_multiset_count(s2, v);
        assert(first.byte_count@[v as int] == occurrences(s1, v));
        assert(second.byte_count@[v as int] == occurrences(s2, v));
    }
    assert(first.byte_count =~= second.byte_count);
    assert(s1.len() == s1.to_multiset().len());
    assert(s2.len() == s2.to_multiset().len());
}

} // verus!
