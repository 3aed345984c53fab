//! The persisted best-score table: a dense two-dimensional array of unsigned
//! 32-bit scores indexed by (difficulty level, game variant), serialized as a
//! flat little-endian record with no header. A record of the wrong size
//! silently degrades to an all-zero table; deciding when to rewrite the store
//! is the table's job, performing the write is its caller's.

use vstd::prelude::*;

verus! {

/// A best-score table with `levels x variants` entries, stored row-major by
/// level.
pub struct ScoreTable {
    levels: usize,
    variants: usize,
    scores: Vec<u32>,
}

/// The unsigned 32-bit value encoded by four little-endian bytes.
pub open spec fn le32(b0: u8, b1: u8, b2: u8, b3: u8) -> u32 {
    (b0 as u32) | ((b1 as u32) << 8) | ((b2 as u32) << 16) | ((b3 as u32) << 24)
}

/// The larger of two scores.
pub open spec fn spec_max32(a: u32, b: u32) -> u32 {
    if a >= b {
        a
    } else {
        b
    }
}

/// `bytes` is the serialized form of `t`: one little-endian 32-bit group per
/// entry, row-major by level then variant, no header.
pub open spec fn table_encoded(t: ScoreTable, bytes: Seq<u8>) -> bool {
    &&& bytes.len() == 4 * (t.spec_levels() * t.spec_variants())
    &&& forall|l: int, v: int|
        0 <= l < t.spec_levels() && 0 <= v < t.spec_variants() ==> {
            let o = 4 * (l * t.spec_variants() + v);
            le32(bytes[o], bytes[o + 1], bytes[o + 2], bytes[o + 3]) == #[trigger] t.score_at(l, v)
        }
}

/// `t` is the table a `levels x variants` load of `bytes` produces: the
/// decoded entries when the record is long enough, all zero otherwise.
pub open spec fn table_decoded(levels: int, variants: int, bytes: Seq<u8>, t: ScoreTable) -> bool {
    &&& t.wf()
    &&& t.spec_levels() == levels
    &&& t.spec_variants() == variants
    &&& if bytes.len() >= 4 * (levels * variants) {
        forall|l: int, v: int|
            0 <= l < levels && 0 <= v < variants ==> {
                let o = 4 * (l * variants + v);
                #[trigger] t.score_at(l, v) == le32(bytes[o], bytes[o + 1], bytes[o + 2], bytes[o + 3])
            }
    } else {
        forall|l: int, v: int| 0 <= l < levels && 0 <= v < variants ==> #[trigger] t.score_at(l, v) == 0u32
    }
}

/// `post` is `pre` with the `(l, v)` entry raised to at least `s` (exactly
/// the larger of the two) and every other entry untouched.
pub open spec fn table_bumped(pre: ScoreTable, post: ScoreTable, l: int, v: int, s: u32) -> bool {
    &&& post.wf()
    &&& post.spec_levels() == pre.spec_levels()
    &&& post.spec_variants() == pre.spec_variants()
    &&& post.score_at(l, v) == spec_max32(pre.score_at(l, v), s)
    &&& forall|a: int, b: int|
        0 <= a < pre.spec_levels() && 0 <= b < pre.spec_variants() && !(a == l && b == v)
            ==> #[trigger] post.score_at(a, b) == pre.score_at(a, b)
}

/// Entry index arithmetic stays inside the dense store.
proof fn lemma_entry_index(l: int, v: int, levels: int, variants: int)
    requires
        0 <= l < levels,
        0 <= v < variants,
    ensures
        0 <= l * variants + v < levels * variants,
        4 * (l * variants + v) + 3 < 4 * (levels * variants),
{
    assert(0 <= l * variants + v < levels * variants) by (nonlinear_arith)
        requires
            0 <= l < levels,
            0 <= v < variants,
    ;
}

impl ScoreTable {
    /// One backing entry per (level, variant) pair.
    pub closed spec fn wf(self) -> bool {
        self.scores@.len() == self.levels * self.variants
    }

    pub closed spec fn spec_levels(self) -> int {
        self.levels as int
    }

    pub closed spec fn spec_variants(self) -> int {
        self.variants as int
    }

    /// The stored best score for `(level, variant)`.
    pub closed spec fn score_at(self, level: int, variant: int) -> u32 {
        self.scores@[level * self.spec_variants() + variant]
    }

    /// An all-zero table: the state of "no prior scores".
    pub fn zeroed(levels: usize, variants: usize) -> (r: ScoreTable)
        requires
            levels * variants <= usize::MAX,
        ensures
            r.wf(),
            r.spec_levels() == levels,
            r.spec_variants() == variants,
            forall|l: int, v: int|
                0 <= l < levels && 0 <= v < variants ==> #[trigger] r.score_at(l, v) == 0u32,
    {
        proof {
            assert(levels * variants >= 0) by (nonlinear_arith);
        }
        let n = levels * variants;
        let mut scores: Vec<u32> = Vec::new();
        let mut i: usize = 0;
        while i < n
            invariant
                i <= n,
                scores@.len() == i,
                forall|j: int| 0 <= j < i ==> scores@[j] == 0u32,
            decreases n - i,
        {
            scores.push(0);
            i = i + 1;
        }
        let r = ScoreTable { levels, variants, scores };
        proof {
            assert forall|l: int, v: int|
                0 <= l < levels && 0 <= v < variants implies #[trigger] r.score_at(l, v)
                == 0u32 by {
                lemma_entry_index(l, v, levels as int, variants as int);
            }
        }
        r
    }

    /// Load a table from a serialized record. A record shorter than the
    /// table (a missing or truncated store) yields the all-zero table rather
    /// than an error; extra trailing bytes are ignored.
    pub fn from_bytes(levels: usize, variants: usize, bytes: &Vec<u8>) -> (r: ScoreTable)
        requires
            4 * (levels * variants) <= usize::MAX,
        ensures
            table_decoded(levels as int, variants as int, bytes@, r),
    {
        proof {
            assert(levels * variants >= 0) by (nonlinear_arith);
        }
        let n = levels * variants;
        if bytes.len() < 4 * n {
            return ScoreTable::zeroed(levels, variants);
        }
        let mut scores: Vec<u32> = Vec::new();
        let mut i: usize = 0;
        while i < n
            invariant
                i <= n,
                n == levels * variants,
                4 * n <= usize::MAX,
                bytes@.len() >= 4 * n,
                scores@.len() == i,
                forall|j: int|
                    0 <= j < i ==> #[trigger] scores@[j] == le32(
                        bytes@[4 * j],
                        bytes@[4 * j + 1],
                        bytes@[4 * j + 2],
                        bytes@[4 * j + 3],
                    ),
            decreases n - i,
        {
            let o = 4 * i;
            let b0 = bytes[o];
            let b1 = bytes[o + 1];
            let b2 = bytes[o + 2];
            let b3 = bytes[o + 3];
            let value = (b0 as u32) | ((b1 as u32) << 8) | ((b2 as u32) << 16) | ((b3 as u32)
                << 24);
            scores.push(value);
            i = i + 1;
        }
        let r = ScoreTable { levels, variants, scores };
        proof {
            assert forall|l: int, v: int|
                0 <= l < levels && 0 <= v < variants implies #[trigger] r.score_at(l, v) == le32(
                bytes@[4 * (l * (variants as int) + v)],
                bytes@[4 * (l * (variants as int) + v) + 1],
                bytes@[4 * (l * (variants as int) + v) + 2],
                bytes@[4 * (l * (variants as int) + v) + 3],
            ) by {
                lemma_entry_index(l, v, levels as int, variants as int);
            }
        }
        r
    }

    /// Serialize the table: each entry as four little-endian bytes, row-major
    /// by level then variant.
    pub fn to_bytes(&self) -> (r: Vec<u8>)
        requires
            self.wf(),
            4 * (self.spec_levels() * self.spec_variants()) <= usize::MAX,
        ensures
            table_encoded(*self, r@),
    {
        proof {
            assert(self.levels * self.variants >= 0) by (nonlinear_arith);
        }
        let n = self.levels * self.variants;
        let mut out: Vec<u8> = Vec::new();
        let mut i: usize = 0;
        while i < n
            invariant
                i <= n,
                self.wf(),
                n == self.levels * self.variants,
                4 * n <= usize::MAX,
                out@.len() == 4 * i,
                forall|j: int|
                    0 <= j < i ==> le32(
                        out@[4 * j],
                        out@[4 * j + 1],
                        out@[4 * j + 2],
                        out@[4 * j + 3],
                    ) == #[trigger] self.scores@[j],
            decreases n - i,
        {
            let v = self.scores[i];
            let b0 = (v & 0xff) as u8;
            let b1 = ((v >> 8) & 0xff) as u8;
            let b2 = ((v >> 16) & 0xff) as u8;
            let b3 = ((v >> 24) & 0xff) as u8;
            proof {
                assert((((v & 0xff) as u8) as u32) | (((((v >> 8) & 0xff) as u8) as u32) << 8) | (((((v
                    >> 16) & 0xff) as u8) as u32) << 16) | (((((v >> 24) & 0xff) as u8) as u32)
                    << 24) == v) by (bit_vector);
            }
            out.push(b0);
            out.push(b1);
            out.push(b2);
            out.push(b3);
            i = i + 1;
        }
        proof {
            assert forall|l: int, v: int|
                0 <= l < self.spec_levels() && 0 <= v < self.spec_variants() implies {
                let o = 4 * (l * self.spec_variants() + v);
                le32(out@[o], out@[o + 1], out@[o + 2], out@[o + 3]) == #[trigger] self.score_at(
                    l,
                    v,
                )
            } by {
                lemma_entry_index(l, v, self.spec_levels(), self.spec_variants());
            }
        }
        out
    }

    /// The stored best score for a configuration.
    pub fn get_top_score(&self, level: usize, variant: usize) -> (r: u32)
        requires
            self.wf(),
            level < self.spec_levels(),
            variant < self.spec_variants(),
        ensures
            r == self.score_at(level as int, variant as int),
    {
        proof {
            lemma_entry_index(level as int, variant as int, self.spec_levels(), self.spec_variants());
        }
        let len = self.scores.len();
        self.scores[level * self.variants + variant]
    }

    /// Overwrite the entry for a configuration when the new score beats it;
    /// the stored value afterwards is exactly the larger of the two, every
    /// other entry is untouched, and the result says whether the store must
    /// be rewritten.
    pub fn update_scores(&mut self, level: usize, variant: usize, score: u32) -> (improved: bool)
        requires
            old(self).wf(),
            level < old(self).spec_levels(),
            variant < old(self).spec_variants(),
        ensures
            table_bumped(*old(self), *final(self), level as int, variant as int, score),
            improved == (score > old(self).score_at(level as int, variant as int)),
    {
        proof {
            lemma_entry_index(level as int, variant as int, self.spec_levels(), self.spec_variants());
        }
        let len = self.scores.len();
        let idx = level * self.variants + variant;
        let improved = self.scores[idx] < score;
        if improved {
            self.scores[idx] = score;
        }
        proof {
            assert forall|l: int, v: int|
                0 <= l < old(self).spec_levels() && 0 <= v < old(self).spec_variants() && !(l
                    == level && v == variant) implies #[trigger] final(self).score_at(l, v) == old(
                self,
            ).score_at(l, v) by {
                lemma_entry_index(l, v, self.spec_levels(), self.spec_variants());
                if l != level {
                    assert(l * self.spec_variants() + v != (level as int) * self.spec_variants()
                        + variant) by (nonlinear_arith)
                        requires
                            l != level,
                            0 <= v < self.spec_variants(),
                            0 <= variant < self.spec_variants(),
                            0 <= l,
                            0 <= level,
                    ;
                }
            }
        }
        improved
    }
}

/// Saving a table and loading the record back yields the same best score for
/// every (level, variant) pair.
pub proof fn lemma_store_roundtrip(t: ScoreTable, bytes: Seq<u8>, t2: ScoreTable)
    requires
        t.wf(),
        table_encoded(t, bytes),
        table_decoded(t.spec_levels(), t.spec_variants(), bytes, t2),
    ensures
        t2.spec_levels() == t.spec_levels(),
        t2.spec_variants() == t.spec_variants(),
        forall|l: int, v: int|
            0 <= l < t.spec_levels() && 0 <= v < t.spec_variants() ==> #[trigger] t2.score_at(l, v)
                == t.score_at(l, v),
{
    assert(bytes.len() >= 4 * (t.spec_levels() * t.spec_variants()));
    assert forall|l: int, v: int|
        0 <= l < t.spec_levels() && 0 <= v < t.spec_variants() implies #[trigger] t2.score_at(l, v)
        == t.score_at(l, v) by {
        let o = 4 * (l * t.spec_variants() + v);
        assert(le32(bytes[o], bytes[o + 1], bytes[o + 2], bytes[o + 3]) == t.score_at(l, v));
        assert(t2.score_at(l, v) == le32(bytes[o], bytes[o + 1], bytes[o + 2], bytes[o + 3]));
    }
}

} // verus!
