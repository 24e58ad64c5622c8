//! Splitting an import across several indices so that none exceeds the
//! per-index document limit, and naming those indices.

use crate::text::{
    decimal, digits_value, lemma_zero_pad_value, push_zero_padded, zero_pad,
};
use vstd::prelude::*;

verus! {

/// Largest number of documents one Elasticsearch index holds (`i32::MAX`).
pub const MAX_DOCS_PER_INDEX: i64 = 2_147_483_647;

/// `MAX_DOCS_PER_INDEX` as a natural number.
pub open spec fn max_docs() -> nat {
    2_147_483_647
}

/// Number of indices needed for `total_rows` documents: one, or the rows
/// divided by the per-index limit, rounded up.
pub open spec fn chunk_count(total_rows: nat) -> nat {
    if total_rows <= max_docs() {
        1
    } else {
        ((total_rows + max_docs() - 1) as int / max_docs() as int) as nat
    }
}

/// The name of chunk `chunk_index` out of `total_chunks`: the base name when
/// there is one chunk, else `{base}_{chunk_index}` with the number zero
/// padded to at least two digits (`_01`, `_02`, ..., `_99`, `_100`).
pub open spec fn index_name(base: Seq<char>, chunk_index: nat, total_chunks: nat) -> Seq<char> {
    if total_chunks == 1 {
        base
    } else {
        base + seq!['_'] + zero_pad(decimal(chunk_index), 2)
    }
}

/// Estimated data rows of a file of `file_size` bytes from the lengths of
/// its first lines: the size divided by the mean line length, less one for
/// the header; zero when no line was read or the mean is zero.
pub open spec fn estimated_rows(file_size: nat, sample: Seq<u64>) -> nat {
    if sample.len() == 0 {
        0
    } else {
        let avg = sum_u64(sample) / sample.len();
        if avg > 0 {
            let q = file_size / avg;
            if q >= 1 {
                (q - 1) as nat
            } else {
                0
            }
        } else {
            0
        }
    }
}

/// Sum of a sequence of byte counts.
pub open spec fn sum_u64(s: Seq<u64>) -> nat
    decreases s.len(),
{
    if s.len() == 0 {
        0
    } else {
        sum_u64(s.drop_last()) + s.last() as nat
    }
}

/// Estimates the data rows of a file from its size in bytes and the byte
/// lengths (line ends included) of up to its first 1000 lines.
pub fn estimate_rows_from_sample(file_size: u64, sample: &Vec<u64>) -> (rows: u64)
    requires
        sum_u64(sample@) <= u64::MAX,
    ensures
        rows == estimated_rows(file_size as nat, sample@),
{
    let mut total_bytes: u64 = 0;
    let mut line_count: u64 = 0;
    let n = sample.len();
    for i in 0..n
        invariant
            n == sample@.len(),
            sum_u64(sample@) <= u64::MAX,
            total_bytes == sum_u64(sample@.take(i as int)),
            line_count == i,
    {
        proof {
            assert(sample@.take(i + 1).drop_last() =~= sample@.take(i as int));
            lemma_sum_prefix(sample@, i + 1);
        }
        total_bytes = total_bytes + sample[i];
        line_count = line_count + 1;
    }
    proof {
        assert(sample@.take(n as int) =~= sample@);
    }
    if line_count == 0 {
        return 0;
    }
    let avg = total_bytes / line_count;
    if avg > 0 {
        (file_size / avg).saturating_sub(1)
    } else {
        0
    }
}

proof fn lemma_sum_prefix(s: Seq<u64>, k: int)
    requires
        0 <= k <= s.len(),
    ensures
        sum_u64(s.take(k)) <= sum_u64(s),
    decreases s.len(),
{
    if k < s.len() {
        assert(s.drop_last().take(k) =~= s.take(k));
        lemma_sum_prefix(s.drop_last(), k);
    } else {
        assert(s.take(k) =~= s);
    }
}

/// Number of indices needed for `total_rows` documents, as a `u64`.
fn chunk_count_u64(total_rows: u64) -> (n: u64)
    ensures
        n == chunk_count(total_rows as nat),
{
    let max = MAX_DOCS_PER_INDEX as u64;
    if total_rows <= max {
        return 1;
    }
    let q = total_rows / max;
    proof {
        let t = total_rows as int;
        let m = max as int;
        let r = t % m;
        vstd::arithmetic::div_mod::lemma_fundamental_div_mod(t, m);
        if r == 0 {
            vstd::arithmetic::div_mod::lemma_fundamental_div_mod_converse(t + m - 1, m, t / m, m - 1);
        } else {
            vstd::arithmetic::div_mod::lemma_fundamental_div_mod_converse(t + m - 1, m, t / m + 1, r - 1);
        }
    }
    if total_rows % max == 0 {
        q
    } else {
        q + 1
    }
}

/// Number of indices needed for `total_rows` documents.
pub fn calculate_chunk_count(total_rows: u64) -> (n: usize)
    requires
        chunk_count(total_rows as nat) <= usize::MAX,
    ensures
        n == chunk_count(total_rows as nat),
        n >= 1,
{
    chunk_count_u64(total_rows) as usize
}

/// Whether the number of chunks for `total_rows` rows fits in `usize`.
pub fn chunk_count_fits(total_rows: u64) -> (b: bool)
    ensures
        b == (chunk_count(total_rows as nat) <= usize::MAX),
{
    chunk_count_u64(total_rows) <= usize::MAX as u64
}

/// Name of index chunk `chunk_index` of `total_chunks`: `base_name` alone for
/// one chunk, else `{base_name}_{nn}` with the number zero padded to two digits.
pub fn generate_index_name(base_name: &str, chunk_index: usize, total_chunks: usize) -> (name:
    String)
    ensures
        name@ == index_name(base_name@, chunk_index as nat, total_chunks as nat),
{
    let mut name = String::from_str(base_name);
    if total_chunks == 1 {
        return name;
    }
    proof {
        reveal_strlit("_");
    }
    name.append("_");
    push_zero_padded(&mut name, chunk_index as u64, 2);
    name
}

/// Distinct chunk numbers give distinct index names when there is more than one chunk.
pub proof fn lemma_index_names_distinct(base: Seq<char>, i: nat, j: nat, total_chunks: nat)
    requires
        total_chunks != 1,
        i != j,
    ensures
        index_name(base, i, total_chunks) != index_name(base, j, total_chunks),
{
    let w: nat = 2;
    let a = index_name(base, i, total_chunks);
    let b = index_name(base, j, total_chunks);
    let prefix_len = base.len() + 1;
    lemma_zero_pad_value(i, w);
    lemma_zero_pad_value(j, w);
    if a == b {
        assert(a.skip(prefix_len as int) =~= zero_pad(decimal(i), w));
        assert(b.skip(prefix_len as int) =~= zero_pad(decimal(j), w));
        assert(digits_value(zero_pad(decimal(i), w)) == digits_value(zero_pad(decimal(j), w)));
    }
}


/// Tracks which index chunk the next document goes to.
pub struct ChunkManager {
    base_index_name: String,
    total_rows: u64,
    total_chunks: usize,
    rows_per_chunk: u64,
    current_chunk: usize,
    current_chunk_rows: u64,
}

impl ChunkManager {
    /// Base index name.
    pub closed spec fn base_name(&self) -> Seq<char> {
        self.base_index_name@
    }

    /// Estimated total rows the manager was made for.
    pub closed spec fn planned_rows(&self) -> nat {
        self.total_rows as nat
    }

    /// Number of chunks.
    pub closed spec fn chunks(&self) -> nat {
        self.total_chunks as nat
    }

    /// Rows that fill one chunk before the next one starts.
    pub closed spec fn chunk_capacity(&self) -> nat {
        self.rows_per_chunk as nat
    }

    /// Number (from 1) of the chunk that rows currently go to.
    pub closed spec fn chunk(&self) -> nat {
        self.current_chunk as nat
    }

    /// Rows counted in the current chunk.
    pub closed spec fn rows_in_chunk(&self) -> nat {
        self.current_chunk_rows as nat
    }

    /// All rows counted so far.
    pub open spec fn rows_counted(&self) -> nat {
        ((self.chunk() - 1) * self.chunk_capacity() + self.rows_in_chunk()) as nat
    }

    /// The manager's invariant: one chunk per `MAX_DOCS_PER_INDEX` planned
    /// rows (each of that capacity), or a single chunk holding them all; the
    /// current chunk is one of them, and only the last may be filled beyond
    /// its capacity.
    pub open spec fn wf(&self) -> bool {
        &&& self.chunks() == chunk_count(self.planned_rows())
        &&& self.chunk_capacity() == (if self.chunks() > 1 {
            max_docs()
        } else {
            self.planned_rows()
        })
        &&& 1 <= self.chunk() <= self.chunks()
        &&& self.chunk() < self.chunks() ==> self.rows_in_chunk() < self.chunk_capacity()
    }

    /// Starts at chunk 1 with nothing counted, planning for `total_rows` rows.
    pub fn new(base_index_name: String, total_rows: u64) -> (m: Self)
        requires
            chunk_count(total_rows as nat) <= usize::MAX,
        ensures
            m.wf(),
            m.base_name() == base_index_name@,
            m.planned_rows() == total_rows,
            m.chunk() == 1,
            m.rows_in_chunk() == 0,
            m.rows_counted() == 0,
    {
        let total_chunks = calculate_chunk_count(total_rows);
        let rows_per_chunk = if total_chunks > 1 {
            MAX_DOCS_PER_INDEX as u64
        } else {
            total_rows
        };
        ChunkManager {
            base_index_name,
            total_rows,
            total_chunks,
            rows_per_chunk,
            current_chunk: 1,
            current_chunk_rows: 0,
        }
    }

    /// Number of chunks.
    pub fn total_chunks(&self) -> (n: usize)
        ensures
            n == self.chunks(),
    {
        self.total_chunks
    }

    /// Name of the index that rows currently go to.
    pub fn current_index_name(&self) -> (name: String)
        ensures
            name@ == index_name(self.base_name(), self.chunk(), self.chunks()),
    {
        generate_index_name(self.base_index_name.as_str(), self.current_chunk, self.total_chunks)
    }

    /// Counts one row; when that fills the current chunk and another chunk
    /// follows, moves to it and returns `true`.
    pub fn add_row(&mut self) -> (switched: bool)
        requires
            old(self).wf(),
            old(self).rows_in_chunk() < u64::MAX,
        ensures
            final(self).wf(),
            final(self).base_name() == old(self).base_name(),
            final(self).planned_rows() == old(self).planned_rows(),
            final(self).chunks() == old(self).chunks(),
            final(self).chunk_capacity() == old(self).chunk_capacity(),
            switched == (old(self).rows_in_chunk() + 1 >= old(self).chunk_capacity() && old(
                self,
            ).chunk() < old(self).chunks()),
            switched ==> final(self).chunk() == old(self).chunk() + 1 && final(self).rows_in_chunk()
                == 0 && old(self).rows_in_chunk() + 1 == old(self).chunk_capacity(),
            !switched ==> final(self).chunk() == old(self).chunk() && final(self).rows_in_chunk()
                == old(self).rows_in_chunk() + 1,
            final(self).rows_counted() == old(self).rows_counted() + 1,
            (*final(self), switched) == old(self).after_row(),
    {
        self.current_chunk_rows = self.current_chunk_rows + 1;
        if self.current_chunk_rows >= self.rows_per_chunk && self.current_chunk < self.total_chunks {
            self.current_chunk = self.current_chunk + 1;
            self.current_chunk_rows = 0;
            proof {
                let c = old(self).chunk() as int;
                let p = old(self).chunk_capacity() as int;
                assert(c * p == (c - 1) * p + p) by (nonlinear_arith);
            }
            true
        } else {
            false
        }
    }

    /// The manager after counting one row, and whether it moved to the next chunk.
    pub closed spec fn after_row(self) -> (ChunkManager, bool) {
        let rows = self.current_chunk_rows + 1;
        if rows >= self.rows_per_chunk && self.current_chunk < self.total_chunks {
            (ChunkManager { current_chunk: (self.current_chunk + 1) as usize, current_chunk_rows: 0, ..self }, true)
        } else {
            (ChunkManager { current_chunk_rows: rows as u64, ..self }, false)
        }
    }

    /// The manager after counting `k` rows, and the names of the indices it
    /// moved to on the way, in order.
    pub open spec fn after_rows(self, k: nat) -> (ChunkManager, Seq<Seq<char>>)
        decreases k,
    {
        if k == 0 {
            (self, Seq::empty())
        } else {
            let (m, names) = self.after_rows((k - 1) as nat);
            let (m2, switched) = m.after_row();
            if switched {
                (m2, names.push(index_name(m2.base_name(), m2.chunk(), m2.chunks())))
            } else {
                (m2, names)
            }
        }
    }

    /// Counts `k` rows one by one, returning the name of each index it moves to.
    pub fn add_rows(&mut self, k: u64) -> (names: Vec<String>)
        requires
            old(self).wf(),
            old(self).rows_in_chunk() + k <= u64::MAX,
        ensures
            final(self).wf(),
            *final(self) == old(self).after_rows(k as nat).0,
            names@.map_values(|n: String| n@) == old(self).after_rows(k as nat).1,
            final(self).rows_counted() == old(self).rows_counted() + k,
            final(self).base_name() == old(self).base_name(),
            final(self).planned_rows() == old(self).planned_rows(),
            final(self).chunks() == old(self).chunks(),
            final(self).chunk_capacity() == old(self).chunk_capacity(),
    {
        let mut names: Vec<String> = Vec::new();
        let ghost start = *self;
        let mut i: u64 = 0;
        while i < k
            invariant
                0 <= i <= k,
                self.wf(),
                start.rows_in_chunk() + k <= u64::MAX,
                self.rows_in_chunk() <= start.rows_in_chunk() + i,
                *self == start.after_rows(i as nat).0,
                names@.map_values(|n: String| n@) == start.after_rows(i as nat).1,
                self.rows_counted() == start.rows_counted() + i,
                self.base_name() == start.base_name(),
                self.chunks() == start.chunks(),
            decreases k - i,
        {
            let ghost before = *self;
            let switched = self.add_row();
            proof {
                assert(before.after_row() == (*self, switched));
            }
            if switched {
                let name = self.current_index_name();
                let ghost old_names = names@;
                names.push(name);
                proof {
                    assert(names@.map_values(|n: String| n@) =~= old_names.map_values(|n: String| n@).push(name@));
                }
            }
            i = i + 1;
        }
        proof {
            lemma_after_rows_keeps_plan(start, k as nat);
        }
        names
    }

    /// Rows counted in the current chunk.
    pub fn rows_in_current_chunk(&self) -> (n: u64)
        ensures
            n == self.rows_in_chunk(),
    {
        self.current_chunk_rows
    }

    /// Number (from 1) of the chunk that rows currently go to.
    pub fn current_chunk_index(&self) -> (i: usize)
        ensures
            i == self.chunk(),
    {
        self.current_chunk
    }
}

/// Counting rows never changes the plan: the base name, the planned rows,
/// the number of chunks and their capacity stay as they were.
pub proof fn lemma_after_rows_keeps_plan(m: ChunkManager, k: nat)
    ensures
        m.after_rows(k).0.base_name() == m.base_name(),
        m.after_rows(k).0.planned_rows() == m.planned_rows(),
        m.after_rows(k).0.chunks() == m.chunks(),
        m.after_rows(k).0.chunk_capacity() == m.chunk_capacity(),
    decreases k,
{
    if k > 0 {
        lemma_after_rows_keeps_plan(m, (k - 1) as nat);
    }
}

/// With a single chunk, counting rows never moves to another chunk and
/// reports no index switch.
pub proof fn lemma_single_chunk_stays(m: ChunkManager, k: nat)
    requires
        m.chunks() == 1,
        1 <= m.chunk(),
    ensures
        m.after_rows(k).0.chunk() == m.chunk(),
        m.after_rows(k).1.len() == 0,
    decreases k,
{
    if k > 0 {
        lemma_single_chunk_stays(m, (k - 1) as nat);
        lemma_after_rows_keeps_plan(m, (k - 1) as nat);
    }
}

/// Counting `k` rows, with room in the row counter, keeps the invariant and
/// counts `k` rows; the manager moves through consecutive chunks, and the
/// names it reports are those of each chunk it moves to, in order.
pub proof fn lemma_after_rows(m: ChunkManager, k: nat)
    requires
        m.wf(),
        m.rows_in_chunk() + k <= u64::MAX,
    ensures
        m.after_rows(k).0.wf(),
        m.after_rows(k).0.rows_counted() == m.rows_counted() + k,
        m.after_rows(k).0.rows_in_chunk() <= m.rows_in_chunk() + k,
        m.chunk() <= m.after_rows(k).0.chunk(),
        m.after_rows(k).1.len() == m.after_rows(k).0.chunk() - m.chunk(),
        forall|i: int|
            0 <= i < m.after_rows(k).1.len() ==> #[trigger] m.after_rows(k).1[i] == index_name(
                m.base_name(),
                (m.chunk() + 1 + i) as nat,
                m.chunks(),
            ),
    decreases k,
{
    lemma_after_rows_keeps_plan(m, k);
    if k > 0 {
        lemma_after_rows(m, (k - 1) as nat);
        lemma_after_rows_keeps_plan(m, (k - 1) as nat);
        let m1 = m.after_rows((k - 1) as nat).0;
        let names1 = m.after_rows((k - 1) as nat).1;
        let (m2, switched) = m1.after_row();
        if switched {
            let c = m1.chunk() as int;
            let p = m1.chunk_capacity() as int;
            assert(c * p == (c - 1) * p + p) by (nonlinear_arith);
            assert(m.after_rows(k).1 == names1.push(index_name(m2.base_name(), m2.chunk(), m2.chunks())));
        } else {
            assert(m.after_rows(k).1 == names1);
        }
    }
}

/// From a fresh manager (chunk 1, nothing counted), after `j` rows: with one
/// chunk, rows stay in it and no index switch is reported; with several,
/// the current chunk is the lesser of the chunk count and
/// `j / MAX_DOCS_PER_INDEX + 1`, and the `j`-th row moves to the next chunk
/// exactly when `j` is a multiple of `MAX_DOCS_PER_INDEX` below the chunk
/// count times that limit.
pub proof fn lemma_rows_from_start(m: ChunkManager, j: nat)
    requires
        m.wf(),
        m.chunk() == 1,
        m.rows_in_chunk() == 0,
        j <= u64::MAX,
    ensures
        m.chunks() == 1 ==> m.after_rows(j).0.chunk() == 1 && m.after_rows(j).1.len() == 0,
        m.chunks() > 1 ==> m.after_rows(j).0.chunk() == if j / max_docs() + 1 < m.chunks() {
            j / max_docs() + 1
        } else {
            m.chunks()
        },
        m.chunks() > 1 && j >= 1 ==> (m.after_rows(j).0.chunk() > m.after_rows(
            (j - 1) as nat,
        ).0.chunk() <==> (j % max_docs() == 0 && j / max_docs() < m.chunks())),
{
    lemma_after_rows(m, j);
    lemma_after_rows_keeps_plan(m, j);
    assert(m.rows_counted() == 0) by {
        assert((m.chunk() - 1) * m.chunk_capacity() == 0) by (nonlinear_arith)
            requires
                m.chunk() == 1,
        ;
    }
    if m.chunks() > 1 {
        lemma_chunk_of_row_count(m.after_rows(j).0);
        if j >= 1 {
            lemma_after_rows(m, (j - 1) as nat);
            lemma_after_rows_keeps_plan(m, (j - 1) as nat);
            lemma_chunk_of_row_count(m.after_rows((j - 1) as nat).0);
            let big_m = max_docs() as int;
            let q = j as int / big_m;
            let r = j as int % big_m;
            vstd::arithmetic::div_mod::lemma_fundamental_div_mod(j as int, big_m);
            if r == 0 {
                vstd::arithmetic::div_mod::lemma_fundamental_div_mod_converse(
                    j - 1,
                    big_m,
                    q - 1,
                    big_m - 1,
                );
            } else {
                vstd::arithmetic::div_mod::lemma_fundamental_div_mod_converse(j - 1, big_m, q, r - 1);
            }
        }
    }
}

/// With several chunks, the chunk that receives a row is fixed by how many
/// rows came before it: every chunk but the last takes `MAX_DOCS_PER_INDEX`
/// rows, and the last takes all that remain.
pub proof fn lemma_chunk_of_row_count(m: ChunkManager)
    requires
        m.wf(),
        m.chunks() > 1,
    ensures
        m.chunk() == if m.rows_counted() / max_docs() + 1 < m.chunks() {
            m.rows_counted() / max_docs() + 1
        } else {
            m.chunks()
        },
{
    let c = m.chunk() as int;
    let r = m.rows_in_chunk() as int;
    let p = max_docs() as int;
    let n = m.rows_counted() as int;
    assert(n == (c - 1) * p + r);
    if c < m.chunks() {
        vstd::arithmetic::div_mod::lemma_fundamental_div_mod_converse(n, p, c - 1, r);
    } else {
        assert(n / p >= c - 1) by {
            vstd::arithmetic::div_mod::lemma_div_is_ordered((c - 1) * p, n, p);
            vstd::arithmetic::div_mod::lemma_div_multiples_vanish(c - 1, p);
            assert(p * (c - 1) == (c - 1) * p) by (nonlinear_arith);
        }
    }
}

} // verus!
