//! Top-n pruner: given candidate blocks with per-column statistics, a
//! single-column sort specification and a limit, keep only the blocks that
//! can contribute to the top `limit` rows, using block-level min/max/null
//! statistics as admissible bounds.

use std::sync::Arc;
use vstd::prelude::*;

use crate::block_meta::{BlockMeta, BlockMetaIndex, ColumnStatistics};
use crate::schema::{spec_index_of, RemoteExpr, TableDataType, TableSchema};

verus! {

/// The one failure of a pruning call: a candidate block carries no
/// statistics entry for the resolved sort column. It signals a
/// metadata-consistency fault upstream and is surfaced to the caller
/// unchanged, never absorbed.
#[derive(Clone, Copy, Debug, PartialEq, Eq, Structural)]
pub enum PruneError {
    MissingStatistics { column_id: usize },
}

/// A candidate block while being ranked: its locator, the statistics of the
/// sort column in it, and the shared handle to its full metadata.
pub type BlockEntry = (BlockMetaIndex, ColumnStatistics, Arc<BlockMeta>);

/// The block ordering the sort specification induces on statistics:
/// `a` may stand no later than `b`.
///
/// When `nulls_first` is set and either block has nulls in the column,
/// blocks are ranked by null count, descending: blocks likelier to hold the
/// leading nulls come first. Otherwise an ascending sort ranks by minimum,
/// ascending, and a descending sort by maximum, descending — the block-level
/// bound that is admissible for the requested direction.
pub open spec fn stats_le(asc: bool, nulls_first: bool, a: ColumnStatistics, b: ColumnStatistics) -> bool {
    if nulls_first && (a.null_count != 0 || b.null_count != 0) {
        a.null_count >= b.null_count
    } else if asc {
        a.min <= b.min
    } else {
        a.max >= b.max
    }
}

/// `stats_le` lifted to ranked entries.
pub open spec fn entry_le(asc: bool, nulls_first: bool, a: BlockEntry, b: BlockEntry) -> bool {
    stats_le(asc, nulls_first, a.1, b.1)
}

/// Law: the block ordering is total — of any two blocks, one may stand
/// no later than the other.
pub proof fn lemma_stats_le_total(asc: bool, nulls_first: bool, a: ColumnStatistics, b: ColumnStatistics)
    ensures
        stats_le(asc, nulls_first, a, b) || stats_le(asc, nulls_first, b, a),
{
}

/// Law: the block ordering is transitive.
pub proof fn lemma_stats_le_trans(
    asc: bool,
    nulls_first: bool,
    a: ColumnStatistics,
    b: ColumnStatistics,
    c: ColumnStatistics,
)
    requires
        stats_le(asc, nulls_first, a, b),
        stats_le(asc, nulls_first, b, c),
    ensures
        stats_le(asc, nulls_first, a, c),
{
}

/// Law: under `nulls_first`, a block with nulls in the sort column ranks
/// strictly before a block without, whatever their min/max values.
pub proof fn lemma_null_ordering(asc: bool, a: ColumnStatistics, b: ColumnStatistics)
    requires
        a.null_count != 0,
        b.null_count == 0,
    ensures
        stats_le(asc, true, a, b),
        !stats_le(asc, true, b, a),
{
}

/// Predicate: `s` is ranked — every entry may stand no later than every
/// entry after it, under the block ordering.
pub open spec fn ranked(asc: bool, nulls_first: bool, s: Seq<BlockEntry>) -> bool {
    forall|i: int, j: int| 0 <= i <= j < s.len() ==> entry_le(asc, nulls_first, s[i], s[j])
}

/// Stable insertion of `x` into `s`: `x` comes to stand before the first
/// entry that may not stand at or before it — in particular, after every
/// entry it ties with.
pub open spec fn insert_ranked(
    asc: bool,
    nulls_first: bool,
    x: BlockEntry,
    s: Seq<BlockEntry>,
) -> Seq<BlockEntry>
    decreases s.len(),
{
    if s.len() == 0 {
        seq![x]
    } else if !entry_le(asc, nulls_first, s[0], x) {
        seq![x] + s
    } else {
        seq![s[0]] + insert_ranked(asc, nulls_first, x, s.drop_first())
    }
}

/// Stable sort of `s` by the block ordering: entries are inserted in input
/// order, each coming to stand after every earlier entry it ties with, so
/// ties keep their input order.
pub open spec fn sort_ranked(asc: bool, nulls_first: bool, s: Seq<BlockEntry>) -> Seq<BlockEntry>
    decreases s.len(),
{
    if s.len() == 0 {
        s
    } else {
        insert_ranked(asc, nulls_first, s.last(), sort_ranked(asc, nulls_first, s.drop_last()))
    }
}

proof fn lemma_insert_ranked_len(asc: bool, nulls_first: bool, x: BlockEntry, s: Seq<BlockEntry>)
    ensures
        insert_ranked(asc, nulls_first, x, s).len() == s.len() + 1,
    decreases s.len(),
{
    if s.len() > 0 && entry_le(asc, nulls_first, s[0], x) {
        lemma_insert_ranked_len(asc, nulls_first, x, s.drop_first());
    }
}

/// Law: sorting keeps the number of candidates.
pub proof fn lemma_sort_ranked_len(asc: bool, nulls_first: bool, s: Seq<BlockEntry>)
    ensures
        sort_ranked(asc, nulls_first, s).len() == s.len(),
    decreases s.len(),
{
    if s.len() > 0 {
        lemma_sort_ranked_len(asc, nulls_first, s.drop_last());
        lemma_insert_ranked_len(
            asc,
            nulls_first,
            s.last(),
            sort_ranked(asc, nulls_first, s.drop_last()),
        );
    }
}

proof fn lemma_insert_ranked_multiset(asc: bool, nulls_first: bool, x: BlockEntry, s: Seq<BlockEntry>)
    ensures
        insert_ranked(asc, nulls_first, x, s).to_multiset() == s.to_multiset().insert(x),
    decreases s.len(),
{
    broadcast use vstd::seq_lib::group_to_multiset_ensures;
    broadcast use vstd::multiset::group_multiset_axioms;

    if s.len() == 0 {
        assert(seq![x] =~= Seq::<BlockEntry>::empty().push(x));
        assert(s =~= Seq::<BlockEntry>::empty());
        assert(insert_ranked(asc, nulls_first, x, s).to_multiset() =~= s.to_multiset().insert(x));
    } else if !entry_le(asc, nulls_first, s[0], x) {
        vstd::seq_lib::lemma_multiset_commutative(seq![x], s);
        assert(seq![x] =~= Seq::<BlockEntry>::empty().push(x));
        assert(insert_ranked(asc, nulls_first, x, s).to_multiset() =~= s.to_multiset().insert(x));
    } else {
        let rest = insert_ranked(asc, nulls_first, x, s.drop_first());
        lemma_insert_ranked_multiset(asc, nulls_first, x, s.drop_first());
        vstd::seq_lib::lemma_multiset_commutative(seq![s[0]], rest);
        vstd::seq_lib::lemma_multiset_commutative(seq![s[0]], s.drop_first());
        assert(s =~= seq![s[0]] + s.drop_first());
        assert(insert_ranked(asc, nulls_first, x, s).to_multiset() =~= s.to_multiset().insert(x));
    }
}

/// Law: sorting permutes the candidates — no block is added, dropped or
/// duplicated by the ranking step.
pub proof fn lemma_sort_ranked_permutes(asc: bool, nulls_first: bool, s: Seq<BlockEntry>)
    ensures
        sort_ranked(asc, nulls_first, s).to_multiset() == s.to_multiset(),
    decreases s.len(),
{
    broadcast use vstd::seq_lib::group_to_multiset_ensures;

    if s.len() > 0 {
        lemma_sort_ranked_permutes(asc, nulls_first, s.drop_last());
        lemma_insert_ranked_multiset(
            asc,
            nulls_first,
            s.last(),
            sort_ranked(asc, nulls_first, s.drop_last()),
        );
        assert(s =~= s.drop_last().push(s.last()));
    }
}

proof fn lemma_insert_ranked_keeps_ranked(
    asc: bool,
    nulls_first: bool,
    x: BlockEntry,
    s: Seq<BlockEntry>,
)
    requires
        ranked(asc, nulls_first, s),
    ensures
        ranked(asc, nulls_first, insert_ranked(asc, nulls_first, x, s)),
    decreases s.len(),
{
    broadcast use vstd::seq_lib::group_to_multiset_ensures;

    let r = insert_ranked(asc, nulls_first, x, s);
    if s.len() == 0 {
    } else if !entry_le(asc, nulls_first, s[0], x) {
        // `x` stands first; it precedes `s[0]` by totality and every later
        // entry by transitivity.
        lemma_stats_le_total(asc, nulls_first, s[0].1, x.1);
        assert forall|i: int, j: int| 0 <= i <= j < r.len() implies entry_le(
            asc,
            nulls_first,
            r[i],
            r[j],
        ) by {
            if i == 0 && j > 0 {
                assert(entry_le(asc, nulls_first, s[0], s[j - 1]));
                lemma_stats_le_trans(asc, nulls_first, x.1, s[0].1, s[j - 1].1);
            }
        }
    } else {
        let rest = insert_ranked(asc, nulls_first, x, s.drop_first());
        lemma_insert_ranked_keeps_ranked(asc, nulls_first, x, s.drop_first());
        lemma_insert_ranked_multiset(asc, nulls_first, x, s.drop_first());
        lemma_insert_ranked_len(asc, nulls_first, x, s.drop_first());
        // Every entry of `rest` is `x` or comes from `s.drop_first()`, and
        // `s[0]` stands no later than any of them.
        assert forall|j: int| 0 <= j < rest.len() implies entry_le(
            asc,
            nulls_first,
            s[0],
            rest[j],
        ) by {
            assert(rest.contains(rest[j]));
            assert(rest.to_multiset().count(rest[j]) > 0);
            if rest[j] != x {
                assert(s.drop_first().to_multiset().count(rest[j]) > 0);
                assert(s.drop_first().contains(rest[j]));
                let k = choose|k: int|
                    0 <= k < s.drop_first().len() && s.drop_first()[k] == rest[j];
                assert(entry_le(asc, nulls_first, s[0], s[k + 1]));
            }
        }
        assert forall|i: int, j: int| 0 <= i <= j < r.len() implies entry_le(
            asc,
            nulls_first,
            r[i],
            r[j],
        ) by {
            if i > 0 {
                assert(r[i] == rest[i - 1]);
                assert(r[j] == rest[j - 1]);
            }
        }
    }
}

/// Law: the ranking step orders the candidates — in the sorted sequence
/// every entry may stand no later than every entry after it.
pub proof fn lemma_sort_ranked_sorted(asc: bool, nulls_first: bool, s: Seq<BlockEntry>)
    ensures
        ranked(asc, nulls_first, sort_ranked(asc, nulls_first, s)),
    decreases s.len(),
{
    if s.len() > 0 {
        lemma_sort_ranked_sorted(asc, nulls_first, s.drop_last());
        lemma_insert_ranked_keeps_ranked(
            asc,
            nulls_first,
            s.last(),
            sort_ranked(asc, nulls_first, s.drop_last()),
        );
    }
}

/// Law (no false exclusion): cut the ranked candidates at `limit`, as an
/// applied pruning call does — then the ranked sequence is exactly a
/// permutation of the input, and every entry kept by the cut may stand at or
/// before every entry the cut drops. No dropped block compares strictly
/// better than any kept block, so a block whose bound could beat a kept
/// block's bound is always kept.
pub proof fn lemma_no_false_exclusion(asc: bool, nulls_first: bool, s: Seq<BlockEntry>, limit: int)
    requires
        0 <= limit <= s.len(),
    ensures
        sort_ranked(asc, nulls_first, s).to_multiset() == s.to_multiset(),
        sort_ranked(asc, nulls_first, s).len() == s.len(),
        forall|i: int, j: int|
            0 <= i < limit <= j < s.len() ==> entry_le(
                asc,
                nulls_first,
                sort_ranked(asc, nulls_first, s)[i],
                sort_ranked(asc, nulls_first, s)[j],
            ),
        pruned_view(sort_ranked(asc, nulls_first, s), limit) == sort_ranked(
            asc,
            nulls_first,
            s,
        ).take(limit).map_values(|e: BlockEntry| (e.0, e.2)),
{
    lemma_sort_ranked_sorted(asc, nulls_first, s);
    lemma_sort_ranked_permutes(asc, nulls_first, s);
    lemma_sort_ranked_len(asc, nulls_first, s);
}

/// Decide `stats_le` on two ranked entries.
fn entry_le_exec(asc: bool, nulls_first: bool, a: &BlockEntry, b: &BlockEntry) -> (r: bool)
    ensures
        r == entry_le(asc, nulls_first, *a, *b),
{
    if nulls_first && (a.1.null_count != 0 || b.1.null_count != 0) {
        a.1.null_count >= b.1.null_count
    } else if asc {
        a.1.min <= b.1.min
    } else {
        a.1.max >= b.1.max
    }
}

/// When the first `i` entries of `s` may all stand at or before `x` and the
/// one at `i` (if any) may not, the stable insertion puts `x` exactly at `i`.
proof fn lemma_insert_ranked_at(
    asc: bool,
    nulls_first: bool,
    x: BlockEntry,
    s: Seq<BlockEntry>,
    i: int,
)
    requires
        0 <= i <= s.len(),
        forall|j: int| 0 <= j < i ==> entry_le(asc, nulls_first, s[j], x),
        i < s.len() ==> !entry_le(asc, nulls_first, s[i], x),
    ensures
        insert_ranked(asc, nulls_first, x, s) == s.insert(i, x),
    decreases s.len(),
{
    if s.len() == 0 {
        assert(seq![x] =~= s.insert(0, x));
    } else if !entry_le(asc, nulls_first, s[0], x) {
        assert(i == 0);
        assert(seq![x] + s =~= s.insert(0, x));
    } else {
        assert(i >= 1);
        lemma_insert_ranked_at(asc, nulls_first, x, s.drop_first(), i - 1);
        assert(seq![s[0]] + s.drop_first().insert(i - 1, x) =~= s.insert(i, x));
    }
}

/// Position where the stable insertion puts `x` into `v`: past every leading
/// entry that may stand at or before it.
fn find_insert_pos(asc: bool, nulls_first: bool, v: &Vec<BlockEntry>, x: &BlockEntry) -> (r: usize)
    ensures
        r <= v@.len(),
        forall|j: int| 0 <= j < r ==> entry_le(asc, nulls_first, v@[j], *x),
        r < v@.len() ==> !entry_le(asc, nulls_first, v@[r as int], *x),
{
    let n = v.len();
    let mut i: usize = 0;
    while i < n
        invariant
            n == v@.len(),
            i <= n,
            forall|j: int| 0 <= j < i ==> entry_le(asc, nulls_first, v@[j], *x),
        decreases n - i,
    {
        if !entry_le_exec(asc, nulls_first, &v[i], x) {
            return i;
        }
        i += 1;
    }
    i
}

/// Insert `x` into `v` at its stable position.
fn insert_entry(asc: bool, nulls_first: bool, v: &mut Vec<BlockEntry>, x: BlockEntry)
    ensures
        final(v)@ == insert_ranked(asc, nulls_first, x, old(v)@),
{
    let i = find_insert_pos(asc, nulls_first, v, &x);
    proof {
        lemma_insert_ranked_at(asc, nulls_first, x, v@, i as int);
    }
    v.insert(i, x);
}

/// Sort the candidates by the block ordering, stably: the result is exactly
/// the stable insertion sort of the input.
fn sort_entries(asc: bool, nulls_first: bool, v: Vec<BlockEntry>) -> (r: Vec<BlockEntry>)
    ensures
        r@ == sort_ranked(asc, nulls_first, v@),
{
    let mut src = v;
    let mut out: Vec<BlockEntry> = Vec::new();
    let ghost s0 = src@;
    let ghost mut i: int = 0;
    while src.len() > 0
        invariant
            0 <= i <= s0.len(),
            src@ == s0.skip(i),
            out@ == sort_ranked(asc, nulls_first, s0.take(i)),
        decreases src@.len(),
    {
        let x = src.remove(0);
        proof {
            assert(x == s0[i]);
            assert(s0.skip(i).remove(0) =~= s0.skip(i + 1));
        }
        insert_entry(asc, nulls_first, &mut out, x);
        proof {
            assert(s0.take(i + 1).drop_last() =~= s0.take(i));
            assert(s0.take(i + 1).last() == s0[i]);
            i = i + 1;
        }
    }
    proof {
        assert(s0.take(i) =~= s0);
    }
    out
}

/// Top-n pruner for `ORDER BY <column> LIMIT n`. Built once per query with
/// immutable configuration; holds no mutable state across calls.
pub struct TopNPrunner {
    pub schema: Arc<TableSchema>,
    pub sort: Vec<(RemoteExpr, bool, bool)>,
    pub limit: usize,
}

/// The ranked view of the candidates: each block paired with the statistics
/// it carries for column `col`. Meaningful only where every block has such
/// an entry.
pub open spec fn entries_view(
    ms: Seq<(BlockMetaIndex, Arc<BlockMeta>)>,
    col: int,
) -> Seq<BlockEntry> {
    ms.map_values(|p: (BlockMetaIndex, Arc<BlockMeta>)| (p.0, (*p.1).stats_of(col), p.1))
}

/// Whether some candidate block carries no statistics entry for column `col`.
pub open spec fn some_stats_missing(ms: Seq<(BlockMetaIndex, Arc<BlockMeta>)>, col: int) -> bool {
    exists|k: int| 0 <= k < ms.len() && !(*ms[k].1).has_stats(col)
}

/// What an applied pruning call returns: the ranked candidates truncated to
/// the first `limit`, each entry reduced back to its (locator, metadata)
/// pair, pairing unchanged.
pub open spec fn pruned_view(s: Seq<BlockEntry>, limit: int) -> Seq<(BlockMetaIndex, Arc<BlockMeta>)> {
    let n = if 0 <= limit <= s.len() {
        limit
    } else {
        s.len() as int
    };
    s.take(n).map_values(|e: BlockEntry| (e.0, e.2))
}

/// Pair every candidate with its statistics entry for column `col`, keeping
/// the input order; fail with `MissingStatistics` when any block lacks one.
fn collect_entries(metas: Vec<(BlockMetaIndex, Arc<BlockMeta>)>, col: usize) -> (r: Result<
    Vec<BlockEntry>,
    PruneError,
>)
    ensures
        r matches Ok(v) ==> !some_stats_missing(metas@, col as int) && v@ == entries_view(
            metas@,
            col as int,
        ),
        r matches Err(e) ==> some_stats_missing(metas@, col as int) && e
            == (PruneError::MissingStatistics { column_id: col }),
{
    let ghost m0 = metas@;
    let mut src = metas;
    let mut out: Vec<BlockEntry> = Vec::new();
    let ghost mut i: int = 0;
    while src.len() > 0
        invariant
            m0 == metas@,
            0 <= i <= m0.len(),
            src@ == m0.skip(i),
            out@ == entries_view(m0.take(i), col as int),
            forall|k: int| 0 <= k < i ==> (*m0[k].1).has_stats(col as int),
        decreases src@.len(),
    {
        let (id, meta) = src.remove(0);
        proof {
            assert(id == m0[i].0);
            assert(meta == m0[i].1);
            assert(m0.skip(i).remove(0) =~= m0.skip(i + 1));
        }
        let stat = match meta.get_stats(col) {
            Some(s) => s,
            None => {
                proof {
                    assert(!(*m0[i].1).has_stats(col as int));
                    assert(some_stats_missing(m0, col as int));
                }
                return Err(PruneError::MissingStatistics { column_id: col });
            },
        };
        out.push((id, stat, meta));
        proof {
            assert(entries_view(m0.take(i + 1), col as int) =~= entries_view(
                m0.take(i),
                col as int,
            ).push((m0[i].0, (*m0[i].1).stats_of(col as int), m0[i].1)));
            i = i + 1;
        }
    }
    proof {
        assert(m0.take(i) =~= m0);
    }
    Ok(out)
}

impl TopNPrunner {
    /// The sort column's name, when the specification is exactly one key and
    /// that key is a direct reference to a materialized column.
    pub open spec fn sort_column_name(&self) -> Option<Seq<char>> {
        if self.sort@.len() == 1 {
            match self.sort@[0].0 {
                RemoteExpr::ColumnRef { id } => Some(id@),
                _ => None,
            }
        } else {
            None
        }
    }

    /// The sort column resolved against the schema.
    pub open spec fn resolved_column(&self) -> Option<int> {
        match self.sort_column_name() {
            Some(name) => spec_index_of((*self.schema).fields@, name),
            None => None,
        }
    }

    /// The guard conditions under which pruning is skipped and the input is
    /// returned unchanged: not exactly one sort key; a limit that cannot
    /// reduce `n` candidates; a sort key that is no direct column reference;
    /// a column name the schema cannot resolve; or a string-typed column,
    /// whose stored min/max may be truncated prefixes.
    pub open spec fn passthrough(&self, n: nat) -> bool {
        ||| self.sort@.len() != 1
        ||| self.limit >= n
        ||| match self.resolved_column() {
            Some(col) => (*self.schema).fields@[col].data_type == TableDataType::String,
            None => true,
        }
    }

    /// Build a pruner from the schema, the sort specification — a list of
    /// (key expression, ascending, nulls-first) triples — and the limit.
    pub fn create(
        schema: Arc<TableSchema>,
        sort: Vec<(RemoteExpr, bool, bool)>,
        limit: usize,
    ) -> (r: Self)
        ensures
            r.schema == schema,
            r.sort == sort,
            r.limit == limit,
    {
        Self { schema, sort, limit }
    }

    /// Decide which candidate blocks can contribute to the top `limit` rows.
    ///
    /// When any guard condition holds, the input comes back unchanged, in
    /// its input order. Otherwise every candidate's statistics entry for the
    /// resolved sort column is looked up — a candidate without one fails the
    /// whole call with `MissingStatistics` naming that column — then the
    /// candidates are ranked, stably, by the block ordering the sort key
    /// induces, and the first `limit` of them come back with their
    /// (locator, metadata) pairing unchanged.
    pub fn prune(&self, metas: Vec<(BlockMetaIndex, Arc<BlockMeta>)>) -> (r: Result<
        Vec<(BlockMetaIndex, Arc<BlockMeta>)>,
        PruneError,
    >)
        ensures
            self.passthrough(metas@.len() as nat) ==> (r matches Ok(v) && v@ == metas@),
            !self.passthrough(metas@.len() as nat) ==> match self.resolved_column() {
                Some(col) => {
                    &&& (some_stats_missing(metas@, col) ==> (r matches Err(e) && e
                        == (PruneError::MissingStatistics { column_id: col as usize })))
                    &&& (!some_stats_missing(metas@, col) ==> (r matches Ok(v) && {
                        &&& v@ == pruned_view(
                            sort_ranked(self.sort@[0].1, self.sort@[0].2, entries_view(metas@, col)),
                            self.limit as int,
                        )
                        &&& v@.len() == self.limit
                    }))
                },
                None => false,
            },
    {
        if self.sort.len() != 1 {
            return Ok(metas);
        }
        if self.limit >= metas.len() {
            return Ok(metas);
        }
        let key = &self.sort[0];
        let asc = key.1;
        let nulls_first = key.2;
        let column = match &key.0 {
            RemoteExpr::ColumnRef { id } => id,
            _ => {
                return Ok(metas);
            },
        };
        let sort_idx = match self.schema.index_of(column) {
            Some(i) => i,
            None => {
                return Ok(metas);
            },
        };
        if self.schema.field_type(sort_idx) == TableDataType::String {
            return Ok(metas);
        }
        proof {
            assert(self.resolved_column() == Some(sort_idx as int));
            assert(!self.passthrough(metas@.len() as nat));
        }
        let ghost m0 = metas@;
        let entries = match collect_entries(metas, sort_idx) {
            Ok(v) => v,
            Err(e) => {
                return Err(e);
            },
        };
        let sorted = sort_entries(asc, nulls_first, entries);
        proof {
            lemma_sort_ranked_len(asc, nulls_first, entries_view(m0, sort_idx as int));
        }
        let mut rest = sorted;
        let ghost full = rest@;
        let mut out: Vec<(BlockMetaIndex, Arc<BlockMeta>)> = Vec::new();
        let ghost mut i: int = 0;
        let limit = self.limit;
        while out.len() < limit
            invariant
                limit as int <= full.len(),
                0 <= i <= limit as int,
                out@.len() == i,
                rest@ == full.skip(i),
                out@ == full.take(i).map_values(|e: BlockEntry| (e.0, e.2)),
            decreases limit as int - i,
        {
            let e = rest.remove(0);
            out.push((e.0, e.2));
            proof {
                assert(e == full[i]);
                assert(full.skip(i).remove(0) =~= full.skip(i + 1));
                assert(full.take(i + 1) =~= full.take(i).push(full[i]));
                assert(full.take(i + 1).map_values(|x: BlockEntry| (x.0, x.2)) =~= full.take(
                    i,
                ).map_values(|x: BlockEntry| (x.0, x.2)).push((full[i].0, full[i].2)));
                i = i + 1;
            }
        }
        proof {
            assert(out@ =~= pruned_view(full, limit as int));
        }
        Ok(out)
    }
}

} // verus!
