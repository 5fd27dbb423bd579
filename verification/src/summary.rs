//! The count of records at each level.

use crate::entry::{level_tokens, LogEntry};
use vstd::prelude::*;

verus! {

/// One row of a summary: a level token and the number of records that carry it.
#[derive(Debug, Clone)]
pub struct LevelCount {
    pub level: String,
    pub count: usize,
}

/// Being the token `level`, as a predicate on tokens.
pub open spec fn is_token(level: Seq<char>) -> spec_fn(Seq<char>) -> bool {
    |other: Seq<char>| other == level
}

/// How often the token `level` occurs among `levels`, letter for letter.
pub open spec fn occurrences(levels: Seq<Seq<char>>, level: Seq<char>) -> nat {
    levels.filter(is_token(level)).len()
}

/// The summary of a sequence of level tokens: each token that occurs, with
/// the number of its occurrences. Tokens that differ in case are different
/// tokens.
pub open spec fn level_counts(levels: Seq<Seq<char>>) -> Map<Seq<char>, nat> {
    Map::new(|level: Seq<char>| levels.contains(level), |level: Seq<char>| occurrences(levels, level))
}

/// The token of each row, in the order of the rows.
pub open spec fn row_levels(rows: Seq<LevelCount>) -> Seq<Seq<char>> {
    rows.map_values(|row: LevelCount| row.level@)
}

/// No token stands in two rows, and no row counts nothing.
pub open spec fn rows_are_sound(rows: Seq<LevelCount>) -> bool {
    &&& forall|i: int, j: int|
        0 <= i < j < rows.len() ==> (#[trigger] rows[i]).level@ != (#[trigger] rows[j]).level@
    &&& forall|i: int| 0 <= i < rows.len() ==> (#[trigger] rows[i]).count > 0
}

/// The mapping that a sequence of rows stands for.
pub open spec fn table_of(rows: Seq<LevelCount>) -> Map<Seq<char>, nat> {
    Map::new(
        |level: Seq<char>| row_levels(rows).contains(level),
        |level: Seq<char>| rows[row_levels(rows).index_of(level)].count as nat,
    )
}

/// A mapping from each level token observed to the number of records that
/// carry it, held as rows in no particular order.
#[derive(Debug)]
pub struct LevelSummary {
    rows: Vec<LevelCount>,
}

impl View for LevelSummary {
    type V = Map<Seq<char>, nat>;

    open spec fn view(&self) -> Map<Seq<char>, nat> {
        table_of(self.row_values())
    }
}

impl LevelSummary {
    #[verifier::type_invariant]
    spec fn sound(self) -> bool {
        rows_are_sound(self.rows@)
    }

    /// The rows of the summary.
    pub closed spec fn row_values(self) -> Seq<LevelCount> {
        self.rows@
    }

    /// The summary of no records.
    pub fn new() -> (r: LevelSummary)
        ensures
            r@ == Map::<Seq<char>, nat>::empty(),
            r.row_values().len() == 0,
    {
        let r = LevelSummary { rows: Vec::new() };
        assert(r@ =~= Map::<Seq<char>, nat>::empty());
        r
    }

    /// The position of the row for `level`, or the number of rows where
    /// there is none.
    fn find(&self, level: &String) -> (r: usize)
        ensures
            r <= self.rows@.len(),
            r < self.rows@.len() ==> self.rows@[r as int].level@ == level@,
            r == self.rows@.len() ==> !row_levels(self.rows@).contains(level@),
    {
        let mut i: usize = 0;
        while i < self.rows.len()
            invariant
                i <= self.rows@.len(),
                forall|j: int| 0 <= j < i ==> self.rows@[j].level@ != level@,
            decreases self.rows@.len() - i,
        {
            if self.rows[i].level == *level {
                return i;
            }
            i += 1;
        }
        i
    }

    /// The number of records counted for `level`: zero where the token was
    /// never seen.
    pub fn count(&self, level: &str) -> (r: usize)
        ensures
            r == if self@.contains_key(level@) {
                self@[level@]
            } else {
                0
            },
    {
        proof {
            use_type_invariant(self);
        }
        let wanted = level.to_owned();
        let at = self.find(&wanted);
        if at < self.rows.len() {
            proof {
                lemma_row_of_level(self.rows@, at as int);
            }
            self.rows[at].count
        } else {
            0
        }
    }

    /// The rows of the summary: one for each token observed, in no particular
    /// order.
    pub fn rows(&self) -> (r: &Vec<LevelCount>)
        ensures
            r@ == self.row_values(),
            rows_are_sound(r@),
            table_of(r@) == self@,
    {
        proof {
            use_type_invariant(self);
        }
        &self.rows
    }

    /// The number of distinct tokens observed.
    pub fn len(&self) -> (r: usize)
        ensures
            r == self.row_values().len(),
            self@.dom().finite(),
            r == self@.dom().len(),
    {
        proof {
            use_type_invariant(self);
            lemma_table_size(self.rows@);
        }
        self.rows.len()
    }

    /// The summary with one more record counted at `level`.
    fn record(self, level: &String) -> (r: LevelSummary)
        requires
            self@.contains_key(level@) ==> self@[level@] < usize::MAX,
        ensures
            r@ == self@.insert(
                level@,
                if self@.contains_key(level@) {
                    self@[level@] + 1
                } else {
                    1
                } as nat,
            ),
    {
        proof {
            use_type_invariant(&self);
        }
        let at = self.find(level);
        let mut rows = self.rows;
        let ghost before = rows@;
        if at < rows.len() {
            proof {
                lemma_row_of_level(before, at as int);
            }
            let count: usize = rows[at].count;
            rows.set(at, LevelCount { level: level.clone(), count: count + 1 });
            proof {
                lemma_table_after_update(before, rows@, at as int);
            }
        } else {
            rows.push(LevelCount { level: level.clone(), count: 1 });
            proof {
                assert(rows@.take(before.len() as int) =~= before);
                lemma_table_after_push(before, rows@);
            }
        }
        LevelSummary { rows }
    }
}

/// Sound rows stand for a mapping with as many keys as there are rows.
proof fn lemma_table_size(rows: Seq<LevelCount>)
    requires
        rows_are_sound(rows),
    ensures
        table_of(rows).dom().finite(),
        table_of(rows).dom().len() == rows.len(),
{
    let levels = row_levels(rows);
    assert(levels.no_duplicates()) by {
        assert forall|i: int, j: int|
            0 <= i < levels.len() && 0 <= j < levels.len() && i != j implies levels[i]
            != levels[j] by {
            if i < j {
                assert(rows[i].level@ != rows[j].level@);
            } else {
                assert(rows[j].level@ != rows[i].level@);
            }
        }
    }
    levels.unique_seq_to_set();
    assert(table_of(rows).dom() =~= levels.to_set());
}

/// In sound rows, the row found for a token is the row that holds it.
proof fn lemma_row_of_level(rows: Seq<LevelCount>, at: int)
    requires
        rows_are_sound(rows),
        0 <= at < rows.len(),
    ensures
        row_levels(rows).contains(rows[at].level@),
        row_levels(rows).index_of(rows[at].level@) == at,
        table_of(rows).contains_key(rows[at].level@),
        table_of(rows)[rows[at].level@] == rows[at].count,
{
    let levels = row_levels(rows);
    assert(levels[at] == rows[at].level@);
    let found = levels.index_of(rows[at].level@);
    assert(0 <= found < levels.len() && levels[found] == rows[at].level@);
    if found < at {
        assert(rows[found].level@ != rows[at].level@);
    }
    if at < found {
        assert(rows[at].level@ != rows[found].level@);
    }
}

/// Raising the count of one row changes the mapping at that row's token only.
proof fn lemma_table_after_update(before: Seq<LevelCount>, after: Seq<LevelCount>, at: int)
    requires
        rows_are_sound(before),
        0 <= at < before.len(),
        after.len() == before.len(),
        after[at].level@ == before[at].level@,
        after[at].count > 0,
        forall|i: int| 0 <= i < before.len() && i != at ==> after[i] == before[i],
    ensures
        rows_are_sound(after),
        table_of(after) == table_of(before).insert(before[at].level@, after[at].count as nat),
{
    assert(row_levels(after) =~= row_levels(before));
    assert forall|i: int, j: int| 0 <= i < j < after.len() implies (#[trigger] after[i]).level@ != (
    #[trigger] after[j]).level@ by {
        assert(before[i].level@ != before[j].level@);
    }
    assert(rows_are_sound(after));
    let target = table_of(before).insert(before[at].level@, after[at].count as nat);
    lemma_row_of_level(before, at);
    lemma_row_of_level(after, at);
    assert forall|level: Seq<char>| #[trigger] table_of(after).contains_key(level) implies table_of(
        after,
    )[level] == target[level] by {
        let found = row_levels(after).index_of(level);
        assert(0 <= found < after.len() && row_levels(after)[found] == level);
        if found != at {
            assert(after[found] == before[found]);
            lemma_row_of_level(before, found);
        }
    }
    assert(table_of(after) =~= target);
}

/// A new row for a token not yet seen adds that token to the mapping.
proof fn lemma_table_after_push(before: Seq<LevelCount>, after: Seq<LevelCount>)
    requires
        rows_are_sound(before),
        after.len() == before.len() + 1,
        after.take(before.len() as int) == before,
        !row_levels(before).contains(after.last().level@),
        after.last().count > 0,
    ensures
        rows_are_sound(after),
        table_of(after) == table_of(before).insert(after.last().level@, after.last().count as nat),
{
    let n = before.len() as int;
    assert forall|i: int| 0 <= i < n implies after[i] == before[i] by {
        assert(after.take(n)[i] == after[i]);
    }
    assert forall|i: int, j: int| 0 <= i < j < after.len() implies (#[trigger] after[i]).level@ != (
    #[trigger] after[j]).level@ by {
        if j == n {
            assert(row_levels(before)[i] == before[i].level@);
        } else {
            assert(before[i].level@ != before[j].level@);
        }
    }
    assert(rows_are_sound(after));
    let target = table_of(before).insert(after.last().level@, after.last().count as nat);
    assert forall|level: Seq<char>| table_of(after).contains_key(level) <==> target.contains_key(
        level,
    ) by {
        if row_levels(after).contains(level) {
            let i = row_levels(after).index_of(level);
            if i < n {
                assert(row_levels(before)[i] == level);
            }
        }
        if row_levels(before).contains(level) {
            let i = row_levels(before).index_of(level);
            assert(row_levels(after)[i] == level);
        }
        assert(row_levels(after)[n] == after.last().level@);
    }
    assert forall|level: Seq<char>| #[trigger] table_of(after).contains_key(level) implies table_of(
        after,
    )[level] == target[level] by {
        let found = row_levels(after).index_of(level);
        assert(0 <= found < after.len() && row_levels(after)[found] == level);
        lemma_row_of_level(after, found);
        if found < n {
            lemma_row_of_level(before, found);
        }
    }
    assert(table_of(after) =~= target);
}

/// A token occurs among `levels` exactly where its number of occurrences is
/// not zero, and never more often than there are tokens.
pub proof fn occurrences_of_observed(levels: Seq<Seq<char>>, level: Seq<char>)
    ensures
        levels.contains(level) <==> occurrences(levels, level) > 0,
        occurrences(levels, level) <= levels.len(),
{
    let pred = is_token(level);
    levels.lemma_filter_len(pred);
    if levels.contains(level) {
        let i = choose|i: int| 0 <= i < levels.len() && levels[i] == level;
        levels.lemma_filter_contains(pred, i);
    }
    if occurrences(levels, level) > 0 {
        levels.lemma_filter_pred(pred, 0);
        levels.lemma_filter_contains_rev(pred, levels.filter(pred)[0]);
    }
}

/// One more token raises the count of that token by one and leaves every
/// other count as it was.
pub proof fn counts_after_one_more(levels: Seq<Seq<char>>, level: Seq<char>)
    ensures
        level_counts(levels.push(level)) == level_counts(levels).insert(
            level,
            occurrences(levels, level) + 1,
        ),
{
    let more = levels.push(level);
    let target = level_counts(levels).insert(level, occurrences(levels, level) + 1);
    assert forall|other: Seq<char>| level_counts(more).contains_key(other) <==> target.contains_key(
        other,
    ) by {
        if more.contains(other) {
            let i = choose|i: int| 0 <= i < more.len() && more[i] == other;
            if i < levels.len() {
                assert(levels[i] == other);
            }
        }
        if levels.contains(other) {
            let i = choose|i: int| 0 <= i < levels.len() && levels[i] == other;
            assert(more[i] == other);
        }
        assert(more[levels.len() as int] == level);
    }
    assert forall|other: Seq<char>| #[trigger] level_counts(more).contains_key(other) implies level_counts(
        more,
    )[other] == target[other] by {
        levels.lemma_filter_push(level, is_token(other));
    }
    assert(level_counts(more) =~= target);
}

/// No records, no rows.
pub proof fn nothing_to_count()
    ensures
        level_counts(Seq::<Seq<char>>::empty()) == Map::<Seq<char>, nat>::empty(),
{
    assert(level_counts(Seq::<Seq<char>>::empty()) =~= Map::<Seq<char>, nat>::empty());
}

/// Counts the records at each level, keyed by the level token as it stands
/// in the record: no case folding, and no restriction to known levels.
pub fn summarize_logs(logs: &[LogEntry]) -> (r: LevelSummary)
    ensures
        r@ == level_counts(level_tokens(logs@)),
{
    let ghost levels = level_tokens(logs@);
    let mut summary = LevelSummary::new();
    let mut i: usize = 0;
    proof {
        nothing_to_count();
        assert(levels.take(0) =~= Seq::<Seq<char>>::empty());
    }
    while i < logs.len()
        invariant
            i <= logs.len(),
            levels == level_tokens(logs@),
            summary@ == level_counts(levels.take(i as int)),
        decreases logs.len() - i,
    {
        let level = &logs[i].log_type;
        proof {
            occurrences_of_observed(levels.take(i as int), level@);
            counts_after_one_more(levels.take(i as int), level@);
            assert(levels.take(i + 1) =~= levels.take(i as int).push(level@));
        }
        summary = summary.record(level);
        i += 1;
    }
    assert(levels.take(logs@.len() as int) =~= levels);
    summary
}

} // verus!
