//! Selection of records by time range, level and keyword.

use crate::entry::{LogEntry, LogEntryView};
use crate::level::LogLevel;
use crate::text::{has_substring, str_contains};
use crate::timestamp::{parsed_timestamp, Timestamp};
use vstd::prelude::*;

verus! {

/// What a caller asks of the records to be listed. A field that is `None`
/// asks nothing.
#[derive(Debug, Clone)]
pub struct FilterCriteria {
    /// Earliest timestamp admitted, itself included.
    pub start: Option<Timestamp>,
    /// Latest timestamp admitted, itself included.
    pub end: Option<Timestamp>,
    /// The level whose token a record must carry.
    pub level: Option<LogLevel>,
    /// Text that must occur in the message.
    pub keyword: Option<String>,
}

/// The mathematical value of a [`FilterCriteria`].
pub struct CriteriaView {
    pub start: Option<Timestamp>,
    pub end: Option<Timestamp>,
    pub level: Option<LogLevel>,
    pub keyword: Option<Seq<char>>,
}

impl View for FilterCriteria {
    type V = CriteriaView;

    open spec fn view(&self) -> CriteriaView {
        CriteriaView {
            start: self.start,
            end: self.end,
            level: self.level,
            keyword: match self.keyword {
                Some(k) => Some(k@),
                None => None,
            },
        }
    }
}

/// The criteria that ask nothing.
pub open spec fn no_criteria() -> CriteriaView {
    CriteriaView { start: None, end: None, level: None, keyword: None }
}

/// The record is not earlier than the lower bound, where there is one.
pub open spec fn passes_start(entry: LogEntryView, criteria: CriteriaView) -> bool {
    criteria.start matches Some(start) ==> start.at_or_before(entry.timestamp)
}

/// The record is not later than the upper bound, where there is one.
pub open spec fn passes_end(entry: LogEntryView, criteria: CriteriaView) -> bool {
    criteria.end matches Some(end) ==> entry.timestamp.at_or_before(end)
}

/// The record's level is, letter for letter, the token of the level asked
/// for, where one is asked for.
pub open spec fn passes_level(entry: LogEntryView, criteria: CriteriaView) -> bool {
    criteria.level matches Some(level) ==> entry.log_type == level.token()
}

/// The keyword, where there is one and it is not empty, occurs in the
/// record's message.
pub open spec fn passes_keyword(entry: LogEntryView, criteria: CriteriaView) -> bool {
    criteria.keyword matches Some(keyword) ==> keyword.len() == 0 || has_substring(
        entry.message,
        keyword,
    )
}

/// A record is selected exactly where it passes each of the four tests.
pub open spec fn selects(entry: LogEntryView, criteria: CriteriaView) -> bool {
    &&& passes_start(entry, criteria)
    &&& passes_end(entry, criteria)
    &&& passes_level(entry, criteria)
    &&& passes_keyword(entry, criteria)
}

/// Selection as a predicate on records.
pub open spec fn selector(criteria: CriteriaView) -> spec_fn(LogEntry) -> bool {
    |entry: LogEntry| selects(entry@, criteria)
}

/// The selected records of `logs`, in the order of `logs`.
pub open spec fn selected(logs: Seq<LogEntry>, criteria: CriteriaView) -> Seq<LogEntry> {
    logs.filter(selector(criteria))
}

/// The records that a sequence of references points to.
pub open spec fn referents(refs: Seq<&LogEntry>) -> Seq<LogEntry> {
    refs.map_values(|r: &LogEntry| *r)
}

/// The token asked for, where a level is asked for.
pub open spec fn wanted_token(criteria: CriteriaView) -> Option<Seq<char>> {
    match criteria.level {
        Some(level) => Some(level.token()),
        None => None,
    }
}

impl FilterCriteria {
    /// The criteria that ask nothing: every record passes.
    pub fn none() -> (r: FilterCriteria)
        ensures
            r@ == no_criteria(),
    {
        FilterCriteria { start: None, end: None, level: None, keyword: None }
    }

    /// The criteria that a caller's arguments give: the two bounds read from
    /// text in the layout day/month/year hour:minute, a level and a keyword,
    /// each optional. A bound that cannot be read is dropped without an error.
    pub fn from_args(
        start_time: Option<String>,
        end_time: Option<String>,
        log_level: Option<LogLevel>,
        keyword: Option<String>,
    ) -> (r: FilterCriteria)
        ensures
            r@ == criteria_of_args(
                start_time.deep_view(),
                end_time.deep_view(),
                log_level,
                keyword.deep_view(),
            ),
    {
        FilterCriteria {
            start: parse_bound(&start_time),
            end: parse_bound(&end_time),
            level: log_level,
            keyword,
        }
    }

    /// The token asked for, computed once for a whole selection.
    fn label(&self) -> (r: Option<String>)
        ensures
            r.deep_view() == wanted_token(self@),
    {
        match &self.level {
            Some(level) => Some(level.label()),
            None => None,
        }
    }
}

/// The four tests on one record, with the level's token at hand.
fn passes(entry: &LogEntry, criteria: &FilterCriteria, label: &Option<String>) -> (r: bool)
    requires
        label.deep_view() == wanted_token(criteria@),
    ensures
        r == selects(entry@, criteria@),
{
    let mut valid = true;
    if let Some(start) = &criteria.start {
        valid = valid && start.is_at_or_before(&entry.timestamp);
    }
    if let Some(end) = &criteria.end {
        valid = valid && entry.timestamp.is_at_or_before(end);
    }
    if let Some(token) = label {
        valid = valid && entry.log_type == *token;
    }
    if let Some(keyword) = &criteria.keyword {
        if !keyword.as_str().is_empty() && !str_contains(entry.message.as_str(), keyword.as_str()) {
            valid = false;
        }
    }
    valid
}

/// Whether the record passes every test that the criteria specify.
pub fn matches_criteria(entry: &LogEntry, criteria: &FilterCriteria) -> (r: bool)
    ensures
        r == selects(entry@, criteria@),
{
    let label = criteria.label();
    passes(entry, criteria, &label)
}

/// The part of `logs` from position `lo` up to, not including, `hi`. Bounds
/// beyond the end count as the end, and a `lo` beyond `hi` as `hi`.
pub open spec fn window(logs: Seq<LogEntry>, lo: int, hi: int) -> Seq<LogEntry> {
    let top = if hi < logs.len() { hi } else { logs.len() as int };
    let bottom = if lo < top { lo } else { top };
    logs.subrange(bottom, top)
}

/// Selects among the records from position `lo` up to, not including, `hi`:
/// the work of one partition. The result refers to the selected records, in
/// the order in which they stand in `logs`.
pub fn filter_range<'a>(
    logs: &'a [LogEntry],
    criteria: &FilterCriteria,
    lo: usize,
    hi: usize,
) -> (r: Vec<&'a LogEntry>)
    ensures
        referents(r@) == selected(window(logs@, lo as int, hi as int), criteria@),
{
    let top: usize = if hi < logs.len() { hi } else { logs.len() };
    let bottom: usize = if lo < top { lo } else { top };
    let label = criteria.label();
    let mut out: Vec<&'a LogEntry> = Vec::new();
    let mut i: usize = bottom;
    assert(logs@.subrange(bottom as int, bottom as int) =~= Seq::<LogEntry>::empty());
    assert(referents(out@) =~= Seq::<LogEntry>::empty());
    proof {
        reveal(Seq::filter);
    }
    while i < top
        invariant
            bottom <= i <= top <= logs.len(),
            label.deep_view() == wanted_token(criteria@),
            referents(out@) == selected(logs@.subrange(bottom as int, i as int), criteria@),
        decreases top - i,
    {
        let ghost before = out@;
        let ghost seen = logs@.subrange(bottom as int, i as int);
        let entry = &logs[i];
        proof {
            seen.lemma_filter_push(*entry, selector(criteria@));
            assert(logs@.subrange(bottom as int, i + 1) =~= seen.push(*entry));
        }
        if passes(entry, criteria, &label) {
            out.push(entry);
            assert(referents(out@) =~= referents(before).push(*entry));
        }
        i += 1;
    }
    out
}

/// Selects among all records, one after the other. The result refers to the
/// selected records, in the order in which they stand in `logs`.
pub fn filter_sequential<'a>(logs: &'a [LogEntry], criteria: &FilterCriteria) -> (r: Vec<
    &'a LogEntry,
>)
    ensures
        referents(r@) == selected(logs@, criteria@),
{
    assert(window(logs@, 0, logs@.len() as int) =~= logs@);
    filter_range(logs, criteria, 0, logs.len())
}

/// Above this many records a selection is evaluated partition by partition.
pub const PARALLEL_THRESHOLD: usize = 1000;

/// The number of partitions that [`filter`] splits a large input into.
pub const DEFAULT_PARTITIONS: usize = 4;

/// Whether an input of `len` records is large enough to be evaluated
/// partition by partition.
pub fn is_large_input(len: usize) -> (r: bool)
    ensures
        r == (len > PARALLEL_THRESHOLD),
{
    len > PARALLEL_THRESHOLD
}

/// How a selection over an input is to be evaluated.
#[derive(Debug, Clone, PartialEq, Eq)]
pub enum Evaluation {
    /// Record by record, over the whole input.
    Sequential,
    /// Range by range, each range on its own, the results joined in the
    /// order of the ranges. Each range is given by its first position and
    /// the position after its last.
    Partitioned { ranges: Vec<(usize, usize)> },
}

/// Decides how a selection over `len` records is evaluated when up to
/// `parts` partitions can be worked on at once: record by record up to
/// [`PARALLEL_THRESHOLD`] records, and above it over the even split of the
/// input into at most `parts` ranges.
pub fn plan_evaluation(len: usize, parts: usize) -> (r: Evaluation)
    ensures
        r is Sequential <==> len <= PARALLEL_THRESHOLD,
        r matches Evaluation::Partitioned { ranges } ==> {
            &&& is_even_split(ranges@, len as int, chunk_len(len as int, parts as int))
            &&& is_partition(ranges@, len as int)
            &&& ranges@.len() <= if parts < 1 { 1 } else { parts }
        },
{
    if is_large_input(len) {
        Evaluation::Partitioned { ranges: partition_ranges(len, parts) }
    } else {
        Evaluation::Sequential
    }
}

/// The length of each partition but the last when `len` records are split
/// into at most `parts` partitions (no partitions count as one): `len`
/// divided by the number of partitions, rounded up.
pub open spec fn chunk_len(len: int, parts: int) -> int {
    let p = if parts < 1 { 1 } else { parts };
    len / p + if len % p == 0 { 0int } else { 1int }
}

/// `ranges` splits the positions `0 .. len` into consecutive runs of `chunk`
/// positions each, the last one possibly shorter, and none empty.
pub open spec fn is_even_split(ranges: Seq<(usize, usize)>, len: int, chunk: int) -> bool {
    &&& if len <= 0 {
        ranges.len() == 0
    } else {
        (ranges.len() - 1) * chunk < len <= ranges.len() * chunk
    }
    &&& forall|k: int|
        0 <= k < ranges.len() ==> (#[trigger] ranges[k]).0 == k * chunk && ranges[k].1 == if (k
            + 1) * chunk < len {
            (k + 1) * chunk
        } else {
            len
        }
}

/// Splits the positions `0 .. len` into at most `parts` consecutive ranges of
/// equal length, but for the last, which may be shorter. Each range is given
/// by its first position and the position after its last.
pub fn partition_ranges(len: usize, parts: usize) -> (r: Vec<(usize, usize)>)
    ensures
        is_even_split(r@, len as int, chunk_len(len as int, parts as int)),
        is_partition(r@, len as int),
        r@.len() <= if parts < 1 { 1 } else { parts },
{
    let p: usize = if parts < 1 { 1 } else { parts };
    proof {
        lemma_chunks_cover(len as int, p as int);
    }
    let chunk: usize = if len % p == 0 { len / p } else { len / p + 1 };
    let mut ranges: Vec<(usize, usize)> = Vec::new();
    let mut lo: usize = 0;
    assert(0 * chunk == 0) by (nonlinear_arith);
    while lo < len
        invariant
            lo <= len,
            len > 0 ==> chunk > 0,
            chunk == chunk_len(len as int, parts as int),
            lo < len ==> lo == ranges@.len() * chunk,
            0 < lo == len ==> (ranges@.len() - 1) * chunk < len <= ranges@.len() * chunk,
            lo == 0 ==> ranges@.len() == 0,
            forall|k: int|
                0 <= k < ranges@.len() ==> (#[trigger] ranges@[k]).0 == k * chunk && ranges@[k].1
                    == if (k + 1) * chunk < len {
                    (k + 1) * chunk
                } else {
                    len as int
                },
        decreases len - lo,
    {
        let ghost k = ranges@.len() as int;
        let hi: usize = if len - lo <= chunk { len } else { lo + chunk };
        proof {
            assert((k + 1) * chunk == k * chunk + chunk) by (nonlinear_arith);
        }
        ranges.push((lo, hi));
        lo = hi;
    }
    proof {
        if len > 0 {
            lemma_chunk_count(len as int, p as int, chunk as int, ranges@.len() as int);
        }
        even_split_is_partition(ranges@, len as int, chunk as int);
    }
    ranges
}

/// With the chunk length that `chunk_len` gives, `p` chunks cover `len`
/// positions, and the chunk is not empty unless there is nothing to cover.
proof fn lemma_chunks_cover(len: int, p: int)
    requires
        len >= 0,
        p >= 1,
    ensures
        chunk_len(len, p) * p >= len,
        chunk_len(len, p) <= len,
        len > 0 ==> chunk_len(len, p) > 0,
        len == 0 ==> chunk_len(len, p) == 0,
{
    assert(len == p * (len / p) + len % p) by (nonlinear_arith)
        requires
            p >= 1,
    ;
    assert(0 <= len % p < p) by (nonlinear_arith)
        requires
            p >= 1,
    ;
    assert(len / p >= 0) by (nonlinear_arith)
        requires
            len >= 0,
            p >= 1,
    ;
    let c = chunk_len(len, p);
    assert(c * p >= len) by (nonlinear_arith)
        requires
            len == p * (len / p) + len % p,
            0 <= len % p < p,
            c == len / p + if len % p == 0 { 0int } else { 1int },
    ;
    if len > 0 && len / p == 0 {
        assert(len % p != 0);
    }
    if len % p != 0 {
        assert(len / p + 1 <= len) by (nonlinear_arith)
            requires
                len == p * (len / p) + len % p,
                0 < len % p < p,
                len / p >= 0,
        ;
    } else {
        assert(len / p <= len) by (nonlinear_arith)
            requires
                len == p * (len / p) + len % p,
                len % p == 0,
                p >= 1,
                len / p >= 0,
        ;
    }
}

/// No more than `p` chunks are needed, but for the one range of an input
/// that is not split at all.
proof fn lemma_chunk_count(len: int, p: int, chunk: int, count: int)
    requires
        len >= 0,
        p >= 1,
        count >= 0,
        chunk == chunk_len(len, p),
        (count - 1) * chunk < len <= count * chunk,
    ensures
        count <= p,
{
    lemma_chunks_cover(len, p);
    if count > p {
        assert((count - 1) * chunk >= p * chunk) by (nonlinear_arith)
            requires
                count - 1 >= p,
                chunk >= 0,
        ;
        assert(p * chunk == chunk * p) by (nonlinear_arith);
    }
}

/// `ranges` cuts the positions `0 .. len` into consecutive ranges, none of
/// them empty: the first starts at 0, each starts where the one before it
/// ends, and the last ends at `len`.
pub open spec fn is_partition(ranges: Seq<(usize, usize)>, len: int) -> bool {
    &&& ranges.len() == 0 <==> len <= 0
    &&& ranges.len() > 0 ==> ranges[0].0 == 0 && ranges[ranges.len() - 1].1 == len
    &&& forall|k: int| 0 <= k < ranges.len() ==> (#[trigger] ranges[k]).0 < ranges[k].1 <= len
    &&& forall|k: int| 0 <= k < ranges.len() - 1 ==> (#[trigger] ranges[k]).1 == ranges[k + 1].0
}

/// An even split is a partition.
pub proof fn even_split_is_partition(ranges: Seq<(usize, usize)>, len: int, chunk: int)
    requires
        is_even_split(ranges, len, chunk),
    ensures
        is_partition(ranges, len),
{
    let n = ranges.len() as int;
    if len > 0 {
        assert(chunk > 0 && n > 0) by (nonlinear_arith)
            requires
                (n - 1) * chunk < len <= n * chunk,
                len > 0,
                n >= 0,
        ;
        assert(0 * chunk == 0) by (nonlinear_arith);
        assert forall|k: int| 0 <= k < n implies (#[trigger] ranges[k]).0 < ranges[k].1 <= len && (
        k < n - 1 ==> ranges[k].1 == ranges[k + 1].0) && (k == n - 1 ==> ranges[k].1 == len) by {
            assert(k * chunk <= (n - 1) * chunk && (k + 1) * chunk == k * chunk + chunk && (k < n
                - 1 ==> (k + 1) * chunk <= (n - 1) * chunk)) by (nonlinear_arith)
                requires
                    0 <= k < n,
                    chunk > 0,
            ;
            if k < n - 1 {
                assert(ranges[k + 1].0 == (k + 1) * chunk);
            }
        }
        assert(ranges[n - 1].1 == len);
    }
}

/// The selections of the partitions of `logs`, one for each range.
pub open spec fn partition_selections(
    logs: Seq<LogEntry>,
    criteria: CriteriaView,
    ranges: Seq<(usize, usize)>,
) -> Seq<Seq<LogEntry>> {
    Seq::new(
        ranges.len(),
        |k: int| selected(logs.subrange(ranges[k].0 as int, ranges[k].1 as int), criteria),
    )
}

/// Selecting from a run of records and from the run that follows it, and
/// joining the two results, is selecting from both runs at once.
pub proof fn selection_splits(logs: Seq<LogEntry>, criteria: CriteriaView, lo: int, hi: int)
    requires
        0 <= lo <= hi <= logs.len(),
    ensures
        selected(logs.subrange(0, hi), criteria) == selected(logs.subrange(0, lo), criteria)
            + selected(logs.subrange(lo, hi), criteria),
{
    assert(logs.subrange(0, hi) =~= logs.subrange(0, lo) + logs.subrange(lo, hi));
    Seq::filter_distributes_over_add(
        logs.subrange(0, lo),
        logs.subrange(lo, hi),
        selector(criteria),
    );
}

/// Evaluating a selection partition by partition and joining the results in
/// the order of the partitions gives exactly the records, in exactly the
/// order, that evaluating it record by record over the whole input gives.
pub proof fn partitioned_equals_sequential(
    logs: Seq<LogEntry>,
    criteria: CriteriaView,
    ranges: Seq<(usize, usize)>,
)
    requires
        is_partition(ranges, logs.len() as int),
    ensures
        partition_selections(logs, criteria, ranges).flatten() == selected(logs, criteria),
{
    let n = ranges.len() as int;
    if n == 0 {
        reveal(Seq::filter);
        assert(logs =~= Seq::<LogEntry>::empty());
        assert(partition_selections(logs, criteria, ranges) =~= Seq::<Seq<LogEntry>>::empty());
        assert(partition_selections(logs, criteria, ranges).flatten() =~= Seq::<LogEntry>::empty());
    } else {
        lemma_partition_prefix(logs, criteria, ranges, n);
        assert(partition_selections(logs, criteria, ranges.take(n)) =~= partition_selections(
            logs,
            criteria,
            ranges,
        )) by {
            assert(ranges.take(n) =~= ranges);
        }
        assert(logs.subrange(0, logs.len() as int) =~= logs);
    }
}

/// The first `j` partitions, joined, are the selection from the records
/// that they cover.
proof fn lemma_partition_prefix(
    logs: Seq<LogEntry>,
    criteria: CriteriaView,
    ranges: Seq<(usize, usize)>,
    j: int,
)
    requires
        is_partition(ranges, logs.len() as int),
        1 <= j <= ranges.len(),
    ensures
        partition_selections(logs, criteria, ranges.take(j)).flatten() == selected(
            logs.subrange(0, ranges[j - 1].1 as int),
            criteria,
        ),
    decreases j,
{
    let here = partition_selections(logs, criteria, ranges.take(j));
    let part = selected(logs.subrange(ranges[j - 1].0 as int, ranges[j - 1].1 as int), criteria);
    let earlier = partition_selections(logs, criteria, ranges.take(j - 1));
    assert(here =~= earlier.push(part));
    earlier.lemma_flatten_push(part);
    if j == 1 {
        reveal(Seq::filter);
        assert(earlier =~= Seq::<Seq<LogEntry>>::empty());
        assert(earlier.flatten() =~= Seq::<LogEntry>::empty());
        assert(here.flatten() =~= part);
    } else {
        lemma_partition_prefix(logs, criteria, ranges, j - 1);
        assert(ranges[j - 2].1 == ranges[j - 1].0);
        selection_splits(logs, criteria, ranges[j - 1].0 as int, ranges[j - 1].1 as int);
    }
}

/// The contents of a sequence of result vectors, one sequence for each.
pub open spec fn result_views(parts: Seq<Vec<&LogEntry>>) -> Seq<Seq<&LogEntry>> {
    parts.map_values(|part: Vec<&LogEntry>| part@)
}

/// Joins the results of the partitions in the order of the partitions.
pub fn merge_partitions<'a>(parts: &[Vec<&'a LogEntry>]) -> (r: Vec<&'a LogEntry>)
    ensures
        r@ == result_views(parts@).flatten(),
{
    let ghost views = result_views(parts@);
    let mut out: Vec<&'a LogEntry> = Vec::new();
    let mut i: usize = 0;
    assert(views.take(0) =~= Seq::<Seq<&LogEntry>>::empty());
    assert(views.take(0).flatten() =~= Seq::<&LogEntry>::empty());
    while i < parts.len()
        invariant
            i <= parts.len(),
            views == result_views(parts@),
            out@ == views.take(i as int).flatten(),
        decreases parts.len() - i,
    {
        let part = &parts[i];
        let ghost joined = out@;
        let mut j: usize = 0;
        while j < part.len()
            invariant
                j <= part.len(),
                out@ == joined + part@.take(j as int),
            decreases part.len() - j,
        {
            let entry: &'a LogEntry = part[j];
            out.push(entry);
            assert(part@.take(j + 1) =~= part@.take(j as int).push(part@[j as int]));
            j += 1;
        }
        proof {
            assert(part@.take(part@.len() as int) =~= part@);
            views.take(i as int).lemma_flatten_push(part@);
            assert(views.take(i + 1) =~= views.take(i as int).push(part@));
        }
        i += 1;
    }
    assert(views.take(parts@.len() as int) =~= views);
    out
}

/// Selects among all records partition by partition: the input is split
/// into at most `parts` consecutive ranges, each range is evaluated on its
/// own, and the results are joined in the order of the ranges. The outcome
/// is that of [`filter_sequential`].
pub fn filter_partitioned<'a>(logs: &'a [LogEntry], criteria: &FilterCriteria, parts: usize) -> (r:
    Vec<&'a LogEntry>)
    ensures
        referents(r@) == selected(logs@, criteria@),
{
    let ranges = partition_ranges(logs.len(), parts);
    evaluate_partitions(logs, criteria, &ranges)
}

/// Evaluates each range of a partition of `logs` on its own and joins the
/// results in the order of the ranges.
fn evaluate_partitions<'a>(
    logs: &'a [LogEntry],
    criteria: &FilterCriteria,
    ranges: &Vec<(usize, usize)>,
) -> (r: Vec<&'a LogEntry>)
    requires
        is_partition(ranges@, logs@.len() as int),
    ensures
        referents(r@) == selected(logs@, criteria@),
{
    let mut results: Vec<Vec<&'a LogEntry>> = Vec::new();
    let mut k: usize = 0;
    let ghost mut done: int = 0;
    proof {
        reveal(Seq::filter);
        assert(result_views(results@) =~= Seq::<Seq<&LogEntry>>::empty());
        assert(referents(result_views(results@).flatten()) =~= Seq::<LogEntry>::empty());
        assert(logs@.subrange(0, 0) =~= Seq::<LogEntry>::empty());
    }
    while k < ranges.len()
        invariant
            k <= ranges.len(),
            is_partition(ranges@, logs@.len() as int),
            results@.len() == k,
            0 <= done <= logs@.len(),
            k < ranges@.len() ==> done == ranges@[k as int].0,
            k == ranges@.len() ==> done == logs@.len(),
            referents(result_views(results@).flatten()) == selected(
                logs@.subrange(0, done),
                criteria@,
            ),
        decreases ranges.len() - k,
    {
        let (lo, hi) = ranges[k];
        let part = filter_range(logs, criteria, lo, hi);
        proof {
            let before = result_views(results@);
            assert(window(logs@, lo as int, hi as int) =~= logs@.subrange(lo as int, hi as int));
            selection_splits(logs@, criteria@, lo as int, hi as int);
            before.lemma_flatten_push(part@);
            assert(result_views(results@.push(part)) =~= before.push(part@));
            assert(referents(before.flatten() + part@) =~= referents(before.flatten()) + referents(
                part@,
            ));
            done = hi as int;
        }
        results.push(part);
        k += 1;
    }
    proof {
        assert(logs@.subrange(0, logs@.len() as int) =~= logs@);
    }
    let merged = merge_partitions(results.as_slice());
    merged
}

/// Selects the records that pass every test the criteria specify, in the
/// order of `logs`. An input of more than [`PARALLEL_THRESHOLD`] records is
/// evaluated partition by partition, a smaller one record by record; the
/// outcome is the same either way.
pub fn filter<'a>(logs: &'a [LogEntry], criteria: &FilterCriteria) -> (r: Vec<&'a LogEntry>)
    ensures
        referents(r@) == selected(logs@, criteria@),
{
    match plan_evaluation(logs.len(), DEFAULT_PARTITIONS) {
        Evaluation::Sequential => filter_sequential(logs, criteria),
        Evaluation::Partitioned { ranges } => evaluate_partitions(logs, criteria, &ranges),
    }
}

/// The bound that a caller's text gives: the timestamp it denotes, or no
/// bound where there is no text or the text is no timestamp.
pub open spec fn bound_of_text(text: Option<Seq<char>>) -> Option<Timestamp> {
    match text {
        Some(t) => parsed_timestamp(t),
        None => None,
    }
}

/// The criteria that a caller's arguments give. A bound whose text is no
/// timestamp is no bound.
pub open spec fn criteria_of_args(
    start_time: Option<Seq<char>>,
    end_time: Option<Seq<char>>,
    log_level: Option<LogLevel>,
    keyword: Option<Seq<char>>,
) -> CriteriaView {
    CriteriaView {
        start: bound_of_text(start_time),
        end: bound_of_text(end_time),
        level: log_level,
        keyword,
    }
}

/// Reads a bound from a caller's text, leniently.
pub fn parse_bound(text: &Option<String>) -> (r: Option<Timestamp>)
    ensures
        r == bound_of_text(text.deep_view()),
{
    match text {
        Some(t) => Timestamp::parse(t.as_str()),
        None => None,
    }
}

/// Selects records by a caller's arguments: the two bounds as text in the
/// layout day/month/year hour:minute, a level and a keyword, each optional.
/// A bound that cannot be read is dropped without an error.
pub fn filter_logs<'a>(
    logs: &'a [LogEntry],
    start_time: Option<String>,
    end_time: Option<String>,
    log_level: Option<LogLevel>,
    keyword: Option<String>,
) -> (r: Vec<&'a LogEntry>)
    ensures
        referents(r@) == selected(
            logs@,
            criteria_of_args(
                start_time.deep_view(),
                end_time.deep_view(),
                log_level,
                keyword.deep_view(),
            ),
        ),
{
    let criteria = FilterCriteria::from_args(start_time, end_time, log_level, keyword);
    filter(logs, &criteria)
}

/// A record is listed exactly where it is among the input and passes each
/// of the four tests on its own.
pub proof fn selection_is_conjunction(logs: Seq<LogEntry>, criteria: CriteriaView, entry: LogEntry)
    ensures
        selected(logs, criteria).contains(entry) <==> logs.contains(entry) && passes_start(
            entry@,
            criteria,
        ) && passes_end(entry@, criteria) && passes_level(entry@, criteria) && passes_keyword(
            entry@,
            criteria,
        ),
{
    let pred = selector(criteria);
    if selected(logs, criteria).contains(entry) {
        logs.lemma_filter_contains_rev(pred, entry);
        let i = choose|i: int|
            0 <= i < selected(logs, criteria).len() && selected(logs, criteria)[i] == entry;
        logs.lemma_filter_pred(pred, i);
    }
    if logs.contains(entry) && selects(entry@, criteria) {
        let i = choose|i: int| 0 <= i < logs.len() && logs[i] == entry;
        logs.lemma_filter_contains(pred, i);
    }
}

/// Criteria that ask nothing select every record.
pub proof fn no_criteria_select_all(logs: Seq<LogEntry>)
    ensures
        selected(logs, no_criteria()) == logs,
    decreases logs.len(),
{
    reveal(Seq::filter);
    if logs.len() > 0 {
        no_criteria_select_all(logs.drop_last());
        assert(logs.drop_last().push(logs.last()) =~= logs);
    }
}

/// Both bounds are inclusive: a record stamped exactly at the lower bound,
/// or exactly at the upper bound, passes that bound.
pub proof fn bounds_are_inclusive(entry: LogEntryView, criteria: CriteriaView)
    ensures
        criteria.start == Some(entry.timestamp) ==> passes_start(entry, criteria),
        criteria.end == Some(entry.timestamp) ==> passes_end(entry, criteria),
{
}

/// Nothing is selected from no records.
pub proof fn nothing_selected_from_nothing(criteria: CriteriaView)
    ensures
        selected(Seq::<LogEntry>::empty(), criteria) == Seq::<LogEntry>::empty(),
{
    reveal(Seq::filter);
}

} // verus!
