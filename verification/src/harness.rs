//! What tuning and benchmarking count: the score of a query, the split of a
//! query file, and the sums behind the benchmark's averages.
//!
//! The averages themselves are quotients of floating-point numbers and are
//! left to the caller, together with the optimizer that proposes weights.

use crate::pathfinder::{joined_length, Outcome};
use crate::text::texts;
use vstd::prelude::*;

verus! {

/// A query of the corpus: find a path from `source` to `target`.
pub struct Query {
    /// The entity to start from.
    pub source: String,
    /// The entity to arrive at.
    pub target: String,
    /// The topic that the query was derived from.
    pub trec_id: String,
}

/// The text of the three fields of each query.
pub open spec fn query_texts(queries: Seq<Query>) -> Seq<(Seq<char>, Seq<char>, Seq<char>)> {
    Seq::new(queries.len(), |i: int| (queries[i].source@, queries[i].target@, queries[i].trec_id@))
}

/// The score of a query, which tuning minimizes: the number of entities
/// visited, doubled where no path was found.
pub open spec fn score_of(visited_count: nat, found: bool) -> nat {
    if found {
        visited_count
    } else {
        2 * visited_count
    }
}

/// The score of a query.
pub fn query_score(outcome: &Outcome) -> (score: u128)
    ensures
        score == score_of(outcome.visited_count as nat, outcome.found()),
{
    let visited: u128 = outcome.visited_count as u128;
    if outcome.is_found() {
        visited
    } else {
        2 * visited
    }
}

/// The number of edges on the path that an outcome holds; 0 where it holds
/// none.
pub fn path_length(outcome: &Outcome) -> (length: usize)
    requires
        outcome.path_forward.len() + outcome.path_backward.len() <= usize::MAX,
    ensures
        length == joined_length(texts(outcome.path_forward@), texts(outcome.path_backward@)),
{
    let forward = outcome.path_forward.len();
    let backward = outcome.path_backward.len();
    if backward == 0 {
        if forward == 0 {
            0
        } else {
            forward - 1
        }
    } else if forward == 0 {
        backward - 1
    } else {
        // Both paths end at the same entity, which is counted once.
        forward + backward - 2
    }
}

/// A copy of a query.
fn copy_query(query: &Query) -> (copy: Query)
    ensures
        copy.source@ == query.source@,
        copy.target@ == query.target@,
        copy.trec_id@ == query.trec_id@,
{
    Query {
        source: query.source.clone(),
        target: query.target.clone(),
        trec_id: query.trec_id.clone(),
    }
}

/// The number of queries of a file of `total` queries that go to tuning,
/// where `count` were asked for.
pub open spec fn tuning_share(total: nat, count: nat) -> nat {
    if count < total {
        count
    } else {
        total
    }
}

/// The queries of a file that tuning runs: its first `count` queries, or all
/// of them where it holds fewer.
pub fn optimizer_queries(queries: &Vec<Query>, count: usize) -> (chosen: Vec<Query>)
    ensures
        query_texts(chosen@) == query_texts(queries@).take(
            tuning_share(queries.len() as nat, count as nat) as int,
        ),
{
    let share = if count < queries.len() {
        count
    } else {
        queries.len()
    };
    let mut chosen: Vec<Query> = Vec::new();
    let mut i: usize = 0;
    while i < share
        invariant
            i <= share <= queries.len(),
            chosen.len() == i,
            forall|j: int| 0 <= j < i ==> query_texts(chosen@)[j] == query_texts(queries@)[j],
        decreases share - i,
    {
        chosen.push(copy_query(&queries[i]));
        i = i + 1;
    }
    chosen
}

/// The queries of a file that the benchmark runs: those that tuning leaves,
/// which are all but the first `count`.
pub fn benchmark_queries(queries: &Vec<Query>, count: usize) -> (chosen: Vec<Query>)
    ensures
        query_texts(chosen@) == query_texts(queries@).skip(
            tuning_share(queries.len() as nat, count as nat) as int,
        ),
{
    let share = if count < queries.len() {
        count
    } else {
        queries.len()
    };
    let mut chosen: Vec<Query> = Vec::new();
    let mut i: usize = share;
    while i < queries.len()
        invariant
            share <= i <= queries.len(),
            chosen.len() == i - share,
            forall|j: int|
                0 <= j < i - share ==> query_texts(chosen@)[j] == query_texts(queries@)[share + j],
        decreases queries.len() - i,
    {
        let ghost earlier = query_texts(chosen@);
        chosen.push(copy_query(&queries[i]));
        assert forall|j: int| 0 <= j < i + 1 - share implies query_texts(chosen@)[j]
            == query_texts(queries@)[share + j] by {
            if j < i - share {
                assert(query_texts(chosen@)[j] == earlier[j]);
            }
        }
        i = i + 1;
    }
    chosen
}

/// The sums of a benchmark, as mathematical values.
pub ghost struct TallyView {
    /// The number of queries run.
    pub queries: nat,
    /// The number of queries for which a path was found.
    pub successes: nat,
    /// The number of those that visited an entity.
    pub visited_runs: nat,
    /// The number of entities that those visited, summed up.
    pub visited_total: nat,
    /// The number of queries for which a path of at least one edge was found.
    pub length_runs: nat,
    /// The number of edges on those paths, summed up.
    pub length_total: nat,
}

impl TallyView {
    /// The sums before the first query.
    pub open spec fn empty() -> TallyView {
        TallyView {
            queries: 0,
            successes: 0,
            visited_runs: 0,
            visited_total: 0,
            length_runs: 0,
            length_total: 0,
        }
    }

    /// The sums after one more query, which visited `visited` entities and,
    /// where `found` says so, found a path of `length` edges. A query without
    /// a path adds to the number of queries alone.
    pub open spec fn recorded(self, visited: nat, length: nat, found: bool) -> TallyView {
        if !found {
            TallyView { queries: self.queries + 1, ..self }
        } else {
            TallyView {
                queries: self.queries + 1,
                successes: self.successes + 1,
                visited_runs: if visited > 0 {
                    self.visited_runs + 1
                } else {
                    self.visited_runs
                },
                visited_total: self.visited_total + visited,
                length_runs: if length > 0 {
                    self.length_runs + 1
                } else {
                    self.length_runs
                },
                length_total: self.length_total + length,
            }
        }
    }
}

/// The sums of a benchmark. Its three results are quotients of them: the
/// success rate is `successes / queries`, the mean number of visited entities
/// is `visited_total / visited_runs`, and the mean path length is
/// `length_total / length_runs`.
pub struct BenchmarkTally {
    queries: usize,
    successes: usize,
    visited_runs: usize,
    visited_total: u128,
    length_runs: usize,
    length_total: u128,
}

impl View for BenchmarkTally {
    type V = TallyView;

    closed spec fn view(&self) -> TallyView {
        TallyView {
            queries: self.queries as nat,
            successes: self.successes as nat,
            visited_runs: self.visited_runs as nat,
            visited_total: self.visited_total as nat,
            length_runs: self.length_runs as nat,
            length_total: self.length_total as nat,
        }
    }
}

impl BenchmarkTally {
    /// What the sums keep true: no count exceeds the number of queries, and
    /// no sum exceeds what that many queries can add up to.
    pub closed spec fn wf(&self) -> bool {
        &&& self.successes <= self.queries
        &&& self.visited_runs <= self.queries
        &&& self.length_runs <= self.queries
        &&& self.visited_total <= self.queries * usize::MAX
        &&& self.length_total <= self.queries * usize::MAX
    }

    /// The sums before the first query.
    pub fn new() -> (tally: BenchmarkTally)
        ensures
            tally.wf(),
            tally@ == TallyView::empty(),
    {
        BenchmarkTally {
            queries: 0,
            successes: 0,
            visited_runs: 0,
            visited_total: 0,
            length_runs: 0,
            length_total: 0,
        }
    }

    /// Adds the outcome of one more query.
    pub fn record(&mut self, outcome: &Outcome)
        requires
            old(self).wf(),
            old(self)@.queries < usize::MAX,
            outcome.path_forward.len() + outcome.path_backward.len() <= usize::MAX,
        ensures
            final(self).wf(),
            final(self)@ == old(self)@.recorded(
                outcome.visited_count as nat,
                joined_length(texts(outcome.path_forward@), texts(outcome.path_backward@)),
                outcome.found(),
            ),
    {
        let queries = self.queries;
        proof {
            let q = queries as int;
            let m = usize::MAX as int;
            assert((q + 1) * m == q * m + m) by (nonlinear_arith);
            assert((q + 1) * m <= m * m) by (nonlinear_arith)
                requires
                    q + 1 <= m,
                    m >= 0,
            ;
            assert(m * m < 0x1_0000_0000_0000_0000_0000_0000_0000_0000) by (nonlinear_arith)
                requires
                    0 <= m <= 0xffff_ffff_ffff_ffff,
            ;
        }
        self.queries = queries + 1;
        if outcome.is_found() {
            let length = path_length(outcome);
            self.successes = self.successes + 1;
            if outcome.visited_count > 0 {
                self.visited_runs = self.visited_runs + 1;
            }
            self.visited_total = self.visited_total + outcome.visited_count as u128;
            if length > 0 {
                self.length_runs = self.length_runs + 1;
            }
            self.length_total = self.length_total + length as u128;
        }
    }

    /// The number of queries run.
    pub fn queries(&self) -> (count: usize)
        ensures
            count == self@.queries,
    {
        self.queries
    }

    /// The number of queries for which a path was found.
    pub fn successes(&self) -> (count: usize)
        ensures
            count == self@.successes,
    {
        self.successes
    }

    /// The number of queries with a path that visited an entity.
    pub fn visited_runs(&self) -> (count: usize)
        ensures
            count == self@.visited_runs,
    {
        self.visited_runs
    }

    /// The number of entities that those queries visited, summed up.
    pub fn visited_total(&self) -> (total: u128)
        ensures
            total == self@.visited_total,
    {
        self.visited_total
    }

    /// The number of queries with a path of at least one edge.
    pub fn length_runs(&self) -> (count: usize)
        ensures
            count == self@.length_runs,
    {
        self.length_runs
    }

    /// The number of edges on those paths, summed up.
    pub fn length_total(&self) -> (total: u128)
        ensures
            total == self@.length_total,
    {
        self.length_total
    }
}

} // verus!
