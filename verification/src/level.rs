//! Log levels and per-level statistics.

use vstd::prelude::*;
use crate::text::{chars_of, lowercase, same_text, to_lowercase};
use crate::record::LogRecord;

verus! {

/// Severity of a log event, in increasing order; `Unknown` holds any level
/// name that is not recognised.
#[derive(Clone, Copy, Debug, PartialEq, Eq, Hash, PartialOrd, Ord, Structural)]
pub enum Level {
    Verbose,
    Debug,
    Info,
    Warning,
    Error,
    Fatal,
    Unknown,
}

/// The level that a lowercase level name denotes.
pub open spec fn level_named(t: Seq<char>) -> Level {
    if t == "verbose"@ || t == "v"@ {
        Level::Verbose
    } else if t == "debug"@ || t == "d"@ {
        Level::Debug
    } else if t == "information"@ || t == "info"@ || t == "i"@ {
        Level::Info
    } else if t == "warning"@ || t == "warn"@ || t == "w"@ {
        Level::Warning
    } else if t == "error"@ || t == "e"@ {
        Level::Error
    } else if t == "fatal"@ || t == "f"@ {
        Level::Fatal
    } else {
        Level::Unknown
    }
}

/// The position of a level in severity order, from 0 (`Verbose`) to 6 (`Unknown`).
pub open spec fn rank(l: Level) -> int {
    match l {
        Level::Verbose => 0,
        Level::Debug => 1,
        Level::Info => 2,
        Level::Warning => 3,
        Level::Error => 4,
        Level::Fatal => 5,
        Level::Unknown => 6,
    }
}

/// The full name of a level.
pub open spec fn label_of(l: Level) -> Seq<char> {
    match l {
        Level::Verbose => "Verbose"@,
        Level::Debug => "Debug"@,
        Level::Info => "Information"@,
        Level::Warning => "Warning"@,
        Level::Error => "Error"@,
        Level::Fatal => "Fatal"@,
        Level::Unknown => "Unknown"@,
    }
}

/// The three-letter abbreviation of a level.
pub open spec fn short_of(l: Level) -> Seq<char> {
    match l {
        Level::Verbose => "VRB"@,
        Level::Debug => "DBG"@,
        Level::Info => "INF"@,
        Level::Warning => "WRN"@,
        Level::Error => "ERR"@,
        Level::Fatal => "FTL"@,
        Level::Unknown => "???"@,
    }
}

/// The levels a user can filter on, in severity order (all but `Unknown`).
pub const ALL_LEVELS: [Level; 6] = [
    Level::Verbose,
    Level::Debug,
    Level::Info,
    Level::Warning,
    Level::Error,
    Level::Fatal,
];

/// The colour of a level, as red, green and blue.
pub open spec fn color_of(l: Level) -> (u8, u8, u8) {
    match l {
        Level::Verbose => (108, 117, 125),
        Level::Debug => (32, 201, 151),
        Level::Info => (23, 162, 184),
        Level::Warning => (255, 193, 7),
        Level::Error => (253, 126, 20),
        Level::Fatal => (220, 53, 69),
        Level::Unknown => (173, 181, 189),
    }
}

/// The badge background of a level, a darker shade of its colour.
pub open spec fn bg_color_of(l: Level) -> (u8, u8, u8) {
    match l {
        Level::Verbose => (35, 38, 41),
        Level::Debug => (10, 60, 45),
        Level::Info => (8, 52, 60),
        Level::Warning => (80, 60, 2),
        Level::Error => (80, 38, 5),
        Level::Fatal => (70, 15, 20),
        Level::Unknown => (44, 47, 51),
    }
}

impl Level {
    /// The level named by `s`, compared without regard to case.
    pub fn from_str(s: &str) -> (r: Level)
        ensures
            r == level_named(lowercase(s@)),
    {
        let low = to_lowercase(s);
        Level::from_lowercase(low.as_str())
    }

    /// The level named by an already-lowercased name.
    pub fn from_lowercase(t: &str) -> (r: Level)
        ensures
            r == level_named(t@),
    {
        let c = chars_of(t);
        if same_text(&c, "verbose") || same_text(&c, "v") {
            Level::Verbose
        } else if same_text(&c, "debug") || same_text(&c, "d") {
            Level::Debug
        } else if same_text(&c, "information") || same_text(&c, "info") || same_text(&c, "i") {
            Level::Info
        } else if same_text(&c, "warning") || same_text(&c, "warn") || same_text(&c, "w") {
            Level::Warning
        } else if same_text(&c, "error") || same_text(&c, "e") {
            Level::Error
        } else if same_text(&c, "fatal") || same_text(&c, "f") {
            Level::Fatal
        } else {
            Level::Unknown
        }
    }
}

impl Level {
    /// The full name of the level.
    pub fn label(&self) -> (r: &'static str)
        ensures
            r@ == label_of(*self),
    {
        match self {
            Level::Verbose => "Verbose",
            Level::Debug => "Debug",
            Level::Info => "Information",
            Level::Warning => "Warning",
            Level::Error => "Error",
            Level::Fatal => "Fatal",
            Level::Unknown => "Unknown",
        }
    }

    /// The three-letter abbreviation of the level.
    pub fn short(&self) -> (r: &'static str)
        ensures
            r@ == short_of(*self),
    {
        match self {
            Level::Verbose => "VRB",
            Level::Debug => "DBG",
            Level::Info => "INF",
            Level::Warning => "WRN",
            Level::Error => "ERR",
            Level::Fatal => "FTL",
            Level::Unknown => "???",
        }
    }

    /// The colour a level is shown in, as red, green and blue.
    pub fn color(&self) -> (r: (u8, u8, u8))
        ensures
            r == color_of(*self),
    {
        match self {
            Level::Verbose => (108, 117, 125),
            Level::Debug => (32, 201, 151),
            Level::Info => (23, 162, 184),
            Level::Warning => (255, 193, 7),
            Level::Error => (253, 126, 20),
            Level::Fatal => (220, 53, 69),
            Level::Unknown => (173, 181, 189),
        }
    }

    /// The darker colour behind a level's badge, as red, green and blue.
    pub fn bg_color(&self) -> (r: (u8, u8, u8))
        ensures
            r == bg_color_of(*self),
    {
        match self {
            Level::Verbose => (35, 38, 41),
            Level::Debug => (10, 60, 45),
            Level::Info => (8, 52, 60),
            Level::Warning => (80, 60, 2),
            Level::Error => (80, 38, 5),
            Level::Fatal => (70, 15, 20),
            Level::Unknown => (44, 47, 51),
        }
    }

    /// The position of the level in severity order (see `rank`).
    pub fn index(&self) -> (r: usize)
        ensures
            r == rank(*self),
    {
        match self {
            Level::Verbose => 0,
            Level::Debug => 1,
            Level::Info => 2,
            Level::Warning => 3,
            Level::Error => 4,
            Level::Fatal => 5,
            Level::Unknown => 6,
        }
    }
}

/// How many of the records selected by `filtered` have level `l`.
pub open spec fn count_level(records: Seq<LogRecord>, filtered: Seq<usize>, l: Level) -> nat
    decreases filtered.len(),
{
    if filtered.len() == 0 {
        0
    } else {
        count_level(records, filtered.drop_last(), l)
            + if records[filtered.last() as int].level == l { 1nat } else { 0nat }
    }
}

/// The sum of `counts`.
pub open spec fn sum_counts(counts: Seq<usize>) -> int
    decreases counts.len(),
{
    if counts.len() == 0 {
        0
    } else {
        sum_counts(counts.drop_last()) + counts.last()
    }
}

/// The number of records of each level, indexed by `rank`.
pub struct LevelStats {
    pub counts: [usize; 7],
}

/// Whether every index in `filtered` points into `records`.
pub open spec fn indices_in_bounds(records: Seq<LogRecord>, filtered: Seq<usize>) -> bool {
    forall|p: int| 0 <= p < filtered.len() ==> #[trigger] filtered[p] < records.len()
}

/// The counts of one level over all seven ranks, from one added record.
proof fn lemma_count_level_step(records: Seq<LogRecord>, filtered: Seq<usize>, n: int)
    requires
        0 <= n < filtered.len(),
    ensures
        forall|l: Level| #[trigger] count_level(records, filtered.take(n + 1), l)
            == count_level(records, filtered.take(n), l)
            + if records[filtered[n] as int].level == l { 1int } else { 0int },
{
    assert(filtered.take(n + 1).drop_last() =~= filtered.take(n));
}

/// The counts of all levels over a prefix add up to the prefix length.
proof fn lemma_count_levels_total(records: Seq<LogRecord>, filtered: Seq<usize>)
    ensures
        count_level(records, filtered, Level::Verbose) + count_level(records, filtered, Level::Debug)
            + count_level(records, filtered, Level::Info) + count_level(records, filtered, Level::Warning)
            + count_level(records, filtered, Level::Error) + count_level(records, filtered, Level::Fatal)
            + count_level(records, filtered, Level::Unknown) == filtered.len(),
    decreases filtered.len(),
{
    if filtered.len() > 0 {
        lemma_count_levels_total(records, filtered.drop_last());
    }
}

impl LevelStats {
    /// Counts, by level, the records that `filtered` selects.
    pub fn from_filtered(records: &[LogRecord], filtered: &[usize]) -> (r: LevelStats)
        requires
            indices_in_bounds(records@, filtered@),
        ensures
            forall|l: Level| r.counts@[rank(l)] == count_level(records@, filtered@, l),
    {
        let mut counts: [usize; 7] = [0, 0, 0, 0, 0, 0, 0];
        let mut i: usize = 0;
        while i < filtered.len()
            invariant
                i <= filtered.len(),
                indices_in_bounds(records@, filtered@),
                forall|l: Level| counts@[rank(l)] == count_level(records@, filtered@.take(i as int), l),
            decreases filtered.len() - i,
        {
            proof {
                lemma_count_levels_total(records@, filtered@.take(i as int));
                lemma_count_level_step(records@, filtered@, i as int);
            }
            let k = records[filtered[i]].level.index();
            assert(counts@[k as int] == count_level(records@, filtered@.take(i as int), records@[filtered@[i as int] as int].level));
            counts[k] = counts[k] + 1;
            i = i + 1;
            assert forall|l: Level| counts@[rank(l)] == count_level(records@, filtered@.take(i as int), l) by {
                assert(rank(l) == k <==> l == records@[filtered@[i - 1] as int].level);
            }
        }
        assert(filtered@.take(i as int) =~= filtered@);
        LevelStats { counts }
    }

    /// The number of records counted, over all levels.
    pub fn total(&self) -> (r: usize)
        requires
            sum_counts(self.counts@) <= usize::MAX,
        ensures
            r == sum_counts(self.counts@),
    {
        let mut sum: usize = 0;
        let mut i: usize = 0;
        while i < 7
            invariant
                i <= 7,
                self.counts@.len() == 7,
                sum == sum_counts(self.counts@.take(i as int)),
                sum_counts(self.counts@) <= usize::MAX,
            decreases 7 - i,
        {
            proof {
                assert(self.counts@.take(i + 1).drop_last() =~= self.counts@.take(i as int));
                lemma_sum_counts_prefix(self.counts@, i + 1);
            }
            sum = sum + self.counts[i];
            i = i + 1;
        }
        assert(self.counts@.take(7) =~= self.counts@);
        sum
    }

    /// The number of records counted at level `l`.
    pub fn count(&self, l: Level) -> (r: usize)
        ensures
            r == self.counts@[rank(l)],
    {
        self.counts[l.index()]
    }
}

/// A prefix of non-negative counts sums to no more than the whole.
proof fn lemma_sum_counts_prefix(counts: Seq<usize>, n: int)
    requires
        0 <= n <= counts.len(),
    ensures
        sum_counts(counts.take(n)) <= sum_counts(counts),
    decreases counts.len() - n,
{
    if n < counts.len() {
        lemma_sum_counts_prefix(counts, n + 1);
        assert(counts.take(n + 1).drop_last() =~= counts.take(n));
    } else {
        assert(counts.take(n) =~= counts);
    }
}

/// Law: the level counts of a selection add up to the number of selected
/// records.
pub proof fn law_level_counts_add_up(records: Seq<LogRecord>, filtered: Seq<usize>, counts: Seq<usize>)
    requires
        counts.len() == 7,
        forall|l: Level| counts[rank(l)] == count_level(records, filtered, l),
    ensures
        sum_counts(counts) == filtered.len(),
{
    lemma_count_levels_total(records, filtered);
    assert(counts[0] == count_level(records, filtered, Level::Verbose));
    assert(counts[1] == count_level(records, filtered, Level::Debug));
    assert(counts[2] == count_level(records, filtered, Level::Info));
    assert(counts[3] == count_level(records, filtered, Level::Warning));
    assert(counts[4] == count_level(records, filtered, Level::Error));
    assert(counts[5] == count_level(records, filtered, Level::Fatal));
    assert(counts[6] == count_level(records, filtered, Level::Unknown));
    reveal_with_fuel(sum_counts, 8);
}

/// How many of the records selected by `s` satisfy `p`.
pub open spec fn tally(records: Seq<LogRecord>, s: Seq<usize>, p: spec_fn(LogRecord) -> bool) -> nat
    decreases s.len(),
{
    if s.len() == 0 {
        0
    } else {
        tally(records, s.drop_last(), p) + if p(records[s.last() as int]) { 1nat } else { 0nat }
    }
}

/// Taking one index out of a selection takes its record out of a tally.
proof fn lemma_tally_remove(records: Seq<LogRecord>, s: Seq<usize>, p: spec_fn(LogRecord) -> bool, j: int)
    requires
        0 <= j < s.len(),
    ensures
        tally(records, s, p) == tally(records, s.remove(j), p) + if p(records[s[j] as int]) { 1int } else { 0int },
    decreases s.len(),
{
    if j == s.len() - 1 {
        assert(s.remove(j) =~= s.drop_last());
    } else {
        lemma_tally_remove(records, s.drop_last(), p, j);
        assert(s.remove(j).drop_last() =~= s.drop_last().remove(j));
        assert(s.remove(j).last() == s.last());
    }
}

/// A tally does not depend on the order of the selection.
pub proof fn lemma_tally_reorder(records: Seq<LogRecord>, a: Seq<usize>, b: Seq<usize>, p: spec_fn(LogRecord) -> bool)
    requires
        a.to_multiset() == b.to_multiset(),
    ensures
        tally(records, a, p) == tally(records, b, p),
    decreases a.len(),
{
    broadcast use vstd::multiset::group_multiset_axioms;
    a.to_multiset_ensures();
    b.to_multiset_ensures();
    if a.len() == 0 {
        assert(b.len() == 0);
    } else {
        let x = a.last();
        let a1 = a.drop_last();
        assert(a1.push(x) =~= a);
        a1.to_multiset_ensures();
        assert(a.to_multiset() =~= a1.to_multiset().insert(x));
        assert(a.contains(x)) by {
            assert(a[a.len() - 1] == x);
        }
        assert(b.to_multiset().count(x) > 0);
        assert(b.contains(x));
        let j = choose|j: int| 0 <= j < b.len() && b[j] == x;
        let b1 = b.remove(j);
        assert(b1.to_multiset() =~= b.to_multiset().remove(x));
        assert(a1.to_multiset() =~= a.to_multiset().remove(x));
        lemma_tally_reorder(records, a1, b1, p);
        lemma_tally_remove(records, b, p, j);
    }
}

/// A level count is the tally of the records of that level.
pub proof fn lemma_count_level_tally(records: Seq<LogRecord>, s: Seq<usize>, l: Level)
    ensures
        count_level(records, s, l) == tally(records, s, |r: LogRecord| r.level == l),
    decreases s.len(),
{
    if s.len() > 0 {
        lemma_count_level_tally(records, s.drop_last(), l);
    }
}

/// Law: reordering a selection leaves its level counts unchanged.
pub proof fn law_level_counts_reorder(records: Seq<LogRecord>, a: Seq<usize>, b: Seq<usize>, l: Level)
    requires
        a.to_multiset() == b.to_multiset(),
    ensures
        count_level(records, a, l) == count_level(records, b, l),
{
    lemma_count_level_tally(records, a, l);
    lemma_count_level_tally(records, b, l);
    lemma_tally_reorder(records, a, b, |r: LogRecord| r.level == l);
}

/// A sequence reversed holds the same elements.
pub proof fn lemma_reverse_multiset(s: Seq<usize>)
    ensures
        s.reverse().to_multiset() == s.to_multiset(),
    decreases s.len(),
{
    broadcast use vstd::multiset::group_multiset_axioms;
    if s.len() > 0 {
        let x = s.last();
        let s1 = s.drop_last();
        lemma_reverse_multiset(s1);
        assert(s.reverse() =~= seq![x] + s1.reverse());
        vstd::seq_lib::lemma_multiset_commutative(seq![x], s1.reverse());
        assert(seq![x] =~= Seq::<usize>::empty().push(x));
        Seq::<usize>::empty().to_multiset_ensures();
        s1.to_multiset_ensures();
        assert(s1.push(x) =~= s);
        assert(Seq::<usize>::empty().to_multiset() =~= vstd::multiset::Multiset::empty()) by {
            vstd::seq_lib::to_multiset_len(Seq::<usize>::empty());
        }
        assert(s.to_multiset() =~= s1.to_multiset().insert(x));
        assert(seq![x].to_multiset() =~= vstd::multiset::Multiset::empty().insert(x));
        assert(s.reverse().to_multiset() =~= vstd::multiset::Multiset::empty().insert(x).add(s1.to_multiset()));
        assert(s1.to_multiset().insert(x) =~= vstd::multiset::Multiset::empty().insert(x).add(s1.to_multiset()));
    } else {
        assert(s.reverse() =~= s);
    }
}

} // verus!
