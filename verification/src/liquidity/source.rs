//! Level sources and the significance they give.
use vstd::prelude::*;
use crate::key::Num;
use crate::liquidity::cfg::{SigGrid, SignificanceCfg};
use crate::models::{has_room, interned, POOL_CAP};
use crate::text::str_eq;
use crate::tfmap::TfMap;

verus! {

/// A source and what every service needs to know of it.
#[derive(Debug, Clone)]
pub struct SourceInfo {
    pub name: String,
    /// The place of its grid, none for the default one.
    pub grid: Option<usize>,
    pub tf_scaled: bool,
    /// Its significance as a target, where it is eligible.
    pub draw_sig: Option<Num>,
}

/// Sources by id, and the grids their significances stand in.
#[derive(Debug, Clone)]
pub struct Sources {
    pub infos: Vec<SourceInfo>,
    pub significance: SignificanceCfg,
    /// The eligible targets.
    pub draw_sources: Vec<(String, Num)>,
    /// The grid row of each timeframe that has a multiplier.
    pub tf_rows: TfMap<usize>,
}

/// The place of the first entry under a name, at or after `from`.
pub open spec fn entry_at<V>(entries: Seq<(String, V)>, name: Seq<char>, from: int) -> int
    decreases entries.len() - from,
{
    if from >= entries.len() || entries[from].0@ == name {
        from
    } else {
        entry_at(entries, name, from + 1)
    }
}

proof fn lemma_entry_at<V>(entries: Seq<(String, V)>, name: Seq<char>, from: int)
    requires
        0 <= from <= entries.len(),
    ensures
        from <= entry_at(entries, name, from) <= entries.len(),
    decreases entries.len() - from,
{
    if from < entries.len() && entries[from].0@ != name {
        lemma_entry_at(entries, name, from + 1);
    }
}

/// The place of an entry, or the list's length.
pub fn find_entry<V>(entries: &Vec<(String, V)>, name: &str) -> (r: usize)
    ensures
        r == entry_at(entries@, name@, 0),
        r <= entries@.len(),
{
    let mut i: usize = 0;
    while i < entries.len() && !str_eq(entries[i].0.as_str(), name)
        invariant
            i <= entries@.len(),
            entry_at(entries@, name@, i as int) == entry_at(entries@, name@, 0),
        decreases entries@.len() - i,
    {
        i = i + 1;
    }
    i
}

/// Some string of the list is this one.
pub open spec fn listed(list: Seq<String>, name: Seq<char>) -> bool {
    exists|i: int| 0 <= i < list.len() && (#[trigger] list[i])@ == name
}

fn is_listed(list: &Vec<String>, name: &str) -> (r: bool)
    ensures
        r == listed(list@, name@),
{
    let mut i: usize = 0;
    while i < list.len()
        invariant
            i <= list@.len(),
            forall|j: int| 0 <= j < i ==> (#[trigger] list@[j])@ != name@,
        decreases list@.len() - i,
    {
        if str_eq(list[i].as_str(), name) {
            return true;
        }
        i = i + 1;
    }
    false
}

/// The names of some sources.
pub open spec fn names_of(infos: Seq<SourceInfo>) -> Seq<Seq<char>> {
    Seq::new(infos.len(), |i: int| infos[i].name@)
}

/// The id of a name among some sources.
pub open spec fn id_named(infos: Seq<SourceInfo>, name: Seq<char>) -> u16 {
    names_of(infos).index_of(name) as u16
}

/// The facts of a source follow from the configuration.
pub open spec fn info_ok(s: Sources, info: SourceInfo) -> bool {
    let name = info.name@;
    let g = entry_at(s.significance.base@, name, 0);
    let d = entry_at(s.draw_sources@, name, 0);
    &&& info.grid == if g < s.significance.base@.len() {
        Some(g as usize)
    } else {
        None
    }
    &&& info.tf_scaled == listed(s.significance.tf_scaled@, name)
    &&& info.draw_sig == if d < s.draw_sources@.len() {
        Some(s.draw_sources@[d].1)
    } else {
        None
    }
}

/// The column of the bonus that a touch count earns among the first `n`
/// thresholds: that of the highest threshold not above it, the first of equal
/// ones; column 0 when it is below all.
pub open spec fn bonus_column(thresholds: Seq<i64>, touch: i64, n: nat) -> int
    decreases n,
{
    if n == 0 {
        0
    } else {
        let best = bonus_column(thresholds, touch, (n - 1) as nat);
        let t = thresholds[n - 1];
        if touch >= t && (best == 0 || t > thresholds[best - 1]) {
            n as int
        } else {
            best
        }
    }
}

/// The bonus a touch count earns is that of the highest threshold it reaches.
pub proof fn law_bonus_is_the_highest_reached(thresholds: Seq<i64>, touch: i64, n: nat)
    requires
        n <= thresholds.len(),
    ensures
        ({
            let c = bonus_column(thresholds, touch, n);
            &&& 0 <= c <= n
            &&& c > 0 ==> thresholds[c - 1] <= touch
            &&& forall|k: int|
                0 <= k < n && (#[trigger] thresholds[k]) <= touch ==> c > 0 && thresholds[k]
                    <= thresholds[c - 1]
        }),
    decreases n,
{
    if n > 0 {
        law_bonus_is_the_highest_reached(thresholds, touch, (n - 1) as nat);
    }
}

impl Sources {
    /// The grids have their cells, the rows are rows, no name occurs twice,
    /// every source's facts follow from the configuration, and every place
    /// fits an id.
    pub open spec fn wf(&self) -> bool {
        &&& self.significance.wf()
        &&& self.infos@.len() <= POOL_CAP
        &&& names_of(self.infos@).no_duplicates()
        &&& forall|i: int| 0 <= i < self.infos@.len() ==> info_ok(*self, #[trigger] self.infos@[i])
        &&& forall|tf: u16| #[trigger]
            self.tf_rows@.contains_key(tf) ==> self.tf_rows@[tf]
                <= self.significance.tf_mult@.len()
    }

    /// Only the sources themselves can differ.
    pub open spec fn same_tables(&self, o: Sources) -> bool {
        &&& self.significance == o.significance
        &&& self.draw_sources == o.draw_sources
        &&& self.tf_rows == o.tf_rows
    }

    /// The grid row of a source on a timeframe.
    pub open spec fn row(&self, source: u16, tf: u16) -> int {
        if self.infos@[source as int].tf_scaled && self.tf_rows@.contains_key(tf) {
            self.tf_rows@[tf] as int
        } else {
            0
        }
    }

    /// The grid of a source.
    pub open spec fn grid(&self, source: u16) -> SigGrid {
        match self.infos@[source as int].grid {
            Some(g) => self.significance.base@[g as int].1,
            None => self.significance.default_score,
        }
    }

    /// The significance of a level.
    pub open spec fn sig_of(&self, source: u16, tf: u16, touch: i64) -> Num {
        let bonuses = self.significance.touch_bonus@;
        self.grid(source).cells@[self.row(source, tf)]@[bonus_column(
            bonuses,
            touch,
            bonuses.len(),
        )]
    }

    /// The id of a source, given to it now if it has none.
    pub fn intern(&mut self, name: &str) -> (r: u16)
        requires
            old(self).wf(),
            has_room(names_of(old(self).infos@), name@),
        ensures
            final(self).wf(),
            final(self).same_tables(*old(self)),
            names_of(final(self).infos@) == interned(names_of(old(self).infos@), name@),
            forall|i: int|
                0 <= i < old(self).infos@.len() ==> #[trigger] final(self).infos@[i]
                    == old(self).infos@[i],
            r < final(self).infos@.len(),
            final(self).infos@[r as int].name@ == name@,
            r == id_named(final(self).infos@, name@),
    {
        let mut i: usize = 0;
        while i < self.infos.len()
            invariant
                *self == *old(self),
                self.wf(),
                i <= self.infos@.len(),
                forall|j: int| 0 <= j < i ==> #[trigger] names_of(self.infos@)[j] != name@,
            decreases self.infos@.len() - i,
        {
            assert(names_of(self.infos@)[i as int] == self.infos@[i as int].name@);
            if str_eq(self.infos[i].name.as_str(), name) {
                assert(names_of(self.infos@).contains(name@));
                assert(names_of(self.infos@).index_of(name@) == i);
                return i as u16;
            }
            i = i + 1;
        }
        let ghost before = self.infos@;
        let g: usize = find_entry(&self.significance.base, name);
        let d: usize = find_entry(&self.draw_sources, name);
        let info = SourceInfo {
            name: name.to_owned(),
            grid: if g < self.significance.base.len() {
                Some(g)
            } else {
                None
            },
            tf_scaled: is_listed(&self.significance.tf_scaled, name),
            draw_sig: if d < self.draw_sources.len() {
                Some(self.draw_sources[d].1)
            } else {
                None
            },
        };
        let id: usize = self.infos.len();
        self.infos.push(info);
        proof {
            let a = names_of(before);
            let b = names_of(self.infos@);
            assert(b =~= a.push(name@));
            assert forall|x: int, y: int| 0 <= x < b.len() && 0 <= y < b.len() && x != y implies b[x] != b[y] by {
                if x < id && y < id {
                    assert(a[x] != a[y]);
                } else if x < id {
                    assert(a[x] != name@);
                } else {
                    assert(a[y] != name@);
                }
            }
            assert(b[id as int] == name@);
            assert(b.contains(name@));
            assert(b.index_of(name@) == id);
            assert forall|k: int| 0 <= k < self.infos@.len() implies info_ok(*self, #[trigger] self.infos@[k]) by {
                if k < id {
                    assert(info_ok(*old(self), before[k]));
                }
            }
        }
        id as u16
    }

    /// The significance of a level: its source's base, scaled by the
    /// timeframe where the source is, plus the touch bonus.
    pub fn significance(&self, source: u16, tf: u16, touch: i64) -> (r: Num)
        requires
            self.wf(),
            source < self.infos@.len(),
        ensures
            r == self.sig_of(source, tf, touch),
    {
        let info = &self.infos[source as usize];
        proof {
            assert(info_ok(*self, self.infos@[source as int]));
            lemma_entry_at(self.significance.base@, info.name@, 0);
        }
        let row: usize = if info.tf_scaled {
            match self.tf_rows.get(tf) {
                Some(k) => *k,
                None => 0,
            }
        } else {
            0
        };
        let mut col: usize = 0;
        let mut i: usize = 0;
        let bonuses = &self.significance.touch_bonus;
        while i < bonuses.len()
            invariant
                i <= bonuses@.len(),
                col == bonus_column(bonuses@, touch, i as nat),
                0 <= col <= i,
            decreases bonuses@.len() - i,
        {
            let t: i64 = bonuses[i];
            if touch >= t && (col == 0 || t > bonuses[col - 1]) {
                col = i + 1;
            }
            i = i + 1;
        }
        match info.grid {
            Some(g) => {
                assert(self.significance.base@[g as int].1.wf(
                    self.significance.tf_mult@.len() as int,
                    bonuses@.len() as int,
                ));
                self.significance.base[g].1.cells[row][col]
            },
            None => self.significance.default_score.cells[row][col],
        }
    }

    /// The name of a source.
    pub fn name(&self, source: u16) -> (r: &str)
        requires
            source < self.infos@.len(),
        ensures
            r@ == self.infos@[source as int].name@,
    {
        self.infos[source as usize].name.as_str()
    }
}

/// A level's significance is read from its source's own grid, or the default
/// one where the source has none; from the row of its timeframe where the
/// source scales with timeframes, or the first row; at the column of the
/// highest bonus its touches reach.
pub proof fn law_significance_is_read_from_the_grid(
    s: Sources,
    source: u16,
    tf: u16,
    touch: i64,
    col: int,
)
    requires
        0 <= col <= s.significance.touch_bonus@.len(),
        col > 0 ==> touch >= s.significance.touch_bonus@[col - 1],
        forall|i: int|
            0 <= i < s.significance.touch_bonus@.len() && touch >= (
            #[trigger] s.significance.touch_bonus@[i]) ==> col > 0
                && s.significance.touch_bonus@[i] <= s.significance.touch_bonus@[col - 1] && (i
                < col - 1 ==> s.significance.touch_bonus@[i] < s.significance.touch_bonus@[col
                - 1]),
    ensures
        ({
            let info = s.infos@[source as int];
            let grid = if info.grid is Some {
                s.significance.base@[info.grid->0 as int].1
            } else {
                s.significance.default_score
            };
            let row: int = if info.tf_scaled && s.tf_rows@.contains_key(tf) {
                s.tf_rows@[tf] as int
            } else {
                0
            };
            s.sig_of(source, tf, touch) == grid.cells@[row]@[col]
        }),
{
    let t = s.significance.touch_bonus@;
    lemma_bonus_column(t, touch, t.len());
    let b = bonus_column(t, touch, t.len());
    if b > 0 {
        assert(touch >= t[b - 1]);
    }
    if col > 0 {
        assert(touch >= t[col - 1]);
    }
}

proof fn lemma_bonus_column(t: Seq<i64>, touch: i64, n: nat)
    requires
        n <= t.len(),
    ensures
        ({
            let b = bonus_column(t, touch, n);
            &&& 0 <= b <= n
            &&& b > 0 ==> touch >= t[b - 1]
            &&& forall|i: int|
                0 <= i < n && touch >= (#[trigger] t[i]) ==> b > 0 && t[i] <= t[b - 1] && (i < b - 1
                    ==> t[i] < t[b - 1])
        }),
    decreases n,
{
    if n > 0 {
        lemma_bonus_column(t, touch, (n - 1) as nat);
    }
}

} // verus!
