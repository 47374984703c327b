//! Rows to append to a candle file: what is accepted, and what is refused.
use vstd::prelude::*;
use vstd::string::*;
use crate::key::Num;
use crate::text::{decimal_i64, decimal_text, str_eq};

verus! {

/// One row to append.
#[derive(Debug, Clone, Copy, PartialEq, Eq, Structural)]
pub struct CandleRow {
    /// Microseconds since the epoch.
    pub timestamp_us: i64,
    pub open: Num,
    pub high: Num,
    pub low: Num,
    pub close: Num,
    pub volume: Num,
}

/// Why rows are refused.
#[derive(Debug, Clone, Copy, PartialEq, Eq, Structural)]
pub enum AppendError {
    /// A row does not come after the one before it.
    NotIncreasing { later: i64, earlier: i64 },
    /// The first row does not come after what the file holds.
    NotAfter { first: i64, last: i64 },
}

/// The times of rows.
pub open spec fn times(rows: Seq<CandleRow>) -> Seq<i64> {
    Seq::new(rows.len(), |i: int| rows[i].timestamp_us)
}

/// Times strictly increase.
pub open spec fn increasing(t: Seq<i64>) -> bool {
    forall|i: int, j: int| 0 <= i < j < t.len() ==> #[trigger] t[i] < #[trigger] t[j]
}

/// The first row, at or after `from`, that does not come after the one before
/// it.
pub open spec fn first_drop(t: Seq<i64>, from: int) -> int
    decreases t.len() - from,
{
    if from >= t.len() || t[from] <= t[from - 1] {
        from
    } else {
        first_drop(t, from + 1)
    }
}

/// Rows must increase strictly; the first that does not is named.
pub fn check_rows(rows: &Vec<CandleRow>) -> (r: Result<(), AppendError>)
    ensures
        r is Ok <==> increasing(times(rows@)),
        r matches Err(e) ==> ({
            let i = first_drop(times(rows@), 1);
            &&& i < rows@.len()
            &&& e == (AppendError::NotIncreasing {
                later: rows@[i].timestamp_us,
                earlier: rows@[i - 1].timestamp_us,
            })
        }),
{
    let mut i: usize = 1;
    while i < rows.len()
        invariant
            1 <= i,
            i <= rows@.len() || rows@.len() == 0,
            first_drop(times(rows@), i as int) == first_drop(times(rows@), 1),
            forall|a: int, b: int|
                0 <= a < b < i && b < rows@.len() ==> #[trigger] times(rows@)[a]
                    < #[trigger] times(rows@)[b],
        decreases rows@.len() - i,
    {
        if rows[i].timestamp_us <= rows[i - 1].timestamp_us {
            proof {
                let t = times(rows@);
                assert(t[i - 1] >= t[i as int]);
            }
            return Err(
                AppendError::NotIncreasing {
                    later: rows[i].timestamp_us,
                    earlier: rows[i - 1].timestamp_us,
                },
            );
        }
        proof {
            let t = times(rows@);
            assert forall|a: int, b: int| 0 <= a < b < i + 1 && b < rows@.len() implies #[trigger] t[a]
                < #[trigger] t[b] by {
                if b == i && a < i - 1 {
                    assert(t[a] < t[i - 1]);
                }
            }
        }
        i = i + 1;
    }
    Ok(())
}

/// Whether a row may follow the last time a file holds.
pub open spec fn may_follow(first: i64, existing_max: Option<i64>) -> Result<(), AppendError> {
    match existing_max {
        Some(m) => if first <= m {
            Err(AppendError::NotAfter { first, last: m })
        } else {
            Ok(())
        },
        None => Ok(()),
    }
}

/// The first row must come after the last time the file holds.
pub fn check_after(rows: &Vec<CandleRow>, existing_max: Option<i64>) -> (r: Result<(), AppendError>)
    requires
        rows@.len() > 0,
    ensures
        r == may_follow(rows@[0].timestamp_us, existing_max),
{
    match existing_max {
        Some(m) => if rows[0].timestamp_us <= m {
            Err(AppendError::NotAfter { first: rows[0].timestamp_us, last: m })
        } else {
            Ok(())
        },
        None => Ok(()),
    }
}

impl AppendError {
    /// What a refusal says.
    pub open spec fn says(self) -> Seq<char> {
        match self {
            AppendError::NotIncreasing { later, earlier } =>
                "append_row_group: input rows not strictly increasing ("@ + decimal_text(
                    later as int,
                ) + " <= "@ + decimal_text(earlier as int) + ")"@,
            AppendError::NotAfter { first, last } =>
                "append_row_group: first input row ts="@ + decimal_text(first as int)
                    + " not greater than existing max ts="@ + decimal_text(last as int),
        }
    }

    /// What a refusal says.
    pub fn message(&self) -> (r: String)
        ensures
            r@ == self.says(),
    {
        let mut out = String::new();
        match self {
            AppendError::NotIncreasing { later, earlier } => {
                out.append("append_row_group: input rows not strictly increasing (");
                out.append(decimal_i64(*later).as_str());
                out.append(" <= ");
                out.append(decimal_i64(*earlier).as_str());
                out.append(")");
            },
            AppendError::NotAfter { first, last } => {
                out.append("append_row_group: first input row ts=");
                out.append(decimal_i64(*first).as_str());
                out.append(" not greater than existing max ts=");
                out.append(decimal_i64(*last).as_str());
            },
        }
        proof {
            assert(out@ =~= self.says());
        }
        out
    }
}

/// The greatest of some times.
pub open spec fn greatest(t: Seq<i64>) -> Option<i64>
    decreases t.len(),
{
    if t.len() == 0 {
        None
    } else {
        match greatest(t.drop_last()) {
            None => Some(t.last()),
            Some(m) => Some(
                if t.last() > m {
                    t.last()
                } else {
                    m
                },
            ),
        }
    }
}

/// The greatest of some times.
pub fn latest(t: &Vec<i64>) -> (r: Option<i64>)
    ensures
        r == greatest(t@),
        r is None <==> t@.len() == 0,
        r matches Some(m) ==> t@.contains(m) && forall|i: int|
            0 <= i < t@.len() ==> #[trigger] t@[i] <= m,
{
    let mut best: Option<i64> = None;
    let mut i: usize = 0;
    while i < t.len()
        invariant
            i <= t@.len(),
            best == greatest(t@.take(i as int)),
            best is None <==> i == 0,
            best matches Some(m) ==> t@.take(i as int).contains(m) && forall|k: int|
                0 <= k < i ==> #[trigger] t@[k] <= m,
        decreases t@.len() - i,
    {
        let v: i64 = t[i];
        let ghost had = best;
        proof {
            assert(t@.take(i + 1).drop_last() =~= t@.take(i as int));
            assert(t@.take(i + 1).last() == v);
        }
        best = match best {
            None => Some(v),
            Some(m) => Some(
                if v > m {
                    v
                } else {
                    m
                },
            ),
        };
        proof {
            let m = best->0;
            let taken = t@.take(i + 1);
            if m == v {
                assert(taken[i as int] == m);
            } else {
                let was = t@.take(i as int);
                let p = choose|p: int| 0 <= p < was.len() && was[p] == m;
                assert(taken[p] == m);
            }
        }
        i = i + 1;
    }
    proof {
        assert(t@.take(t@.len() as int) =~= t@);
    }
    best
}

/// The values that are there, among the first `n`.
pub open spec fn present(stats: Seq<Option<i64>>, n: nat) -> Seq<i64>
    decreases n,
{
    if n == 0 {
        Seq::empty()
    } else {
        match stats[n - 1] {
            Some(v) => present(stats, (n - 1) as nat).push(v),
            None => present(stats, (n - 1) as nat),
        }
    }
}

/// The last time of a file, from its row groups' greatest times where their
/// statistics tell them, and from the last row group's own where they do not.
pub open spec fn last_time(stats: Seq<Option<i64>>, last_group: Seq<i64>) -> Option<i64> {
    let told = present(stats, stats.len());
    if stats.len() == 0 {
        None
    } else if stats.last() is None {
        greatest(told + last_group)
    } else {
        greatest(told)
    }
}

/// The last time of a file. `stats` holds each row group's greatest time, as
/// far as its statistics tell; where the last row group's do not, `last_group`
/// holds the times in it. A file without row groups has no last time.
pub fn last_timestamp_us(stats: &Vec<Option<i64>>, last_group: &Vec<i64>) -> (r: Option<i64>)
    ensures
        r == last_time(stats@, last_group@),
{
    if stats.len() == 0 {
        return None;
    }
    let mut list: Vec<i64> = Vec::new();
    let mut i: usize = 0;
    while i < stats.len()
        invariant
            i <= stats@.len(),
            list@ == present(stats@, i as nat),
        decreases stats@.len() - i,
    {
        if let Some(v) = stats[i] {
            list.push(v);
        }
        i = i + 1;
    }
    if stats[stats.len() - 1].is_none() {
        let ghost told = list@;
        let mut k: usize = 0;
        proof {
            assert(told + last_group@.take(0) =~= told);
        }
        while k < last_group.len()
            invariant
                k <= last_group@.len(),
                list@ == told + last_group@.take(k as int),
            decreases last_group@.len() - k,
        {
            list.push(last_group[k]);
            k = k + 1;
            proof {
                assert(list@ =~= told + last_group@.take(k as int));
            }
        }
        proof {
            assert(last_group@.take(k as int) =~= last_group@);
        }
    }
    latest(&list)
}

proof fn lemma_greatest(t: Seq<i64>)
    ensures
        t.len() > 0 ==> greatest(t) is Some && t.contains(greatest(t)->0),
        forall|i: int| 0 <= i < t.len() ==> #[trigger] t[i] <= greatest(t)->0,
    decreases t.len(),
{
    if t.len() > 0 {
        let d = t.drop_last();
        lemma_greatest(d);
        let m = greatest(t)->0;
        assert(t[t.len() - 1] == t.last());
        assert forall|i: int| 0 <= i < t.len() implies #[trigger] t[i] <= m by {
            if i < d.len() {
                assert(d[i] == t[i]);
            }
        }
        if d.len() > 0 && m != t.last() {
            let p = choose|p: int| 0 <= p < d.len() && d[p] == m;
            assert(t[p] == m);
        }
    }
}

proof fn lemma_present(stats: Seq<Option<i64>>, n: nat)
    requires
        n <= stats.len(),
    ensures
        forall|k: int|
            0 <= k < present(stats, n).len() ==> exists|i: int|
                0 <= i < n && #[trigger] stats[i] == Some(#[trigger] present(stats, n)[k]),
    decreases n,
{
    if n > 0 {
        let rest = present(stats, (n - 1) as nat);
        lemma_present(stats, (n - 1) as nat);
        assert forall|k: int| 0 <= k < present(stats, n).len() implies exists|i: int|
            0 <= i < n && #[trigger] stats[i] == Some(#[trigger] present(stats, n)[k]) by {
            if k < rest.len() {
                assert(present(stats, n)[k] == rest[k]);
                let i = choose|i: int| 0 <= i < n - 1 && #[trigger] stats[i] == Some(rest[k]);
                assert(0 <= i < n && stats[i] == Some(present(stats, n)[k]));
            } else {
                assert(stats[n - 1] == Some(present(stats, n)[k]));
            }
        }
    }
}

/// However many row groups lack statistics, the last time of a file whose times
/// climb from row group to row group is the greatest there is.
pub proof fn law_the_last_time_is_found(groups: Seq<Seq<i64>>, stats: Seq<Option<i64>>)
    requires
        groups.len() > 0,
        stats.len() == groups.len(),
        forall|g: int| 0 <= g < groups.len() ==> (#[trigger] groups[g]).len() > 0,
        forall|g: int, h: int, i: int, j: int|
            0 <= g < h < groups.len() && 0 <= i < groups[g].len() && 0 <= j < groups[h].len()
                ==> #[trigger] groups[g][i] < #[trigger] groups[h][j],
        forall|g: int|
            0 <= g < groups.len() && (#[trigger] stats[g]) is Some ==> stats[g] == greatest(
                groups[g],
            ),
    ensures
        last_time(stats, groups.last()) == greatest(groups.last()),
        last_time(stats, groups.last()) is Some,
        forall|g: int, i: int|
            0 <= g < groups.len() && 0 <= i < groups[g].len() ==> #[trigger] groups[g][i]
                <= last_time(stats, groups.last())->0,
{
    let n = groups.len();
    let last = groups.last();
    let told = present(stats, n);
    let seen = if stats.last() is None {
        told + last
    } else {
        told
    };
    lemma_greatest(last);
    lemma_greatest(seen);
    lemma_present(stats, n);
    let m = greatest(last)->0;
    let p = choose|p: int| 0 <= p < last.len() && last[p] == m;
    assert(groups[n - 1][p] == m);
    assert forall|g: int, i: int| 0 <= g < n && 0 <= i < groups[g].len() implies #[trigger] groups[g][i]
        <= m by {
        if g == n - 1 {
            assert(last[i] <= m);
        } else {
            assert(groups[g][i] < groups[n - 1][p]);
        }
    }
    assert forall|k: int| 0 <= k < told.len() implies #[trigger] told[k] <= m by {
        let g = choose|g: int| 0 <= g < n && #[trigger] stats[g] == Some(told[k]);
        lemma_greatest(groups[g]);
        let i = choose|i: int| 0 <= i < groups[g].len() && groups[g][i] == told[k];
        assert(groups[g][i] <= m);
    }
    assert forall|k: int| 0 <= k < seen.len() implies #[trigger] seen[k] <= m by {
        if k < told.len() {
            assert(told[k] <= m);
        } else {
            assert(seen[k] == last[k - told.len()]);
        }
    }
    assert(seen.contains(m)) by {
        if stats.last() is None {
            assert(seen[told.len() + p] == m);
        } else {
            assert(stats[n - 1] == Some(m));
            assert(told[told.len() - 1] == m);
        }
    }
    let at = choose|at: int| 0 <= at < seen.len() && seen[at] == m;
    assert(seen[at] <= greatest(seen)->0);
    let top = choose|top: int| 0 <= top < seen.len() && seen[top] == greatest(seen)->0;
    assert(seen[top] <= m);
}

/// What an accepted append leaves is again strictly increasing.
pub proof fn law_appending_keeps_times_increasing(held: Seq<i64>, rows: Seq<CandleRow>)
    requires
        increasing(held),
        increasing(times(rows)),
        rows.len() > 0,
        greatest(held) matches Some(m) ==> m < rows[0].timestamp_us,
    ensures
        increasing(held + times(rows)),
        greatest(held + times(rows)) == Some(rows.last().timestamp_us),
{
    let all = held + times(rows);
    lemma_greatest_of_increasing(held);
    assert forall|i: int, j: int| 0 <= i < j < all.len() implies #[trigger] all[i]
        < #[trigger] all[j] by {
        let n = held.len();
        if i < n && j >= n {
            assert(held[i] <= held.last()) by {
                if i < n - 1 {
                    assert(held[i] < held[n - 1]);
                }
            }
            assert(times(rows)[0] <= times(rows)[j - n]) by {
                if j > n {
                    assert(times(rows)[0] < times(rows)[j - n]);
                }
            }
        } else if i >= n {
            assert(times(rows)[i - n] < times(rows)[j - n]);
        } else {
            assert(held[i] < held[j]);
        }
    }
    lemma_greatest_of_increasing(all);
    assert(all.last() == rows.last().timestamp_us);
}

proof fn lemma_greatest_of_increasing(t: Seq<i64>)
    requires
        increasing(t),
    ensures
        t.len() > 0 ==> greatest(t) == Some(t.last()),
    decreases t.len(),
{
    if t.len() > 0 {
        let d = t.drop_last();
        assert(increasing(d)) by {
            assert forall|i: int, j: int| 0 <= i < j < d.len() implies #[trigger] d[i]
                < #[trigger] d[j] by {
                assert(t[i] < t[j]);
            }
        }
        lemma_greatest_of_increasing(d);
        if d.len() > 0 {
            assert(t[t.len() - 2] < t[t.len() - 1]);
        }
    }
}

// ─── Schemas ────────────────────────────────────────────────────────────────

/// What a column holds.
#[derive(Debug, Clone, Copy, PartialEq, Eq, Structural)]
pub enum ColumnKind {
    /// Microseconds since the epoch, without a time zone.
    TimestampMicros,
    Float64,
    /// Anything else.
    Other,
}

/// A column of a file.
#[derive(Debug, Clone)]
pub struct FieldSpec {
    pub name: String,
    pub kind: ColumnKind,
}

/// A column of a file, mathematically.
pub open spec fn field_views(list: Seq<FieldSpec>) -> Seq<(Seq<char>, ColumnKind)> {
    Seq::new(list.len(), |i: int| (list[i].name@, list[i].kind))
}

/// The columns of a candle file as it is written.
pub open spec fn collector_fields() -> Seq<(Seq<char>, ColumnKind)> {
    seq![
        ("timestamp"@, ColumnKind::TimestampMicros),
        ("open"@, ColumnKind::Float64),
        ("high"@, ColumnKind::Float64),
        ("low"@, ColumnKind::Float64),
        ("close"@, ColumnKind::Float64),
        ("volume"@, ColumnKind::Float64),
    ]
}

/// The columns of a candle file as it is written.
pub fn collector_schema() -> (r: Vec<FieldSpec>)
    ensures
        field_views(r@) == collector_fields(),
{
    let mut out: Vec<FieldSpec> = Vec::new();
    out.push(FieldSpec { name: "timestamp".to_owned(), kind: ColumnKind::TimestampMicros });
    out.push(FieldSpec { name: "open".to_owned(), kind: ColumnKind::Float64 });
    out.push(FieldSpec { name: "high".to_owned(), kind: ColumnKind::Float64 });
    out.push(FieldSpec { name: "low".to_owned(), kind: ColumnKind::Float64 });
    out.push(FieldSpec { name: "close".to_owned(), kind: ColumnKind::Float64 });
    out.push(FieldSpec { name: "volume".to_owned(), kind: ColumnKind::Float64 });
    proof {
        assert(field_views(out@) =~= collector_fields());
    }
    out
}

/// Whether a file's columns are those that candle files are written with: only
/// to such a file is appended.
pub fn schema_compatible(fields: &Vec<FieldSpec>) -> (r: bool)
    ensures
        r == (field_views(fields@) == collector_fields()),
{
    let wanted = collector_schema();
    if fields.len() != wanted.len() {
        proof {
            assert(field_views(fields@).len() != collector_fields().len());
        }
        return false;
    }
    let mut i: usize = 0;
    while i < wanted.len()
        invariant
            i <= wanted@.len(),
            fields@.len() == wanted@.len(),
            field_views(wanted@) == collector_fields(),
            forall|k: int|
                0 <= k < i ==> #[trigger] field_views(fields@)[k] == collector_fields()[k],
        decreases wanted@.len() - i,
    {
        proof {
            assert(field_views(wanted@)[i as int] == collector_fields()[i as int]);
        }
        if !str_eq(fields[i].name.as_str(), wanted[i].name.as_str()) || fields[i].kind
            != wanted[i].kind {
            proof {
                assert(field_views(fields@)[i as int] != collector_fields()[i as int]);
            }
            return false;
        }
        i = i + 1;
    }
    proof {
        assert(field_views(fields@).len() == field_views(wanted@).len());
        assert(field_views(fields@) =~= collector_fields());
    }
    true
}

} // verus!
