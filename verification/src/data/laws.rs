//! What is read of candle and tick files, in names, times and rows alone.
use vstd::prelude::*;
use crate::clock::Stamp;
use crate::data::columns::{
    aliases, chosen, col_of, column_in, field_at, instant_of, kept_groups, missing_bar_column,
    native, Column, GroupStats, Unit,
};
use crate::data::rows::{first_drop, may_follow, present, AppendError};
use crate::data::series::{
    by_time, candle_keys, first_of, merged_from, ticks_by_time, tick_keys, trimmed,
};
use crate::data::sources::{
    asset_of, best_of, first_there, has_path, is_shard, path_of, source_files, sources_in,
    stem_files, tick_places, tick_stem_list, with_files, with_path, with_shards, FoundFile,
    Listing, SourceView,
};
use crate::models::{Candle, Tick};
use crate::sort::{before, law_a_stable_order_exists, lemma_filtered, order_of};
use crate::text::{
    law_a_suffix_is_what_a_text_ends_with, lower, occurs, occurs_at, texts_of, without_suffix,
};

verus! {

// ─── Series ─────────────────────────────────────────────────────────────────

/// A file's candles are those from the first instant to the last, both
/// included, in time order; candles of one instant keep their order.
pub proof fn law_a_file_keeps_the_candles_in_range(
    rows: Seq<Candle>,
    start: Option<Stamp>,
    end: Option<Stamp>,
    c: Candle,
)
    requires
        rows.len() <= usize::MAX,
    ensures
        ({
            let r = by_time(trimmed(rows, start, end));
            &&& r.contains(c) <==> rows.contains(c) && (start is Some ==> c.timestamp >= start->0)
                && (end is Some ==> c.timestamp <= end->0)
            &&& r.len() == trimmed(rows, start, end).len()
            &&& forall|i: int, j: int|
                0 <= i < j < r.len() ==> (#[trigger] r[i]).timestamp <= (#[trigger] r[j]).timestamp
        }),
{
    let p = |x: Candle| crate::data::series::in_range(x.timestamp, start, end);
    let list = trimmed(rows, start, end);
    assert(list == rows.filter(p));
    lemma_filtered(rows, p, c);
    lemma_shorter(rows, p);
    let keys = candle_keys(list);
    law_a_stable_order_exists(keys);
    let order = order_of(keys);
    let r = by_time(list);
    if r.contains(c) {
        let i = choose|i: int| 0 <= i < r.len() && r[i] == c;
        assert(list[order[i] as int] == c);
    }
    if list.contains(c) {
        let k = choose|k: int| 0 <= k < list.len() && list[k] == c;
        assert(order.contains(k as usize));
        let i = choose|i: int| 0 <= i < order.len() && order[i] == k as usize;
        assert(r[i] == c);
    }
    assert forall|i: int, j: int| 0 <= i < j < r.len() implies (#[trigger] r[i]).timestamp <= (
    #[trigger] r[j]).timestamp by {
        assert(before(keys, order[i] as int, order[j] as int));
    }
}

proof fn lemma_shorter<A>(s: Seq<A>, p: spec_fn(A) -> bool)
    ensures
        s.filter(p).len() <= s.len(),
    decreases s.len(),
{
    reveal(Seq::filter);
    if s.len() > 0 {
        lemma_shorter(s.drop_last(), p);
    }
}

/// A file's prints are kept and ordered as its candles are.
pub proof fn law_a_file_keeps_the_prints_in_range(
    rows: Seq<Tick>,
    start: Option<Stamp>,
    end: Option<Stamp>,
    t: Tick,
)
    requires
        rows.len() <= usize::MAX,
    ensures
        ({
            let p = |x: Tick| crate::data::series::in_range(x.timestamp, start, end);
            let r = ticks_by_time(rows.filter(p));
            &&& r.contains(t) <==> rows.contains(t) && (start is Some ==> t.timestamp >= start->0)
                && (end is Some ==> t.timestamp <= end->0)
            &&& forall|i: int, j: int|
                0 <= i < j < r.len() ==> (#[trigger] r[i]).timestamp <= (#[trigger] r[j]).timestamp
        }),
{
    let p = |x: Tick| crate::data::series::in_range(x.timestamp, start, end);
    let list = rows.filter(p);
    lemma_filtered(rows, p, t);
    lemma_shorter(rows, p);
    let keys = tick_keys(list);
    law_a_stable_order_exists(keys);
    let order = order_of(keys);
    let r = ticks_by_time(list);
    if r.contains(t) {
        let i = choose|i: int| 0 <= i < r.len() && r[i] == t;
        assert(list[order[i] as int] == t);
    }
    if list.contains(t) {
        let k = choose|k: int| 0 <= k < list.len() && list[k] == t;
        assert(order.contains(k as usize));
        let i = choose|i: int| 0 <= i < order.len() && order[i] == k as usize;
        assert(r[i] == t);
    }
    assert forall|i: int, j: int| 0 <= i < j < r.len() implies (#[trigger] r[i]).timestamp <= (
    #[trigger] r[j]).timestamp by {
        assert(before(keys, order[i] as int, order[j] as int));
    }
}

/// A merged series has one candle for every instant of its sources: the first
/// that is listed. Its instants climb.
pub proof fn law_the_first_listed_candle_of_an_instant_is_kept(
    list: Seq<Candle>,
    r: Seq<Candle>,
    k: int,
)
    requires
        merged_from(list, r),
        0 <= k < list.len(),
        forall|j: int| 0 <= j < k ==> (#[trigger] list[j]).timestamp != list[k].timestamp,
    ensures
        r.contains(list[k]),
        forall|i: int, j: int|
            0 <= i < j < r.len() ==> (#[trigger] r[i]).timestamp < (#[trigger] r[j]).timestamp,
        forall|i: int|
            0 <= i < r.len() && (#[trigger] r[i]).timestamp == list[k].timestamp ==> r[i]
                == list[k],
{
    lemma_first_of(list, list[k].timestamp, 0, k);
    let c = list[k];
    let i = choose|i: int|
        0 <= i < r.len() && (#[trigger] r[i]).timestamp == (#[trigger] list[k]).timestamp;
    assert(r[i] == list[first_of(list, r[i].timestamp, 0)]);
    assert(r[i] == c);
}

proof fn lemma_first_of(list: Seq<Candle>, at: Stamp, from: int, k: int)
    requires
        0 <= from <= k < list.len(),
        list[k].timestamp == at,
        forall|j: int| 0 <= j < k ==> (#[trigger] list[j]).timestamp != at,
    ensures
        first_of(list, at, from) == k,
    decreases k - from,
{
    if from < k {
        assert(list[from].timestamp != at);
        lemma_first_of(list, at, from + 1, k);
    }
}

// ─── Names ──────────────────────────────────────────────────────────────────

/// An asset without sources of its own is read from its own name as it is, and
/// one with them from those.
pub proof fn law_an_asset_is_its_own_source(
    map: Map<Seq<char>, Seq<SourceView>>,
    asset: Seq<char>,
)
    ensures
        map.contains_key(asset) ==> sources_in(map, asset) == map[asset],
        !map.contains_key(asset) ==> {
            let s = sources_in(map, asset);
            &&& s.len() == 1 && s[0].stem == asset
            &&& s[0].scale == 0x3ff0_0000_0000_0000 && s[0].offset == 0
        },
{
}

/// A name is joined to its directory by one slash; an absolute name stands
/// alone, and so does one without a directory.
pub proof fn law_one_slash_joins_a_path(dir: Seq<char>, name: Seq<char>)
    ensures
        ({
            let p = path_of(dir, name);
            let alone = dir.len() == 0 || (name.len() > 0 && name[0] == '/');
            &&& alone ==> p == name
            &&& !alone && dir[dir.len() - 1] == '/' ==> p == dir + name
            &&& !alone && dir[dir.len() - 1] != '/' ==> p == dir + seq!['/'] + name
        }),
{
    reveal_strlit("/");
    assert("/"@ =~= seq!['/']);
}

/// A shard of a stem is named by the stem, the interval and something of its
/// own, each behind an underscore, and the extension.
pub proof fn law_a_shard_has_a_name_of_its_own(
    name: Seq<char>,
    stem: Seq<char>,
    interval: Seq<char>,
)
    ensures
        is_shard(name, stem, interval) <==> exists|own: Seq<char>|
            name == #[trigger] shard_name(stem, interval, own),
{
    let prefix = stem + "_"@ + interval + "_"@;
    if is_shard(name, stem, interval) {
        let s = without_suffix(name, ".parquet"@)->0;
        law_a_suffix_is_what_a_text_ends_with(name, s, ".parquet"@);
        let own = s.skip(prefix.len() as int);
        assert(s.subrange(0, prefix.len() as int) == prefix);
        assert(s =~= prefix + own);
        assert(name == shard_name(stem, interval, own));
    }
    if exists|own: Seq<char>| name == #[trigger] shard_name(stem, interval, own) {
        let own = choose|own: Seq<char>| name == #[trigger] shard_name(stem, interval, own);
        let s = prefix + own;
        law_a_suffix_is_what_a_text_ends_with(name, s, ".parquet"@);
        assert(s.subrange(0, prefix.len() as int) =~= prefix);
        assert(occurs_at(s, prefix, 0));
    }
}

/// The name of a shard.
pub open spec fn shard_name(stem: Seq<char>, interval: Seq<char>, own: Seq<char>) -> Seq<char> {
    stem + "_"@ + interval + "_"@ + own + ".parquet"@
}

/// A stem's files are its main file in every directory that has it and its
/// shards in every listing, and no others.
pub proof fn law_a_stems_files_are_its_main_and_its_shards(
    listings: Seq<Listing>,
    stem: Seq<char>,
    interval: Seq<char>,
    n: nat,
    p: Seq<char>,
)
    requires
        n <= listings.len(),
    ensures
        stem_files(listings, stem, interval, n).contains(p) <==> exists|l: int|
            0 <= l < n && #[trigger] offers(listings[l], stem, interval, p),
    decreases n,
{
    if n > 0 {
        law_a_stems_files_are_its_main_and_its_shards(
            listings,
            stem,
            interval,
            (n - 1) as nat,
            p,
        );
        let rest = stem_files(listings, stem, interval, (n - 1) as nat);
        let l = listings[n - 1];
        let main = path_of(l.dir@, stem + "_"@ + interval + ".parquet"@);
        let with_main = if l.has_main {
            with_path(rest, main)
        } else {
            rest
        };
        lemma_with_path(rest, main, p);
        lemma_with_shards(with_main, l, stem, interval, l.names@.len(), p);
        if offers(l, stem, interval, p) {
            assert(offers(listings[n - 1], stem, interval, p));
        }
    }
}

/// A directory holds a path of a stem: its main file, or one of its shards.
pub open spec fn offers(l: Listing, stem: Seq<char>, interval: Seq<char>, p: Seq<char>) -> bool {
    ||| l.has_main && p == path_of(l.dir@, stem + "_"@ + interval + ".parquet"@)
    ||| exists|i: int|
        0 <= i < l.names@.len() && is_shard((#[trigger] l.names@[i])@, stem, interval) && p
            == path_of(l.dir@, l.names@[i]@)
}

proof fn lemma_with_path(paths: Seq<Seq<char>>, q: Seq<char>, p: Seq<char>)
    ensures
        with_path(paths, q).contains(p) <==> paths.contains(p) || p == q,
{
    let after = with_path(paths, q);
    if !paths.contains(q) {
        assert(after.last() == q);
        if paths.contains(p) {
            let i = choose|i: int| 0 <= i < paths.len() && paths[i] == p;
            assert(after[i] == p);
        }
    }
}

proof fn lemma_with_shards(
    paths: Seq<Seq<char>>,
    l: Listing,
    stem: Seq<char>,
    interval: Seq<char>,
    n: nat,
    p: Seq<char>,
)
    requires
        n <= l.names@.len(),
    ensures
        with_shards(paths, l, stem, interval, n).contains(p) <==> paths.contains(p) || exists|i: int|
            0 <= i < n && is_shard((#[trigger] l.names@[i])@, stem, interval) && p == path_of(
                l.dir@,
                l.names@[i]@,
            ),
    decreases n,
{
    if n > 0 {
        lemma_with_shards(paths, l, stem, interval, (n - 1) as nat, p);
        let rest = with_shards(paths, l, stem, interval, (n - 1) as nat);
        let name = l.names@[n - 1];
        if is_shard(name@, stem, interval) {
            lemma_with_path(rest, path_of(l.dir@, name@), p);
        }
    }
}

/// A file that several sources list is read as the first one's.
pub proof fn law_a_file_belongs_to_its_first_source(
    paths: Seq<Vec<String>>,
    n: nat,
    s: int,
    p: Seq<char>,
)
    requires
        0 <= s < n <= paths.len(),
        texts_of(paths[s]@).contains(p),
        forall|t: int| 0 <= t < s ==> !texts_of((#[trigger] paths[t])@).contains(p),
    ensures
        source_files(paths, n).contains((s, p)),
        forall|i: int|
            0 <= i < source_files(paths, n).len() && (#[trigger] source_files(paths, n)[i]).1 == p
                ==> source_files(paths, n)[i].0 == s,
    decreases n,
{
    let rest = source_files(paths, (n - 1) as nat);
    let mine = texts_of(paths[n - 1]@);
    if s < n - 1 {
        law_a_file_belongs_to_its_first_source(paths, (n - 1) as nat, s, p);
        let i = choose|i: int| 0 <= i < rest.len() && rest[i] == (s, p);
        assert(rest[i].1 == p);
        lemma_with_files_keeps(rest, n - 1, mine, mine.len(), p);
        assert(source_files(paths, n)[i] == (s, p));
    } else {
        lemma_not_yet(paths, s as nat, p);
        lemma_with_files_adds(rest, n - 1, mine, mine.len(), p);
        assert(mine.take(mine.len() as int) =~= mine);
    }
}

proof fn lemma_not_yet(paths: Seq<Vec<String>>, n: nat, p: Seq<char>)
    requires
        n <= paths.len(),
        forall|t: int| 0 <= t < n ==> !texts_of((#[trigger] paths[t])@).contains(p),
    ensures
        !has_path(source_files(paths, n), p),
    decreases n,
{
    if n > 0 {
        lemma_not_yet(paths, (n - 1) as nat, p);
        let mine = texts_of(paths[n - 1]@);
        lemma_with_files_lacks(source_files(paths, (n - 1) as nat), n - 1, mine, mine.len(), p);
    }
}

proof fn lemma_with_files_lacks(
    list: Seq<(int, Seq<char>)>,
    source: int,
    paths: Seq<Seq<char>>,
    n: nat,
    p: Seq<char>,
)
    requires
        n <= paths.len(),
        !has_path(list, p),
        !paths.contains(p),
    ensures
        !has_path(with_files(list, source, paths, n), p),
    decreases n,
{
    if n > 0 {
        lemma_with_files_lacks(list, source, paths, (n - 1) as nat, p);
        let rest = with_files(list, source, paths, (n - 1) as nat);
        let all = with_files(list, source, paths, n);
        assert(paths[n - 1] != p);
        if has_path(all, p) {
            let i = choose|i: int| 0 <= i < all.len() && (#[trigger] all[i]).1 == p;
            assert(i < rest.len());
            assert(rest[i].1 == p);
        }
    }
}

proof fn lemma_with_files_keeps(
    list: Seq<(int, Seq<char>)>,
    source: int,
    paths: Seq<Seq<char>>,
    n: nat,
    p: Seq<char>,
)
    requires
        n <= paths.len(),
        has_path(list, p),
    ensures
        ({
            let all = with_files(list, source, paths, n);
            &&& all.len() >= list.len() && has_path(all, p)
            &&& forall|i: int| 0 <= i < list.len() ==> #[trigger] all[i] == list[i]
            &&& forall|i: int| list.len() <= i < all.len() ==> (#[trigger] all[i]).1 != p
        }),
    decreases n,
{
    let all = with_files(list, source, paths, n);
    if n > 0 {
        lemma_with_files_keeps(list, source, paths, (n - 1) as nat, p);
    }
    let i = choose|i: int| 0 <= i < list.len() && (#[trigger] list[i]).1 == p;
    assert(all[i].1 == p);
}

proof fn lemma_with_files_adds(
    list: Seq<(int, Seq<char>)>,
    source: int,
    paths: Seq<Seq<char>>,
    n: nat,
    p: Seq<char>,
)
    requires
        n <= paths.len(),
        !has_path(list, p),
    ensures
        ({
            let all = with_files(list, source, paths, n);
            &&& has_path(all, p) <==> paths.take(n as int).contains(p)
            &&& forall|i: int|
                0 <= i < all.len() && (#[trigger] all[i]).1 == p ==> all[i].0 == source
            &&& paths.take(n as int).contains(p) ==> all.contains((source, p))
        }),
    decreases n,
{
    let all = with_files(list, source, paths, n);
    if n > 0 {
        lemma_with_files_adds(list, source, paths, (n - 1) as nat, p);
        let rest = with_files(list, source, paths, (n - 1) as nat);
        let (was, now) = (paths.take(n - 1), paths.take(n as int));
        assert(now =~= was.push(paths[n - 1]));
        if was.contains(p) {
            let i = choose|i: int| 0 <= i < was.len() && was[i] == p;
            assert(now[i] == p);
            let k = choose|k: int| 0 <= k < rest.len() && rest[k] == (source, p);
            assert(all[k] == (source, p));
            assert(all[k].1 == p);
        } else if paths[n - 1] == p {
            assert(now[n - 1] == p);
            assert(all.last() == (source, p));
            assert(all[all.len() - 1].1 == p);
        } else {
            if now.contains(p) {
                let i = choose|i: int| 0 <= i < now.len() && now[i] == p;
                assert(was[i] == p);
            }
            if has_path(all, p) {
                let i = choose|i: int| 0 <= i < all.len() && (#[trigger] all[i]).1 == p;
                assert(rest[i].1 == p);
            }
        }
    } else {
        assert(paths.take(0).len() == 0);
    }
}

/// A stem's prints are looked for in every directory in turn, in its tick
/// directory before the directory itself; the first place that is there is
/// used.
pub proof fn law_tick_files_are_looked_for_in_order(
    dirs: Seq<String>,
    stem: Seq<char>,
    n: nat,
    k: int,
    there: Seq<bool>,
    i: int,
)
    requires
        0 <= k < n <= dirs.len(),
        0 <= i <= there.len(),
        forall|j: int| 0 <= j < i ==> !#[trigger] there[j],
        i < there.len() ==> there[i],
    ensures
        ({
            let places = tick_places(dirs, stem, n);
            let file = stem + "_ticks"@ + ".parquet"@;
            &&& places.len() == 2 * n
            &&& places[2 * k] == path_of(path_of(dirs[k]@, "ticks"@), file)
            &&& places[2 * k + 1] == path_of(dirs[k]@, file)
        }),
        first_there(there, 0) == i,
    decreases n,
{
    lemma_first_there(there, 0, i);
    lemma_tick_places(dirs, stem, n, k);
}

proof fn lemma_tick_places(dirs: Seq<String>, stem: Seq<char>, n: nat, k: int)
    requires
        n <= dirs.len(),
    ensures
        ({
            let places = tick_places(dirs, stem, n);
            let file = stem + "_ticks"@ + ".parquet"@;
            &&& places.len() == 2 * n
            &&& 0 <= k < n ==> places[2 * k] == path_of(path_of(dirs[k]@, "ticks"@), file)
                && places[2 * k + 1] == path_of(dirs[k]@, file)
        }),
    decreases n,
{
    if n > 0 {
        lemma_tick_places(dirs, stem, (n - 1) as nat, k);
    }
}

proof fn lemma_first_there(there: Seq<bool>, from: int, i: int)
    requires
        0 <= from <= i <= there.len(),
        forall|j: int| 0 <= j < i ==> !#[trigger] there[j],
        i < there.len() ==> there[i],
    ensures
        first_there(there, from) == i,
    decreases i - from,
{
    if from < i {
        assert(!there[from]);
        lemma_first_there(there, from + 1, i);
    }
}

/// An asset's prints are looked for under its sources' stems first, in order,
/// then under its own name, then under its name with the interval.
pub proof fn law_tick_stems_go_from_sources_to_the_asset(
    list: Seq<SourceView>,
    asset: Seq<char>,
    interval: Seq<char>,
    i: int,
)
    ensures
        ({
            let s = tick_stem_list(list, asset, interval);
            let long = asset + "_"@ + interval;
            &&& list.len() <= s.len() <= list.len() + 2
            &&& 0 <= i < list.len() ==> s[i] == list[i].stem
            &&& s.contains(asset) && s.contains(long)
            &&& i >= list.len() && i < s.len() ==> s[i] == asset || s[i] == long
            &&& s.len() == list.len() + 2 ==> s[list.len() as int] == asset && s.last() == long
        }),
{
    let stems = crate::data::sources::stems_of(list);
    let a = crate::data::sources::with_stem(stems, asset);
    let s = tick_stem_list(list, asset, interval);
    let long = asset + "_"@ + interval;
    assert(a.contains(asset)) by {
        if !stems.contains(asset) {
            assert(a.last() == asset);
        }
    }
    let k = choose|k: int| 0 <= k < a.len() && a[k] == asset;
    assert(s[k] == asset);
    if !a.contains(long) {
        assert(s.last() == long);
    }
}

/// A file speaks for the asset before the first underscore of its name, where
/// it is a data file of the interval.
pub proof fn law_a_file_speaks_for_the_asset_it_is_named_after(
    asset: Seq<char>,
    tail: Seq<char>,
    interval: Seq<char>,
)
    requires
        asset.len() > 0,
        forall|i: int| 0 <= i < asset.len() ==> (#[trigger] asset[i]) != '_',
    ensures
        asset_of(asset + "_"@ + interval + tail + ".parquet"@, interval) == Some(asset),
{
    reveal_strlit("_");
    let stem = asset + "_"@ + interval + tail;
    let name = stem + ".parquet"@;
    law_a_suffix_is_what_a_text_ends_with(name, stem, ".parquet"@);
    assert(name =~= asset + "_"@ + interval + tail + ".parquet"@);
    let at = asset.len() as int;
    let mark = "_"@ + interval;
    assert(stem.subrange(at, at + mark.len()) =~= mark);
    assert(occurs_at(stem, mark, at));
    assert(stem[asset.len() as int] == '_');
    assert forall|i: int| 0 <= i < asset.len() implies #[trigger] stem[i] != '_' by {
        assert(stem[i] == asset[i]);
    }
    crate::text::law_the_part_before_a_character(stem, '_', asset.len() as int);
    assert(stem.take(asset.len() as int) =~= asset);
}

/// A file that speaks for an asset is a data file whose name holds the interval
/// behind an underscore and begins with the asset, which has no underscore.
pub proof fn law_other_files_speak_for_no_asset(name: Seq<char>, interval: Seq<char>)
    ensures
        asset_of(name, interval) matches Some(asset) ==> {
            &&& without_suffix(name, ".parquet"@) is Some
            &&& occurs(without_suffix(name, ".parquet"@)->0, "_"@ + interval)
            &&& asset.len() > 0 && !asset.contains('_')
            &&& asset.len() <= name.len() && name.take(asset.len() as int) == asset
        },
{
    if let Some(stem) = without_suffix(name, ".parquet"@) {
        law_a_suffix_is_what_a_text_ends_with(name, stem, ".parquet"@);
        let k = lemma_first_char(stem, '_', 0);
        crate::text::law_the_part_before_a_character(stem, '_', k);
        if let Some(asset) = asset_of(name, interval) {
            assert(asset == stem.take(k));
            assert(name.take(asset.len() as int) =~= asset);
        }
    }
}

proof fn lemma_first_char(s: Seq<char>, c: char, from: int) -> (k: int)
    requires
        0 <= from <= s.len(),
    ensures
        from <= k <= s.len(),
        forall|i: int| from <= i < k ==> #[trigger] s[i] != c,
        k < s.len() ==> s[k] == c,
    decreases s.len() - from,
{
    if from >= s.len() || s[from] == c {
        from
    } else {
        lemma_first_char(s, c, from + 1)
    }
}

/// Of an asset's files the one with the most rows is used, the first of those
/// with equally many.
pub proof fn law_the_longest_file_is_used(
    found: Seq<FoundFile>,
    interval: Seq<char>,
    asset: Seq<char>,
    n: nat,
)
    requires
        n <= found.len(),
    ensures
        ({
            let b = best_of(found, interval, asset, n);
            let mine = |i: int| asset_of(found[i].name@, interval) == Some(asset);
            &&& b is Some ==> 0 <= b->0 < n && mine(b->0)
            &&& forall|i: int|
                0 <= i < n && asset_of((#[trigger] found[i]).name@, interval) == Some(asset) ==> b
                    is Some && found[i].rows <= found[b->0].rows && (i < b->0 ==> found[i].rows
                    < found[b->0].rows)
        }),
    decreases n,
{
    if n > 0 {
        law_the_longest_file_is_used(found, interval, asset, (n - 1) as nat);
    }
}

// ─── Columns ────────────────────────────────────────────────────────────────

/// A column is found under the first of its names that a field has, whatever
/// the case, at the first such field; and not at all where no field has one.
pub proof fn law_a_column_is_found_by_its_first_name(
    fields: Seq<Seq<char>>,
    names: Seq<Seq<char>>,
    a: int,
    f: int,
)
    requires
        0 <= a <= names.len(),
        forall|b: int, g: int|
            0 <= b < a && 0 <= g < fields.len() ==> lower(#[trigger] fields[g]) != lower(
                #[trigger] names[b],
            ),
        a < names.len() ==> 0 <= f < fields.len() && lower(fields[f]) == lower(names[a])
            && forall|g: int| 0 <= g < f ==> lower(#[trigger] fields[g]) != lower(names[a]),
    ensures
        a < names.len() ==> col_of(fields, names, 0) == Some(f),
        a == names.len() ==> col_of(fields, names, 0) is None,
{
    lemma_col_of(fields, names, 0, a, f);
}

proof fn lemma_col_of(
    fields: Seq<Seq<char>>,
    names: Seq<Seq<char>>,
    from: int,
    a: int,
    f: int,
)
    requires
        0 <= from <= a <= names.len(),
        forall|b: int, g: int|
            0 <= b < a && 0 <= g < fields.len() ==> lower(#[trigger] fields[g]) != lower(
                #[trigger] names[b],
            ),
        a < names.len() ==> 0 <= f < fields.len() && lower(fields[f]) == lower(names[a])
            && forall|g: int| 0 <= g < f ==> lower(#[trigger] fields[g]) != lower(names[a]),
    ensures
        a < names.len() ==> col_of(fields, names, from) == Some(f),
        a == names.len() ==> col_of(fields, names, from) is None,
    decreases a - from,
{
    if from < a {
        lemma_field_at(fields, names[from], 0, fields.len() as int);
        lemma_col_of(fields, names, from + 1, a, f);
    } else if a < names.len() {
        lemma_field_at(fields, names[a], 0, f);
    }
}

proof fn lemma_field_at(fields: Seq<Seq<char>>, name: Seq<char>, from: int, f: int)
    requires
        0 <= from <= f <= fields.len(),
        forall|g: int| 0 <= g < f ==> lower(#[trigger] fields[g]) != lower(name),
        f < fields.len() ==> lower(fields[f]) == lower(name),
    ensures
        field_at(fields, name, from) == f,
    decreases f - from,
{
    if from < f {
        assert(lower(fields[from]) != lower(name));
        lemma_field_at(fields, name, from + 1, f);
    }
}

/// A bar file needs a time and four prices, and the first that is missing, in
/// that order, is named; a volume is not needed. Each column goes by its full
/// name first and by its short ones after it.
pub proof fn law_a_bar_file_needs_a_time_and_four_prices(fields: Seq<String>)
    ensures
        ({
            let m = missing_bar_column(fields);
            let found = |c: Column| column_in(fields, c) is Some;
            &&& m is None <==> found(Column::Time) && found(Column::Open) && found(Column::High) && found(
                Column::Low,
            ) && found(Column::Close)
            &&& m is Some ==> !found(m->0)
            &&& m == Some(Column::Open) ==> found(Column::Time)
            &&& m == Some(Column::High) ==> found(Column::Time) && found(Column::Open)
            &&& m == Some(Column::Low) ==> found(Column::Time) && found(Column::Open) && found(
                Column::High,
            )
            &&& m == Some(Column::Close) ==> found(Column::Time) && found(Column::Open) && found(
                Column::High,
            ) && found(Column::Low)
        }),
        aliases(Column::Time) == seq!["timestamp"@, "ts"@, "time"@, "datetime"@, "date"@],
        aliases(Column::Open) == seq!["open"@, "o"@],
        aliases(Column::High) == seq!["high"@, "h"@],
        aliases(Column::Low) == seq!["low"@, "l"@],
        aliases(Column::Close) == seq!["close"@, "c"@],
        aliases(Column::Volume) == seq!["volume"@, "vol"@, "v"@],
        aliases(Column::TickTime) == seq!["timestamp"@, "time"@, "ts"@],
        aliases(Column::TickPrice) == seq!["price"@, "px"@],
        aliases(Column::TickSize) == seq!["size"@, "sz"@, "qty"@],
        aliases(Column::TickSide) == seq!["side"@],
{
}

/// A stored time is an instant so many units after 1970, to the nanosecond; one
/// off the calendar is none.
pub proof fn law_a_stored_time_counts_from_1970(unit: Unit, v: int)
    ensures
        ({
            let one: int = match unit {
                Unit::Seconds => 1_000_000_000,
                Unit::Millis => 1_000_000,
                Unit::Micros => 1_000,
                Unit::Nanos => 1,
            };
            let r = instant_of(unit, v);
            let at = r->0;
            &&& r is Some ==> at / 2_000_000_000 * 1_000_000_000 + at % 2_000_000_000 == v * one
                && at % 2_000_000_000 < 1_000_000_000
            &&& r is Some <==> -8_334_601_228_800 * 1_000_000_000 <= v * one && v * one
                < 8_210_266_876_800 * 1_000_000_000
        }),
{
    let one = unit.nanos();
    let nanos = v * one;
    let (s, n) = (nanos / 1_000_000_000, nanos % 1_000_000_000);
    let at = s * 2_000_000_000 + n;
    assert(at / 2_000_000_000 == s && at % 2_000_000_000 == n);
}

/// An instant in a file's own units is rounded down: the unit it falls in. So a
/// time read from a file is written back as it was.
pub proof fn law_units_round_down(unit: Unit, at: int, v: int)
    requires
        at % 2_000_000_000 < 1_000_000_000,
    ensures
        ({
            let one: int = match unit {
                Unit::Seconds => 1_000_000_000,
                Unit::Millis => 1_000_000,
                Unit::Micros => 1_000,
                Unit::Nanos => 1,
            };
            let ns = at / 2_000_000_000 * 1_000_000_000 + at % 2_000_000_000;
            let u = native(unit, at);
            u * one <= ns && ns < (u + 1) * one
        }),
        instant_of(unit, v) is Some ==> native(unit, instant_of(unit, v)->0) == v,
{
    law_a_stored_time_counts_from_1970(unit, v);
    if instant_of(unit, v) is Some {
        let back = instant_of(unit, v)->0;
        let s = back / 2_000_000_000;
        let n = back % 2_000_000_000;
        match unit {
            Unit::Seconds => {
                assert(n == 0 && s == v);
            },
            Unit::Millis => {
                assert(s * 1_000_000_000 + n == v * 1_000_000);
            },
            Unit::Micros => {
                assert(s * 1_000_000_000 + n == v * 1_000);
            },
            Unit::Nanos => {
                assert(s * 1_000_000_000 + n == v);
            },
        }
    }
}

/// A row group is read unless its own statistics put all of it before the first
/// instant or all of it after the last; groups are read in order, and without a
/// unit to compare in all of them are.
pub proof fn law_row_groups_out_of_range_are_skipped(
    groups: Seq<GroupStats>,
    unit: Option<Unit>,
    start: Option<Stamp>,
    end: Option<Stamp>,
    n: nat,
    g: int,
)
    requires
        n <= groups.len() <= usize::MAX,
        0 <= g < n,
    ensures
        ({
            let kept = kept_groups(groups, unit, start, end, n);
            let early = unit is Some && start is Some && groups[g].max is Some && groups[g].max->0
                < native(unit->0, start->0 as int);
            let late = unit is Some && end is Some && groups[g].min is Some && groups[g].min->0
                > native(unit->0, end->0 as int);
            &&& kept.contains(g as usize) <==> !early && !late
            &&& forall|i: int, j: int|
                0 <= i < j < kept.len() ==> #[trigger] kept[i] < #[trigger] kept[j]
            &&& forall|i: int| 0 <= i < kept.len() ==> #[trigger] kept[i] < n
        }),
    decreases n,
{
    let kept = kept_groups(groups, unit, start, end, n);
    let rest = kept_groups(groups, unit, start, end, (n - 1) as nat);
    if n > 1 {
        law_row_groups_out_of_range_are_skipped(
            groups,
            unit,
            start,
            end,
            (n - 1) as nat,
            if g < n - 1 {
                g
            } else {
                0
            },
        );
    } else {
        assert(rest.len() == 0);
    }
    if g < n - 1 {
        if rest.contains(g as usize) {
            let i = choose|i: int| 0 <= i < rest.len() && rest[i] == g as usize;
            assert(kept[i] == g as usize);
        }
        if kept.contains(g as usize) {
            let i = choose|i: int| 0 <= i < kept.len() && kept[i] == g as usize;
            assert(i < rest.len());
            assert(rest[i] == g as usize);
        }
    } else {
        if kept.len() > rest.len() {
            assert(kept.last() == g as usize);
            assert(kept[rest.len() as int] == g as usize);
        }
        if kept.contains(g as usize) && kept.len() == rest.len() {
            let i = choose|i: int| 0 <= i < kept.len() && kept[i] == g as usize;
            assert(rest[i] == g as usize);
        }
    }
}

/// A text is read by the pattern with the `T` where that fits, else by the one
/// with the space, else as 1970.
pub proof fn law_the_first_fitting_pattern_reads(
    t: Option<(i64, u32)>,
    space: Option<(i64, u32)>,
)
    ensures
        t is Some ==> chosen(t, space) == t->0,
        t is None && space is Some ==> chosen(t, space) == space->0,
        t is None && space is None ==> chosen(t, space) == (0i64, 0u32),
{
}

// ─── Appending ──────────────────────────────────────────────────────────────

/// The first drop is the first row that is not after the one before it.
pub proof fn law_the_first_drop_is_found(t: Seq<i64>, k: int)
    requires
        1 <= k <= t.len(),
        forall|i: int, j: int| 0 <= i < k - 1 && j == i + 1 ==> #[trigger] t[i] < #[trigger] t[j],
        k < t.len() ==> t[k] <= t[k - 1],
    ensures
        first_drop(t, 1) == k,
{
    lemma_first_drop(t, 1, k);
}

proof fn lemma_first_drop(t: Seq<i64>, from: int, k: int)
    requires
        1 <= from <= k <= t.len(),
        forall|i: int, j: int| 0 <= i < k - 1 && j == i + 1 ==> #[trigger] t[i] < #[trigger] t[j],
        k < t.len() ==> t[k] <= t[k - 1],
    ensures
        first_drop(t, from) == k,
    decreases k - from,
{
    if from < k {
        assert(t[from - 1] < t[from]);
        lemma_first_drop(t, from + 1, k);
    }
}

/// Rows follow a file exactly where the first is strictly after the last time
/// it holds, or the file holds none; a refusal names both times.
pub proof fn law_rows_follow_strictly_later(first: i64, existing_max: Option<i64>)
    ensures
        ({
            let r = may_follow(first, existing_max);
            &&& r is Ok <==> existing_max is None || first > existing_max->0
            &&& r is Err ==> r->Err_0 == (AppendError::NotAfter { first, last: existing_max->0 })
        }),
{
}

/// The statistics that are there are those that are not missing.
pub proof fn law_present_statistics_are_those_given(stats: Seq<Option<i64>>, n: nat, v: i64)
    requires
        n <= stats.len(),
    ensures
        present(stats, n).contains(v) <==> exists|i: int|
            0 <= i < n && #[trigger] stats[i] == Some(v),
    decreases n,
{
    if n > 0 {
        law_present_statistics_are_those_given(stats, (n - 1) as nat, v);
        let rest = present(stats, (n - 1) as nat);
        let all = present(stats, n);
        if rest.contains(v) {
            let i = choose|i: int| 0 <= i < rest.len() && rest[i] == v;
            assert(all[i] == v);
        }
        if stats[n - 1] == Some(v) {
            assert(all.last() == v);
        }
        if all.contains(v) {
            let i = choose|i: int| 0 <= i < all.len() && all[i] == v;
            if i < rest.len() {
                assert(rest[i] == v);
            } else {
                assert(stats[n - 1] == Some(v));
            }
        }
    }
}

} // verus!
