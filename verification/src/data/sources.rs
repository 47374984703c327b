//! Which files back an asset.
use vstd::prelude::*;
use vstd::string::*;
use crate::key::Num;
use crate::models::{base_interval, base_name, Names};
use crate::text::{
    ascending, before_char, chars_of, contains_str, occurs, occurs_at, sorted_unique, starts_with,
    str_eq, strip_suffix, texts_of, until, without_suffix,
};

verus! {

/// The key of 1.0.
pub const ONE: Num = 0x3ff0_0000_0000_0000;

/// A file stem, and a linear transform of its prices.
#[derive(Debug, Clone)]
pub struct DataSource {
    /// The part of the file name before the interval.
    pub stem: String,
    pub scale: Num,
    pub offset: Num,
}

/// A source, mathematically.
pub struct SourceView {
    pub stem: Seq<char>,
    pub scale: Num,
    pub offset: Num,
}

impl View for DataSource {
    type V = SourceView;

    open spec fn view(&self) -> SourceView {
        SourceView { stem: self.stem@, scale: self.scale, offset: self.offset }
    }
}

/// Some sources, mathematically.
pub open spec fn source_views(list: Seq<DataSource>) -> Seq<SourceView> {
    Seq::new(list.len(), |i: int| list[i]@)
}

/// The source that is the asset's own file, prices as they are.
pub open spec fn own_source(asset: Seq<char>) -> SourceView {
    SourceView { stem: asset, scale: ONE, offset: 0 }
}

impl DataSource {
    /// The source that is a stem's own file, prices as they are.
    pub fn identity(stem: &str) -> (r: Self)
        ensures
            r@ == own_source(stem@),
    {
        DataSource { stem: stem.to_owned(), scale: ONE, offset: 0 }
    }

    /// Whether the prices stay as they are.
    pub fn is_identity(&self) -> (r: bool)
        ensures
            r == (self.scale == ONE && self.offset == 0),
    {
        self.scale == ONE && self.offset == 0
    }

    /// An equal source.
    pub fn dup(&self) -> (r: Self)
        ensures
            r@ == self@,
    {
        DataSource { stem: self.stem.clone(), scale: self.scale, offset: self.offset }
    }
}

fn dup_sources(list: &Vec<DataSource>) -> (r: Vec<DataSource>)
    ensures
        source_views(r@) == source_views(list@),
{
    let mut out: Vec<DataSource> = Vec::new();
    let mut i: usize = 0;
    while i < list.len()
        invariant
            i <= list@.len(),
            source_views(out@) == source_views(list@).take(i as int),
        decreases list@.len() - i,
    {
        let ghost had = source_views(out@);
        out.push(list[i].dup());
        proof {
            assert(source_views(out@) =~= had.push(list@[i as int]@));
        }
        i = i + 1;
        proof {
            assert(source_views(out@) =~= source_views(list@).take(i as int));
        }
    }
    proof {
        assert(source_views(out@) =~= source_views(list@));
    }
    out
}

/// One asset's sources.
#[derive(Debug, Clone)]
pub struct Override {
    pub asset: String,
    pub sources: Vec<DataSource>,
}

/// What a list of overrides maps each asset to: a later one replaces an
/// earlier one.
pub open spec fn overridden(list: Seq<Override>) -> Map<Seq<char>, Seq<SourceView>>
    decreases list.len(),
{
    if list.len() == 0 {
        Map::empty()
    } else {
        overridden(list.drop_last()).insert(list.last().asset@, source_views(list.last().sources@))
    }
}

/// From asset to its sources, in order. An asset that is not mapped has its
/// own file.
#[derive(Debug, Clone)]
pub struct SourceMap {
    pub overrides: Vec<Override>,
}

impl View for SourceMap {
    type V = Map<Seq<char>, Seq<SourceView>>;

    open spec fn view(&self) -> Map<Seq<char>, Seq<SourceView>> {
        overridden(self.overrides@)
    }
}

/// The sources of an asset under a map.
pub open spec fn sources_in(map: Map<Seq<char>, Seq<SourceView>>, asset: Seq<char>) -> Seq<
    SourceView,
> {
    if map.contains_key(asset) {
        map[asset]
    } else {
        seq![own_source(asset)]
    }
}

impl SourceMap {
    /// The empty map.
    pub fn new() -> (r: Self)
        ensures
            r@ == Map::<Seq<char>, Seq<SourceView>>::empty(),
    {
        SourceMap { overrides: Vec::new() }
    }

    /// Give an asset its sources, in place of those it had.
    pub fn insert(&mut self, asset: &str, sources: Vec<DataSource>)
        ensures
            final(self)@ == old(self)@.insert(asset@, source_views(sources@)),
    {
        self.overrides.push(Override { asset: asset.to_owned(), sources });
        proof {
            assert(self.overrides@.drop_last() =~= old(self).overrides@);
        }
    }

    /// Whether nothing is mapped.
    pub fn is_empty(&self) -> (r: bool)
        ensures
            r == (self@ == Map::<Seq<char>, Seq<SourceView>>::empty()),
    {
        proof {
            if self.overrides@.len() > 0 {
                assert(self@.contains_key(self.overrides@.last().asset@));
            }
        }
        self.overrides.len() == 0
    }

    /// The sources of an asset, in order: an earlier one wins.
    pub fn sources_for(&self, asset: &str) -> (r: Vec<DataSource>)
        ensures
            source_views(r@) == sources_in(self@, asset@),
    {
        let mut i: usize = self.overrides.len();
        proof {
            assert(self.overrides@.take(i as int) =~= self.overrides@);
        }
        while i > 0
            invariant
                i <= self.overrides@.len(),
                self@.contains_key(asset@) <==> overridden(self.overrides@.take(i as int)).contains_key(
                    asset@,
                ),
                self@.contains_key(asset@) ==> self@[asset@] == overridden(
                    self.overrides@.take(i as int),
                )[asset@],
            decreases i,
        {
            proof {
                let t = self.overrides@.take(i as int);
                assert(t.drop_last() =~= self.overrides@.take(i - 1));
                assert(t.last() == self.overrides@[i - 1]);
            }
            i = i - 1;
            if str_eq(self.overrides[i].asset.as_str(), asset) {
                return dup_sources(&self.overrides[i].sources);
            }
        }
        let mut out: Vec<DataSource> = Vec::new();
        out.push(DataSource::identity(asset));
        proof {
            assert(source_views(out@) =~= seq![own_source(asset@)]);
        }
        out
    }
}

// ─── Paths ──────────────────────────────────────────────────────────────────

/// A name under a directory. An absolute name stands for itself.
pub open spec fn path_of(dir: Seq<char>, name: Seq<char>) -> Seq<char> {
    if dir.len() == 0 || (name.len() > 0 && name[0] == '/') {
        name
    } else if dir.last() == '/' {
        dir + name
    } else {
        dir + "/"@ + name
    }
}

fn join_path(dir: &str, name: &str) -> (r: String)
    ensures
        r@ == path_of(dir@, name@),
{
    let d = chars_of(dir);
    let n = chars_of(name);
    if d.len() == 0 || (n.len() > 0 && n[0] == '/') {
        return name.to_owned();
    }
    let mut out = dir.to_owned();
    if d[d.len() - 1] != '/' {
        out.append("/");
    }
    out.append(name);
    proof {
        assert(out@ =~= path_of(dir@, name@));
    }
    out
}

/// What a candle or tick file's name ends in.
pub const EXTENSION: &'static str = ".parquet";

/// The directory, in a data directory, that tick files are first looked for
/// in.
pub const TICKS_DIR: &'static str = "ticks";

/// The name of a stem's main file.
pub open spec fn main_file(stem: Seq<char>, interval: Seq<char>) -> Seq<char> {
    stem + "_"@ + interval + EXTENSION@
}

/// The name of a stem's main file.
pub fn main_name(stem: &str, interval: &str) -> (r: String)
    ensures
        r@ == main_file(stem@, interval@),
{
    let mut out = stem.to_owned();
    out.append("_");
    out.append(interval);
    out.append(EXTENSION);
    proof {
        assert(out@ =~= main_file(stem@, interval@));
    }
    out
}

/// A name is that of a dated shard of a stem.
pub open spec fn is_shard(name: Seq<char>, stem: Seq<char>, interval: Seq<char>) -> bool {
    without_suffix(name, EXTENSION@) matches Some(s) && occurs_at(
        s,
        stem + "_"@ + interval + "_"@,
        0,
    )
}

fn shard(name: &str, stem: &str, interval: &str) -> (r: bool)
    ensures
        r == is_shard(name@, stem@, interval@),
{
    let mut prefix = stem.to_owned();
    prefix.append("_");
    prefix.append(interval);
    prefix.append("_");
    proof {
        assert(prefix@ =~= stem@ + "_"@ + interval@ + "_"@);
    }
    match strip_suffix(name, EXTENSION) {
        Some(s) => starts_with(s.as_str(), prefix.as_str()),
        None => false,
    }
}

/// What a data directory holds for a stem.
#[derive(Debug, Clone)]
pub struct Listing {
    pub dir: String,
    /// The stem's main file is there.
    pub has_main: bool,
    /// The names in the directory.
    pub names: Vec<String>,
}

/// A path is added unless it is there.
pub open spec fn with_path(paths: Seq<Seq<char>>, p: Seq<char>) -> Seq<Seq<char>> {
    if paths.contains(p) {
        paths
    } else {
        paths.push(p)
    }
}

/// The shards among the first `n` names are added.
pub open spec fn with_shards(
    paths: Seq<Seq<char>>,
    l: Listing,
    stem: Seq<char>,
    interval: Seq<char>,
    n: nat,
) -> Seq<Seq<char>>
    decreases n,
{
    if n == 0 {
        paths
    } else {
        let rest = with_shards(paths, l, stem, interval, (n - 1) as nat);
        if is_shard(l.names@[n - 1]@, stem, interval) {
            with_path(rest, path_of(l.dir@, l.names@[n - 1]@))
        } else {
            rest
        }
    }
}

/// The files of a stem in the first `n` directories: in each the main file,
/// then the shards, none twice.
pub open spec fn stem_files(
    listings: Seq<Listing>,
    stem: Seq<char>,
    interval: Seq<char>,
    n: nat,
) -> Seq<Seq<char>>
    decreases n,
{
    if n == 0 {
        Seq::empty()
    } else {
        let rest = stem_files(listings, stem, interval, (n - 1) as nat);
        let l = listings[n - 1];
        let with_main = if l.has_main {
            with_path(rest, path_of(l.dir@, main_file(stem, interval)))
        } else {
            rest
        };
        with_shards(with_main, l, stem, interval, l.names@.len())
    }
}

fn add_path(paths: &mut Vec<String>, p: String)
    ensures
        texts_of(final(paths)@) == with_path(texts_of(old(paths)@), p@),
{
    let mut i: usize = 0;
    while i < paths.len()
        invariant
            i <= paths@.len(),
            paths@ == old(paths)@,
            forall|k: int| 0 <= k < i ==> #[trigger] texts_of(paths@)[k] != p@,
        decreases paths@.len() - i,
    {
        if paths[i] == p {
            proof {
                assert(texts_of(paths@)[i as int] == p@);
            }
            return;
        }
        i = i + 1;
    }
    paths.push(p);
    proof {
        assert(texts_of(paths@) =~= texts_of(old(paths)@).push(p@));
    }
}

/// The files of a stem across directories, in order, none twice. A directory
/// that does not exist has no listing.
pub fn files_for_stem(stem: &str, interval: &str, listings: &Vec<Listing>) -> (r: Vec<String>)
    ensures
        texts_of(r@) == stem_files(listings@, stem@, interval@, listings@.len()),
{
    let mut out: Vec<String> = Vec::new();
    let mut i: usize = 0;
    proof {
        assert(texts_of(out@) =~= Seq::empty());
    }
    while i < listings.len()
        invariant
            i <= listings@.len(),
            texts_of(out@) == stem_files(listings@, stem@, interval@, i as nat),
        decreases listings@.len() - i,
    {
        let l = &listings[i];
        if l.has_main {
            let name = main_name(stem, interval);
            let path = join_path(l.dir.as_str(), name.as_str());
            add_path(&mut out, path);
        }
        let ghost base = texts_of(out@);
        let mut k: usize = 0;
        while k < l.names.len()
            invariant
                k <= l.names@.len(),
                texts_of(out@) == with_shards(base, *l, stem@, interval@, k as nat),
            decreases l.names@.len() - k,
        {
            if shard(l.names[k].as_str(), stem, interval) {
                let path = join_path(l.dir.as_str(), l.names[k].as_str());
                add_path(&mut out, path);
            }
            k = k + 1;
        }
        i = i + 1;
    }
    out
}

/// The files that back an asset with its own stem, at the run's base interval.
pub fn discover_files_for_asset(names: &Names, asset: &str, listings: &Vec<Listing>) -> (r: Vec<
    String,
>)
    requires
        names.wf(),
    ensures
        texts_of(r@) == stem_files(listings@, asset@, base_name(*names), listings@.len()),
{
    let iv = base_interval(names);
    files_for_stem(asset, iv.as_str(), listings)
}

/// A file, and the source it belongs to.
#[derive(Debug, Clone)]
pub struct SourceFile {
    pub source: usize,
    pub path: String,
}

/// Source files, mathematically.
pub open spec fn file_views(list: Seq<SourceFile>) -> Seq<(int, Seq<char>)> {
    Seq::new(list.len(), |i: int| (list[i].source as int, list[i].path@))
}

/// A path is among some files.
pub open spec fn has_path(list: Seq<(int, Seq<char>)>, p: Seq<char>) -> bool {
    exists|i: int| 0 <= i < list.len() && (#[trigger] list[i]).1 == p
}

/// The first `n` paths of a source are added, none twice.
pub open spec fn with_files(
    list: Seq<(int, Seq<char>)>,
    source: int,
    paths: Seq<Seq<char>>,
    n: nat,
) -> Seq<(int, Seq<char>)>
    decreases n,
{
    if n == 0 {
        list
    } else {
        let rest = with_files(list, source, paths, (n - 1) as nat);
        if has_path(rest, paths[n - 1]) {
            rest
        } else {
            rest.push((source, paths[n - 1]))
        }
    }
}

/// The files of the first `n` sources: a file is loaded once, for the first
/// source that has it.
pub open spec fn source_files(paths: Seq<Vec<String>>, n: nat) -> Seq<(int, Seq<char>)>
    decreases n,
{
    if n == 0 {
        Seq::empty()
    } else {
        with_files(
            source_files(paths, (n - 1) as nat),
            n - 1,
            texts_of(paths[n - 1]@),
            paths[n - 1]@.len(),
        )
    }
}

fn knows(list: &Vec<SourceFile>, p: &String) -> (r: bool)
    ensures
        r == has_path(file_views(list@), p@),
{
    let mut i: usize = 0;
    while i < list.len()
        invariant
            i <= list@.len(),
            forall|k: int| 0 <= k < i ==> (#[trigger] file_views(list@)[k]).1 != p@,
        decreases list@.len() - i,
    {
        if list[i].path == *p {
            proof {
                assert(file_views(list@)[i as int].1 == p@);
            }
            return true;
        }
        i = i + 1;
    }
    false
}

/// The files to load, given each source's, in order: a file once, for the
/// first source that has it.
pub fn load_list(paths: &Vec<Vec<String>>) -> (r: Vec<SourceFile>)
    ensures
        file_views(r@) == source_files(paths@, paths@.len()),
{
    let mut out: Vec<SourceFile> = Vec::new();
    let mut i: usize = 0;
    proof {
        assert(file_views(out@) =~= Seq::empty());
    }
    while i < paths.len()
        invariant
            i <= paths@.len(),
            file_views(out@) == source_files(paths@, i as nat),
        decreases paths@.len() - i,
    {
        let list = &paths[i];
        let ghost base = file_views(out@);
        let mut k: usize = 0;
        while k < list.len()
            invariant
                k <= list@.len(),
                file_views(out@) == with_files(base, i as int, texts_of(list@), k as nat),
            decreases list@.len() - k,
        {
            let ghost had = file_views(out@);
            if !knows(&out, &list[k]) {
                out.push(SourceFile { source: i, path: list[k].clone() });
                proof {
                    assert(file_views(out@) =~= had.push((i as int, list@[k as int]@)));
                }
            }
            k = k + 1;
        }
        i = i + 1;
    }
    out
}

/// No file is loaded twice.
pub proof fn law_no_file_is_loaded_twice(paths: Seq<Vec<String>>, n: nat, i: int, j: int)
    requires
        n <= paths.len(),
        0 <= i < j < source_files(paths, n).len(),
    ensures
        source_files(paths, n)[i].1 != source_files(paths, n)[j].1,
{
    lemma_paths_differ(paths, n);
}

/// No path stands twice.
spec fn distinct(list: Seq<(int, Seq<char>)>) -> bool {
    forall|i: int, j: int| 0 <= i < j < list.len() ==> (#[trigger] list[i]).1 != (#[trigger] list[j]).1
}

proof fn lemma_paths_differ(paths: Seq<Vec<String>>, n: nat)
    requires
        n <= paths.len(),
    ensures
        distinct(source_files(paths, n)),
    decreases n,
{
    if n > 0 {
        lemma_paths_differ(paths, (n - 1) as nat);
        lemma_files_differ(
            source_files(paths, (n - 1) as nat),
            n - 1,
            texts_of(paths[n - 1]@),
            paths[n - 1]@.len(),
        );
    }
}

proof fn lemma_files_differ(
    list: Seq<(int, Seq<char>)>,
    source: int,
    paths: Seq<Seq<char>>,
    n: nat,
)
    requires
        distinct(list),
        n <= paths.len(),
    ensures
        distinct(with_files(list, source, paths, n)),
    decreases n,
{
    if n > 0 {
        lemma_files_differ(list, source, paths, (n - 1) as nat);
    }
}

// ─── Tick files ─────────────────────────────────────────────────────────────

/// Where a stem's tick file may stand in the first `n` directories: in each
/// the nested place, then the flat one.
pub open spec fn tick_places(dirs: Seq<String>, stem: Seq<char>, n: nat) -> Seq<Seq<char>>
    decreases n,
{
    if n == 0 {
        Seq::empty()
    } else {
        let file = stem + "_ticks"@ + EXTENSION@;
        let dir = dirs[n - 1]@;
        tick_places(dirs, stem, (n - 1) as nat).push(path_of(path_of(dir, TICKS_DIR@), file)).push(
            path_of(dir, file),
        )
    }
}

/// Where a stem's tick file may stand, in the order it is looked for.
pub fn tick_candidates(stem: &str, data_dirs: &Vec<String>) -> (r: Vec<String>)
    ensures
        texts_of(r@) == tick_places(data_dirs@, stem@, data_dirs@.len()),
{
    let mut file = stem.to_owned();
    file.append("_ticks");
    file.append(EXTENSION);
    proof {
        assert(file@ =~= stem@ + "_ticks"@ + EXTENSION@);
    }
    let mut out: Vec<String> = Vec::new();
    let mut i: usize = 0;
    proof {
        assert(texts_of(out@) =~= Seq::empty());
    }
    while i < data_dirs.len()
        invariant
            i <= data_dirs@.len(),
            file@ == stem@ + "_ticks"@ + EXTENSION@,
            texts_of(out@) == tick_places(data_dirs@, stem@, i as nat),
        decreases data_dirs@.len() - i,
    {
        let ghost had = texts_of(out@);
        let nested = join_path(data_dirs[i].as_str(), TICKS_DIR);
        out.push(join_path(nested.as_str(), file.as_str()));
        out.push(join_path(data_dirs[i].as_str(), file.as_str()));
        i = i + 1;
        proof {
            assert(texts_of(out@) =~= tick_places(data_dirs@, stem@, i as nat));
        }
    }
    out
}

/// The first candidate, at or after `from`, that is there.
pub open spec fn first_there(there: Seq<bool>, from: int) -> int
    decreases there.len() - from,
{
    if from >= there.len() || there[from] {
        from
    } else {
        first_there(there, from + 1)
    }
}

/// A stem's tick file: the first candidate that is there.
pub fn tick_file_for_stem(stem: &str, data_dirs: &Vec<String>, there: &Vec<bool>) -> (r: Option<
    String,
>)
    requires
        there@.len() == tick_places(data_dirs@, stem@, data_dirs@.len()).len(),
    ensures
        ({
            let i = first_there(there@, 0);
            match r {
                Some(p) => i < there@.len() && p@ == tick_places(
                    data_dirs@,
                    stem@,
                    data_dirs@.len(),
                )[i],
                None => i >= there@.len(),
            }
        }),
{
    let list = tick_candidates(stem, data_dirs);
    let mut i: usize = 0;
    while i < there.len()
        invariant
            i <= there@.len(),
            texts_of(list@) == tick_places(data_dirs@, stem@, data_dirs@.len()),
            there@.len() == list@.len(),
            first_there(there@, i as int) == first_there(there@, 0),
        decreases there@.len() - i,
    {
        if there[i] {
            assert(texts_of(list@)[i as int] == list@[i as int]@);
            return Some(list[i].clone());
        }
        i = i + 1;
    }
    None
}

/// The stems of some sources.
pub open spec fn stems_of(list: Seq<SourceView>) -> Seq<Seq<char>> {
    Seq::new(list.len(), |i: int| list[i].stem)
}

/// A list of stems with one more at its end, unless it is there already.
pub open spec fn with_stem(s: Seq<Seq<char>>, stem: Seq<char>) -> Seq<Seq<char>> {
    if s.contains(stem) {
        s
    } else {
        s.push(stem)
    }
}

/// The stems an asset's ticks are looked for under: its sources', then its own
/// name, then its name with the base interval, each where it is not there yet.
pub open spec fn tick_stem_list(
    list: Seq<SourceView>,
    asset: Seq<char>,
    interval: Seq<char>,
) -> Seq<Seq<char>> {
    with_stem(with_stem(stems_of(list), asset), asset + "_"@ + interval)
}

fn add_stem(list: &mut Vec<String>, stem: String)
    ensures
        texts_of(final(list)@) == with_stem(texts_of(old(list)@), stem@),
{
    let mut i: usize = 0;
    while i < list.len()
        invariant
            i <= list@.len(),
            list@ == old(list)@,
            forall|k: int| 0 <= k < i ==> (#[trigger] list@[k])@ != stem@,
        decreases list@.len() - i,
    {
        if str_eq(list[i].as_str(), stem.as_str()) {
            assert(texts_of(list@)[i as int] == stem@);
            return ;
        }
        i = i + 1;
    }
    let ghost had = texts_of(list@);
    assert(!had.contains(stem@));
    list.push(stem);
    proof {
        assert(texts_of(list@) =~= had.push(list@[list@.len() - 1]@));
    }
}

/// The stems an asset's ticks are looked for under.
pub fn tick_stems(sources: &SourceMap, asset: &str, interval: &str) -> (r: Vec<String>)
    ensures
        texts_of(r@) == tick_stem_list(sources_in(sources@, asset@), asset@, interval@),
{
    let list = sources.sources_for(asset);
    let ghost goal = stems_of(sources_in(sources@, asset@));
    let mut out: Vec<String> = Vec::new();
    let mut i: usize = 0;
    while i < list.len()
        invariant
            i <= list@.len(),
            source_views(list@) == sources_in(sources@, asset@),
            goal == stems_of(sources_in(sources@, asset@)),
            texts_of(out@) == goal.take(i as int),
        decreases list@.len() - i,
    {
        let ghost was = goal.take(i as int);
        out.push(list[i].stem.clone());
        proof {
            assert(source_views(list@)[i as int] == list@[i as int]@);
            assert(goal[i as int] == list@[i as int].stem@);
            assert(goal.take(i + 1) =~= was.push(goal[i as int]));
            assert(texts_of(out@) =~= was.push(goal[i as int]));
        }
        i = i + 1;
    }
    proof {
        assert(goal.len() == source_views(list@).len());
        assert(goal.take(list@.len() as int) =~= goal);
    }
    add_stem(&mut out, asset.to_owned());
    let mut own = asset.to_owned();
    own.append("_");
    own.append(interval);
    add_stem(&mut out, own);
    out
}

// ─── Discovery ──────────────────────────────────────────────────────────────

/// A file found in a data directory.
#[derive(Debug, Clone)]
pub struct FoundFile {
    pub path: String,
    pub name: String,
    pub rows: usize,
}

/// The asset a file name speaks of: what stands before the first underscore of
/// a parquet file that carries the interval.
pub open spec fn asset_of(name: Seq<char>, interval: Seq<char>) -> Option<Seq<char>> {
    match without_suffix(name, EXTENSION@) {
        Some(stem) => if stem.len() > 0 && occurs(stem, "_"@ + interval) && until(stem, '_', 0).len()
            > 0 {
            Some(until(stem, '_', 0))
        } else {
            None
        },
        None => None,
    }
}

/// The asset a file name speaks of.
pub fn asset_in(name: &str, interval: &str) -> (r: Option<String>)
    ensures
        (match r {
            Some(a) => Some(a@),
            None => None,
        }) == asset_of(name@, interval@),
{
    let stem = match strip_suffix(name, EXTENSION) {
        Some(s) => s,
        None => return None,
    };
    let mut suffix = "_".to_owned();
    suffix.append(interval);
    proof {
        assert(suffix@ =~= "_"@ + interval@);
    }
    if chars_of(stem.as_str()).len() == 0 || !contains_str(stem.as_str(), suffix.as_str()) {
        return None;
    }
    let asset = before_char(stem.as_str(), '_');
    if chars_of(asset.as_str()).len() == 0 {
        None
    } else {
        Some(asset)
    }
}

/// The file of an asset with the most rows among the first `n`; of two with as
/// many, the first.
pub open spec fn best_of(
    found: Seq<FoundFile>,
    interval: Seq<char>,
    asset: Seq<char>,
    n: nat,
) -> Option<int>
    decreases n,
{
    if n == 0 {
        None
    } else {
        let best = best_of(found, interval, asset, (n - 1) as nat);
        let f = found[n - 1];
        if asset_of(f.name@, interval) == Some(asset) && (best matches Some(b) ==> found[b].rows
            < f.rows) {
            Some(n - 1)
        } else {
            best
        }
    }
}

/// An asset and its file.
#[derive(Debug, Clone)]
pub struct AssetFile {
    pub asset: String,
    pub path: String,
}

/// The assets of some files.
pub open spec fn assets_of(list: Seq<AssetFile>) -> Seq<Seq<char>> {
    Seq::new(list.len(), |i: int| list[i].asset@)
}

/// Some file found speaks of an asset.
pub open spec fn speaks(found: Seq<FoundFile>, interval: Seq<char>, asset: Seq<char>) -> bool {
    exists|i: int|
        0 <= i < found.len() && asset_of((#[trigger] found[i]).name@, interval) == Some(asset)
}

/// Each asset that a file speaks of, in dictionary order, with its largest
/// file.
pub fn discover_parquet_files(found: &Vec<FoundFile>, interval: &str) -> (r: Vec<AssetFile>)
    ensures
        ascending(assets_of(r@)),
        forall|a: Seq<char>| #[trigger] assets_of(r@).contains(a) <==> speaks(found@, interval@, a),
        forall|i: int|
            0 <= i < r@.len() ==> (best_of(
                found@,
                interval@,
                (#[trigger] r@[i]).asset@,
                found@.len(),
            ) matches Some(b) && r@[i].path@ == found@[b].path@),
{
    let mut all: Vec<String> = Vec::new();
    let mut i: usize = 0;
    while i < found.len()
        invariant
            i <= found@.len(),
            forall|a: Seq<char>| #[trigger]
                texts_of(all@).contains(a) <==> speaks(found@.take(i as int), interval@, a),
        decreases found@.len() - i,
    {
        let ghost had = texts_of(all@);
        let ghost before = found@.take(i as int);
        let ghost after = found@.take(i + 1);
        let asset = asset_in(found[i].name.as_str(), interval);
        proof {
            assert(after[i as int] == found@[i as int]);
        }
        let ghost mut named: Option<Seq<char>> = None;
        if let Some(a) = asset {
            proof {
                named = Some(a@);
            }
            all.push(a);
        }
        proof {
            let now = texts_of(all@);
            assert(named == asset_of(found@[i as int].name@, interval@));
            assert forall|a: Seq<char>| #[trigger] now.contains(a) implies speaks(
                after,
                interval@,
                a,
            ) by {
                let p = choose|p: int| 0 <= p < now.len() && now[p] == a;
                if p < had.len() {
                    assert(had[p] == a);
                    assert(had.contains(a));
                    let k = choose|k: int|
                        0 <= k < before.len() && asset_of((#[trigger] before[k]).name@, interval@)
                            == Some(a);
                    assert(asset_of(after[k].name@, interval@) == Some(a));
                } else {
                    assert(asset_of(after[i as int].name@, interval@) == Some(a));
                }
            }
            assert forall|a: Seq<char>| speaks(after, interval@, a) implies #[trigger] now.contains(
                a,
            ) by {
                let k = choose|k: int|
                    0 <= k < after.len() && asset_of((#[trigger] after[k]).name@, interval@)
                        == Some(a);
                if k < i {
                    assert(asset_of(before[k].name@, interval@) == Some(a));
                    assert(had.contains(a));
                    let p = choose|p: int| 0 <= p < had.len() && had[p] == a;
                    assert(now[p] == a);
                } else {
                    assert(now[had.len() as int] == a);
                }
            }
        }
        i = i + 1;
    }
    proof {
        assert(found@.take(found@.len() as int) =~= found@);
    }
    let assets = sorted_unique(&all);
    let mut out: Vec<AssetFile> = Vec::new();
    let mut k: usize = 0;
    while k < assets.len()
        invariant
            k <= assets@.len(),
            forall|a: Seq<char>| #[trigger]
                texts_of(assets@).contains(a) <==> speaks(found@, interval@, a),
            assets_of(out@) == texts_of(assets@).take(k as int),
            forall|j: int|
                0 <= j < out@.len() ==> (best_of(
                    found@,
                    interval@,
                    (#[trigger] out@[j]).asset@,
                    found@.len(),
                ) matches Some(b) && out@[j].path@ == found@[b].path@),
        decreases assets@.len() - k,
    {
        proof {
            assert(texts_of(assets@)[k as int] == assets@[k as int]@);
            assert(texts_of(assets@).contains(assets@[k as int]@));
        }
        let ghost had = assets_of(out@);
        let b: usize = best_file(found, interval, &assets[k]);
        out.push(AssetFile { asset: assets[k].clone(), path: found[b].path.clone() });
        proof {
            assert(assets_of(out@) =~= had.push(assets@[k as int]@));
        }
        k = k + 1;
        proof {
            assert(assets_of(out@) =~= texts_of(assets@).take(k as int));
        }
    }
    proof {
        assert(assets_of(out@) =~= texts_of(assets@));
    }
    out
}

fn best_file(found: &Vec<FoundFile>, interval: &str, asset: &String) -> (r: usize)
    requires
        speaks(found@, interval@, asset@),
    ensures
        best_of(found@, interval@, asset@, found@.len()) == Some(r as int),
        r < found@.len(),
{
    let mut best: Option<usize> = None;
    let mut i: usize = 0;
    while i < found.len()
        invariant
            i <= found@.len(),
            best_of(found@, interval@, asset@, i as nat) == (match best {
                Some(b) => Some(b as int),
                None => None,
            }),
            best matches Some(b) ==> b < i,
            best is None ==> forall|k: int|
                0 <= k < i ==> asset_of((#[trigger] found@[k]).name@, interval@) != Some(asset@),
        decreases found@.len() - i,
    {
        let mine = match asset_in(found[i].name.as_str(), interval) {
            Some(a) => a == *asset,
            None => false,
        };
        let larger = match best {
            Some(b) => found[b].rows < found[i].rows,
            None => true,
        };
        if mine && larger {
            best = Some(i);
        }
        i = i + 1;
    }
    match best {
        Some(b) => b,
        None => {
            proof {
                let k = choose|k: int|
                    0 <= k < found@.len() && asset_of((#[trigger] found@[k]).name@, interval@)
                        == Some(asset@);
                assert(asset_of(found@[k].name@, interval@) != Some(asset@));
            }
            0
        },
    }
}

} // verus!
