//! The knobs a config sets, and what they therefore read.
use vstd::prelude::*;
use vstd::string::*;
use crate::key::Num;
use crate::params::registry::{hint_text, hintable, nearest_hint, spec_of, KnobRegistry};
use crate::params::value::{texts, Kind, Value, ValueView};
use crate::strmap::StrMap;
use crate::text::{chars_of, str_eq, string_of};

verus! {

/// What a list of entries sets each key to: a later entry overrides an
/// earlier one.
pub open spec fn settings(entries: Seq<(String, Value)>) -> Map<Seq<char>, ValueView>
    decreases entries.len(),
{
    if entries.len() == 0 {
        Map::empty()
    } else {
        settings(entries.drop_last()).insert(entries.last().0@, entries.last().1@)
    }
}

/// A bag of knobs: only those that a config set.
#[derive(Debug, Clone)]
pub struct Params {
    entries: Vec<(String, Value)>,
}

impl View for Params {
    type V = Map<Seq<char>, ValueView>;

    closed spec fn view(&self) -> Map<Seq<char>, ValueView> {
        settings(self.entries@)
    }
}

/// What a knob reads: what was set, else its registered default.
pub open spec fn reads(
    bag: Map<Seq<char>, ValueView>,
    reg: KnobRegistry,
    name: Seq<char>,
) -> Option<ValueView> {
    if bag.contains_key(name) {
        Some(bag[name])
    } else {
        match reg.named(name) {
            Some(k) => Some(k.default),
            None => None,
        }
    }
}

proof fn lemma_settings_contain(s: Seq<(String, Value)>, k: Seq<char>)
    ensures
        settings(s).contains_key(k) <==> exists|i: int|
            0 <= i < s.len() && (#[trigger] s[i]).0@ == k,
    decreases s.len(),
{
    if s.len() > 0 {
        let d = s.drop_last();
        lemma_settings_contain(d, k);
        if settings(s).contains_key(k) {
            if s.last().0@ == k {
                assert(s[s.len() - 1].0@ == k);
            } else {
                let i = choose|i: int| 0 <= i < d.len() && (#[trigger] d[i]).0@ == k;
                assert(s[i].0@ == k);
            }
        }
        if exists|i: int| 0 <= i < s.len() && (#[trigger] s[i]).0@ == k {
            let i = choose|i: int| 0 <= i < s.len() && (#[trigger] s[i]).0@ == k;
            if i < d.len() {
                assert(d[i].0@ == k);
            }
        }
    }
}

proof fn lemma_settings_last(s: Seq<(String, Value)>, i: int, k: Seq<char>)
    requires
        0 <= i < s.len(),
        s[i].0@ == k,
        forall|j: int| i < j < s.len() ==> (#[trigger] s[j]).0@ != k,
    ensures
        settings(s).contains_key(k),
        settings(s)[k] == s[i].1@,
    decreases s.len(),
{
    if i < s.len() - 1 {
        let d = s.drop_last();
        assert(s[s.len() - 1].0@ != k);
        assert forall|j: int| i < j < d.len() implies (#[trigger] d[j]).0@ != k by {
            assert(s[j].0@ != k);
        }
        lemma_settings_last(d, i, k);
    }
}

// ─── Raw values ─────────────────────────────────────────────────────────────

/// A list's item as a config file has it.
#[derive(Debug, Clone)]
pub enum RawItem {
    Text(String),
    Integer(i64),
    Other,
}

/// A value as a config file has it.
#[derive(Debug, Clone)]
pub enum RawValue {
    Text(String),
    /// An integer, and the number it is.
    Integer(i64, Num),
    Float(Num),
    Boolean(bool),
    Datetime,
    List(Vec<RawItem>),
    Table,
}

impl RawValue {
    /// The file format's name for the value's type.
    pub open spec fn type_label(self) -> Seq<char> {
        match self {
            RawValue::Text(_) => "string"@,
            RawValue::Integer(_, _) => "integer"@,
            RawValue::Float(_) => "float"@,
            RawValue::Boolean(_) => "boolean"@,
            RawValue::Datetime => "datetime"@,
            RawValue::List(_) => "array"@,
            RawValue::Table => "table"@,
        }
    }

    /// The file format's name for the value's type.
    pub fn type_str(&self) -> (r: &'static str)
        ensures
            r@ == self.type_label(),
    {
        match self {
            RawValue::Text(_) => "string",
            RawValue::Integer(_, _) => "integer",
            RawValue::Float(_) => "float",
            RawValue::Boolean(_) => "boolean",
            RawValue::Datetime => "datetime",
            RawValue::List(_) => "array",
            RawValue::Table => "table",
        }
    }
}

/// An integer that a `u32` holds.
pub open spec fn is_u32(i: i64) -> bool {
    0 <= i <= u32::MAX
}

/// Every item is a text.
pub open spec fn all_texts(list: Seq<RawItem>) -> bool {
    forall|i: int| 0 <= i < list.len() ==> (#[trigger] list[i]) is Text
}

/// Every item is an integer that a `u32` holds.
pub open spec fn all_u32(list: Seq<RawItem>) -> bool {
    forall|i: int|
        0 <= i < list.len() ==> (#[trigger] list[i] matches RawItem::Integer(n) && is_u32(n))
}

/// The text of an item.
pub open spec fn item_text(item: RawItem) -> Seq<char> {
    match item {
        RawItem::Text(s) => s@,
        _ => Seq::empty(),
    }
}

/// The number of an item.
pub open spec fn item_u32(item: RawItem) -> u32 {
    match item {
        RawItem::Integer(n) => n as u32,
        _ => 0,
    }
}

/// A raw value as a knob of a type, where it fits. An integer is taken for a
/// float; a float is never taken for an integer; a list fits whole or not at
/// all.
pub open spec fn coerced(raw: RawValue, kind: Kind) -> Option<ValueView> {
    match (kind, raw) {
        (Kind::Bool, RawValue::Boolean(b)) => Some(ValueView::Bool(b)),
        (Kind::F64, RawValue::Float(x)) => Some(ValueView::F64(x)),
        (Kind::F64, RawValue::Integer(_, x)) => Some(ValueView::F64(x)),
        (Kind::U32, RawValue::Integer(i, _)) => if is_u32(i) {
            Some(ValueView::U32(i as u32))
        } else {
            None
        },
        (Kind::I64, RawValue::Integer(i, _)) => Some(ValueView::I64(i)),
        (Kind::Str, RawValue::Text(s)) => Some(ValueView::Str(s@)),
        (Kind::VecStr, RawValue::List(l)) => if all_texts(l@) {
            Some(ValueView::VecStr(Seq::new(l@.len(), |i: int| item_text(l@[i]))))
        } else {
            None
        },
        (Kind::VecU32, RawValue::List(l)) => if all_u32(l@) {
            Some(ValueView::VecU32(Seq::new(l@.len(), |i: int| item_u32(l@[i]))))
        } else {
            None
        },
        _ => None,
    }
}

/// A coerced value is of the type it was coerced to.
pub proof fn law_coercion_gives_the_kind(raw: RawValue, kind: Kind)
    ensures
        coerced(raw, kind) matches Some(v) ==> v.kind() == kind,
{
}

/// A float never passes for an integer.
pub proof fn law_floats_do_not_truncate(x: Num)
    ensures
        coerced(RawValue::Float(x), Kind::U32) is None,
        coerced(RawValue::Float(x), Kind::I64) is None,
{
}

fn coerce_texts(l: &Vec<RawItem>) -> (r: Option<Value>)
    ensures
        r is Some <==> all_texts(l@),
        r matches Some(v) ==> v@ == ValueView::VecStr(
            Seq::new(l@.len(), |i: int| item_text(l@[i])),
        ),
{
    let mut out: Vec<String> = Vec::new();
    let mut i: usize = 0;
    while i < l.len()
        invariant
            i <= l@.len(),
            out@.len() == i,
            forall|k: int|
                0 <= k < i ==> (#[trigger] l@[k]) is Text && out@[k]@ == item_text(l@[k]),
        decreases l@.len() - i,
    {
        match &l[i] {
            RawItem::Text(s) => out.push(s.clone()),
            _ => {
                assert(!(l@[i as int] is Text));
                return None;
            },
        }
        i = i + 1;
    }
    proof {
        assert(texts(out@) =~= Seq::new(l@.len(), |i: int| item_text(l@[i])));
    }
    Some(Value::VecStr(out))
}

fn coerce_numbers(l: &Vec<RawItem>) -> (r: Option<Value>)
    ensures
        r is Some <==> all_u32(l@),
        r matches Some(v) ==> v@ == ValueView::VecU32(
            Seq::new(l@.len(), |i: int| item_u32(l@[i])),
        ),
{
    let mut out: Vec<u32> = Vec::new();
    let mut i: usize = 0;
    while i < l.len()
        invariant
            i <= l@.len(),
            out@.len() == i,
            forall|k: int|
                0 <= k < i ==> (#[trigger] l@[k] matches RawItem::Integer(n) && is_u32(n))
                    && out@[k] == item_u32(l@[k]),
        decreases l@.len() - i,
    {
        match &l[i] {
            RawItem::Integer(n) => {
                let v: i64 = *n;
                if v < 0 || v > u32::MAX as i64 {
                    assert(!(l@[i as int] matches RawItem::Integer(n) && is_u32(n)));
                    return None;
                }
                out.push(v as u32);
            },
            _ => {
                assert(!(l@[i as int] matches RawItem::Integer(n) && is_u32(n)));
                return None;
            },
        }
        i = i + 1;
    }
    proof {
        assert(out@ =~= Seq::new(l@.len(), |i: int| item_u32(l@[i])));
    }
    Some(Value::VecU32(out))
}

/// A raw value as a knob of a type, where it fits.
pub fn coerce(raw: &RawValue, kind: Kind) -> (r: Option<Value>)
    ensures
        r is Some <==> coerced(*raw, kind) is Some,
        r matches Some(v) ==> coerced(*raw, kind) == Some(v@),
{
    match (kind, raw) {
        (Kind::Bool, RawValue::Boolean(b)) => Some(Value::Bool(*b)),
        (Kind::F64, RawValue::Float(x)) => Some(Value::F64(*x)),
        (Kind::F64, RawValue::Integer(_, x)) => Some(Value::F64(*x)),
        (Kind::U32, RawValue::Integer(i, _)) => {
            let n: i64 = *i;
            if n >= 0 && n <= u32::MAX as i64 {
                Some(Value::U32(n as u32))
            } else {
                None
            }
        },
        (Kind::I64, RawValue::Integer(i, _)) => Some(Value::I64(*i)),
        (Kind::Str, RawValue::Text(s)) => Some(Value::Str(s.clone())),
        (Kind::VecStr, RawValue::List(l)) => coerce_texts(l),
        (Kind::VecU32, RawValue::List(l)) => coerce_numbers(l),
        _ => None,
    }
}

// ─── Loading ────────────────────────────────────────────────────────────────

/// What is wrong with a table's entry.
pub enum EntryError {
    /// No knob has the name.
    Unknown,
    /// The value is not of the knob's type.
    WrongType(Kind),
}

/// What is wrong with an entry, if anything.
pub open spec fn entry_error(reg: KnobRegistry, key: Seq<char>, raw: RawValue) -> Option<EntryError> {
    match reg.named(key) {
        None => Some(EntryError::Unknown),
        Some(k) => if coerced(raw, k.kind) is None {
            Some(EntryError::WrongType(k.kind))
        } else {
            None
        },
    }
}

/// The message of an entry's error.
pub open spec fn error_text(
    reg: KnobRegistry,
    src: Seq<char>,
    key: Seq<char>,
    raw: RawValue,
    e: EntryError,
) -> Seq<char> {
    match e {
        EntryError::Unknown => "strategy config "@ + src + ": unknown [strategy] key \""@ + key
            + "\""@ + hint_text(reg.all(), key),
        EntryError::WrongType(kind) => "strategy config "@ + src + ": [strategy] key \""@ + key
            + "\" expects "@ + kind.label() + ", got "@ + raw.type_label(),
    }
}

/// The place of the first entry at or after `from` that is wrong.
pub open spec fn first_error(reg: KnobRegistry, t: Seq<(String, RawValue)>, from: int) -> int
    decreases t.len() - from,
{
    if from >= t.len() || entry_error(reg, t[from].0@, t[from].1) is Some {
        from
    } else {
        first_error(reg, t, from + 1)
    }
}

/// What the first `n` entries of a table set.
pub open spec fn loaded(reg: KnobRegistry, t: Seq<(String, RawValue)>, n: nat) -> Map<
    Seq<char>,
    ValueView,
>
    decreases n,
{
    if n == 0 {
        Map::empty()
    } else {
        let (key, raw) = t[n - 1];
        loaded(reg, t, (n - 1) as nat).insert(key@, coerced(raw, reg.named(key@)->0.kind)->0)
    }
}

/// Hints can be made on every key of a table.
pub open spec fn table_hintable(reg: KnobRegistry, t: Seq<(String, RawValue)>) -> bool {
    forall|i: int| 0 <= i < t.len() ==> hintable(reg.all(), (#[trigger] t[i]).0@)
}

impl Params {
    /// Every knob at its default.
    pub fn new() -> (r: Self)
        ensures
            r@ == Map::<Seq<char>, ValueView>::empty(),
    {
        Params { entries: Vec::new() }
    }

    fn find(&self, name: &str) -> (r: Option<usize>)
        ensures
            r is Some <==> self@.contains_key(name@),
            r matches Some(i) ==> i < self.entries@.len() && self@[name@] == self.entries@[i as int].1@,
    {
        let mut i: usize = self.entries.len();
        while i > 0
            invariant
                i <= self.entries@.len(),
                forall|j: int|
                    i <= j < self.entries@.len() ==> (#[trigger] self.entries@[j]).0@ != name@,
            decreases i,
        {
            i = i - 1;
            if str_eq(self.entries[i].0.as_str(), name) {
                proof {
                    lemma_settings_last(self.entries@, i as int, name@);
                }
                return Some(i);
            }
        }
        proof {
            lemma_settings_contain(self.entries@, name@);
        }
        None
    }

    fn put(&mut self, name: String, value: Value)
        ensures
            final(self)@ == old(self)@.insert(name@, value@),
    {
        self.entries.push((name, value));
        proof {
            assert(self.entries@.drop_last() =~= old(self).entries@);
        }
    }

    /// What a knob reads.
    pub fn get(&self, reg: &KnobRegistry, name: &str) -> (r: Value)
        requires
            reads(self@, *reg, name@) is Some,
        ensures
            reads(self@, *reg, name@) == Some(r@),
    {
        match self.find(name) {
            Some(i) => self.entries[i].1.dup(),
            None => spec_of(reg, name).unwrap().default,
        }
    }

    /// Whether a config set the knob, even to its default.
    pub fn is_set(&self, name: &str) -> (r: bool)
        ensures
            r == self@.contains_key(name@),
    {
        self.find(name).is_some()
    }

    /// Set a knob to a value of its type.
    pub fn set(&mut self, reg: &KnobRegistry, name: &str, v: Value)
        requires
            reg.named(name@) matches Some(k) && k.kind == v@.kind(),
        ensures
            final(self)@ == old(self)@.insert(name@, v@),
    {
        self.put(name.to_owned(), v);
    }

    /// Overlay another bag: what it sets wins, what it does not mention stays.
    pub fn overlay(&mut self, child: &Params)
        ensures
            final(self)@ == old(self)@.union_prefer_right(child@),
    {
        let ghost b0 = self@;
        let ghost c = child.entries@;
        let mut i: usize = 0;
        proof {
            assert(b0.union_prefer_right(settings(c.subrange(0, 0))) =~= b0);
        }
        while i < child.entries.len()
            invariant
                c == child.entries@,
                i <= c.len(),
                self@ == b0.union_prefer_right(settings(c.subrange(0, i as int))),
            decreases c.len() - i,
        {
            let e = &child.entries[i];
            self.put(e.0.clone(), e.1.dup());
            i = i + 1;
            proof {
                let s = c.subrange(0, i as int);
                assert(s.drop_last() =~= c.subrange(0, i - 1));
                let m = settings(c.subrange(0, i - 1));
                let (k, v) = (c[i - 1].0@, c[i - 1].1@);
                assert(b0.union_prefer_right(m).insert(k, v) =~= b0.union_prefer_right(
                    m.insert(k, v),
                ));
            }
        }
        proof {
            assert(c.subrange(0, i as int) =~= c);
        }
    }

    /// A switch.
    pub fn get_bool(&self, reg: &KnobRegistry, name: &str) -> (r: bool)
        requires
            reads(self@, *reg, name@) matches Some(v) && v.kind() == Kind::Bool,
        ensures
            reads(self@, *reg, name@) == Some(ValueView::Bool(r)),
    {
        match self.get(reg, name) {
            Value::Bool(b) => b,
            _ => false,
        }
    }

    /// A number.
    pub fn get_f64(&self, reg: &KnobRegistry, name: &str) -> (r: Num)
        requires
            reads(self@, *reg, name@) matches Some(v) && v.kind() == Kind::F64,
        ensures
            reads(self@, *reg, name@) == Some(ValueView::F64(r)),
    {
        match self.get(reg, name) {
            Value::F64(x) => x,
            _ => 0,
        }
    }

    /// A non-negative integer.
    pub fn get_u32(&self, reg: &KnobRegistry, name: &str) -> (r: u32)
        requires
            reads(self@, *reg, name@) matches Some(v) && v.kind() == Kind::U32,
        ensures
            reads(self@, *reg, name@) == Some(ValueView::U32(r)),
    {
        match self.get(reg, name) {
            Value::U32(n) => n,
            _ => 0,
        }
    }

    /// An integer.
    pub fn get_i64(&self, reg: &KnobRegistry, name: &str) -> (r: i64)
        requires
            reads(self@, *reg, name@) matches Some(v) && v.kind() == Kind::I64,
        ensures
            reads(self@, *reg, name@) == Some(ValueView::I64(r)),
    {
        match self.get(reg, name) {
            Value::I64(n) => n,
            _ => 0,
        }
    }

    /// A text.
    pub fn get_str(&self, reg: &KnobRegistry, name: &str) -> (r: String)
        requires
            reads(self@, *reg, name@) matches Some(v) && v.kind() == Kind::Str,
        ensures
            reads(self@, *reg, name@) == Some(ValueView::Str(r@)),
    {
        match self.get(reg, name) {
            Value::Str(s) => s,
            _ => String::new(),
        }
    }

    /// A list of texts.
    pub fn get_vec_str(&self, reg: &KnobRegistry, name: &str) -> (r: Vec<String>)
        requires
            reads(self@, *reg, name@) matches Some(v) && v.kind() == Kind::VecStr,
        ensures
            reads(self@, *reg, name@) == Some(ValueView::VecStr(texts(r@))),
    {
        match self.get(reg, name) {
            Value::VecStr(v) => v,
            _ => Vec::new(),
        }
    }

    /// A list of non-negative integers.
    pub fn get_vec_u32(&self, reg: &KnobRegistry, name: &str) -> (r: Vec<u32>)
        requires
            reads(self@, *reg, name@) matches Some(v) && v.kind() == Kind::VecU32,
        ensures
            reads(self@, *reg, name@) == Some(ValueView::VecU32(r@)),
    {
        match self.get(reg, name) {
            Value::VecU32(v) => v,
            _ => Vec::new(),
        }
    }

    /// A number, none when it is the sentinel.
    pub fn get_opt_f64(&self, reg: &KnobRegistry, name: &str, sentinel: Num) -> (r: Option<Num>)
        requires
            reads(self@, *reg, name@) matches Some(v) && v.kind() == Kind::F64,
        ensures
            r matches Some(x) ==> x != sentinel && reads(self@, *reg, name@) == Some(
                ValueView::F64(x),
            ),
            r is None ==> reads(self@, *reg, name@) == Some(ValueView::F64(sentinel)),
    {
        let v: Num = self.get_f64(reg, name);
        if v == sentinel {
            None
        } else {
            Some(v)
        }
    }

    /// A text, none when it is empty.
    pub fn get_opt_str(&self, reg: &KnobRegistry, name: &str) -> (r: Option<String>)
        requires
            reads(self@, *reg, name@) matches Some(v) && v.kind() == Kind::Str,
        ensures
            r matches Some(s) ==> s@.len() > 0 && reads(self@, *reg, name@) == Some(
                ValueView::Str(s@),
            ),
            r is None ==> reads(self@, *reg, name@) == Some(ValueView::Str(Seq::empty())),
    {
        let s = self.get_str(reg, name);
        if s.as_str().is_empty() {
            proof {
                assert(s@ =~= Seq::<char>::empty());
            }
            None
        } else {
            Some(s)
        }
    }

    /// The `ASSET:value` entries of a list knob, each split at its first
    /// colon; entries without one are left out.
    pub fn get_asset_pairs(&self, reg: &KnobRegistry, name: &str) -> (r: Vec<(String, String)>)
        requires
            reads(self@, *reg, name@) matches Some(v) && v.kind() == Kind::VecStr,
        ensures
            reads(self@, *reg, name@) matches Some(ValueView::VecStr(list)) && pair_views(r@)
                == pairs_of(list, list.len()),
    {
        let list = self.get_vec_str(reg, name);
        let ghost t = texts(list@);
        let mut out: Vec<(String, String)> = Vec::new();
        let mut i: usize = 0;
        proof {
            assert(pair_views(out@) =~= Seq::empty());
        }
        while i < list.len()
            invariant
                i <= list@.len(),
                t == texts(list@),
                pair_views(out@) == pairs_of(t, i as nat),
            decreases list@.len() - i,
        {
            let ghost before = out@;
            if let Some(pair) = split_once(list[i].as_str(), ':') {
                out.push(pair);
                proof {
                    assert(pair_views(out@) =~= pair_views(before).push((pair.0@, pair.1@)));
                }
            }
            i = i + 1;
        }
        out
    }

    /// The `ASSET:value` entries of a list knob as a map, `parsed[i]` being
    /// the number that the `i`-th pair's value is. An entry whose value is no
    /// number is left out.
    pub fn get_asset_map(
        &self,
        reg: &KnobRegistry,
        name: &str,
        parsed: &Vec<Option<Num>>,
    ) -> (r: StrMap<Num>)
        requires
            reads(self@, *reg, name@) matches Some(v) && v.kind() == Kind::VecStr,
            reads(self@, *reg, name@) matches Some(ValueView::VecStr(list)) && parsed@.len()
                == pairs_of(list, list.len()).len(),
        ensures
            reads(self@, *reg, name@) matches Some(ValueView::VecStr(list)) && r@ == numbers_of(
                pairs_of(list, list.len()),
                parsed@,
                parsed@.len(),
            ),
    {
        let pairs = self.get_asset_pairs(reg, name);
        let ghost p = pair_views(pairs@);
        let mut out: StrMap<Num> = StrMap::new();
        let mut i: usize = 0;
        while i < pairs.len()
            invariant
                i <= pairs@.len(),
                p == pair_views(pairs@),
                parsed@.len() == pairs@.len(),
                out@ == numbers_of(p, parsed@, i as nat),
            decreases pairs@.len() - i,
        {
            if let Some(x) = parsed[i] {
                out.insert(pairs[i].0.clone(), x);
            }
            i = i + 1;
        }
        out
    }

    /// Load a `[strategy]` table. The first entry that names no knob, or whose
    /// value is not of its knob's type, is an error that names it; nothing is
    /// ignored.
    pub fn from_table(reg: &KnobRegistry, table: &Vec<(String, RawValue)>, src: &str) -> (r: Result<
        Params,
        String,
    >)
        requires
            table_hintable(*reg, table@),
        ensures
            ({
                let i = first_error(*reg, table@, 0);
                if i < table@.len() {
                    let (key, raw) = table@[i];
                    r matches Err(e) && e@ == error_text(
                        *reg,
                        src@,
                        key@,
                        raw,
                        entry_error(*reg, key@, raw)->0,
                    )
                } else {
                    r matches Ok(p) && p@ == loaded(*reg, table@, table@.len())
                }
            }),
    {
        let mut p = Params::new();
        let mut i: usize = 0;
        while i < table.len()
            invariant
                i <= table@.len(),
                table_hintable(*reg, table@),
                first_error(*reg, table@, i as int) == first_error(*reg, table@, 0),
                p@ == loaded(*reg, table@, i as nat),
            decreases table@.len() - i,
        {
            let key = &table[i].0;
            let raw = &table[i].1;
            assert(hintable(reg.all(), table@[i as int].0@));
            match spec_of(reg, key.as_str()) {
                None => {
                    let mut s = "strategy config ".to_owned();
                    s.append(src);
                    s.append(": unknown [strategy] key \"");
                    s.append(key.as_str());
                    s.append("\"");
                    s.append(nearest_hint(reg, key.as_str()).as_str());
                    return Err(s);
                },
                Some(k) => {
                    match coerce(raw, k.kind) {
                        Some(v) => p.put(key.clone(), v),
                        None => {
                            let mut s = "strategy config ".to_owned();
                            s.append(src);
                            s.append(": [strategy] key \"");
                            s.append(key.as_str());
                            s.append("\" expects ");
                            s.append(k.kind.as_str());
                            s.append(", got ");
                            s.append(raw.type_str());
                            return Err(s);
                        },
                    }
                },
            }
            i = i + 1;
        }
        Ok(p)
    }

    /// Fees default to on in a backtest and to off otherwise; a config that
    /// sets them is left alone.
    pub fn apply_context_default_fees(&mut self, replay: bool)
        ensures
            final(self)@ == if old(self)@.contains_key("fees"@) {
                old(self)@
            } else {
                old(self)@.insert("fees"@, ValueView::Bool(replay))
            },
    {
        if !self.is_set("fees") {
            self.put("fees".to_owned(), Value::Bool(replay));
        }
    }
}

// ─── Pairs ──────────────────────────────────────────────────────────────────

/// The place of the first such character, at or after `from`.
pub open spec fn char_at(s: Seq<char>, c: char, from: int) -> int
    decreases s.len() - from,
{
    if from >= s.len() || s[from] == c {
        from
    } else {
        char_at(s, c, from + 1)
    }
}

/// A text split at the first such character, where it has one.
pub open spec fn split_at_first(s: Seq<char>, c: char) -> Option<(Seq<char>, Seq<char>)> {
    let i = char_at(s, c, 0);
    if i < s.len() {
        Some((s.subrange(0, i), s.subrange(i + 1, s.len() as int)))
    } else {
        None
    }
}

/// Split a text at the first such character.
pub fn split_once(s: &str, c: char) -> (r: Option<(String, String)>)
    ensures
        r is Some <==> split_at_first(s@, c) is Some,
        r matches Some(p) ==> split_at_first(s@, c) == Some((p.0@, p.1@)),
{
    let chars = chars_of(s);
    let n: usize = chars.len();
    let mut left: Vec<char> = Vec::new();
    let mut i: usize = 0;
    while i < n && chars[i] != c
        invariant
            n == chars@.len(),
            i <= n,
            chars@ == s@,
            left@ == s@.subrange(0, i as int),
            char_at(s@, c, i as int) == char_at(s@, c, 0),
        decreases n - i,
    {
        left.push(chars[i]);
        i = i + 1;
        proof {
            assert(left@ =~= s@.subrange(0, i as int));
        }
    }
    if i >= n {
        return None;
    }
    let from: usize = i + 1;
    let mut right: Vec<char> = Vec::new();
    let mut j: usize = from;
    while j < n
        invariant
            n == chars@.len(),
            from <= j <= n,
            chars@ == s@,
            right@ == s@.subrange(from as int, j as int),
        decreases n - j,
    {
        right.push(chars[j]);
        j = j + 1;
        proof {
            assert(right@ =~= s@.subrange(from as int, j as int));
        }
    }
    Some((string_of(&left), string_of(&right)))
}

/// Some pairs of strings as sequences of characters.
pub open spec fn pair_views(p: Seq<(String, String)>) -> Seq<(Seq<char>, Seq<char>)> {
    Seq::new(p.len(), |i: int| (p[i].0@, p[i].1@))
}

/// The pairs among the first `n` texts.
pub open spec fn pairs_of(list: Seq<Seq<char>>, n: nat) -> Seq<(Seq<char>, Seq<char>)>
    decreases n,
{
    if n == 0 {
        Seq::empty()
    } else {
        let rest = pairs_of(list, (n - 1) as nat);
        match split_at_first(list[n - 1], ':') {
            Some(p) => rest.push(p),
            None => rest,
        }
    }
}

/// The first `n` pairs whose value is a number.
pub open spec fn numbers_of(
    pairs: Seq<(Seq<char>, Seq<char>)>,
    parsed: Seq<Option<Num>>,
    n: nat,
) -> Map<Seq<char>, Num>
    decreases n,
{
    if n == 0 {
        Map::empty()
    } else {
        let rest = numbers_of(pairs, parsed, (n - 1) as nat);
        match parsed[n - 1] {
            Some(x) => rest.insert(pairs[n - 1].0, x),
            None => rest,
        }
    }
}

// ─── Laws ───────────────────────────────────────────────────────────────────

/// An unset knob reads its registered default.
pub proof fn law_unset_reads_the_default(
    bag: Map<Seq<char>, ValueView>,
    reg: KnobRegistry,
    name: Seq<char>,
)
    requires
        !bag.contains_key(name),
        reg.named(name) is Some,
    ensures
        reads(bag, reg, name) == Some(reg.named(name)->0.default),
{
}

/// Overlaying: the child wins on what it sets, lists included, and what it
/// does not mention is inherited.
pub proof fn law_overlay_is_child_wins(
    base: Map<Seq<char>, ValueView>,
    child: Map<Seq<char>, ValueView>,
    reg: KnobRegistry,
    name: Seq<char>,
)
    ensures
        child.contains_key(name) ==> reads(base.union_prefer_right(child), reg, name) == Some(
            child[name],
        ),
        !child.contains_key(name) ==> reads(base.union_prefer_right(child), reg, name) == reads(
            base,
            reg,
            name,
        ),
{
}

/// Overlaying the same bag twice is overlaying it once, and overlays group as
/// they please.
pub proof fn law_overlays_compose(
    a: Map<Seq<char>, ValueView>,
    b: Map<Seq<char>, ValueView>,
    c: Map<Seq<char>, ValueView>,
)
    ensures
        a.union_prefer_right(b).union_prefer_right(b) == a.union_prefer_right(b),
        a.union_prefer_right(b).union_prefer_right(c) == a.union_prefer_right(
            b.union_prefer_right(c),
        ),
{
    assert(a.union_prefer_right(b).union_prefer_right(b) =~= a.union_prefer_right(b));
    assert(a.union_prefer_right(b).union_prefer_right(c) =~= a.union_prefer_right(
        b.union_prefer_right(c),
    ));
}

proof fn lemma_no_error(reg: KnobRegistry, t: Seq<(String, RawValue)>, from: int, i: int)
    requires
        0 <= from <= i < t.len(),
        first_error(reg, t, from) >= t.len(),
    ensures
        entry_error(reg, t[i].0@, t[i].1) is None,
    decreases t.len() - from,
{
    if from < i {
        lemma_no_error(reg, t, from + 1, i);
    }
}

/// A table that loads sets only registered knobs, each to a value of its type:
/// a typo never passes.
pub proof fn law_a_loaded_table_is_valid(
    reg: KnobRegistry,
    t: Seq<(String, RawValue)>,
    n: nat,
    name: Seq<char>,
)
    requires
        n <= t.len(),
        first_error(reg, t, 0) >= t.len(),
        loaded(reg, t, n).contains_key(name),
    ensures
        reg.named(name) matches Some(k) && k.kind == loaded(reg, t, n)[name].kind(),
    decreases n,
{
    if n > 0 {
        lemma_no_error(reg, t, 0, n - 1);
        if t[n - 1].0@ != name {
            law_a_loaded_table_is_valid(reg, t, (n - 1) as nat, name);
        } else {
            law_coercion_gives_the_kind(t[n - 1].1, reg.named(name)->0.kind);
        }
    }
}

/// A value is read as its knob's type: flags from booleans, numbers from floats
/// and integers, counts from integers that are not negative and fit 32 bits,
/// integers from integers, texts from texts, and lists item by item. Nothing
/// else passes.
pub proof fn law_values_are_read_as_their_type(raw: RawValue, i: i64, x: Num, l: Vec<RawItem>, k: int)
    requires
        0 <= k < l@.len(),
    ensures
        coerced(RawValue::Integer(i, x), Kind::U32) == if 0 <= i && i <= 4_294_967_295 {
            Some(ValueView::U32(i as u32))
        } else {
            None
        },
        coerced(RawValue::Integer(i, x), Kind::I64) == Some(ValueView::I64(i)),
        coerced(RawValue::Integer(i, x), Kind::F64) == Some(ValueView::F64(x)),
        coerced(RawValue::Float(x), Kind::F64) == Some(ValueView::F64(x)),
        coerced(raw, Kind::Bool) is Some <==> raw is Boolean,
        coerced(raw, Kind::F64) is Some <==> raw is Float || raw is Integer,
        coerced(raw, Kind::I64) is Some <==> raw is Integer,
        coerced(raw, Kind::Str) is Some <==> raw is Text,
        coerced(raw, Kind::U32) is Some ==> raw is Integer,
        coerced(raw, Kind::VecStr) is Some || coerced(raw, Kind::VecU32) is Some ==> raw is List,
        ({
            let r = coerced(RawValue::List(l), Kind::VecStr);
            &&& r is Some <==> forall|j: int| 0 <= j < l@.len() ==> (#[trigger] l@[j]) is Text
            &&& r is Some ==> (r->0->VecStr_0).len() == l@.len() && (r->0->VecStr_0)[k]
                == (l@[k]->Text_0)@
        }),
        ({
            let r = coerced(RawValue::List(l), Kind::VecU32);
            &&& r is Some ==> (r->0->VecU32_0).len() == l@.len() && l@[k] is Integer && 0
                <= l@[k]->Integer_0 && l@[k]->Integer_0 <= 4_294_967_295 && (r->0->VecU32_0)[k]
                == l@[k]->Integer_0
            &&& r is None ==> exists|j: int|
                0 <= j < l@.len() && !((#[trigger] l@[j]) is Integer && 0 <= l@[j]->Integer_0
                    && l@[j]->Integer_0 <= 4_294_967_295)
        }),
{
    let r = coerced(RawValue::List(l), Kind::VecU32);
    if r is Some {
        assert(l@[k] matches RawItem::Integer(n) && is_u32(n));
    }
}

/// A table sets each of its keys to its last value, and nothing else.
pub proof fn law_a_table_sets_its_keys(
    reg: KnobRegistry,
    t: Seq<(String, RawValue)>,
    n: nat,
    name: Seq<char>,
    k: int,
)
    requires
        n <= t.len(),
        -1 <= k < n,
        k >= 0 ==> t[k].0@ == name,
        forall|j: int| k < j < n ==> (#[trigger] t[j]).0@ != name,
    ensures
        loaded(reg, t, n).contains_key(name) <==> k >= 0,
        k >= 0 ==> Some(loaded(reg, t, n)[name]) == Some(
            coerced(t[k].1, reg.named(name)->0.kind)->0,
        ),
    decreases n,
{
    if n > 0 && k < n - 1 {
        assert(t[n - 1].0@ != name);
        law_a_table_sets_its_keys(reg, t, (n - 1) as nat, name, k);
    }
}

/// A table is refused at its first entry that names no knob or is of another
/// type: as unknown in the one case, as of the wrong type in the other.
pub proof fn law_the_first_bad_entry_is_reported(
    reg: KnobRegistry,
    t: Seq<(String, RawValue)>,
    k: int,
)
    requires
        0 <= k <= t.len(),
        forall|j: int|
            0 <= j < k ==> reg.named((#[trigger] t[j]).0@) is Some && coerced(
                t[j].1,
                reg.named(t[j].0@)->0.kind,
            ) is Some,
        k < t.len() ==> reg.named(t[k].0@) is None || coerced(t[k].1, reg.named(t[k].0@)->0.kind)
            is None,
    ensures
        first_error(reg, t, 0) == k,
        k < t.len() && reg.named(t[k].0@) is None ==> entry_error(reg, t[k].0@, t[k].1) == Some(
            EntryError::Unknown,
        ),
        k < t.len() && reg.named(t[k].0@) is Some ==> entry_error(reg, t[k].0@, t[k].1) == Some(
            EntryError::WrongType(reg.named(t[k].0@)->0.kind),
        ),
{
    lemma_first_error(reg, t, 0, k);
}

proof fn lemma_first_error(reg: KnobRegistry, t: Seq<(String, RawValue)>, from: int, k: int)
    requires
        0 <= from <= k <= t.len(),
        forall|j: int|
            0 <= j < k ==> reg.named((#[trigger] t[j]).0@) is Some && coerced(
                t[j].1,
                reg.named(t[j].0@)->0.kind,
            ) is Some,
        k < t.len() ==> reg.named(t[k].0@) is None || coerced(t[k].1, reg.named(t[k].0@)->0.kind)
            is None,
    ensures
        first_error(reg, t, from) == k,
    decreases k - from,
{
    if from < k {
        assert(reg.named(t[from].0@) is Some);
        lemma_first_error(reg, t, from + 1, k);
    }
}

/// A text is split at the first occurrence of a character: what comes before it
/// does not hold it, and the parts with it between them make the text.
pub proof fn law_a_text_is_split_at_the_first_mark(s: Seq<char>, c: char)
    ensures
        split_at_first(s, c) is Some <==> s.contains(c),
        split_at_first(s, c) matches Some(p) ==> s == p.0.push(c) + p.1 && !p.0.contains(c),
{
    lemma_char_at(s, c, 0);
    let i = char_at(s, c, 0);
    if i < s.len() {
        assert(s =~= s.subrange(0, i).push(c) + s.subrange(i + 1, s.len() as int));
        assert(s[i] == c);
    }
}

proof fn lemma_char_at(s: Seq<char>, c: char, from: int)
    requires
        0 <= from <= s.len(),
    ensures
        ({
            let i = char_at(s, c, from);
            &&& from <= i <= s.len()
            &&& i < s.len() ==> s[i] == c
            &&& forall|j: int| from <= j < i ==> #[trigger] s[j] != c
        }),
    decreases s.len() - from,
{
    if from < s.len() && s[from] != c {
        lemma_char_at(s, c, from + 1);
    }
}

/// Pairs are the entries with a colon, split there, in order; entries without
/// one are passed over.
pub proof fn law_pairs_are_the_entries_with_a_colon(list: Seq<Seq<char>>, n: nat)
    requires
        0 < n <= list.len(),
    ensures
        ({
            let (was, now) = (pairs_of(list, (n - 1) as nat), pairs_of(list, n));
            let s = list[n - 1];
            &&& !s.contains(':') ==> now == was
            &&& s.contains(':') ==> now.len() == was.len() + 1 && now.drop_last() == was && s
                == now.last().0.push(':') + now.last().1 && !now.last().0.contains(':')
        }),
        pairs_of(list, 0).len() == 0,
{
    law_a_text_is_split_at_the_first_mark(list[n - 1], ':');
    let (was, now) = (pairs_of(list, (n - 1) as nat), pairs_of(list, n));
    if now.len() > was.len() {
        assert(now.drop_last() =~= was);
    }
}

/// Of an asset's numbers the last that could be read holds.
pub proof fn law_the_last_number_of_an_asset_holds(
    pairs: Seq<(Seq<char>, Seq<char>)>,
    parsed: Seq<Option<Num>>,
    n: nat,
    asset: Seq<char>,
    k: int,
)
    requires
        n <= pairs.len(),
        n <= parsed.len(),
        -1 <= k < n,
        k >= 0 ==> pairs[k].0 == asset && parsed[k] is Some,
        forall|j: int| k < j < n ==> (#[trigger] pairs[j]).0 != asset || parsed[j] is None,
    ensures
        numbers_of(pairs, parsed, n).contains_key(asset) <==> k >= 0,
        k >= 0 ==> numbers_of(pairs, parsed, n)[asset] == parsed[k]->0,
    decreases n,
{
    if n > 0 && k < n - 1 {
        assert(pairs[n - 1].0 != asset || parsed[n - 1] is None);
        law_the_last_number_of_an_asset_holds(pairs, parsed, (n - 1) as nat, asset, k);
    }
}

} // verus!
