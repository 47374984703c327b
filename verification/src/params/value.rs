//! Knob types, values and declarations.
use vstd::prelude::*;
use crate::key::Num;

verus! {

/// A knob's declared type.
#[derive(Debug, Clone, Copy, PartialEq, Eq, Structural)]
pub enum Kind {
    Bool,
    F64,
    U32,
    I64,
    Str,
    /// A list of strings.
    VecStr,
    /// A list of non-negative integers.
    VecU32,
}

impl Kind {
    /// The type's name, as messages show it.
    pub open spec fn label(self) -> Seq<char> {
        match self {
            Kind::Bool => "Bool"@,
            Kind::F64 => "F64"@,
            Kind::U32 => "U32"@,
            Kind::I64 => "I64"@,
            Kind::Str => "Str"@,
            Kind::VecStr => "VecStr"@,
            Kind::VecU32 => "VecU32"@,
        }
    }

    /// The type's name, as messages show it.
    pub fn as_str(self) -> (r: &'static str)
        ensures
            r@ == self.label(),
    {
        match self {
            Kind::Bool => "Bool",
            Kind::F64 => "F64",
            Kind::U32 => "U32",
            Kind::I64 => "I64",
            Kind::Str => "Str",
            Kind::VecStr => "VecStr",
            Kind::VecU32 => "VecU32",
        }
    }
}

/// A knob's value.
#[derive(Debug, Clone)]
pub enum Value {
    Bool(bool),
    F64(Num),
    U32(u32),
    I64(i64),
    Str(String),
    VecStr(Vec<String>),
    VecU32(Vec<u32>),
}

/// A knob's value, mathematically.
pub enum ValueView {
    Bool(bool),
    F64(Num),
    U32(u32),
    I64(i64),
    Str(Seq<char>),
    VecStr(Seq<Seq<char>>),
    VecU32(Seq<u32>),
}

/// Some strings as sequences of characters.
pub open spec fn texts(list: Seq<String>) -> Seq<Seq<char>> {
    Seq::new(list.len(), |i: int| list[i]@)
}

impl View for Value {
    type V = ValueView;

    open spec fn view(&self) -> ValueView {
        match self {
            Value::Bool(b) => ValueView::Bool(*b),
            Value::F64(x) => ValueView::F64(*x),
            Value::U32(n) => ValueView::U32(*n),
            Value::I64(n) => ValueView::I64(*n),
            Value::Str(s) => ValueView::Str(s@),
            Value::VecStr(v) => ValueView::VecStr(texts(v@)),
            Value::VecU32(v) => ValueView::VecU32(v@),
        }
    }
}

impl ValueView {
    /// The type of a value.
    pub open spec fn kind(self) -> Kind {
        match self {
            ValueView::Bool(_) => Kind::Bool,
            ValueView::F64(_) => Kind::F64,
            ValueView::U32(_) => Kind::U32,
            ValueView::I64(_) => Kind::I64,
            ValueView::Str(_) => Kind::Str,
            ValueView::VecStr(_) => Kind::VecStr,
            ValueView::VecU32(_) => Kind::VecU32,
        }
    }
}

/// An equal list of strings.
pub fn dup_texts(list: &Vec<String>) -> (r: Vec<String>)
    ensures
        texts(r@) == texts(list@),
{
    let mut out: Vec<String> = Vec::new();
    let mut i: usize = 0;
    while i < list.len()
        invariant
            i <= list@.len(),
            out@.len() == i,
            forall|k: int| 0 <= k < i ==> (#[trigger] out@[k])@ == list@[k]@,
        decreases list@.len() - i,
    {
        out.push(list[i].clone());
        i = i + 1;
    }
    proof {
        assert(texts(out@) =~= texts(list@));
    }
    out
}

fn dup_numbers(list: &Vec<u32>) -> (r: Vec<u32>)
    ensures
        r@ == list@,
{
    let mut out: Vec<u32> = Vec::new();
    let mut i: usize = 0;
    while i < list.len()
        invariant
            i <= list@.len(),
            out@ == list@.subrange(0, i as int),
        decreases list@.len() - i,
    {
        out.push(list[i]);
        i = i + 1;
        proof {
            assert(out@ =~= list@.subrange(0, i as int));
        }
    }
    proof {
        assert(out@ =~= list@);
    }
    out
}

fn same_texts(a: &Vec<String>, b: &Vec<String>) -> (r: bool)
    ensures
        r == (texts(a@) == texts(b@)),
{
    if a.len() != b.len() {
        assert(texts(a@).len() != texts(b@).len());
        return false;
    }
    let mut i: usize = 0;
    while i < a.len()
        invariant
            i <= a@.len(),
            a@.len() == b@.len(),
            forall|k: int| 0 <= k < i ==> (#[trigger] a@[k])@ == b@[k]@,
        decreases a@.len() - i,
    {
        if a[i] != b[i] {
            assert(texts(a@)[i as int] != texts(b@)[i as int]);
            return false;
        }
        i = i + 1;
    }
    proof {
        assert(texts(a@) =~= texts(b@));
    }
    true
}

fn same_numbers(a: &Vec<u32>, b: &Vec<u32>) -> (r: bool)
    ensures
        r == (a@ == b@),
{
    if a.len() != b.len() {
        return false;
    }
    let mut i: usize = 0;
    while i < a.len()
        invariant
            i <= a@.len(),
            a@.len() == b@.len(),
            forall|k: int| 0 <= k < i ==> #[trigger] a@[k] == b@[k],
        decreases a@.len() - i,
    {
        if a[i] != b[i] {
            return false;
        }
        i = i + 1;
    }
    proof {
        assert(a@ =~= b@);
    }
    true
}

impl Value {
    /// The type of a value.
    pub fn kind(&self) -> (r: Kind)
        ensures
            r == self@.kind(),
    {
        match self {
            Value::Bool(_) => Kind::Bool,
            Value::F64(_) => Kind::F64,
            Value::U32(_) => Kind::U32,
            Value::I64(_) => Kind::I64,
            Value::Str(_) => Kind::Str,
            Value::VecStr(_) => Kind::VecStr,
            Value::VecU32(_) => Kind::VecU32,
        }
    }

    /// An equal value.
    pub fn dup(&self) -> (r: Self)
        ensures
            r@ == self@,
    {
        match self {
            Value::Bool(b) => Value::Bool(*b),
            Value::F64(x) => Value::F64(*x),
            Value::U32(n) => Value::U32(*n),
            Value::I64(n) => Value::I64(*n),
            Value::Str(s) => Value::Str(s.clone()),
            Value::VecStr(v) => Value::VecStr(dup_texts(v)),
            Value::VecU32(v) => Value::VecU32(dup_numbers(v)),
        }
    }

    /// Whether two values are the same.
    pub fn same(&self, other: &Value) -> (r: bool)
        ensures
            r == (self@ == other@),
    {
        match (self, other) {
            (Value::Bool(a), Value::Bool(b)) => *a == *b,
            (Value::F64(a), Value::F64(b)) => *a == *b,
            (Value::U32(a), Value::U32(b)) => *a == *b,
            (Value::I64(a), Value::I64(b)) => *a == *b,
            (Value::Str(a), Value::Str(b)) => *a == *b,
            (Value::VecStr(a), Value::VecStr(b)) => same_texts(a, b),
            (Value::VecU32(a), Value::VecU32(b)) => same_numbers(a, b),
            _ => false,
        }
    }
}

/// A knob's declaration.
#[derive(Debug, Clone)]
pub struct Knob {
    pub name: String,
    pub kind: Kind,
    /// What an unset knob reads as.
    pub default: Value,
    /// What the knob does.
    pub doc: String,
}

/// A knob's declaration, mathematically.
pub struct KnobView {
    pub name: Seq<char>,
    pub kind: Kind,
    pub default: ValueView,
    pub doc: Seq<char>,
}

impl View for Knob {
    type V = KnobView;

    open spec fn view(&self) -> KnobView {
        KnobView {
            name: self.name@,
            kind: self.kind,
            default: self.default@,
            doc: self.doc@,
        }
    }
}

impl Knob {
    /// An equal declaration.
    pub fn dup(&self) -> (r: Self)
        ensures
            r@ == self@,
    {
        Knob {
            name: self.name.clone(),
            kind: self.kind,
            default: self.default.dup(),
            doc: self.doc.clone(),
        }
    }
}

} // verus!
