//! Flat objects of named values, as a journal line or a report row holds.
use vstd::prelude::*;
use crate::key::Num;

verus! {

/// A value of a record.
#[derive(Debug, Clone)]
pub enum Leaf {
    Null,
    Bool(bool),
    Count(u64),
    Num(Num),
    Text(String),
}

/// A value of a record, mathematically.
pub enum LeafView {
    Null,
    Bool(bool),
    Count(u64),
    Num(Num),
    Text(Seq<char>),
}

impl View for Leaf {
    type V = LeafView;

    open spec fn view(&self) -> LeafView {
        match self {
            Leaf::Null => LeafView::Null,
            Leaf::Bool(b) => LeafView::Bool(*b),
            Leaf::Count(n) => LeafView::Count(*n),
            Leaf::Num(x) => LeafView::Num(*x),
            Leaf::Text(s) => LeafView::Text(s@),
        }
    }
}

/// Named values, in the order in which they were put.
#[derive(Debug, Clone)]
pub struct Record {
    pub fields: Vec<(String, Leaf)>,
}

/// A record, mathematically.
pub type Fields = Seq<(Seq<char>, LeafView)>;

impl View for Record {
    type V = Fields;

    open spec fn view(&self) -> Fields {
        Seq::new(
            self.fields@.len(),
            |i: int| (self.fields@[i].0@, self.fields@[i].1@),
        )
    }
}

impl Record {
    /// The record without values.
    pub fn new() -> (r: Self)
        ensures
            r@ == Seq::<(Seq<char>, LeafView)>::empty(),
    {
        let r = Record { fields: Vec::new() };
        proof {
            assert(r@ =~= Seq::<(Seq<char>, LeafView)>::empty());
        }
        r
    }

    /// Put a value.
    pub fn put(&mut self, name: &str, value: Leaf)
        ensures
            final(self)@ == old(self)@.push((name@, value@)),
    {
        self.fields.push((name.to_owned(), value));
        proof {
            assert(self@ =~= old(self)@.push((name@, value@)));
        }
    }

    /// Put a text.
    pub fn text(&mut self, name: &str, value: &str)
        ensures
            final(self)@ == old(self)@.push((name@, LeafView::Text(value@))),
    {
        self.put(name, Leaf::Text(value.to_owned()));
    }

    /// Put a number.
    pub fn num(&mut self, name: &str, value: Num)
        ensures
            final(self)@ == old(self)@.push((name@, LeafView::Num(value))),
    {
        self.put(name, Leaf::Num(value));
    }
}

/// A text value.
pub open spec fn text_of(name: Seq<char>, value: Seq<char>) -> (Seq<char>, LeafView) {
    (name, LeafView::Text(value))
}

/// A number value.
pub open spec fn num_of(name: Seq<char>, value: Num) -> (Seq<char>, LeafView) {
    (name, LeafView::Num(value))
}

} // verus!
