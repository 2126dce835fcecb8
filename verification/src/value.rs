//! Documents: trees of null, booleans, numbers, texts, arrays and objects.
use crate::text::{push_decimal, signed_decimal, text_of};
use vstd::prelude::*;

verus! {

/// An entry of an object: a key and the value under it.
pub struct Entry {
    pub key: Seq<char>,
    pub value: Json,
}

/// A document as a mathematical value.
///
/// A number is the text of its decimal notation. An object is the list of its
/// entries in their order.
pub enum Json {
    Null,
    Bool(bool),
    Number(Seq<char>),
    String(Seq<char>),
    Array(Seq<Json>),
    Object(Seq<Entry>),
}

/// A number, kept as the text of its decimal notation.
#[derive(Debug, Clone, PartialEq, Eq)]
pub struct Number {
    text: String,
}

/// A document.
#[derive(Debug, PartialEq, Eq)]
pub enum Value {
    Null,
    Bool(bool),
    Number(Number),
    String(String),
    Array(Vec<Value>),
    Object(Vec<(String, Value)>),
}

impl View for Number {
    type V = Seq<char>;

    closed spec fn view(&self) -> Seq<char> {
        self.text@
    }
}

impl Number {
    /// The number with the given notation, which is kept as it is.
    pub fn from_text(text: &str) -> (out: Number)
        ensures
            out@ == text@,
    {
        Number { text: text.to_owned() }
    }

    /// The number `n`.
    pub fn from_u64(n: u64) -> (out: Number)
        ensures
            out@ == signed_decimal(n as int),
    {
        let mut digits: Vec<char> = Vec::new();
        push_decimal(&mut digits, n);
        assert(digits@ =~= signed_decimal(n as int));
        Number { text: text_of(&digits) }
    }

    /// The number `n`.
    pub fn from_i64(n: i64) -> (out: Number)
        ensures
            out@ == signed_decimal(n as int),
    {
        let mut digits: Vec<char> = Vec::new();
        if n < 0 {
            digits.push('-');
            let magnitude: u64 = (-(n + 1)) as u64 + 1;
            push_decimal(&mut digits, magnitude);
        } else {
            push_decimal(&mut digits, n as u64);
        }
        assert(digits@ =~= signed_decimal(n as int));
        Number { text: text_of(&digits) }
    }

    /// The decimal notation of the number.
    pub fn as_str(&self) -> (out: &str)
        ensures
            out@ == self@,
    {
        self.text.as_str()
    }
}

impl View for Value {
    type V = Json;

    open spec fn view(&self) -> Json
        decreases self,
    {
        match self {
            Value::Null => Json::Null,
            Value::Bool(b) => Json::Bool(*b),
            Value::Number(n) => Json::Number(n@),
            Value::String(s) => Json::String(s@),
            Value::Array(items) => Json::Array(
                Seq::new(
                    items@.len(),
                    |i: int|
                        if 0 <= i < items@.len() {
                            items@[i]@
                        } else {
                            Json::Null
                        },
                ),
            ),
            Value::Object(entries) => Json::Object(
                Seq::new(
                    entries@.len(),
                    |i: int|
                        if 0 <= i < entries@.len() {
                            Entry { key: entries@[i].0@, value: entries@[i].1@ }
                        } else {
                            Entry { key: Seq::empty(), value: Json::Null }
                        },
                ),
            ),
        }
    }
}

impl Value {
    /// A copy of the document.
    pub fn duplicate(&self) -> (out: Value)
        ensures
            out@ == self@,
        decreases self,
    {
        match self {
            Value::Null => Value::Null,
            Value::Bool(b) => Value::Bool(*b),
            Value::Number(n) => Value::Number(Number { text: n.text.clone() }),
            Value::String(s) => Value::String(s.clone()),
            Value::Array(items) => {
                let mut out: Vec<Value> = Vec::new();
                let mut i: usize = 0;
                while i < items.len()
                    invariant
                        i <= items.len(),
                        out.len() == i,
                        forall|k: int| 0 <= k < i ==> out@[k]@ == items@[k]@,
                        *self == Value::Array(*items),
                    decreases items.len() - i,
                {
                    let item = &items[i];
                    assert(decreases_to!(self => self->Array_0@[i as int]));
                    out.push(item.duplicate());
                    i += 1;
                }
                let copy = Value::Array(out);
                assert(copy@->Array_0 =~= self@->Array_0);
                copy
            },
            Value::Object(entries) => {
                let mut out: Vec<(String, Value)> = Vec::new();
                let mut i: usize = 0;
                while i < entries.len()
                    invariant
                        i <= entries.len(),
                        out.len() == i,
                        forall|k: int|
                            0 <= k < i ==> out@[k].0@ == entries@[k].0@ && out@[k].1@
                                == entries@[k].1@,
                        *self == Value::Object(*entries),
                    decreases entries.len() - i,
                {
                    let entry = &entries[i];
                    assert(decreases_to!(self => self->Object_0@[i as int].1));
                    out.push((entry.0.clone(), entry.1.duplicate()));
                    i += 1;
                }
                let copy = Value::Object(out);
                assert(copy@->Object_0 =~= self@->Object_0);
                copy
            },
        }
    }
}

impl Clone for Value {
    fn clone(&self) -> (out: Value)
        ensures
            out@ == self@,
    {
        self.duplicate()
    }
}

} // verus!
