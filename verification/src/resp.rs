//! RESP values and their mathematical model.

use std::collections::VecDeque;
use vstd::prelude::*;
use vstd::std_specs::vecdeque::VecDequeAdditionalSpecFns;

verus! {

broadcast use vstd::std_specs::vecdeque::group_vec_dequeue_axioms;

/// A value of the RESP wire protocol.
#[derive(Debug, PartialEq)]
pub enum Resp {
    Num(i64),
    SimpleStr(String),
    BulkStr(String),
    Nil,
    Arr(VecDeque<Resp>),
    FileContent(Vec<u8>),
}

/// The mathematical model of a [`Resp`] value: strings are taken as their
/// characters, arrays as sequences of models.
pub enum RespValue {
    Num(i64),
    SimpleStr(Seq<char>),
    BulkStr(Seq<char>),
    Nil,
    Arr(Seq<RespValue>),
    FileContent(Seq<u8>),
}

/// The model of a value.
pub open spec fn resp_value(r: Resp) -> RespValue
    decreases r,
{
    match r {
        Resp::Num(n) => RespValue::Num(n),
        Resp::SimpleStr(s) => RespValue::SimpleStr(s@),
        Resp::BulkStr(s) => RespValue::BulkStr(s@),
        Resp::Nil => RespValue::Nil,
        Resp::Arr(items) => RespValue::Arr(
            Seq::new(
                items@.len(),
                |i: int|
                    if 0 <= i < items@.len() {
                        resp_value(items[i])
                    } else {
                        RespValue::Nil
                    },
            ),
        ),
        Resp::FileContent(bytes) => RespValue::FileContent(bytes@),
    }
}

impl View for Resp {
    type V = RespValue;

    open spec fn view(&self) -> RespValue {
        resp_value(*self)
    }
}

impl RespValue {
    /// The text of a simple or bulk string; nothing for any other value.
    pub open spec fn text(self) -> Option<Seq<char>> {
        match self {
            RespValue::BulkStr(s) => Some(s),
            RespValue::SimpleStr(s) => Some(s),
            _ => None,
        }
    }
}

/// The models of the values of a queue, in order.
pub open spec fn resp_values(items: Seq<Resp>) -> Seq<RespValue> {
    Seq::new(items.len(), |i: int| resp_value(items[i]))
}

/// An array's model holds the models of its items.
pub proof fn lemma_arr_value(items: VecDeque<Resp>)
    ensures
        resp_value(Resp::Arr(items)) == RespValue::Arr(resp_values(items@)),
{
    let whole = resp_value(Resp::Arr(items));
    let inner = whole->Arr_0;
    assert(inner =~= resp_values(items@));
}

impl Resp {
    /// The text of a simple or bulk string, taken out of the value.
    pub fn get_str(self) -> (r: Option<String>)
        ensures
            match self@.text() {
                Some(t) => r matches Some(s) && s@ == t,
                None => r is None,
            },
    {
        match self {
            Resp::BulkStr(s) => Some(s),
            Resp::SimpleStr(s) => Some(s),
            _ => None,
        }
    }

    /// Whether the value is a simple or bulk string.
    pub fn if_str(&self) -> (r: bool)
        ensures
            r == self@.text() is Some,
    {
        match self {
            Resp::BulkStr(_) | Resp::SimpleStr(_) => true,
            _ => false,
        }
    }

    /// A copy of the value, item by item.
    pub fn duplicate(&self) -> (r: Resp)
        ensures
            r@ == self@,
        decreases self,
    {
        match self {
            Resp::Num(n) => Resp::Num(*n),
            Resp::SimpleStr(s) => Resp::SimpleStr(s.clone()),
            Resp::BulkStr(s) => Resp::BulkStr(s.clone()),
            Resp::Nil => Resp::Nil,
            Resp::Arr(items) => {
                let mut out: VecDeque<Resp> = VecDeque::new();
                let mut i: usize = 0;
                while i < items.len()
                    invariant
                        *self == Resp::Arr(*items),
                        i <= items@.len(),
                        out@.len() == i,
                        forall|j: int| 0 <= j < i ==> resp_value(#[trigger] out@[j]) == resp_value(items@[j]),
                    decreases items@.len() - i,
                {
                    proof {
                        vstd::std_specs::vecdeque::axiom_vec_dequeue_index_decreases(*items, i as int);
                        assert(decreases_to!(*self => (*self)->Arr_0));
                        assert(decreases_to!(*self => items[i as int]));
                    }
                    let item = items[i].duplicate();
                    out.push_back(item);
                    i = i + 1;
                }
                proof {
                    lemma_arr_value(*items);
                    lemma_arr_value(out);
                    assert(resp_values(out@) =~= resp_values(items@));
                }
                Resp::Arr(out)
            },
            Resp::FileContent(bytes) => Resp::FileContent(bytes.clone()),
        }
    }
}

impl Clone for Resp {
    /// A copy of the value, item by item.
    fn clone(&self) -> (r: Resp)
        ensures
            r@ == self@,
    {
        self.duplicate()
    }
}

} // verus!
