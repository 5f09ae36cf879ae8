//! Run-time helpers of generated templates: the loop driver that tells each
//! item its position, and the display of optional values.

use vstd::prelude::*;
use crate::escape::{DisplayValue, Escaper, MarkupDisplay};

verus! {

/// Where an item stands in a loop.
#[derive(Clone, Copy, Debug, PartialEq, Eq)]
pub struct LoopItem {
    /// Its position, from 0.
    pub index: usize,
    /// Whether it is the first item.
    pub first: bool,
    /// Whether it is the last item.
    pub last: bool,
}

/// Hands out the items of a loop one by one, each with its `LoopItem`.
pub struct TemplateLoop<T> {
    /// The items not handed out yet, the next one last.
    rest: Vec<T>,
    /// How many items were handed out.
    index: usize,
}

impl<T> TemplateLoop<T> {
    /// The items not handed out yet, in order.
    pub closed spec fn remaining(&self) -> Seq<T> {
        self.rest@.reverse()
    }

    /// How many items were handed out.
    pub closed spec fn position(&self) -> nat {
        self.index as nat
    }

    /// How many items the loop has in all.
    pub open spec fn total(&self) -> nat {
        self.position() + self.remaining().len()
    }

    /// The counts fit in a `usize`.
    pub closed spec fn wf(&self) -> bool {
        self.index + self.rest@.len() <= usize::MAX
    }

    /// A loop over `items`, in their order.
    pub fn new(items: Vec<T>) -> (r: Self)
        ensures
            r.wf(),
            r.remaining() == items@,
            r.position() == 0,
    {
        let mut items = items;
        let ghost all = items@;
        let mut rest: Vec<T> = Vec::new();
        while items.len() > 0
            invariant
                rest@.len() + items@.len() == all.len(),
                items@ == all.subrange(0, items@.len() as int),
                rest@.reverse() == all.subrange(items@.len() as int, all.len() as int),
            decreases items.len(),
        {
            let ghost n = items@.len();
            let ghost before = rest@;
            let x = items.pop().unwrap();
            rest.push(x);
            assert(items@ =~= all.subrange(0, items@.len() as int));
            assert(rest@.reverse() =~= all.subrange(items@.len() as int, all.len() as int)) by {
                assert(before.reverse() =~= all.subrange(n as int, all.len() as int));
                assert forall|j: int| 0 <= j < rest@.len() implies rest@.reverse()[j] == all.subrange(
                    items@.len() as int,
                    all.len() as int,
                )[j] by {
                    if j > 0 {
                        assert(rest@.reverse()[j] == before.reverse()[j - 1]);
                    }
                }
            }
        }
        assert(all.subrange(0, all.len() as int) =~= all);
        let n = rest.len();
        assert(n == rest@.len());
        TemplateLoop { rest, index: 0 }
    }

    /// The next item with its position: its index, whether it is the first
    /// and whether it is the last; `None` once every item was handed out.
    pub fn next(&mut self) -> (r: Option<(T, LoopItem)>)
        requires
            old(self).wf(),
        ensures
            final(self).wf(),
            old(self).remaining().len() == 0 ==> r is None && final(self).remaining() == old(
                self,
            ).remaining() && final(self).position() == old(self).position(),
            old(self).remaining().len() > 0 ==> (r matches Some(p) && {
                &&& p.0 == old(self).remaining()[0]
                &&& p.1.index == old(self).position()
                &&& p.1.first == (old(self).position() == 0)
                &&& p.1.last == (old(self).remaining().len() == 1)
                &&& final(self).remaining() == old(self).remaining().drop_first()
                &&& final(self).position() == old(self).position() + 1
            }),
            final(self).total() == old(self).total(),
    {
        let n = self.rest.len();
        if n == 0 {
            return None;
        }
        let ghost before = self.rest@;
        let x = self.rest.pop().unwrap();
        let item = LoopItem { index: self.index, first: self.index == 0, last: n == 1 };
        self.index = self.index + 1;
        assert(self.rest@.reverse() =~= before.reverse().drop_first());
        Some((x, item))
    }
}

/// A value that may be missing, rendered through an escaper: nothing when
/// it is missing.
pub struct OptionMarkupDisplay<E: Escaper + Copy> {
    pub value: Option<String>,
    pub escaper: E,
}

impl<E: Escaper + Copy> OptionMarkupDisplay<E> {
    /// The escaped value, or the empty string.
    pub fn render(&self) -> (r: String)
        ensures
            r@ == (match self.value {
                Some(v) => self.escaper.escape_spec(v@),
                None => Seq::<char>::empty(),
            }),
    {
        match &self.value {
            Some(v) => {
                let m = MarkupDisplay::new_unsafe(v.clone(), self.escaper);
                m.render()
            },
            None => String::new(),
        }
    }
}

/// Values that generated templates wrap for display through an escaper.
pub trait MarkupDisplayWrap {
    /// What is displayed.
    type Result;

    /// The value, marked as needing escaping.
    fn askama_new_unsafe(self) -> Self::Result;
}

impl<'a, E: Escaper + Copy> MarkupDisplayWrap for (&'a String, E) {
    type Result = MarkupDisplay<E>;

    fn askama_new_unsafe(self) -> (r: MarkupDisplay<E>)
        ensures
            r.value == DisplayValue::Unsafe(*self.0),
            r.escaper == self.1,
    {
        MarkupDisplay::new_unsafe(self.0.clone(), self.1)
    }
}

impl<'a, E: Escaper + Copy> MarkupDisplayWrap for (&'a Option<String>, E) {
    type Result = OptionMarkupDisplay<E>;

    fn askama_new_unsafe(self) -> (r: OptionMarkupDisplay<E>)
        ensures
            r.value == *self.0,
            r.escaper == self.1,
    {
        OptionMarkupDisplay { value: self.0.clone(), escaper: self.1 }
    }
}


/// The values present among `v`, in order.
pub open spec fn somes<T>(v: Seq<Option<T>>) -> Seq<T>
    decreases v.len(),
{
    if v.len() == 0 {
        seq![]
    } else {
        match v.last() {
            Some(x) => somes(v.drop_last()).push(x),
            None => somes(v.drop_last()),
        }
    }
}

/// Collects the values that are present, in order: what the `map!` helper
/// of generated code does with an optional field of each item.
pub fn map_some<T: Copy>(v: &Vec<Option<T>>) -> (r: Vec<T>)
    ensures
        r@ == somes(v@),
{
    let mut out: Vec<T> = Vec::new();
    let mut i: usize = 0;
    while i < v.len()
        invariant
            i <= v@.len(),
            out@ == somes(v@.subrange(0, i as int)),
        decreases v.len() - i,
    {
        assert(v@.subrange(0, i + 1).drop_last() =~= v@.subrange(0, i as int));
        match v[i] {
            Some(x) => out.push(x),
            None => {},
        }
        i = i + 1;
    }
    assert(v@.subrange(0, i as int) =~= v@);
    out
}

} // verus!
