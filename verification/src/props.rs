//! NVDB attribute values and the per-segment property map.
//!
//! A property cell is an integer, a measure (held in tenths, the precision
//! every consumer of a measure renders), a text, a boolean, or null. The
//! property map is an insertion-ordered association list, like the tag map.

use crate::maps::{lemma_map_of_dom, lemma_map_of_get, lemma_map_of_update, map_of};
use crate::strutil::{dec_str_i, str_eq, tenths_str};
use vstd::prelude::*;

verus! {

/// An NVDB property value.
pub enum PropertyValue {
    /// A whole number.
    Integer(i64),
    /// A measure with one decimal, held in tenths.
    Decimal(i64),
    /// A text.
    Text(String),
    /// A boolean.
    Boolean(bool),
    /// No value.
    Null,
}

/// The mathematical value of a property cell.
pub enum PropView {
    Integer(int),
    Decimal(int),
    Text(Seq<char>),
    Boolean(bool),
    Null,
}

impl View for PropertyValue {
    type V = PropView;

    open spec fn view(&self) -> PropView {
        match *self {
            PropertyValue::Integer(i) => PropView::Integer(i as int),
            PropertyValue::Decimal(t) => PropView::Decimal(t as int),
            PropertyValue::Text(ref s) => PropView::Text(s@),
            PropertyValue::Boolean(b) => PropView::Boolean(b),
            PropertyValue::Null => PropView::Null,
        }
    }
}

/// Truncating division by ten, rounding toward zero.
pub open spec fn trunc_div10(t: int) -> int {
    if t >= 0 {
        t / 10
    } else {
        -((-t) / 10)
    }
}

/// The whole number a property reads as: a measure is truncated toward
/// zero, and a boolean reads as one or zero.
pub open spec fn as_i64_view(v: PropView) -> Option<int> {
    match v {
        PropView::Integer(i) => Option::Some(i),
        PropView::Decimal(t) => Option::Some(trunc_div10(t)),
        PropView::Boolean(b) => Option::Some(
            if b {
                1int
            } else {
                0int
            },
        ),
        _ => Option::None,
    }
}

/// The measure a property reads as, in tenths.
pub open spec fn as_tenths_view(v: PropView) -> Option<int> {
    match v {
        PropView::Integer(i) => if -922_337_203_685_477_580 <= i <= 922_337_203_685_477_580 {
            Option::Some(10 * i)
        } else {
            Option::None
        },
        PropView::Decimal(t) => Option::Some(t),
        _ => Option::None,
    }
}

/// The text a property reads as.
pub open spec fn as_string_view(v: PropView) -> Seq<char> {
    match v {
        PropView::Integer(i) => dec_str_i(i),
        PropView::Decimal(t) => tenths_str(t, false),
        PropView::Text(s) => s,
        PropView::Boolean(b) => if b {
            "true"@
        } else {
            "false"@
        },
        PropView::Null => Seq::empty(),
    }
}

impl PropertyValue {
    /// Render the value as text: numbers in decimal, booleans as words,
    /// null as the empty string.
    pub fn as_string(&self) -> (r: String)
        ensures
            r@ == as_string_view(self@),
    {
        match self {
            PropertyValue::Integer(i) => crate::strutil::i64_to_string(*i),
            PropertyValue::Decimal(t) => crate::strutil::tenths_to_string(*t, false),
            PropertyValue::Text(s) => {
                let r = s.clone();
                r
            },
            PropertyValue::Boolean(b) => {
                if *b {
                    let r = String::from_str("true");
                    r
                } else {
                    let r = String::from_str("false");
                    r
                }
            },
            PropertyValue::Null => {
                let r = String::new();
                proof {
                    assert(r@ =~= Seq::<char>::empty());
                }
                r
            },
        }
    }

    /// The value as a whole number, if it is numeric.
    pub fn as_i64(&self) -> (r: Option<i64>)
        ensures
            match r {
                Option::Some(v) => as_i64_view(self@) == Option::Some(v as int),
                Option::None => as_i64_view(self@) is None,
            },
    {
        match self {
            PropertyValue::Integer(i) => Option::Some(*i),
            PropertyValue::Decimal(t) => {
                let tv = *t;
                let mag: u64 = if tv < 0 {
                    ((-(tv + 1)) as u64) + 1
                } else {
                    tv as u64
                };
                let q = mag / 10;
                if tv < 0 {
                    assert(q <= mag);
                    Option::Some(-(q as i64))
                } else {
                    Option::Some(q as i64)
                }
            },
            PropertyValue::Boolean(b) => {
                if *b {
                    Option::Some(1i64)
                } else {
                    Option::Some(0i64)
                }
            },
            _ => Option::None,
        }
    }

    /// The value as a measure in tenths, if it is numeric.
    pub fn as_tenths(&self) -> (r: Option<i64>)
        ensures
            match r {
                Option::Some(v) => as_tenths_view(self@) == Option::Some(v as int),
                Option::None => as_tenths_view(self@) is None,
            },
    {
        match self {
            PropertyValue::Integer(i) => {
                let iv = *i;
                if -922_337_203_685_477_580 <= iv && iv <= 922_337_203_685_477_580 {
                    Option::Some(10 * iv)
                } else {
                    Option::None
                }
            },
            PropertyValue::Decimal(t) => Option::Some(*t),
            _ => Option::None,
        }
    }
}

/// The property map of one segment: attribute name to value, insertion
/// ordered, with distinct names.
pub struct PropMap {
    keys: Vec<String>,
    vals: Vec<PropertyValue>,
}

impl PropMap {
    /// The attribute names, as character sequences, in insertion order.
    pub closed spec fn key_seq(self) -> Seq<Seq<char>> {
        self.keys@.map_values(|k: String| k@)
    }

    /// The values, in insertion order.
    pub closed spec fn val_seq(self) -> Seq<PropView> {
        self.vals@.map_values(|v: PropertyValue| v@)
    }

    /// Keys and values are parallel and keys are distinct.
    pub open spec fn wf(self) -> bool {
        &&& self.key_seq().len() == self.val_seq().len()
        &&& forall|a: int, b: int|
            0 <= a < b < self.key_seq().len() ==> self.key_seq()[a] != self.key_seq()[b]
    }

    /// The map this property list holds.
    pub open spec fn view(self) -> Map<Seq<char>, PropView> {
        map_of(self.key_seq(), self.val_seq())
    }

    /// An empty property map.
    pub fn new() -> (r: PropMap)
        ensures
            r.wf(),
            r@ == Map::<Seq<char>, PropView>::empty(),
    {
        let r = PropMap { keys: Vec::new(), vals: Vec::new() };
        proof {
            assert(r.key_seq() =~= Seq::<Seq<char>>::empty());
            assert(r.val_seq() =~= Seq::<PropView>::empty());
        }
        r
    }

    /// Where `key` sits in the list, if anywhere.
    fn find(&self, key: &str) -> (r: Option<usize>)
        requires
            self.key_seq().len() == self.val_seq().len(),
        ensures
            match r {
                Option::Some(i) => i < self.key_seq().len() && self.key_seq()[i as int] == key@,
                Option::None => forall|i: int|
                    0 <= i < self.key_seq().len() ==> self.key_seq()[i] != key@,
            },
    {
        let n = self.keys.len();
        let mut i: usize = 0;
        while i < n
            invariant
                i <= n,
                n == self.key_seq().len(),
                forall|k: int| 0 <= k < i ==> self.key_seq()[k] != key@,
            decreases n - i,
        {
            if str_eq(self.keys[i].as_str(), key) {
                return Option::Some(i);
            }
            i = i + 1;
        }
        Option::None
    }

    /// The value under `key`, if any.
    pub fn get(&self, key: &str) -> (r: Option<&PropertyValue>)
        requires
            self.wf(),
        ensures
            match r {
                Option::Some(v) => self@.dom().contains(key@) && self@[key@] == v@,
                Option::None => !self@.dom().contains(key@),
            },
    {
        proof {
            lemma_map_of_dom(self.key_seq(), self.val_seq());
        }
        match self.find(key) {
            Option::Some(i) => {
                proof {
                    lemma_map_of_get(self.key_seq(), self.val_seq(), i as int);
                    assert(self.key_seq().contains(key@));
                }
                Option::Some(&self.vals[i])
            },
            Option::None => {
                proof {
                    if self.key_seq().contains(key@) {
                        let i = choose|i: int|
                            0 <= i < self.key_seq().len() && self.key_seq()[i] == key@;
                    }
                }
                Option::None
            },
        }
    }

    /// Set `key` to `val`.
    pub fn insert(&mut self, key: &str, val: PropertyValue)
        requires
            old(self).wf(),
        ensures
            final(self).wf(),
            final(self)@ == old(self)@.insert(key@, val@),
    {
        proof {
            lemma_map_of_dom(old(self).key_seq(), old(self).val_seq());
        }
        match self.find(key) {
            Option::Some(i) => {
                proof {
                    assert(self.key_seq().contains(key@));
                }
                let ghost oldks = self.key_seq();
                let ghost oldvs = self.val_seq();
                let ghost vv = val@;
                self.vals.set(i, val);
                proof {
                    assert(self.key_seq() =~= oldks);
                    assert(self.val_seq() =~= oldvs.update(i as int, vv));
                    lemma_map_of_update(oldks, oldvs, i as int, vv);
                }
            },
            Option::None => {
                proof {
                    if old(self).key_seq().contains(key@) {
                        let i = choose|i: int|
                            0 <= i < old(self).key_seq().len() && old(self).key_seq()[i] == key@;
                    }
                }
                let ghost oldks = self.key_seq();
                let ghost oldvs = self.val_seq();
                let ghost vv = val@;
                let kown = key.to_owned();
                self.keys.push(kown);
                self.vals.push(val);
                proof {
                    assert(self.key_seq() =~= oldks.push(key@));
                    assert(self.val_seq() =~= oldvs.push(vv));
                    assert(self.key_seq().drop_last() =~= oldks);
                    assert(self.val_seq().drop_last() =~= oldvs);
                }
            },
        }
    }

    /// The whole number under `key`, if the key is present and numeric.
    pub fn get_i64(&self, key: &str) -> (r: Option<i64>)
        requires
            self.wf(),
        ensures
            match r {
                Option::Some(v) => self@.dom().contains(key@) && as_i64_view(self@[key@])
                    == Option::Some(v as int),
                Option::None => !self@.dom().contains(key@) || as_i64_view(self@[key@]) is None,
            },
    {
        match self.get(key) {
            Option::Some(v) => v.as_i64(),
            Option::None => Option::None,
        }
    }

    /// The measure in tenths under `key`, if the key is present and numeric.
    pub fn get_tenths(&self, key: &str) -> (r: Option<i64>)
        requires
            self.wf(),
        ensures
            match r {
                Option::Some(v) => self@.dom().contains(key@) && as_tenths_view(self@[key@])
                    == Option::Some(v as int),
                Option::None => !self@.dom().contains(key@) || as_tenths_view(self@[key@]) is None,
            },
    {
        match self.get(key) {
            Option::Some(v) => v.as_tenths(),
            Option::None => Option::None,
        }
    }
}

} // verus!
