//! The portable value tree that a decoded operand becomes, and the equality
//! by which two snapshots are told apart.

use vstd::prelude::*;
use vstd::std_specs::cmp::PartialEqSpecImpl;

verus! {

/// Mathematical model of a decoded value.
pub enum Value {
    Bool(bool),
    /// A single character, as a text of length one.
    Char(Seq<char>),
    Uint(u64),
    Int(i64),
    /// The bit pattern of an IEEE-754 double.
    Float(u64),
    Struct { name: Seq<char>, fields: Seq<(Seq<char>, Value)> },
    String(Seq<char>),
    Array(Seq<Value>),
    Unallocated,
}

/// A decoded value.
///
/// Integers are carried in 64 bits whatever their declared width. A float is
/// carried as the bit pattern of its double-precision form. `Unallocated`
/// stands for memory that cannot be read: dangling, freed or not yet
/// allocated.
#[derive(Debug)]
pub enum MValue {
    Bool(bool),
    Char(String),
    Uint(u64),
    Int(i64),
    Float(u64),
    Struct { name: String, fields: Vec<(String, MValue)> },
    String(String),
    Array(Vec<MValue>),
    Unallocated,
}

/// The models of a list of named values, in order.
pub open spec fn named_values_view(fields: Seq<(String, MValue)>) -> Seq<(Seq<char>, Value)>
    decreases fields,
{
    if fields.len() == 0 {
        Seq::empty()
    } else {
        named_values_view(fields.drop_last()).push((fields.last().0@, value_of(fields.last().1)))
    }
}

/// The models of a list of values, in order.
pub open spec fn values_view(items: Seq<MValue>) -> Seq<Value>
    decreases items,
{
    if items.len() == 0 {
        Seq::empty()
    } else {
        values_view(items.drop_last()).push(value_of(items.last()))
    }
}

/// The model of a value.
pub open spec fn value_of(value: MValue) -> Value
    decreases value,
{
    match value {
        MValue::Bool(b) => Value::Bool(b),
        MValue::Char(c) => Value::Char(c@),
        MValue::Uint(n) => Value::Uint(n),
        MValue::Int(n) => Value::Int(n),
        MValue::Float(bits) => Value::Float(bits),
        MValue::Struct { name, fields } => Value::Struct {
            name: name@,
            fields: named_values_view(fields@),
        },
        MValue::String(s) => Value::String(s@),
        MValue::Array(items) => Value::Array(values_view(items@)),
        MValue::Unallocated => Value::Unallocated,
    }
}

impl View for MValue {
    type V = Value;

    open spec fn view(&self) -> Value {
        value_of(*self)
    }
}

/// `named_values_view` keeps the length and maps position by position.
pub proof fn lemma_named_values_view(fields: Seq<(String, MValue)>)
    ensures
        named_values_view(fields).len() == fields.len(),
        forall|i: int|
            0 <= i < fields.len() ==> #[trigger] named_values_view(fields)[i] == (
                fields[i].0@,
                fields[i].1@,
            ),
    decreases fields.len(),
{
    if fields.len() > 0 {
        let front = fields.drop_last();
        lemma_named_values_view(front);
        assert forall|i: int| 0 <= i < fields.len() implies #[trigger] named_values_view(fields)[i]
            == (fields[i].0@, fields[i].1@) by {
            if i < front.len() {
                assert(front[i] == fields[i]);
            }
        }
    }
}

/// `values_view` keeps the length and maps position by position.
pub proof fn lemma_values_view(items: Seq<MValue>)
    ensures
        values_view(items).len() == items.len(),
        forall|i: int| 0 <= i < items.len() ==> #[trigger] values_view(items)[i] == items[i]@,
    decreases items.len(),
{
    if items.len() > 0 {
        let front = items.drop_last();
        lemma_values_view(front);
        assert forall|i: int| 0 <= i < items.len() implies #[trigger] values_view(items)[i]
            == items[i]@ by {
            if i < front.len() {
                assert(front[i] == items[i]);
            }
        }
    }
}

/// Whether a double's bit pattern is a NaN.
pub open spec fn float_is_nan(bits: u64) -> bool {
    (bits / 0x10_0000_0000_0000) % 0x800 == 0x7ff && bits % 0x10_0000_0000_0000 != 0
}

/// Whether a double's bit pattern is a zero of either sign.
pub open spec fn float_is_zero(bits: u64) -> bool {
    bits % 0x8000_0000_0000_0000 == 0
}

/// IEEE-754 equality of two doubles given by their bit patterns: a NaN equals
/// nothing, the two zeros equal each other.
pub open spec fn float_eq(a: u64, b: u64) -> bool {
    !float_is_nan(a) && !float_is_nan(b) && (a == b || (float_is_zero(a) && float_is_zero(b)))
}

/// Equality of two decoded values over the whole tree. Floats compare as
/// IEEE-754 numbers, everything else by structure.
pub open spec fn value_eq(a: Value, b: Value) -> bool
    decreases a,
{
    match (a, b) {
        (Value::Bool(x), Value::Bool(y)) => x == y,
        (Value::Char(x), Value::Char(y)) => x == y,
        (Value::Uint(x), Value::Uint(y)) => x == y,
        (Value::Int(x), Value::Int(y)) => x == y,
        (Value::Float(x), Value::Float(y)) => float_eq(x, y),
        (Value::Struct { name: n1, fields: f1 }, Value::Struct { name: n2, fields: f2 }) => {
            &&& n1 == n2
            &&& named_values_eq(f1, f2)
        },
        (Value::String(x), Value::String(y)) => x == y,
        (Value::Array(x), Value::Array(y)) => {
            &&& x.len() == y.len()
            &&& forall|i: int| 0 <= i < x.len() ==> value_eq(#[trigger] x[i], y[i])
        },
        (Value::Unallocated, Value::Unallocated) => true,
        _ => false,
    }
}

/// Equality of two lists of named values: same length, and at each position
/// the same name and equal values.
pub open spec fn named_values_eq(a: Seq<(Seq<char>, Value)>, b: Seq<(Seq<char>, Value)>) -> bool
    decreases a,
{
    &&& a.len() == b.len()
    &&& forall|i: int|
        0 <= i < a.len() ==> (#[trigger] a[i]).0 == b[i].0 && value_eq(a[i].1, b[i].1)
}

/// IEEE-754 equality on bit patterns.
pub fn float_bits_eq(a: u64, b: u64) -> (same: bool)
    ensures
        same == float_eq(a, b),
{
    let a_nan = (a / 0x10_0000_0000_0000) % 0x800 == 0x7ff && a % 0x10_0000_0000_0000 != 0;
    let b_nan = (b / 0x10_0000_0000_0000) % 0x800 == 0x7ff && b % 0x10_0000_0000_0000 != 0;
    if a_nan || b_nan {
        false
    } else {
        a == b || (a % 0x8000_0000_0000_0000 == 0 && b % 0x8000_0000_0000_0000 == 0)
    }
}

/// Compares two lists of named values position by position.
pub fn named_values_same(a: &Vec<(String, MValue)>, b: &Vec<(String, MValue)>) -> (same: bool)
    ensures
        same == named_values_eq(named_values_view(a@), named_values_view(b@)),
    decreases a,
{
    proof {
        lemma_named_values_view(a@);
        lemma_named_values_view(b@);
    }
    if a.len() != b.len() {
        return false;
    }
    let mut i: usize = 0;
    while i < a.len()
        invariant
            i <= a.len(),
            a.len() == b.len(),
            named_values_view(a@).len() == a.len(),
            named_values_view(b@).len() == b.len(),
            forall|k: int|
                0 <= k < a.len() ==> #[trigger] named_values_view(a@)[k] == (a@[k].0@, a@[k].1@),
            forall|k: int|
                0 <= k < b.len() ==> #[trigger] named_values_view(b@)[k] == (b@[k].0@, b@[k].1@),
            forall|k: int|
                0 <= k < i ==> (#[trigger] named_values_view(a@)[k]).0 == named_values_view(b@)[k].0
                    && value_eq(named_values_view(a@)[k].1, named_values_view(b@)[k].1),
        decreases a.len() - i,
    {
        let same_name = a[i].0 == b[i].0;
        if !same_name {
            assert(named_values_view(a@)[i as int].0 != named_values_view(b@)[i as int].0);
            return false;
        }
        if !a[i].1.same_as(&b[i].1) {
            assert(!value_eq(named_values_view(a@)[i as int].1, named_values_view(b@)[i as int].1));
            return false;
        }
        i = i + 1;
    }
    true
}

/// Compares two lists of values position by position.
pub fn values_same(a: &Vec<MValue>, b: &Vec<MValue>) -> (same: bool)
    ensures
        same == (values_view(a@).len() == values_view(b@).len() && forall|i: int|
            0 <= i < values_view(a@).len() ==> value_eq(
                #[trigger] values_view(a@)[i],
                values_view(b@)[i],
            )),
    decreases a,
{
    proof {
        lemma_values_view(a@);
        lemma_values_view(b@);
    }
    if a.len() != b.len() {
        return false;
    }
    let mut i: usize = 0;
    while i < a.len()
        invariant
            i <= a.len(),
            a.len() == b.len(),
            values_view(a@).len() == a.len(),
            values_view(b@).len() == b.len(),
            forall|k: int| 0 <= k < a.len() ==> #[trigger] values_view(a@)[k] == a@[k]@,
            forall|k: int| 0 <= k < b.len() ==> #[trigger] values_view(b@)[k] == b@[k]@,
            forall|k: int|
                0 <= k < i ==> value_eq(#[trigger] values_view(a@)[k], values_view(b@)[k]),
        decreases a.len() - i,
    {
        if !a[i].same_as(&b[i]) {
            assert(!value_eq(values_view(a@)[i as int], values_view(b@)[i as int]));
            return false;
        }
        i = i + 1;
    }
    true
}

/// Position of the first entry at or after `from` that has the given name.
pub open spec fn find_named(fields: Seq<(Seq<char>, Value)>, name: Seq<char>, from: int) -> Option<
    int,
>
    decreases fields.len() - from,
{
    if from < 0 || from >= fields.len() {
        None
    } else if fields[from].0 == name {
        Some(from)
    } else {
        find_named(fields, name, from + 1)
    }
}

/// The first entry under a name is the one that is found.
pub proof fn lemma_find_named_first(
    fields: Seq<(Seq<char>, Value)>,
    name: Seq<char>,
    at: int,
    from: int,
)
    requires
        0 <= from <= at < fields.len(),
        fields[at].0 == name,
        forall|j: int| from <= j < at ==> (#[trigger] fields[j]).0 != name,
    ensures
        find_named(fields, name, from) == Some(at),
    decreases at - from,
{
    if from < at {
        lemma_find_named_first(fields, name, at, from + 1);
    }
}

/// The field of a record value that has the given name: the first such
/// field, where there are several. A value that is no record has no fields.
pub open spec fn field_of(value: Value, name: Seq<char>) -> Option<Value> {
    match value {
        Value::Struct { fields, .. } => match find_named(fields, name, 0) {
            Some(i) => Some(fields[i].1),
            None => None,
        },
        _ => None,
    }
}

impl MValue {
    /// The field of a record value that has the given name.
    #[verifier::loop_isolation(false)]
    pub fn field(&self, name: &str) -> (found: Option<&MValue>)
        ensures
            match found {
                Some(value) => field_of(self@, name@) == Some(value@),
                None => field_of(self@, name@) is None,
            },
    {
        match self {
            MValue::Struct { fields, .. } => {
                proof {
                    lemma_named_values_view(fields@);
                }
                let wanted = String::from_str(name);
                let mut i: usize = 0;
                while i < fields.len()
                    invariant
                        i <= fields.len(),
                        find_named(named_values_view(fields@), name@, 0) == find_named(
                            named_values_view(fields@),
                            name@,
                            i as int,
                        ),
                    decreases fields.len() - i,
                {
                    let same = fields[i].0 == wanted;
                    if same {
                        return Some(&fields[i].1);
                    }
                    i = i + 1;
                }
                None
            },
            _ => None,
        }
    }

    /// Whether two values are equal over the whole tree.
    pub fn same_as(&self, other: &MValue) -> (same: bool)
        ensures
            same == value_eq(self@, other@),
        decreases self,
    {
        match (self, other) {
            (MValue::Bool(x), MValue::Bool(y)) => *x == *y,
            (MValue::Char(x), MValue::Char(y)) => *x == *y,
            (MValue::Uint(x), MValue::Uint(y)) => *x == *y,
            (MValue::Int(x), MValue::Int(y)) => *x == *y,
            (MValue::Float(x), MValue::Float(y)) => float_bits_eq(*x, *y),
            (MValue::Struct { name: n1, fields: f1 }, MValue::Struct { name: n2, fields: f2 }) => {
                let same_name = *n1 == *n2;
                same_name && named_values_same(f1, f2)
            },
            (MValue::String(x), MValue::String(y)) => *x == *y,
            (MValue::Array(x), MValue::Array(y)) => values_same(x, y),
            (MValue::Unallocated, MValue::Unallocated) => true,
            _ => false,
        }
    }
}

/// Copies a list of named values.
pub fn clone_named_values(fields: &Vec<(String, MValue)>) -> (copy: Vec<(String, MValue)>)
    ensures
        named_values_view(copy@) == named_values_view(fields@),
    decreases fields,
{
    let mut copy: Vec<(String, MValue)> = Vec::new();
    let mut i: usize = 0;
    while i < fields.len()
        invariant
            i <= fields.len(),
            copy.len() == i,
            forall|k: int|
                0 <= k < i ==> (#[trigger] copy@[k]).0@ == fields@[k].0@ && copy@[k].1@
                    == fields@[k].1@,
        decreases fields.len() - i,
    {
        let name = fields[i].0.clone();
        let value = fields[i].1.clone();
        copy.push((name, value));
        i = i + 1;
    }
    proof {
        lemma_named_values_view(copy@);
        lemma_named_values_view(fields@);
        assert(named_values_view(copy@) =~= named_values_view(fields@));
    }
    copy
}

/// Copies a list of values.
pub fn clone_values(items: &Vec<MValue>) -> (copy: Vec<MValue>)
    ensures
        values_view(copy@) == values_view(items@),
    decreases items,
{
    let mut copy: Vec<MValue> = Vec::new();
    let mut i: usize = 0;
    while i < items.len()
        invariant
            i <= items.len(),
            copy.len() == i,
            forall|k: int| 0 <= k < i ==> (#[trigger] copy@[k])@ == items@[k]@,
        decreases items.len() - i,
    {
        let item = items[i].clone();
        copy.push(item);
        i = i + 1;
    }
    proof {
        lemma_values_view(copy@);
        lemma_values_view(items@);
        assert(values_view(copy@) =~= values_view(items@));
    }
    copy
}

impl Clone for MValue {
    fn clone(&self) -> (copy: MValue)
        ensures
            copy@ == self@,
        decreases self,
    {
        match self {
            MValue::Bool(b) => MValue::Bool(*b),
            MValue::Char(c) => MValue::Char(c.clone()),
            MValue::Uint(n) => MValue::Uint(*n),
            MValue::Int(n) => MValue::Int(*n),
            MValue::Float(bits) => MValue::Float(*bits),
            MValue::Struct { name, fields } => MValue::Struct {
                name: name.clone(),
                fields: clone_named_values(fields),
            },
            MValue::String(s) => MValue::String(s.clone()),
            MValue::Array(items) => MValue::Array(clone_values(items)),
            MValue::Unallocated => MValue::Unallocated,
        }
    }
}

impl PartialEq for MValue {
    fn eq(&self, other: &MValue) -> (same: bool) {
        self.same_as(other)
    }
}

impl PartialEqSpecImpl for MValue {
    open spec fn obeys_eq_spec() -> bool {
        true
    }

    open spec fn eq_spec(&self, other: &MValue) -> bool {
        value_eq(self@, other@)
    }
}

} // verus!
