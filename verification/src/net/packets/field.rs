//! The values that a field can hold, and the collection of named fields.

use vstd::prelude::*;
use crate::net::packets::dynamic::blocks_of;

verus! {

/// The value of a field as the contracts speak of it.
pub enum FieldValue {
    Bool(bool),
    U8(u8),
    I8(i8),
    U16(u16),
    I16(i16),
    U32(u32),
    I32(i32),
    U64(u64),
    I64(i64),
    U128(u128),
    I128(i128),
    F32(u32),
    F64(u64),
    String(Seq<char>),
    KVPair(Seq<(Seq<char>, FieldValue)>),
    Array(Seq<Seq<u8>>),
    Rgb(Seq<(u8, u8, u8)>),
}

/// The value of one field. The two floating-point kinds hold the bit pattern
/// of the number, so that every pattern survives unchanged.
#[derive(Debug, PartialEq, Eq)]
pub enum FieldData {
    Bool(bool),
    U8(u8),
    I8(i8),
    U16(u16),
    I16(i16),
    U32(u32),
    I32(i32),
    U64(u64),
    I64(i64),
    U128(u128),
    I128(i128),
    F32(u32),
    F64(u64),
    String(String),
    KVPair(FieldMap),
    Array(Vec<Vec<u8>>),
    Rgb(Vec<(u8, u8, u8)>),
}

/// One named value.
#[derive(Debug, PartialEq, Eq)]
pub struct Field {
    pub name: String,
    pub data: FieldData,
}

/// Named values in the order in which their names first came.
#[derive(Debug, PartialEq, Eq)]
pub struct FieldMap {
    entries: Vec<Field>,
}

/// Named values as the contracts speak of them: pairs of a name and a value,
/// in the order in which the names first came.
pub type Entries = Seq<(Seq<char>, FieldValue)>;

/// The index of the first entry named `name`, or the number of entries where
/// none has that name.
pub open spec fn position(entries: Entries, name: Seq<char>) -> int
    decreases entries.len(),
{
    if entries.len() == 0 {
        0
    } else if entries[0].0 == name {
        0
    } else {
        1 + position(entries.skip(1), name)
    }
}

/// The entries with `value` under `name`: in place of the value that the name
/// had, or at the end where the name is new.
pub open spec fn upsert(entries: Entries, name: Seq<char>, value: FieldValue) -> Entries {
    let at = position(entries, name);
    if at < entries.len() {
        entries.update(at, (name, value))
    } else {
        entries.push((name, value))
    }
}

/// Whether no name occurs twice.
pub open spec fn distinct_names(entries: Entries) -> bool {
    forall|i: int, j: int|
        0 <= i < entries.len() && 0 <= j < entries.len() && i != j ==> (#[trigger] entries[i]).0
            != (#[trigger] entries[j]).0
}

/// `position` is the first index at which the name stands.
pub proof fn lemma_position(entries: Entries, name: Seq<char>, at: int)
    requires
        0 <= at <= entries.len(),
        forall|j: int| 0 <= j < at ==> (#[trigger] entries[j]).0 != name,
        at < entries.len() ==> entries[at].0 == name,
    ensures
        position(entries, name) == at,
    decreases entries.len(),
{
    if entries.len() != 0 && at != 0 {
        assert(entries[0].0 != name);
        let rest = entries.skip(1);
        assert forall|j: int| 0 <= j < at - 1 implies (#[trigger] rest[j]).0 != name by {
            assert(rest[j] == entries[j + 1]);
        }
        lemma_position(rest, name, at - 1);
    }
}

/// `position` stays within the entries, and names the first entry of that name.
pub proof fn lemma_position_is_first(entries: Entries, name: Seq<char>)
    ensures
        0 <= position(entries, name) <= entries.len(),
        position(entries, name) < entries.len() ==> entries[position(entries, name)].0 == name,
        forall|j: int| 0 <= j < position(entries, name) ==> (#[trigger] entries[j]).0 != name,
    decreases entries.len(),
{
    if entries.len() != 0 && entries[0].0 != name {
        let rest = entries.skip(1);
        lemma_position_is_first(rest, name);
        assert forall|j: int| 0 <= j < position(entries, name) implies (#[trigger] entries[j]).0
            != name by {
            if j > 0 {
                assert(rest[j - 1] == entries[j]);
            }
        }
    }
}

/// Putting a value under a name keeps the names distinct.
pub proof fn lemma_upsert_distinct(entries: Entries, name: Seq<char>, value: FieldValue)
    requires
        distinct_names(entries),
    ensures
        distinct_names(upsert(entries, name, value)),
{
    lemma_position_is_first(entries, name);
    let at = position(entries, name);
    let after = upsert(entries, name, value);
    assert forall|i: int, j: int|
        0 <= i < after.len() && 0 <= j < after.len() && i != j implies (#[trigger] after[i]).0 != (
        #[trigger] after[j]).0 by {
        if at < entries.len() {
            assert(after[i].0 == entries[i].0);
            assert(after[j].0 == entries[j].0);
        } else {
            if i < entries.len() {
                assert(after[i] == entries[i]);
            }
            if j < entries.len() {
                assert(after[j] == entries[j]);
            }
        }
    }
}

/// The last value put under a name is the one found under it, and the number
/// of entries grows only where the name is new.
pub proof fn lemma_upsert_lookup(entries: Entries, name: Seq<char>, value: FieldValue)
    ensures
        position(upsert(entries, name, value), name) == position(entries, name),
        position(entries, name) < upsert(entries, name, value).len(),
        upsert(entries, name, value)[position(entries, name)] == (name, value),
        upsert(entries, name, value).len() == if position(entries, name) < entries.len() {
            entries.len()
        } else {
            entries.len() + 1
        },
{
    lemma_position_is_first(entries, name);
    let at = position(entries, name);
    let after = upsert(entries, name, value);
    assert forall|j: int| 0 <= j < at implies (#[trigger] after[j]).0 != name by {
        assert(after[j] == entries[j]);
    }
    lemma_position(after, name, at);
}

impl FieldMap {
    /// The entries of the map.
    pub closed spec fn pairs(&self) -> Entries
        decreases self,
    {
        Seq::new(
            self.entries@.len(),
            |i: int|
                if 0 <= i < self.entries@.len() {
                    (self.entries[i].name@, self.entries[i].data.value())
                } else {
                    (Seq::empty(), FieldValue::Bool(false))
                },
        )
    }

    /// A map without entries.
    pub fn new() -> (res: Self)
        ensures
            res@ == Entries::empty(),
    {
        let res = FieldMap { entries: Vec::new() };
        proof {
            assert(res.pairs() =~= Entries::empty());
        }
        res
    }

    /// The number of entries.
    pub fn len(&self) -> (res: usize)
        ensures
            res == self@.len(),
    {
        self.entries.len()
    }

    /// Whether the map has no entry.
    pub fn is_empty(&self) -> (res: bool)
        ensures
            res == (self@.len() == 0),
    {
        self.entries.len() == 0
    }

    /// The entry at index `i`.
    pub fn entry(&self, i: usize) -> (res: &Field)
        requires
            i < self@.len(),
        ensures
            (res.name@, res.data.value()) == self@[i as int],
            decreases_to!(self => res),
    {
        &self.entries[i]
    }

    /// The index of the first entry named `name`, or the number of entries
    /// where none has that name.
    pub fn find(&self, name: &str) -> (res: usize)
        ensures
            res == position(self@, name@),
            res <= self@.len(),
    {
        let key = name.to_owned();
        let mut i: usize = 0;
        while i < self.entries.len()
            invariant
                key@ == name@,
                i <= self.entries@.len(),
                forall|j: int| 0 <= j < i ==> (#[trigger] self@[j]).0 != name@,
            decreases self.entries@.len() - i,
        {
            if self.entries[i].name == key {
                proof {
                    lemma_position(self@, name@, i as int);
                }
                return i;
            }
            i += 1;
        }
        proof {
            lemma_position(self@, name@, i as int);
        }
        i
    }

    /// The value under `name`, where the map has one.
    pub fn get(&self, name: &str) -> (res: Option<&FieldData>)
        ensures
            (match res {
                Some(data) => position(self@, name@) < self@.len() && data.value()
                    == self@[position(self@, name@)].1,
                None => position(self@, name@) == self@.len(),
            }),
    {
        let at: usize = self.find(name);
        if at < self.entries.len() {
            Some(&self.entries[at].data)
        } else {
            None
        }
    }

    /// Puts `data` under `name`. A value that the name already had is replaced,
    /// and the name keeps its place.
    pub fn insert(&mut self, name: String, data: FieldData)
        ensures
            final(self)@ == upsert(old(self)@, name@, data.value()),
    {
        let at: usize = self.find(name.as_str());
        let ghost entry = (name@, data.value());
        if at < self.entries.len() {
            self.entries.set(at, Field { name, data });
            proof {
                assert(self.pairs() =~= old(self).pairs().update(at as int, entry));
            }
        } else {
            self.entries.push(Field { name, data });
            proof {
                assert(self.pairs() =~= old(self).pairs().push(entry));
            }
        }
    }

    /// Takes the first entry named `name` out of the map and hands its value out.
    pub fn remove(&mut self, name: &str) -> (res: Option<FieldData>)
        ensures
            (match res {
                Some(data) => position(old(self)@, name@) < old(self)@.len() && data.value() == old(
                    self,
                )@[position(old(self)@, name@)].1 && final(self)@ == old(self)@.remove(
                    position(old(self)@, name@),
                ),
                None => position(old(self)@, name@) == old(self)@.len() && final(self)@ == old(
                    self,
                )@,
            }),
    {
        let at: usize = self.find(name);
        if at < self.entries.len() {
            let field = self.entries.remove(at);
            proof {
                assert(self.pairs() =~= old(self).pairs().remove(at as int));
            }
            Some(field.data)
        } else {
            None
        }
    }
}

impl View for FieldMap {
    type V = Entries;

    open spec fn view(&self) -> Entries {
        self.pairs()
    }
}

impl FieldData {
    /// The value that this data stands for.
    pub open spec fn value(&self) -> FieldValue
        decreases self,
    {
        match self {
            FieldData::Bool(v) => FieldValue::Bool(*v),
            FieldData::U8(v) => FieldValue::U8(*v),
            FieldData::I8(v) => FieldValue::I8(*v),
            FieldData::U16(v) => FieldValue::U16(*v),
            FieldData::I16(v) => FieldValue::I16(*v),
            FieldData::U32(v) => FieldValue::U32(*v),
            FieldData::I32(v) => FieldValue::I32(*v),
            FieldData::U64(v) => FieldValue::U64(*v),
            FieldData::I64(v) => FieldValue::I64(*v),
            FieldData::U128(v) => FieldValue::U128(*v),
            FieldData::I128(v) => FieldValue::I128(*v),
            FieldData::F32(v) => FieldValue::F32(*v),
            FieldData::F64(v) => FieldValue::F64(*v),
            FieldData::String(s) => FieldValue::String(s@),
            FieldData::KVPair(m) => FieldValue::KVPair(m.pairs()),
            FieldData::Array(a) => FieldValue::Array(blocks_of(a@)),
            FieldData::Rgb(c) => FieldValue::Rgb(c@),
        }
    }
}

} // verus!
