//! Header fields: an ordered mapping from field name to field value.
//!
//! Names are matched without regard to the case of ASCII letters. The fields
//! keep the order in which their names were first inserted, which is the order
//! in which they are written out.

use vstd::prelude::*;
use vstd::slice::slice_to_vec;
use crate::ascii::{equal_ignoring_case, lemma_same_ignoring_case_shared, same_ignoring_case};

verus! {

/// One header field, as the pair of its name and its value.
pub type Field = (Seq<u8>, Seq<u8>);

/// Whether `b` may stand in a field name: a letter, a digit, or one of
/// ``! # $ % & ' * + - . ^ _ ` | ~``.
pub open spec fn is_name_byte(b: u8) -> bool {
    ||| 0x30 <= b <= 0x39
    ||| 0x41 <= b <= 0x5a
    ||| 0x5e <= b <= 0x7a
    ||| b == 0x21
    ||| 0x23 <= b <= 0x27
    ||| b == 0x2a
    ||| b == 0x2b
    ||| b == 0x2d
    ||| b == 0x2e
    ||| b == 0x7c
    ||| b == 0x7e
}

/// Whether `name` can be a field name: not empty, and made of name bytes.
pub open spec fn is_field_name(name: Seq<u8>) -> bool {
    &&& name.len() > 0
    &&& forall|i: int| 0 <= i < name.len() ==> is_name_byte(#[trigger] name[i])
}

/// Whether `b` may stand in a field value: a tab, or any byte from the space
/// upwards but DEL. Carriage return and line feed are thereby left out.
pub open spec fn is_value_byte(b: u8) -> bool {
    b == 0x09 || (b >= 0x20 && b != 0x7f)
}

/// Whether `value` can be a field value: made of value bytes. It may be empty.
pub open spec fn is_field_value(value: Seq<u8>) -> bool {
    forall|i: int| 0 <= i < value.len() ==> is_value_byte(#[trigger] value[i])
}

/// The index of the first field of `fields` whose name matches `name`.
pub open spec fn position(fields: Seq<Field>, name: Seq<u8>) -> Option<int>
    decreases fields.len(),
{
    if fields.len() == 0 {
        None
    } else if same_ignoring_case(fields[0].0, name) {
        Some(0)
    } else {
        match position(fields.drop_first(), name) {
            Some(i) => Some(i + 1),
            None => None,
        }
    }
}

/// The value that `fields` gives for `name`, if any.
pub open spec fn value_of(fields: Seq<Field>, name: Seq<u8>) -> Option<Seq<u8>> {
    match position(fields, name) {
        Some(i) => Some(fields[i].1),
        None => None,
    }
}

/// `fields` after `name` is set to `value`: a field of that name is replaced
/// where it stands; otherwise the new field goes to the end.
pub open spec fn with_field(fields: Seq<Field>, name: Seq<u8>, value: Seq<u8>) -> Seq<Field> {
    match position(fields, name) {
        Some(i) => fields.update(i, (name, value)),
        None => fields.push((name, value)),
    }
}

/// Whether no two fields of `fields` have matching names.
pub open spec fn distinct_names(fields: Seq<Field>) -> bool {
    forall|i: int, j: int|
        0 <= i < j < fields.len() ==> !same_ignoring_case(
            (#[trigger] fields[i]).0,
            (#[trigger] fields[j]).0,
        )
}

/// Whether every field of `fields` has a valid name and a valid value.
pub open spec fn valid_fields(fields: Seq<Field>) -> bool {
    forall|i: int|
        0 <= i < fields.len() ==> is_field_name((#[trigger] fields[i]).0) && is_field_value(
            fields[i].1,
        )
}

/// What `position` finds is the first field whose name matches, and it
/// finds nothing only where no name matches.
pub proof fn lemma_position(fields: Seq<Field>, name: Seq<u8>)
    ensures
        match position(fields, name) {
            Some(i) => {
                &&& 0 <= i < fields.len()
                &&& same_ignoring_case(fields[i].0, name)
                &&& forall|j: int| 0 <= j < i ==> !same_ignoring_case((#[trigger] fields[j]).0, name)
            },
            None => forall|j: int|
                0 <= j < fields.len() ==> !same_ignoring_case((#[trigger] fields[j]).0, name),
        },
    decreases fields.len(),
{
    if fields.len() == 0 {
    } else if same_ignoring_case(fields[0].0, name) {
    } else {
        let rest = fields.drop_first();
        lemma_position(rest, name);
        match position(rest, name) {
            Some(i) => {
                assert forall|j: int| 0 <= j < i + 1 implies !same_ignoring_case(
                    (#[trigger] fields[j]).0,
                    name,
                ) by {
                    if j > 0 {
                        assert(fields[j] == rest[j - 1]);
                    }
                }
            },
            None => {
                assert forall|j: int| 0 <= j < fields.len() implies !same_ignoring_case(
                    (#[trigger] fields[j]).0,
                    name,
                ) by {
                    if j > 0 {
                        assert(fields[j] == rest[j - 1]);
                    }
                }
            },
        }
    }
}

/// Setting a valid field keeps the fields valid.
pub proof fn lemma_with_field_valid(fields: Seq<Field>, name: Seq<u8>, value: Seq<u8>)
    requires
        valid_fields(fields),
        is_field_name(name),
        is_field_value(value),
    ensures
        valid_fields(with_field(fields, name, value)),
{
    lemma_position(fields, name);
}

/// Setting a field keeps the names distinct.
pub proof fn lemma_with_field_distinct(fields: Seq<Field>, name: Seq<u8>, value: Seq<u8>)
    requires
        distinct_names(fields),
    ensures
        distinct_names(with_field(fields, name, value)),
{
    lemma_position(fields, name);
    let after = with_field(fields, name, value);
    match position(fields, name) {
        Some(i) => {
            assert forall|a: int, b: int| 0 <= a < b < after.len() implies !same_ignoring_case(
                (#[trigger] after[a]).0,
                (#[trigger] after[b]).0,
            ) by {
                if a == i {
                    if same_ignoring_case(name, fields[b].0) {
                        lemma_same_ignoring_case_shared(name, fields[i].0, fields[b].0);
                    }
                } else if b == i {
                    if same_ignoring_case(fields[a].0, name) {
                        lemma_same_ignoring_case_shared(name, fields[a].0, fields[i].0);
                    }
                }
            }
        },
        None => {
            assert forall|a: int, b: int| 0 <= a < b < after.len() implies !same_ignoring_case(
                (#[trigger] after[a]).0,
                (#[trigger] after[b]).0,
            ) by {
                if b == fields.len() {
                    assert(after[a] == fields[a]);
                }
            }
        },
    }
}

/// After a name is set to a value, that value is what the name gives, and
/// the fields are one more than before only where the name was new.
pub proof fn lemma_with_field_value(fields: Seq<Field>, name: Seq<u8>, value: Seq<u8>)
    ensures
        value_of(with_field(fields, name, value), name) == Some(value),
        with_field(fields, name, value).len() == if position(fields, name) is Some {
            fields.len()
        } else {
            fields.len() + 1
        },
{
    lemma_position(fields, name);
    let after = with_field(fields, name, value);
    lemma_position(after, name);
    match position(fields, name) {
        Some(i) => {
            assert(after[i] == (name, value));
            assert forall|j: int| 0 <= j < i implies !same_ignoring_case(
                (#[trigger] after[j]).0,
                name,
            ) by {
                assert(after[j] == fields[j]);
            }
        },
        None => {
            let n = fields.len() as int;
            assert(after[n] == (name, value));
            assert forall|j: int| 0 <= j < n implies !same_ignoring_case(
                (#[trigger] after[j]).0,
                name,
            ) by {
                assert(after[j] == fields[j]);
            }
        },
    }
}

/// Setting one name leaves the value of every other name as it was.
pub proof fn lemma_with_field_other(
    fields: Seq<Field>,
    name: Seq<u8>,
    value: Seq<u8>,
    other: Seq<u8>,
)
    requires
        !same_ignoring_case(name, other),
    ensures
        value_of(with_field(fields, name, value), other) == value_of(fields, other),
{
    lemma_position(fields, name);
    lemma_position(fields, other);
    let after = with_field(fields, name, value);
    lemma_position(after, other);
    assert forall|j: int| 0 <= j < fields.len() implies (same_ignoring_case(
        (#[trigger] after[j]).0,
        other,
    ) <==> same_ignoring_case(fields[j].0, other)) && (same_ignoring_case(fields[j].0, other)
        ==> after[j] == fields[j]) by {
        if position(fields, name) == Some(j) {
            assert(after[j] == (name, value));
            if same_ignoring_case(fields[j].0, other) {
                lemma_same_ignoring_case_shared(fields[j].0, name, other);
            }
        } else {
            assert(after[j] == fields[j]);
        }
    }
    match position(fields, other) {
        Some(i) => {
            assert(same_ignoring_case(after[i].0, other));
            match position(after, other) {
                Some(k) => {
                    if k < i {
                        assert(same_ignoring_case(fields[k].0, other));
                    }
                    if i < k {
                        assert(!same_ignoring_case(after[i].0, other));
                    }
                },
                None => {},
            }
        },
        None => {
            match position(after, other) {
                Some(k) => {
                    if k < fields.len() {
                        assert(same_ignoring_case(fields[k].0, other));
                    } else {
                        assert(after[k] == (name, value));
                    }
                },
                None => {},
            }
        },
    }
}

/// Why a field was refused.
#[derive(Clone, Copy, Debug, PartialEq, Eq, Structural)]
pub enum HeaderError {
    /// The name is empty or holds a byte that no field name may hold.
    InvalidName,
    /// The value holds a byte that no field value may hold.
    InvalidValue,
}

/// A header field as stored.
#[derive(Debug)]
struct Entry {
    name: Vec<u8>,
    value: Vec<u8>,
}

/// An ordered mapping from field name to field value.
#[derive(Debug)]
pub struct Headers {
    entries: Vec<Entry>,
}

/// Whether `name` can be a field name.
pub fn valid_name(name: &[u8]) -> (ok: bool)
    ensures
        ok == is_field_name(name@),
{
    if name.len() == 0 {
        return false;
    }
    let mut i: usize = 0;
    while i < name.len()
        invariant
            i <= name.len(),
            forall|j: int| 0 <= j < i ==> is_name_byte(#[trigger] name@[j]),
        decreases name.len() - i,
    {
        let b: u8 = name[i];
        let ok = (0x30 <= b && b <= 0x39) || (0x41 <= b && b <= 0x5a) || (0x5e <= b && b <= 0x7a)
            || b == 0x21 || (0x23 <= b && b <= 0x27) || b == 0x2a || b == 0x2b || b == 0x2d || b
            == 0x2e || b == 0x7c || b == 0x7e;
        if !ok {
            return false;
        }
        i += 1;
    }
    true
}

/// Whether `value` can be a field value.
pub fn valid_value(value: &[u8]) -> (ok: bool)
    ensures
        ok == is_field_value(value@),
{
    let mut i: usize = 0;
    while i < value.len()
        invariant
            i <= value.len(),
            forall|j: int| 0 <= j < i ==> is_value_byte(#[trigger] value@[j]),
        decreases value.len() - i,
    {
        let b: u8 = value[i];
        if !(b == 0x09 || (b >= 0x20 && b != 0x7f)) {
            return false;
        }
        i += 1;
    }
    true
}

impl View for Headers {
    type V = Seq<Field>;

    closed spec fn view(&self) -> Seq<Field> {
        Seq::new(self.entries@.len(), |i: int| (self.entries@[i].name@, self.entries@[i].value@))
    }
}

impl Headers {
    /// What holds of every mapping: each field has a valid name and a valid
    /// value, and no two names match.
    #[verifier::type_invariant]
    pub open spec fn well_formed(&self) -> bool {
        valid_fields(self@) && distinct_names(self@)
    }

    /// An empty mapping.
    pub fn new() -> (headers: Headers)
        ensures
            headers@ == Seq::<Field>::empty(),
    {
        let headers = Headers { entries: Vec::new() };
        assert(headers@ =~= Seq::<Field>::empty());
        headers
    }

    /// A copy of the mapping.
    pub fn copy(&self) -> (headers: Headers)
        ensures
            headers@ == self@,
    {
        proof {
            use_type_invariant(self);
        }
        let mut entries: Vec<Entry> = Vec::new();
        let mut i: usize = 0;
        while i < self.entries.len()
            invariant
                i <= self.entries@.len(),
                entries@.len() == i,
                forall|j: int|
                    0 <= j < i ==> (#[trigger] entries@[j]).name@ == self.entries@[j].name@
                        && entries@[j].value@ == self.entries@[j].value@,
            decreases self.entries.len() - i,
        {
            let entry = Entry {
                name: slice_to_vec(self.entries[i].name.as_slice()),
                value: slice_to_vec(self.entries[i].value.as_slice()),
            };
            entries.push(entry);
            i += 1;
        }
        proof {
            let copied = Headers { entries };
            assert(copied@ =~= self@);
        }
        Headers { entries }
    }

    /// The number of fields.
    pub fn len(&self) -> (n: usize)
        ensures
            n == self@.len(),
    {
        self.entries.len()
    }

    /// The index of the field named `name`, if there is one.
    fn find(&self, name: &[u8]) -> (found: Option<usize>)
        ensures
            match found {
                Some(i) => position(self@, name@) == Some(i as int) && i < self@.len(),
                None => position(self@, name@) is None,
            },
    {
        let mut i: usize = 0;
        proof {
            assert(self@.skip(0) =~= self@);
        }
        while i < self.entries.len()
            invariant
                i <= self.entries@.len(),
                self@.len() == self.entries@.len(),
                position(self@, name@) == match position(self@.skip(i as int), name@) {
                    Some(k) => Some(k + i),
                    None => None,
                },
            decreases self.entries.len() - i,
        {
            proof {
                assert(self@.skip(i as int).drop_first() =~= self@.skip(i + 1));
                assert(self@.skip(i as int)[0] == self@[i as int]);
            }
            if equal_ignoring_case(self.entries[i].name.as_slice(), name) {
                return Some(i);
            }
            i += 1;
        }
        None
    }

    /// The value of the field named `name`, if there is one.
    pub fn get(&self, name: &[u8]) -> (value: Option<&Vec<u8>>)
        ensures
            match value {
                Some(v) => value_of(self@, name@) == Some(v@),
                None => value_of(self@, name@) is None,
            },
    {
        match self.find(name) {
            Some(i) => Some(&self.entries[i].value),
            None => None,
        }
    }

    /// The name and the value of the field at `index`, counting from zero in
    /// the order of insertion; `None` from the number of fields upwards.
    pub fn field(&self, index: usize) -> (field: Option<(&Vec<u8>, &Vec<u8>)>)
        ensures
            match field {
                Some((name, value)) => index < self@.len() && self@[index as int] == (
                    name@,
                    value@,
                ),
                None => index >= self@.len(),
            },
    {
        if index < self.entries.len() {
            Some((&self.entries[index].name, &self.entries[index].value))
        } else {
            None
        }
    }

    /// Sets the field named `name` to `value`. A field whose name matches is
    /// replaced where it stands; otherwise the field goes to the end. A name
    /// or a value that cannot stand in a header is refused, the name first,
    /// and the mapping stays as it was.
    pub fn insert(&mut self, name: &[u8], value: &[u8]) -> (result: Result<(), HeaderError>)
        ensures
            !is_field_name(name@) ==> result == Err::<(), HeaderError>(HeaderError::InvalidName),
            is_field_name(name@) && !is_field_value(value@) ==> result == Err::<(), HeaderError>(
                HeaderError::InvalidValue,
            ),
            is_field_name(name@) && is_field_value(value@) ==> result is Ok,
            result is Ok ==> final(self)@ == with_field(old(self)@, name@, value@),
            result is Err ==> final(self)@ == old(self)@,
            valid_fields(final(self)@),
            distinct_names(final(self)@),
    {
        proof {
            use_type_invariant(&*self);
        }
        if !valid_name(name) {
            return Err(HeaderError::InvalidName);
        }
        if !valid_value(value) {
            return Err(HeaderError::InvalidValue);
        }
        proof {
            lemma_with_field_valid(self@, name@, value@);
            lemma_with_field_distinct(self@, name@, value@);
        }
        let found = self.find(name);
        let entry = Entry { name: slice_to_vec(name), value: slice_to_vec(value) };
        let mut entries: Vec<Entry> = Vec::new();
        std::mem::swap(&mut entries, &mut self.entries);
        match found {
            Some(i) => {
                entries.set(i, entry);
            },
            None => {
                entries.push(entry);
            },
        }
        proof {
            let after = Headers { entries };
            assert(after@ =~= with_field(old(self)@, name@, value@));
        }
        self.entries = entries;
        Ok(())
    }
}

} // verus!
