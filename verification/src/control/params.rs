//! Reading the parameters of a request.

use crate::parse::{chars_of, is_hex32, parse32, same_text, trim, trimmed};
use crate::text::{exactly32, hex_bytes, hex_decode, is_hex};
use vstd::prelude::*;
use vstd::string::*;

verus! {

/// One parameter.
#[derive(Debug)]
pub enum Field {
    Text(String),
    /// A number: as an unsigned one and as a signed one, where it is such.
    Number { unsigned: Option<u64>, signed: Option<i64> },
    Flag(bool),
    Other,
}

/// The parameters of a request, by name.
#[derive(Debug)]
pub struct Params {
    pub fields: Vec<(String, Field)>,
}

/// The first field of a name.
pub open spec fn field_in(fields: Seq<(String, Field)>, key: Seq<char>) -> Option<Field>
    decreases fields.len(),
{
    if fields.len() == 0 {
        None
    } else if fields[0].0@ == key {
        Some(fields[0].1)
    } else {
        field_in(fields.skip(1), key)
    }
}

impl Params {
    /// The text of a name.
    pub open spec fn text_at(self, key: Seq<char>) -> Option<Seq<char>> {
        match field_in(self.fields@, key) {
            Some(Field::Text(t)) => Some(t@),
            _ => None,
        }
    }

    /// The unsigned number of a name.
    pub open spec fn number_at(self, key: Seq<char>) -> Option<u64> {
        match field_in(self.fields@, key) {
            Some(Field::Number { unsigned, .. }) => unsigned,
            _ => None,
        }
    }

    /// The signed number of a name.
    pub open spec fn signed_at(self, key: Seq<char>) -> Option<i64> {
        match field_in(self.fields@, key) {
            Some(Field::Number { signed, .. }) => signed,
            _ => None,
        }
    }

    /// The flag of a name.
    pub open spec fn flag_at(self, key: Seq<char>) -> Option<bool> {
        match field_in(self.fields@, key) {
            Some(Field::Flag(b)) => Some(b),
            _ => None,
        }
    }

    fn find(&self, key: &str) -> (field: Option<&Field>)
        ensures
            match field {
                Some(f) => field_in(self.fields@, key@) == Some(*f),
                None => field_in(self.fields@, key@) is None,
            },
    {
        let mut i: usize = 0;
        assert(self.fields@.skip(0) =~= self.fields@);
        while i < self.fields.len()
            invariant
                i <= self.fields@.len(),
                field_in(self.fields@, key@) == field_in(self.fields@.skip(i as int), key@),
            decreases self.fields@.len() - i,
        {
            assert(self.fields@.skip(i as int)[0] == self.fields@[i as int]);
            assert(self.fields@.skip(i as int).skip(1) =~= self.fields@.skip(i + 1));
            if same_text(self.fields[i].0.as_str(), key) {
                return Some(&self.fields[i].1);
            }
            i = i + 1;
        }
        None
    }

    /// The text of a name.
    pub fn text(&self, key: &str) -> (text: Option<String>)
        ensures
            match text {
                Some(t) => self.text_at(key@) == Some(t@),
                None => self.text_at(key@) is None,
            },
    {
        match self.find(key) {
            Some(Field::Text(t)) => Some(t.clone()),
            _ => None,
        }
    }

    /// The unsigned number of a name.
    pub fn number(&self, key: &str) -> (n: Option<u64>)
        ensures
            n == self.number_at(key@),
    {
        match self.find(key) {
            Some(Field::Number { unsigned, .. }) => *unsigned,
            _ => None,
        }
    }

    /// The signed number of a name.
    pub fn signed(&self, key: &str) -> (n: Option<i64>)
        ensures
            n == self.signed_at(key@),
    {
        match self.find(key) {
            Some(Field::Number { signed, .. }) => *signed,
            _ => None,
        }
    }

    /// The flag of a name.
    pub fn flag(&self, key: &str) -> (b: Option<bool>)
        ensures
            b == self.flag_at(key@),
    {
        match self.find(key) {
            Some(Field::Flag(b)) => Some(*b),
            _ => None,
        }
    }
}

/// Whether a request was refused with the given text.
pub open spec fn refused<T>(r: Result<T, String>, text: Seq<char>) -> bool {
    r matches Err(m) && m@ == text
}

/// Refuses with a text.
pub fn refuse<T>(text: &str) -> (r: Result<T, String>)
    ensures
        refused(r, text@),
{
    Err(String::from_str(text))
}

/// Reads a content address: 64 hexadecimal digits.
pub fn parse_cid(hex: &str) -> (cid: Option<[u8; 32]>)
    ensures
        match cid {
            Some(c) => is_hex32(hex@) && c@ == hex_bytes(hex@),
            None => !is_hex32(hex@),
        },
{
    parse32(hex)
}

/// What a node identity reads as: 64 hexadecimal digits, white space at the ends aside.
pub open spec fn node_of(s: Seq<char>) -> Option<Seq<u8>> {
    if is_hex32(trimmed(s)) {
        Some(hex_bytes(trimmed(s)))
    } else {
        None
    }
}

/// Reads a node identity, white space at the ends aside.
pub fn parse_node_id(s: &str) -> (id: Option<[u8; 32]>)
    ensures
        match id {
            Some(n) => node_of(s@) == Some(n@),
            None => node_of(s@) is None,
        },
{
    let t = trim(s);
    parse32(t.as_str())
}

/// Whether a field holds the hexadecimal form of 32 bytes, and if not, what is wrong with it.
pub open spec fn hex32_fault(field: Option<Seq<char>>) -> Option<Seq<char>> {
    match field {
        None => Some("missing hex field"@),
        Some(t) => if !is_hex(trimmed(t)) {
            Some("bad hex"@)
        } else if trimmed(t).len() != 64 {
            Some("expected 32 bytes"@)
        } else {
            None
        },
    }
}

/// The 32 bytes of a field.
pub open spec fn hex32_value(field: Option<Seq<char>>) -> Seq<u8> {
    hex_bytes(trimmed(field->0))
}

/// Reads 32 bytes from a required field.
pub fn parse_hex32(field: &Option<String>) -> (r: Result<[u8; 32], String>)
    ensures
        ({
            let f = text_of(*field);
            match hex32_fault(f) {
                Some(text) => refused(r, text),
                None => r matches Ok(a) && a@ == hex32_value(f),
            }
        }),
{
    match field {
        None => refuse("missing hex field"),
        Some(h) => {
            let t = trim(h.as_str());
            match hex_decode(t.as_str()) {
                None => refuse("bad hex"),
                Some(bytes) => match exactly32(bytes.as_slice()) {
                    Some(a) => Ok(a),
                    None => refuse("expected 32 bytes"),
                },
            }
        },
    }
}

/// The view of an optional text.
pub open spec fn text_of(field: Option<String>) -> Option<Seq<char>> {
    match field {
        Some(t) => Some(t@),
        None => None,
    }
}

/// Whether an optional field holds hexadecimal bytes; white space or nothing stand for none.
pub open spec fn hex_field_ok(field: Option<Seq<char>>) -> bool {
    match field {
        Some(t) => trimmed(t).len() == 0 || is_hex(trimmed(t)),
        None => true,
    }
}

/// The bytes of an optional field.
pub open spec fn hex_field_value(field: Option<Seq<char>>) -> Seq<u8> {
    match field {
        Some(t) => if trimmed(t).len() == 0 {
            Seq::empty()
        } else {
            hex_bytes(trimmed(t))
        },
        None => Seq::empty(),
    }
}

/// Reads bytes from an optional field.
pub fn parse_hex_bytes(field: &Option<String>) -> (r: Result<Vec<u8>, String>)
    ensures
        ({
            let f = text_of(*field);
            if hex_field_ok(f) {
                r matches Ok(b) && b@ == hex_field_value(f)
            } else {
                refused(r, "bad hex"@)
            }
        }),
{
    match field {
        None => {
            let none: Vec<u8> = Vec::new();
            assert(none@ =~= Seq::<u8>::empty());
            Ok(none)
        },
        Some(h) => {
            let t = trim(h.as_str());
            if chars_of(t.as_str()).len() == 0 {
                let none: Vec<u8> = Vec::new();
                assert(none@ =~= Seq::<u8>::empty());
                Ok(none)
            } else {
                match hex_decode(t.as_str()) {
                    Some(b) => Ok(b),
                    None => refuse("bad hex"),
                }
            }
        },
    }
}

/// The first field of a name counts, and fields of other names do not.
pub proof fn law_the_first_field_counts(key: String, field: Field, rest: Seq<(String, Field)>, name: Seq<char>)
    ensures
        field_in(Seq::empty(), name) is None,
        key@ == name ==> field_in(seq![(key, field)] + rest, name) == Some(field),
        key@ != name ==> field_in(seq![(key, field)] + rest, name) == field_in(rest, name),
{
    assert((seq![(key, field)] + rest).skip(1) =~= rest);
}

/// A field is read as what it is and as nothing else.
pub proof fn law_fields_are_read_as_what_they_are(p: Params, name: Seq<char>)
    ensures
        field_in(p.fields@, name) is None ==> p.text_at(name) is None && p.number_at(name) is None
            && p.signed_at(name) is None && p.flag_at(name) is None,
        p.text_at(name) is Some <==> field_in(p.fields@, name) is Some && field_in(p.fields@, name)->0
            is Text,
        p.flag_at(name) is Some <==> field_in(p.fields@, name) is Some && field_in(p.fields@, name)->0
            is Flag,
        p.number_at(name) is Some || p.signed_at(name) is Some ==> field_in(p.fields@, name) is Some
            && field_in(p.fields@, name)->0 is Number,
        field_in(p.fields@, name) matches Some(Field::Text(t)) ==> p.text_at(name) == Some(t@),
        field_in(p.fields@, name) matches Some(Field::Flag(b)) ==> p.flag_at(name) == Some(b),
        field_in(p.fields@, name) matches Some(Field::Number { unsigned, signed }) ==> p.number_at(
            name,
        ) == unsigned && p.signed_at(name) == signed,
{
}

proof fn lemma_hex_is_trimmed(bytes: Seq<u8>)
    ensures
        trimmed(crate::text::hex_text(bytes)) == crate::text::hex_text(bytes),
{
    let s = crate::text::hex_text(bytes);
    crate::text::law_hex_round_trip(bytes);
    if s.len() > 0 {
        assert(crate::text::hex_value(s[0]) >= 0);
        assert(crate::text::hex_value(s[s.len() - 1]) >= 0);
    }
    crate::parse::law_trimming_leaves_the_rest(s);
}

/// Bytes read back from their hexadecimal text: a node or a digest where they are 32, any bytes
/// where any are asked for. A text of another length is refused where 32 are asked for, and so is
/// a field that is missing.
pub proof fn law_hex_fields_read_back(bytes: Seq<u8>)
    ensures
        bytes.len() == 32 ==> node_of(crate::text::hex_text(bytes)) == Some(bytes),
        bytes.len() == 32 ==> hex32_fault(Some(crate::text::hex_text(bytes))) is None
            && hex32_value(Some(crate::text::hex_text(bytes))) == bytes,
        bytes.len() != 32 ==> node_of(crate::text::hex_text(bytes)) is None && hex32_fault(
            Some(crate::text::hex_text(bytes)),
        ) is Some,
        hex32_fault(None) is Some,
        hex_field_ok(Some(crate::text::hex_text(bytes))),
        hex_field_value(Some(crate::text::hex_text(bytes))) == bytes,
        hex_field_ok(None),
        hex_field_value(None).len() == 0,
{
    crate::text::law_hex_round_trip(bytes);
    lemma_hex_is_trimmed(bytes);
    if crate::text::hex_text(bytes).len() == 0 {
        assert(bytes =~= Seq::empty());
    }
}

/// What is not hexadecimal, blanks aside, is refused.
pub proof fn law_other_texts_are_refused(s: Seq<char>, i: int)
    requires
        0 <= i < trimmed(s).len(),
        crate::text::hex_value(trimmed(s)[i]) < 0,
    ensures
        node_of(s) is None,
        hex32_fault(Some(s)) is Some,
        !hex_field_ok(Some(s)),
{
}

/// Blanks around a hexadecimal field do not matter.
pub proof fn law_blanks_around_fields_do_not_matter(a: Seq<char>, bytes: Seq<u8>, b: Seq<char>)
    requires
        bytes.len() == 32,
        forall|i: int| 0 <= i < a.len() ==> crate::parse::is_space(#[trigger] a[i]),
        forall|i: int| 0 <= i < b.len() ==> crate::parse::is_space(#[trigger] b[i]),
    ensures
        node_of(a + (crate::text::hex_text(bytes) + b)) == Some(bytes),
        hex32_fault(Some(a + (crate::text::hex_text(bytes) + b))) is None,
        hex32_value(Some(a + (crate::text::hex_text(bytes) + b))) == bytes,
        hex_field_value(Some(a + (crate::text::hex_text(bytes) + b))) == bytes,
{
    let s = crate::text::hex_text(bytes);
    crate::text::law_hex_round_trip(bytes);
    assert(crate::text::hex_value(s[0]) >= 0);
    assert(crate::text::hex_value(s[s.len() - 1]) >= 0);
    crate::parse::law_blanks_around_come_off(a, s, b);
}

} // verus!
