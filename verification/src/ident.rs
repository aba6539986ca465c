//! SQL identifiers and table references. An identifier is ASCII text matching
//! `[A-Za-z_][A-Za-z0-9_]*`, at most 64 bytes, enforced at construction; names
//! are case-sensitive inside the engine and case-folded only at the external
//! boundary.

use vstd::prelude::*;
use vstd::utf8::encode_utf8;

verus! {

/// Whether `b` may appear in an identifier (`first` marks the leading byte).
pub open spec fn spec_is_ident_byte(b: u8, first: bool) -> bool {
    ||| b == 95
    ||| (65 <= b && b <= 90)
    ||| (97 <= b && b <= 122)
    ||| (!first && 48 <= b && b <= 57)
}

/// The identifier grammar over a byte sequence.
pub open spec fn spec_is_valid_identifier(s: Seq<u8>) -> bool {
    &&& 1 <= s.len() <= 64
    &&& spec_is_ident_byte(s[0], true)
    &&& forall|i: int| 1 <= i < s.len() ==> spec_is_ident_byte(#[trigger] s[i], false)
}

/// ASCII case folding: upper-case letters become lower-case, all else is kept.
pub open spec fn spec_lower_bytes(s: Seq<u8>) -> Seq<u8> {
    s.map(|_i: int, b: u8| if 65 <= b && b <= 90 { (b + 32) as u8 } else { b })
}

/// Executable check of `spec_is_ident_byte`.
fn is_ident_byte(b: u8, first: bool) -> (r: bool)
    ensures
        r == spec_is_ident_byte(b, first),
{
    b == 95 || (65 <= b && b <= 90) || (97 <= b && b <= 122) || (!first && 48 <= b && b <= 57)
}

/// A validated SQL identifier.
#[derive(Debug, PartialEq, Eq, Hash)]
pub struct Identifier {
    pub name: String,
}

impl View for Identifier {
    type V = Seq<char>;

    open spec fn view(&self) -> Seq<char> {
        self.name@
    }
}

impl Clone for Identifier {
    fn clone(&self) -> (r: Self)
        ensures
            r@ == self@,
    {
        Identifier { name: self.name.clone() }
    }
}

impl Identifier {
    /// The UTF-8 bytes of the name; for a well-formed identifier these are
    /// plain ASCII.
    pub open spec fn bytes(self) -> Seq<u8> {
        encode_utf8(self@)
    }

    /// Well-formed: the name obeys the identifier grammar.
    pub open spec fn wf(self) -> bool {
        spec_is_valid_identifier(self.bytes())
    }

    /// Accepts exactly the strings that obey the identifier grammar.
    pub fn try_new(s: &str) -> (r: Option<Identifier>)
        ensures
            r.is_some() <==> spec_is_valid_identifier(encode_utf8(s@)),
            r matches Some(id) ==> id@ == s@ && id.wf(),
    {
        let b = s.as_bytes();
        if b.len() < 1 || b.len() > 64 {
            return None;
        }
        if !is_ident_byte(b[0], true) {
            return None;
        }
        let mut i: usize = 1;
        while i < b.len()
            invariant
                1 <= i <= b@.len(),
                b@ == encode_utf8(s@),
                spec_is_valid_identifier(encode_utf8(s@)) ==> 1 <= b@.len() <= 64,
                1 <= b@.len() <= 64,
                spec_is_ident_byte(b@[0], true),
                forall|j: int| 1 <= j < i ==> spec_is_ident_byte(#[trigger] b@[j], false),
            decreases b@.len() - i,
        {
            if !is_ident_byte(b[i], false) {
                return None;
            }
            i += 1;
        }
        Some(Identifier { name: s.to_owned() })
    }

    /// Case-sensitive name equality.
    pub fn eq_name(&self, other: &Identifier) -> (r: bool)
        ensures
            r == (self@ == other@),
    {
        self.name == other.name
    }

    /// Case-insensitive name equality, as the external boundary compares.
    pub fn eq_name_case_insensitive(&self, other: &Identifier) -> (r: bool)
        requires
            self.wf(),
            other.wf(),
        ensures
            r == (spec_lower_bytes(self.bytes()) == spec_lower_bytes(other.bytes())),
    {
        let a = self.name.as_str().as_bytes();
        let b = other.name.as_str().as_bytes();
        if a.len() != b.len() {
            proof {
                assert(spec_lower_bytes(self.bytes()).len() == self.bytes().len());
                assert(spec_lower_bytes(other.bytes()).len() == other.bytes().len());
            }
            return false;
        }
        let mut i: usize = 0;
        while i < a.len()
            invariant
                0 <= i <= a@.len(),
                a@.len() == b@.len(),
                a@ == self.bytes(),
                b@ == other.bytes(),
                forall|j: int| 0 <= j < i
                    ==> spec_lower_bytes(self.bytes())[j] == spec_lower_bytes(other.bytes())[j],
            decreases a@.len() - i,
        {
            let x = a[i];
            let y = b[i];
            let xl: u8 = if 65 <= x && x <= 90 { x + 32 } else { x };
            let yl: u8 = if 65 <= y && y <= 90 { y + 32 } else { y };
            if xl != yl {
                proof {
                    assert(spec_lower_bytes(self.bytes())[i as int] == xl);
                    assert(spec_lower_bytes(other.bytes())[i as int] == yl);
                }
                return false;
            }
            i += 1;
        }
        proof {
            assert(spec_lower_bytes(self.bytes()) =~= spec_lower_bytes(other.bytes()));
        }
        true
    }

    /// The name as a string, for display and interchange.
    pub fn as_string(&self) -> (r: String)
        ensures
            r@ == self@,
    {
        self.name.clone()
    }
}

/// A `schema.table` pair: the wire form a table is addressed by.
#[derive(Debug, PartialEq, Eq, Hash)]
pub struct ResourceId {
    pub schema: Identifier,
    pub object_name: Identifier,
}

impl Clone for ResourceId {
    fn clone(&self) -> (r: Self)
        ensures
            r.schema@ == self.schema@,
            r.object_name@ == self.object_name@,
    {
        ResourceId { schema: self.schema.clone(), object_name: self.object_name.clone() }
    }
}

impl ResourceId {
    pub open spec fn wf(self) -> bool {
        self.schema.wf() && self.object_name.wf()
    }

    /// Accepts exactly a pair of grammatical identifiers.
    pub fn try_new(schema: &str, object_name: &str) -> (r: Option<ResourceId>)
        ensures
            r.is_some() <==> spec_is_valid_identifier(encode_utf8(schema@))
                && spec_is_valid_identifier(encode_utf8(object_name@)),
            r matches Some(rid) ==> rid.wf() && rid.schema@ == schema@
                && rid.object_name@ == object_name@,
    {
        let s = Identifier::try_new(schema);
        let o = Identifier::try_new(object_name);
        match (s, o) {
            (Some(schema), Some(object_name)) => Some(ResourceId { schema, object_name }),
            _ => None,
        }
    }
}

/// A reference to a table, by its resource id.
#[derive(Debug, PartialEq, Eq, Hash)]
pub struct TableRef {
    pub resource_id: ResourceId,
}

impl Clone for TableRef {
    fn clone(&self) -> (r: Self)
        ensures
            r.spec_key() == self.spec_key(),
            r.resource_id.wf() == self.resource_id.wf(),
    {
        TableRef { resource_id: self.resource_id.clone() }
    }
}

impl TableRef {
    pub fn new(resource_id: ResourceId) -> (r: TableRef)
        ensures
            r.resource_id.schema@ == resource_id.schema@,
            r.resource_id.object_name@ == resource_id.object_name@,
    {
        TableRef { resource_id }
    }

    /// The pair of name views, which identifies the table.
    pub open spec fn spec_key(self) -> (Seq<char>, Seq<char>) {
        (self.resource_id.schema@, self.resource_id.object_name@)
    }

    pub open spec fn wf(self) -> bool {
        self.resource_id.wf()
    }

    pub fn eq_table(&self, other: &TableRef) -> (r: bool)
        ensures
            r == (self.spec_key() == other.spec_key()),
    {
        self.resource_id.schema.eq_name(&other.resource_id.schema)
            && self.resource_id.object_name.eq_name(&other.resource_id.object_name)
    }
}

} // verus!
