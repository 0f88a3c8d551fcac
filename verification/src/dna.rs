//! The struct-catalog metadata ("DNA"). The engine carries the catalog
//! bytes opaquely; this resolver is a stub that yields an empty catalog,
//! with lookup working over whatever entries a caller fills in.

use vstd::prelude::*;

verus! {

use crate::error::BlendFileError;
use crate::header::Header;
use crate::text::str_eq;

/// One field of a catalog struct: name, type and byte placement.
#[derive(Debug, Clone)]
pub struct DnaField {
    pub name: String,
    pub type_label: String,
    pub offset: usize,
    pub size: usize,
}

/// One catalog struct: its fields in declaration order and total size.
#[derive(Debug, Clone)]
pub struct DnaStruct {
    pub name: String,
    pub fields: Vec<DnaField>,
    pub size: usize,
}

/// The catalog: structs by name and scalar type sizes by name, kept as
/// ordered pairs.
#[derive(Debug, Clone)]
pub struct Dna {
    pub structs: Vec<(String, DnaStruct)>,
    pub type_sizes: Vec<(String, usize)>,
}

/// Index of the first pair whose key is `name`, or the length.
pub open spec fn spec_find_key<T>(pairs: Seq<(String, T)>, name: Seq<char>) -> int
    decreases pairs.len(),
{
    if pairs.len() == 0 {
        0
    } else if pairs[0].0@ == name {
        0
    } else {
        1 + spec_find_key(pairs.drop_first(), name)
    }
}

/// The first match sits at `spec_find_key` and nothing before it
/// matches.
pub proof fn lemma_find_key<T>(pairs: Seq<(String, T)>, name: Seq<char>)
    ensures
        0 <= spec_find_key(pairs, name) <= pairs.len(),
        spec_find_key(pairs, name) < pairs.len() ==> pairs[spec_find_key(pairs, name)].0@ == name,
        forall|j: int| 0 <= j < spec_find_key(pairs, name) ==> pairs[j].0@ != name,
    decreases pairs.len(),
{
    if pairs.len() != 0 && pairs[0].0@ != name {
        lemma_find_key(pairs.drop_first(), name);
        assert forall|j: int| 0 <= j < spec_find_key(pairs, name) implies pairs[j].0@ != name by {
            if j > 0 {
                assert(pairs.drop_first()[j - 1].0@ != name);
            }
        }
    }
}

impl Dna {
    /// Build the catalog from a buffer. The resolver is a stub: it
    /// reads nothing and yields an empty catalog.
    pub fn from_reader(data: &[u8], header: &Header) -> (r: Result<Dna, BlendFileError>)
        ensures
            match r {
                Ok(d) => d.structs@.len() == 0 && d.type_sizes@.len() == 0,
                Err(_) => false,
            },
    {
        Ok(Dna { structs: Vec::new(), type_sizes: Vec::new() })
    }

    /// Decode catalog entries from raw catalog bytes. A stub like
    /// `from_reader`: every input yields an empty catalog.
    pub fn parse_dna_data(data: &[u8]) -> (r: Result<Dna, BlendFileError>)
        ensures
            match r {
                Ok(d) => d.structs@.len() == 0 && d.type_sizes@.len() == 0,
                Err(_) => false,
            },
    {
        Ok(Dna { structs: Vec::new(), type_sizes: Vec::new() })
    }

    /// The struct registered under `name`, if any.
    pub fn get_struct(&self, name: &str) -> (r: Option<&DnaStruct>)
        ensures
            match r {
                Some(s) => {
                    &&& spec_find_key(self.structs@, name@) < self.structs@.len()
                    &&& *s == self.structs@[spec_find_key(self.structs@, name@)].1
                },
                None => spec_find_key(self.structs@, name@) == self.structs@.len(),
            },
    {
        let n = self.structs.len();
        let mut i: usize = 0;
        while i < n
            invariant
                i <= n,
                n == self.structs@.len(),
                forall|j: int| 0 <= j < i ==> self.structs@[j].0@ != name@,
            decreases n - i,
        {
            if str_eq(self.structs[i].0.as_str(), name) {
                proof {
                    lemma_find_key(self.structs@, name@);
                }
                return Some(&self.structs[i].1);
            }
            i = i + 1;
        }
        proof {
            lemma_find_key(self.structs@, name@);
        }
        None
    }

    /// The byte size registered for a scalar type name, if any.
    pub fn get_type_size(&self, type_label: &str) -> (r: Option<usize>)
        ensures
            match r {
                Some(s) => {
                    &&& spec_find_key(self.type_sizes@, type_label@) < self.type_sizes@.len()
                    &&& s == self.type_sizes@[spec_find_key(self.type_sizes@, type_label@)].1
                },
                None => spec_find_key(self.type_sizes@, type_label@) == self.type_sizes@.len(),
            },
    {
        let n = self.type_sizes.len();
        let mut i: usize = 0;
        while i < n
            invariant
                i <= n,
                n == self.type_sizes@.len(),
                forall|j: int| 0 <= j < i ==> self.type_sizes@[j].0@ != type_label@,
            decreases n - i,
        {
            if str_eq(self.type_sizes[i].0.as_str(), type_label) {
                proof {
                    lemma_find_key(self.type_sizes@, type_label@);
                }
                return Some(self.type_sizes[i].1);
            }
            i = i + 1;
        }
        proof {
            lemma_find_key(self.type_sizes@, type_label@);
        }
        None
    }
}

} // verus!
