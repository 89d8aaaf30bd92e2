//! A plain list of fields.

use vstd::prelude::*;
use crate::blokus::field::Field;

verus! {

/// A list of fields.
#[derive(Debug, Clone, PartialEq, Eq)]
pub struct Fields {
    pub fields: Vec<Field>,
}

impl Fields {
    /// Creates an empty list.
    pub fn new() -> (r: Self)
        ensures
            r.fields@ == Seq::<Field>::empty(),
    {
        Self { fields: Vec::new() }
    }

    /// The number of fields in the list.
    pub fn len(&self) -> (r: usize)
        ensures
            r == self.fields@.len(),
    {
        self.fields.len()
    }

    /// Tests whether the list is empty.
    pub fn is_empty(&self) -> (r: bool)
        ensures
            r == (self.fields@.len() == 0),
    {
        self.fields.len() == 0
    }

    /// Appends a field.
    pub fn push(&mut self, field: Field)
        ensures
            final(self).fields@ == old(self).fields@.push(field),
    {
        self.fields.push(field)
    }

    /// Read access to the fields.
    pub fn iter(&self) -> (r: &Vec<Field>)
        ensures
            r == &self.fields,
    {
        &self.fields
    }
}

} // verus!
