//! In-memory rows: variable-width text rows for the interpreted path and
//! fixed-width 64-bit integer rows for the compiled path.

use vstd::prelude::*;

verus! {

/// A row of UTF-8 text fields. Every operator consumes and re-emits rows of
/// this shape; a fresh row is allocated whenever fields are combined or
/// projected.
#[derive(Debug, PartialEq, Eq)]
pub struct Row {
    pub items: Vec<String>,
}

impl View for Row {
    type V = Seq<Seq<char>>;

    open spec fn view(&self) -> Seq<Seq<char>> {
        self.items@.map_values(|s: String| s@)
    }
}

impl Row {
    /// Create a new row from a slice of strings.
    pub fn new(items: &[String]) -> (r: Self)
        ensures
            r@ == items@.map_values(|s: String| s@),
    {
        let mut v: Vec<String> = Vec::new();
        let mut i: usize = 0;
        while i < items.len()
            invariant
                i <= items@.len(),
                v@ =~= items@.take(i as int),
            decreases items@.len() - i,
        {
            v.push(items[i].clone());
            i = i + 1;
        }
        proof {
            assert(v@ =~= items@);
        }
        let r = Self { items: v };
        proof {
            assert(r@ =~= items@.map_values(|s: String| s@));
        }
        r
    }

    /// Returns the field at the given index, or `None` past the last field.
    pub fn get(&self, index: usize) -> (r: Option<&str>)
        ensures
            match r {
                Some(s) => index < self@.len() && s@ == self@[index as int],
                None => index >= self@.len(),
            },
    {
        if index < self.items.len() {
            Some(self.items[index].as_str())
        } else {
            None
        }
    }

    /// The number of fields in the row.
    pub fn len(&self) -> (n: usize)
        ensures
            n == self@.len(),
    {
        self.items.len()
    }
}

impl Clone for Row {
    /// A clone keeps every field.
    fn clone(&self) -> (r: Self)
        ensures
            r@ == self@,
    {
        Row::new(self.items.as_slice())
    }
}

/// A row of 64-bit signed integers. Field `i` sits at byte offset `i * 8`
/// from the row's base address; generated native code relies on that fixed
/// layout.
#[derive(Debug, PartialEq, Eq)]
pub struct Int64Row {
    pub items: Vec<i64>,
}

impl View for Int64Row {
    type V = Seq<i64>;

    open spec fn view(&self) -> Seq<i64> {
        self.items@
    }
}

impl Int64Row {
    /// Create a new row from a slice of `i64`.
    pub fn new(items: &[i64]) -> (r: Self)
        ensures
            r@ == items@,
    {
        Self { items: vstd::slice::slice_to_vec(items) }
    }

    /// Return the field at the given index; the index must be in bounds.
    pub fn get(&self, index: usize) -> (v: i64)
        requires
            index < self@.len(),
        ensures
            v == self@[index as int],
    {
        self.items[index]
    }

    /// The number of fields in the row.
    pub fn len(&self) -> (n: usize)
        ensures
            n == self@.len(),
    {
        self.items.len()
    }
}

impl Clone for Int64Row {
    /// A clone keeps every field.
    fn clone(&self) -> (r: Self)
        ensures
            r@ == self@,
    {
        Int64Row::new(self.items.as_slice())
    }
}

} // verus!
