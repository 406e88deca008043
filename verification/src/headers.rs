//! An ordered collection of header fields in which no name occurs twice.

use crate::assoc::{
    distinct_keys, entries_map, has_key, index_of_key, lemma_index_of_key, lemma_upsert, upsert,
};
use crate::text::same_text;
use vstd::prelude::*;
use vstd::string::*;

verus! {

/// A header name with its value, as sequences of characters.
pub type Field = (Seq<char>, Seq<char>);

/// The header lines of `fields` as they go on the wire: for each field, in
/// order, its name, a colon and a space, its value, and a line break.
pub open spec fn field_lines(fields: Seq<Field>) -> Seq<char>
    decreases fields.len(),
{
    if fields.len() == 0 {
        Seq::empty()
    } else {
        field_lines(fields.drop_last()) + fields.last().0 + ": "@ + fields.last().1 + "\r\n"@
    }
}

struct Entry {
    name: String,
    value: String,
}

/// Header fields in the order in which their names were first set.
pub struct HeaderMap {
    items: Vec<Entry>,
}

impl HeaderMap {
    /// What holds of every `HeaderMap`: no name occurs twice.
    #[verifier::type_invariant]
    pub open spec fn names_are_distinct(&self) -> bool {
        distinct_keys(self.fields())
    }

    /// The fields, in order.
    pub closed spec fn fields(&self) -> Seq<Field> {
        Seq::new(self.items@.len(), |i: int| (self.items@[i].name@, self.items@[i].value@))
    }

    /// The fields as a mapping from name to value.
    pub open spec fn view(&self) -> Map<Seq<char>, Seq<char>> {
        entries_map(self.fields())
    }

    /// An empty collection.
    pub fn new() -> (m: Self)
        ensures
            m.fields() == Seq::<Field>::empty(),
    {
        let m = HeaderMap { items: Vec::new() };
        assert(m.fields() =~= Seq::<Field>::empty());
        m
    }

    fn position(&self, name: &str) -> (r: Option<usize>)
        ensures
            match r {
                Some(i) => i < self.fields().len() && self.fields()[i as int].0 == name@ && i
                    == index_of_key(self.fields(), name@) && has_key(self.fields(), name@),
                None => !has_key(self.fields(), name@),
            },
    {
        proof {
            use_type_invariant(self);
        }
        let mut i: usize = 0;
        while i < self.items.len()
            invariant
                0 <= i <= self.items@.len(),
                self.fields().len() == self.items@.len(),
                distinct_keys(self.fields()),
                forall|j: int| 0 <= j < i ==> (#[trigger] self.fields()[j]).0 != name@,
            decreases self.items@.len() - i,
        {
            if same_text(self.items[i].name.as_str(), name) {
                proof {
                    lemma_index_of_key(self.fields(), i as int);
                }
                return Some(i);
            }
            i = i + 1;
        }
        None
    }

    /// Sets `name` to `value`.
    pub fn insert(&mut self, name: String, value: String)
        ensures
            final(self).fields() == upsert(old(self).fields(), name@, value@),
            final(self)@ == old(self)@.insert(name@, value@),
    {
        proof {
            use_type_invariant(&*self);
            lemma_upsert(self.fields(), name@, value@);
        }
        let found = self.position(name.as_str());
        let mut items: Vec<Entry> = Vec::new();
        std::mem::swap(&mut items, &mut self.items);
        match found {
            Some(i) => {
                items.set(i, Entry { name, value });
            },
            None => {
                items.push(Entry { name, value });
            },
        }
        proof {
            let after = Seq::new(items@.len(), |i: int| (items@[i].name@, items@[i].value@));
            assert(after =~= upsert(old(self).fields(), name@, value@));
        }
        self.items = items;
        proof {
            assert(self.fields() =~= upsert(old(self).fields(), name@, value@));
        }
    }

    /// The value that stands with `name`, if the name occurs.
    pub fn get(&self, name: &str) -> (r: Option<&String>)
        ensures
            match r {
                Some(value) => self@.contains_key(name@) && value@ == self@[name@],
                None => !self@.contains_key(name@),
            },
    {
        match self.position(name) {
            Some(i) => Some(&self.items[i].value),
            None => None,
        }
    }

    /// Appends the header lines to `out`.
    pub fn write_lines(&self, out: &mut String)
        ensures
            final(out)@ == old(out)@ + field_lines(self.fields()),
    {
        let mut i: usize = 0;
        while i < self.items.len()
            invariant
                0 <= i <= self.items@.len(),
                self.fields().len() == self.items@.len(),
                out@ == old(out)@ + field_lines(self.fields().take(i as int)),
            decreases self.items@.len() - i,
        {
            out.append(self.items[i].name.as_str());
            out.append(": ");
            out.append(self.items[i].value.as_str());
            out.append("\r\n");
            proof {
                let done = self.fields().take(i + 1);
                assert(done.drop_last() =~= self.fields().take(i as int));
                assert(done.last() == self.fields()[i as int]);
                assert(out@ =~= old(out)@ + field_lines(done));
            }
            i = i + 1;
        }
        proof {
            assert(self.fields().take(self.items@.len() as int) =~= self.fields());
        }
    }
}

} // verus!
