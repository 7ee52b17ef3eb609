//! The configured quote authors and their relative weights.

use vstd::prelude::*;
use crate::text::string_of;

verus! {

/// An author whose quotes are shown, and how often relative to the others.
#[derive(Debug, Clone)]
pub struct Author {
    pub name: String,
    pub weight: u32,
}

/// The authors as plain values: name and weight.
pub open spec fn author_entries(s: Seq<Author>) -> Seq<(Seq<char>, u32)> {
    s.map_values(|a: Author| (a.name@, a.weight))
}

/// The configured authors, and whether the note about weights is still shown.
#[derive(Debug, Clone)]
pub struct AuthorsConfig {
    pub authors: Vec<Author>,
    pub show_weight_note: bool,
}

/// The note about weights is shown until it is dismissed.
pub fn default_show_weight_note() -> (r: bool)
    ensures
        r,
{
    true
}

/// The authors configured before the user chooses any.
pub open spec fn default_author_entries() -> Seq<(Seq<char>, u32)> {
    seq![("Karl Marx"@, 3u32), ("Friedrich Engels"@, 2u32), ("Vladimir Lenin"@, 2u32)]
}

impl Default for AuthorsConfig {
    fn default() -> (r: Self)
        ensures
            author_entries(r.authors@) == default_author_entries(),
            r.show_weight_note,
    {
        let authors = vec![
            Author { name: string_of("Karl Marx"), weight: 3 },
            Author { name: string_of("Friedrich Engels"), weight: 2 },
            Author { name: string_of("Vladimir Lenin"), weight: 2 },
        ];
        assert(author_entries(authors@) =~= default_author_entries());
        AuthorsConfig { authors, show_weight_note: default_show_weight_note() }
    }
}

/// The name that a newly added author gets.
pub open spec fn new_author_entry() -> (Seq<char>, u32) {
    ("New Author"@, 1u32)
}

impl AuthorsConfig {
    /// Appends an author named "New Author" with weight 1.
    pub fn add_author(&mut self)
        ensures
            author_entries(final(self).authors@) == author_entries(old(self).authors@).push(
                new_author_entry(),
            ),
            final(self).show_weight_note == old(self).show_weight_note,
    {
        self.authors.push(Author { name: string_of("New Author"), weight: 1 });
        proof {
            assert(author_entries(self.authors@) =~= author_entries(old(self).authors@).push(
                new_author_entry(),
            ));
        }
    }

    /// Renames the author at `index`; an index past the end changes nothing.
    pub fn set_author_name(&mut self, index: usize, name: String)
        ensures
            author_entries(final(self).authors@) == if index < old(self).authors@.len() {
                author_entries(old(self).authors@).update(
                    index as int,
                    (name@, old(self).authors@[index as int].weight),
                )
            } else {
                author_entries(old(self).authors@)
            },
            final(self).show_weight_note == old(self).show_weight_note,
    {
        if index < self.authors.len() {
            let weight = self.authors[index].weight;
            self.authors.set(index, Author { name, weight });
            proof {
                assert(author_entries(self.authors@) =~= author_entries(old(self).authors@).update(
                    index as int,
                    (name@, weight),
                ));
            }
        }
    }

    /// Sets the weight of the author at `index`; an index past the end changes nothing.
    pub fn set_author_weight(&mut self, index: usize, weight: u32)
        ensures
            author_entries(final(self).authors@) == if index < old(self).authors@.len() {
                author_entries(old(self).authors@).update(
                    index as int,
                    (old(self).authors@[index as int].name@, weight),
                )
            } else {
                author_entries(old(self).authors@)
            },
            final(self).show_weight_note == old(self).show_weight_note,
    {
        if index < self.authors.len() {
            let name = self.authors[index].name.clone();
            self.authors.set(index, Author { name, weight });
            proof {
                assert(author_entries(self.authors@) =~= author_entries(old(self).authors@).update(
                    index as int,
                    (old(self).authors@[index as int].name@, weight),
                ));
            }
        }
    }

    /// Removes the author at `index`; an index past the end changes nothing.
    pub fn remove_author(&mut self, index: usize)
        ensures
            author_entries(final(self).authors@) == if index < old(self).authors@.len() {
                author_entries(old(self).authors@).remove(index as int)
            } else {
                author_entries(old(self).authors@)
            },
            final(self).show_weight_note == old(self).show_weight_note,
    {
        if index < self.authors.len() {
            self.authors.remove(index);
            proof {
                assert(author_entries(self.authors@) =~= author_entries(old(self).authors@).remove(
                    index as int,
                ));
            }
        }
    }

    /// Hides the note about weights.
    pub fn dismiss_weight_note(&mut self)
        ensures
            author_entries(final(self).authors@) == author_entries(old(self).authors@),
            !final(self).show_weight_note,
    {
        self.show_weight_note = false;
    }
}

/// Removing the author just added gives back the list before it.
pub proof fn lemma_add_then_remove_last(entries: Seq<(Seq<char>, u32)>)
    ensures
        entries.push(new_author_entry()).remove(entries.len() as int) == entries,
{
    assert(entries.push(new_author_entry()).remove(entries.len() as int) =~= entries);
}

} // verus!
