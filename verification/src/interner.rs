//! A table of strings, each of which it holds once.
use vstd::prelude::*;

use crate::text::same_text;

verus! {

/// The models of strings.
pub open spec fn texts(s: Seq<String>) -> Seq<Seq<char>> {
    s.map_values(|t: String| t@)
}

/// `b` is `a` with strings added behind.
pub open spec fn extends(a: Seq<Seq<char>>, b: Seq<Seq<char>>) -> bool {
    a.len() <= b.len() && b.take(a.len() as int) == a
}

/// `id` stands for `text` in the table, as long as the table has no more strings
/// than there are ids.
pub open spec fn stands_for(strings: Seq<Seq<char>>, id: u32, text: Seq<char>) -> bool {
    strings.len() <= u32::MAX ==> id < strings.len() && strings[id as int] == text
}

/// The same of an optional string.
pub open spec fn stands_for_opt(
    strings: Seq<Seq<char>>,
    id: Option<u32>,
    text: Option<Seq<char>>,
) -> bool {
    match (id, text) {
        (Some(i), Some(t)) => stands_for(strings, i, t),
        (None, None) => true,
        _ => false,
    }
}

/// What an id stands for stays when strings are added.
pub proof fn stands_for_stays(a: Seq<Seq<char>>, b: Seq<Seq<char>>, id: u32, text: Seq<char>)
    requires
        extends(a, b),
        stands_for(a, id, text),
    ensures
        stands_for(b, id, text),
{
    if b.len() <= u32::MAX {
        assert(b.take(a.len() as int)[id as int] == b[id as int]);
    }
}

/// Adding strings twice adds strings.
pub proof fn extends_transitive(a: Seq<Seq<char>>, b: Seq<Seq<char>>, c: Seq<Seq<char>>)
    requires
        extends(a, b),
        extends(b, c),
    ensures
        extends(a, c),
{
    assert(c.take(a.len() as int) =~= b.take(a.len() as int)) by {
        assert forall|i: int| 0 <= i < a.len() implies c[i] == b[i] by {
            assert(c.take(b.len() as int)[i] == b[i]);
        }
    }
}

/// The table after some strings were asked for, one after the other: each is added behind where
/// the table does not have it yet.
pub open spec fn interned(table: Seq<Seq<char>>, asked: Seq<Seq<char>>) -> Seq<Seq<char>>
    decreases asked.len(),
{
    if asked.len() == 0 {
        table
    } else {
        let before = interned(table, asked.drop_last());
        if before.contains(asked.last()) {
            before
        } else {
            before.push(asked.last())
        }
    }
}

/// A string that may be missing, as a list.
pub open spec fn asked_opt(s: Option<Seq<char>>) -> Seq<Seq<char>> {
    match s {
        Some(t) => seq![t],
        None => seq![],
    }
}

/// Asking for one string.
pub proof fn interning_one(table: Seq<Seq<char>>, s: Seq<char>)
    ensures
        interned(table, seq![s]) == (if table.contains(s) {
            table
        } else {
            table.push(s)
        }),
{
    assert(seq![s].drop_last() =~= seq![]);
    assert(seq![s].last() == s);
    assert(interned(table, seq![s].drop_last()) == table);
}

/// Asking for some strings and then for others is asking for them all.
pub proof fn interning_goes_on(
    table: Seq<Seq<char>>,
    first: Seq<Seq<char>>,
    then_asked: Seq<Seq<char>>,
)
    ensures
        interned(interned(table, first), then_asked) == interned(table, first + then_asked),
    decreases then_asked.len(),
{
    if then_asked.len() == 0 {
        assert(first + then_asked =~= first);
    } else {
        interning_goes_on(table, first, then_asked.drop_last());
        assert((first + then_asked).drop_last() =~= first + then_asked.drop_last());
    }
}

/// The law of the table: it holds no string twice, and exactly the strings that were asked for
/// are in it.
pub proof fn strings_are_held_once(asked: Seq<Seq<char>>, s: Seq<char>)
    ensures
        interned(seq![], asked).no_duplicates(),
        interned(seq![], asked).contains(s) == asked.contains(s),
    decreases asked.len(),
{
    if asked.len() > 0 {
        let init = asked.drop_last();
        let before = interned(seq![], init);
        let after = interned(seq![], asked);
        strings_are_held_once(init, s);
        strings_are_held_once(init, asked.last());
        assert(asked[asked.len() - 1] == asked.last());
        if init.contains(s) {
            let k = choose|k: int| 0 <= k < init.len() && init[k] == s;
            assert(asked[k] == s);
        }
        if asked.contains(s) && !init.contains(s) {
            let k = choose|k: int| 0 <= k < asked.len() && asked[k] == s;
            if k < init.len() {
                assert(init[k] == s);
            }
        }
        if before.contains(s) {
            let k = choose|k: int| 0 <= k < before.len() && before[k] == s;
            assert(after[k] == s);
        }
        if after.contains(s) {
            let k = choose|k: int| 0 <= k < after.len() && after[k] == s;
            if k < before.len() {
                assert(before[k] == s);
            }
        }
        if !before.contains(asked.last()) {
            assert(after[after.len() - 1] == asked.last());
        }
    }
}

/// A table of strings, each of which it holds once.
pub struct StringInterner {
    strings: Vec<String>,
}

impl StringInterner {
    /// The strings of the table.
    pub closed spec fn table(self) -> Seq<Seq<char>> {
        texts(self.strings@)
    }

    /// No string is in the table twice.
    pub closed spec fn wf(self) -> bool {
        self.table().no_duplicates()
    }

    /// An empty table.
    pub fn new() -> (r: Self)
        ensures
            r.wf(),
            r.table() == Seq::<Seq<char>>::empty(),
    {
        let r = StringInterner { strings: Vec::new() };
        assert(r.table() =~= Seq::<Seq<char>>::empty());
        r
    }

    /// The id of `s`, which is added where the table does not have it.
    pub fn intern_str(&mut self, s: &str) -> (id: u32)
        requires
            old(self).wf(),
        ensures
            final(self).wf(),
            final(self).table() == interned(old(self).table(), seq![s@]),
            extends(old(self).table(), final(self).table()),
            stands_for(final(self).table(), id, s@),
    {
        let mut i: usize = 0;
        while i < self.strings.len()
            invariant
                self.wf(),
                *self == *old(self),
                i <= self.strings@.len(),
                forall|j: int| 0 <= j < i ==> (#[trigger] self.table()[j]) != s@,
            decreases self.strings@.len() - i,
        {
            if same_text(self.strings[i].as_str(), s) {
                proof {
                    interning_one(self.table(), s@);
                    assert(self.table()[i as int] == s@);
                    assert(self.table().take(self.table().len() as int) =~= self.table());
                }
                return i as u32;
            }
            assert(self.table()[i as int] == self.strings@[i as int]@);
            i = i + 1;
        }
        let ghost before = self.table();
        assert(!before.contains(s@));
        self.strings.push(s.to_owned());
        proof {
            interning_one(before, s@);
            assert(self.table() =~= before.push(s@));
            assert(self.table().take(before.len() as int) =~= before);
        }
        i as u32
    }

    /// The id of `s`.
    pub fn intern(&mut self, s: String) -> (id: u32)
        requires
            old(self).wf(),
        ensures
            final(self).wf(),
            final(self).table() == interned(old(self).table(), seq![s@]),
            extends(old(self).table(), final(self).table()),
            stands_for(final(self).table(), id, s@),
    {
        self.intern_str(s.as_str())
    }

    /// The id of an optional string.
    pub fn intern_opt(&mut self, s: Option<&str>) -> (id: Option<u32>)
        requires
            old(self).wf(),
        ensures
            final(self).wf(),
            final(self).table() == interned(
                old(self).table(),
                asked_opt(
                    match s {
                        Some(t) => Some(t@),
                        None => None,
                    },
                ),
            ),
            extends(old(self).table(), final(self).table()),
            stands_for_opt(
                final(self).table(),
                id,
                match s {
                    Some(t) => Some(t@),
                    None => None,
                },
            ),
    {
        match s {
            Some(t) => Some(self.intern_str(t)),
            None => {
                assert(self.table().take(self.table().len() as int) =~= self.table());
                None
            },
        }
    }

    /// The strings of the table.
    pub fn into_strings(self) -> (r: Vec<String>)
        ensures
            texts(r@) == self.table(),
    {
        self.strings
    }

    /// The table holds no string twice.
    pub proof fn lemma_wf(self)
        requires
            self.wf(),
        ensures
            self.table().no_duplicates(),
    {
    }
}

/// Ids of a table without repetition are the same where the strings are.
pub proof fn ids_tell_strings_apart(
    strings: Seq<Seq<char>>,
    i: u32,
    j: u32,
    a: Seq<char>,
    b: Seq<char>,
)
    requires
        strings.no_duplicates(),
        strings.len() <= u32::MAX,
        stands_for(strings, i, a),
        stands_for(strings, j, b),
    ensures
        i == j <==> a == b,
{
}

} // verus!
