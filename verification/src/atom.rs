//! Interned names.

use vstd::prelude::*;
use crate::text::same_text;

verus! {

/// An interned name, identified by its index in an [`AtomTable`].
#[derive(Debug, Clone, Copy, PartialEq, Eq, PartialOrd, Ord, Hash, Structural)]
pub struct Atom(pub u32);

impl Atom {
    /// The atom with the given index.
    pub fn new(index: u32) -> (r: Atom)
        ensures
            r == Atom(index),
    {
        Atom(index)
    }

    /// The index of this atom.
    pub fn index(self) -> (r: u32)
        ensures
            r == self.0,
    {
        self.0
    }

    /// `ok`, as numbered by [`AtomTable::with_common_atoms`].
    pub fn ok() -> (r: Atom)
        ensures
            r == Atom(0),
    {
        Atom(0)
    }

    /// `error`, as numbered by [`AtomTable::with_common_atoms`].
    pub fn error() -> (r: Atom)
        ensures
            r == Atom(1),
    {
        Atom(1)
    }

    /// `module`, as numbered by [`AtomTable::with_common_atoms`].
    pub fn module() -> (r: Atom)
        ensures
            r == Atom(4),
    {
        Atom(4)
    }

    /// `badarg`, as numbered by [`AtomTable::with_common_atoms`].
    pub fn badarg() -> (r: Atom)
        ensures
            r == Atom(5),
    {
        Atom(5)
    }

    /// `badarith`, as numbered by [`AtomTable::with_common_atoms`].
    pub fn badarith() -> (r: Atom)
        ensures
            r == Atom(6),
    {
        Atom(6)
    }

    /// `badarity`, as numbered by [`AtomTable::with_common_atoms`].
    pub fn badarity() -> (r: Atom)
        ensures
            r == Atom(7),
    {
        Atom(7)
    }

    /// `badfun`, as numbered by [`AtomTable::with_common_atoms`].
    pub fn badfun() -> (r: Atom)
        ensures
            r == Atom(8),
    {
        Atom(8)
    }

    /// `utf8`, as numbered by [`AtomTable::with_common_atoms`].
    pub fn utf8() -> (r: Atom)
        ensures
            r == Atom(9),
    {
        Atom(9)
    }
}

/// How many atoms the 32-bit index of an [`Atom`] can tell apart.
pub const ATOM_LIMIT: u64 = 0x1_0000_0000;

/// A table of distinct names; an atom is the position of its name.
pub struct AtomTable {
    names: Vec<String>,
}

impl View for AtomTable {
    type V = Seq<Seq<char>>;

    closed spec fn view(&self) -> Seq<Seq<char>> {
        Seq::new(self.names@.len(), |i: int| self.names@[i]@)
    }
}

/// The atom that `names` give to `name`, if they hold it.
pub open spec fn atom_named(names: Seq<Seq<char>>, name: Seq<char>) -> Option<Atom> {
    if names.contains(name) {
        Some(Atom(names.index_of(name) as u32))
    } else {
        None
    }
}

/// The atom of `name` and the names after interning it: a name that is not
/// there yet comes last.
pub open spec fn interned(names: Seq<Seq<char>>, name: Seq<char>) -> (Atom, Seq<Seq<char>>) {
    match atom_named(names, name) {
        Some(atom) => (atom, names),
        None => (Atom(names.len() as u32), names.push(name)),
    }
}

/// The names that [`AtomTable::with_common_atoms`] starts from.
pub open spec fn common_names() -> Seq<Seq<char>> {
    seq![
        "ok"@,
        "error"@,
        "true"@,
        "false"@,
        "module"@,
        "badarg"@,
        "badarith"@,
        "badarity"@,
        "badfun"@,
        "utf8"@,
    ]
}

impl AtomTable {
    /// Every name occurs once, and each position fits an atom's index.
    pub open spec fn wf(&self) -> bool {
        &&& self@.no_duplicates()
        &&& self@.len() <= ATOM_LIMIT
    }

    /// The empty table.
    pub fn new() -> (r: AtomTable)
        ensures
            r.wf(),
            r@ == Seq::<Seq<char>>::empty(),
    {
        AtomTable { names: Vec::new() }
    }

    /// A table that holds the names the runtime itself uses.
    pub fn with_common_atoms() -> (r: AtomTable)
        ensures
            r.wf(),
            r@ == common_names(),
    {
        let mut names: Vec<String> = Vec::new();
        names.push("ok".to_owned());
        names.push("error".to_owned());
        names.push("true".to_owned());
        names.push("false".to_owned());
        names.push("module".to_owned());
        names.push("badarg".to_owned());
        names.push("badarith".to_owned());
        names.push("badarity".to_owned());
        names.push("badfun".to_owned());
        names.push("utf8".to_owned());
        let table = AtomTable { names };
        assert(table@ =~= common_names());
        proof {
            lemma_common_names_distinct();
        }
        table
    }

    /// How many names the table holds.
    pub fn len(&self) -> (r: usize)
        ensures
            r == self@.len(),
    {
        self.names.len()
    }

    /// The atom of `name`, if the table holds it.
    pub fn lookup(&self, name: &str) -> (r: Option<Atom>)
        requires
            self.wf(),
        ensures
            r == atom_named(self@, name@),
    {
        let mut i: usize = 0;
        while i < self.names.len()
            invariant
                i <= self.names@.len(),
                self.wf(),
                forall|j: int| 0 <= j < i ==> self@[j] != name@,
            decreases self.names@.len() - i,
        {
            if same_text(self.names[i].as_str(), name) {
                proof {
                    assert(self@[i as int] == name@);
                    assert(self@.contains(name@));
                }
                return Some(Atom(i as u32));
            }
            assert(self@[i as int] != name@);
            i += 1;
        }
        None
    }

    /// The atom of `name`, added to the table when it is new.
    pub fn intern(&mut self, name: &str) -> (r: Atom)
        requires
            old(self).wf(),
            old(self)@.contains(name@) || old(self)@.len() < ATOM_LIMIT,
        ensures
            final(self).wf(),
            (r, final(self)@) == interned(old(self)@, name@),
    {
        match self.lookup(name) {
            Some(atom) => atom,
            None => {
                let atom = Atom(self.names.len() as u32);
                self.names.push(name.to_owned());
                assert(self@ =~= old(self)@.push(name@));
                atom
            },
        }
    }

    /// The name of `atom`, if the table holds it.
    pub fn resolve(&self, atom: Atom) -> (r: Option<&str>)
        ensures
            r is Some <==> atom.0 < self@.len(),
            r matches Some(name) ==> name@ == self@[atom.0 as int],
    {
        if (atom.0 as usize) < self.names.len() {
            Some(self.names[atom.0 as usize].as_str())
        } else {
            None
        }
    }
}

proof fn lemma_common_names_distinct()
    ensures
        common_names().no_duplicates(),
{
    reveal_strlit("ok");
    reveal_strlit("error");
    reveal_strlit("true");
    reveal_strlit("false");
    reveal_strlit("module");
    reveal_strlit("badarg");
    reveal_strlit("badarith");
    reveal_strlit("badarity");
    reveal_strlit("badfun");
    reveal_strlit("utf8");
    assert("ok"@.len() == 2 && "utf8"@.len() == 4 && "true"@.len() == 4);
    assert("utf8"@[0] == 'u' && "true"@[0] == 't');
    assert("error"@.len() == 5 && "false"@.len() == 5);
    assert("error"@[0] == 'e' && "false"@[0] == 'f');
    assert("module"@.len() == 6 && "badarg"@.len() == 6 && "badfun"@.len() == 6);
    assert("module"@[0] == 'm' && "badarg"@[3] == 'a' && "badfun"@[3] == 'f' && "badarg"@[0] == 'b'
        && "badfun"@[0] == 'b');
    assert("badarith"@.len() == 8 && "badarity"@.len() == 8);
    assert("badarith"@[7] == 'h' && "badarity"@[7] == 'y');
}

/// Interning a name and resolving the atom gives the name back.
pub proof fn law_intern_then_resolve(names: Seq<Seq<char>>, name: Seq<char>)
    requires
        names.no_duplicates(),
        names.len() < ATOM_LIMIT,
    ensures
        ({
            let (atom, after) = interned(names, name);
            atom.0 < after.len() && after[atom.0 as int] == name
        }),
{
}

/// Interning a name changes the name of no atom that was there before.
pub proof fn law_intern_keeps_names(names: Seq<Seq<char>>, name: Seq<char>, atom: Atom)
    requires
        atom.0 < names.len(),
    ensures
        atom.0 < interned(names, name).1.len(),
        interned(names, name).1[atom.0 as int] == names[atom.0 as int],
{
}

/// Interning the same name again gives the same atom and changes nothing.
pub proof fn law_intern_again(names: Seq<Seq<char>>, name: Seq<char>)
    requires
        names.no_duplicates(),
        names.len() < ATOM_LIMIT,
    ensures
        interned(interned(names, name).1, name) == interned(names, name),
{
    let after = interned(names, name).1;
    if !names.contains(name) {
        assert(after[names.len() as int] == name);
        assert(after.contains(name));
        let i = after.index_of(name);
        assert(0 <= i < after.len() && after[i] == name);
        if i < names.len() {
            assert(names[i] == name);
        }
    }
}

} // verus!
