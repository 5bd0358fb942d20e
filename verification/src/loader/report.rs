//! Which imports of a module could not be bound when it was loaded.

use vstd::prelude::*;
use vstd::string::*;
use crate::atom::Atom;
use crate::native::Capability;
use crate::text::{decimal_u64, nat_text};

verus! {

/// An import that was not bound.
#[derive(Debug, Clone, Copy, PartialEq, Eq, Structural)]
pub struct UnresolvedImportEntry {
    pub module: Atom,
    pub function: Atom,
    pub arity: u8,
}

/// Another name for [`UnresolvedImportEntry`].
pub type UnresolvedImport = UnresolvedImportEntry;

impl UnresolvedImportEntry {
    pub fn new(module: Atom, function: Atom, arity: u8) -> (r: Self)
        ensures
            r == (UnresolvedImportEntry { module, function, arity }),
    {
        UnresolvedImportEntry { module, function, arity }
    }
}

/// A native import that the capability policy denied.
#[derive(Debug, Clone, Copy, PartialEq, Eq, Structural)]
pub struct DeniedImportEntry {
    pub module: Atom,
    pub function: Atom,
    pub arity: u8,
    /// The capability that the function needs.
    pub capability: Capability,
}

impl DeniedImportEntry {
    pub fn new(module: Atom, function: Atom, arity: u8, capability: Capability) -> (r: Self)
        ensures
            r == (DeniedImportEntry { module, function, arity, capability }),
    {
        DeniedImportEntry { module, function, arity, capability }
    }
}

/// The entries of one module.
#[verifier::ext_equal]
pub struct Group<T> {
    pub module: Atom,
    pub entries: Seq<T>,
}

/// Entries grouped by module, in the order of the modules' atoms.
#[derive(Debug)]
pub struct ImportGroups<T> {
    groups: Vec<(Atom, Vec<T>)>,
    none: Vec<T>,
}

spec fn group_views<T>(groups: Seq<(Atom, Vec<T>)>) -> Seq<Group<T>> {
    Seq::new(groups.len(), |i: int| Group { module: groups[i].0, entries: groups[i].1@ })
}

/// Whether groups are in order, one per module, and none is empty.
pub open spec fn ordered<T>(groups: Seq<Group<T>>) -> bool {
    &&& forall|i: int, j: int|
        0 <= i < j < groups.len() ==> (#[trigger] groups[i]).module.0 < (
        #[trigger] groups[j]).module.0
    &&& forall|i: int| 0 <= i < groups.len() ==> (#[trigger] groups[i]).entries.len() > 0
}

/// Whether there is a group for a module.
pub open spec fn has_group<T>(groups: Seq<Group<T>>, module: Atom) -> bool {
    exists|i: int| 0 <= i < groups.len() && (#[trigger] groups[i]).module == module
}

/// The entries of a module; none when it has no group.
pub open spec fn group_of<T>(groups: Seq<Group<T>>, module: Atom) -> Seq<T> {
    if has_group(groups, module) {
        groups[choose|i: int|
            0 <= i < groups.len() && (#[trigger] groups[i]).module == module].entries
    } else {
        Seq::empty()
    }
}

/// All entries, group after group.
pub open spec fn all_entries<T>(groups: Seq<Group<T>>) -> Seq<T>
    decreases groups.len(),
{
    if groups.len() == 0 {
        Seq::empty()
    } else {
        all_entries(groups.drop_last()) + groups.last().entries
    }
}

proof fn lemma_group_at<T>(groups: Seq<Group<T>>, i: int)
    requires
        ordered(groups),
        0 <= i < groups.len(),
    ensures
        has_group(groups, groups[i].module),
        group_of(groups, groups[i].module) == groups[i].entries,
{
    let module = groups[i].module;
    let j = choose|j: int| 0 <= j < groups.len() && (#[trigger] groups[j]).module == module;
    assert(groups[i].module == module);
    if j < i {
        assert(groups[j].module.0 < groups[i].module.0);
    } else if i < j {
        assert(groups[i].module.0 < groups[j].module.0);
    }
}

impl<T: Copy> ImportGroups<T> {
    /// The groups in order.
    pub closed spec fn view(&self) -> Seq<Group<T>> {
        group_views(self.groups@)
    }

    pub closed spec fn wf(&self) -> bool {
        ordered(self.view()) && self.none@.len() == 0
    }

    /// What [`ImportGroups::wf`] says of the groups.
    pub proof fn lemma_wf(&self)
        requires
            self.wf(),
        ensures
            ordered(self.view()),
    {
    }

    /// No groups.
    pub fn new() -> (r: Self)
        ensures
            r.wf(),
            r.view() == Seq::<Group<T>>::empty(),
    {
        let r = ImportGroups { groups: Vec::new(), none: Vec::new() };
        assert(r.view() =~= Seq::<Group<T>>::empty());
        r
    }

    /// The position of the first group at or after a module.
    fn position(&self, module: Atom) -> (r: usize)
        requires
            self.wf(),
        ensures
            r <= self.view().len(),
            forall|i: int| 0 <= i < r ==> (#[trigger] self.view()[i]).module.0 < module.0,
            forall|i: int|
                r <= i < self.view().len() ==> module.0 <= (#[trigger] self.view()[i]).module.0,
    {
        let mut at: usize = 0;
        while at < self.groups.len() && self.groups[at].0.0 < module.0
            invariant
                at <= self.groups@.len(),
                forall|i: int| 0 <= i < at ==> (#[trigger] self.view()[i]).module.0 < module.0,
            decreases self.groups@.len() - at,
        {
            assert(self.view()[at as int].module == self.groups@[at as int].0);
            at += 1;
        }
        proof {
            assert forall|i: int| at <= i < self.view().len() implies module.0 <= (
            #[trigger] self.view()[i]).module.0 by {
                if i > at {
                    assert(self.view()[at as int].module.0 < self.view()[i].module.0);
                }
                assert(self.view()[at as int].module == self.groups@[at as int].0);
            }
        }
        at
    }

    /// Adds an entry to the group of a module.
    pub fn push(&mut self, module: Atom, entry: T)
        requires
            old(self).wf(),
        ensures
            final(self).wf(),
            forall|m: Atom|
                #![trigger has_group(final(self).view(), m)]
                has_group(final(self).view(), m) <==> has_group(old(self).view(), m) || m
                    == module,
            forall|m: Atom|
                #![trigger group_of(final(self).view(), m)]
                group_of(final(self).view(), m) == if m == module {
                    group_of(old(self).view(), m).push(entry)
                } else {
                    group_of(old(self).view(), m)
                },
    {
        let ghost before = self.view();
        let at: usize = self.position(module);
        let mut entries: Vec<T> = Vec::new();
        let mut found = false;
        if at < self.groups.len() && self.groups[at].0.0 == module.0 {
            assert(before[at as int].module == module);
            let group = self.groups.remove(at);
            entries = group.1;
            found = true;
        }
        let ghost kept = entries@;
        entries.push(entry);
        self.groups.insert(at, (module, entries));
        proof {
            let after = self.view();
            let here = Group { module, entries: kept.push(entry) };
            if found {
                assert(after =~= before.update(at as int, here));
            } else {
                assert(after =~= before.insert(at as int, here));
            }
            assert(after[at as int] == here);
            assert forall|i: int, j: int| 0 <= i < j < after.len() implies (
            #[trigger] after[i]).module.0 < (#[trigger] after[j]).module.0 by {
                let a = if found || i <= at {
                    i
                } else {
                    i - 1
                };
                let b = if found || j <= at {
                    j
                } else {
                    j - 1
                };
                if i != at && j != at {
                    assert(after[i] == before[a] && after[j] == before[b]);
                } else if i == at {
                    assert(after[j] == before[b]);
                    if !found {
                        assert(before[b].module.0 >= module.0);
                        if before[b].module.0 == module.0 {
                            if b > at {
                                assert(before[at as int].module.0 < before[b].module.0);
                                assert(before[at as int].module.0 >= module.0);
                            }
                            assert(before[at as int].module == self.groups@[at + 1].0);
                        }
                    } else {
                        assert(before[at as int].module.0 < before[b].module.0);
                    }
                } else {
                    assert(after[i] == before[i]);
                }
            }
            assert forall|i: int| 0 <= i < after.len() implies (
            #[trigger] after[i]).entries.len() > 0 by {
                if i != at {
                    let a = if found || i <= at {
                        i
                    } else {
                        i - 1
                    };
                    assert(after[i] == before[a]);
                }
            }
            assert(ordered(after));
            assert forall|m: Atom|
                #![trigger has_group(after, m)]
                #![trigger group_of(after, m)]
                (has_group(after, m) <==> has_group(before, m) || m == module) && group_of(after, m)
                    == if m == module {
                    group_of(before, m).push(entry)
                } else {
                    group_of(before, m)
                } by {
                if m == module {
                    lemma_group_at(after, at as int);
                    if found {
                        lemma_group_at(before, at as int);
                    } else {
                        assert(!has_group(before, module)) by {
                            if has_group(before, module) {
                                let i = choose|i: int|
                                    0 <= i < before.len() && (#[trigger] before[i]).module
                                        == module;
                                assert(before[i].module.0 == module.0);
                                if i < at {
                                    assert(before[i].module.0 < module.0);
                                } else if i > at {
                                    assert(before[at as int].module.0 < before[i].module.0);
                                    assert(before[at as int].module.0 >= module.0);
                                } else {
                                    assert(after[at + 1] == before[at as int]);
                                    assert(after[at as int].module.0 < after[at + 1].module.0);
                                }
                            }
                        }
                    }
                } else {
                    if has_group(before, m) {
                        let i = choose|i: int|
                            0 <= i < before.len() && (#[trigger] before[i]).module == m;
                        let k = if found || i < at {
                            i
                        } else {
                            i + 1
                        };
                        assert(after[k] == before[i]);
                        lemma_group_at(before, i);
                        lemma_group_at(after, k);
                    }
                    if has_group(after, m) {
                        let k = choose|k: int|
                            0 <= k < after.len() && (#[trigger] after[k]).module == m;
                        let i = if found || k < at {
                            k
                        } else {
                            k - 1
                        };
                        assert(before[i] == after[k]);
                    }
                }
            }
        }
    }

    /// Whether there is no group.
    pub fn is_empty(&self) -> (r: bool)
        ensures
            r == (self.view().len() == 0),
    {
        self.groups.len() == 0
    }

    /// Whether there is a group for a module.
    pub fn contains_key(&self, module: &Atom) -> (r: bool)
        requires
            self.wf(),
        ensures
            r == has_group(self.view(), *module),
    {
        let at: usize = self.position(*module);
        let found = at < self.groups.len() && self.groups[at].0.0 == module.0;
        proof {
            if found {
                assert(self.view()[at as int].module == *module);
            } else if has_group(self.view(), *module) {
                let i = choose|i: int|
                    0 <= i < self.view().len() && (#[trigger] self.view()[i]).module == *module;
                assert(at < self.view().len() ==> self.view()[at as int].module
                    == self.groups@[at as int].0);
                if i > at {
                    assert(self.view()[at as int].module.0 < self.view()[i].module.0);
                }
            }
        }
        found
    }

    /// The entries of a module.
    pub fn get(&self, module: Atom) -> (r: &[T])
        requires
            self.wf(),
        ensures
            r@ == group_of(self.view(), module),
    {
        let found = self.contains_key(&module);
        let at: usize = self.position(module);
        if found {
            proof {
                let i = choose|i: int|
                    0 <= i < self.view().len() && (#[trigger] self.view()[i]).module == module;
                if i > at {
                    assert(self.view()[at as int].module.0 < self.view()[i].module.0);
                }
                assert(i == at);
                lemma_group_at(self.view(), at as int);
            }
            self.groups[at].1.as_slice()
        } else {
            assert(self.none@ =~= Seq::<T>::empty());
            self.none.as_slice()
        }
    }

    /// All entries, in the order of their modules' atoms.
    pub fn flatten(&self) -> (r: Vec<T>)
        ensures
            r@ == all_entries(self.view()),
    {
        let mut entries: Vec<T> = Vec::new();
        let mut i: usize = 0;
        assert(self.view().take(0) =~= Seq::empty());
        assert(entries@ =~= all_entries(self.view().take(0)));
        while i < self.groups.len()
            invariant
                i <= self.groups@.len(),
                entries@ == all_entries(self.view().take(i as int)),
            decreases self.groups@.len() - i,
        {
            let mut more = vstd::slice::slice_to_vec(self.groups[i].1.as_slice());
            entries.append(&mut more);
            proof {
                let longer = self.view().take(i + 1);
                assert(longer.drop_last() =~= self.view().take(i as int));
                assert(longer.last().entries == self.groups@[i as int].1@);
            }
            i += 1;
        }
        assert(self.view().take(self.view().len() as int) =~= self.view());
        entries
    }
}

/// Whether groups hold the given entries: each group those of its module, in
/// the given order.
pub open spec fn groups_unresolved(
    groups: Seq<Group<UnresolvedImportEntry>>,
    entries: Seq<UnresolvedImportEntry>,
) -> bool {
    forall|m: Atom|
        #![trigger has_group(groups, m)]
        #![trigger group_of(groups, m)]
        group_of(groups, m) == entries.filter(|e: UnresolvedImportEntry| e.module == m) && (
        has_group(groups, m) <==> exists|i: int|
            0 <= i < entries.len() && (#[trigger] entries[i]).module == m)
}

/// Whether groups hold the given entries: each group those of its module, in
/// the given order.
pub open spec fn groups_denied(
    groups: Seq<Group<DeniedImportEntry>>,
    entries: Seq<DeniedImportEntry>,
) -> bool {
    forall|m: Atom|
        #![trigger has_group(groups, m)]
        #![trigger group_of(groups, m)]
        group_of(groups, m) == entries.filter(|e: DeniedImportEntry| e.module == m) && (has_group(
            groups,
            m,
        ) <==> exists|i: int| 0 <= i < entries.len() && (#[trigger] entries[i]).module == m)
}

proof fn lemma_filter_push<T>(entries: Seq<T>, entry: T, keep: spec_fn(T) -> bool)
    ensures
        entries.push(entry).filter(keep) == if keep(entry) {
            entries.filter(keep).push(entry)
        } else {
            entries.filter(keep)
        },
{
    reveal(Seq::filter);
    assert(entries.push(entry).drop_last() =~= entries);
}

/// Groups entries by module.
pub fn group_unresolved(entries: &Vec<UnresolvedImportEntry>) -> (r: ImportGroups<
    UnresolvedImportEntry,
>)
    ensures
        r.wf(),
        groups_unresolved(r.view(), entries@),
{
    let mut groups: ImportGroups<UnresolvedImportEntry> = ImportGroups::new();
    let mut i: usize = 0;
    proof {
        reveal(Seq::filter);
        assert forall|m: Atom|
            #![trigger has_group(groups.view(), m)]
            #![trigger group_of(groups.view(), m)]
            group_of(groups.view(), m) == entries@.take(0).filter(
                |e: UnresolvedImportEntry| e.module == m,
            ) && !has_group(groups.view(), m) by {
            assert(entries@.take(0).filter(|e: UnresolvedImportEntry| e.module == m)
                =~= Seq::empty());
        }
    }
    while i < entries.len()
        invariant
            i <= entries@.len(),
            groups.wf(),
            groups_unresolved(groups.view(), entries@.take(i as int)),
        decreases entries@.len() - i,
    {
        let entry = entries[i];
        let ghost before = groups.view();
        groups.push(entry.module, entry);
        proof {
            let shorter = entries@.take(i as int);
            let longer = entries@.take(i + 1);
            assert(longer =~= shorter.push(entry));
            assert forall|m: Atom|
                #![trigger has_group(groups.view(), m)]
                #![trigger group_of(groups.view(), m)]
                group_of(groups.view(), m) == longer.filter(
                    |e: UnresolvedImportEntry| e.module == m,
                ) && (has_group(groups.view(), m) <==> exists|k: int|
                    0 <= k < longer.len() && (#[trigger] longer[k]).module == m) by {
                lemma_filter_push(shorter, entry, |e: UnresolvedImportEntry| e.module == m);
                assert(group_of(before, m) == shorter.filter(
                    |e: UnresolvedImportEntry| e.module == m,
                ));
                assert(longer[i as int] == entry);
                if has_group(before, m) {
                    let k = choose|k: int|
                        0 <= k < shorter.len() && (#[trigger] shorter[k]).module == m;
                    assert(longer[k] == shorter[k]);
                }
                if exists|k: int| 0 <= k < longer.len() && (#[trigger] longer[k]).module == m {
                    let k = choose|k: int|
                        0 <= k < longer.len() && (#[trigger] longer[k]).module == m;
                    if k < i {
                        assert(shorter[k].module == m);
                    }
                }
            }
        }
        i += 1;
    }
    assert(entries@.take(entries@.len() as int) =~= entries@);
    groups
}

/// Groups entries by module.
pub fn group_denied(entries: &Vec<DeniedImportEntry>) -> (r: ImportGroups<DeniedImportEntry>)
    ensures
        r.wf(),
        groups_denied(r.view(), entries@),
{
    let mut groups: ImportGroups<DeniedImportEntry> = ImportGroups::new();
    let mut i: usize = 0;
    proof {
        reveal(Seq::filter);
        assert forall|m: Atom|
            #![trigger has_group(groups.view(), m)]
            #![trigger group_of(groups.view(), m)]
            group_of(groups.view(), m) == entries@.take(0).filter(
                |e: DeniedImportEntry| e.module == m,
            ) && !has_group(groups.view(), m) by {
            assert(entries@.take(0).filter(|e: DeniedImportEntry| e.module == m) =~= Seq::empty());
        }
    }
    while i < entries.len()
        invariant
            i <= entries@.len(),
            groups.wf(),
            groups_denied(groups.view(), entries@.take(i as int)),
        decreases entries@.len() - i,
    {
        let entry = entries[i];
        let ghost before = groups.view();
        groups.push(entry.module, entry);
        proof {
            let shorter = entries@.take(i as int);
            let longer = entries@.take(i + 1);
            assert(longer =~= shorter.push(entry));
            assert forall|m: Atom|
                #![trigger has_group(groups.view(), m)]
                #![trigger group_of(groups.view(), m)]
                group_of(groups.view(), m) == longer.filter(|e: DeniedImportEntry| e.module == m)
                    && (has_group(groups.view(), m) <==> exists|k: int|
                    0 <= k < longer.len() && (#[trigger] longer[k]).module == m) by {
                lemma_filter_push(shorter, entry, |e: DeniedImportEntry| e.module == m);
                assert(group_of(before, m) == shorter.filter(
                    |e: DeniedImportEntry| e.module == m,
                ));
                assert(longer[i as int] == entry);
                if has_group(before, m) {
                    let k = choose|k: int|
                        0 <= k < shorter.len() && (#[trigger] shorter[k]).module == m;
                    assert(longer[k] == shorter[k]);
                }
                if exists|k: int| 0 <= k < longer.len() && (#[trigger] longer[k]).module == m {
                    let k = choose|k: int|
                        0 <= k < longer.len() && (#[trigger] longer[k]).module == m;
                    if k < i {
                        assert(shorter[k].module == m);
                    }
                }
            }
        }
        i += 1;
    }
    assert(entries@.take(entries@.len() as int) =~= entries@);
    groups
}

// ---------------------------------------------------------------------------
// Text
// ---------------------------------------------------------------------------

/// The text of an entry: its function and arity.
pub open spec fn unresolved_text(entry: UnresolvedImportEntry) -> Seq<char> {
    "Atom("@ + nat_text(entry.function.0 as nat) + ")/"@ + nat_text(entry.arity as nat)
}

/// The name of a capability.
pub open spec fn capability_text(capability: Capability) -> Seq<char> {
    match capability {
        Capability::Pure => "Pure"@,
        Capability::Clock => "Clock"@,
        Capability::ExternalIo => "ExternalIo"@,
    }
}

/// The text of a denied entry: its function, arity and capability.
pub open spec fn denied_text(entry: DeniedImportEntry) -> Seq<char> {
    "Atom("@ + nat_text(entry.function.0 as nat) + ")/"@ + nat_text(entry.arity as nat) + " ("@
        + capability_text(entry.capability) + ", capability denied)"@
}

/// The texts of the first `n` entries, with commas between them.
pub open spec fn entries_text<T>(entries: Seq<T>, n: nat, text: spec_fn(T) -> Seq<char>) -> Seq<
    char,
>
    decreases n,
{
    if n == 0 {
        Seq::empty()
    } else if n == 1 {
        text(entries[0])
    } else {
        entries_text(entries, (n - 1) as nat, text) + ", "@ + text(entries[n - 1])
    }
}

/// The text of a group: its module and its entries.
pub open spec fn group_text<T>(group: Group<T>, text: spec_fn(T) -> Seq<char>) -> Seq<char> {
    "Atom("@ + nat_text(group.module.0 as nat) + "): "@ + entries_text(
        group.entries,
        group.entries.len(),
        text,
    )
}

/// The texts of the first `n` groups, with semicolons between them.
pub open spec fn groups_text<T>(groups: Seq<Group<T>>, n: nat, text: spec_fn(T) -> Seq<char>) -> Seq<
    char,
>
    decreases n,
{
    if n == 0 {
        Seq::empty()
    } else if n == 1 {
        group_text(groups[0], text)
    } else {
        groups_text(groups, (n - 1) as nat, text) + "; "@ + group_text(groups[n - 1], text)
    }
}

/// The text of a report.
pub open spec fn report_text(
    unresolved: Seq<Group<UnresolvedImportEntry>>,
    deferred: Seq<Group<UnresolvedImportEntry>>,
    denied: Seq<Group<DeniedImportEntry>>,
) -> Seq<char> {
    if unresolved.len() == 0 && deferred.len() == 0 && denied.len() == 0 {
        "no unresolved imports"@
    } else {
        let plain = |e: UnresolvedImportEntry| unresolved_text(e);
        let first = groups_text(unresolved, unresolved.len(), plain);
        let second = if deferred.len() == 0 {
            first
        } else if unresolved.len() == 0 {
            first + "deferred: "@ + groups_text(deferred, deferred.len(), plain)
        } else {
            first + "; "@ + "deferred: "@ + groups_text(deferred, deferred.len(), plain)
        };
        let last = groups_text(denied, denied.len(), |e: DeniedImportEntry| denied_text(e));
        if denied.len() == 0 {
            second
        } else if unresolved.len() == 0 && deferred.len() == 0 {
            second + "capability denied: "@ + last
        } else {
            second + "; "@ + "capability denied: "@ + last
        }
    }
}

fn append_unresolved(text: &mut String, entry: &UnresolvedImportEntry)
    ensures
        final(text)@ == old(text)@ + unresolved_text(*entry),
{
    let mut own = "Atom(".to_owned();
    own.append(decimal_u64(entry.function.0 as u64).as_str());
    own.append(")/");
    own.append(decimal_u64(entry.arity as u64).as_str());
    text.append(own.as_str());
}

fn capability_name(capability: Capability) -> (r: &'static str)
    ensures
        r@ == capability_text(capability),
{
    match capability {
        Capability::Pure => "Pure",
        Capability::Clock => "Clock",
        Capability::ExternalIo => "ExternalIo",
    }
}

fn append_denied(text: &mut String, entry: &DeniedImportEntry)
    ensures
        final(text)@ == old(text)@ + denied_text(*entry),
{
    let mut own = "Atom(".to_owned();
    own.append(decimal_u64(entry.function.0 as u64).as_str());
    own.append(")/");
    own.append(decimal_u64(entry.arity as u64).as_str());
    own.append(" (");
    own.append(capability_name(entry.capability));
    own.append(", capability denied)");
    text.append(own.as_str());
}

impl ImportGroups<UnresolvedImportEntry> {
    /// The texts of all groups, with semicolons between them.
    fn unresolved_string(&self) -> (r: String)
        ensures
            r@ == groups_text(
                self.view(),
                self.view().len(),
                |e: UnresolvedImportEntry| unresolved_text(e),
            ),
    {
        let ghost plain = |e: UnresolvedImportEntry| unresolved_text(e);
        let mut text = String::new();
        let mut i: usize = 0;
        assert(text@ =~= groups_text(self.view(), 0, plain));
        while i < self.groups.len()
            invariant
                i <= self.groups@.len(),
                plain == (|e: UnresolvedImportEntry| unresolved_text(e)),
                text@ == groups_text(self.view(), i as nat, plain),
            decreases self.groups@.len() - i,
        {
            let ghost before = text@;
            if i > 0 {
                text.append("; ");
            }
            let entries = &self.groups[i].1;
            let mut own = "Atom(".to_owned();
            own.append(decimal_u64(self.groups[i].0.0 as u64).as_str());
            own.append("): ");
            let ghost start = own@;
            let mut list = String::new();
            let mut j: usize = 0;
            assert(list@ =~= entries_text(entries@, 0, plain));
            while j < entries.len()
                invariant
                    j <= entries@.len(),
                    plain == (|e: UnresolvedImportEntry| unresolved_text(e)),
                    list@ == entries_text(entries@, j as nat, plain),
                decreases entries@.len() - j,
            {
                if j > 0 {
                    list.append(", ");
                }
                append_unresolved(&mut list, &entries[j]);
                proof {
                    if j == 0 {
                        assert(list@ =~= unresolved_text(entries@[0]));
                    }
                }
                j += 1;
            }
            own.append(list.as_str());
            assert(own@ == group_text(self.view()[i as int], plain));
            text.append(own.as_str());
            proof {
                if i == 0 {
                    assert(text@ =~= group_text(self.view()[0], plain));
                }
            }
            i += 1;
        }
        text
    }
}

impl ImportGroups<DeniedImportEntry> {
    /// The texts of all groups, with semicolons between them.
    fn denied_string(&self) -> (r: String)
        ensures
            r@ == groups_text(
                self.view(),
                self.view().len(),
                |e: DeniedImportEntry| denied_text(e),
            ),
    {
        let ghost plain = |e: DeniedImportEntry| denied_text(e);
        let mut text = String::new();
        let mut i: usize = 0;
        assert(text@ =~= groups_text(self.view(), 0, plain));
        while i < self.groups.len()
            invariant
                i <= self.groups@.len(),
                plain == (|e: DeniedImportEntry| denied_text(e)),
                text@ == groups_text(self.view(), i as nat, plain),
            decreases self.groups@.len() - i,
        {
            if i > 0 {
                text.append("; ");
            }
            let entries = &self.groups[i].1;
            let mut own = "Atom(".to_owned();
            own.append(decimal_u64(self.groups[i].0.0 as u64).as_str());
            own.append("): ");
            let mut list = String::new();
            let mut j: usize = 0;
            assert(list@ =~= entries_text(entries@, 0, plain));
            while j < entries.len()
                invariant
                    j <= entries@.len(),
                    plain == (|e: DeniedImportEntry| denied_text(e)),
                    list@ == entries_text(entries@, j as nat, plain),
                decreases entries@.len() - j,
            {
                if j > 0 {
                    list.append(", ");
                }
                append_denied(&mut list, &entries[j]);
                proof {
                    if j == 0 {
                        assert(list@ =~= denied_text(entries@[0]));
                    }
                }
                j += 1;
            }
            own.append(list.as_str());
            assert(own@ == group_text(self.view()[i as int], plain));
            text.append(own.as_str());
            proof {
                if i == 0 {
                    assert(text@ =~= group_text(self.view()[0], plain));
                }
            }
            i += 1;
        }
        text
    }
}

// ---------------------------------------------------------------------------
// The report
// ---------------------------------------------------------------------------

/// The imports of a module that were not bound, grouped by imported module.
#[derive(Debug)]
pub struct UnresolvedImportReport {
    entries: ImportGroups<UnresolvedImportEntry>,
    deferred: ImportGroups<UnresolvedImportEntry>,
    denied: ImportGroups<DeniedImportEntry>,
}

impl UnresolvedImportReport {
    /// Imports that a loaded module does not export.
    pub closed spec fn unresolved_groups(&self) -> Seq<Group<UnresolvedImportEntry>> {
        self.entries.view()
    }

    /// Imports of modules that are not loaded.
    pub closed spec fn deferred_groups(&self) -> Seq<Group<UnresolvedImportEntry>> {
        self.deferred.view()
    }

    /// Native imports that the policy denied.
    pub closed spec fn denied_groups(&self) -> Seq<Group<DeniedImportEntry>> {
        self.denied.view()
    }

    pub closed spec fn wf(&self) -> bool {
        self.entries.wf() && self.deferred.wf() && self.denied.wf()
    }

    /// Groups of a report are in order, one per module, and none is empty.
    pub proof fn lemma_wf(&self)
        requires
            self.wf(),
        ensures
            ordered(self.unresolved_groups()),
            ordered(self.deferred_groups()),
            ordered(self.denied_groups()),
    {
        self.entries.lemma_wf();
        self.deferred.lemma_wf();
        self.denied.lemma_wf();
    }

    /// A report of imports that their modules do not export.
    pub fn new(entries: Vec<UnresolvedImportEntry>) -> (r: Self)
        ensures
            r.wf(),
            groups_unresolved(r.unresolved_groups(), entries@),
            groups_unresolved(r.deferred_groups(), Seq::empty()),
            groups_denied(r.denied_groups(), Seq::empty()),
    {
        Self::with_deferred(entries, Vec::new())
    }

    /// A report of imports that their modules do not export, and of imports of
    /// modules that are not loaded.
    pub fn with_deferred(
        entries: Vec<UnresolvedImportEntry>,
        deferred: Vec<UnresolvedImportEntry>,
    ) -> (r: Self)
        ensures
            r.wf(),
            groups_unresolved(r.unresolved_groups(), entries@),
            groups_unresolved(r.deferred_groups(), deferred@),
            groups_denied(r.denied_groups(), Seq::empty()),
    {
        Self::with_denied(entries, deferred, Vec::new())
    }

    /// A report of all three kinds of imports.
    pub fn with_denied(
        entries: Vec<UnresolvedImportEntry>,
        deferred: Vec<UnresolvedImportEntry>,
        denied: Vec<DeniedImportEntry>,
    ) -> (r: Self)
        ensures
            r.wf(),
            groups_unresolved(r.unresolved_groups(), entries@),
            groups_unresolved(r.deferred_groups(), deferred@),
            groups_denied(r.denied_groups(), denied@),
    {
        UnresolvedImportReport {
            entries: group_unresolved(&entries),
            deferred: group_unresolved(&deferred),
            denied: group_denied(&denied),
        }
    }

    /// Whether every import is bound or only deferred.
    pub fn is_empty(&self) -> (r: bool)
        ensures
            r == (self.unresolved_groups().len() == 0 && self.denied_groups().len() == 0),
    {
        self.entries.is_empty() && self.denied.is_empty()
    }

    /// Whether an import is deferred.
    pub fn has_deferred(&self) -> (r: bool)
        ensures
            r == (self.deferred_groups().len() > 0),
    {
        !self.deferred.is_empty()
    }

    /// Whether an import was denied.
    pub fn has_denied(&self) -> (r: bool)
        ensures
            r == (self.denied_groups().len() > 0),
    {
        !self.denied.is_empty()
    }

    /// The imports that their modules do not export, by module.
    pub fn entries_by_module(&self) -> (r: &ImportGroups<UnresolvedImportEntry>)
        requires
            self.wf(),
        ensures
            r.wf(),
            r.view() == self.unresolved_groups(),
    {
        &self.entries
    }

    /// The imports of one module that it does not export.
    pub fn entries_for(&self, module: Atom) -> (r: &[UnresolvedImportEntry])
        requires
            self.wf(),
        ensures
            r@ == group_of(self.unresolved_groups(), module),
    {
        self.entries.get(module)
    }

    /// All imports that their modules do not export, in the order of modules.
    pub fn imports(&self) -> (r: Vec<UnresolvedImportEntry>)
        ensures
            r@ == all_entries(self.unresolved_groups()),
    {
        self.entries.flatten()
    }

    /// The imports of modules that are not loaded, by module.
    pub fn deferred_by_module(&self) -> (r: &ImportGroups<UnresolvedImportEntry>)
        requires
            self.wf(),
        ensures
            r.wf(),
            r.view() == self.deferred_groups(),
    {
        &self.deferred
    }

    /// The imports of one module that is not loaded.
    pub fn deferred_for(&self, module: Atom) -> (r: &[UnresolvedImportEntry])
        requires
            self.wf(),
        ensures
            r@ == group_of(self.deferred_groups(), module),
    {
        self.deferred.get(module)
    }

    /// All imports of modules that are not loaded, in the order of modules.
    pub fn deferred_imports(&self) -> (r: Vec<UnresolvedImportEntry>)
        ensures
            r@ == all_entries(self.deferred_groups()),
    {
        self.deferred.flatten()
    }

    /// The denied imports of one module.
    pub fn denied_for(&self, module: Atom) -> (r: &[DeniedImportEntry])
        requires
            self.wf(),
        ensures
            r@ == group_of(self.denied_groups(), module),
    {
        self.denied.get(module)
    }

    /// All denied imports, in the order of modules.
    pub fn denied_imports(&self) -> (r: Vec<DeniedImportEntry>)
        ensures
            r@ == all_entries(self.denied_groups()),
    {
        self.denied.flatten()
    }

    /// The report as one line of text.
    pub fn describe(&self) -> (r: String)
        ensures
            r@ == report_text(
                self.unresolved_groups(),
                self.deferred_groups(),
                self.denied_groups(),
            ),
    {
        if self.is_empty() && !self.has_deferred() {
            return "no unresolved imports".to_owned();
        }
        let mut text = self.entries.unresolved_string();
        if !self.deferred.is_empty() {
            if !self.entries.is_empty() {
                text.append("; ");
            }
            text.append("deferred: ");
            text.append(self.deferred.unresolved_string().as_str());
        }
        if !self.denied.is_empty() {
            if !self.entries.is_empty() || !self.deferred.is_empty() {
                text.append("; ");
            }
            text.append("capability denied: ");
            text.append(self.denied.denied_string().as_str());
        }
        text
    }
}

/// The entries of a module, in order.
pub open spec fn of_module<T>(entries: Seq<T>, key: spec_fn(T) -> Atom, module: Atom) -> Seq<T>
    decreases entries.len(),
{
    if entries.len() == 0 {
        Seq::empty()
    } else {
        let before = of_module(entries.drop_last(), key, module);
        if key(entries.last()) == module {
            before.push(entries.last())
        } else {
            before
        }
    }
}

proof fn lemma_of_module_appended<T>(
    front: Seq<T>,
    entries: Seq<T>,
    key: spec_fn(T) -> Atom,
    owner: Atom,
    module: Atom,
)
    requires
        forall|k: int| 0 <= k < entries.len() ==> key(#[trigger] entries[k]) == owner,
    ensures
        of_module(front + entries, key, module) == if owner == module {
            of_module(front, key, module) + entries
        } else {
            of_module(front, key, module)
        },
    decreases entries.len(),
{
    if entries.len() == 0 {
        assert(front + entries =~= front);
        assert(of_module(front, key, module) + entries =~= of_module(front, key, module));
    } else {
        let rest = entries.drop_last();
        assert forall|k: int| 0 <= k < rest.len() implies key(#[trigger] rest[k]) == owner by {
            assert(rest[k] == entries[k]);
        }
        lemma_of_module_appended(front, rest, key, owner, module);
        let all = front + entries;
        assert(all.drop_last() =~= front + rest);
        assert(all.last() == entries[entries.len() - 1]);
        assert((of_module(front, key, module) + rest).push(entries.last()) =~= of_module(
            front,
            key,
            module,
        ) + entries);
    }
}

/// Whether every entry of a group has the module of the group.
spec fn grouped_by<T>(groups: Seq<Group<T>>, key: spec_fn(T) -> Atom) -> bool {
    forall|i: int, k: int|
        0 <= i < groups.len() && 0 <= k < groups[i].entries.len() ==> key(
            #[trigger] groups[i].entries[k],
        ) == groups[i].module
}

proof fn lemma_shorter<T>(groups: Seq<Group<T>>, key: spec_fn(T) -> Atom)
    requires
        groups.len() > 0,
        ordered(groups),
        grouped_by(groups, key),
    ensures
        ordered(groups.drop_last()),
        grouped_by(groups.drop_last(), key),
{
    let shorter = groups.drop_last();
    assert forall|i: int, j: int| 0 <= i < j < shorter.len() implies (#[trigger] shorter[i]).module.0
        < (#[trigger] shorter[j]).module.0 by {
        assert(groups[i].module.0 < groups[j].module.0);
    }
    assert forall|i: int| 0 <= i < shorter.len() implies (#[trigger] shorter[i]).entries.len()
        > 0 by {
        assert(groups[i].entries.len() > 0);
    }
    assert forall|i: int, k: int|
        0 <= i < shorter.len() && 0 <= k < shorter[i].entries.len() implies key(
        #[trigger] shorter[i].entries[k],
    ) == shorter[i].module by {
        assert(key(groups[i].entries[k]) == groups[i].module);
    }
}

/// Whether entries are in the order of their modules.
pub open spec fn in_order<T>(listing: Seq<T>, key: spec_fn(T) -> Atom) -> bool {
    forall|i: int, j: int|
        0 <= i < j < listing.len() ==> key(#[trigger] listing[i]).0 <= key(
            #[trigger] listing[j],
        ).0
}

proof fn lemma_listing<T>(groups: Seq<Group<T>>, key: spec_fn(T) -> Atom)
    requires
        ordered(groups),
        grouped_by(groups, key),
    ensures
        forall|k: int|
            0 <= k < all_entries(groups).len() ==> groups.len() > 0 && key(
                #[trigger] all_entries(groups)[k],
            ).0 <= groups.last().module.0,
        in_order(all_entries(groups), key),
    decreases groups.len(),
{
    if groups.len() > 0 {
        let shorter = groups.drop_last();
        lemma_shorter(groups, key);
        lemma_listing(shorter, key);
        let before = all_entries(shorter);
        let all = all_entries(groups);
        let last = groups[groups.len() - 1];
        assert forall|k: int| 0 <= k < all.len() implies key(#[trigger] all[k]).0 <= last.module.0
            && (k >= before.len() ==> key(all[k]) == last.module) by {
            if k < before.len() {
                assert(before[k] == all[k]);
                assert(shorter.last() == groups[groups.len() - 2]);
                assert(groups[groups.len() - 2].module.0 < last.module.0);
            } else {
                assert(last.entries[k - before.len()] == all[k]);
                assert(key(groups[groups.len() - 1].entries[k - before.len()]) == last.module);
            }
        }
        assert forall|i: int, j: int| 0 <= i < j < all.len() implies key(#[trigger] all[i]).0 <= key(
            #[trigger] all[j],
        ).0 by {
            if j < before.len() {
                assert(before[i] == all[i] && before[j] == all[j]);
            }
        }
    }
}

proof fn lemma_listed_in_groups<T>(groups: Seq<Group<T>>, key: spec_fn(T) -> Atom, module: Atom)
    requires
        ordered(groups),
        grouped_by(groups, key),
    ensures
        of_module(all_entries(groups), key, module) == group_of(groups, module),
    decreases groups.len(),
{
    if groups.len() > 0 {
        let shorter = groups.drop_last();
        let last = groups[groups.len() - 1];
        lemma_shorter(groups, key);
        lemma_listed_in_groups(shorter, key, module);
        assert forall|k: int| 0 <= k < last.entries.len() implies key(#[trigger] last.entries[k])
            == last.module by {
            assert(key(groups[groups.len() - 1].entries[k]) == last.module);
        }
        lemma_of_module_appended(
            all_entries(shorter),
            last.entries,
            key,
            last.module,
            module,
        );
        if last.module == module {
            assert(!has_group(shorter, module)) by {
                if has_group(shorter, module) {
                    let i = choose|i: int|
                        0 <= i < shorter.len() && (#[trigger] shorter[i]).module == module;
                    assert(groups[i].module.0 < groups[groups.len() - 1].module.0);
                }
            }
            lemma_group_at(groups, groups.len() - 1);
            assert(Seq::<T>::empty() + last.entries =~= last.entries);
        } else if has_group(shorter, module) {
            let i = choose|i: int|
                0 <= i < shorter.len() && (#[trigger] shorter[i]).module == module;
            lemma_group_at(shorter, i);
            assert(groups[i] == shorter[i]);
            lemma_group_at(groups, i);
        } else if has_group(groups, module) {
            let i = choose|i: int|
                0 <= i < groups.len() && (#[trigger] groups[i]).module == module;
            assert(shorter[i].module == module);
        }
    }
}

/// Whether a listing is a stable sort of entries by their modules: it is in order,
/// and has the same entries of each module, in the same order and as often.
pub open spec fn stably_sorted<T>(listing: Seq<T>, entries: Seq<T>, key: spec_fn(T) -> Atom) -> bool {
    &&& in_order(listing, key)
    &&& forall|module: Atom|
        of_module(listing, key, module) == #[trigger] of_module(entries, key, module)
}

proof fn lemma_unresolved_of_module(
    entries: Seq<UnresolvedImportEntry>,
    key: spec_fn(UnresolvedImportEntry) -> Atom,
    module: Atom,
)
    requires
        key == (|e: UnresolvedImportEntry| e.module),
    ensures
        of_module(entries, key, module) == entries.filter(
            |e: UnresolvedImportEntry| e.module == module,
        ),
    decreases entries.len(),
{
    reveal(Seq::filter);
    if entries.len() > 0 {
        lemma_unresolved_of_module(entries.drop_last(), key, module);
    }
}

/// Listing the groups of imports is sorting the imports stably by their modules.
pub proof fn law_listing_is_a_stable_sort(
    groups: Seq<Group<UnresolvedImportEntry>>,
    entries: Seq<UnresolvedImportEntry>,
)
    requires
        ordered(groups),
        groups_unresolved(groups, entries),
    ensures
        stably_sorted(all_entries(groups), entries, |e: UnresolvedImportEntry| e.module),
{
    let key = |e: UnresolvedImportEntry| e.module;
    assert forall|i: int, k: int|
        0 <= i < groups.len() && 0 <= k < groups[i].entries.len() implies key(
        #[trigger] groups[i].entries[k],
    ) == groups[i].module by {
        lemma_group_at(groups, i);
        entries.filter_lemma(|e: UnresolvedImportEntry| e.module == groups[i].module);
    }
    lemma_listing(groups, key);
    assert forall|module: Atom|
        of_module(all_entries(groups), key, module) == #[trigger] of_module(
            entries,
            key,
            module,
        ) by {
        lemma_listed_in_groups(groups, key, module);
        lemma_unresolved_of_module(entries, key, module);
        assert(has_group(groups, module) || !has_group(groups, module));
    }
}

proof fn lemma_denied_of_module(
    entries: Seq<DeniedImportEntry>,
    key: spec_fn(DeniedImportEntry) -> Atom,
    module: Atom,
)
    requires
        key == (|e: DeniedImportEntry| e.module),
    ensures
        of_module(entries, key, module) == entries.filter(
            |e: DeniedImportEntry| e.module == module,
        ),
    decreases entries.len(),
{
    reveal(Seq::filter);
    if entries.len() > 0 {
        lemma_denied_of_module(entries.drop_last(), key, module);
    }
}

/// Listing the groups of denied imports is sorting them stably by their modules.
pub proof fn law_denied_listing_is_a_stable_sort(
    groups: Seq<Group<DeniedImportEntry>>,
    entries: Seq<DeniedImportEntry>,
)
    requires
        ordered(groups),
        groups_denied(groups, entries),
    ensures
        stably_sorted(all_entries(groups), entries, |e: DeniedImportEntry| e.module),
{
    let key = |e: DeniedImportEntry| e.module;
    assert forall|i: int, k: int|
        0 <= i < groups.len() && 0 <= k < groups[i].entries.len() implies key(
        #[trigger] groups[i].entries[k],
    ) == groups[i].module by {
        lemma_group_at(groups, i);
        entries.filter_lemma(|e: DeniedImportEntry| e.module == groups[i].module);
    }
    lemma_listing(groups, key);
    assert forall|module: Atom|
        of_module(all_entries(groups), key, module) == #[trigger] of_module(
            entries,
            key,
            module,
        ) by {
        lemma_listed_in_groups(groups, key, module);
        lemma_denied_of_module(entries, key, module);
        assert(has_group(groups, module) || !has_group(groups, module));
    }
}

} // verus!
