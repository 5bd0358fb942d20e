//! Loaded modules and their registry.
//!
//! The registry keeps two versions of a module: loading a module again makes the
//! new version current and keeps the one before it until it is purged.

use std::collections::HashMap;
use std::sync::Arc;

use dashmap::DashMap;
use vstd::prelude::*;
use vstd::string::*;
use crate::atom::Atom;
use crate::error::ExecError;
use crate::loader::decode::chunks::{LambdaEntry, LineInfo};
use crate::loader::decode::instruction::{
    copy_instructions, instruction_views, Instruction, InstructionView,
};
use crate::loader::decode::literal::{copy_literals, literal_views, Literal, LiteralView};
use crate::native::NativeEntry;
use crate::text::{decimal_u64, nat_text};

verus! {

/// Where a module came from.
#[derive(Debug, Clone, Copy, PartialEq, Eq, Structural)]
pub enum ModuleOrigin {
    Preloaded,
    Embedded,
}

/// What a call of an imported function reaches.
#[derive(Debug, Clone, Copy, PartialEq, Eq, Structural)]
pub enum ResolvedImportTarget {
    /// A function that another loaded module exports.
    Code { module: Atom, label: u32 },
    /// A native function.
    Native(NativeEntry),
    /// A function of a module that is not loaded yet; looked up when called.
    Deferred { module: Atom, function: Atom, arity: u8 },
    /// A function that its loaded module does not export.
    Unresolved { module: Atom, function: Atom, arity: u8 },
}

/// An imported function and what calling it reaches.
#[derive(Debug, Clone, Copy, PartialEq, Eq, Structural)]
pub struct ResolvedImport {
    pub module: Atom,
    pub function: Atom,
    pub arity: u8,
    pub target: ResolvedImportTarget,
}

/// The exported functions of a module and their labels.
#[derive(Debug)]
pub struct ExportTable {
    labels: HashMap<u64, u32>,
}

/// The number that stands for a function name and arity.
pub open spec fn export_key(function: Atom, arity: u8) -> u64 {
    (function.0 * 256 + arity) as u64
}

impl View for ExportTable {
    type V = Map<(Atom, u8), u32>;

    closed spec fn view(&self) -> Map<(Atom, u8), u32> {
        Map::new(
            |f: (Atom, u8)| self.labels@.contains_key(export_key(f.0, f.1)),
            |f: (Atom, u8)| self.labels@[export_key(f.0, f.1)],
        )
    }
}

impl ExportTable {
    /// A table without functions.
    pub fn new() -> (r: ExportTable)
        ensures
            r@ == Map::<(Atom, u8), u32>::empty(),
    {
        broadcast use vstd::std_specs::hash::group_hash_axioms;

        let r = ExportTable { labels: HashMap::new() };
        assert(r@ =~= Map::<(Atom, u8), u32>::empty());
        r
    }

    /// Sets the label of a function.
    pub fn insert(&mut self, function: (Atom, u8), label: u32)
        ensures
            final(self)@ == old(self)@.insert(function, label),
    {
        broadcast use vstd::std_specs::hash::group_hash_axioms;

        let key: u64 = (function.0.0 as u64) * 256 + function.1 as u64;
        self.labels.insert(key, label);
        assert(self@ =~= old(self)@.insert(function, label));
    }

    /// The label of a function, if it is exported.
    pub fn get(&self, function: Atom, arity: u8) -> (r: Option<u32>)
        ensures
            r == if self@.contains_key((function, arity)) {
                Some(self@[(function, arity)])
            } else {
                None::<u32>
            },
    {
        broadcast use vstd::std_specs::hash::group_hash_axioms;

        let key: u64 = (function.0 as u64) * 256 + arity as u64;
        match self.labels.get(&key) {
            Some(label) => Some(*label),
            None => None,
        }
    }

    /// A copy of the table.
    pub fn copy(&self) -> (r: ExportTable)
        ensures
            r@ == self@,
    {
        ExportTable { labels: self.labels.clone() }
    }
}

/// A loaded module.
#[derive(Debug)]
pub struct Module {
    pub name: Atom,
    /// Counts the versions of this module; given by the registry.
    pub generation: u64,
    pub origin: ModuleOrigin,
    /// Exported functions and their labels.
    pub exports: ExportTable,
    /// The instruction index of each label.
    pub label_index: HashMap<u32, usize>,
    pub code: Vec<Instruction>,
    /// Where each function starts: instruction index, name, arity.
    pub function_table: Vec<(usize, Atom, u8)>,
    /// Where each line starts: instruction index, line index.
    pub line_table: Vec<(usize, usize)>,
    pub literals: Vec<Literal>,
    pub resolved_imports: Vec<ResolvedImport>,
    pub lambdas: Vec<LambdaEntry>,
    pub string_table: Vec<u8>,
    pub line_info: Vec<LineInfo>,
}

/// A [`Module`] with sequences and maps in place of its containers.
#[verifier::ext_equal]
pub struct ModuleView {
    pub name: Atom,
    pub generation: u64,
    pub origin: ModuleOrigin,
    pub exports: Map<(Atom, u8), u32>,
    pub label_index: Map<u32, usize>,
    pub code: Seq<InstructionView>,
    pub function_table: Seq<(usize, Atom, u8)>,
    pub line_table: Seq<(usize, usize)>,
    pub literals: Seq<LiteralView>,
    pub resolved_imports: Seq<ResolvedImport>,
    pub lambdas: Seq<LambdaEntry>,
    pub string_table: Seq<u8>,
    pub line_info: Seq<LineInfo>,
}

impl View for Module {
    type V = ModuleView;

    open spec fn view(&self) -> ModuleView {
        ModuleView {
            name: self.name,
            generation: self.generation,
            origin: self.origin,
            exports: self.exports@,
            label_index: self.label_index@,
            code: instruction_views(self.code@),
            function_table: self.function_table@,
            line_table: self.line_table@,
            literals: literal_views(self.literals@),
            resolved_imports: self.resolved_imports@,
            lambdas: self.lambdas@,
            string_table: self.string_table@,
            line_info: self.line_info@,
        }
    }
}

fn copy_vec<T: Copy>(items: &Vec<T>) -> (r: Vec<T>)
    ensures
        r@ == items@,
{
    vstd::slice::slice_to_vec(items.as_slice())
}

/// The position of the last entry, among the first `n`, that starts at or
/// before `ip`.
pub open spec fn function_before(table: Seq<(usize, Atom, u8)>, ip: usize, n: nat) -> Option<nat>
    decreases n,
{
    if n == 0 {
        None
    } else if table[n - 1].0 <= ip {
        Some((n - 1) as nat)
    } else {
        function_before(table, ip, (n - 1) as nat)
    }
}

/// The position of the last entry, among the first `n`, that starts at or
/// before `ip`.
pub open spec fn line_before(table: Seq<(usize, usize)>, ip: usize, n: nat) -> Option<nat>
    decreases n,
{
    if n == 0 {
        None
    } else if table[n - 1].0 <= ip {
        Some((n - 1) as nat)
    } else {
        line_before(table, ip, (n - 1) as nat)
    }
}

/// The instruction index of a label, or the error that names it.
pub open spec fn label_position(labels: Map<u32, usize>, label: u32) -> Result<usize, ExecError> {
    if labels.contains_key(label) {
        Ok(labels[label])
    } else {
        Err(ExecError::InvalidLabel { label })
    }
}

impl Module {
    /// The version number that the registry gave.
    pub fn generation(&self) -> (r: u64)
        ensures
            r == self.generation,
    {
        self.generation
    }

    /// The instruction index of a label.
    pub fn label_ip(&self, label: u32) -> (r: Result<usize, ExecError>)
        ensures
            r == label_position(self.label_index@, label),
    {
        broadcast use vstd::std_specs::hash::group_hash_axioms;

        match self.label_index.get(&label) {
            Some(ip) => Ok(*ip),
            None => Err(ExecError::InvalidLabel { label }),
        }
    }

    /// The instruction index of an exported function.
    pub fn export_ip(&self, function: Atom, arity: u8) -> (r: Result<usize, ExecError>)
        ensures
            r == if self.exports@.contains_key((function, arity)) {
                label_position(self.label_index@, self.exports@[(function, arity)])
            } else {
                Err(ExecError::Undef { module: self.name, function, arity })
            },
    {
        match self.exports.get(function, arity) {
            Some(label) => self.label_ip(label),
            None => Err(ExecError::Undef { module: self.name, function, arity }),
        }
    }

    /// The function that the instruction belongs to: the last one that starts
    /// at or before it.
    pub fn function_at_ip(&self, ip: usize) -> (r: Option<(Atom, u8)>)
        ensures
            r == match function_before(self.function_table@, ip, self.function_table@.len()) {
                Some(i) => Some(
                    (self.function_table@[i as int].1, self.function_table@[i as int].2),
                ),
                None => None::<(Atom, u8)>,
            },
    {
        let mut n: usize = self.function_table.len();
        while n > 0
            invariant
                n <= self.function_table@.len(),
                function_before(self.function_table@, ip, self.function_table@.len())
                    == function_before(self.function_table@, ip, n as nat),
            decreases n,
        {
            let entry = self.function_table[n - 1];
            if entry.0 <= ip {
                return Some((entry.1, entry.2));
            }
            n -= 1;
        }
        None
    }

    /// The source line that the instruction belongs to: that of the last line
    /// entry at or before it.
    pub fn line_at_ip(&self, ip: usize) -> (r: Option<u32>)
        ensures
            r == match line_before(self.line_table@, ip, self.line_table@.len()) {
                Some(i) => if self.line_table@[i as int].1 < self.line_info@.len() {
                    Some(self.line_info@[self.line_table@[i as int].1 as int].line)
                } else {
                    None
                },
                None => None::<u32>,
            },
    {
        let mut n: usize = self.line_table.len();
        while n > 0
            invariant
                n <= self.line_table@.len(),
                line_before(self.line_table@, ip, self.line_table@.len()) == line_before(
                    self.line_table@,
                    ip,
                    n as nat,
                ),
            decreases n,
        {
            let entry = self.line_table[n - 1];
            if entry.0 <= ip {
                if entry.1 < self.line_info.len() {
                    return Some(self.line_info[entry.1].line);
                }
                return None;
            }
            n -= 1;
        }
        None
    }

    /// A copy of the module with another generation.
    pub fn with_generation(&self, generation: u64) -> (r: Module)
        ensures
            r@ == (ModuleView { generation, ..self@ }),
    {
        Module {
            name: self.name,
            generation,
            origin: self.origin,
            exports: self.exports.copy(),
            label_index: self.label_index.clone(),
            code: copy_instructions(&self.code),
            function_table: copy_vec(&self.function_table),
            line_table: copy_vec(&self.line_table),
            literals: copy_literals(&self.literals),
            resolved_imports: copy_vec(&self.resolved_imports),
            lambdas: copy_vec(&self.lambdas),
            string_table: copy_vec(&self.string_table),
            line_info: copy_vec(&self.line_info),
        }
    }
}

/// Where an exported function is.
#[derive(Debug)]
pub struct CodePointer {
    pub module: Arc<Module>,
    pub label: u32,
    pub generation: u64,
}

/// The current version of a module and the one before it.
#[derive(Debug, Clone)]
pub struct ModuleVersions {
    pub current: Arc<Module>,
    pub old: Option<Arc<Module>>,
}

/// Why an old version cannot be purged.
#[derive(Debug, Clone, Copy, PartialEq, Eq, Structural)]
pub enum PurgeError {
    /// The old version is referenced outside the registry.
    StillReferenced { module: Atom, ref_count: usize },
    /// There is no old version.
    NoOldVersion { module: Atom },
}

impl PurgeError {
    /// The error as a sentence.
    pub fn describe(&self) -> (r: String)
        ensures
            r@ == match *self {
                PurgeError::StillReferenced { module, ref_count } => "old module version Atom("@
                    + nat_text(module.0 as nat) + ") is still referenced ("@ + nat_text(
                    ref_count as nat,
                ) + " references)"@,
                PurgeError::NoOldVersion { module } => "module Atom("@ + nat_text(module.0 as nat)
                    + ") has no old version to purge"@,
            },
    {
        match *self {
            PurgeError::StillReferenced { module, ref_count } => {
                let mut text = "old module version Atom(".to_owned();
                text.append(decimal_u64(module.0 as u64).as_str());
                text.append(") is still referenced (");
                text.append(decimal_u64(ref_count as u64).as_str());
                text.append(" references)");
                text
            },
            PurgeError::NoOldVersion { module } => {
                let mut text = "module Atom(".to_owned();
                text.append(decimal_u64(module.0 as u64).as_str());
                text.append(") has no old version to purge");
                text
            },
        }
    }
}

#[verifier::external_type_specification]
#[verifier::external_body]
#[verifier::reject_recursive_types(K)]
#[verifier::reject_recursive_types(V)]
#[verifier::reject_recursive_types(S)]
pub struct ExDashMap<K, V, S>(DashMap<K, V, S>);

/// The modules of a registry, by the index of their names.
type Modules = DashMap<u32, ModuleVersions, std::collections::hash_map::RandomState>;

/// What a map of modules holds.
pub uninterp spec fn held_modules(map: DashMap<u32, ModuleVersions, std::collections::hash_map::RandomState>) -> Map<u32, ModuleVersions>;

/// No modules.
pub open spec fn no_modules() -> Map<u32, ModuleVersions> {
    Map::empty()
}

/// `DashMap::new`: a map that holds nothing.
#[verifier::external_body]
fn new_modules() -> (r: Modules)
    ensures
        held_modules(r) == no_modules(),
{
    DashMap::new()
}

/// `DashMap::insert`: sets the versions under a key, and leaves the other keys.
#[verifier::external_body]
fn put_versions(map: &mut Modules, key: u32, versions: ModuleVersions)
    ensures
        held_modules(*final(map)) == held_modules(*old(map)).insert(key, versions),
{
    map.insert(key, versions);
}

/// `DashMap::remove`: takes the versions under a key out of the map, and leaves
/// the other keys.
#[verifier::external_body]
fn take_versions(map: &mut Modules, key: u32) -> (r: Option<ModuleVersions>)
    ensures
        held_modules(*final(map)) == held_modules(*old(map)).remove(key),
        r == if held_modules(*old(map)).contains_key(key) {
            Some(held_modules(*old(map))[key])
        } else {
            None::<ModuleVersions>
        },
{
    map.remove(&key).map(|entry| entry.1)
}

/// `DashMap::get`: the versions under a key, shared with the map.
#[verifier::external_body]
fn get_versions(map: &Modules, key: u32) -> (r: Option<ModuleVersions>)
    ensures
        r == if held_modules(*map).contains_key(key) {
            Some(held_modules(*map)[key])
        } else {
            None::<ModuleVersions>
        },
{
    map.get(&key).map(|entry| entry.value().clone())
}

/// `Arc::clone`: the same module, shared once more.
#[verifier::external_body]
fn share(module: &Arc<Module>) -> (r: Arc<Module>)
    ensures
        r == *module,
{
    Arc::clone(module)
}

/// `Arc::strong_count`: how often a module is shared, at least once. How often
/// depends on what the rest of the program holds.
#[verifier::external_body]
fn reference_count(module: &Arc<Module>) -> (r: usize)
    ensures
        r >= 1,
{
    Arc::strong_count(module)
}

/// Whether a count is one that was taken of a module.
pub closed spec fn counted(module: Arc<Module>, count: usize) -> bool {
    call_ensures(reference_count, (&module,), count)
}

/// The modules by name.
#[derive(Debug)]
pub struct ModuleRegistry {
    modules: Modules,
}

impl View for ModuleRegistry {
    type V = Map<u32, ModuleVersions>;

    closed spec fn view(&self) -> Map<u32, ModuleVersions> {
        held_modules(self.modules)
    }
}

/// The generation that the next version of a module gets.
pub open spec fn next_generation(modules: Map<u32, ModuleVersions>, name: Atom) -> u64 {
    if !modules.contains_key(name.0) {
        1
    } else if modules[name.0].current.generation == u64::MAX {
        u64::MAX
    } else {
        (modules[name.0].current.generation + 1) as u64
    }
}

/// The modules after `module` became the current version under its name.
pub open spec fn promoted(modules: Map<u32, ModuleVersions>, module: Arc<Module>) -> Map<
    u32,
    ModuleVersions,
> {
    modules.insert(
        module.name.0,
        ModuleVersions {
            current: module,
            old: if modules.contains_key(module.name.0) {
                Some(modules[module.name.0].current)
            } else {
                None
            },
        },
    )
}

/// What a purge answers, given how often the old version is shared: it succeeds
/// when only the registry holds it.
pub open spec fn purge_answer(name: Atom, ref_count: usize) -> Result<(), PurgeError> {
    if ref_count == 1 {
        Ok(())
    } else {
        Err(PurgeError::StillReferenced { module: name, ref_count })
    }
}

/// Decides a purge, given how often the old version is shared.
pub fn decide_purge(name: Atom, ref_count: usize) -> (r: Result<(), PurgeError>)
    ensures
        r == purge_answer(name, ref_count),
{
    if ref_count == 1 {
        Ok(())
    } else {
        Err(PurgeError::StillReferenced { module: name, ref_count })
    }
}

/// The exported function, or the error that names it.
pub open spec fn exported(
    modules: Map<u32, ModuleVersions>,
    module: Atom,
    function: Atom,
    arity: u8,
) -> Result<CodePointer, ExecError> {
    if modules.contains_key(module.0) && modules[module.0].current.exports@.contains_key(
        (function, arity),
    ) {
        let current = modules[module.0].current;
        Ok(
            CodePointer {
                module: current,
                label: current.exports@[(function, arity)],
                generation: current.generation,
            },
        )
    } else {
        Err(ExecError::Undef { module, function, arity })
    }
}

impl ModuleRegistry {
    /// A registry without modules.
    pub fn new() -> (r: ModuleRegistry)
        ensures
            r@ == no_modules(),
    {
        ModuleRegistry { modules: new_modules() }
    }

    /// Makes a module the current version under its name; the version before it
    /// becomes the old one.
    pub fn insert(&mut self, module: Module) -> (r: Arc<Module>)
        ensures
            *r == (Module { generation: next_generation(old(self)@, module.name), ..module }),
            final(self)@ == promoted(old(self)@, r),
    {
        self.insert_version(module)
    }

    /// Makes a copy of a shared module the current version under its name.
    pub fn insert_arc(&mut self, module: Arc<Module>) -> (r: Arc<Module>)
        ensures
            r@ == (ModuleView { generation: next_generation(old(self)@, module.name), ..module@ }),
            final(self)@ == promoted(old(self)@, r),
    {
        let copy = module.with_generation(module.generation);
        assert(copy.name == module.name) by {
            assert(copy@.name == module@.name);
        }
        self.insert_version(copy)
    }

    fn insert_version(&mut self, module: Module) -> (r: Arc<Module>)
        ensures
            *r == (Module { generation: next_generation(old(self)@, module.name), ..module }),
            final(self)@ == promoted(old(self)@, r),
    {
        let mut module = module;
        let key: u32 = module.name.0;
        let (generation, previous): (u64, Option<Arc<Module>>) = match take_versions(
            &mut self.modules,
            key,
        ) {
            Some(versions) => {
                let generation: u64 = versions.current.generation().saturating_add(1);
                (generation, Some(versions.current))
            },
            None => (1, None),
        };
        module.generation = generation;
        let current = Arc::new(module);
        let shared = share(&current);
        put_versions(&mut self.modules, key, ModuleVersions { current, old: previous });
        assert(self@ =~= promoted(old(self)@, shared));
        shared
    }

    /// The current version of a module.
    pub fn lookup(&self, name: Atom) -> (r: Option<Arc<Module>>)
        ensures
            r == if self@.contains_key(name.0) {
                Some(self@[name.0].current)
            } else {
                None::<Arc<Module>>
            },
    {
        match get_versions(&self.modules, name.0) {
            Some(versions) => Some(versions.current),
            None => None,
        }
    }

    /// The old version of a module.
    pub fn lookup_old(&self, name: Atom) -> (r: Option<Arc<Module>>)
        ensures
            r == if self@.contains_key(name.0) {
                self@[name.0].old
            } else {
                None::<Arc<Module>>
            },
    {
        match get_versions(&self.modules, name.0) {
            Some(versions) => versions.old,
            None => None,
        }
    }

    /// How many versions of a module are kept.
    pub fn module_version_count(&self, name: Atom) -> (r: usize)
        ensures
            r == if !self@.contains_key(name.0) {
                0int
            } else if self@[name.0].old is Some {
                2
            } else {
                1
            },
    {
        match get_versions(&self.modules, name.0) {
            Some(versions) => if versions.old.is_some() {
                2
            } else {
                1
            },
            None => 0,
        }
    }

    /// Forgets the old version of a module when only the registry holds it.
    ///
    /// How often it is held is known to the program alone, so an old version
    /// that is there leads to either answer: the answer goes by a count that was
    /// taken of that version.
    pub fn purge_old(&mut self, name: Atom) -> (r: Result<(), PurgeError>)
        ensures
            !old(self)@.contains_key(name.0) || old(self)@[name.0].old is None <==> r == Err::<
                (),
                PurgeError,
            >(PurgeError::NoOldVersion { module: name }),
            r is Ok ==> final(self)@ == old(self)@.insert(
                name.0,
                ModuleVersions { old: None, ..old(self)@[name.0] },
            ),
            r is Err ==> final(self)@ == old(self)@,
            old(self)@.contains_key(name.0) && old(self)@[name.0].old is Some ==> exists|count: usize|
                count >= 1 && #[trigger] counted(old(self)@[name.0].old->Some_0, count) && r
                    == purge_answer(name, count),
    {
        let mut versions = match take_versions(&mut self.modules, name.0) {
            Some(versions) => versions,
            None => {
                assert(self@ =~= old(self)@);
                return Err(PurgeError::NoOldVersion { module: name });
            },
        };
        let answer = match &versions.old {
            None => Err(PurgeError::NoOldVersion { module: name }),
            Some(old_version) => {
                let count: usize = reference_count(old_version);
                assert(counted(*old_version, count));
                decide_purge(name, count)
            },
        };
        if answer.is_ok() {
            versions.old = None;
        }
        put_versions(&mut self.modules, name.0, versions);
        proof {
            if answer is Err {
                assert(self@ =~= old(self)@);
            } else {
                assert(self@ =~= old(self)@.insert(
                    name.0,
                    ModuleVersions { old: None, ..old(self)@[name.0] },
                ));
            }
        }
        answer
    }

    /// Where an exported function of a current module is.
    pub fn lookup_mfa(&self, module: Atom, function: Atom, arity: u8) -> (r: Result<
        CodePointer,
        ExecError,
    >)
        ensures
            r == exported(self@, module, function, arity),
    {
        match self.lookup(module) {
            None => Err(ExecError::Undef { module, function, arity }),
            Some(loaded) => match loaded.exports.get(function, arity) {
                None => Err(ExecError::Undef { module, function, arity }),
                Some(label) => {
                    let generation: u64 = loaded.generation();
                    Ok(CodePointer { module: loaded, label, generation })
                },
            },
        }
    }
}

/// A module that was just made current is found under its name, and what was
/// current before is the old version.
pub proof fn law_insert_then_lookup(modules: Map<u32, ModuleVersions>, module: Arc<Module>)
    ensures
        promoted(modules, module)[module.name.0].current == module,
        modules.contains_key(module.name.0) ==> promoted(modules, module)[module.name.0].old
            == Some(modules[module.name.0].current),
        !modules.contains_key(module.name.0) ==> promoted(modules, module)[module.name.0].old
            is None,
{
}

/// Making a module current leaves the modules of other names alone.
pub proof fn law_insert_keeps_others(
    modules: Map<u32, ModuleVersions>,
    module: Arc<Module>,
    other: Atom,
)
    requires
        other != module.name,
    ensures
        promoted(modules, module).contains_key(other.0) <==> modules.contains_key(other.0),
        modules.contains_key(other.0) ==> promoted(modules, module)[other.0] == modules[other.0],
{
}

/// Generations of a name count up from one, as long as they can be counted.
pub proof fn law_generations_count_up(modules: Map<u32, ModuleVersions>, name: Atom)
    requires
        modules.contains_key(name.0) ==> modules[name.0].current.generation < u64::MAX,
    ensures
        next_generation(modules, name) == if modules.contains_key(name.0) {
            modules[name.0].current.generation + 1
        } else {
            1
        },
{
}

/// After two insertions of the same name, the versions kept are the last two.
pub proof fn law_two_versions_are_kept(
    modules: Map<u32, ModuleVersions>,
    first: Arc<Module>,
    second: Arc<Module>,
)
    requires
        first.name == second.name,
    ensures
        promoted(promoted(modules, first), second)[second.name.0] == (ModuleVersions {
            current: second,
            old: Some(first),
        }),
{
}

/// The function at an instruction is the last one of the table that starts at it or before it; the
/// same holds of lines.
pub proof fn law_last_start_counts(
    functions: Seq<(usize, Atom, u8)>,
    lines: Seq<(usize, usize)>,
    ip: usize,
)
    ensures
        match function_before(functions, ip, functions.len()) {
            Some(i) => i < functions.len() && functions[i as int].0 <= ip && forall|j: int|
                i < j < functions.len() ==> (#[trigger] functions[j]).0 > ip,
            None => forall|j: int| 0 <= j < functions.len() ==> (#[trigger] functions[j]).0 > ip,
        },
        match line_before(lines, ip, lines.len()) {
            Some(i) => i < lines.len() && lines[i as int].0 <= ip && forall|j: int|
                i < j < lines.len() ==> (#[trigger] lines[j]).0 > ip,
            None => forall|j: int| 0 <= j < lines.len() ==> (#[trigger] lines[j]).0 > ip,
        },
{
    lemma_function_before(functions, ip, functions.len());
    lemma_line_before(lines, ip, lines.len());
}

proof fn lemma_function_before(table: Seq<(usize, Atom, u8)>, ip: usize, n: nat)
    requires
        n <= table.len(),
    ensures
        match function_before(table, ip, n) {
            Some(i) => i < n && table[i as int].0 <= ip && forall|j: int|
                i < j < n ==> (#[trigger] table[j]).0 > ip,
            None => forall|j: int| 0 <= j < n ==> (#[trigger] table[j]).0 > ip,
        },
    decreases n,
{
    if n > 0 && table[n - 1].0 > ip {
        lemma_function_before(table, ip, (n - 1) as nat);
    }
}

proof fn lemma_line_before(table: Seq<(usize, usize)>, ip: usize, n: nat)
    requires
        n <= table.len(),
    ensures
        match line_before(table, ip, n) {
            Some(i) => i < n && table[i as int].0 <= ip && forall|j: int|
                i < j < n ==> (#[trigger] table[j]).0 > ip,
            None => forall|j: int| 0 <= j < n ==> (#[trigger] table[j]).0 > ip,
        },
    decreases n,
{
    if n > 0 && table[n - 1].0 > ip {
        lemma_line_before(table, ip, (n - 1) as nat);
    }
}

/// A module that became current is the one whose exports are found, at the labels that it gives
/// them; a function that it does not export is undefined, though the version before exported
/// it.
pub proof fn law_exports_are_those_of_the_current_version(
    modules: Map<u32, ModuleVersions>,
    module: Arc<Module>,
    function: Atom,
    arity: u8,
)
    ensures
        match exported(promoted(modules, module), module.name, function, arity) {
            Ok(found) => found.module == module && module.exports@.contains_key((function, arity))
                && found.label == module.exports@[(function, arity)] && found.generation
                == module.generation,
            Err(ExecError::Undef { module: name, function: f, arity: a }) => name == module.name && f
                == function && a == arity && !module.exports@.contains_key((function, arity)),
            Err(_) => false,
        },
{
}

/// An old version that something else still holds is not purged, and what is answered says how
/// often it is held; one that only the registry holds is.
pub proof fn law_held_versions_are_not_purged(name: Atom, ref_count: usize)
    requires
        ref_count > 0,
    ensures
        match purge_answer(name, ref_count) {
            Ok(()) => ref_count < 2,
            Err(PurgeError::StillReferenced { module, ref_count: held }) => module == name && held
                == ref_count && ref_count > 1,
            Err(_) => false,
        },
{
}

} // verus!
