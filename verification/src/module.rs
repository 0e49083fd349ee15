//! Loaded-module bookkeeping: a module's name and memory range, and the
//! lookup of which module a pointer falls into.

use vstd::prelude::*;

verus! {

#[derive(Debug)]
pub enum ModuleNameLookupError {
    BaseNameNotFound,
    EncodingError,
}

#[derive(Debug)]
pub enum LookupError {
    ModuleNotFound,
    SymbolNotFound,
    SectionNotFound,
}

/// One loaded module: its name and the memory range it occupies.
#[derive(Debug)]
pub struct Module {
    pub name: String,
    pub memory_range: core::ops::Range<usize>,
}

/// The pointer lies inside the module's memory range.
pub open spec fn module_contains(m: Module, pointer: usize) -> bool {
    m.memory_range.start <= pointer < m.memory_range.end
}

/// Gives back the first of the supplied modules whose range the pointer
/// falls into, if any.
pub fn get_module_pointer_belongs_to(modules: Vec<Module>, pointer: usize) -> (r: Option<Module>)
    ensures
        match r {
            Some(m) => exists|i: int|
                0 <= i < modules@.len() && modules@[i] == m && module_contains(#[trigger] modules@[i], pointer)
                    && forall|j: int| 0 <= j < i ==> !module_contains(#[trigger] modules@[j], pointer),
            None => forall|i: int|
                0 <= i < modules@.len() ==> !module_contains(#[trigger] modules@[i], pointer),
        },
{
    let ghost all = modules@;
    let mut remaining = modules;
    let count = remaining.len();
    let mut skipped: usize = 0;
    while remaining.len() > 0
        invariant
            modules@ == all,
            count == all.len(),
            skipped + remaining@.len() == count,
            remaining@ == all.subrange(skipped as int, all.len() as int),
            forall|j: int| 0 <= j < skipped ==> !module_contains(#[trigger] all[j], pointer),
        decreases remaining@.len(),
    {
        proof {
            assert(remaining@[0] == all[skipped as int]);
        }
        let m = remaining.remove(0);
        let hit = m.memory_range.start <= pointer && pointer < m.memory_range.end;
        if hit {
            proof {
                assert(modules@ == all);
                assert(modules@[skipped as int] == m);
                assert(module_contains(modules@[skipped as int], pointer));
                assert(forall|j: int| 0 <= j < skipped ==> !module_contains(
                    #[trigger] modules@[j],
                    pointer,
                ));
            }
            return Some(m);
        }
        skipped = skipped + 1;
        proof {
            assert(remaining@ =~= all.subrange(skipped as int, all.len() as int));
        }
    }
    None
}

} // verus!
