//! Auxiliary symbol table: a flat declaration registry used for
//! duplicate-definition checking and memory-offset bookkeeping.
//!
//! Scope entry and exit only adjust a depth counter used to tag newly added
//! symbols; the table itself is a single flat namespace.

use vstd::prelude::*;
use vstd::string::StringExecFns;
use crate::text::str_eq;

verus! {

/// The declared kind of a symbol.
#[derive(Debug, Clone, Copy, PartialEq, Eq, Structural)]
pub enum SymbolType {
    Variable,
    Function,
    Constant,
    Parameter,
    Array,
    Struct,
    Enum,
    Method,
    Type,
    Import,
}

/// One declaration: created once, never mutated.
#[derive(Debug, Clone)]
pub struct Symbol {
    pub name: String,
    pub sym_type: SymbolType,
    pub scope: usize,
    pub memory_location: usize,
    pub size: usize,
}

/// The mathematical image of a symbol.
pub struct SymbolModel {
    pub name: Seq<char>,
    pub sym_type: SymbolType,
    pub scope: int,
    pub memory_location: int,
    pub size: int,
}

impl View for Symbol {
    type V = SymbolModel;

    open spec fn view(&self) -> SymbolModel {
        SymbolModel {
            name: self.name@,
            sym_type: self.sym_type,
            scope: self.scope as int,
            memory_location: self.memory_location as int,
            size: self.size as int,
        }
    }
}

/// Declaring a name that is already present fails with this error.
#[derive(Debug)]
pub enum SymbolError {
    SymbolAlreadyDefined(String),
}

impl SymbolError {
    /// The one-line rendering of the error.
    pub fn message(&self) -> (r: String)
        ensures
            self matches SymbolError::SymbolAlreadyDefined(n)
                ==> r@ == "Symbol '"@ + n@ + "' already defined"@,
    {
        match self {
            SymbolError::SymbolAlreadyDefined(name) => {
                let mut r = String::new();
                r.append("Symbol '");
                r.append(name.as_str());
                r.append("' already defined");
                assert(r@ =~= "Symbol '"@ + name@ + "' already defined"@);
                r
            },
        }
    }
}

/// A flat table of declarations in insertion order.
pub struct SymbolTable {
    symbols: Vec<Symbol>,
    current_scope: usize,
    next_mem_location: usize,
}

impl SymbolTable {
    /// The declarations, oldest first.
    pub closed spec fn entries(self) -> Seq<SymbolModel> {
        self.symbols@.map_values(|s: Symbol| s@)
    }

    /// The current lexical scope depth.
    pub closed spec fn scope_depth(self) -> int {
        self.current_scope as int
    }

    /// The memory offset the next accepted declaration will receive.
    pub closed spec fn next_offset(self) -> int {
        self.next_mem_location as int
    }

    /// Whether some declaration carries the given name.
    pub open spec fn contains_name(self, n: Seq<char>) -> bool {
        exists|i: int| 0 <= i < self.entries().len() && (#[trigger] self.entries()[i]).name == n
    }

    /// Well-formedness: names are unique, and the declarations tile storage
    /// from offset zero upward, each starting where the previous one ended.
    pub open spec fn wf(self) -> bool {
        &&& forall|i: int, j: int|
            0 <= i < j < self.entries().len() ==> self.entries()[i].name != self.entries()[j].name
        &&& forall|i: int|
            0 <= i < self.entries().len() ==> #[trigger] self.entries()[i].memory_location == (
            if i == 0 {
                0int
            } else {
                self.entries()[i - 1].memory_location + self.entries()[i - 1].size
            })
        &&& forall|i: int| 0 <= i < self.entries().len() ==> #[trigger] self.entries()[i].size >= 0
        &&& self.next_offset() == if self.entries().len() == 0 {
            0int
        } else {
            self.entries().last().memory_location + self.entries().last().size
        }
    }

    /// Creates a new empty symbol table at scope depth zero.
    pub fn new() -> (r: SymbolTable)
        ensures
            r.entries() == Seq::<SymbolModel>::empty(),
            r.scope_depth() == 0,
            r.next_offset() == 0,
            r.wf(),
    {
        let r = SymbolTable { symbols: Vec::new(), current_scope: 0, next_mem_location: 0 };
        assert(r.entries() =~= Seq::<SymbolModel>::empty());
        r
    }

    /// Enters a new scope: symbols added from now on are tagged one deeper.
    pub fn enter_scope(&mut self)
        requires
            old(self).scope_depth() < usize::MAX,
        ensures
            final(self).scope_depth() == old(self).scope_depth() + 1,
            final(self).entries() == old(self).entries(),
            final(self).next_offset() == old(self).next_offset(),
            old(self).wf() ==> final(self).wf(),
    {
        self.current_scope = self.current_scope + 1;
    }

    /// Leaves the current scope.
    pub fn exit_scope(&mut self)
        requires
            old(self).scope_depth() > 0,
        ensures
            final(self).scope_depth() == old(self).scope_depth() - 1,
            final(self).entries() == old(self).entries(),
            final(self).next_offset() == old(self).next_offset(),
            old(self).wf() ==> final(self).wf(),
    {
        self.current_scope = self.current_scope - 1;
    }

    /// Adds a declaration.  A name already present is rejected with
    /// `SymbolAlreadyDefined` and the table is left unchanged; otherwise the
    /// symbol receives the next available memory offset, and the offset
    /// counter advances by `size`.
    pub fn add_symbol(&mut self, name: String, symbol_type: SymbolType, size: usize) -> (r: Result<
        (),
        SymbolError,
    >)
        requires
            old(self).wf(),
            old(self).next_offset() + size <= usize::MAX,
        ensures
            final(self).wf(),
            final(self).scope_depth() == old(self).scope_depth(),
            old(self).contains_name(name@) ==> {
                &&& r matches Err(SymbolError::SymbolAlreadyDefined(n)) && n@ == name@
                &&& final(self).entries() == old(self).entries()
                &&& final(self).next_offset() == old(self).next_offset()
            },
            !old(self).contains_name(name@) ==> {
                &&& r is Ok
                &&& final(self).entries() == old(self).entries().push(
                    SymbolModel {
                        name: name@,
                        sym_type: symbol_type,
                        scope: old(self).scope_depth(),
                        memory_location: old(self).next_offset(),
                        size: size as int,
                    },
                )
                &&& final(self).next_offset() == old(self).next_offset() + size
            },
    {
        let n = self.symbols.len();
        let mut i: usize = 0;
        while i < n
            invariant
                *self == *old(self),
                old(self).wf(),
                old(self).next_offset() + size <= usize::MAX,
                n == self.symbols.len(),
                i <= n,
                forall|k: int| 0 <= k < i ==> (#[trigger] self.entries()[k]).name != name@,
            decreases n - i,
        {
            assert(self.entries()[i as int] == self.symbols@[i as int]@);
            if str_eq(self.symbols[i].name.as_str(), name.as_str()) {
                assert(self.contains_name(name@)) by {
                    assert((self.entries()[i as int]).name == name@);
                }
                return Err(SymbolError::SymbolAlreadyDefined(name));
            }
            i += 1;
        }
        assert(!self.contains_name(name@));
        let ghost gname = name@;
        let sym = Symbol {
            name,
            sym_type: symbol_type,
            scope: self.current_scope,
            memory_location: self.next_mem_location,
            size,
        };
        let ghost before = self.entries();
        self.symbols.push(sym);
        self.next_mem_location = self.next_mem_location + size;
        assert(self.entries() =~= before.push(
            SymbolModel {
                name: gname,
                sym_type: symbol_type,
                scope: old(self).scope_depth(),
                memory_location: old(self).next_offset(),
                size: size as int,
            },
        ));
        Ok(())
    }

    /// Looks a name up; `None` exactly when no declaration carries it.
    pub fn get_symbol(&self, name: &str) -> (r: Option<&Symbol>)
        ensures
            match r {
                Some(sym) => self.contains_name(name@) && exists|i: int|
                    0 <= i < self.entries().len() && self.entries()[i] == sym@
                        && self.entries()[i].name == name@,
                None => !self.contains_name(name@),
            },
    {
        let n = self.symbols.len();
        let mut i: usize = 0;
        while i < n
            invariant
                n == self.symbols.len(),
                i <= n,
                forall|k: int| 0 <= k < i ==> (#[trigger] self.entries()[k]).name != name@,
            decreases n - i,
        {
            assert(self.entries()[i as int] == self.symbols@[i as int]@);
            if str_eq(self.symbols[i].name.as_str(), name) {
                assert((self.entries()[i as int]).name == name@);
                return Some(&self.symbols[i]);
            }
            i += 1;
        }
        None
    }
}

/// Offsets never decrease along the order of declaration: each symbol's
/// memory location is at least that of every earlier symbol.
pub proof fn lemma_offsets_monotone(t: SymbolTable, i: int, j: int)
    requires
        t.wf(),
        0 <= i <= j < t.entries().len(),
    ensures
        t.entries()[i].memory_location <= t.entries()[j].memory_location,
    decreases j - i,
{
    if i < j {
        lemma_offsets_monotone(t, i, j - 1);
        assert(t.entries()[j].memory_location == t.entries()[j - 1].memory_location + t.entries()[j
            - 1].size);
    }
}

} // verus!
