//! The symbol table: functions, and the variables of each function.
//!
//! The table is one flat sequence. A variable is qualified by the function
//! that declares it, its owner; a function owns itself. An entry is found by
//! its name together with its owner.

use crate::error::CompileError;
use crate::text::{bytes_eq, bytes_to_vec};
use vstd::prelude::*;

verus! {

/// Number of entries that a symbol table can hold.
pub const MAX_SYMBOL_INDEX: usize = 100;

/// What a symbol names.
#[derive(Debug, Clone, Copy, PartialEq, Eq, Hash, Structural)]
pub enum CategorySymbol {
    Variable,
    Function,
}

/// Whether two symbols are of the same kind.
pub fn are_kinds_equal(kind1: CategorySymbol, kind2: CategorySymbol) -> (b: bool)
    ensures
        b == (kind1 == kind2),
{
    match (kind1, kind2) {
        (CategorySymbol::Variable, CategorySymbol::Variable) => true,
        (CategorySymbol::Function, CategorySymbol::Function) => true,
        _ => false,
    }
}

/// One entry of the symbol table.
#[derive(Debug, Clone, PartialEq, Eq)]
pub struct Symbol {
    pub name: Vec<u8>,
    pub kind: CategorySymbol,
    /// Of a variable, its offset in the frame; of a function, the index of
    /// its first instruction.
    pub address: i32,
    /// The owner: the function in which a variable lives, or the function
    /// itself.
    pub action_function: Vec<u8>,
    /// The number of parameters of a function; 0 for a variable.
    pub var_num: i32,
}

/// A symbol as a mathematical value.
pub struct SymbolView {
    pub name: Seq<u8>,
    pub kind: CategorySymbol,
    pub address: i32,
    pub owner: Seq<u8>,
    pub arity: i32,
}

impl View for Symbol {
    type V = SymbolView;

    open spec fn view(&self) -> SymbolView {
        SymbolView {
            name: self.name@,
            kind: self.kind,
            address: self.address,
            owner: self.action_function@,
            arity: self.var_num,
        }
    }
}

/// The symbol table together with the scope that declarations are made in.
#[derive(Debug)]
pub struct SymbolTable {
    pub symbol: Vec<Symbol>,
    /// The function declared last: the owner of the variables to come.
    pub last_defined_function: Vec<u8>,
    /// The frame offset of the variable declared next.
    pub offset: i32,
}

/// A symbol table as a mathematical value.
pub struct Symbols {
    pub entries: Seq<SymbolView>,
    pub current: Seq<u8>,
    pub offset: i32,
}

impl View for SymbolTable {
    type V = Symbols;

    open spec fn view(&self) -> Symbols {
        Symbols {
            entries: self.symbol@.map_values(|s: Symbol| s@),
            current: self.last_defined_function@,
            offset: self.offset,
        }
    }
}

/// The first entry of `entries` from index `from` on that has the given name
/// and owner.
pub open spec fn lookup_from(
    entries: Seq<SymbolView>,
    name: Seq<u8>,
    owner: Seq<u8>,
    from: int,
) -> Option<int>
    decreases entries.len() - from,
{
    if from < 0 || from >= entries.len() {
        None
    } else if entries[from].name == name && entries[from].owner == owner {
        Some(from)
    } else {
        lookup_from(entries, name, owner, from + 1)
    }
}

/// The first entry of `entries` that has the given name and owner.
pub open spec fn lookup(entries: Seq<SymbolView>, name: Seq<u8>, owner: Seq<u8>) -> Option<int> {
    lookup_from(entries, name, owner, 0)
}

/// Whether `entries` holds a function called `name`.
pub open spec fn declares_function(entries: Seq<SymbolView>, name: Seq<u8>) -> bool {
    exists|i: int|
        0 <= i < entries.len() && (#[trigger] entries[i]).kind == CategorySymbol::Function
            && entries[i].name == name
}

/// Whether `entries` holds a variable called `name` that `owner` owns.
pub open spec fn declares_variable(
    entries: Seq<SymbolView>,
    name: Seq<u8>,
    owner: Seq<u8>,
) -> bool {
    exists|i: int|
        0 <= i < entries.len() && (#[trigger] entries[i]).kind == CategorySymbol::Variable
            && entries[i].name == name && entries[i].owner == owner
}

/// The table `s` after the declaration of `name` as a symbol of kind `kind`.
///
/// A full table takes no entry. A function must be new among the functions,
/// and becomes the current one; its address and arity are filled in later. A
/// variable must be new among the variables of the current function, and
/// takes the next frame offset.
pub open spec fn inserted(s: Symbols, kind: CategorySymbol, name: Seq<u8>) -> Result<
    Symbols,
    CompileError,
> {
    if s.entries.len() >= MAX_SYMBOL_INDEX {
        Err(CompileError::SymbolTableFull)
    } else {
        match kind {
            CategorySymbol::Function => {
                if declares_function(s.entries, name) {
                    Err(CompileError::FunctionRedefined)
                } else {
                    Ok(
                        Symbols {
                            entries: s.entries.push(
                                SymbolView {
                                    name,
                                    kind: CategorySymbol::Function,
                                    address: 0,
                                    owner: name,
                                    arity: 0,
                                },
                            ),
                            current: name,
                            offset: s.offset,
                        },
                    )
                }
            },
            CategorySymbol::Variable => {
                if declares_variable(s.entries, name, s.current) {
                    Err(CompileError::VariableRedefined)
                } else {
                    Ok(
                        Symbols {
                            entries: s.entries.push(
                                SymbolView {
                                    name,
                                    kind: CategorySymbol::Variable,
                                    address: s.offset,
                                    owner: s.current,
                                    arity: 0,
                                },
                            ),
                            current: s.current,
                            offset: (s.offset + 1) as i32,
                        },
                    )
                }
            },
        }
    }
}

impl Symbols {
    /// The table holds no more entries than its capacity, the next offset
    /// lies beyond the two linkage cells of a frame, and so does the address
    /// of every variable.
    pub open spec fn wf(self) -> bool {
        &&& self.entries.len() <= MAX_SYMBOL_INDEX
        &&& 2 <= self.offset <= 2 + self.entries.len()
        &&& forall|i: int|
            0 <= i < self.entries.len() && (#[trigger] self.entries[i]).kind
                == CategorySymbol::Variable ==> 2 <= self.entries[i].address
    }

    /// The table with the frame offset back at the first free cell of a
    /// frame.
    pub open spec fn rewound(self) -> Symbols {
        Symbols { offset: 2, ..self }
    }

    /// The table with the address of entry `i` set.
    pub open spec fn with_address(self, i: int, address: i32) -> Symbols {
        Symbols {
            entries: self.entries.update(i, SymbolView { address, ..self.entries[i] }),
            ..self
        }
    }

    /// The table with the arity of entry `i` set.
    pub open spec fn with_arity(self, i: int, arity: i32) -> Symbols {
        Symbols { entries: self.entries.update(i, SymbolView { arity, ..self.entries[i] }), ..self }
    }
}

/// `lookup_from` finds the first match at or after `from`, and nothing where
/// there is none.
pub proof fn lemma_lookup_from(entries: Seq<SymbolView>, name: Seq<u8>, owner: Seq<u8>, from: int)
    requires
        0 <= from,
    ensures
        match lookup_from(entries, name, owner, from) {
            Some(i) => {
                &&& from <= i < entries.len()
                &&& entries[i].name == name
                &&& entries[i].owner == owner
                &&& forall|j: int|
                    from <= j < i ==> !((#[trigger] entries[j]).name == name && entries[j].owner
                        == owner)
            },
            None => forall|j: int|
                from <= j < entries.len() ==> !((#[trigger] entries[j]).name == name
                    && entries[j].owner == owner),
        },
    decreases entries.len() - from,
{
    if from >= entries.len() {
    } else if entries[from].name == name && entries[from].owner == owner {
    } else {
        lemma_lookup_from(entries, name, owner, from + 1);
    }
}

/// The scopes of a table are in order: every variable belongs to a function
/// of the table; the variables of the current function lie below the next
/// offset; two variables of one function have different addresses; and two
/// functions have different names.
#[verifier::opaque]
pub open spec fn scoped(s: Symbols) -> bool {
    &&& forall|i: int|
        0 <= i < s.entries.len() && (#[trigger] s.entries[i]).kind == CategorySymbol::Variable
            ==> declares_function(s.entries, s.entries[i].owner)
    &&& forall|i: int|
        0 <= i < s.entries.len() && (#[trigger] s.entries[i]).kind == CategorySymbol::Variable
            && s.entries[i].owner == s.current ==> s.entries[i].address < s.offset
    &&& forall|i: int, j: int|
        0 <= i < s.entries.len() && 0 <= j < s.entries.len() && i != j && (
        #[trigger] s.entries[i]).kind == CategorySymbol::Variable && (#[trigger] s.entries[j]).kind
            == CategorySymbol::Variable && s.entries[i].owner == s.entries[j].owner
            ==> s.entries[i].address != s.entries[j].address
    &&& forall|i: int, j: int|
        0 <= i < s.entries.len() && 0 <= j < s.entries.len() && i != j && (
        #[trigger] s.entries[i]).kind == CategorySymbol::Function && (#[trigger] s.entries[j]).kind
            == CategorySymbol::Function ==> s.entries[i].name != s.entries[j].name
}

/// The scopes are in order and declarations are made inside a function of
/// the table.
pub open spec fn in_function(s: Symbols) -> bool {
    scoped(s) && declares_function(s.entries, s.current)
}

/// The empty table is in order.
pub proof fn lemma_scoped_empty(s: Symbols)
    requires
        s.entries.len() == 0,
    ensures
        scoped(s),
{
    reveal(scoped);
}

/// A variable declared inside a function keeps the scopes in order.
pub proof fn lemma_scoped_variable(s: Symbols, name: Seq<u8>)
    requires
        s.wf(),
        in_function(s),
        inserted(s, CategorySymbol::Variable, name) is Ok,
    ensures
        in_function(inserted(s, CategorySymbol::Variable, name)->Ok_0),
{
    reveal(scoped);
    let t = inserted(s, CategorySymbol::Variable, name)->Ok_0;
    let n = s.entries.len() as int;
    let k = choose|k: int|
        0 <= k < s.entries.len() && (#[trigger] s.entries[k]).kind == CategorySymbol::Function
            && s.entries[k].name == s.current;
    assert(t.entries[k] == s.entries[k]);
    assert forall|i: int|
        0 <= i < t.entries.len() && (#[trigger] t.entries[i]).kind
            == CategorySymbol::Variable implies declares_function(
        t.entries,
        t.entries[i].owner,
    ) by {
        if i < n {
            assert(t.entries[i] == s.entries[i]);
            let f = choose|f: int|
                0 <= f < s.entries.len() && (#[trigger] s.entries[f]).kind
                    == CategorySymbol::Function && s.entries[f].name == s.entries[i].owner;
            assert(t.entries[f] == s.entries[f]);
        }
    }
    assert forall|i: int, j: int|
        0 <= i < t.entries.len() && 0 <= j < t.entries.len() && i != j && (
        #[trigger] t.entries[i]).kind == CategorySymbol::Variable && (#[trigger] t.entries[j]).kind
            == CategorySymbol::Variable && t.entries[i].owner
            == t.entries[j].owner implies t.entries[i].address != t.entries[j].address by {
        if i < n {
            assert(t.entries[i] == s.entries[i]);
        }
        if j < n {
            assert(t.entries[j] == s.entries[j]);
        }
    }
    assert forall|i: int, j: int|
        0 <= i < t.entries.len() && 0 <= j < t.entries.len() && i != j && (
        #[trigger] t.entries[i]).kind == CategorySymbol::Function && (#[trigger] t.entries[j]).kind
            == CategorySymbol::Function implies t.entries[i].name != t.entries[j].name by {
        assert(t.entries[i] == s.entries[i]);
        assert(t.entries[j] == s.entries[j]);
    }
    assert forall|i: int|
        0 <= i < t.entries.len() && (#[trigger] t.entries[i]).kind == CategorySymbol::Variable
            && t.entries[i].owner == t.current implies t.entries[i].address < t.offset by {
        if i < n {
            assert(t.entries[i] == s.entries[i]);
        }
    }
}

/// A new function keeps the scopes in order, whatever its address and
/// arity, and starts with the frame offset at 2 and no variable of its own.
pub proof fn lemma_scoped_function(s: Symbols, name: Seq<u8>, address: i32)
    requires
        scoped(s),
        inserted(s, CategorySymbol::Function, name) is Ok,
    ensures
        in_function(
            inserted(s, CategorySymbol::Function, name)->Ok_0.with_address(
                s.entries.len() as int,
                address,
            ).rewound(),
        ),
        !owns_variable(inserted(s, CategorySymbol::Function, name)->Ok_0.entries, name),
{
    reveal(scoped);
    let n = s.entries.len() as int;
    let t = inserted(s, CategorySymbol::Function, name)->Ok_0.with_address(n, address).rewound();
    assert(t.entries[n].kind == CategorySymbol::Function && t.entries[n].name == name);
    assert forall|i: int|
        0 <= i < t.entries.len() && (#[trigger] t.entries[i]).kind
            == CategorySymbol::Variable implies declares_function(t.entries, t.entries[i].owner)
        && t.entries[i].owner != name by {
        assert(t.entries[i] == s.entries[i]);
        let f = choose|f: int|
            0 <= f < s.entries.len() && (#[trigger] s.entries[f]).kind == CategorySymbol::Function
                && s.entries[f].name == s.entries[i].owner;
        assert(t.entries[f] == s.entries[f]);
    }
    assert forall|i: int, j: int|
        0 <= i < t.entries.len() && 0 <= j < t.entries.len() && i != j && (
        #[trigger] t.entries[i]).kind == CategorySymbol::Variable && (#[trigger] t.entries[j]).kind
            == CategorySymbol::Variable && t.entries[i].owner
            == t.entries[j].owner implies t.entries[i].address != t.entries[j].address by {
        assert(t.entries[i] == s.entries[i]);
        assert(t.entries[j] == s.entries[j]);
    }
    assert forall|i: int, j: int|
        0 <= i < t.entries.len() && 0 <= j < t.entries.len() && i != j && (
        #[trigger] t.entries[i]).kind == CategorySymbol::Function && (#[trigger] t.entries[j]).kind
            == CategorySymbol::Function implies t.entries[i].name != t.entries[j].name by {
        if i < n {
            assert(t.entries[i] == s.entries[i]);
        }
        if j < n {
            assert(t.entries[j] == s.entries[j]);
        }
    }
    let u = inserted(s, CategorySymbol::Function, name)->Ok_0;
    if owns_variable(u.entries, name) {
        let i = choose|i: int|
            0 <= i < u.entries.len() && (#[trigger] u.entries[i]).kind == CategorySymbol::Variable
                && u.entries[i].owner == name;
        assert(t.entries[i] == u.entries[i]);
    }
}

/// The arity of a function can be set without disturbing the scopes.
pub proof fn lemma_scoped_arity(s: Symbols, i: int, arity: i32)
    requires
        in_function(s),
        0 <= i < s.entries.len(),
    ensures
        in_function(s.with_arity(i, arity)),
{
    reveal(scoped);
    let t = s.with_arity(i, arity);
    let k = choose|k: int|
        0 <= k < s.entries.len() && (#[trigger] s.entries[k]).kind == CategorySymbol::Function
            && s.entries[k].name == s.current;
    assert(t.entries[k].kind == CategorySymbol::Function && t.entries[k].name == s.current);
    assert forall|v: int|
        0 <= v < t.entries.len() && (#[trigger] t.entries[v]).kind
            == CategorySymbol::Variable implies declares_function(
        t.entries,
        t.entries[v].owner,
    ) by {
        assert(t.entries[v].kind == s.entries[v].kind && t.entries[v].owner == s.entries[v].owner);
        let f = choose|f: int|
            0 <= f < s.entries.len() && (#[trigger] s.entries[f]).kind == CategorySymbol::Function
                && s.entries[f].name == s.entries[v].owner;
        assert(t.entries[f].kind == CategorySymbol::Function && t.entries[f].name
            == s.entries[f].name);
    }
    assert forall|a: int, b: int|
        0 <= a < t.entries.len() && 0 <= b < t.entries.len() && a != b && (
        #[trigger] t.entries[a]).kind == CategorySymbol::Variable && (#[trigger] t.entries[b]).kind
            == CategorySymbol::Variable && t.entries[a].owner
            == t.entries[b].owner implies t.entries[a].address != t.entries[b].address by {
        assert(t.entries[a].kind == s.entries[a].kind);
        assert(t.entries[b].kind == s.entries[b].kind);
    }
    assert forall|a: int, b: int|
        0 <= a < t.entries.len() && 0 <= b < t.entries.len() && a != b && (
        #[trigger] t.entries[a]).kind == CategorySymbol::Function && (#[trigger] t.entries[b]).kind
            == CategorySymbol::Function implies t.entries[a].name != t.entries[b].name by {
        assert(t.entries[a].kind == s.entries[a].kind);
        assert(t.entries[b].kind == s.entries[b].kind);
    }
    assert forall|v: int|
        0 <= v < t.entries.len() && (#[trigger] t.entries[v]).kind == CategorySymbol::Variable
            && t.entries[v].owner == t.current implies t.entries[v].address < t.offset by {
        assert(t.entries[v].kind == s.entries[v].kind);
    }
}

/// Whether `entries` holds a variable that `owner` owns.
pub open spec fn owns_variable(entries: Seq<SymbolView>, owner: Seq<u8>) -> bool {
    exists|i: int|
        0 <= i < entries.len() && (#[trigger] entries[i]).kind == CategorySymbol::Variable
            && entries[i].owner == owner
}

/// Scoping. In a function that has just been declared every name is free
/// for a variable, whatever the functions before it have declared: a name
/// may be used again in another function.
pub proof fn lemma_name_free_in_new_function(s: Symbols, function: Seq<u8>, name: Seq<u8>)
    requires
        scoped(s),
        inserted(s, CategorySymbol::Function, function) is Ok,
        s.entries.len() + 1 < MAX_SYMBOL_INDEX,
    ensures
        inserted(inserted(s, CategorySymbol::Function, function)->Ok_0, CategorySymbol::Variable, name)
            is Ok,
{
    lemma_scoped_function(s, function, 0);
    let t = inserted(s, CategorySymbol::Function, function)->Ok_0;
    if declares_variable(t.entries, name, function) {
        let i = choose|i: int|
            0 <= i < t.entries.len() && (#[trigger] t.entries[i]).kind == CategorySymbol::Variable
                && t.entries[i].name == name && t.entries[i].owner == function;
        assert(owns_variable(t.entries, function));
    }
}

/// Scoping. A name declared twice as a variable of one function is rejected
/// the second time.
pub proof fn lemma_variable_twice(s: Symbols, name: Seq<u8>)
    requires
        inserted(s, CategorySymbol::Variable, name) is Ok,
    ensures
        inserted(inserted(s, CategorySymbol::Variable, name)->Ok_0, CategorySymbol::Variable, name)
            is Err,
        s.entries.len() + 1 < MAX_SYMBOL_INDEX ==> inserted(
            inserted(s, CategorySymbol::Variable, name)->Ok_0,
            CategorySymbol::Variable,
            name,
        ) == Err::<Symbols, CompileError>(CompileError::VariableRedefined),
{
    let t = inserted(s, CategorySymbol::Variable, name)->Ok_0;
    assert(t.entries[s.entries.len() as int].kind == CategorySymbol::Variable);
}

impl SymbolTable {
    /// An empty table.
    pub fn new() -> (t: SymbolTable)
        ensures
            t@ == (Symbols { entries: Seq::empty(), current: Seq::empty(), offset: 2 }),
            t@.wf(),
    {
        let t = SymbolTable { symbol: Vec::new(), last_defined_function: Vec::new(), offset: 2 };
        assert(t@.entries =~= Seq::empty());
        t
    }

    /// The index of the first entry with the given name and owner.
    pub fn lookup(&self, name: &[u8], fun_name: &[u8]) -> (r: Option<usize>)
        ensures
            match r {
                Some(i) => lookup(self@.entries, name@, fun_name@) == Some(i as int) && i
                    < self.symbol.len(),
                None => lookup(self@.entries, name@, fun_name@) is None,
            },
    {
        let mut i: usize = 0;
        while i < self.symbol.len()
            invariant
                i <= self.symbol.len(),
                lookup(self@.entries, name@, fun_name@) == lookup_from(
                    self@.entries,
                    name@,
                    fun_name@,
                    i as int,
                ),
            decreases self.symbol.len() - i,
        {
            if bytes_eq(self.symbol[i].name.as_slice(), name) && bytes_eq(
                self.symbol[i].action_function.as_slice(),
                fun_name,
            ) {
                return Some(i);
            }
            i += 1;
        }
        None
    }

    /// Whether the table holds a function called `name`.
    fn has_function(&self, name: &[u8]) -> (b: bool)
        ensures
            b == declares_function(self@.entries, name@),
    {
        let mut i: usize = 0;
        while i < self.symbol.len()
            invariant
                i <= self.symbol.len(),
                forall|j: int|
                    0 <= j < i ==> !((#[trigger] self@.entries[j]).kind
                        == CategorySymbol::Function && self@.entries[j].name == name@),
            decreases self.symbol.len() - i,
        {
            if are_kinds_equal(self.symbol[i].kind, CategorySymbol::Function) && bytes_eq(
                self.symbol[i].name.as_slice(),
                name,
            ) {
                assert(self@.entries[i as int].kind == CategorySymbol::Function);
                return true;
            }
            i += 1;
        }
        false
    }

    /// Whether the table holds a variable called `name` that the current
    /// function owns.
    fn has_variable(&self, name: &[u8]) -> (b: bool)
        ensures
            b == declares_variable(self@.entries, name@, self@.current),
    {
        let mut i: usize = 0;
        while i < self.symbol.len()
            invariant
                i <= self.symbol.len(),
                forall|j: int|
                    0 <= j < i ==> !((#[trigger] self@.entries[j]).kind
                        == CategorySymbol::Variable && self@.entries[j].name == name@
                        && self@.entries[j].owner == self@.current),
            decreases self.symbol.len() - i,
        {
            if are_kinds_equal(self.symbol[i].kind, CategorySymbol::Variable) && bytes_eq(
                self.symbol[i].name.as_slice(),
                name,
            ) && bytes_eq(
                self.symbol[i].action_function.as_slice(),
                self.last_defined_function.as_slice(),
            ) {
                assert(self@.entries[i as int].kind == CategorySymbol::Variable);
                return true;
            }
            i += 1;
        }
        false
    }

    /// Sets the address of entry `index`.
    pub fn set_address(&mut self, index: usize, address: i32)
        requires
            index < old(self).symbol.len(),
        ensures
            final(self)@ == old(self)@.with_address(index as int, address),
    {
        self.symbol[index].address = address;
        assert(final(self)@.entries =~= old(self)@.with_address(index as int, address).entries);
    }

    /// Sets the arity of entry `index`.
    pub fn set_arity(&mut self, index: usize, arity: i32)
        requires
            index < old(self).symbol.len(),
        ensures
            final(self)@ == old(self)@.with_arity(index as int, arity),
    {
        self.symbol[index].var_num = arity;
        assert(final(self)@.entries =~= old(self)@.with_arity(index as int, arity).entries);
    }

    /// Declares `name` as a symbol of kind `category`.
    pub fn insert_symbol(&mut self, category: CategorySymbol, name: &[u8]) -> (r: Result<
        (),
        CompileError,
    >)
        requires
            old(self)@.wf(),
        ensures
            match inserted(old(self)@, category, name@) {
                Ok(s) => r is Ok && final(self)@ == s && final(self)@.wf(),
                Err(e) => r == Err::<(), CompileError>(e) && final(self)@ == old(self)@,
            },
    {
        if self.symbol.len() >= MAX_SYMBOL_INDEX {
            return Err(CompileError::SymbolTableFull);
        }
        match category {
            CategorySymbol::Function => {
                if self.has_function(name) {
                    return Err(CompileError::FunctionRedefined);
                }
                self.last_defined_function = bytes_to_vec(name);
                self.symbol.push(
                    Symbol {
                        name: bytes_to_vec(name),
                        kind: CategorySymbol::Function,
                        address: 0,
                        action_function: bytes_to_vec(name),
                        var_num: 0,
                    },
                );
            },
            CategorySymbol::Variable => {
                if self.has_variable(name) {
                    return Err(CompileError::VariableRedefined);
                }
                let owner = self.last_defined_function.clone();
                self.symbol.push(
                    Symbol {
                        name: bytes_to_vec(name),
                        kind: CategorySymbol::Variable,
                        address: self.offset,
                        action_function: owner,
                        var_num: 0,
                    },
                );
                self.offset = self.offset + 1;
            },
        }
        proof {
            assert(final(self)@.entries =~= inserted(old(self)@, category, name@)->Ok_0.entries);
        }
        Ok(())
    }
}

} // verus!
