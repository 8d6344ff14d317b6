//! The symbols of the executable, as places in the simulated memory spaces.

use vstd::prelude::*;
use vstd::string::*;
use crate::pointer::Pointer;
use crate::space::MemorySpace;
use crate::text::same_text;

verus! {

/// A symbol of the executable, placed in the memory space that holds it.
#[derive(Debug, PartialEq, Eq, PartialOrd, Ord)]
pub struct WatchableSymbol {
    pub name: String,
    pub memory_space: MemorySpace,
    /// The address, counted from the start of the memory space.
    pub address: Pointer,
}

/// The mathematical value of a `WatchableSymbol`.
pub ghost struct SymbolView {
    pub name: Seq<char>,
    pub memory_space: MemorySpace,
    pub address: Pointer,
}

impl View for WatchableSymbol {
    type V = SymbolView;

    open spec fn view(&self) -> SymbolView {
        SymbolView { name: self.name@, memory_space: self.memory_space, address: self.address }
    }
}

impl Clone for WatchableSymbol {
    fn clone(&self) -> (copy: WatchableSymbol)
        ensures
            copy@ == self@,
    {
        WatchableSymbol {
            name: self.name.clone(),
            memory_space: self.memory_space,
            address: self.address,
        }
    }
}

/// The values of a run of symbols, one for one.
pub open spec fn symbol_views(symbols: Seq<WatchableSymbol>) -> Seq<SymbolView> {
    Seq::new(symbols.len(), |i: int| symbols[i]@)
}

/// The index of the first symbol named `name`, or the number of symbols
/// where none has the name. Names are compared character by character.
pub open spec fn symbol_position(symbols: Seq<SymbolView>, name: Seq<char>) -> int
    decreases symbols.len(),
{
    if symbols.len() == 0 {
        0
    } else if symbols[0].name == name {
        0
    } else {
        1 + symbol_position(symbols.skip(1), name)
    }
}

/// Whether a symbol is named `name`.
pub open spec fn has_symbol(symbols: Seq<SymbolView>, name: Seq<char>) -> bool {
    symbol_position(symbols, name) < symbols.len()
}

/// `symbol_position` lies within the symbols; the symbol at it has the
/// name, where it lies before the end; no symbol before it has the name.
pub proof fn lemma_symbol_position(symbols: Seq<SymbolView>, name: Seq<char>)
    ensures
        0 <= symbol_position(symbols, name) <= symbols.len(),
        has_symbol(symbols, name) ==> symbols[symbol_position(symbols, name)].name == name,
        forall|j: int| 0 <= j < symbol_position(symbols, name) ==> (#[trigger] symbols[j]).name != name,
    decreases symbols.len(),
{
    if symbols.len() > 0 && symbols[0].name != name {
        let tail = symbols.skip(1);
        lemma_symbol_position(tail, name);
        assert forall|j: int| 0 <= j < symbol_position(symbols, name) implies (
        #[trigger] symbols[j]).name != name by {
            if j > 0 {
                assert(tail[j - 1] == symbols[j]);
            }
        }
    }
}

/// An index with the name at it or at the end, and with no symbol of the
/// name before it, is `symbol_position`.
pub proof fn lemma_symbol_position_is(symbols: Seq<SymbolView>, name: Seq<char>, index: int)
    requires
        0 <= index <= symbols.len(),
        forall|j: int| 0 <= j < index ==> (#[trigger] symbols[j]).name != name,
        index < symbols.len() ==> symbols[index].name == name,
    ensures
        symbol_position(symbols, name) == index,
{
    lemma_symbol_position(symbols, name);
}

/// Finds the first symbol named `name`.
pub fn find_symbol<'s>(symbols: &'s [WatchableSymbol], name: &str) -> (found: Option<
    &'s WatchableSymbol,
>)
    ensures
        match found {
            Some(symbol) => has_symbol(symbol_views(symbols@), name@) && symbol@ == symbol_views(
                symbols@,
            )[symbol_position(symbol_views(symbols@), name@)],
            None => !has_symbol(symbol_views(symbols@), name@),
        },
{
    let mut index: usize = 0;
    while index < symbols.len()
        invariant
            index <= symbols@.len(),
            forall|j: int| 0 <= j < index ==> (#[trigger] symbol_views(symbols@)[j]).name != name@,
        decreases symbols@.len() - index,
    {
        if same_text(symbols[index].name.as_str(), name) {
            proof {
                lemma_symbol_position_is(symbol_views(symbols@), name@, index as int);
            }
            return Some(&symbols[index]);
        }
        index += 1;
    }
    proof {
        lemma_symbol_position_is(symbol_views(symbols@), name@, index as int);
    }
    None
}

} // verus!
