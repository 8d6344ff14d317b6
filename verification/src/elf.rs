//! The symbol table of the executable, and where its symbols lie in the
//! simulated memory spaces.

use vstd::prelude::*;
use vstd::string::*;
use object::{Object, ObjectSection, ObjectSymbol};
use crate::pointer::Pointer;
use crate::space::MemorySpace;
use crate::symbols::{symbol_views, SymbolView, WatchableSymbol};
use crate::text::{trim, trimmed};

verus! {

/// What a section of the executable holds, as far as symbols are placed by it.
#[derive(Copy, Clone, Debug, PartialEq, Eq, Structural)]
pub enum SectionKind {
    /// Executable code.
    Text,
    /// Initialized data.
    Data,
    /// Anything else.
    Other,
}

/// A section of the executable.
#[derive(Debug, PartialEq, Eq)]
pub struct ElfSection {
    /// The name; empty where the section has none that is text.
    pub name: String,
    pub kind: SectionKind,
    /// The index by which symbols refer to the section.
    pub index: usize,
    /// The address of the start of the section.
    pub address: u64,
}

/// The mathematical value of an `ElfSection`.
pub ghost struct SectionView {
    pub name: Seq<char>,
    pub kind: SectionKind,
    pub index: usize,
    pub address: u64,
}

impl View for ElfSection {
    type V = SectionView;

    open spec fn view(&self) -> SectionView {
        SectionView { name: self.name@, kind: self.kind, index: self.index, address: self.address }
    }
}

/// A symbol of the executable.
#[derive(Debug, PartialEq, Eq)]
pub struct ElfSymbol {
    /// The name, where the symbol has one that is text.
    pub name: Option<String>,
    /// The index of the section that defines the symbol, where one does.
    pub section_index: Option<usize>,
    pub address: u64,
}

/// The mathematical value of an `ElfSymbol`.
pub ghost struct ElfSymbolView {
    pub name: Option<Seq<char>>,
    pub section_index: Option<usize>,
    pub address: u64,
}

impl View for ElfSymbol {
    type V = ElfSymbolView;

    open spec fn view(&self) -> ElfSymbolView {
        ElfSymbolView {
            name: match self.name {
                Some(name) => Some(name@),
                None => None,
            },
            section_index: self.section_index,
            address: self.address,
        }
    }
}

/// The values of a run of sections, one for one.
pub open spec fn section_views(sections: Seq<ElfSection>) -> Seq<SectionView> {
    Seq::new(sections.len(), |i: int| sections[i]@)
}

/// The values of a run of symbols, one for one.
pub open spec fn elf_symbol_views(symbols: Seq<ElfSymbol>) -> Seq<ElfSymbolView> {
    Seq::new(symbols.len(), |i: int| symbols[i]@)
}

/// Why the symbols of an executable cannot be placed.
#[derive(Debug, PartialEq, Eq)]
pub enum ResolveError {
    /// The bytes are no object file that can be read.
    InvalidObject,
    /// No section is of the kind.
    NoSection { kind: SectionKind },
    /// More than one section is of the kind: their names.
    AmbiguousSection { kind: SectionKind, names: Vec<String> },
    /// The symbol lies before the start of its section, or too far behind
    /// it for an address of 32 bits.
    AddressOutOfRange { name: String },
}

/// The mathematical value of a `ResolveError`.
pub ghost enum ResolveFault {
    InvalidObject,
    NoSection { kind: SectionKind },
    AmbiguousSection { kind: SectionKind, names: Seq<Seq<char>> },
    AddressOutOfRange { name: Seq<char> },
}

impl View for ResolveError {
    type V = ResolveFault;

    open spec fn view(&self) -> ResolveFault {
        match self {
            ResolveError::InvalidObject => ResolveFault::InvalidObject,
            ResolveError::NoSection { kind } => ResolveFault::NoSection { kind: *kind },
            ResolveError::AmbiguousSection { kind, names } => ResolveFault::AmbiguousSection {
                kind: *kind,
                names: Seq::new(names@.len(), |i: int| names@[i]@),
            },
            ResolveError::AddressOutOfRange { name } => ResolveFault::AddressOutOfRange {
                name: name@,
            },
        }
    }
}

/// The sections that the `object` crate reads from the bytes of an object
/// file, in the order of its section table; `None` where it reads none.
pub uninterp spec fn elf_sections(data: Seq<u8>) -> Option<Seq<SectionView>>;

/// The symbols that the `object` crate reads from the bytes of an object
/// file, in the order of its symbol table; `None` where it reads none.
pub uninterp spec fn elf_symbols(data: Seq<u8>) -> Option<Seq<ElfSymbolView>>;

/// `object::File::parse` and `Object::sections`: the sections of the file,
/// each with what `ObjectSection` tells of it: `name` (empty where that
/// fails), `kind`, `index` and `address`.
#[verifier::external_body]
fn read_sections(elf_data: &[u8]) -> (sections: Option<Vec<ElfSection>>)
    ensures
        match sections {
            Some(found) => elf_sections(elf_data@) == Some(section_views(found@)),
            None => elf_sections(elf_data@) is None,
        },
{
    let file = object::File::parse(elf_data).ok()?;
    let mut sections = Vec::new();
    for section in file.sections() {
        let kind = match section.kind() {
            object::SectionKind::Text => SectionKind::Text,
            object::SectionKind::Data => SectionKind::Data,
            _ => SectionKind::Other,
        };
        let name = section.name().map(str::to_owned).unwrap_or_default();
        sections.push(ElfSection { name, kind, index: section.index().0, address: section.address() });
    }
    Some(sections)
}

/// `object::File::parse` and `Object::symbols`: the symbols of the file,
/// each with what `ObjectSymbol` tells of it: `name` (none where that
/// fails), `section_index` and `address`.
#[verifier::external_body]
fn read_symbols(elf_data: &[u8]) -> (symbols: Option<Vec<ElfSymbol>>)
    ensures
        match symbols {
            Some(found) => elf_symbols(elf_data@) == Some(elf_symbol_views(found@)),
            None => elf_symbols(elf_data@) is None,
        },
{
    let file = object::File::parse(elf_data).ok()?;
    let mut symbols = Vec::new();
    for symbol in file.symbols() {
        let name = symbol.name().ok().map(str::to_owned);
        let section_index = symbol.section_index().map(|index| index.0);
        symbols.push(ElfSymbol { name, section_index, address: symbol.address() });
    }
    Some(symbols)
}

/// The sections of a kind, in their order.
pub open spec fn sections_of_kind(sections: Seq<SectionView>, kind: SectionKind) -> Seq<SectionView>
    decreases sections.len(),
{
    if sections.len() == 0 {
        Seq::empty()
    } else if sections.last().kind == kind {
        sections_of_kind(sections.drop_last(), kind).push(sections.last())
    } else {
        sections_of_kind(sections.drop_last(), kind)
    }
}

/// The names of sections, one for one.
pub open spec fn names_of(sections: Seq<SectionView>) -> Seq<Seq<char>> {
    Seq::new(sections.len(), |i: int| sections[i].name)
}

/// The one section of a kind. That there is none, or more than one, is a fault.
pub open spec fn only_section(sections: Seq<SectionView>, kind: SectionKind) -> Result<
    SectionView,
    ResolveFault,
> {
    let matching = sections_of_kind(sections, kind);
    if matching.len() == 0 {
        Err(ResolveFault::NoSection { kind })
    } else if matching.len() == 1 {
        Ok(matching[0])
    } else {
        Err(ResolveFault::AmbiguousSection { kind, names: names_of(matching) })
    }
}

/// Where a symbol lies, counted from the start of its memory space.
///
/// A symbol of the text section lies in program space, as far from the
/// start as from the start of the section. A symbol of the data section
/// lies in data space, behind the I/O registers: one further than `io_end`,
/// and as far again as from the start of the section. A symbol without a
/// name, with a name of white space only, or of another section has no place.
pub open spec fn place_symbol(symbol: ElfSymbolView, text: SectionView, data: SectionView, io_end: u16) -> Option<
    Result<SymbolView, ResolveFault>,
> {
    if symbol.name is None || trimmed(symbol.name->0).len() == 0 {
        None
    } else {
        let name = trimmed(symbol.name->0);
        if symbol.section_index == Some(text.index) {
            Some(place_in(name, MemorySpace::Program, 0, symbol.address - text.address))
        } else if symbol.section_index == Some(data.index) {
            Some(place_in(name, MemorySpace::Data, io_end + 1, symbol.address - data.address))
        } else {
            None
        }
    }
}

/// The symbol that lies `distance` behind the start of its section, in a
/// memory space in which the section starts at `start`. It is a fault that
/// the symbol lies before the section, or at no address of 32 bits.
pub open spec fn place_in(name: Seq<char>, memory_space: MemorySpace, start: int, distance: int) -> Result<
    SymbolView,
    ResolveFault,
> {
    if 0 <= distance && start + distance <= u32::MAX {
        Ok(
            SymbolView {
                name,
                memory_space,
                address: Pointer { address: (start + distance) as u32, natural_radix: 16 },
            },
        )
    } else {
        Err(ResolveFault::AddressOutOfRange { name })
    }
}

/// The places of the symbols that have one, in their order, or the fault
/// of the first symbol whose place is no address.
pub open spec fn place_symbols(
    symbols: Seq<ElfSymbolView>,
    text: SectionView,
    data: SectionView,
    io_end: u16,
) -> Result<Seq<SymbolView>, ResolveFault>
    decreases symbols.len(),
{
    if symbols.len() == 0 {
        Ok(Seq::empty())
    } else {
        match place_symbols(symbols.drop_last(), text, data, io_end) {
            Err(fault) => Err(fault),
            Ok(placed) => match place_symbol(symbols.last(), text, data, io_end) {
                None => Ok(placed),
                Some(Ok(symbol)) => Ok(placed.push(symbol)),
                Some(Err(fault)) => Err(fault),
            },
        }
    }
}

/// The watchable symbols of an executable with these sections and symbols.
pub open spec fn resolve(sections: Seq<SectionView>, symbols: Seq<ElfSymbolView>, io_end: u16) -> Result<
    Seq<SymbolView>,
    ResolveFault,
> {
    match only_section(sections, SectionKind::Text) {
        Err(fault) => Err(fault),
        Ok(text) => match only_section(sections, SectionKind::Data) {
            Err(fault) => Err(fault),
            Ok(data) => place_symbols(symbols, text, data, io_end),
        },
    }
}

/// The watchable symbols of the executable with the bytes `data`.
pub open spec fn resolve_elf(data: Seq<u8>, io_end: u16) -> Result<Seq<SymbolView>, ResolveFault> {
    match (elf_sections(data), elf_symbols(data)) {
        (Some(sections), Some(symbols)) => resolve(sections, symbols, io_end),
        _ => Err(ResolveFault::InvalidObject),
    }
}

/// Where a fault ends the placing of the first symbols, it ends the placing of all.
pub proof fn lemma_place_symbols_fails(
    symbols: Seq<ElfSymbolView>,
    text: SectionView,
    data: SectionView,
    io_end: u16,
    count: int,
)
    requires
        0 <= count <= symbols.len(),
        place_symbols(symbols.take(count), text, data, io_end) is Err,
    ensures
        place_symbols(symbols, text, data, io_end) == place_symbols(
            symbols.take(count),
            text,
            data,
            io_end,
        ),
    decreases symbols.len() - count,
{
    if count == symbols.len() {
        assert(symbols.take(count) =~= symbols);
    } else {
        assert(symbols.take(count + 1).drop_last() =~= symbols.take(count));
        lemma_place_symbols_fails(symbols, text, data, io_end, count + 1);
    }
}

/// Finds the one section of a kind.
pub fn fetch_only_section_of_kind<'s>(section_kind: SectionKind, sections: &'s [ElfSection]) -> (section:
    Result<&'s ElfSection, ResolveError>)
    ensures
        match section {
            Ok(found) => only_section(section_views(sections@), section_kind) == Ok::<
                SectionView,
                ResolveFault,
            >(found@),
            Err(error) => only_section(section_views(sections@), section_kind) == Err::<
                SectionView,
                ResolveFault,
            >(error@),
        },
{
    let mut matching: Vec<usize> = Vec::new();
    let mut i: usize = 0;
    let ghost all = section_views(sections@);
    proof {
        assert(all.take(0) =~= Seq::<SectionView>::empty());
    }
    while i < sections.len()
        invariant
            i <= sections@.len(),
            all == section_views(sections@),
            matching@.len() == sections_of_kind(all.take(i as int), section_kind).len(),
            forall|k: int|
                0 <= k < matching@.len() ==> 0 <= (#[trigger] matching@[k]) < sections@.len() && all[matching@[k] as int]
                    == sections_of_kind(all.take(i as int), section_kind)[k],
        decreases sections@.len() - i,
    {
        proof {
            assert(all.take(i + 1).drop_last() =~= all.take(i as int));
            assert(all.take(i + 1).last() == all[i as int]);
        }
        let same = match (sections[i].kind, section_kind) {
            (SectionKind::Text, SectionKind::Text) => true,
            (SectionKind::Data, SectionKind::Data) => true,
            (SectionKind::Other, SectionKind::Other) => true,
            _ => false,
        };
        if same {
            matching.push(i);
        }
        i += 1;
    }
    proof {
        assert(all.take(sections@.len() as int) =~= all);
    }
    if matching.len() == 0 {
        Err(ResolveError::NoSection { kind: section_kind })
    } else if matching.len() == 1 {
        Ok(&sections[matching[0]])
    } else {
        let mut names: Vec<String> = Vec::new();
        let mut k: usize = 0;
        while k < matching.len()
            invariant
                k <= matching@.len(),
                all == section_views(sections@),
                names@.len() == k,
                matching@.len() == sections_of_kind(all, section_kind).len(),
                forall|j: int|
                    0 <= j < matching@.len() ==> 0 <= (#[trigger] matching@[j]) < sections@.len() && all[matching@[j] as int]
                        == sections_of_kind(all, section_kind)[j],
                forall|j: int|
                    0 <= j < k ==> (#[trigger] names@[j])@ == names_of(
                        sections_of_kind(all, section_kind),
                    )[j],
            decreases matching@.len() - k,
        {
            names.push(sections[matching[k]].name.clone());
            k += 1;
        }
        let error = ResolveError::AmbiguousSection { kind: section_kind, names };
        proof {
            assert(error@->AmbiguousSection_names =~= names_of(sections_of_kind(all, section_kind)));
        }
        Err(error)
    }
}

/// The symbol at a place of a memory space.
fn place(name: &str, memory_space: MemorySpace, offset: u32, address: u64, start: u64) -> (symbol:
    Result<WatchableSymbol, ResolveError>)
    ensures
        match symbol {
            Ok(found) => place_in(name@, memory_space, offset as int, address - start) == Ok::<
                SymbolView,
                ResolveFault,
            >(found@),
            Err(error) => place_in(name@, memory_space, offset as int, address - start) == Err::<
                SymbolView,
                ResolveFault,
            >(error@),
        },
{
    if address < start || address - start > u32::MAX as u64 {
        return Err(ResolveError::AddressOutOfRange { name: name.to_owned() });
    }
    let relative: u64 = offset as u64 + (address - start);
    if relative > u32::MAX as u64 {
        return Err(ResolveError::AddressOutOfRange { name: name.to_owned() });
    }
    Ok(
        WatchableSymbol {
            name: name.to_owned(),
            memory_space,
            address: Pointer { address: relative as u32, natural_radix: 16 },
        },
    )
}

/// The watchable symbols of an executable with these sections and symbols.
pub fn resolve_symbols(sections: &[ElfSection], symbols: &[ElfSymbol], io_end: u16) -> (watchables:
    Result<Vec<WatchableSymbol>, ResolveError>)
    ensures
        match watchables {
            Ok(found) => resolve(section_views(sections@), elf_symbol_views(symbols@), io_end)
                == Ok::<Seq<SymbolView>, ResolveFault>(symbol_views(found@)),
            Err(error) => resolve(section_views(sections@), elf_symbol_views(symbols@), io_end)
                == Err::<Seq<SymbolView>, ResolveFault>(error@),
        },
{
    let text_section = match fetch_only_section_of_kind(SectionKind::Text, sections) {
        Ok(section) => section,
        Err(error) => {
            return Err(error);
        },
    };
    let data_section = match fetch_only_section_of_kind(SectionKind::Data, sections) {
        Ok(section) => section,
        Err(error) => {
            return Err(error);
        },
    };
    let mut watchables: Vec<WatchableSymbol> = Vec::new();
    let ghost all = elf_symbol_views(symbols@);
    let mut i: usize = 0;
    proof {
        assert(all.take(0) =~= Seq::<ElfSymbolView>::empty());
        assert(symbol_views(watchables@) =~= Seq::<SymbolView>::empty());
    }
    while i < symbols.len()
        invariant
            i <= symbols@.len(),
            all == elf_symbol_views(symbols@),
            only_section(section_views(sections@), SectionKind::Text) == Ok::<
                SectionView,
                ResolveFault,
            >(text_section@),
            only_section(section_views(sections@), SectionKind::Data) == Ok::<
                SectionView,
                ResolveFault,
            >(data_section@),
            place_symbols(all.take(i as int), text_section@, data_section@, io_end) == Ok::<
                Seq<SymbolView>,
                ResolveFault,
            >(symbol_views(watchables@)),
        decreases symbols@.len() - i,
    {
        proof {
            assert(all.take(i + 1).drop_last() =~= all.take(i as int));
            assert(all.take(i + 1).last() == symbols@[i as int]@);
        }
        let symbol = &symbols[i];
        let ghost before = symbol_views(watchables@);
        if let Some(name) = &symbol.name {
            let symbol_name = trim(name.as_str());
            if symbol_name.unicode_len() > 0 {
                let placed = match symbol.section_index {
                    Some(index) => {
                        if index == text_section.index {
                            Some(
                                place(
                                    symbol_name,
                                    MemorySpace::Program,
                                    0,
                                    symbol.address,
                                    text_section.address,
                                ),
                            )
                        } else if index == data_section.index {
                            let data_section_load_start: u32 = io_end as u32 + 1;
                            Some(
                                place(
                                    symbol_name,
                                    MemorySpace::Data,
                                    data_section_load_start,
                                    symbol.address,
                                    data_section.address,
                                ),
                            )
                        } else {
                            None
                        }
                    },
                    None => None,
                };
                match placed {
                    Some(Ok(watchable)) => {
                        watchables.push(watchable);
                        proof {
                            assert(symbol_views(watchables@) =~= before.push(
                                symbol_views(watchables@).last(),
                            ));
                        }
                    },
                    Some(Err(error)) => {
                        proof {
                            lemma_place_symbols_fails(
                                all,
                                text_section@,
                                data_section@,
                                io_end,
                                i + 1,
                            );
                        }
                        return Err(error);
                    },
                    None => {},
                }
            }
        }
        i += 1;
    }
    proof {
        assert(all.take(symbols@.len() as int) =~= all);
    }
    Ok(watchables)
}

/// The watchable symbols of the executable with the bytes `elf_data`, on a
/// machine whose I/O registers end at the address `io_end`.
pub fn parse_watchable_symbols_from_elf(elf_data: &[u8], io_end: u16) -> (watchables: Result<
    Vec<WatchableSymbol>,
    ResolveError,
>)
    ensures
        match watchables {
            Ok(found) => resolve_elf(elf_data@, io_end) == Ok::<Seq<SymbolView>, ResolveFault>(
                symbol_views(found@),
            ),
            Err(error) => resolve_elf(elf_data@, io_end) == Err::<Seq<SymbolView>, ResolveFault>(
                error@,
            ),
        },
{
    let sections = match read_sections(elf_data) {
        Some(sections) => sections,
        None => {
            return Err(ResolveError::InvalidObject);
        },
    };
    let symbols = match read_symbols(elf_data) {
        Some(symbols) => symbols,
        None => {
            return Err(ResolveError::InvalidObject);
        },
    };
    resolve_symbols(sections.as_slice(), symbols.as_slice(), io_end)
}

impl SectionKind {
    /// The name of the kind.
    pub open spec fn name(self) -> Seq<char> {
        match self {
            SectionKind::Text => "Text"@,
            SectionKind::Data => "Data"@,
            SectionKind::Other => "Other"@,
        }
    }

    /// The name of the kind.
    pub fn label(&self) -> (name: &'static str)
        ensures
            name@ == self.name(),
    {
        match self {
            SectionKind::Text => "Text",
            SectionKind::Data => "Data",
            SectionKind::Other => "Other",
        }
    }
}

/// The texts one after another, with a comma and a space between two of them.
pub open spec fn listed(texts: Seq<Seq<char>>) -> Seq<char>
    decreases texts.len(),
{
    if texts.len() == 0 {
        Seq::empty()
    } else if texts.len() == 1 {
        texts[0]
    } else {
        listed(texts.drop_last()) + ", "@ + texts.last()
    }
}

impl ResolveFault {
    /// The error in words: it names the kind of section, and the sections
    /// between which there is no telling.
    pub open spec fn text(self) -> Seq<char> {
        match self {
            ResolveFault::InvalidObject => "the executable is no object file that can be read"@,
            ResolveFault::NoSection { kind } => "there is no ELF section of kind "@ + kind.name(),
            ResolveFault::AmbiguousSection { kind, names } => "there is more than one "@
                + kind.name() + " section (names: "@ + listed(names) + ")"@,
            ResolveFault::AddressOutOfRange { name } => "the symbol '"@ + name
                + "' does not lie at an address of its memory space"@,
        }
    }
}

impl ResolveError {
    /// The error in words.
    pub fn message(&self) -> (message: String)
        ensures
            message@ == self@.text(),
    {
        match self {
            ResolveError::InvalidObject => "the executable is no object file that can be read"
                .to_owned(),
            ResolveError::NoSection { kind } => {
                let mut message = "there is no ELF section of kind ".to_owned();
                message.append(kind.label());
                message
            },
            ResolveError::AmbiguousSection { kind, names } => {
                let mut message = "there is more than one ".to_owned();
                message.append(kind.label());
                message.append(" section (names: ");
                let ghost start = message@;
                let ghost all = self@->AmbiguousSection_names;
                let mut i: usize = 0;
                proof {
                    assert(all.take(0) =~= Seq::<Seq<char>>::empty());
                    assert(message@ =~= start + listed(all.take(0)));
                }
                while i < names.len()
                    invariant
                        i <= names@.len(),
                        all == Seq::new(names@.len(), |k: int| names@[k]@),
                        message@ == start + listed(all.take(i as int)),
                    decreases names@.len() - i,
                {
                    proof {
                        assert(all.take(i + 1).drop_last() =~= all.take(i as int));
                        assert(all.take(i + 1).last() == names@[i as int]@);
                    }
                    if i > 0 {
                        message.append(", ");
                    }
                    message.append(names[i].as_str());
                    proof {
                        if i > 0 {
                            assert(message@ =~= start + (listed(all.take(i as int)) + ", "@
                                + names@[i as int]@));
                        } else {
                            assert(listed(all.take(0)) =~= Seq::<char>::empty());
                            assert(message@ =~= start + names@[i as int]@);
                        }
                    }
                    i += 1;
                }
                message.append(")");
                proof {
                    assert(all.take(names@.len() as int) =~= all);
                }
                message
            },
            ResolveError::AddressOutOfRange { name } => {
                let mut message = "the symbol '".to_owned();
                message.append(name.as_str());
                message.append("' does not lie at an address of its memory space");
                message
            },
        }
    }
}

} // verus!
