use avr_sim::elf::{
    fetch_only_section_of_kind, parse_watchable_symbols_from_elf, resolve_symbols, ElfSection,
    ElfSymbol, ResolveError, SectionKind,
};
use avr_sim::pointer::Pointer;
use avr_sim::space::MemorySpace;
use avr_sim::symbols::WatchableSymbol;
use object::write::{Object, StandardSection, Symbol, SymbolSection};
use object::{Architecture, BinaryFormat, Endianness, SymbolFlags, SymbolKind, SymbolScope};

fn named(name: &str, value: u64, kind: SymbolKind, section: SymbolSection) -> Symbol {
    Symbol {
        name: name.as_bytes().to_vec(),
        value,
        size: 1,
        kind,
        scope: SymbolScope::Linkage,
        weak: false,
        section,
        flags: SymbolFlags::None,
    }
}

fn executable(second_data_section: bool, text_section: bool) -> Vec<u8> {
    let mut object = Object::new(BinaryFormat::Elf, Architecture::Avr, Endianness::Little);
    let data = object.section_id(StandardSection::Data);
    object.append_section_data(data, &[0; 8], 1);
    object.add_symbol(named("counter", 2, SymbolKind::Data, SymbolSection::Section(data)));
    object.add_symbol(named("  padded ", 5, SymbolKind::Data, SymbolSection::Section(data)));
    object.add_symbol(named("outside", 0, SymbolKind::Data, SymbolSection::Undefined));
    let read_only = object.section_id(StandardSection::ReadOnlyData);
    object.append_section_data(read_only, &[0; 4], 1);
    object.add_symbol(named("constant", 1, SymbolKind::Data, SymbolSection::Section(read_only)));
    if text_section {
        let text = object.section_id(StandardSection::Text);
        object.append_section_data(text, &[0; 16], 1);
        object.add_symbol(named("main", 4, SymbolKind::Text, SymbolSection::Section(text)));
    }
    if second_data_section {
        let more = object.add_section(Vec::new(), b".more_data".to_vec(), object::SectionKind::Data);
        object.append_section_data(more, &[0; 4], 1);
    }
    object.write().unwrap()
}

fn watchable(name: &str, memory_space: MemorySpace, address: u32) -> WatchableSymbol {
    WatchableSymbol {
        name: name.to_owned(),
        memory_space,
        address: Pointer { address, natural_radix: 16 },
    }
}

#[test]
fn symbols_of_text_and_data_are_placed() {
    let mut symbols = parse_watchable_symbols_from_elf(&executable(false, true), 0xff).unwrap();
    symbols.sort();
    assert_eq!(
        symbols,
        vec![
            watchable("counter", MemorySpace::Data, 0x100 + 2),
            watchable("main", MemorySpace::Program, 4),
            watchable("padded", MemorySpace::Data, 0x100 + 5),
        ]
    );
    let mut shifted = parse_watchable_symbols_from_elf(&executable(false, true), 0x5f).unwrap();
    shifted.sort();
    assert_eq!(shifted[0], watchable("counter", MemorySpace::Data, 0x60 + 2));
    assert_eq!(shifted[1], watchable("main", MemorySpace::Program, 4));
}

#[test]
fn an_executable_needs_one_text_and_one_data_section() {
    assert_eq!(
        parse_watchable_symbols_from_elf(&executable(false, false), 0xff),
        Err(ResolveError::NoSection { kind: SectionKind::Text })
    );
    assert_eq!(
        parse_watchable_symbols_from_elf(&executable(true, true), 0xff),
        Err(ResolveError::AmbiguousSection {
            kind: SectionKind::Data,
            names: vec![".data".to_owned(), ".more_data".to_owned()],
        })
    );
}

#[test]
fn bytes_that_are_no_object_file_are_an_error() {
    assert_eq!(parse_watchable_symbols_from_elf(&[], 0xff), Err(ResolveError::InvalidObject));
    assert_eq!(
        parse_watchable_symbols_from_elf(b"not an executable at all", 0xff),
        Err(ResolveError::InvalidObject)
    );
}

fn section(name: &str, kind: SectionKind, index: usize, address: u64) -> ElfSection {
    ElfSection { name: name.to_owned(), kind, index, address }
}

fn elf_symbol(name: Option<&str>, section_index: Option<usize>, address: u64) -> ElfSymbol {
    ElfSymbol { name: name.map(str::to_owned), section_index, address }
}

#[test]
fn the_one_section_of_a_kind_is_found() {
    let sections = vec![
        section("", SectionKind::Other, 0, 0),
        section(".text", SectionKind::Text, 1, 0),
        section(".data", SectionKind::Data, 2, 0x800100),
        section(".data.more", SectionKind::Data, 3, 0x800200),
        section(".bss", SectionKind::Other, 4, 0x800300),
    ];
    assert_eq!(fetch_only_section_of_kind(SectionKind::Text, &sections), Ok(&sections[1]));
    assert_eq!(
        fetch_only_section_of_kind(SectionKind::Data, &sections),
        Err(ResolveError::AmbiguousSection {
            kind: SectionKind::Data,
            names: vec![".data".to_owned(), ".data.more".to_owned()],
        })
    );
    assert_eq!(
        fetch_only_section_of_kind(SectionKind::Text, &sections[2..]),
        Err(ResolveError::NoSection { kind: SectionKind::Text })
    );
    assert_eq!(
        fetch_only_section_of_kind(SectionKind::Data, &[]),
        Err(ResolveError::NoSection { kind: SectionKind::Data })
    );
}

#[test]
fn addresses_are_counted_from_the_start_of_the_memory_space() {
    let sections = vec![
        section(".text", SectionKind::Text, 1, 0x40),
        section(".data", SectionKind::Data, 2, 0x800100),
        section(".bss", SectionKind::Other, 3, 0x800200),
    ];
    let symbols = vec![
        elf_symbol(Some("main"), Some(1), 0x48),
        elf_symbol(None, Some(1), 0x50),
        elf_symbol(Some(""), Some(2), 0x800100),
        elf_symbol(Some(" \t"), Some(2), 0x800100),
        elf_symbol(Some("table"), Some(2), 0x800110),
        elf_symbol(Some("zeroed"), Some(3), 0x800200),
        elf_symbol(Some("absolute"), None, 7),
        elf_symbol(Some(" first "), Some(2), 0x800100),
    ];
    assert_eq!(
        resolve_symbols(&sections, &symbols, 0xff),
        Ok(vec![
            watchable("main", MemorySpace::Program, 8),
            watchable("table", MemorySpace::Data, 0x100 + 0x10),
            watchable("first", MemorySpace::Data, 0x100),
        ])
    );
    assert_eq!(
        resolve_symbols(&sections, &symbols[..1], u16::MAX),
        Ok(vec![watchable("main", MemorySpace::Program, 8)])
    );
    assert_eq!(
        resolve_symbols(&sections, &symbols[4..5], u16::MAX),
        Ok(vec![watchable("table", MemorySpace::Data, 0x10000 + 0x10)])
    );
}

#[test]
fn a_symbol_outside_the_address_range_is_an_error() {
    let sections = vec![
        section(".text", SectionKind::Text, 1, 0x40),
        section(".data", SectionKind::Data, 2, 0x800100),
    ];
    let before = vec![elf_symbol(Some("ok"), Some(1), 0x40), elf_symbol(Some("early"), Some(1), 0x3f)];
    assert_eq!(
        resolve_symbols(&sections, &before, 0xff),
        Err(ResolveError::AddressOutOfRange { name: "early".to_owned() })
    );
    let last = 0x800100 + u32::MAX as u64 - 0x100;
    assert_eq!(
        resolve_symbols(&sections, &[elf_symbol(Some("last"), Some(2), last)], 0xff),
        Ok(vec![watchable("last", MemorySpace::Data, u32::MAX)])
    );
    assert_eq!(
        resolve_symbols(&sections, &[elf_symbol(Some("far"), Some(2), last + 1)], 0xff),
        Err(ResolveError::AddressOutOfRange { name: "far".to_owned() })
    );
    assert_eq!(
        resolve_symbols(&sections, &[elf_symbol(Some("huge"), Some(1), u64::MAX)], 0xff),
        Err(ResolveError::AddressOutOfRange { name: "huge".to_owned() })
    );
}
