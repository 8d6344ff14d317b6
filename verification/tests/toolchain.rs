use avr_sim::elf::{ResolveError, SectionKind};
use avr_sim::toolchain::{all_compiler_flags, insert_constants, Compiler, Constants};

#[test]
fn every_compiler_gets_the_common_flags() {
    assert_eq!(
        all_compiler_flags(&[]),
        vec!["-mmcu=atmega328p", "-Isrc/libavrlit/stdlib", "-std=c++11", "-ffunction-sections", "-g"]
    );
    assert_eq!(
        all_compiler_flags(&["-target", "avr-unknown-unknown", "--verbose", "-O"]),
        vec![
            "-mmcu=atmega328p",
            "-Isrc/libavrlit/stdlib",
            "-std=c++11",
            "-ffunction-sections",
            "-g",
            "-target",
            "avr-unknown-unknown",
            "--verbose",
            "-O",
        ]
    );
}

#[test]
fn constants_name_the_compilers_and_their_flags() {
    let compiler = Compiler {
        cc: "/usr/bin/avr-gcc".to_owned(),
        cxx: "/usr/bin/avr-g++".to_owned(),
        compiler_flags: all_compiler_flags(&["-O"]),
    };
    let mut constants = Constants::new();
    constants.insert("kept".to_owned(), "value".to_owned());
    constants.insert("cc".to_owned(), "another compiler".to_owned());
    insert_constants(&mut constants, &compiler);
    let flags = "-mmcu=atmega328p -Isrc/libavrlit/stdlib -std=c++11 -ffunction-sections -g -O";
    assert_eq!(flags, compiler.compiler_flags.join(" "));
    assert_eq!(constants.len(), 5);
    assert_eq!(constants.get("kept"), Some(&"value".to_owned()));
    assert_eq!(constants.get("cc"), Some(&"/usr/bin/avr-gcc".to_owned()));
    assert_eq!(constants.get("cflags"), Some(&flags.to_owned()));
    assert_eq!(constants.get("cxx"), Some(&"/usr/bin/avr-g++".to_owned()));
    assert_eq!(constants.get("cxxflags"), Some(&flags.to_owned()));
    assert_eq!(constants.get("ld"), None);

    let bare = Compiler { cc: "cc".to_owned(), cxx: "c++".to_owned(), compiler_flags: vec![] };
    let mut constants = Constants::new();
    insert_constants(&mut constants, &bare);
    assert_eq!(constants.len(), 4);
    assert_eq!(constants.get("cflags"), Some(&"".to_owned()));
    assert_eq!(constants.get("cxx"), Some(&"c++".to_owned()));
}

#[test]
fn section_errors_name_the_kind_and_the_candidates() {
    assert_eq!(
        ResolveError::NoSection { kind: SectionKind::Text }.message(),
        "there is no ELF section of kind Text"
    );
    assert_eq!(
        ResolveError::AmbiguousSection {
            kind: SectionKind::Data,
            names: vec![".data".to_owned(), ".data1".to_owned(), "".to_owned()],
        }
        .message(),
        "there is more than one Data section (names: .data, .data1, )"
    );
    assert_eq!(
        ResolveError::AmbiguousSection { kind: SectionKind::Other, names: vec!["x".to_owned()] }
            .message(),
        "there is more than one Other section (names: x)"
    );
    assert_eq!(
        ResolveError::AddressOutOfRange { name: "far".to_owned() }.message(),
        "the symbol 'far' does not lie at an address of its memory space"
    );
    assert_eq!(
        ResolveError::InvalidObject.message(),
        "the executable is no object file that can be read"
    );
}
