//! The compilers that build the programs to simulate, and how they are called.

use vstd::prelude::*;
use vstd::string::*;

verus! {

/// A C compiler and its C++ companion.
#[derive(Debug, PartialEq, Eq)]
pub struct Compiler {
    /// The path of the C compiler.
    pub cc: String,
    /// The path of the C++ compiler.
    pub cxx: String,
    /// The flags that both compilers get.
    pub compiler_flags: Vec<&'static str>,
}

/// The flags that every compiler gets.
pub open spec fn common_flags() -> Seq<Seq<char>> {
    seq![
        "-mmcu=atmega328p"@,
        "-Isrc/libavrlit/stdlib"@,
        "-std=c++11"@,
        "-ffunction-sections"@,
        "-g"@,
    ]
}

/// The texts of a run of flags, one for one.
pub open spec fn flag_texts(flags: Seq<&'static str>) -> Seq<Seq<char>> {
    Seq::new(flags.len(), |i: int| flags[i]@)
}

/// The texts one after another, with a space between two of them.
pub open spec fn spaced_out(texts: Seq<Seq<char>>) -> Seq<char>
    decreases texts.len(),
{
    if texts.len() == 0 {
        Seq::empty()
    } else if texts.len() == 1 {
        texts[0]
    } else {
        spaced_out(texts.drop_last()) + " "@ + texts.last()
    }
}

/// The constants of a test run: texts by their names.
pub type Constants = vstd::hash_map::StringHashMap<String>;

/// The constants with those that tell a test how to call the compilers:
/// `cc` and `cxx` name the two compilers, `cflags` and `cxxflags` hold the
/// flags. A constant of one of these names is replaced.
pub open spec fn with_compiler(
    constants: Map<Seq<char>, Seq<char>>,
    cc: Seq<char>,
    cxx: Seq<char>,
    flags: Seq<Seq<char>>,
) -> Map<Seq<char>, Seq<char>> {
    constants.insert("cc"@, cc).insert("cflags"@, spaced_out(flags)).insert("cxx"@, cxx).insert(
        "cxxflags"@,
        spaced_out(flags),
    )
}

/// The texts of constants, by their names.
pub open spec fn constant_texts(constants: Map<Seq<char>, String>) -> Map<Seq<char>, Seq<char>> {
    Map::new(|name: Seq<char>| constants.contains_key(name), |name: Seq<char>| constants[name]@)
}

/// The flags that every compiler gets, and after them `other_flags`.
pub fn all_compiler_flags(other_flags: &[&'static str]) -> (flags: Vec<&'static str>)
    ensures
        flag_texts(flags@) == common_flags() + flag_texts(other_flags@),
{
    let mut flags: Vec<&'static str> = vec![
        "-mmcu=atmega328p",
        "-Isrc/libavrlit/stdlib",
        "-std=c++11",
        "-ffunction-sections",
        "-g",
    ];
    let mut i: usize = 0;
    proof {
        assert(flag_texts(flags@) =~= common_flags() + flag_texts(other_flags@).take(0));
    }
    while i < other_flags.len()
        invariant
            i <= other_flags@.len(),
            flag_texts(flags@) == common_flags() + flag_texts(other_flags@).take(i as int),
        decreases other_flags@.len() - i,
    {
        let ghost before = flag_texts(flags@);
        flags.push(other_flags[i]);
        proof {
            assert(flag_texts(flags@) =~= before.push(other_flags@[i as int]@));
            assert(flag_texts(flags@) =~= common_flags() + flag_texts(other_flags@).take(i + 1));
        }
        i += 1;
    }
    proof {
        assert(flag_texts(other_flags@).take(other_flags@.len() as int) =~= flag_texts(
            other_flags@,
        ));
    }
    flags
}

/// The flags one after another, with a space between two of them.
fn join_flags(flags: &Vec<&'static str>) -> (joined: String)
    ensures
        joined@ == spaced_out(flag_texts(flags@)),
{
    let mut joined = String::new();
    let ghost all = flag_texts(flags@);
    let mut i: usize = 0;
    proof {
        assert(all.take(0) =~= Seq::<Seq<char>>::empty());
    }
    while i < flags.len()
        invariant
            i <= flags@.len(),
            all == flag_texts(flags@),
            joined@ == spaced_out(all.take(i as int)),
        decreases flags@.len() - i,
    {
        proof {
            assert(all.take(i + 1).drop_last() =~= all.take(i as int));
            assert(all.take(i + 1).last() == flags@[i as int]@);
        }
        if i > 0 {
            joined.append(" ");
        }
        joined.append(flags[i]);
        proof {
            if i == 0 {
                assert(spaced_out(all.take(0)) =~= Seq::<char>::empty());
                assert(joined@ =~= flags@[i as int]@);
            }
        }
        i += 1;
    }
    proof {
        assert(all.take(flags@.len() as int) =~= all);
    }
    joined
}

/// Puts in the constants that tell a test how to call the compilers.
pub fn insert_constants(constants: &mut Constants, compiler: &Compiler)
    ensures
        constant_texts(final(constants)@) == with_compiler(
            constant_texts(old(constants)@),
            compiler.cc@,
            compiler.cxx@,
            flag_texts(compiler.compiler_flags@),
        ),
{
    constants.insert("cc".to_owned(), compiler.cc.clone());
    constants.insert("cflags".to_owned(), join_flags(&compiler.compiler_flags));
    constants.insert("cxx".to_owned(), compiler.cxx.clone());
    constants.insert("cxxflags".to_owned(), join_flags(&compiler.compiler_flags));
    proof {
        assert(constant_texts(final(constants)@) =~= with_compiler(
            constant_texts(old(constants)@),
            compiler.cc@,
            compiler.cxx@,
            flag_texts(compiler.compiler_flags@),
        ));
    }
}

} // verus!
