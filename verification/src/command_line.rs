//! The watch lists of a run, and how they are settled at startup.

use vstd::prelude::*;
use vstd::string::*;
use crate::error::{missing_symbol_message, missing_symbol_text, ParseError, ParseFault};
use crate::order::{lemma_precedes_total, lemma_precedes_transitive};
use crate::report::texts_of;
use crate::symbols::{find_symbol, has_symbol, symbol_views, SymbolView, WatchableSymbol};
use crate::watch::{parse_watch, parse_watch_text, watch_views, Watch, WatchView};

verus! {

/// The port of the debug server where none is given.
pub const DEFAULT_GDB_PORT: u16 = 1234;

/// The three lists of watches of a run.
#[derive(Debug, PartialEq, Eq)]
pub struct CommandLine {
    /// The path of the executable, where one was given.
    pub executable_path: Option<String>,
    /// The watches that are shown once, before the program runs.
    pub print_before: Vec<Watch>,
    /// The watches that are shown whenever their value has changed.
    pub print_on_change: Vec<Watch>,
    /// The watches that are shown once, after the program has run.
    pub print_after: Vec<Watch>,
    /// The port of the debug server, where one is wanted.
    pub gdb_server_port: Option<u16>,
}

/// What the user gave: for each option the texts that came with it.
#[derive(Debug, PartialEq, Eq)]
pub struct Arguments {
    /// Watches for every list.
    pub watch: Vec<String>,
    pub print_before: Vec<String>,
    pub print_on_change: Vec<String>,
    pub print_after: Vec<String>,
    /// Watches for the list shown before and the list shown after.
    pub print_before_after: Vec<String>,
    pub executable_path: Option<String>,
    /// Whether the debug server is wanted.
    pub gdb: bool,
}

/// The watches that the texts ask for, one text after another, or the
/// fault of the first text that is no watch.
pub open spec fn parse_all(texts: Seq<Seq<char>>) -> Result<Seq<WatchView>, ParseFault>
    decreases texts.len(),
{
    if texts.len() == 0 {
        Ok(Seq::empty())
    } else {
        match parse_all(texts.drop_last()) {
            Err(fault) => Err(fault),
            Ok(watches) => match parse_watch_text(texts.last()) {
                Err(fault) => Err(fault),
                Ok(more) => Ok(watches + more),
            },
        }
    }
}

/// The lists that the arguments ask for, in views: the watches for the list
/// shown before, for the list shown on change, and for the list shown after.
/// The options are read in the order `watch`, `print_before_after`,
/// `print_before`, `print_after`, `print_on_change`, and the first fault ends
/// the reading.
pub open spec fn lists_of(
    watch: Seq<Seq<char>>,
    print_before_after: Seq<Seq<char>>,
    print_before: Seq<Seq<char>>,
    print_after: Seq<Seq<char>>,
    print_on_change: Seq<Seq<char>>,
) -> Result<(Seq<WatchView>, Seq<WatchView>, Seq<WatchView>), ParseFault> {
    match parse_all(watch) {
        Err(fault) => Err(fault),
        Ok(everything) => match parse_all(print_before_after) {
            Err(fault) => Err(fault),
            Ok(before_after) => match parse_all(print_before) {
                Err(fault) => Err(fault),
                Ok(before) => match parse_all(print_after) {
                    Err(fault) => Err(fault),
                    Ok(after) => match parse_all(print_on_change) {
                        Err(fault) => Err(fault),
                        Ok(on_change) => Ok(
                            (
                                before + (before_after + everything),
                                on_change + everything,
                                after + (before_after + everything),
                            ),
                        ),
                    },
                },
            },
        },
    }
}

/// Whether the watch names a symbol that the executable does not define.
pub open spec fn unresolved(watch: WatchView, symbols: Seq<SymbolView>) -> bool {
    watch matches WatchView::Symbol { name, .. } && !has_symbol(symbols, name)
}

/// The watches of a list that are not unresolved, in their order.
pub open spec fn resolved_of(watches: Seq<WatchView>, symbols: Seq<SymbolView>) -> Seq<WatchView>
    decreases watches.len(),
{
    if watches.len() == 0 {
        Seq::empty()
    } else if unresolved(watches.last(), symbols) {
        resolved_of(watches.drop_last(), symbols)
    } else {
        resolved_of(watches.drop_last(), symbols).push(watches.last())
    }
}

/// Whether the watches stand in their order, each once.
pub open spec fn in_order(watches: Seq<WatchView>) -> bool {
    forall|i: int, j: int|
        0 <= i < j < watches.len() ==> (#[trigger] watches[i]).precedes(#[trigger] watches[j])
}

/// The number of watches at the start that come before `watch`.
pub open spec fn place_of(watches: Seq<WatchView>, watch: WatchView) -> int
    decreases watches.len(),
{
    if watches.len() == 0 {
        0
    } else if watches[0].precedes(watch) {
        1 + place_of(watches.skip(1), watch)
    } else {
        0
    }
}

/// The watches with one more at its place in the order, unless it is there.
pub open spec fn with_watch(watches: Seq<WatchView>, watch: WatchView) -> Seq<WatchView> {
    let place = place_of(watches, watch);
    if place < watches.len() && watches[place] == watch {
        watches
    } else {
        watches.insert(place, watch)
    }
}

/// The unresolved watches of a list, in their order, each once.
pub open spec fn unresolved_of(watches: Seq<WatchView>, symbols: Seq<SymbolView>) -> Seq<WatchView>
    decreases watches.len(),
{
    if watches.len() == 0 {
        Seq::empty()
    } else if unresolved(watches.last(), symbols) {
        with_watch(unresolved_of(watches.drop_last(), symbols), watches.last())
    } else {
        unresolved_of(watches.drop_last(), symbols)
    }
}

/// The watches that are shown at some time, list after list.
pub open spec fn all_watches(before: Seq<WatchView>, after: Seq<WatchView>, on_change: Seq<WatchView>) -> Seq<
    WatchView,
> {
    before + after + on_change
}

/// What is said of each of the watches, all of them symbol watches.
pub open spec fn warnings_of(watches: Seq<WatchView>) -> Seq<Seq<char>> {
    Seq::new(watches.len(), |i: int| missing_symbol_text(watches[i]->Symbol_name))
}

/// `place_of` lies within the watches: the watches before it come before
/// `watch`, and the watch at it does not.
pub proof fn lemma_place_of(watches: Seq<WatchView>, watch: WatchView)
    ensures
        0 <= place_of(watches, watch) <= watches.len(),
        forall|j: int| 0 <= j < place_of(watches, watch) ==> (#[trigger] watches[j]).precedes(watch),
        place_of(watches, watch) < watches.len() ==> !watches[place_of(watches, watch)].precedes(
            watch,
        ),
    decreases watches.len(),
{
    if watches.len() > 0 && watches[0].precedes(watch) {
        let tail = watches.skip(1);
        lemma_place_of(tail, watch);
        assert forall|j: int| 0 <= j < place_of(watches, watch) implies (
        #[trigger] watches[j]).precedes(watch) by {
            if j > 0 {
                assert(tail[j - 1] == watches[j]);
            }
        }
    }
}

/// Watches in order are still in order with one more.
pub proof fn lemma_with_watch_in_order(watches: Seq<WatchView>, watch: WatchView)
    requires
        in_order(watches),
    ensures
        in_order(with_watch(watches, watch)),
{
    let place = place_of(watches, watch);
    let result = with_watch(watches, watch);
    lemma_place_of(watches, watch);
    if !(place < watches.len() && watches[place] == watch) {
        assert forall|i: int, j: int| 0 <= i < j < result.len() implies (
        #[trigger] result[i]).precedes(#[trigger] result[j]) by {
            if j == place {
                assert(result[i] == watches[i]);
            } else if i == place {
                assert(result[j] == watches[j - 1]);
                lemma_precedes_total(watches[place], watch);
                if j - 1 > place {
                    lemma_precedes_transitive(watch, watches[place], watches[j - 1]);
                }
            } else {
                let from_i = if i < place {
                    i
                } else {
                    i - 1
                };
                let from_j = if j < place {
                    j
                } else {
                    j - 1
                };
                assert(result[i] == watches[from_i]);
                assert(result[j] == watches[from_j]);
            }
        }
    }
}

/// What is among the watches with one more: the new one and the old ones.
pub proof fn lemma_with_watch_contains(watches: Seq<WatchView>, watch: WatchView, other: WatchView)
    ensures
        with_watch(watches, watch).contains(other) <==> other == watch || watches.contains(other),
{
    let place = place_of(watches, watch);
    let result = with_watch(watches, watch);
    lemma_place_of(watches, watch);
    if place < watches.len() && watches[place] == watch {
    } else {
        assert(result[place] == watch);
        if result.contains(other) && other != watch {
            let k = choose|k: int| 0 <= k < result.len() && result[k] == other;
            let from = if k < place {
                k
            } else {
                k - 1
            };
            assert(watches[from] == other);
        }
        if watches.contains(other) {
            let k = choose|k: int| 0 <= k < watches.len() && watches[k] == other;
            let to = if k < place {
                k
            } else {
                k + 1
            };
            assert(result[to] == other);
        }
    }
}

/// The unresolved watches of a list stand in order, each once, and they
/// are the watches of the list that are unresolved.
pub proof fn lemma_unresolved_of(watches: Seq<WatchView>, symbols: Seq<SymbolView>)
    ensures
        in_order(unresolved_of(watches, symbols)),
        forall|watch: WatchView|
            unresolved_of(watches, symbols).contains(watch) <==> watches.contains(watch)
                && unresolved(watch, symbols),
    decreases watches.len(),
{
    if watches.len() > 0 {
        let front = watches.drop_last();
        let last = watches.last();
        lemma_unresolved_of(front, symbols);
        let before = unresolved_of(front, symbols);
        if unresolved(last, symbols) {
            lemma_with_watch_in_order(before, last);
        }
        assert forall|watch: WatchView|
            unresolved_of(watches, symbols).contains(watch) <==> watches.contains(watch)
                && unresolved(watch, symbols) by {
            if unresolved(last, symbols) {
                lemma_with_watch_contains(before, last, watch);
            }
            if front.contains(watch) {
                let k = choose|k: int| 0 <= k < front.len() && front[k] == watch;
                assert(watches[k] == watch);
            }
            if watches.contains(watch) {
                let k = choose|k: int| 0 <= k < watches.len() && watches[k] == watch;
                if k < front.len() {
                    assert(front[k] == watch);
                }
            }
            assert(watches[watches.len() - 1] == last);
        }
    } else {
        assert forall|watch: WatchView|
            unresolved_of(watches, symbols).contains(watch) <==> watches.contains(watch)
                && unresolved(watch, symbols) by {
            assert(!unresolved_of(watches, symbols).contains(watch));
            assert(!watches.contains(watch));
        }
    }
}

/// No unresolved watch is left among the resolved ones, and resolving
/// again changes nothing and finds no unresolved watch.
pub proof fn lemma_resolved_once(watches: Seq<WatchView>, symbols: Seq<SymbolView>)
    ensures
        forall|i: int|
            0 <= i < resolved_of(watches, symbols).len() ==> !unresolved(
                #[trigger] resolved_of(watches, symbols)[i],
                symbols,
            ),
        resolved_of(resolved_of(watches, symbols), symbols) == resolved_of(watches, symbols),
        unresolved_of(resolved_of(watches, symbols), symbols) == Seq::<WatchView>::empty(),
    decreases watches.len(),
{
    if watches.len() > 0 {
        lemma_resolved_once(watches.drop_last(), symbols);
        if !unresolved(watches.last(), symbols) {
            let kept = resolved_of(watches.drop_last(), symbols);
            assert(kept.push(watches.last()).drop_last() =~= kept);
        }
    }
}

/// Reads the watches that the texts ask for.
pub fn parse_watches(texts: &[String]) -> (watches: Result<Vec<Watch>, ParseError>)
    ensures
        match watches {
            Ok(found) => parse_all(texts_of(texts@)) == Ok::<Seq<WatchView>, ParseFault>(
                watch_views(found@),
            ) && forall|i: int| 0 <= i < found@.len() ==> (#[trigger] found@[i])@.wf(),
            Err(error) => parse_all(texts_of(texts@)) == Err::<Seq<WatchView>, ParseFault>(error@),
        },
{
    let mut found: Vec<Watch> = Vec::new();
    let mut i: usize = 0;
    proof {
        assert(texts_of(texts@).take(0) =~= Seq::<Seq<char>>::empty());
        assert(watch_views(found@) =~= Seq::<WatchView>::empty());
    }
    while i < texts.len()
        invariant
            i <= texts@.len(),
            parse_all(texts_of(texts@).take(i as int)) == Ok::<Seq<WatchView>, ParseFault>(
                watch_views(found@),
            ),
            forall|k: int| 0 <= k < found@.len() ==> (#[trigger] found@[k])@.wf(),
        decreases texts@.len() - i,
    {
        proof {
            let all = texts_of(texts@);
            assert(all.take(i + 1).drop_last() =~= all.take(i as int));
            assert(all.take(i + 1).last() == texts@[i as int]@);
        }
        let ghost before = watch_views(found@);
        match parse_watch(texts[i].as_str()) {
            Ok(mut more) => {
                let ghost added = watch_views(more@);
                let ghost old_found = found@;
                let ghost old_more = more@;
                found.append(&mut more);
                proof {
                    assert(found@ =~= old_found + old_more);
                    assert(watch_views(found@) =~= before + added);
                }
            },
            Err(error) => {
                proof {
                    let all = texts_of(texts@);
                    lemma_parse_all_fails(all, i + 1);
                }
                return Err(error);
            },
        }
        i += 1;
    }
    proof {
        assert(texts_of(texts@).take(texts@.len() as int) =~= texts_of(texts@));
    }
    Ok(found)
}

/// Where the texts up to some place hold one that is no watch, the fault of
/// all the texts is the fault of those.
pub proof fn lemma_parse_all_fails(texts: Seq<Seq<char>>, count: int)
    requires
        0 <= count <= texts.len(),
        parse_all(texts.take(count)) is Err,
    ensures
        parse_all(texts) == parse_all(texts.take(count)),
    decreases texts.len() - count,
{
    if count == texts.len() {
        assert(texts.take(count) =~= texts);
    } else {
        assert(texts.take(count + 1).drop_last() =~= texts.take(count));
        lemma_parse_all_fails(texts, count + 1);
    }
}

/// Appends copies of the watches of `more` to `list`.
fn extend_with(list: &mut Vec<Watch>, more: &Vec<Watch>)
    ensures
        watch_views(final(list)@) == watch_views(old(list)@) + watch_views(more@),
{
    let mut i: usize = 0;
    proof {
        assert(watch_views(list@) =~= watch_views(old(list)@) + watch_views(more@).take(0));
    }
    while i < more.len()
        invariant
            i <= more@.len(),
            watch_views(list@) == watch_views(old(list)@) + watch_views(more@).take(i as int),
        decreases more@.len() - i,
    {
        let ghost before = watch_views(list@);
        list.push(more[i].clone());
        proof {
            assert(watch_views(list@) =~= before.push(more@[i as int]@));
            assert(watch_views(list@) =~= watch_views(old(list)@) + watch_views(more@).take(i + 1));
        }
        i += 1;
    }
    proof {
        assert(watch_views(more@).take(more@.len() as int) =~= watch_views(more@));
    }
}

/// Settles the watch lists of a run from what the user gave.
pub fn parse_cmd_line(arguments: Arguments) -> (command_line: Result<CommandLine, ParseError>)
    ensures
        match lists_of(
            texts_of(arguments.watch@),
            texts_of(arguments.print_before_after@),
            texts_of(arguments.print_before@),
            texts_of(arguments.print_after@),
            texts_of(arguments.print_on_change@),
        ) {
            Ok((before, on_change, after)) => command_line matches Ok(found) && watch_views(
                found.print_before@,
            ) == before && watch_views(found.print_on_change@) == on_change && watch_views(
                found.print_after@,
            ) == after && found.executable_path == arguments.executable_path
                && found.gdb_server_port == (if arguments.gdb {
                Some(DEFAULT_GDB_PORT)
            } else {
                None
            }) && found.wf(),
            Err(fault) => command_line matches Err(error) && error@ == fault,
        },
{
    let everything = match parse_watches(arguments.watch.as_slice()) {
        Ok(watches) => watches,
        Err(error) => {
            return Err(error);
        },
    };
    let mut before_after = match parse_watches(arguments.print_before_after.as_slice()) {
        Ok(watches) => watches,
        Err(error) => {
            return Err(error);
        },
    };
    let mut print_before = match parse_watches(arguments.print_before.as_slice()) {
        Ok(watches) => watches,
        Err(error) => {
            return Err(error);
        },
    };
    let mut print_after = match parse_watches(arguments.print_after.as_slice()) {
        Ok(watches) => watches,
        Err(error) => {
            return Err(error);
        },
    };
    let mut print_on_change = match parse_watches(arguments.print_on_change.as_slice()) {
        Ok(watches) => watches,
        Err(error) => {
            return Err(error);
        },
    };
    extend_with(&mut before_after, &everything);
    extend_with(&mut print_before, &before_after);
    extend_with(&mut print_after, &before_after);
    extend_with(&mut print_on_change, &everything);
    let gdb_server_port = if arguments.gdb {
        Some(DEFAULT_GDB_PORT)
    } else {
        None
    };
    let found = CommandLine {
        executable_path: arguments.executable_path,
        print_before,
        print_on_change,
        print_after,
        gdb_server_port,
    };
    proof {
        lemma_views_wf(found.print_before@);
        lemma_views_wf(found.print_on_change@);
        lemma_views_wf(found.print_after@);
    }
    Ok(found)
}

/// Whether each watch of a list can be shown.
pub open spec fn all_wf(watches: Seq<WatchView>) -> bool {
    forall|i: int| 0 <= i < watches.len() ==> (#[trigger] watches[i]).wf()
}

/// What holds of the views of watches holds of the watches.
proof fn lemma_views_wf(watches: Seq<Watch>)
    ensures
        all_wf(watch_views(watches)) <==> forall|i: int|
            0 <= i < watches.len() ==> (#[trigger] watches[i])@.wf(),
{
    if all_wf(watch_views(watches)) {
        assert forall|i: int| 0 <= i < watches.len() implies (#[trigger] watches[i])@.wf() by {
            assert(watch_views(watches)[i].wf());
        }
    }
}

impl CommandLine {
    /// Whether each watch of the three lists can be shown.
    pub open spec fn wf(&self) -> bool {
        &&& all_wf(watch_views(self.print_before@))
        &&& all_wf(watch_views(self.print_on_change@))
        &&& all_wf(watch_views(self.print_after@))
    }
}

/// Whether the watch names a symbol that the executable does not define.
fn is_unresolved(watch: &Watch, watchable_symbols: &[WatchableSymbol]) -> (missing: bool)
    ensures
        missing == unresolved(watch@, symbol_views(watchable_symbols@)),
{
    match watch {
        Watch::Symbol { name, .. } => find_symbol(watchable_symbols, name.as_str()).is_none(),
        _ => false,
    }
}

/// Puts a watch at its place in the order, unless it is there.
fn insert_watch(watches: &mut Vec<Watch>, watch: Watch)
    ensures
        watch_views(final(watches)@) == with_watch(watch_views(old(watches)@), watch@),
{
    let mut place: usize = 0;
    while place < watches.len() && watches[place].precedes(&watch)
        invariant
            place <= watches@.len(),
            *watches == *old(watches),
            forall|j: int|
                0 <= j < place ==> (#[trigger] watch_views(watches@)[j]).precedes(watch@),
        decreases watches@.len() - place,
    {
        place += 1;
    }
    proof {
        lemma_place_of(watch_views(watches@), watch@);
        let spec_place = place_of(watch_views(watches@), watch@);
        if spec_place < place {
            assert(watch_views(watches@)[spec_place].precedes(watch@));
        }
        if place < spec_place {
            assert(watch_views(watches@)[place as int].precedes(watch@));
        }
    }
    if place < watches.len() && watches[place].same_as(&watch) {
    } else {
        let ghost before = watch_views(watches@);
        watches.insert(place, watch);
        proof {
            assert(watch_views(watches@) =~= before.insert(place as int, watch@));
        }
    }
}

/// Adds the unresolved watches of `list` to `missing`.
fn collect_unresolved(
    missing: &mut Vec<Watch>,
    list: &Vec<Watch>,
    watchable_symbols: &[WatchableSymbol],
    Ghost(earlier): Ghost<Seq<WatchView>>,
)
    requires
        watch_views(old(missing)@) == unresolved_of(earlier, symbol_views(watchable_symbols@)),
    ensures
        watch_views(final(missing)@) == unresolved_of(
            earlier + watch_views(list@),
            symbol_views(watchable_symbols@),
        ),
{
    let mut i: usize = 0;
    proof {
        assert(earlier + watch_views(list@).take(0) =~= earlier);
    }
    while i < list.len()
        invariant
            i <= list@.len(),
            watch_views(missing@) == unresolved_of(
                earlier + watch_views(list@).take(i as int),
                symbol_views(watchable_symbols@),
            ),
        decreases list@.len() - i,
    {
        proof {
            let longer = earlier + watch_views(list@).take(i + 1);
            assert(longer.drop_last() =~= earlier + watch_views(list@).take(i as int));
            assert(longer.last() == list@[i as int]@);
        }
        if is_unresolved(&list[i], watchable_symbols) {
            insert_watch(missing, list[i].clone());
        }
        i += 1;
    }
    proof {
        assert(watch_views(list@).take(list@.len() as int) =~= watch_views(list@));
    }
}

/// Leaves in `list` the watches that are not unresolved.
fn retain_resolved(list: &mut Vec<Watch>, watchable_symbols: &[WatchableSymbol])
    ensures
        watch_views(final(list)@) == resolved_of(
            watch_views(old(list)@),
            symbol_views(watchable_symbols@),
        ),
        all_wf(watch_views(old(list)@)) ==> all_wf(watch_views(final(list)@)),
{
    let mut kept: Vec<Watch> = Vec::new();
    let mut i: usize = 0;
    proof {
        assert(watch_views(list@).take(0) =~= Seq::<WatchView>::empty());
        assert(watch_views(kept@) =~= Seq::<WatchView>::empty());
    }
    while i < list.len()
        invariant
            i <= list@.len(),
            *list == *old(list),
            watch_views(kept@) == resolved_of(
                watch_views(list@).take(i as int),
                symbol_views(watchable_symbols@),
            ),
            all_wf(watch_views(list@)) ==> all_wf(watch_views(kept@)),
        decreases list@.len() - i,
    {
        proof {
            let longer = watch_views(list@).take(i + 1);
            assert(longer.drop_last() =~= watch_views(list@).take(i as int));
            assert(longer.last() == list@[i as int]@);
        }
        if !is_unresolved(&list[i], watchable_symbols) {
            let ghost before = watch_views(kept@);
            kept.push(list[i].clone());
            proof {
                assert(watch_views(kept@) =~= before.push(list@[i as int]@));
                if all_wf(watch_views(list@)) {
                    assert(watch_views(list@)[i as int].wf());
                    assert forall|k: int| 0 <= k < watch_views(kept@).len() implies (
                    #[trigger] watch_views(kept@)[k]).wf() by {
                        if k < before.len() {
                            assert(before[k].wf());
                        }
                    }
                }
            }
        }
        i += 1;
    }
    proof {
        assert(watch_views(list@).take(list@.len() as int) =~= watch_views(list@));
    }
    *list = kept;
}

/// Takes the watches on symbols that the executable does not define out of
/// the three lists, and hands back one warning for each of them.
pub fn print_warnings_for_unresolved_watches(
    command_line: &mut CommandLine,
    watchable_symbols: &[WatchableSymbol],
) -> (warnings: Vec<String>)
    ensures
        texts_of(warnings@) == warnings_of(
            unresolved_of(
                all_watches(
                    watch_views(old(command_line).print_before@),
                    watch_views(old(command_line).print_after@),
                    watch_views(old(command_line).print_on_change@),
                ),
                symbol_views(watchable_symbols@),
            ),
        ),
        watch_views(final(command_line).print_before@) == resolved_of(
            watch_views(old(command_line).print_before@),
            symbol_views(watchable_symbols@),
        ),
        watch_views(final(command_line).print_after@) == resolved_of(
            watch_views(old(command_line).print_after@),
            symbol_views(watchable_symbols@),
        ),
        watch_views(final(command_line).print_on_change@) == resolved_of(
            watch_views(old(command_line).print_on_change@),
            symbol_views(watchable_symbols@),
        ),
        final(command_line).executable_path == old(command_line).executable_path,
        final(command_line).gdb_server_port == old(command_line).gdb_server_port,
        old(command_line).wf() ==> final(command_line).wf(),
{
    let ghost symbols = symbol_views(watchable_symbols@);
    let ghost before = watch_views(command_line.print_before@);
    let ghost after = watch_views(command_line.print_after@);
    let ghost on_change = watch_views(command_line.print_on_change@);
    let mut missing: Vec<Watch> = Vec::new();
    proof {
        assert(watch_views(missing@) =~= Seq::<WatchView>::empty());
        assert(Seq::<WatchView>::empty() + before =~= before);
    }
    collect_unresolved(
        &mut missing,
        &command_line.print_before,
        watchable_symbols,
        Ghost(Seq::empty()),
    );
    collect_unresolved(&mut missing, &command_line.print_after, watchable_symbols, Ghost(before));
    collect_unresolved(
        &mut missing,
        &command_line.print_on_change,
        watchable_symbols,
        Ghost(before + after),
    );
    proof {
        lemma_unresolved_of(all_watches(before, after, on_change), symbols);
    }
    let mut warnings: Vec<String> = Vec::new();
    let mut i: usize = 0;
    while i < missing.len()
        invariant
            i <= missing@.len(),
            watch_views(missing@) == unresolved_of(all_watches(before, after, on_change), symbols),
            forall|watch: WatchView|
                watch_views(missing@).contains(watch) ==> unresolved(watch, symbols),
            warnings@.len() == i,
            forall|k: int|
                0 <= k < i ==> (#[trigger] warnings@[k])@ == warnings_of(watch_views(missing@))[k],
        decreases missing@.len() - i,
    {
        proof {
            assert(watch_views(missing@).contains(watch_views(missing@)[i as int]));
            assert(watch_views(missing@)[i as int] == missing@[i as int]@);
            assert(unresolved(missing@[i as int]@, symbols));
        }
        match &missing[i] {
            Watch::Symbol { name, .. } => {
                warnings.push(missing_symbol_message(name.as_str()));
            },
            _ => {},
        }
        i += 1;
    }
    proof {
        assert(texts_of(warnings@) =~= warnings_of(watch_views(missing@)));
    }
    retain_resolved(&mut command_line.print_before, watchable_symbols);
    retain_resolved(&mut command_line.print_after, watchable_symbols);
    retain_resolved(&mut command_line.print_on_change, watchable_symbols);
    warnings
}

} // verus!
