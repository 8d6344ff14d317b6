//! The reports on watches: their values at one time, and what changed in a cycle.

use vstd::prelude::*;
use vstd::string::*;
use crate::avr_print::{consumed, Config, PrintError};
use crate::command_line::{all_wf, CommandLine};
use crate::error::WatchError;
use crate::evaluate::value_of;
use crate::machine::MachineState;
use crate::mcu::{State, Step};
use crate::report::{dump_value, heading_lines, print_heading, texts_of, value_lines};
use crate::snapshot::{
    changed, failed, failure_views, get_changed_watches, get_current_values, same_watches,
    sampled, Failure, SampleView, Snapshot,
};
use crate::symbols::{symbol_views, SymbolView, WatchableSymbol};
use crate::text::{number_text, push_number};
use crate::watch::{watch_views, Watch, WatchView};

verus! {

/// The lines of a report, and the watches that had no value.
#[derive(Debug, PartialEq, Eq)]
pub struct Report {
    pub lines: Vec<String>,
    pub failures: Vec<Failure>,
}

/// A label with a space in place of each underscore.
pub open spec fn spaced(label: Seq<char>) -> Seq<char> {
    Seq::new(
        label.len(),
        |i: int|
            if label[i] == '_' {
                ' '
            } else {
                label[i]
            },
    )
}

/// The lines that show the value of a watch; none where it has no value.
pub open spec fn watch_lines(
    label: Seq<char>,
    watch: WatchView,
    machine: MachineState,
    symbols: Seq<SymbolView>,
) -> Seq<Seq<char>> {
    match value_of(watch, machine, symbols) {
        Ok(value) => value_lines(label, watch.location(), value.text()),
        Err(_) => Seq::empty(),
    }
}

/// The lines that show the values of watches, one watch after another.
pub open spec fn watches_lines(
    label: Seq<char>,
    watches: Seq<WatchView>,
    machine: MachineState,
    symbols: Seq<SymbolView>,
) -> Seq<Seq<char>>
    decreases watches.len(),
{
    if watches.len() == 0 {
        Seq::empty()
    } else {
        watches_lines(label, watches.drop_last(), machine, symbols) + watch_lines(
            label,
            watches.last(),
            machine,
            symbols,
        )
    }
}

/// The report on the values of a list of watches: nothing for an empty
/// list, else a heading and the lines of the watches.
pub open spec fn values_report(
    label: Seq<char>,
    watches: Seq<WatchView>,
    machine: MachineState,
    symbols: Seq<SymbolView>,
) -> Seq<Seq<char>> {
    if watches.len() == 0 {
        Seq::empty()
    } else {
        heading_lines("Dumping all "@ + spaced(label)) + watches_lines(
            label,
            watches,
            machine,
            symbols,
        )
    }
}

/// The lines that show samples, one sample after another.
pub open spec fn samples_lines(label: Seq<char>, samples: Seq<SampleView>) -> Seq<Seq<char>>
    decreases samples.len(),
{
    if samples.len() == 0 {
        Seq::empty()
    } else {
        samples_lines(label, samples.drop_last()) + value_lines(
            label,
            samples.last().watch.location(),
            samples.last().value.text(),
        )
    }
}

/// The report on the samples that changed in a cycle: nothing where none
/// changed, else a heading with the number of the cycle and the lines of
/// the samples.
pub open spec fn changes_report(changes: Seq<SampleView>, cycle: u64) -> Seq<Seq<char>> {
    if changes.len() == 0 {
        Seq::empty()
    } else {
        heading_lines("Dumping watches values changed in CPU cycle #"@ + number_text(cycle as nat, 10))
            + samples_lines("changed"@, changes)
    }
}

/// The lines of one run of lines after those of another.
proof fn lemma_texts_of_add(first: Seq<String>, second: Seq<String>)
    ensures
        texts_of(first + second) == texts_of(first) + texts_of(second),
{
    assert(texts_of(first + second) =~= texts_of(first) + texts_of(second));
}

/// A label with a space in place of each underscore.
fn with_spaces(label: &str) -> (text: String)
    ensures
        text@ == spaced(label@),
{
    let length = label.unicode_len();
    let mut text = String::new();
    let mut i: usize = 0;
    while i < length
        invariant
            length == label@.len(),
            i <= length,
            text@ == spaced(label@).take(i as int),
        decreases length - i,
    {
        let c = label.get_char(i);
        if c == '_' {
            text.push(' ');
        } else {
            text.push(c);
        }
        proof {
            assert(text@ =~= spaced(label@).take(i + 1));
        }
        i += 1;
    }
    proof {
        assert(spaced(label@).take(length as int) =~= spaced(label@));
    }
    text
}

/// The lines that show the current value of a watch under a label.
pub fn dump_watch(
    label: &str,
    watch: &Watch,
    watchable_symbols: &[WatchableSymbol],
    machine: &MachineState,
) -> (lines: Result<Vec<String>, WatchError>)
    requires
        watch@.wf(),
    ensures
        match value_of(watch@, *machine, symbol_views(watchable_symbols@)) {
            Ok(value) => lines matches Ok(shown) && texts_of(shown@) == value_lines(
                label@,
                watch@.location(),
                value.text(),
            ),
            Err(fault) => lines matches Err(error) && error@ == fault,
        },
        match lines {
            Ok(shown) => texts_of(shown@) == watch_lines(
                label@,
                watch@,
                *machine,
                symbol_views(watchable_symbols@),
            ),
            Err(_) => watch_lines(label@, watch@, *machine, symbol_views(watchable_symbols@))
                == Seq::<Seq<char>>::empty(),
        },
{
    match watch.current_value(machine, watchable_symbols) {
        Ok(current_value) => Ok(dump_value(label, watch, &current_value)),
        Err(error) => Err(error),
    }
}

/// The report on the current values of a list of watches.
pub fn dump_values(
    label: &str,
    watches: &[Watch],
    watchable_symbols: &[WatchableSymbol],
    machine: &MachineState,
) -> (report: Report)
    requires
        all_wf(watch_views(watches@)),
    ensures
        texts_of(report.lines@) == values_report(
            label@,
            watch_views(watches@),
            *machine,
            symbol_views(watchable_symbols@),
        ),
        failure_views(report.failures@) == failed(
            watch_views(watches@),
            *machine,
            symbol_views(watchable_symbols@),
        ),
{
    let mut lines: Vec<String> = Vec::new();
    let mut failures: Vec<Failure> = Vec::new();
    let ghost symbols = symbol_views(watchable_symbols@);
    proof {
        assert(failure_views(failures@) =~= Seq::<crate::snapshot::FailureView>::empty());
        assert(texts_of(lines@) =~= Seq::<Seq<char>>::empty());
    }
    if watches.len() > 0 {
        let mut heading = "Dumping all ".to_owned();
        heading.append(with_spaces(label).as_str());
        lines = print_heading(heading.as_str());
        let ghost head = texts_of(lines@);
        let mut i: usize = 0;
        proof {
            assert(watch_views(watches@).take(0) =~= Seq::<WatchView>::empty());
            assert(head + Seq::<Seq<char>>::empty() =~= head);
        }
        while i < watches.len()
            invariant
                i <= watches@.len(),
                all_wf(watch_views(watches@)),
                symbols == symbol_views(watchable_symbols@),
                texts_of(lines@) == head + watches_lines(
                    label@,
                    watch_views(watches@).take(i as int),
                    *machine,
                    symbols,
                ),
                failure_views(failures@) == failed(
                    watch_views(watches@).take(i as int),
                    *machine,
                    symbols,
                ),
            decreases watches@.len() - i,
        {
            proof {
                let list = watch_views(watches@);
                assert(list.take(i + 1).drop_last() =~= list.take(i as int));
                assert(list.take(i + 1).last() == watches@[i as int]@);
                assert(list[i as int].wf());
            }
            let ghost lines_before = lines@;
            let ghost failed_before = failure_views(failures@);
            match dump_watch(label, &watches[i], watchable_symbols, machine) {
                Ok(mut shown) => {
                    let ghost added = shown@;
                    lines.append(&mut shown);
                    proof {
                        lemma_texts_of_add(lines_before, added);
                        assert(lines@ =~= lines_before + added);
                        assert(head + watches_lines(
                            label@,
                            watch_views(watches@).take(i as int),
                            *machine,
                            symbols,
                        ) + texts_of(added) =~= head + (watches_lines(
                            label@,
                            watch_views(watches@).take(i as int),
                            *machine,
                            symbols,
                        ) + texts_of(added)));
                    }
                },
                Err(error) => {
                    failures.push(Failure { watch: watches[i].clone(), error });
                    proof {
                        assert(failure_views(failures@) =~= failed_before.push(failure_views(
                            failures@,
                        ).last()));
                        assert(watches_lines(
                            label@,
                            watch_views(watches@).take(i as int),
                            *machine,
                            symbols,
                        ) + Seq::<Seq<char>>::empty() =~= watches_lines(
                            label@,
                            watch_views(watches@).take(i as int),
                            *machine,
                            symbols,
                        ));
                    }
                },
            }
            i += 1;
        }
        proof {
            assert(watch_views(watches@).take(watches@.len() as int) =~= watch_views(watches@));
        }
    } else {
        proof {
            assert(watch_views(watches@) =~= Seq::<WatchView>::empty());
        }
    }
    Report { lines, failures }
}

/// The lines that show samples under a label.
fn dump_samples(label: &str, samples: &Snapshot) -> (lines: Vec<String>)
    requires
        forall|i: int| 0 <= i < samples@.len() ==> (#[trigger] samples@[i]).watch.wf(),
        forall|i: int| 0 <= i < samples@.len() ==> (#[trigger] samples@[i]).value.showable(),
    ensures
        texts_of(lines@) == samples_lines(label@, samples@),
{
    let mut lines: Vec<String> = Vec::new();
    let mut i: usize = 0;
    proof {
        assert(samples@.take(0) =~= Seq::<SampleView>::empty());
        assert(texts_of(lines@) =~= Seq::<Seq<char>>::empty());
    }
    while i < samples.entries.len()
        invariant
            i <= samples.entries@.len(),
            forall|k: int| 0 <= k < samples@.len() ==> (#[trigger] samples@[k]).watch.wf(),
            forall|k: int| 0 <= k < samples@.len() ==> (#[trigger] samples@[k]).value.showable(),
            texts_of(lines@) == samples_lines(label@, samples@.take(i as int)),
        decreases samples.entries@.len() - i,
    {
        proof {
            assert(samples@.take(i + 1).drop_last() =~= samples@.take(i as int));
            assert(samples@.take(i + 1).last() == samples@[i as int]);
            assert(samples@[i as int].watch.wf());
            assert(samples@[i as int].value.showable());
        }
        let ghost lines_before = lines@;
        let mut shown = dump_value(label, &samples.entries[i].watch, &samples.entries[i].value);
        let ghost added = shown@;
        lines.append(&mut shown);
        proof {
            lemma_texts_of_add(lines_before, added);
            assert(lines@ =~= lines_before + added);
        }
        i += 1;
    }
    proof {
        assert(samples@.take(samples@.len() as int) =~= samples@);
    }
    lines
}

/// Samples the watches that are shown on change, and reports those whose
/// value is not the value in `prior`, which then holds the new samples.
///
/// Where the watches that have a value are not the watches of `prior`,
/// place by place, nothing is reported and `prior` is left as it is.
pub fn dump_onchanged_watches(
    prior: &mut Snapshot,
    command_line: &CommandLine,
    watchable_symbols: &[WatchableSymbol],
    machine: &MachineState,
    current_cycle_number: u64,
) -> (report: Option<Report>)
    requires
        command_line.wf(),
    ensures
        ({
            let current = sampled(
                watch_views(command_line.print_on_change@),
                *machine,
                symbol_views(watchable_symbols@),
            );
            if same_watches(old(prior)@, current) {
                &&& report matches Some(found)
                &&& texts_of(found.lines@) == changes_report(
                    changed(old(prior)@, current),
                    current_cycle_number,
                )
                &&& failure_views(found.failures@) == failed(
                    watch_views(command_line.print_on_change@),
                    *machine,
                    symbol_views(watchable_symbols@),
                )
                &&& final(prior)@ == current
                &&& final(prior).wf()
            } else {
                &&& report is None
                &&& *final(prior) == *old(prior)
            }
        }),
{
    let current = get_current_values(
        command_line.print_on_change.as_slice(),
        watchable_symbols,
        machine,
    );
    if !prior.same_watches_as(&current.values) {
        return None;
    }
    let changes = get_changed_watches(prior, &current.values);
    let mut lines: Vec<String> = Vec::new();
    proof {
        assert(texts_of(lines@) =~= Seq::<Seq<char>>::empty());
        let list = watch_views(command_line.print_on_change@);
        assert forall|k: int| 0 <= k < changes@.len() implies (#[trigger] changes@[k]).watch.wf()
            && changes@[k].value.showable() by {
            let sample = changes@[k];
            assert(current.values@.contains(sample));
            let at = choose|at: int| 0 <= at < current.values@.len() && current.values@[at] == sample;
            assert(list.contains(current.values@[at].watch));
            let from = choose|from: int| 0 <= from < list.len() && list[from] == sample.watch;
            assert(list[from].wf());
        }
    }
    if !changes.is_empty() {
        let mut heading = "Dumping watches values changed in CPU cycle #".to_owned();
        push_number(&mut heading, current_cycle_number as u128, 10);
        lines = print_heading(heading.as_str());
        let ghost head = lines@;
        let mut shown = dump_samples("changed", &changes);
        let ghost added = shown@;
        lines.append(&mut shown);
        proof {
            lemma_texts_of_add(head, added);
            assert(lines@ =~= head + added);
        }
    }
    *prior = current.values;
    Some(Report { lines, failures: current.failures })
}

/// What one cycle of the run has brought.
#[derive(Debug, PartialEq, Eq)]
pub struct Cycle {
    /// The report on the watches whose values changed; `None` where the
    /// watches that have a value are not those of the cycle before.
    pub report: Option<Report>,
    /// The character that the program printed, where it printed one.
    pub printed: Result<Option<char>, PrintError>,
    /// What the run does next.
    pub step: Step,
}

/// What follows a cycle of the simulator, in this order: the watches that
/// are shown on change are sampled and compared, then the byte that waits
/// in the mailbox is taken, and last it is settled how the run goes on.
///
/// The watches are sampled before the byte is taken, so that they see the
/// mailbox as the program left it. Without a mailbox nothing is printed and
/// the machine is left as it is.
pub fn after_cycle(
    prior: &mut Snapshot,
    print_config: &Option<Config>,
    command_line: &CommandLine,
    watchable_symbols: &[WatchableSymbol],
    machine: &mut MachineState,
    current_cycle_number: u64,
    sim_state: State,
) -> (cycle: Cycle)
    requires
        command_line.wf(),
    ensures
        cycle.step == sim_state.next_step(),
        final(machine).ports == old(machine).ports,
        ({
            let current = sampled(
                watch_views(command_line.print_on_change@),
                *old(machine),
                symbol_views(watchable_symbols@),
            );
            if same_watches(old(prior)@, current) {
                &&& cycle.report matches Some(found)
                &&& texts_of(found.lines@) == changes_report(
                    changed(old(prior)@, current),
                    current_cycle_number,
                )
                &&& failure_views(found.failures@) == failed(
                    watch_views(command_line.print_on_change@),
                    *old(machine),
                    symbol_views(watchable_symbols@),
                )
                &&& final(prior)@ == current
                &&& final(prior).wf()
            } else {
                &&& cycle.report is None
                &&& *final(prior) == *old(prior)
            }
        }),
        match print_config {
            Some(config) => match consumed(
                config.symbol_for_send_buffer.address.address as int,
                config.symbol_for_send_buffer_flags.address.address as int,
                old(machine).data@,
            ) {
                Ok((Some(byte), data)) => cycle.printed == Ok::<Option<char>, PrintError>(
                    Some(byte as char),
                ) && final(machine).data@ == data,
                Ok((None, data)) => cycle.printed == Ok::<Option<char>, PrintError>(None) && final(machine).data@ == data,
                Err(error) => cycle.printed == Err::<Option<char>, PrintError>(error) && final(machine).data@ == old(machine).data@,
            },
            None => cycle.printed == Ok::<Option<char>, PrintError>(None) && *final(machine) == *old(machine),
        },
{
    let report = dump_onchanged_watches(
        prior,
        command_line,
        watchable_symbols,
        machine,
        current_cycle_number,
    );
    let printed = match print_config {
        Some(config) => config.consume_character(machine),
        None => Ok(None),
    };
    Cycle { report, printed, step: sim_state.step() }
}

} // verus!
