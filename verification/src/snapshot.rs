//! The last values of watches, and what changed since.

use vstd::prelude::*;
use vstd::string::*;
use crate::error::{WatchError, WatchFault};
use crate::evaluate::value_of;
use crate::machine::MachineState;
use crate::order::{lemma_precedes_irreflexive, lemma_precedes_total, lemma_precedes_transitive};
use crate::symbols::{symbol_views, SymbolView, WatchableSymbol};
use crate::value::{WatchState, WatchValue};
use crate::watch::{watch_views, Watch, WatchView};

verus! {

/// A watch with the value that it had.
#[derive(Debug, PartialEq, Eq)]
pub struct Sample {
    pub watch: Watch,
    pub value: WatchState,
}

/// The mathematical value of a `Sample`.
pub ghost struct SampleView {
    pub watch: WatchView,
    pub value: WatchValue,
}

impl View for Sample {
    type V = SampleView;

    open spec fn view(&self) -> SampleView {
        SampleView { watch: self.watch@, value: self.value@ }
    }
}

/// A watch with the reason for which it had no value.
#[derive(Debug, PartialEq, Eq)]
pub struct Failure {
    pub watch: Watch,
    pub error: WatchError,
}

/// The mathematical value of a `Failure`.
pub ghost struct FailureView {
    pub watch: WatchView,
    pub error: WatchFault,
}

impl View for Failure {
    type V = FailureView;

    open spec fn view(&self) -> FailureView {
        FailureView { watch: self.watch@, error: self.error@ }
    }
}

/// The values of a run of samples, one for one.
pub open spec fn sample_views(samples: Seq<Sample>) -> Seq<SampleView> {
    Seq::new(samples.len(), |i: int| samples[i]@)
}

/// The values of a run of failures, one for one.
pub open spec fn failure_views(failures: Seq<Failure>) -> Seq<FailureView> {
    Seq::new(failures.len(), |i: int| failures[i]@)
}

/// Whether the samples stand in the order of their watches, each watch once.
pub open spec fn sorted(samples: Seq<SampleView>) -> bool {
    forall|i: int, j: int|
        0 <= i < j < samples.len() ==> (#[trigger] samples[i]).watch.precedes(
            (#[trigger] samples[j]).watch,
        )
}

/// The number of samples at the start whose watches come before `watch`.
pub open spec fn insertion_point(samples: Seq<SampleView>, watch: WatchView) -> int
    decreases samples.len(),
{
    if samples.len() == 0 {
        0
    } else if samples[0].watch.precedes(watch) {
        1 + insertion_point(samples.skip(1), watch)
    } else {
        0
    }
}

/// The samples with one more: it takes the place of the sample of the same
/// watch, or else its place in the order.
pub open spec fn inserted(samples: Seq<SampleView>, sample: SampleView) -> Seq<SampleView> {
    let place = insertion_point(samples, sample.watch);
    if place < samples.len() && samples[place].watch == sample.watch {
        samples.update(place, sample)
    } else {
        samples.insert(place, sample)
    }
}

/// The samples of the watches that have a value: in the order of the
/// watches, each watch once.
pub open spec fn sampled(watches: Seq<WatchView>, machine: MachineState, symbols: Seq<SymbolView>) -> Seq<
    SampleView,
>
    decreases watches.len(),
{
    if watches.len() == 0 {
        Seq::empty()
    } else {
        let before = sampled(watches.drop_last(), machine, symbols);
        match value_of(watches.last(), machine, symbols) {
            Ok(value) => inserted(before, SampleView { watch: watches.last(), value }),
            Err(_) => before,
        }
    }
}

/// The watches that have no value, in their order in the list, each with
/// the reason.
pub open spec fn failed(watches: Seq<WatchView>, machine: MachineState, symbols: Seq<SymbolView>) -> Seq<
    FailureView,
>
    decreases watches.len(),
{
    if watches.len() == 0 {
        Seq::empty()
    } else {
        let before = failed(watches.drop_last(), machine, symbols);
        match value_of(watches.last(), machine, symbols) {
            Ok(_) => before,
            Err(error) => before.push(FailureView { watch: watches.last(), error }),
        }
    }
}

/// Whether two runs of samples are of the same watches, place by place.
pub open spec fn same_watches(before: Seq<SampleView>, after: Seq<SampleView>) -> bool {
    &&& before.len() == after.len()
    &&& forall|i: int| 0 <= i < after.len() ==> (#[trigger] before[i]).watch == after[i].watch
}

/// Of the first `count` samples of `after`, those whose value is not the
/// value of the sample at the same place of `before`.
pub open spec fn changed_among(before: Seq<SampleView>, after: Seq<SampleView>, count: int) -> Seq<
    SampleView,
>
    decreases count,
{
    if count <= 0 {
        Seq::empty()
    } else {
        let earlier = changed_among(before, after, count - 1);
        if before[count - 1].value != after[count - 1].value {
            earlier.push(after[count - 1])
        } else {
            earlier
        }
    }
}

/// The samples of `after` whose value is not the value in `before`.
pub open spec fn changed(before: Seq<SampleView>, after: Seq<SampleView>) -> Seq<SampleView> {
    changed_among(before, after, after.len() as int)
}

/// `insertion_point` lies within the samples: the watches before it come
/// before `watch`, and the watch at it does not.
pub proof fn lemma_insertion_point(samples: Seq<SampleView>, watch: WatchView)
    ensures
        0 <= insertion_point(samples, watch) <= samples.len(),
        forall|j: int|
            0 <= j < insertion_point(samples, watch) ==> (#[trigger] samples[j]).watch.precedes(
                watch,
            ),
        insertion_point(samples, watch) < samples.len() ==> !samples[insertion_point(
            samples,
            watch,
        )].watch.precedes(watch),
    decreases samples.len(),
{
    if samples.len() > 0 && samples[0].watch.precedes(watch) {
        let tail = samples.skip(1);
        lemma_insertion_point(tail, watch);
        assert forall|j: int| 0 <= j < insertion_point(samples, watch) implies (
        #[trigger] samples[j]).watch.precedes(watch) by {
            if j > 0 {
                assert(tail[j - 1] == samples[j]);
            }
        }
    }
}

/// An index with the watches before it before `watch`, and the watch at it
/// not, is `insertion_point`.
pub proof fn lemma_insertion_point_is(samples: Seq<SampleView>, watch: WatchView, index: int)
    requires
        0 <= index <= samples.len(),
        forall|j: int| 0 <= j < index ==> (#[trigger] samples[j]).watch.precedes(watch),
        index < samples.len() ==> !samples[index].watch.precedes(watch),
    ensures
        insertion_point(samples, watch) == index,
{
    lemma_insertion_point(samples, watch);
}

/// Samples in order are still in order with one more.
pub proof fn lemma_inserted_sorted(samples: Seq<SampleView>, sample: SampleView)
    requires
        sorted(samples),
    ensures
        sorted(inserted(samples, sample)),
{
    let place = insertion_point(samples, sample.watch);
    let result = inserted(samples, sample);
    lemma_insertion_point(samples, sample.watch);
    if place < samples.len() && samples[place].watch == sample.watch {
        assert forall|i: int, j: int| 0 <= i < j < result.len() implies (
        #[trigger] result[i]).watch.precedes((#[trigger] result[j]).watch) by {
            assert(result[i].watch == samples[i].watch);
            assert(result[j].watch == samples[j].watch);
        }
    } else {
        assert forall|i: int, j: int| 0 <= i < j < result.len() implies (
        #[trigger] result[i]).watch.precedes((#[trigger] result[j]).watch) by {
            if j == place {
                assert(result[i] == samples[i]);
            } else if i == place {
                assert(result[j] == samples[j - 1]);
                lemma_precedes_total(samples[place].watch, sample.watch);
                if j - 1 > place {
                    lemma_precedes_transitive(
                        sample.watch,
                        samples[place].watch,
                        samples[j - 1].watch,
                    );
                }
            } else {
                let from_i = if i < place {
                    i
                } else {
                    i - 1
                };
                let from_j = if j < place {
                    j
                } else {
                    j - 1
                };
                assert(result[i] == samples[from_i]);
                assert(result[j] == samples[from_j]);
            }
        }
    }
}

/// The samples of watches are in order.
pub proof fn lemma_sampled_sorted(watches: Seq<WatchView>, machine: MachineState, symbols: Seq<SymbolView>)
    ensures
        sorted(sampled(watches, machine, symbols)),
    decreases watches.len(),
{
    if watches.len() > 0 {
        lemma_sampled_sorted(watches.drop_last(), machine, symbols);
        let before = sampled(watches.drop_last(), machine, symbols);
        if let Ok(value) = value_of(watches.last(), machine, symbols) {
            lemma_inserted_sorted(before, SampleView { watch: watches.last(), value });
        }
    }
}

/// What is among the samples with one more: the new sample, and each of
/// the old ones but that of the same watch.
pub proof fn lemma_inserted_contains(samples: Seq<SampleView>, sample: SampleView, other: SampleView)
    requires
        sorted(samples),
    ensures
        inserted(samples, sample).contains(other) <==> other == sample || (samples.contains(other)
            && other.watch != sample.watch),
{
    let place = insertion_point(samples, sample.watch);
    let result = inserted(samples, sample);
    lemma_insertion_point(samples, sample.watch);
    if place < samples.len() && samples[place].watch == sample.watch {
        assert(result[place] == sample);
        if result.contains(other) && other != sample {
            let k = choose|k: int| 0 <= k < result.len() && result[k] == other;
            assert(samples[k] == other);
            if other.watch == sample.watch {
                lemma_precedes_irreflexive(sample.watch);
                if k < place {
                    assert(samples[k].watch.precedes(samples[place].watch));
                } else {
                    assert(samples[place].watch.precedes(samples[k].watch));
                }
            }
        }
        if samples.contains(other) && other.watch != sample.watch {
            let k = choose|k: int| 0 <= k < samples.len() && samples[k] == other;
            assert(result[k] == other);
        }
    } else {
        assert(result[place] == sample);
        if result.contains(other) && other != sample {
            let k = choose|k: int| 0 <= k < result.len() && result[k] == other;
            let from = if k < place {
                k
            } else {
                k - 1
            };
            assert(samples[from] == other);
            if other.watch == sample.watch {
                lemma_precedes_irreflexive(sample.watch);
                lemma_precedes_total(samples[place].watch, sample.watch);
                if from > place {
                    assert(samples[place].watch.precedes(samples[from].watch));
                }
            }
        }
        if samples.contains(other) && other.watch != sample.watch {
            let k = choose|k: int| 0 <= k < samples.len() && samples[k] == other;
            let to = if k < place {
                k
            } else {
                k + 1
            };
            assert(result[to] == other);
        }
    }
}

/// A sample is among the samples of watches just when its watch is in the
/// list and has its value.
pub proof fn lemma_sampled_contains(
    watches: Seq<WatchView>,
    machine: MachineState,
    symbols: Seq<SymbolView>,
    sample: SampleView,
)
    ensures
        sampled(watches, machine, symbols).contains(sample) <==> watches.contains(sample.watch)
            && value_of(sample.watch, machine, symbols) == Ok::<WatchValue, WatchFault>(
            sample.value,
        ),
    decreases watches.len(),
{
    if watches.len() > 0 {
        let front = watches.drop_last();
        let last = watches.last();
        lemma_sampled_contains(front, machine, symbols, sample);
        lemma_sampled_sorted(front, machine, symbols);
        let before = sampled(front, machine, symbols);
        if let Ok(value) = value_of(last, machine, symbols) {
            lemma_inserted_contains(before, SampleView { watch: last, value }, sample);
        }
        assert(watches.contains(sample.watch) <==> front.contains(sample.watch) || last
            == sample.watch) by {
            if front.contains(sample.watch) {
                let k = choose|k: int| 0 <= k < front.len() && front[k] == sample.watch;
                assert(watches[k] == sample.watch);
            }
            if watches.contains(sample.watch) {
                let k = choose|k: int| 0 <= k < watches.len() && watches[k] == sample.watch;
                if k < front.len() {
                    assert(front[k] == sample.watch);
                }
            }
            assert(watches[watches.len() - 1] == last);
        }
    } else {
        assert(!sampled(watches, machine, symbols).contains(sample));
    }
}

/// A sample has changed just when its value is not the value at the same
/// place before.
pub proof fn lemma_changed_contains(before: Seq<SampleView>, after: Seq<SampleView>, count: int, sample: SampleView)
    requires
        0 <= count <= after.len(),
    ensures
        changed_among(before, after, count).contains(sample) <==> exists|i: int|
            0 <= i < count && #[trigger] after[i] == sample && before[i].value != sample.value,
    decreases count,
{
    if count > 0 {
        lemma_changed_contains(before, after, count - 1, sample);
        let earlier = changed_among(before, after, count - 1);
        let now = changed_among(before, after, count);
        if before[count - 1].value != after[count - 1].value {
            assert(now.last() == after[count - 1]);
            if now.contains(sample) {
                let k = choose|k: int| 0 <= k < now.len() && now[k] == sample;
                if k < earlier.len() {
                    assert(earlier[k] == sample);
                } else {
                    assert(after[count - 1] == sample);
                }
            }
            if earlier.contains(sample) {
                let k = choose|k: int| 0 <= k < earlier.len() && earlier[k] == sample;
                assert(now[k] == sample);
            }
        }
    } else {
        assert(!changed_among(before, after, count).contains(sample));
    }
}

/// Where no value differs, nothing has changed.
pub proof fn lemma_changed_nothing(before: Seq<SampleView>, after: Seq<SampleView>, count: int)
    requires
        0 <= count <= after.len(),
        forall|i: int| 0 <= i < count ==> (#[trigger] before[i]).value == after[i].value,
    ensures
        changed_among(before, after, count) == Seq::<SampleView>::empty(),
    decreases count,
{
    if count > 0 {
        lemma_changed_nothing(before, after, count - 1);
    }
}

/// The last values of a list of watches: one sample for each watch that
/// had a value, in the order of the watches.
#[derive(Debug, PartialEq, Eq)]
pub struct Snapshot {
    pub entries: Vec<Sample>,
}

impl View for Snapshot {
    type V = Seq<SampleView>;

    open spec fn view(&self) -> Seq<SampleView> {
        sample_views(self.entries@)
    }
}

/// The samples of a list of watches, and the watches that had no value.
#[derive(Debug, PartialEq, Eq)]
pub struct CurrentValues {
    pub values: Snapshot,
    pub failures: Vec<Failure>,
}

impl Snapshot {
    /// Whether the samples are in the order of their watches, each watch once.
    pub open spec fn wf(&self) -> bool {
        sorted(self@)
    }

    /// A snapshot of no watch.
    pub fn new() -> (snapshot: Snapshot)
        ensures
            snapshot@ == Seq::<SampleView>::empty(),
            snapshot.wf(),
    {
        let snapshot = Snapshot { entries: Vec::new() };
        proof {
            assert(snapshot@ =~= Seq::<SampleView>::empty());
        }
        snapshot
    }

    /// The number of samples.
    pub fn len(&self) -> (count: usize)
        ensures
            count == self@.len(),
    {
        self.entries.len()
    }

    /// Whether there is no sample.
    pub fn is_empty(&self) -> (empty: bool)
        ensures
            empty == (self@.len() == 0),
    {
        self.entries.len() == 0
    }

    /// Puts a sample in: in place of the sample of the same watch, or else
    /// at its place in the order.
    pub fn insert(&mut self, watch: Watch, value: WatchState)
        requires
            old(self).wf(),
        ensures
            final(self)@ == inserted(old(self)@, SampleView { watch: watch@, value: value@ }),
            final(self).wf(),
    {
        let mut place: usize = 0;
        while place < self.entries.len() && self.entries[place].watch.precedes(&watch)
            invariant
                place <= self.entries@.len(),
                self.entries == old(self).entries,
                forall|j: int|
                    0 <= j < place ==> (#[trigger] self@[j]).watch.precedes(watch@),
            decreases self.entries@.len() - place,
        {
            place += 1;
        }
        proof {
            lemma_insertion_point_is(self@, watch@, place as int);
            lemma_inserted_sorted(self@, SampleView { watch: watch@, value: value@ });
        }
        if place < self.entries.len() && self.entries[place].watch.same_as(&watch) {
            self.entries.set(place, Sample { watch, value });
            proof {
                assert(final(self)@ =~= old(self)@.update(
                    place as int,
                    SampleView { watch: watch@, value: value@ },
                ));
            }
        } else {
            self.entries.insert(place, Sample { watch, value });
            proof {
                assert(final(self)@ =~= old(self)@.insert(
                    place as int,
                    SampleView { watch: watch@, value: value@ },
                ));
            }
        }
    }

    /// Whether the samples are of the same watches as those of `other`,
    /// place by place.
    pub fn same_watches_as(&self, other: &Snapshot) -> (same: bool)
        ensures
            same == same_watches(self@, other@),
    {
        if self.entries.len() != other.entries.len() {
            return false;
        }
        let mut i: usize = 0;
        while i < self.entries.len()
            invariant
                i <= self.entries@.len(),
                self.entries@.len() == other.entries@.len(),
                forall|j: int| 0 <= j < i ==> (#[trigger] self@[j]).watch == other@[j].watch,
            decreases self.entries@.len() - i,
        {
            if !self.entries[i].watch.same_as(&other.entries[i].watch) {
                proof {
                    assert(self@[i as int].watch != other@[i as int].watch);
                }
                return false;
            }
            i += 1;
        }
        true
    }
}

/// The current values of `watches`, and the watches that have none.
pub fn get_current_values(
    watches: &[Watch],
    watchable_symbols: &[WatchableSymbol],
    machine: &MachineState,
) -> (current: CurrentValues)
    ensures
        current.values@ == sampled(watch_views(watches@), *machine, symbol_views(watchable_symbols@)),
        current.values.wf(),
        forall|i: int|
            0 <= i < current.values@.len() ==> (#[trigger] current.values@[i]).value.showable(),
        forall|i: int|
            0 <= i < current.values@.len() ==> watch_views(watches@).contains(
                (#[trigger] current.values@[i]).watch,
            ),
        failure_views(current.failures@) == failed(
            watch_views(watches@),
            *machine,
            symbol_views(watchable_symbols@),
        ),
{
    let mut values = Snapshot::new();
    let mut failures: Vec<Failure> = Vec::new();
    let mut i: usize = 0;
    proof {
        assert(watch_views(watches@).take(0) =~= Seq::<WatchView>::empty());
        assert(failure_views(failures@) =~= Seq::<FailureView>::empty());
    }
    while i < watches.len()
        invariant
            i <= watches@.len(),
            values.wf(),
            values@ == sampled(
                watch_views(watches@).take(i as int),
                *machine,
                symbol_views(watchable_symbols@),
            ),
            forall|k: int| 0 <= k < values@.len() ==> (#[trigger] values@[k]).value.showable(),
            forall|k: int|
                0 <= k < values@.len() ==> watch_views(watches@).contains(
                    (#[trigger] values@[k]).watch,
                ),
            failure_views(failures@) == failed(
                watch_views(watches@).take(i as int),
                *machine,
                symbol_views(watchable_symbols@),
            ),
        decreases watches@.len() - i,
    {
        let watch = &watches[i];
        let ghost before = values@;
        let ghost failed_before = failure_views(failures@);
        proof {
            let list = watch_views(watches@);
            assert(list.take(i + 1).drop_last() =~= list.take(i as int));
            assert(list.take(i + 1).last() == watch@);
        }
        match watch.current_value(machine, watchable_symbols) {
            Ok(value) => {
                let ghost added = SampleView { watch: watch@, value: value@ };
                values.insert(watch.clone(), value);
                proof {
                    let place = insertion_point(before, watch@);
                    lemma_insertion_point(before, watch@);
                    assert(watch_views(watches@)[i as int] == watch@);
                    assert forall|k: int| 0 <= k < values@.len() implies (
                    #[trigger] values@[k]).value.showable() && watch_views(watches@).contains(
                        values@[k].watch,
                    ) by {
                        if place < before.len() && before[place].watch == watch@ {
                            if k != place {
                                assert(values@[k] == before[k]);
                            }
                        } else {
                            if k < place {
                                assert(values@[k] == before[k]);
                            } else if k > place {
                                assert(values@[k] == before[k - 1]);
                            }
                        }
                    }
                }
            },
            Err(error) => {
                failures.push(Failure { watch: watch.clone(), error });
                proof {
                    assert(failure_views(failures@) =~= failed_before.push(failure_views(
                        failures@,
                    ).last()));
                }
            },
        }
        i += 1;
    }
    proof {
        assert(watch_views(watches@).take(watches@.len() as int) =~= watch_views(watches@));
    }
    CurrentValues { values, failures }
}

/// The samples of `after` whose value is not the value in `before`.
pub fn get_changed_watches(before: &Snapshot, after: &Snapshot) -> (changes: Snapshot)
    requires
        same_watches(before@, after@),
        after.wf(),
    ensures
        changes@ == changed(before@, after@),
        changes.wf(),
        forall|k: int| 0 <= k < changes@.len() ==> after@.contains(#[trigger] changes@[k]),
{
    let mut changes = Snapshot::new();
    let mut i: usize = 0;
    while i < after.entries.len()
        invariant
            i <= after.entries@.len(),
            same_watches(before@, after@),
            after.wf(),
            changes@ == changed_among(before@, after@, i as int),
            changes.wf(),
            forall|k: int| 0 <= k < changes@.len() ==> after@.contains(#[trigger] changes@[k]),
            forall|k: int, m: int|
                0 <= k < changes@.len() && i <= m < after@.len() ==> (
                #[trigger] changes@[k]).watch.precedes((#[trigger] after@[m]).watch),
        decreases after.entries@.len() - i,
    {
        let ghost earlier = changes@;
        if !after.entries[i].value.same_as(&before.entries[i].value) {
            let sample = Sample {
                watch: after.entries[i].watch.clone(),
                value: after.entries[i].value.clone(),
            };
            changes.entries.push(sample);
            proof {
                assert(before@[i as int].value == before.entries@[i as int].value@);
                assert(after@[i as int].value == after.entries@[i as int].value@);
                assert(changes@ =~= earlier.push(after@[i as int]));
                assert forall|k: int| 0 <= k < changes@.len() implies after@.contains(
                    #[trigger] changes@[k],
                ) by {
                    if k < earlier.len() {
                        assert(changes@[k] == earlier[k]);
                    }
                }
                assert forall|k: int, m: int|
                    0 <= k < changes@.len() && i + 1 <= m < after@.len() implies (
                #[trigger] changes@[k]).watch.precedes((#[trigger] after@[m]).watch) by {
                    if k < earlier.len() {
                        assert(changes@[k] == earlier[k]);
                    }
                }
                assert forall|k: int, m: int| 0 <= k < m < changes@.len() implies (
                #[trigger] changes@[k]).watch.precedes((#[trigger] changes@[m]).watch) by {
                    assert(changes@[k] == earlier[k]);
                    if m < earlier.len() {
                        assert(changes@[m] == earlier[m]);
                    } else {
                        assert(changes@[m] == after@[i as int]);
                    }
                }
            }
        } else {
            proof {
                assert(before@[i as int].value == before.entries@[i as int].value@);
                assert(after@[i as int].value == after.entries@[i as int].value@);
            }
        }
        i += 1;
    }
    changes
}

} // verus!
