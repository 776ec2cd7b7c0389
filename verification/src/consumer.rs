//! The consumer of the event stream: which batches it takes, and what it
//! reports for the records in them.
use vstd::prelude::*;
use crate::cache::{cache_after, frames_of, resolved_stack, StackCache};
use crate::event::{parse, MemEvent};
use crate::stacks::{without, StackTable};

verus! {

/// The name that batches of allocation records are tagged with.
pub fn event_source() -> (name: &'static str)
    ensures
        name@ == "malloc_event"@,
{
    "malloc_event"
}

/// The name of the table that holds the captured stacks.
pub fn stack_source() -> (name: &'static str)
    ensures
        name@ == "malloc_stack"@,
{
    "malloc_stack"
}

/// Compares two strings with `str::eq`, which holds exactly when they are
/// made of the same characters in the same order.
#[verifier::external_body]
fn same_text(a: &str, b: &str) -> (r: bool)
    ensures
        r == (a@ == b@),
{
    a == b
}

/// One record with its stack, as it is handed to the sink.
pub struct Report {
    pub event: MemEvent,
    /// The frames, innermost first; `None` where the stack is unknown.
    pub stack: Option<Vec<u64>>,
}

/// The consumer between two batches.
pub struct Consumer {
    /// The stacks read so far.
    pub cache: StackCache,
    /// Batches dropped because their source was not the allocation events.
    pub discarded: u64,
    /// Records dropped because they could not be decoded.
    pub malformed: u64,
    /// Cleared by cancellation and by the end of the stream.
    pub running: bool,
}

/// What processing a run of records leads to.
pub struct Outcome {
    pub cache: Map<i32, Seq<u64>>,
    pub live: Map<i32, Seq<u64>>,
    pub order: Seq<i32>,
    pub spare: Seq<i32>,
    pub reports: Seq<(MemEvent, Option<Seq<u64>>)>,
    pub malformed: nat,
}

/// What a read of `stack_id` from the live table returns.
pub open spec fn live_read(live: Map<i32, Seq<u64>>, stack_id: i32) -> Option<Seq<u64>> {
    if live.contains_key(stack_id) {
        Some(live[stack_id])
    } else {
        None
    }
}

/// One more record: it is decoded, its stack is resolved against the live
/// table and the cache, a stack that was read is cached and its slot freed,
/// and the record is reported. A record that does not decode is counted
/// and changes nothing else.
pub open spec fn after_record(o: Outcome, bytes: Seq<u8>) -> Outcome {
    match parse(bytes) {
        None => Outcome { malformed: o.malformed + 1, ..o },
        Some(e) => {
            let got = live_read(o.live, e.stackid);
            Outcome {
                cache: cache_after(o.cache, e.stackid, got),
                live: o.live.remove(e.stackid),
                order: without(o.order, e.stackid),
                spare: if got.is_some() {
                    o.spare.push(e.stackid)
                } else {
                    o.spare
                },
                reports: o.reports.push((e, resolved_stack(o.cache, e.stackid, got))),
                malformed: o.malformed,
            }
        },
    }
}

/// The records of a batch, one after another in arrival order.
pub open spec fn after_records(start: Outcome, batch: Seq<Vec<u8>>) -> Outcome
    decreases batch.len(),
{
    if batch.len() == 0 {
        start
    } else {
        after_record(after_records(start, batch.drop_last()), batch.last()@)
    }
}

/// What the sink sees of a list of reports.
pub open spec fn shown(reports: Seq<Report>) -> Seq<(MemEvent, Option<Seq<u64>>)> {
    reports.map_values(|r: Report| (r.event, frames_of(r.stack)))
}

/// A counter raised by `by`, stopping at the largest value it can hold.
pub open spec fn raised(counter: u64, by: nat) -> u64 {
    if counter + by > u64::MAX {
        u64::MAX
    } else {
        (counter + by) as u64
    }
}

/// Whether a consumer takes a batch: only while it runs, and only from the
/// source of allocation records.
pub open spec fn accepts(running: bool, name: Seq<char>) -> bool {
    running && name == "malloc_event"@
}

/// The discard count after a batch was offered.
pub open spec fn discarded_after(running: bool, discarded: u64, name: Seq<char>) -> u64 {
    if running && name != "malloc_event"@ {
        raised(discarded, 1)
    } else {
        discarded
    }
}

/// Where a batch starts from: the cache and the live table as they are,
/// with nothing reported yet.
pub open spec fn start_of(cache: Map<i32, Seq<u64>>, table: StackTable) -> Outcome {
    Outcome {
        cache,
        live: table@,
        order: table.order(),
        spare: table.spare(),
        reports: Seq::empty(),
        malformed: 0,
    }
}

/// A tagged batch of raw records, as the stream delivers it.
pub struct Batch {
    pub name: String,
    pub records: Vec<Vec<u8>>,
}

/// Consumer and live table between two batches, with all that was
/// reported so far.
pub struct Run {
    pub cache: Map<i32, Seq<u64>>,
    pub live: Map<i32, Seq<u64>>,
    pub order: Seq<i32>,
    pub spare: Seq<i32>,
    pub reports: Seq<(MemEvent, Option<Seq<u64>>)>,
    pub malformed: u64,
    pub discarded: u64,
}

/// One more batch for a running consumer: a batch of allocation records is
/// processed record by record and its reports follow the earlier ones; any
/// other batch is counted as discarded and changes nothing else.
pub open spec fn after_batch(r: Run, name: Seq<char>, records: Seq<Vec<u8>>) -> Run {
    if name == "malloc_event"@ {
        let end = after_records(
            Outcome {
                cache: r.cache,
                live: r.live,
                order: r.order,
                spare: r.spare,
                reports: Seq::empty(),
                malformed: 0,
            },
            records,
        );
        Run {
            cache: end.cache,
            live: end.live,
            order: end.order,
            spare: end.spare,
            reports: r.reports + end.reports,
            malformed: raised(r.malformed, end.malformed),
            discarded: r.discarded,
        }
    } else {
        Run { discarded: raised(r.discarded, 1), ..r }
    }
}

/// The batches of a stream, one after another in delivery order.
pub open spec fn after_batches(start: Run, stream: Seq<Batch>) -> Run
    decreases stream.len(),
{
    if stream.len() == 0 {
        start
    } else {
        after_batch(
            after_batches(start, stream.drop_last()),
            stream.last().name@,
            stream.last().records@,
        )
    }
}

/// How many batches of a stream of `len` are delivered before the consumer
/// stops: all of them, unless cancellation comes first.
pub open spec fn delivered(len: nat, cancel_at: Option<usize>) -> nat {
    match cancel_at {
        Some(n) => if n < len {
            n as nat
        } else {
            len
        },
        None => len,
    }
}

impl Consumer {
    /// A running consumer that has seen nothing.
    pub fn new() -> (c: Consumer)
        ensures
            c.cache@ == Map::<i32, Seq<u64>>::empty(),
            c.discarded == 0,
            c.malformed == 0,
            c.running,
    {
        Consumer { cache: StackCache::new(), discarded: 0, malformed: 0, running: true }
    }

    /// Whether batches named `name` hold allocation records.
    pub fn is_event_source(name: &str) -> (r: bool)
        ensures
            r == (name@ == "malloc_event"@),
    {
        same_text(name, event_source())
    }

    /// Stops the consumer on an outside request. What it has cached and
    /// counted stays as it is; no later batch is taken.
    pub fn cancel(&mut self)
        ensures
            !final(self).running,
            final(self).cache == old(self).cache,
            final(self).discarded == old(self).discarded,
            final(self).malformed == old(self).malformed,
    {
        self.running = false;
    }

    /// Stops the consumer because the stream has ended, which is final.
    pub fn stream_ended(&mut self)
        ensures
            !final(self).running,
            final(self).cache == old(self).cache,
            final(self).discarded == old(self).discarded,
            final(self).malformed == old(self).malformed,
    {
        self.running = false;
    }

    /// Decides whether a batch tagged `name` is to be processed. A running
    /// consumer takes the batches of allocation records and counts every
    /// other batch as discarded. A stopped consumer takes nothing and
    /// counts nothing.
    pub fn accept(&mut self, name: &str) -> (dispatch: bool)
        ensures
            dispatch == accepts(old(self).running, name@),
            final(self).discarded == discarded_after(old(self).running, old(self).discarded, name@),
            final(self).cache == old(self).cache,
            final(self).malformed == old(self).malformed,
            final(self).running == old(self).running,
    {
        if !self.running {
            return false;
        }
        if Self::is_event_source(name) {
            return true;
        }
        if self.discarded < u64::MAX {
            self.discarded = self.discarded + 1;
        }
        false
    }

    /// Processes one batch against the live table `table`. A batch that is
    /// not accepted leaves table and cache alone and reports nothing.
    /// Otherwise its records are handled one by one, in order.
    pub fn process_batch(&mut self, name: &str, batch: &Vec<Vec<u8>>, table: &mut StackTable) -> (reports:
        Vec<Report>)
        requires
            old(table).wf(),
        ensures
            final(table).wf(),
            final(table).capacity() == old(table).capacity(),
            final(self).running == old(self).running,
            final(self).discarded == discarded_after(old(self).running, old(self).discarded, name@),
            !accepts(old(self).running, name@) ==> {
                &&& reports@.len() == 0
                &&& *final(table) == *old(table)
                &&& final(self).cache == old(self).cache
                &&& final(self).malformed == old(self).malformed
            },
            accepts(old(self).running, name@) ==> {
                let end = after_records(start_of(old(self).cache@, *old(table)), batch@);
                &&& shown(reports@) == end.reports
                &&& final(self).cache@ == end.cache
                &&& final(table)@ == end.live
                &&& final(table).order() == end.order
                &&& final(table).spare() == end.spare
                &&& final(self).malformed == raised(old(self).malformed, end.malformed)
            },
    {
        let mut reports: Vec<Report> = Vec::new();
        if !self.accept(name) {
            return reports;
        }
        let ghost start = start_of(self.cache@, *table);
        let ghost malformed_before = self.malformed;
        let mut i: usize = 0;
        assert(batch@.take(0) =~= Seq::<Vec<u8>>::empty());
        assert(shown(reports@) =~= start.reports);
        while i < batch.len()
            invariant
                i <= batch.len(),
                table.wf(),
                table.capacity() == old(table).capacity(),
                self.running == old(self).running,
                self.discarded == old(self).discarded,
                shown(reports@) == after_records(start, batch@.take(i as int)).reports,
                self.cache@ == after_records(start, batch@.take(i as int)).cache,
                table@ == after_records(start, batch@.take(i as int)).live,
                table.order() == after_records(start, batch@.take(i as int)).order,
                table.spare() == after_records(start, batch@.take(i as int)).spare,
                self.malformed == raised(
                    malformed_before,
                    after_records(start, batch@.take(i as int)).malformed,
                ),
            decreases batch.len() - i,
        {
            let ghost before = after_records(start, batch@.take(i as int));
            proof {
                assert(batch@.take(i + 1).drop_last() =~= batch@.take(i as int));
                assert(batch@.take(i + 1).last() == batch@[i as int]);
                table.lemma_order_lists_live();
            }
            let ghost shown_before = shown(reports@);
            match MemEvent::decode(batch[i].as_slice()) {
                None => {
                    if self.malformed < u64::MAX {
                        self.malformed = self.malformed + 1;
                    }
                },
                Some(event) => {
                    let live = table.read(event.stackid);
                    assert(frames_of(live) == live_read(table@, event.stackid));
                    let resolution = self.cache.resolve(event.stackid, live);
                    if resolution.release {
                        table.remove(event.stackid);
                    } else {
                        assert(table@.remove(event.stackid) =~= table@);
                    }
                    reports.push(Report { event, stack: resolution.stack });
                    assert(shown(reports@) =~= shown_before.push(
                        (event, resolved_stack(before.cache, event.stackid, live_read(before.live, event.stackid))),
                    ));
                },
            }
            i = i + 1;
        }
        assert(batch@.take(batch.len() as int) =~= batch@);
        reports
    }

    /// Runs the consumer over `stream` against the live table `table`
    /// until the stream ends or, where `cancel_at` is given, until
    /// cancellation arrives in place of the batch at that position. The
    /// batches delivered before that are processed in order; none after it
    /// is looked at. Either way the consumer is stopped afterwards. A
    /// consumer that was stopped before does nothing.
    pub fn run(&mut self, stream: &Vec<Batch>, cancel_at: Option<usize>, table: &mut StackTable) -> (reports:
        Vec<Report>)
        requires
            old(table).wf(),
        ensures
            final(table).wf(),
            final(table).capacity() == old(table).capacity(),
            !final(self).running,
            !old(self).running ==> {
                &&& reports@.len() == 0
                &&& *final(table) == *old(table)
                &&& final(self).cache == old(self).cache
                &&& final(self).malformed == old(self).malformed
                &&& final(self).discarded == old(self).discarded
            },
            old(self).running ==> {
                let end = after_batches(
                    Run {
                        cache: old(self).cache@,
                        live: old(table)@,
                        order: old(table).order(),
                        spare: old(table).spare(),
                        reports: Seq::empty(),
                        malformed: old(self).malformed,
                        discarded: old(self).discarded,
                    },
                    stream@.take(delivered(stream@.len(), cancel_at) as int),
                );
                &&& shown(reports@) == end.reports
                &&& final(self).cache@ == end.cache
                &&& final(table)@ == end.live
                &&& final(table).order() == end.order
                &&& final(table).spare() == end.spare
                &&& final(self).malformed == end.malformed
                &&& final(self).discarded == end.discarded
            },
    {
        let mut reports: Vec<Report> = Vec::new();
        if !self.running {
            return reports;
        }
        let stop: usize = match cancel_at {
            Some(n) => if n < stream.len() {
                n
            } else {
                stream.len()
            },
            None => stream.len(),
        };
        let ghost start = Run {
            cache: self.cache@,
            live: table@,
            order: table.order(),
            spare: table.spare(),
            reports: Seq::empty(),
            malformed: self.malformed,
            discarded: self.discarded,
        };
        let mut i: usize = 0;
        assert(stream@.take(0) =~= Seq::<Batch>::empty());
        assert(shown(reports@) =~= start.reports);
        while i < stop
            invariant
                i <= stop <= stream.len(),
                table.wf(),
                table.capacity() == old(table).capacity(),
                self.running,
                shown(reports@) == after_batches(start, stream@.take(i as int)).reports,
                self.cache@ == after_batches(start, stream@.take(i as int)).cache,
                table@ == after_batches(start, stream@.take(i as int)).live,
                table.order() == after_batches(start, stream@.take(i as int)).order,
                table.spare() == after_batches(start, stream@.take(i as int)).spare,
                self.malformed == after_batches(start, stream@.take(i as int)).malformed,
                self.discarded == after_batches(start, stream@.take(i as int)).discarded,
            decreases stop - i,
        {
            proof {
                assert(stream@.take(i + 1).drop_last() =~= stream@.take(i as int));
                assert(stream@.take(i + 1).last() == stream@[i as int]);
            }
            let ghost shown_before = shown(reports@);
            let mut more = self.process_batch(stream[i].name.as_str(), &stream[i].records, table);
            let ghost shown_more = shown(more@);
            reports.append(&mut more);
            assert(shown(reports@) =~= shown_before + shown_more);
            i = i + 1;
        }
        self.running = false;
        reports
    }
}

/// A batch from a source other than the allocation events is never taken,
/// so none of its records is reported; a running consumer counts it as
/// discarded.
pub proof fn lemma_unknown_source_discarded(running: bool, discarded: u64, name: Seq<char>)
    requires
        name != "malloc_event"@,
    ensures
        !accepts(running, name),
        running ==> discarded_after(running, discarded, name) == raised(discarded, 1),
        running && discarded < u64::MAX ==> discarded_after(running, discarded, name) == discarded
            + 1,
{
}

/// Cancellation cuts the stream short: what a run comes to depends on the
/// batches delivered before it and on nothing that follows.
pub proof fn lemma_cancellation_ignores_the_rest(
    start: Run,
    stream: Seq<Batch>,
    other: Seq<Batch>,
    cancel_at: usize,
)
    requires
        cancel_at <= stream.len(),
        cancel_at <= other.len(),
        stream.take(cancel_at as int) == other.take(cancel_at as int),
    ensures
        delivered(stream.len(), Some(cancel_at)) == cancel_at,
        after_batches(start, stream.take(delivered(stream.len(), Some(cancel_at)) as int))
            == after_batches(start, other.take(delivered(other.len(), Some(cancel_at)) as int)),
{
}

/// A consumer that was stopped takes no batch, whatever its source, and
/// counts none.
pub proof fn lemma_stopped_takes_nothing(discarded: u64, name: Seq<char>)
    ensures
        !accepts(false, name),
        discarded_after(false, discarded, name) == discarded,
{
}

/// The records of two runs handled in one go come to the same as handling
/// the first run and then the second from where the first ended.
pub proof fn lemma_records_in_sequence(start: Outcome, first: Seq<Vec<u8>>, second: Seq<Vec<u8>>)
    ensures
        after_records(start, first + second) == after_records(after_records(start, first), second),
    decreases second.len(),
{
    if second.len() == 0 {
        assert(first + second =~= first);
    } else {
        assert((first + second).drop_last() =~= first + second.drop_last());
        assert((first + second).last() == second.last());
        lemma_records_in_sequence(start, first, second.drop_last());
    }
}

} // verus!
