use memtrack::attach::{symbol_of, target_library};
use memtrack::consumer::{event_source, stack_source, Batch, Consumer};
use memtrack::correlation::CorrelationTable;
use memtrack::event::{MemEvent, Type};
use memtrack::image::{malloc_probe_code, sysalloc_probe_code};
use memtrack::probe::{free, record, step, Registers};
use memtrack::stacks::StackTable;

fn event(tid: u32, stackid: i32) -> MemEvent {
    MemEvent {
        ty: Type::Malloc,
        _reserve: 0,
        tid,
        stackid,
        param1: 64,
        param2: 0,
        param3: 0,
        rc: 0xBEEF,
    }
}

#[test]
fn source_names() {
    assert_eq!(event_source(), "malloc_event");
    assert_eq!(stack_source(), "malloc_stack");
    assert!(Consumer::is_event_source("malloc_event"));
    assert!(!Consumer::is_event_source("malloc_stack"));
    assert!(!Consumer::is_event_source("malloc_even"));
    assert!(!Consumer::is_event_source("malloc_event "));
    assert!(!Consumer::is_event_source(""));
}

#[test]
fn probe_image_paths() {
    assert_eq!(malloc_probe_code(), "target/bpf/programs/malloc/malloc.elf");
    assert_eq!(sysalloc_probe_code(), "target/bpf/programs/sysalloc/sysalloc.elf");
}

#[test]
fn new_consumer_runs_with_empty_counts() {
    let c = Consumer::new();
    assert!(c.running);
    assert_eq!(c.discarded, 0);
    assert_eq!(c.malformed, 0);
    assert!(!c.cache.contains(1));
}

#[test]
fn unknown_source_is_discarded_and_counted() {
    let mut c = Consumer::new();
    let mut t = StackTable::new(4);
    let id = t.capture(vec![1, 2]);
    let batch = vec![event(1, id).encode()];
    let reports = c.process_batch("other_event", &batch, &mut t);
    assert!(reports.is_empty());
    assert_eq!(c.discarded, 1);
    assert_eq!(c.malformed, 0);
    assert!(!c.cache.contains(id));
    assert_eq!(t.read(id), Some(vec![1, 2]));
    assert!(!c.accept("again"));
    assert_eq!(c.discarded, 2);
    assert!(c.accept("malloc_event"));
    assert_eq!(c.discarded, 2);
    assert!(c.running);
}

#[test]
fn discard_count_stops_at_its_maximum() {
    let mut c = Consumer::new();
    c.discarded = u64::MAX - 1;
    assert!(!c.accept("x"));
    assert_eq!(c.discarded, u64::MAX);
    assert!(!c.accept("x"));
    assert_eq!(c.discarded, u64::MAX);
}

#[test]
fn cancelled_consumer_processes_nothing_more() {
    let mut c = Consumer::new();
    let mut t = StackTable::new(4);
    let a = t.capture(vec![1]);
    let b = t.capture(vec![2]);
    let first = c.process_batch("malloc_event", &vec![event(1, a).encode()], &mut t);
    assert_eq!(first.len(), 1);
    c.cancel();
    assert!(!c.running);
    let second = c.process_batch("malloc_event", &vec![event(1, b).encode()], &mut t);
    assert!(second.is_empty());
    assert_eq!(t.read(b), Some(vec![2]));
    assert!(!c.cache.contains(b));
    assert!(c.cache.contains(a));
    assert!(!c.accept("other"));
    assert_eq!(c.discarded, 0);
}

#[test]
fn ended_stream_stops_the_consumer() {
    let mut c = Consumer::new();
    c.accept("other");
    c.stream_ended();
    assert!(!c.running);
    assert_eq!(c.discarded, 1);
    assert!(!c.accept("malloc_event"));
}

#[test]
fn batch_is_reported_in_order_with_stacks() {
    let mut c = Consumer::new();
    let mut t = StackTable::new(4);
    let a = t.capture(vec![1, 2, 3]);
    let b = t.capture(vec![4]);
    let batch = vec![event(1, a).encode(), event(2, 0).encode(), event(3, b).encode()];
    let reports = c.process_batch("malloc_event", &batch, &mut t);
    assert_eq!(reports.len(), 3);
    assert_eq!(reports[0].event, event(1, a));
    assert_eq!(reports[0].stack, Some(vec![1, 2, 3]));
    assert_eq!(reports[1].event, event(2, 0));
    assert_eq!(reports[1].stack, None);
    assert_eq!(reports[2].event, event(3, b));
    assert_eq!(reports[2].stack, Some(vec![4]));
    assert_eq!(t.len(), 0);
    assert_eq!(t.read(a), None);
    assert_eq!(c.cache.get(a), Some(vec![1, 2, 3]));
    assert_eq!(c.cache.get(b), Some(vec![4]));
    assert_eq!(c.malformed, 0);
}

#[test]
fn second_record_with_the_same_stack_is_answered_from_the_cache() {
    let mut c = Consumer::new();
    let mut t = StackTable::new(4);
    let a = t.capture(vec![7, 8]);
    let batch = vec![event(1, a).encode(), event(2, a).encode()];
    let reports = c.process_batch("malloc_event", &batch, &mut t);
    assert_eq!(reports[0].stack, Some(vec![7, 8]));
    assert_eq!(reports[1].stack, Some(vec![7, 8]));
    let later = c.process_batch("malloc_event", &vec![event(3, a).encode()], &mut t);
    assert_eq!(later[0].stack, Some(vec![7, 8]));
}

#[test]
fn malformed_records_are_counted_and_skipped() {
    let mut c = Consumer::new();
    let mut t = StackTable::new(4);
    let mut bad_kind = event(1, 0).encode();
    bad_kind[0] = 99;
    let batch = vec![vec![1, 2, 3], event(5, 0).encode(), bad_kind, Vec::new()];
    let reports = c.process_batch("malloc_event", &batch, &mut t);
    assert_eq!(reports.len(), 1);
    assert_eq!(reports[0].event, event(5, 0));
    assert_eq!(c.malformed, 3);
    assert_eq!(c.discarded, 0);
}

#[test]
fn empty_batch_reports_nothing() {
    let mut c = Consumer::new();
    let mut t = StackTable::new(4);
    let reports = c.process_batch("malloc_event", &Vec::new(), &mut t);
    assert!(reports.is_empty());
    assert_eq!(c.discarded, 0);
}

#[test]
fn evicted_stack_resolves_only_where_it_was_cached() {
    let mut t = StackTable::new(2);
    let mut reader = Consumer::new();
    let mut latecomer = Consumer::new();
    let a = t.capture(vec![0x11]);
    // the reader sees the stack while it is live, through its own cache
    let live = t.read(a);
    let r = reader.cache.resolve(a, live);
    assert_eq!(r.stack, Some(vec![0x11]));
    // two more captures fill the table and take `a` over
    let _b = t.capture(vec![0x22]);
    let c = t.capture(vec![0x33]);
    assert_eq!(c, a);
    assert!(t.remove(a));
    let batch = vec![event(1, a).encode()];
    let seen = reader.process_batch("malloc_event", &batch, &mut t);
    assert_eq!(seen[0].stack, Some(vec![0x11]));
    let unseen = latecomer.process_batch("malloc_event", &batch, &mut t);
    assert_eq!(unseen[0].stack, None);
}

#[test]
fn producer_to_consumer_end_to_end() {
    let mut info = CorrelationTable::new(1024);
    let mut stacks = StackTable::new(1024);
    let mut consumer = Consumer::new();
    let entry = Registers {
        pid_tgid: (900u64 << 32) | 42,
        parm1: 64,
        parm2: 0,
        parm3: 0,
        rc: 0,
        stack: Some(vec![0x1000, 0x2000]),
    };
    step(&mut info, &mut stacks, &entry, Type::Malloc);
    let ret = Registers { pid_tgid: (900u64 << 32) | 42, parm1: 0, parm2: 0, parm3: 0, rc: 0xBEEF, stack: None };
    let malloc = record(&mut info, &ret, Type::Malloc).unwrap();
    let release = Registers { pid_tgid: 7, parm1: 0xBEEF, parm2: 0, parm3: 0, rc: 0, stack: None };
    let freed = free(&mut stacks, &release);
    let batch = vec![malloc.encode(), freed.encode()];
    let reports = consumer.process_batch(event_source(), &batch, &mut stacks);
    assert_eq!(reports.len(), 2);
    assert_eq!(reports[0].event.ty, Type::Malloc);
    assert_eq!(reports[0].event.tid, 42);
    assert_eq!(reports[0].event.param1, 64);
    assert_eq!(reports[0].event.rc, 0xBEEF);
    assert_eq!(reports[0].stack, Some(vec![0x1000, 0x2000]));
    assert_eq!(reports[1].event.ty, Type::Free);
    assert_eq!(reports[1].event.tid, 7);
    assert_eq!(reports[1].event.param1, 0xBEEF);
    assert_eq!(reports[1].event.rc, 0);
    assert_eq!(reports[1].stack, None);
}

#[test]
fn probe_names_lose_their_markers() {
    assert_eq!(symbol_of("malloc_entry"), "malloc");
    assert_eq!(symbol_of("malloc_ret"), "malloc");
    assert_eq!(symbol_of("posix_memalign_entry"), "posix_memalign");
    assert_eq!(symbol_of("free"), "free");
    assert_eq!(symbol_of("a_entry_entry"), "a");
    assert_eq!(symbol_of("a_ret_ret"), "a");
    assert_eq!(symbol_of("a_ret_entry"), "a");
    assert_eq!(symbol_of("a_entry_ret"), "a_entry");
    assert_eq!(symbol_of("_entry"), "");
    assert_eq!(symbol_of(""), "");
}

#[test]
fn library_defaults_to_the_system_libc() {
    assert_eq!(target_library(None), "/usr/lib/libc.so.6");
    assert_eq!(target_library(Some("/lib/x86_64-linux-gnu/libc.so.6")), "/lib/x86_64-linux-gnu/libc.so.6");
}

fn stream_of_three(t: &mut StackTable) -> (Vec<Batch>, i32, i32) {
    let a = t.capture(vec![0xA1, 0xA2]);
    let b = t.capture(vec![0xB1]);
    let stream = vec![
        Batch { name: String::from("malloc_event"), records: vec![event(1, a).encode()] },
        Batch { name: String::from("sys_event"), records: vec![event(2, b).encode()] },
        Batch { name: String::from("malloc_event"), records: vec![event(3, b).encode()] },
    ];
    (stream, a, b)
}

#[test]
fn run_to_the_end_of_the_stream() {
    let mut t = StackTable::new(4);
    let (stream, a, b) = stream_of_three(&mut t);
    let mut c = Consumer::new();
    let reports = c.run(&stream, None, &mut t);
    assert_eq!(reports.len(), 2);
    assert_eq!(reports[0].event, event(1, a));
    assert_eq!(reports[0].stack, Some(vec![0xA1, 0xA2]));
    assert_eq!(reports[1].event, event(3, b));
    assert_eq!(reports[1].stack, Some(vec![0xB1]));
    assert_eq!(c.discarded, 1);
    assert_eq!(c.malformed, 0);
    assert!(!c.running);
    assert_eq!(t.len(), 0);
}

#[test]
fn cancellation_mid_stream_leaves_later_batches_alone() {
    let mut t = StackTable::new(4);
    let (stream, a, b) = stream_of_three(&mut t);
    let mut c = Consumer::new();
    let reports = c.run(&stream, Some(1), &mut t);
    assert_eq!(reports.len(), 1);
    assert_eq!(reports[0].event, event(1, a));
    assert_eq!(c.discarded, 0);
    assert!(!c.running);
    assert_eq!(t.read(b), Some(vec![0xB1]));
    assert!(!c.cache.contains(b));
    assert!(c.cache.contains(a));
    // a stopped consumer stays stopped
    let more = c.run(&stream, None, &mut t);
    assert!(more.is_empty());
    assert_eq!(c.discarded, 0);
    assert_eq!(t.read(b), Some(vec![0xB1]));
}

#[test]
fn cancellation_before_the_first_batch_processes_nothing() {
    let mut t = StackTable::new(4);
    let (stream, a, _b) = stream_of_three(&mut t);
    let mut c = Consumer::new();
    let reports = c.run(&stream, Some(0), &mut t);
    assert!(reports.is_empty());
    assert!(!c.running);
    assert_eq!(c.discarded, 0);
    assert_eq!(t.read(a), Some(vec![0xA1, 0xA2]));
}

#[test]
fn cancellation_after_the_end_changes_nothing() {
    let mut t = StackTable::new(4);
    let (stream, _a, _b) = stream_of_three(&mut t);
    let mut c = Consumer::new();
    let reports = c.run(&stream, Some(7), &mut t);
    assert_eq!(reports.len(), 2);
    assert_eq!(c.discarded, 1);
    assert!(!c.running);
}

#[test]
fn unknown_sources_alone_report_nothing() {
    let mut t = StackTable::new(4);
    let id = t.capture(vec![1]);
    let stream = vec![
        Batch { name: String::from("a"), records: vec![event(1, id).encode()] },
        Batch { name: String::from("b"), records: vec![event(2, id).encode()] },
    ];
    let mut c = Consumer::new();
    let reports = c.run(&stream, None, &mut t);
    assert!(reports.is_empty());
    assert_eq!(c.discarded, 2);
    assert_eq!(t.read(id), Some(vec![1]));
}
