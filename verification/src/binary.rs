//! The packed binary trace format.
//!
//! A trace starts with a header of 18 bytes: the numbers of threads, locks,
//! variables and events, as big-endian integers of 16, 32, 32 and 64 bits.
//! Then come the events, 8 bytes each: a big-endian 64-bit word that holds,
//! from the least significant bit upward, the thread in 10 bits, the
//! operation in 4, the operand in 34 and the source location in 15. The
//! highest bit is not used.

use crate::parser::{Event, Operand, Operation};
use vstd::prelude::*;

verus! {

/// The length of the header.
pub const HEADER_BYTES: usize = 18;

/// The length of one event.
pub const EVENT_BYTES: usize = 8;

/// The number of values of the thread field: 2 to the 10.
pub const THREADS: u64 = 0x400;

/// The number of values of the operation field: 2 to the 4.
pub const OPERATIONS: u64 = 0x10;

/// The number of values of the operand field: 2 to the 34.
pub const OPERANDS: u64 = 0x4_0000_0000;

/// The number of values of the location field: 2 to the 15.
pub const LOCATIONS: u64 = 0x8000;

/// The value of the lowest bit of the operation field: 2 to the 10.
pub const OPERATION_UNIT: u64 = 0x400;

/// The value of the lowest bit of the operand field: 2 to the 14.
pub const OPERAND_UNIT: u64 = 0x4000;

/// The value of the lowest bit of the location field: 2 to the 48.
pub const LOCATION_UNIT: u64 = 0x1_0000_0000_0000;

/// The number that the `count` bytes from `start` on write, most significant byte first.
pub open spec fn big_endian(bytes: Seq<u8>, start: int, count: nat) -> nat
    decreases count,
{
    if count == 0 {
        0
    } else {
        big_endian(bytes, start, (count - 1) as nat) * 256 + bytes[start + count - 1] as nat
    }
}

/// The counts that a trace announces of itself. Nothing holds the trace to them.
#[derive(Clone, Copy, Debug, PartialEq, Eq, Structural)]
pub struct TraceHeader {
    pub threads: i16,
    pub locks: i32,
    pub variables: i32,
    pub events: i64,
}

/// The header that the first 18 bytes write: the 10 lowest bits of the
/// first number, the 31 lowest of the second and of the third, the 63
/// lowest of the fourth.
pub open spec fn header_of(bytes: Seq<u8>) -> TraceHeader {
    TraceHeader {
        threads: (big_endian(bytes, 0, 2) % 0x400) as i16,
        locks: (big_endian(bytes, 2, 4) % 0x8000_0000) as i32,
        variables: (big_endian(bytes, 6, 4) % 0x8000_0000) as i32,
        events: (big_endian(bytes, 10, 8) % 0x8000_0000_0000_0000) as i64,
    }
}

/// The event that the 64-bit word `word` packs, if the operation field holds an operation.
pub open spec fn unpacked(word: nat) -> Option<Event> {
    match Operation::from_id(((word / OPERATION_UNIT as nat) % OPERATIONS as nat) as int) {
        Some(operation) => Some(
            Event {
                thread_identifier: (word % THREADS as nat) as i64,
                operation,
                operand: Operand::for_operation(
                    operation,
                    ((word / OPERAND_UNIT as nat) % OPERANDS as nat) as i64,
                ),
                loc: ((word / LOCATION_UNIT as nat) % LOCATIONS as nat) as i64,
            },
        ),
        None => None,
    }
}

/// The event that the 8 bytes of a record write, if their operation field holds an operation.
pub open spec fn decoded(record: Seq<u8>) -> Option<Event> {
    unpacked(big_endian(record, 0, 8))
}

/// Reads two bytes as a number, most significant byte first.
fn read_two(bytes: &[u8], start: usize) -> (value: u64)
    requires
        start + 2 <= bytes.len(),
    ensures
        value == big_endian(bytes@, start as int, 2),
        value < 0x1_0000,
{
    let high = bytes[start] as u64;
    let low = bytes[start + 1] as u64;
    assert(big_endian(bytes@, start as int, 2) == high * 256 + low) by {
        reveal_with_fuel(big_endian, 3);
    }
    high * 256 + low
}

/// Reads four bytes as a number, most significant byte first.
fn read_four(bytes: &[u8], start: usize) -> (value: u64)
    requires
        start + 4 <= bytes.len(),
    ensures
        value == big_endian(bytes@, start as int, 4),
        value < 0x1_0000_0000,
{
    let high = read_two(bytes, start);
    let low = read_two(bytes, start + 2);
    assert(big_endian(bytes@, start as int, 4) == high * 0x1_0000 + low) by {
        reveal_with_fuel(big_endian, 5);
    }
    high * 0x1_0000 + low
}

/// Reads eight bytes as a number, most significant byte first.
fn read_eight(bytes: &[u8], start: usize) -> (value: u64)
    requires
        start + 8 <= bytes.len(),
    ensures
        value == big_endian(bytes@, start as int, 8),
{
    let high = read_four(bytes, start);
    let low = read_four(bytes, start + 4);
    assert(big_endian(bytes@, start as int, 8) == high * 0x1_0000_0000 + low) by {
        reveal_with_fuel(big_endian, 9);
    }
    high * 0x1_0000_0000 + low
}

/// Reads the header of a binary trace: the counts of threads, locks,
/// variables and events. `None` where the bytes end before the header does.
pub fn parse_trace_header(header: &[u8]) -> (counts: Option<TraceHeader>)
    ensures
        counts == if header.len() >= HEADER_BYTES {
            Some(header_of(header@))
        } else {
            None
        },
{
    if header.len() < HEADER_BYTES {
        return None;
    }
    let threads = read_two(header, 0) % 0x400;
    let locks = read_four(header, 2) % 0x8000_0000;
    let variables = read_four(header, 6) % 0x8000_0000;
    let events = read_eight(header, 10) % 0x8000_0000_0000_0000;
    Some(
        TraceHeader {
            threads: threads as i16,
            locks: locks as i32,
            variables: variables as i32,
            events: events as i64,
        },
    )
}

/// Tries to parse an event of a binary trace.
///
/// Returns the event that the record writes, or `None` where its operation
/// field holds none of the ten operation ids.
pub fn try_parse_event(event_buffer: [u8; 8]) -> (event: Option<Event>)
    ensures
        event == decoded(event_buffer@),
        event matches Some(e) ==> e.consistent(),
{
    let raw_event = read_eight(event_buffer.as_slice(), 0);

    let thread_identifier = raw_event & (THREADS - 1);
    let operation_id = (raw_event >> 10) & (OPERATIONS - 1);
    let operand_id = (raw_event >> 14) & (OPERANDS - 1);
    let loc = (raw_event >> 48) & (LOCATIONS - 1);
    assert(raw_event & 0x3ff == raw_event % 0x400) by (bit_vector);
    assert((raw_event >> 10) & 0xf == (raw_event / 0x400) % 0x10) by (bit_vector);
    assert((raw_event >> 14) & 0x3_ffff_ffff == (raw_event / 0x4000) % 0x4_0000_0000)
        by (bit_vector);
    assert((raw_event >> 48) & 0x7fff == (raw_event / 0x1_0000_0000_0000) % 0x8000)
        by (bit_vector);

    let operation = match Operation::new(operation_id as i64) {
        None => return None,
        Some(operation) => operation,
    };

    let operand = Operand::new(&operation, operand_id as i64);

    Some(Event { thread_identifier: thread_identifier as i64, operation, operand, loc: loc as i64 })
}

/// The number in the operand of an event, 0 where it has none.
pub open spec fn operand_number(event: Event) -> int {
    match event.operand.spec_id() {
        Some(id) => id as int,
        None => 0,
    }
}

/// Whether the fields of the event fit the bits that a record has for them.
pub open spec fn fits_record(event: Event) -> bool {
    &&& 0 <= event.thread_identifier < THREADS
    &&& 0 <= operand_number(event) < OPERANDS
    &&& 0 <= event.loc < LOCATIONS
}

/// The 64-bit word that packs the event.
pub open spec fn packed(event: Event) -> nat {
    (event.thread_identifier + event.operation.id() * OPERATION_UNIT + operand_number(event)
        * OPERAND_UNIT + event.loc * LOCATION_UNIT) as nat
}

/// The eight bytes that write a 64-bit word, most significant byte first.
pub open spec fn word_bytes(word: nat) -> Seq<u8> {
    seq![
        ((word / 0x100_0000_0000_0000) % 256) as u8,
        ((word / 0x1_0000_0000_0000) % 256) as u8,
        ((word / 0x100_0000_0000) % 256) as u8,
        ((word / 0x1_0000_0000) % 256) as u8,
        ((word / 0x100_0000) % 256) as u8,
        ((word / 0x1_0000) % 256) as u8,
        ((word / 0x100) % 256) as u8,
        (word % 256) as u8,
    ]
}

/// The record that writes the event.
pub open spec fn encoded(event: Event) -> Seq<u8> {
    word_bytes(packed(event))
}

/// The event as a record gives it back: the operand has the kind that the
/// operation works on, whatever kind it had before.
pub open spec fn canonical(event: Event) -> Event {
    Event {
        operand: Operand::for_operation(event.operation, operand_number(event) as i64),
        ..event
    }
}

/// The bytes that write a word, read as a number, give the word.
proof fn lemma_word_bytes(word: nat)
    requires
        word <= u64::MAX,
    ensures
        big_endian(word_bytes(word), 0, 8) == word,
{
    let w = word as int;
    let bytes = word_bytes(word);
    let q0 = w / 0x100_0000_0000_0000;
    let q1 = w / 0x1_0000_0000_0000;
    let q2 = w / 0x100_0000_0000;
    let q3 = w / 0x1_0000_0000;
    let q4 = w / 0x100_0000;
    let q5 = w / 0x1_0000;
    let q6 = w / 0x100;
    assert(big_endian(bytes, 0, 8) == ((((((q0 % 256 * 256 + q1 % 256) * 256 + q2 % 256) * 256
        + q3 % 256) * 256 + q4 % 256) * 256 + q5 % 256) * 256 + q6 % 256) * 256 + w % 256) by {
        reveal_with_fuel(big_endian, 9);
    }
    assert(q0 < 256);
    lemma_next_byte(w, 0x1_0000_0000_0000);
    lemma_next_byte(w, 0x100_0000_0000);
    lemma_next_byte(w, 0x1_0000_0000);
    lemma_next_byte(w, 0x100_0000);
    lemma_next_byte(w, 0x1_0000);
    lemma_next_byte(w, 0x100);
    lemma_next_byte(w, 1);
}

/// What stands above a byte of a number is what stands above the byte
/// below it, without that byte.
proof fn lemma_next_byte(word: int, unit: int)
    requires
        0 <= word,
        0 < unit,
    ensures
        word / unit == (word / (unit * 256)) * 256 + (word / unit) % 256,
{
    vstd::arithmetic::div_mod::lemma_div_denominator(word, unit, 256);
    vstd::arithmetic::div_mod::lemma_fundamental_div_mod(word / unit, 256);
}

/// The fields of a word that is put together from them.
proof fn lemma_fields(thread: int, operation: int, operand: int, loc: int)
    requires
        0 <= thread < 0x400,
        0 <= operation < 0x10,
        0 <= operand < 0x4_0000_0000,
        0 <= loc < 0x8000,
    ensures
        ({
            let word = thread + operation * 0x400 + operand * 0x4000 + loc * 0x1_0000_0000_0000;
            &&& 0 <= word <= u64::MAX
            &&& word % 0x400 == thread
            &&& (word / 0x400) % 0x10 == operation
            &&& (word / 0x4000) % 0x4_0000_0000 == operand
            &&& (word / 0x1_0000_0000_0000) % 0x8000 == loc
        }),
{
    let word = thread + operation * 0x400 + operand * 0x4000 + loc * 0x1_0000_0000_0000;
    let above_thread = operation + operand * 0x10 + loc * 0x40_0000_0000;
    let above_operation = operand + loc * 0x4_0000_0000;
    vstd::arithmetic::div_mod::lemma_fundamental_div_mod_converse(
        word,
        0x400,
        above_thread,
        thread,
    );
    vstd::arithmetic::div_mod::lemma_fundamental_div_mod_converse(
        above_thread,
        0x10,
        above_operation,
        operation,
    );
    vstd::arithmetic::div_mod::lemma_fundamental_div_mod_converse(
        word,
        0x4000,
        above_operation,
        thread + operation * 0x400,
    );
    vstd::arithmetic::div_mod::lemma_fundamental_div_mod_converse(
        above_operation,
        0x4_0000_0000,
        loc,
        operand,
    );
    vstd::arithmetic::div_mod::lemma_fundamental_div_mod_converse(
        word,
        0x1_0000_0000_0000,
        loc,
        thread + operation * 0x400 + operand * 0x4000,
    );
    vstd::arithmetic::div_mod::lemma_small_mod(loc as nat, 0x8000);
}

/// A record that writes an event whose fields fit reads as that event, with
/// the operand of the kind that the operation works on.
pub proof fn lemma_decoded_encoded(event: Event)
    requires
        fits_record(event),
    ensures
        decoded(encoded(event)) == Some(canonical(event)),
{
    lemma_fields(
        event.thread_identifier as int,
        event.operation.id(),
        operand_number(event),
        event.loc as int,
    );
    lemma_word_bytes(packed(event));
    assert(Operation::from_id(event.operation.id()) == Some(event.operation));
}

} // verus!
