//! The fixed-layout record that producer and consumer exchange.
use vstd::prelude::*;
use vstd::bytes::*;
use vstd::slice::slice_subrange;

verus! {

/// Which function of the allocation family a record describes.
#[derive(Clone, Copy, Debug, PartialEq, Eq, Structural)]
pub enum Type {
    Malloc,
    Free,
    Calloc,
    Realloc,
    ReallocArray,
    PosixMemalign,
    AlignedAlloc,
    Valloc,
    Memalign,
    PvAlloc,
}

/// One allocation call: its kind, its thread, the stack captured at entry,
/// its first three arguments and its return value.
#[derive(Clone, Copy, Debug, PartialEq, Eq, Structural)]
pub struct MemEvent {
    /// The kind of call.
    pub ty: Type,
    /// Unused; keeps the fields behind it aligned.
    pub _reserve: u32,
    /// The calling thread.
    pub tid: u32,
    /// The captured stack's identifier; zero or less where none was captured.
    pub stackid: cty::c_int,
    /// The call's first argument.
    pub param1: u64,
    /// The call's second argument.
    pub param2: u64,
    /// The call's third argument.
    pub param3: u64,
    /// The call's return value; zero until the call has returned.
    pub rc: u64,
}

/// Number of bytes one record takes on the wire.
pub const RECORD_LEN: usize = 48;

/// The number that stands for a kind on the wire, counted from one.
pub open spec fn kind_code(ty: Type) -> u32 {
    match ty {
        Type::Malloc => 1,
        Type::Free => 2,
        Type::Calloc => 3,
        Type::Realloc => 4,
        Type::ReallocArray => 5,
        Type::PosixMemalign => 6,
        Type::AlignedAlloc => 7,
        Type::Valloc => 8,
        Type::Memalign => 9,
        Type::PvAlloc => 10,
    }
}

/// The kind that a wire number stands for, if any.
pub open spec fn kind_of_code(code: u32) -> Option<Type> {
    if code == 1 {
        Some(Type::Malloc)
    } else if code == 2 {
        Some(Type::Free)
    } else if code == 3 {
        Some(Type::Calloc)
    } else if code == 4 {
        Some(Type::Realloc)
    } else if code == 5 {
        Some(Type::ReallocArray)
    } else if code == 6 {
        Some(Type::PosixMemalign)
    } else if code == 7 {
        Some(Type::AlignedAlloc)
    } else if code == 8 {
        Some(Type::Valloc)
    } else if code == 9 {
        Some(Type::Memalign)
    } else if code == 10 {
        Some(Type::PvAlloc)
    } else {
        None
    }
}

/// A signed stack identifier as the unsigned word of the same bit pattern.
pub open spec fn stack_word(id: i32) -> u32 {
    if id >= 0 {
        id as u32
    } else {
        (id + 0x1_0000_0000) as u32
    }
}

/// The signed stack identifier that an unsigned word carries.
pub open spec fn word_stack(word: u32) -> i32 {
    if word < 0x8000_0000 {
        word as i32
    } else {
        (word - 0x1_0000_0000) as i32
    }
}

/// The bytes of a record: eight little-endian fields in declaration order,
/// four of 32 bits followed by four of 64 bits, with no padding.
pub open spec fn wire(e: MemEvent) -> Seq<u8> {
    spec_u32_to_le_bytes(kind_code(e.ty)) + spec_u32_to_le_bytes(e._reserve)
        + spec_u32_to_le_bytes(e.tid) + spec_u32_to_le_bytes(stack_word(e.stackid))
        + spec_u64_to_le_bytes(e.param1) + spec_u64_to_le_bytes(e.param2)
        + spec_u64_to_le_bytes(e.param3) + spec_u64_to_le_bytes(e.rc)
}

/// The record that the first `RECORD_LEN` bytes of `b` hold: none where `b`
/// is shorter or the kind's number is not one of the ten.
pub open spec fn parse(b: Seq<u8>) -> Option<MemEvent> {
    if b.len() < RECORD_LEN {
        None
    } else {
        match kind_of_code(spec_u32_from_le_bytes(b.subrange(0, 4))) {
            None => None,
            Some(ty) => Some(
                MemEvent {
                    ty,
                    _reserve: spec_u32_from_le_bytes(b.subrange(4, 8)),
                    tid: spec_u32_from_le_bytes(b.subrange(8, 12)),
                    stackid: word_stack(spec_u32_from_le_bytes(b.subrange(12, 16))),
                    param1: spec_u64_from_le_bytes(b.subrange(16, 24)),
                    param2: spec_u64_from_le_bytes(b.subrange(24, 32)),
                    param3: spec_u64_from_le_bytes(b.subrange(32, 40)),
                    rc: spec_u64_from_le_bytes(b.subrange(40, 48)),
                },
            ),
        }
    }
}

impl Type {
    /// The kind's number on the wire.
    pub fn code(self) -> (c: u32)
        ensures
            c == kind_code(self),
            1 <= c <= 10,
    {
        match self {
            Type::Malloc => 1,
            Type::Free => 2,
            Type::Calloc => 3,
            Type::Realloc => 4,
            Type::ReallocArray => 5,
            Type::PosixMemalign => 6,
            Type::AlignedAlloc => 7,
            Type::Valloc => 8,
            Type::Memalign => 9,
            Type::PvAlloc => 10,
        }
    }

    /// The kind with the given wire number; `None` for any other number.
    pub fn from_code(code: u32) -> (r: Option<Type>)
        ensures
            r == kind_of_code(code),
            r.is_some() <==> 1 <= code <= 10,
    {
        if code == 1 {
            Some(Type::Malloc)
        } else if code == 2 {
            Some(Type::Free)
        } else if code == 3 {
            Some(Type::Calloc)
        } else if code == 4 {
            Some(Type::Realloc)
        } else if code == 5 {
            Some(Type::ReallocArray)
        } else if code == 6 {
            Some(Type::PosixMemalign)
        } else if code == 7 {
            Some(Type::AlignedAlloc)
        } else if code == 8 {
            Some(Type::Valloc)
        } else if code == 9 {
            Some(Type::Memalign)
        } else if code == 10 {
            Some(Type::PvAlloc)
        } else {
            None
        }
    }

    /// Whether calls of this kind are reported at entry, with no return
    /// instrumentation to wait for.
    pub fn is_fire_and_forget(self) -> (r: bool)
        ensures
            r == (self == Type::Free),
    {
        match self {
            Type::Free => true,
            _ => false,
        }
    }
}

fn stack_to_word(id: i32) -> (w: u32)
    ensures
        w == stack_word(id),
{
    let wide: i64 = id as i64;
    if wide >= 0 {
        wide as u32
    } else {
        (wide + 0x1_0000_0000) as u32
    }
}

fn word_to_stack(word: u32) -> (id: i32)
    ensures
        id == word_stack(word),
{
    let wide: i64 = word as i64;
    if wide < 0x8000_0000 {
        wide as i32
    } else {
        (wide - 0x1_0000_0000) as i32
    }
}

impl MemEvent {
    /// The record as it travels: `RECORD_LEN` bytes.
    pub fn encode(&self) -> (out: Vec<u8>)
        ensures
            out@ == wire(*self),
            out@.len() == RECORD_LEN,
    {
        proof {
            lemma_auto_spec_u32_to_from_le_bytes();
            lemma_auto_spec_u64_to_from_le_bytes();
        }
        let mut out: Vec<u8> = u32_to_le_bytes(self.ty.code());
        let mut part: Vec<u8> = u32_to_le_bytes(self._reserve);
        out.append(&mut part);
        part = u32_to_le_bytes(self.tid);
        out.append(&mut part);
        part = u32_to_le_bytes(stack_to_word(self.stackid));
        out.append(&mut part);
        part = u64_to_le_bytes(self.param1);
        out.append(&mut part);
        part = u64_to_le_bytes(self.param2);
        out.append(&mut part);
        part = u64_to_le_bytes(self.param3);
        out.append(&mut part);
        part = u64_to_le_bytes(self.rc);
        out.append(&mut part);
        out
    }

    /// Reads a record from the front of `bytes`. Succeeds exactly when at
    /// least `RECORD_LEN` bytes are there and the kind's number is known;
    /// bytes beyond the record are ignored.
    pub fn decode(bytes: &[u8]) -> (r: Option<MemEvent>)
        ensures
            r == parse(bytes@),
            r.is_some() <==> bytes@.len() >= RECORD_LEN && 1 <= spec_u32_from_le_bytes(
                bytes@.subrange(0, 4),
            ) <= 10,
    {
        if bytes.len() < RECORD_LEN {
            return None;
        }
        let code: u32 = u32_from_le_bytes(slice_subrange(bytes, 0, 4));
        match Type::from_code(code) {
            None => None,
            Some(ty) => Some(
                MemEvent {
                    ty,
                    _reserve: u32_from_le_bytes(slice_subrange(bytes, 4, 8)),
                    tid: u32_from_le_bytes(slice_subrange(bytes, 8, 12)),
                    stackid: word_to_stack(u32_from_le_bytes(slice_subrange(bytes, 12, 16))),
                    param1: u64_from_le_bytes(slice_subrange(bytes, 16, 24)),
                    param2: u64_from_le_bytes(slice_subrange(bytes, 24, 32)),
                    param3: u64_from_le_bytes(slice_subrange(bytes, 32, 40)),
                    rc: u64_from_le_bytes(slice_subrange(bytes, 40, 48)),
                },
            ),
        }
    }
}

/// Decoding what was encoded gives the record back, whatever follows it.
pub proof fn lemma_decode_encode(e: MemEvent, rest: Seq<u8>)
    ensures
        wire(e).len() == RECORD_LEN,
        parse(wire(e) + rest) == Some(e),
{
    lemma_auto_spec_u32_to_from_le_bytes();
    lemma_auto_spec_u64_to_from_le_bytes();
    let b = wire(e) + rest;
    assert(b.subrange(0, 4) =~= spec_u32_to_le_bytes(kind_code(e.ty)));
    assert(b.subrange(4, 8) =~= spec_u32_to_le_bytes(e._reserve));
    assert(b.subrange(8, 12) =~= spec_u32_to_le_bytes(e.tid));
    assert(b.subrange(12, 16) =~= spec_u32_to_le_bytes(stack_word(e.stackid)));
    assert(b.subrange(16, 24) =~= spec_u64_to_le_bytes(e.param1));
    assert(b.subrange(24, 32) =~= spec_u64_to_le_bytes(e.param2));
    assert(b.subrange(32, 40) =~= spec_u64_to_le_bytes(e.param3));
    assert(b.subrange(40, 48) =~= spec_u64_to_le_bytes(e.rc));
    assert(word_stack(stack_word(e.stackid)) == e.stackid);
}

/// Encoding what was decoded gives back the bytes that were read.
pub proof fn lemma_encode_decode(b: Seq<u8>)
    requires
        parse(b).is_some(),
    ensures
        wire(parse(b).unwrap()) == b.subrange(0, RECORD_LEN as int),
{
    lemma_auto_spec_u32_to_from_le_bytes();
    lemma_auto_spec_u64_to_from_le_bytes();
    let e = parse(b).unwrap();
    let w = spec_u32_from_le_bytes(b.subrange(12, 16));
    assert(stack_word(word_stack(w)) == w);
    assert(kind_code(e.ty) == spec_u32_from_le_bytes(b.subrange(0, 4)));
    assert(wire(e) =~= b.subrange(0, 4) + b.subrange(4, 8) + b.subrange(8, 12) + b.subrange(
        12,
        16,
    ) + b.subrange(16, 24) + b.subrange(24, 32) + b.subrange(32, 40) + b.subrange(40, 48));
    assert(wire(e) =~= b.subrange(0, RECORD_LEN as int));
}

} // verus!
