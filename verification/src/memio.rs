//! Memory and port accesses, described as values.
//!
//! Nothing here reads or writes the machine. Each function returns the
//! accesses that make up the operation, in the order in which they have to be
//! performed: one byte at a time, in address order.

use vstd::prelude::*;
use vstd::std_specs::iter::IteratorSpec;

verus! {

/// One elementary access to the machine.
#[derive(Clone, Copy, Debug, Hash, PartialEq, Eq, Structural)]
pub enum Access {
    /// Uncached store of `value` at a physical address.
    Write { address: u64, value: u8 },
    /// Uncached load of the byte at a physical address.
    Read { address: u64 },
    /// `value` sent to an I/O port.
    Out { port: u16, value: u8 },
    /// A byte fetched from an I/O port.
    In { port: u16 },
}

/// The stores that put `bytes` at `address`, one byte each, lowest address first.
pub open spec fn stores(address: int, bytes: Seq<u8>) -> Seq<Access> {
    Seq::new(bytes.len(), |i: int| Access::Write { address: (address + i) as u64, value: bytes[i] })
}

/// The loads that fetch `count` bytes from `address` upwards, lowest address first.
pub open spec fn loads(address: int, count: nat) -> Seq<Access> {
    Seq::new(count, |i: int| Access::Read { address: (address + i) as u64 })
}

/// Whether `count` bytes from `address` upwards all have an address.
pub open spec fn addressable(address: int, count: int) -> bool {
    0 <= address && 0 <= count && address + count <= u64::MAX + 1
}

/// What memory holds once the accesses have been carried out in order: a
/// store replaces the byte at its address, and no other access changes
/// memory.
pub open spec fn memory_after(memory: Map<u64, u8>, accesses: Seq<Access>) -> Map<u64, u8>
    decreases accesses.len(),
{
    if accesses.len() == 0 {
        memory
    } else {
        let before = memory_after(memory, accesses.drop_last());
        match accesses.last() {
            Access::Write { address, value } => before.insert(address, value),
            _ => before,
        }
    }
}

/// Carrying out one list of accesses and then another is carrying out the
/// two as one.
pub proof fn lemma_memory_after_concat(memory: Map<u64, u8>, a: Seq<Access>, b: Seq<Access>)
    ensures
        memory_after(memory, a + b) == memory_after(memory_after(memory, a), b),
    decreases b.len(),
{
    if b.len() == 0 {
        assert(a + b =~= a);
    } else {
        lemma_memory_after_concat(memory, a, b.drop_last());
        assert((a + b).drop_last() =~= a + b.drop_last());
        assert((a + b).last() == b.last());
    }
}

/// After the stores of `bytes` at `address`, memory holds `bytes` there and
/// is unchanged everywhere else.
pub proof fn lemma_stores_land(memory: Map<u64, u8>, address: int, bytes: Seq<u8>)
    requires
        addressable(address, bytes.len() as int),
    ensures
        forall|i: int|
            0 <= i < bytes.len() ==> memory_after(
                memory,
                stores(address, bytes),
            ).contains_pair(#[trigger] ((address + i) as u64), bytes[i]),
        forall|a: u64|
            !(address <= a < address + bytes.len()) ==> {
                &&& #[trigger] memory_after(memory, stores(address, bytes)).contains_key(a)
                    == memory.contains_key(a)
                &&& memory.contains_key(a) ==> memory_after(memory, stores(address, bytes))[a]
                    == memory[a]
            },
    decreases bytes.len(),
{
    if bytes.len() > 0 {
        let front = bytes.drop_last();
        lemma_stores_land(memory, address, front);
        assert(stores(address, bytes).drop_last() =~= stores(address, front));
        let n = bytes.len() as int;
        assert(stores(address, bytes).last() == Access::Write {
            address: (address + n - 1) as u64,
            value: bytes[n - 1],
        });
        assert forall|i: int| 0 <= i < bytes.len() implies memory_after(
            memory,
            stores(address, bytes),
        ).contains_pair(#[trigger] ((address + i) as u64), bytes[i]) by {
            if i < n - 1 {
                assert(front[i] == bytes[i]);
                assert(memory_after(memory, stores(address, front)).contains_pair(
                    (address + i) as u64,
                    front[i],
                ));
            }
        }
        assert forall|a: u64| !(address <= a < address + bytes.len()) implies {
            &&& #[trigger] memory_after(memory, stores(address, bytes)).contains_key(a)
                == memory.contains_key(a)
            &&& memory.contains_key(a) ==> memory_after(memory, stores(address, bytes))[a]
                == memory[a]
        } by {
            assert(memory_after(memory, stores(address, front)).contains_key(a)
                == memory.contains_key(a));
        }
    }
}

/// A value with a fixed layout in memory, free of padding.
pub trait Pod {
    /// How many bytes a value of the type takes.
    spec fn size() -> nat;

    /// The bytes of the value, lowest address first.
    spec fn bytes(&self) -> Seq<u8>;

    /// Every value takes `size()` bytes, and at least one.
    proof fn lemma_size(&self)
        ensures
            self.bytes().len() == Self::size(),
            Self::size() > 0,
    ;

    /// Appends the bytes of the value to `out`.
    fn put_bytes(&self, out: &mut Vec<u8>)
        ensures
            final(out)@ == old(out)@ + self.bytes(),
    ;
}

impl Pod for u8 {
    open spec fn size() -> nat {
        1
    }

    open spec fn bytes(&self) -> Seq<u8> {
        seq![*self]
    }

    proof fn lemma_size(&self) {
    }

    fn put_bytes(&self, out: &mut Vec<u8>) {
        out.push(*self);
        assert(out@ =~= old(out)@ + self.bytes());
    }
}

/// The bytes of a run of values: those of the first value, then those of the
/// second, and so on.
pub open spec fn flat<T: Pod>(s: Seq<T>) -> Seq<u8>
    decreases s.len(),
{
    if s.len() == 0 {
        Seq::empty()
    } else {
        flat(s.drop_last()) + s.last().bytes()
    }
}

/// A run of `n` values takes `n * size` bytes.
pub proof fn lemma_flat_len<T: Pod>(s: Seq<T>)
    ensures
        flat(s).len() == s.len() * T::size(),
    decreases s.len(),
{
    if s.len() > 0 {
        lemma_flat_len(s.drop_last());
        s.last().lemma_size();
        assert((s.len() - 1) * T::size() + T::size() == s.len() * T::size())
            by (nonlinear_arith);
    } else {
        assert(0 * T::size() == 0) by (nonlinear_arith);
    }
}

/// Byte `j` of value `i` stands at offset `i * size + j` of the run's bytes.
pub proof fn lemma_flat_index<T: Pod>(s: Seq<T>, i: int, j: int)
    requires
        0 <= i < s.len(),
        0 <= j < T::size(),
    ensures
        0 <= i * T::size() + j < flat(s).len(),
        flat(s)[i * T::size() + j] == s[i].bytes()[j],
    decreases s.len(),
{
    let n = T::size() as int;
    lemma_flat_len(s);
    lemma_flat_len(s.drop_last());
    s.last().lemma_size();
    s[i].lemma_size();
    assert(0 <= i * n) by (nonlinear_arith)
        requires
            0 <= i,
            0 <= n,
    ;
    assert(i * n + n <= s.len() * n) by (nonlinear_arith)
        requires
            i < s.len(),
            0 <= n,
    ;
    if i == s.len() - 1 {
        assert((s.len() - 1) * n == s.drop_last().len() * n);
    } else {
        lemma_flat_index(s.drop_last(), i, j);
    }
}

/// The bytes of one value.
pub fn cast_pod<T: Pod>(src: &T) -> (bytes: Vec<u8>)
    ensures
        bytes@ == src.bytes(),
        bytes@.len() == T::size(),
{
    let mut out: Vec<u8> = Vec::new();
    src.put_bytes(&mut out);
    proof {
        src.lemma_size();
        assert(out@ =~= src.bytes());
    }
    out
}

/// The bytes of a slice of values: as many as the slice has elements, times
/// the size of one.
pub fn cast_slice<T: Pod>(src: &[T]) -> (bytes: Vec<u8>)
    ensures
        bytes@ == flat(src@),
        bytes@.len() == src@.len() * T::size(),
{
    let mut out: Vec<u8> = Vec::new();
    let mut i: usize = 0;
    while i < src.len()
        invariant
            i <= src.len(),
            out@ == flat(src@.take(i as int)),
        decreases src.len() - i,
    {
        proof {
            assert(src@.take(i + 1).drop_last() =~= src@.take(i as int));
            assert(src@.take(i + 1).last() == src@[i as int]);
        }
        src[i].put_bytes(&mut out);
        i += 1;
    }
    proof {
        assert(src@.take(i as int) =~= src@);
        lemma_flat_len(src@);
    }
    out
}

/// The access that sends `val` to the I/O port `port`.
pub fn mmio_outb(port: u16, val: u8) -> (access: Access)
    ensures
        access == (Access::Out { port, value: val }),
{
    Access::Out { port, value: val }
}

/// The access that fetches a byte from the I/O port `port`.
pub fn mmio_inb(port: u16) -> (access: Access)
    ensures
        access == (Access::In { port }),
{
    Access::In { port }
}

/// The stores that put the bytes of `val` at `address`.
pub fn vwrite<T: Pod>(address: u64, val: &T) -> (accesses: Vec<Access>)
    requires
        addressable(address as int, T::size() as int),
    ensures
        accesses@ == stores(address as int, val.bytes()),
{
    let bytes = cast_pod(val);
    vmemwrite(address, bytes.as_slice(), bytes.len())
}

/// The stores that put the first `count` bytes of `src` at `address`.
///
/// `src` has to hold at least `count` bytes.
pub fn vmemwrite(address: u64, src: &[u8], count: usize) -> (accesses: Vec<Access>)
    requires
        count <= src@.len(),
        addressable(address as int, count as int),
    ensures
        accesses@ == stores(address as int, src@.take(count as int)),
{
    let mut out: Vec<Access> = Vec::new();
    let mut i: usize = 0;
    while i < count
        invariant
            i <= count <= src@.len(),
            addressable(address as int, count as int),
            out@ == stores(address as int, src@.take(i as int)),
        decreases count - i,
    {
        out.push(Access::Write { address: address + i as u64, value: src[i] });
        i += 1;
        assert(out@ =~= stores(address as int, src@.take(i as int)));
    }
    out
}

/// The stores that put the first `count` bytes drawn from `src` at `address`.
///
/// For producers that cannot lay out a whole buffer beforehand. `src` has to
/// yield at least `count` bytes.
pub fn vmemwrite_iter(address: u64, mut src: impl Iterator<Item = u8>, count: usize) -> (accesses:
    Vec<Access>)
    requires
        src.obeys_prophetic_iter_laws(),
        count <= src.remaining().len(),
        addressable(address as int, count as int),
    ensures
        accesses@ == stores(address as int, src.remaining().take(count as int)),
{
    let ghost all = src.remaining();
    let mut out: Vec<Access> = Vec::new();
    let mut i: usize = 0;
    while i < count
        invariant
            i <= count <= all.len(),
            addressable(address as int, count as int),
            src.obeys_prophetic_iter_laws(),
            src.remaining() == all.skip(i as int),
            out@ == stores(address as int, all.take(i as int)),
        decreases count - i,
    {
        match src.next() {
            Some(b) => {
                out.push(Access::Write { address: address + i as u64, value: b });
            },
            None => {
                assert(false);
            },
        }
        i += 1;
        assert(src.remaining() =~= all.skip(i as int));
        assert(out@ =~= stores(address as int, all.take(i as int)));
    }
    out
}

/// The loads that fetch `count` bytes from `address` upwards.
///
/// The bytes that they return go to `vmemread_into`.
pub fn vmemread(address: u64, count: usize) -> (accesses: Vec<Access>)
    requires
        addressable(address as int, count as int),
    ensures
        accesses@ == loads(address as int, count as nat),
{
    let mut out: Vec<Access> = Vec::new();
    let mut i: usize = 0;
    while i < count
        invariant
            i <= count,
            addressable(address as int, count as int),
            out@ == loads(address as int, i as nat),
        decreases count - i,
    {
        out.push(Access::Read { address: address + i as u64 });
        i += 1;
        assert(out@ =~= loads(address as int, i as nat));
    }
    out
}

/// Puts the `count` bytes that the loads of `vmemread` returned at the start of `dst`.
///
/// `dst` has to have room for `count` bytes.
pub fn vmemread_into(dst: &mut [u8], loaded: &[u8], count: usize)
    requires
        count <= old(dst)@.len(),
        count <= loaded@.len(),
    ensures
        final(dst)@ == loaded@.take(count as int) + old(dst)@.skip(count as int),
{
    let mut i: usize = 0;
    while i < count
        invariant
            i <= count <= loaded@.len(),
            dst@.len() == old(dst)@.len(),
            count <= dst@.len(),
            dst@ == loaded@.take(i as int) + old(dst)@.skip(i as int),
        decreases count - i,
    {
        dst[i] = loaded[i];
        i += 1;
        assert(dst@ =~= loaded@.take(i as int) + old(dst)@.skip(i as int));
    }
}

/// The stores that set `count` bytes from `address` upwards to `val`.
pub fn vmemset(address: u64, val: u8, count: usize) -> (accesses: Vec<Access>)
    requires
        addressable(address as int, count as int),
    ensures
        accesses@ == stores(address as int, Seq::new(count as nat, |i: int| val)),
{
    let mut out: Vec<Access> = Vec::new();
    let mut i: usize = 0;
    while i < count
        invariant
            i <= count,
            addressable(address as int, count as int),
            out@ == stores(address as int, Seq::new(i as nat, |k: int| val)),
        decreases count - i,
    {
        out.push(Access::Write { address: address + i as u64, value: val });
        i += 1;
        assert(out@ =~= stores(address as int, Seq::new(i as nat, |k: int| val)));
    }
    out
}

} // verus!
