use vstd::endian::{endianness, Endian};
use vstd::prelude::*;
use vstd::utf8::encode_utf8;

verus! {

/// The one way a write can fail: the region has too little room left.
#[derive(Clone, Copy, Debug, PartialEq, Eq, Structural)]
pub struct OutOfSpace;

/// A string as C reads it: its UTF-8 bytes, then a zero byte.
pub open spec fn c_string(s: Seq<char>) -> Seq<u8> {
    encode_utf8(s).push(0u8)
}

/// `before` with `data` stored at offset `at`.
pub open spec fn stored(before: Seq<u8>, at: int, data: Seq<u8>) -> Seq<u8> {
    before.subrange(0, at) + data + before.subrange(at + data.len(), before.len() as int)
}

/// The strings of `values` as C reads them, one after the other.
pub open spec fn packed_strings(values: Seq<Seq<char>>) -> Seq<u8>
    decreases values.len(),
{
    if values.len() == 0 {
        Seq::empty()
    } else {
        packed_strings(values.drop_last()) + c_string(values.last())
    }
}

/// The bytes that one address takes.
pub open spec fn pointer_width() -> nat {
    (usize::BITS / 8) as nat
}

/// `value` in `width` bytes, least significant byte first.
pub open spec fn le_bytes(value: nat, width: nat) -> Seq<u8>
    decreases width,
{
    if width == 0 {
        Seq::empty()
    } else {
        seq![(value % 256) as u8] + le_bytes(value / 256, (width - 1) as nat)
    }
}

/// `value` in `width` bytes, most significant byte first.
pub open spec fn be_bytes(value: nat, width: nat) -> Seq<u8> {
    le_bytes(value, width).reverse()
}

/// The address `value` as this machine keeps it in memory: in the byte
/// order that the machine has.
pub open spec fn native_bytes(value: int) -> Seq<u8> {
    match endianness() {
        Endian::Little => le_bytes(value as nat, pointer_width()),
        Endian::Big => be_bytes(value as nat, pointer_width()),
    }
}

/// The bytes that a table of `count` addresses and its closing null take.
pub open spec fn table_len(count: nat) -> nat {
    (count + 1) * pointer_width()
}

/// The bytes that `values` take as an array: the table, then the strings.
pub open spec fn string_array_len(values: Seq<Seq<char>>) -> nat {
    table_len(values.len()) + packed_strings(values).len()
}

/// The `i`-th entry of a table of addresses.
pub open spec fn slot(table: Seq<u8>, i: int) -> Seq<u8> {
    table.subrange(i * pointer_width(), (i + 1) * pointer_width())
}

/// Whether `table` is the table of addresses for `values`, packed from the
/// address `first` on: entry `i` holds the address of string `i`, and the entry
/// after the last is null.
pub open spec fn is_pointer_table(table: Seq<u8>, first: int, values: Seq<Seq<char>>) -> bool {
    &&& table.len() == table_len(values.len())
    &&& forall|i: int|
        0 <= i < values.len() ==> #[trigger] slot(table, i) == native_bytes(
            first + packed_strings(values.take(i)).len(),
        )
    &&& slot(table, values.len() as int) == Seq::new(pointer_width(), |i: int| 0u8)
}

/// What a [`CBuffer`] stands for: a region of memory that starts at the
/// address `base`, and how much of it has been used.
pub struct BufferView {
    pub base: int,
    pub bytes: Seq<u8>,
    pub cursor: int,
}

impl BufferView {
    pub open spec fn wf(self) -> bool {
        &&& 0 <= self.cursor <= self.bytes.len()
        &&& 0 <= self.base
        &&& self.base + self.bytes.len() <= usize::MAX
    }

    /// The bytes that are still free.
    pub open spec fn remaining(self) -> int {
        self.bytes.len() - self.cursor
    }

    /// Whether `n` more bytes can be written.
    pub open spec fn fits(self, n: nat) -> bool {
        self.cursor + n <= self.bytes.len()
    }

    /// The address of the next free byte.
    pub open spec fn address(self) -> int {
        self.base + self.cursor
    }

    /// The state after `data` was written at the cursor.
    pub open spec fn append(self, data: Seq<u8>) -> BufferView {
        BufferView {
            base: self.base,
            bytes: stored(self.bytes, self.cursor, data),
            cursor: self.cursor + data.len(),
        }
    }
}

/// Packing one more string appends it to what was packed before.
pub proof fn lemma_packed_strings_step(values: Seq<Seq<char>>, i: int)
    requires
        0 <= i < values.len(),
    ensures
        packed_strings(values.take(i + 1)) == packed_strings(values.take(i)) + c_string(values[i]),
{
    assert(values.take(i + 1).drop_last() =~= values.take(i));
}

/// What is packed from the first `i` strings is no longer than what is packed
/// from all of them.
pub proof fn lemma_packed_strings_prefix(values: Seq<Seq<char>>, i: int)
    requires
        0 <= i <= values.len(),
    ensures
        packed_strings(values.take(i)).len() <= packed_strings(values).len(),
    decreases values.len() - i,
{
    if i == values.len() {
        assert(values.take(i) =~= values);
    } else {
        lemma_packed_strings_step(values, i);
        lemma_packed_strings_prefix(values, i + 1);
    }
}

/// A region with nothing left takes no string, not even the empty one: the
/// terminator alone needs a byte.
pub proof fn lemma_full_region_takes_no_string(buffer: BufferView, value: Seq<char>)
    requires
        buffer.wf(),
        buffer.remaining() == 0,
    ensures
        !buffer.fits(c_string(value).len()),
{
}

/// An array fits only if the table and every string fit: where the table
/// and the strings up to string `i` are too much, so is the array.
pub proof fn lemma_array_needs_every_string(buffer: BufferView, values: Seq<Seq<char>>, i: int)
    requires
        0 <= i < values.len(),
        !buffer.fits(table_len(values.len()) + packed_strings(values.take(i + 1)).len()),
    ensures
        !buffer.fits(string_array_len(values)),
{
    lemma_packed_strings_prefix(values, i + 1);
}

/// An address in either byte order takes as many bytes as the width says.
pub proof fn lemma_le_bytes_len(value: nat, width: nat)
    ensures
        le_bytes(value, width).len() == width,
        be_bytes(value, width).len() == width,
    decreases width,
{
    if width > 0 {
        lemma_le_bytes_len(value / 256, (width - 1) as nat);
    }
}

/// A table of `count` addresses fits into `free` bytes exactly when `free`
/// holds more than `count` whole entries.
proof fn lemma_table_fits(count: nat, free: nat)
    ensures
        pointer_width() == 4 || pointer_width() == 8,
        free / pointer_width() > count <==> table_len(count) <= free,
{
    assert(pointer_width() == 4 || pointer_width() == 8);
}

/// Entry `j` of a table ends where entry `j + 1` starts, and no later than
/// entry `k` starts for any later `k`; the table of `k` addresses ends one
/// entry after that.
proof fn lemma_slots(j: int, k: int)
    requires
        0 <= j <= k,
    ensures
        0 <= j * pointer_width() <= k * pointer_width(),
        (j + 1) * pointer_width() == j * pointer_width() + pointer_width(),
        j < k ==> (j + 1) * pointer_width() <= k * pointer_width(),
        table_len(k as nat) == k * pointer_width() + pointer_width(),
{
    let w = pointer_width() as int;
    assert(0 <= j * w <= k * w) by (nonlinear_arith)
        requires
            0 <= j <= k,
            0 <= w,
    ;
    assert((j + 1) * w == j * w + w) by (nonlinear_arith);
    assert((k + 1) * w == k * w + w) by (nonlinear_arith);
    if j < k {
        assert((j + 1) * w <= k * w) by (nonlinear_arith)
            requires
                0 <= j + 1 <= k,
                0 <= w,
        ;
    }
}

/// [`usize::to_ne_bytes`]: the bytes of `address` as this machine keeps them
/// in memory, least significant byte first on a little-endian machine and
/// most significant byte first on a big-endian one.
#[verifier::external_body]
fn address_bytes(address: usize) -> (bytes: Vec<u8>)
    ensures
        bytes@ == native_bytes(address as int),
{
    address.to_ne_bytes().to_vec()
}

/// The bytes that one address takes on this machine.
fn pointer_size() -> (width: usize)
    ensures
        width == pointer_width(),
        width == 4 || width == 8,
{
    (usize::BITS / 8) as usize
}

/// A bounds-checked writer over memory that the caller owns. It never grows
/// the region and keeps nothing once the borrow ends.
pub struct CBuffer<'a> {
    /// The caller's memory.
    pub region: &'a mut [u8],
    /// The address at which the host sees the first byte of `region`.
    pub base: usize,
    /// The offset of the next free byte.
    pub pos: usize,
}

impl<'a> View for CBuffer<'a> {
    type V = BufferView;

    open spec fn view(&self) -> BufferView {
        BufferView { base: self.base as int, bytes: self.region@, cursor: self.pos as int }
    }
}

impl<'a> CBuffer<'a> {
    /// Binds a writer to `region`, which the host placed at address `base`.
    pub fn new(region: &'a mut [u8], base: usize) -> (buffer: Self)
        requires
            base + old(region)@.len() <= usize::MAX,
        ensures
            buffer@.wf(),
            buffer@ == (BufferView { base: base as int, bytes: old(region)@, cursor: 0 }),
            final(region)@ == final(buffer.region)@,
    {
        CBuffer { region, base, pos: 0 }
    }

    /// Sets `len` bytes aside and returns the address of the first.
    pub fn reserve(&mut self, len: usize) -> (r: Result<usize, OutOfSpace>)
        requires
            old(self)@.wf(),
        ensures
            final(self)@.wf(),
            final(final(self).region)@ == final(old(self).region)@,
            r is Ok <==> old(self)@.fits(len as nat),
            r is Ok ==> r->Ok_0 == old(self)@.address() && final(self)@ == (BufferView {
                cursor: old(self)@.cursor + len,
                ..old(self)@
            }),
            r is Err ==> final(self)@ == old(self)@,
    {
        if self.region.len() - self.pos < len {
            return Err(OutOfSpace);
        }
        let start = self.pos;
        self.pos = start + len;
        Ok(self.base + start)
    }

    /// Overwrites the bytes from offset `at` on with `data`; the cursor stays.
    fn put(&mut self, at: usize, data: &[u8])
        requires
            at + data@.len() <= old(self).region@.len(),
        ensures
            final(final(self).region)@ == final(old(self).region)@,
            final(self).base == old(self).base,
            final(self).pos == old(self).pos,
            final(self).region@ == stored(old(self).region@, at as int, data@),
    {
        let len = data.len();
        let capacity = self.region.len();
        let mut i: usize = 0;
        while i < len
            invariant
                i <= len,
                len == data@.len(),
                at + len <= capacity,
                capacity == old(self).region@.len(),
                self.pos == old(self).pos,
                self.base == old(self).base,
                self.region@ == stored(old(self).region@, at as int, data@.take(i as int)),
                final(self.region)@ == final(old(self).region)@,
            decreases len - i,
        {
            self.region[at + i] = data[i];
            i += 1;
        }
    }

    /// Overwrites `len` bytes from offset `at` on with zero; the cursor stays.
    fn put_zeros(&mut self, at: usize, len: usize)
        requires
            at + len <= old(self).region@.len(),
        ensures
            final(final(self).region)@ == final(old(self).region)@,
            final(self).base == old(self).base,
            final(self).pos == old(self).pos,
            final(self).region@ == stored(
                old(self).region@,
                at as int,
                Seq::new(len as nat, |i: int| 0u8),
            ),
    {
        let capacity = self.region.len();
        let mut i: usize = 0;
        while i < len
            invariant
                i <= len,
                at + len <= capacity,
                capacity == old(self).region@.len(),
                self.pos == old(self).pos,
                self.base == old(self).base,
                self.region@ == stored(
                    old(self).region@,
                    at as int,
                    Seq::new(i as nat, |i: int| 0u8),
                ),
                final(self.region)@ == final(old(self).region)@,
            decreases len - i,
        {
            self.region[at + i] = 0;
            i += 1;
        }
    }

    /// Copies `value` and a terminating zero byte to the cursor and returns
    /// the address of the copy.
    pub fn write_string(&mut self, value: &str) -> (r: Result<usize, OutOfSpace>)
        requires
            old(self)@.wf(),
        ensures
            final(self)@.wf(),
            final(final(self).region)@ == final(old(self).region)@,
            r is Ok <==> old(self)@.fits(c_string(value@).len()),
            r is Ok ==> r->Ok_0 == old(self)@.address() && final(self)@ == old(self)@.append(
                c_string(value@),
            ),
            r is Err ==> final(self)@ == old(self)@,
    {
        let bytes = value.as_bytes();
        let len = bytes.len();
        if self.region.len() - self.pos <= len {
            return Err(OutOfSpace);
        }
        let start = self.pos;
        self.put(start, bytes);
        self.region[start + len] = 0;
        self.pos = start + len + 1;
        assert(self.region@ =~= stored(old(self).region@, start as int, c_string(value@)));
        Ok(self.base + start)
    }

    /// Whether `values`, table and strings, fit into what is left.
    fn array_fits(&self, values: &[String]) -> (fits: bool)
        requires
            self@.wf(),
        ensures
            fits == self@.fits(string_array_len(values.deep_view())),
    {
        let ghost texts = values.deep_view();
        let width = pointer_size();
        let count = values.len();
        let free = self.region.len() - self.pos;
        proof {
            lemma_table_fits(count as nat, free as nat);
        }
        if free / width <= count {
            return false;
        }
        let mut need: usize = (count + 1) * width;
        let mut i: usize = 0;
        while i < count
            invariant
                i <= count,
                count == values@.len(),
                texts == values.deep_view(),
                need == table_len(count as nat) + packed_strings(texts.take(i as int)).len(),
                need <= free,
                free == self@.remaining(),
            decreases count - i,
        {
            let len = values[i].as_str().as_bytes().len();
            proof {
                lemma_packed_strings_step(texts, i as int);
                lemma_packed_strings_prefix(texts, i + 1);
            }
            if free - need <= len {
                return false;
            }
            need = need + len + 1;
            i += 1;
        }
        assert(texts.take(count as int) =~= texts);
        true
    }

    /// Writes `values` as a C array of strings: a table with the address of
    /// each string and a closing null, then the strings themselves. Returns
    /// the address of the table. Nothing is written unless all of it fits.
    pub fn write_string_array(&mut self, values: &[String]) -> (r: Result<usize, OutOfSpace>)
        requires
            old(self)@.wf(),
        ensures
            final(self)@.wf(),
            final(final(self).region)@ == final(old(self).region)@,
            r is Ok <==> old(self)@.fits(string_array_len(values.deep_view())),
            r is Ok ==> {
                let table = final(self)@.bytes.subrange(
                    old(self)@.cursor,
                    old(self)@.cursor + table_len(values@.len()),
                );
                &&& r->Ok_0 == old(self)@.address()
                &&& is_pointer_table(
                    table,
                    old(self)@.address() + table_len(values@.len()),
                    values.deep_view(),
                )
                &&& final(self)@ == old(self)@.append(table + packed_strings(values.deep_view()))
            },
            r is Err ==> final(self)@ == old(self)@,
    {
        if !self.array_fits(values) {
            return Err(OutOfSpace);
        }
        let ghost texts = values.deep_view();
        let ghost before = self.region@;
        let width = pointer_size();
        let count = values.len();
        let start = self.pos;
        proof {
            lemma_table_fits(count as nat, (before.len() - start) as nat);
        }
        self.reserve((count + 1) * width)?;
        let strings = self.pos;
        let mut entry = start;
        let mut i: usize = 0;
        while i < count
            invariant
                i <= count,
                count == values@.len(),
                texts == values.deep_view(),
                width == pointer_width(),
                strings == start + table_len(count as nat),
                entry == start + i * width,
                strings + packed_strings(texts).len() <= before.len(),
                self.region@.len() == before.len(),
                self.base == old(self).base,
                self.base + before.len() <= usize::MAX,
                self.pos == strings + packed_strings(texts.take(i as int)).len(),
                forall|k: int| 0 <= k < start ==> self.region@[k] == before[k],
                forall|k: int| self.pos <= k < before.len() ==> self.region@[k] == before[k],
                self.region@.subrange(strings as int, self.pos as int) == packed_strings(
                    texts.take(i as int),
                ),
                forall|j: int|
                    0 <= j < i ==> #[trigger] slot(
                        self.region@.subrange(start as int, strings as int),
                        j,
                    ) == native_bytes(self.base + strings + packed_strings(texts.take(j)).len()),
                final(self.region)@ == final(old(self).region)@,
            decreases count - i,
        {
            proof {
                lemma_packed_strings_step(texts, i as int);
                lemma_packed_strings_prefix(texts, i + 1);
                lemma_slots(i as int, count as int);
            }
            let ghost mid = self.region@;
            let address = self.write_string(values[i].as_str())?;
            let bytes = address_bytes(address);
            proof {
                lemma_le_bytes_len(address as nat, pointer_width());
            }
            self.put(entry, bytes.as_slice());
            proof {
                let now = self.region@;
                let table = now.subrange(start as int, strings as int);
                assert(slot(table, i as int) =~= bytes@);
                assert forall|j: int| 0 <= j < i implies #[trigger] slot(table, j) == native_bytes(
                    self.base + strings + packed_strings(texts.take(j)).len(),
                ) by {
                    lemma_slots(j, i as int);
                    assert(slot(table, j) =~= slot(mid.subrange(start as int, strings as int), j));
                }
            }
            entry = entry + width;
            i += 1;
        }
        proof {
            lemma_slots(count as int, count as int);
        }
        let ghost mid = self.region@;
        self.put_zeros(entry, width);
        proof {
            let now = self.region@;
            let table = now.subrange(start as int, strings as int);
            assert(texts.take(count as int) =~= texts);
            assert(now =~= stored(before, start as int, table + packed_strings(texts)));
            assert(slot(table, count as int) =~= Seq::new(pointer_width(), |i: int| 0u8));
            assert forall|j: int| 0 <= j < count implies #[trigger] slot(table, j) == native_bytes(
                self.base + strings + packed_strings(texts.take(j)).len(),
            ) by {
                lemma_slots(j, count as int);
                assert(slot(table, j) =~= slot(mid.subrange(start as int, strings as int), j));
            }
        }
        Ok(self.base + start)
    }
}

} // verus!
