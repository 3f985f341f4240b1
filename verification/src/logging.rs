//! The firmware's logging system: a 4 KB ring of log text kept in RAM (never
//! written to flash), the line format of the system logger, the redirection of
//! script `print()` output into the log, and the MAVLink STATUSTEXT and
//! Telegram event messages.

use vstd::prelude::*;
use vstd::string::StringSliceAdditionalSpecFns;
use vstd::utf8::{
    encode_utf8, is_ascii_chars, is_ascii_chars_encode_utf8, pop_first_scalar, valid_first_scalar,
    valid_utf8,
};
use crate::bounded_text::{
    text256_as_str, text256_bytes, text256_new, text256_push_str, text4096_bytes,
    text4096_new, text4096_push_str, text64_as_str, text64_bytes, text64_new,
    text64_push_str, text128_new, text128_push_str, text128_bytes,
};
use crate::status_queue::{self, queue_after_send, StatusQueue};
use crate::text::{
    decimal_chars, decimal_string, fill_state, formatted, lemma_decimal_chars_shape,
    lemma_formatted_within_capacity, lemma_max_valid_prefix, lemma_utf8_clean_after_cut, lemma_utf8_clean_len,
    lemma_utf8_clean_valid, pow10, str_from_utf8,
    utf8_clean, utf8_error_valid_up_to,
};
use vstd::slice::slice_subrange;

verus! {

/// Size of the RAM log ring in bytes.
pub const BUF_SIZE: usize = 4096;

/// Capacity of one formatted log line in bytes.
pub const MSG_MAX: usize = 256;

/// The RAM log ring: text is written at `write_pos` and wraps around the end.
pub struct LogBuffer {
    data: Vec<u8>,
    write_pos: usize,
    overflow_count: usize,
}

/// The ring after `m` was written into `data` starting at `pos`, wrapping
/// around the end: the byte at index `i` is the one of `m` that lands there,
/// or the old byte where `m` does not reach.
pub open spec fn ring_write(data: Seq<u8>, pos: int, m: Seq<u8>) -> Seq<u8> {
    Seq::new(
        data.len(),
        |i: int|
            {
                let off = (i - pos) % (BUF_SIZE as int);
                if off < m.len() {
                    m[off]
                } else {
                    data[i]
                }
            },
    )
}

/// The entry that a write of `text` leaves in the ring before its terminating
/// zero: the text cut to `BUF_SIZE - 2` bytes, then a line feed.
pub open spec fn log_entry(text: Seq<u8>) -> Seq<u8> {
    let n = if text.len() < BUF_SIZE - 2 {
        text.len()
    } else {
        (BUF_SIZE - 2) as nat
    };
    text.take(n as int).push(10u8)
}

/// The bytes of `s` other than its zero bytes, in order.
pub open spec fn drop_nul(s: Seq<u8>) -> Seq<u8>
    decreases s.len(),
{
    if s.len() == 0 {
        Seq::<u8>::empty()
    } else if s.last() == 0 {
        drop_nul(s.drop_last())
    } else {
        drop_nul(s.drop_last()).push(s.last())
    }
}

/// The ring read in circular order, oldest byte first: from just after the
/// write position (which holds the zero that ends the latest entry) to the end
/// of the ring, then from the start up to the write position.
pub open spec fn ring_order(data: Seq<u8>, pos: int) -> Seq<u8> {
    data.skip(pos + 1) + data.take(pos)
}

/// What a dump of the ring reads: the ring in circular order, oldest byte
/// first, without its zero bytes.
pub open spec fn live_text(data: Seq<u8>, pos: int) -> Seq<u8> {
    drop_nul(ring_order(data, pos))
}

/// Whether a write of `text` at `pos` runs past the end of the ring, so that
/// part of it lands at the start: its entry and terminating zero do not fit
/// before the end.
pub open spec fn write_wraps(pos: nat, text: Seq<u8>) -> bool {
    pos + log_entry(text).len() >= BUF_SIZE
}

/// The overflow count after a write: one more when the write wrapped (held at
/// `usize::MAX` once it got there).
pub open spec fn overflows_after(count: nat, pos: nat, text: Seq<u8>) -> nat {
    if write_wraps(pos, text) && count < usize::MAX {
        count + 1
    } else {
        count
    }
}

/// A ring of `BUF_SIZE` zero bytes.
pub open spec fn zeroed_ring() -> Seq<u8> {
    Seq::new(BUF_SIZE as nat, |i: int| 0u8)
}

impl LogBuffer {
    #[verifier::type_invariant]
    spec fn well_formed(self) -> bool {
        &&& self.data.len() == BUF_SIZE
        &&& self.write_pos < BUF_SIZE
    }

    /// The bytes of the ring.
    pub closed spec fn contents(self) -> Seq<u8> {
        self.data@
    }

    /// Where the next byte will be written.
    pub closed spec fn position(self) -> nat {
        self.write_pos as nat
    }

    /// How many times a write ran past the end of the ring and wrapped to its
    /// start (kept for debugging).
    pub closed spec fn overflows(self) -> nat {
        self.overflow_count as nat
    }

    /// An empty ring: all bytes zero, writing starts at the beginning.
    pub fn new() -> (buf: Self)
        ensures
            buf.contents() == zeroed_ring(),
            buf.position() == 0,
            buf.overflows() == 0,
            buf.contents().len() == BUF_SIZE,
    {
        LogBuffer { data: zeroed_bytes(), write_pos: 0, overflow_count: 0 }
    }

    /// How many times a write wrapped to the start of the ring.
    pub fn overflow_count(&self) -> (n: usize)
        ensures
            n == self.overflows(),
            self.contents().len() == BUF_SIZE,
            self.position() < BUF_SIZE,
    {
        proof {
            use_type_invariant(self);
        }
        self.overflow_count
    }
}

/// `BUF_SIZE` zero bytes.
fn zeroed_bytes() -> (v: Vec<u8>)
    ensures
        v@ == zeroed_ring(),
{
    let mut v: Vec<u8> = Vec::new();
    let mut i: usize = 0;
    while i < BUF_SIZE
        invariant
            i <= BUF_SIZE,
            v@ == Seq::new(i as nat, |j: int| 0u8),
        decreases BUF_SIZE - i,
    {
        v.push(0u8);
        i = i + 1;
    }
    v
}

/// Writing one more byte of `m` moves the ring by exactly one position.
proof fn lemma_ring_write_step(data: Seq<u8>, pos: int, m: Seq<u8>, k: int)
    requires
        data.len() == BUF_SIZE,
        0 <= pos < BUF_SIZE,
        0 <= k < m.len(),
        m.len() <= BUF_SIZE,
    ensures
        ring_write(data, pos, m.take(k + 1)) == ring_write(data, pos, m.take(k)).update(
            (pos + k) % (BUF_SIZE as int),
            m[k],
        ),
{
    let lhs = ring_write(data, pos, m.take(k + 1));
    let rhs = ring_write(data, pos, m.take(k)).update((pos + k) % (BUF_SIZE as int), m[k]);
    assert forall|i: int| 0 <= i < BUF_SIZE implies lhs[i] == rhs[i] by {
        let off = (i - pos) % (BUF_SIZE as int);
        if i == (pos + k) % (BUF_SIZE as int) {
            assert(off == k);
        } else {
            assert(off != k);
        }
    }
    assert(lhs =~= rhs);
}

/// Moving one slot on from `(p + k) mod BUF_SIZE` lands on
/// `(p + k + 1) mod BUF_SIZE`.
proof fn lemma_next_slot(p: int, k: int)
    requires
        0 <= p,
        0 <= k,
    ensures
        ((p + k) % (BUF_SIZE as int) + 1) % (BUF_SIZE as int) == (p + k + 1) % (BUF_SIZE as int),
{
}

/// The entry of a text with its terminating zero: the kept bytes of the
/// text, a line feed, a zero.
proof fn lemma_entry_layout(text: Seq<u8>, len: int)
    requires
        len == (if text.len() < BUF_SIZE - 2 {
            text.len() as int
        } else {
            BUF_SIZE - 2
        }),
    ensures
        log_entry(text).push(0u8).len() == len + 2,
        log_entry(text).len() == len + 1,
        forall|j: int| 0 <= j < len ==> #[trigger] log_entry(text).push(0u8)[j] == text[j],
        log_entry(text).push(0u8)[len] == 10u8,
        log_entry(text).push(0u8)[len + 1] == 0u8,
{
}

/// Write a line into the ring (the system logger's sink): the text, cut to
/// `BUF_SIZE - 2` bytes, then a line feed, then a zero byte that marks the end
/// for a dump; the write position moves to that zero byte.
pub fn write_to_buffer(buf: &mut LogBuffer, text: &str)
    ensures
        final(buf).contents() == ring_write(
            old(buf).contents(),
            old(buf).position() as int,
            log_entry(text.spec_bytes()).push(0u8),
        ),
        final(buf).position() == (old(buf).position() + log_entry(text.spec_bytes()).len()) % (
        BUF_SIZE as nat),
        final(buf).overflows() == overflows_after(
            old(buf).overflows(),
            old(buf).position(),
            text.spec_bytes(),
        ),
        final(buf).contents().len() == BUF_SIZE,
        final(buf).position() < BUF_SIZE,
{
    proof {
        use_type_invariant(&*buf);
    }
    let bytes = text.as_bytes();
    let len: usize = if bytes.len() < BUF_SIZE - 2 {
        bytes.len()
    } else {
        BUF_SIZE - 2
    };
    let ghost d0 = buf.data@;
    let ghost p0 = buf.write_pos as int;
    let ghost o0 = buf.overflow_count;
    let ghost m = log_entry(text.spec_bytes()).push(0u8);
    proof {
        lemma_entry_layout(text.spec_bytes(), len as int);
    }
    let start: usize = buf.write_pos;
    let mut pos: usize = start;
    let mut i: usize = 0;
    while i < len
        invariant
            i <= len,
            len <= BUF_SIZE - 2,
            len <= bytes@.len(),
            len + 2 == m.len(),
            bytes@ == text.spec_bytes(),
            forall|j: int| 0 <= j < len ==> m[j] == bytes@[j],
            d0.len() == BUF_SIZE,
            0 <= p0 < BUF_SIZE,
            buf.write_pos == p0,
            buf.overflow_count == o0,
            buf.data.len() == BUF_SIZE,
            pos as int == (p0 + i) % (BUF_SIZE as int),
            buf.data@ == ring_write(d0, p0, m.take(i as int)),
        decreases len - i,
    {
        proof {
            lemma_ring_write_step(d0, p0, m, i as int);
            lemma_next_slot(p0, i as int);
            assert(m[i as int] == bytes@[i as int]);
        }
        buf.data[pos] = bytes[i];
        pos = (pos + 1) % BUF_SIZE;
        i = i + 1;
    }
    proof {
        lemma_ring_write_step(d0, p0, m, len as int);
        lemma_next_slot(p0, len as int);
    }
    buf.data[pos] = 10u8;
    pos = (pos + 1) % BUF_SIZE;
    proof {
        lemma_ring_write_step(d0, p0, m, len + 1);
        assert(m.take(len + 2) =~= m);
    }
    buf.data[pos] = 0u8;
    buf.write_pos = pos;
    if start + len + 1 >= BUF_SIZE && buf.overflow_count < usize::MAX {
        buf.overflow_count = buf.overflow_count + 1;
    }
}

/// Leaving out zero bytes never lengthens a sequence.
proof fn lemma_drop_nul_len(s: Seq<u8>)
    ensures
        drop_nul(s).len() <= s.len(),
    decreases s.len(),
{
    if s.len() > 0 {
        lemma_drop_nul_len(s.drop_last());
    }
}

/// Leaving out zero bytes of two sequences one after the other.
pub proof fn lemma_drop_nul_concat(x: Seq<u8>, y: Seq<u8>)
    ensures
        drop_nul(x + y) == drop_nul(x) + drop_nul(y),
    decreases y.len(),
{
    if y.len() == 0 {
        assert(x + y =~= x);
        assert(drop_nul(x) + drop_nul(y) =~= drop_nul(x));
    } else {
        assert((x + y).drop_last() =~= x + y.drop_last());
        assert((x + y).last() == y.last());
        lemma_drop_nul_concat(x, y.drop_last());
        if y.last() != 0 {
            assert(drop_nul(x) + drop_nul(y.drop_last()).push(y.last()) =~= (drop_nul(x)
                + drop_nul(y.drop_last())).push(y.last()));
        }
    }
}

/// A sequence without zero bytes loses nothing.
pub proof fn lemma_drop_nul_free(s: Seq<u8>)
    requires
        forall|i: int| 0 <= i < s.len() ==> #[trigger] s[i] != 0,
    ensures
        drop_nul(s) == s,
    decreases s.len(),
{
    if s.len() > 0 {
        lemma_drop_nul_free(s.drop_last());
        assert(s.drop_last().push(s.last()) =~= s);
    }
}

/// A sequence of zero bytes leaves nothing.
pub proof fn lemma_drop_nul_zeros(s: Seq<u8>)
    requires
        forall|i: int| 0 <= i < s.len() ==> #[trigger] s[i] == 0,
    ensures
        drop_nul(s) == Seq::<u8>::empty(),
    decreases s.len(),
{
    if s.len() > 0 {
        lemma_drop_nul_zeros(s.drop_last());
    }
}

/// The bytes a dump reads: the ring in circular order without its zero bytes.
fn live_bytes(buf: &LogBuffer) -> (v: Vec<u8>)
    ensures
        v@ == live_text(buf.contents(), buf.position() as int),
        v@.len() < BUF_SIZE,
{
    proof {
        use_type_invariant(buf);
    }
    let write = buf.write_pos;
    let ghost d = buf.data@;
    let mut v: Vec<u8> = Vec::new();
    let mut i: usize = write + 1;
    while i < BUF_SIZE
        invariant
            write < i <= BUF_SIZE,
            d == buf.data@,
            d.len() == BUF_SIZE,
            v@ == drop_nul(d.subrange(write + 1, i as int)),
        decreases BUF_SIZE - i,
    {
        let c = buf.data[i];
        proof {
            assert(d.subrange(write + 1, i + 1).drop_last() =~= d.subrange(write + 1, i as int));
        }
        if c != 0 {
            v.push(c);
        }
        i = i + 1;
    }
    proof {
        assert(d.subrange(write + 1, BUF_SIZE as int) =~= d.skip(write + 1));
        assert(d.skip(write + 1) + d.take(0) =~= d.skip(write + 1));
    }
    let mut j: usize = 0;
    while j < write
        invariant
            j <= write < BUF_SIZE,
            d == buf.data@,
            d.len() == BUF_SIZE,
            v@ == drop_nul(d.skip(write + 1) + d.take(j as int)),
        decreases write - j,
    {
        let c = buf.data[j];
        proof {
            assert((d.skip(write + 1) + d.take(j + 1)).drop_last() =~= d.skip(write + 1) + d.take(
                j as int,
            ));
        }
        if c != 0 {
            v.push(c);
        }
        j = j + 1;
    }
    proof {
        assert(buf.contents() == d && buf.position() == write);
        lemma_drop_nul_len(ring_order(d, write as int));
    }
    v
}

/// The log text, for upload to Telegram or the serial port: the contents of
/// the ring in circular order, oldest first, so that the latest entries come
/// last and whole; zero bytes are left out, and the bytes are read as UTF-8 (a
/// byte that breaks the encoding, such as the rest of a character whose start
/// was overwritten, is left out).
pub fn dump_buffer(buf: &LogBuffer) -> (result: heapless::String<4096>)
    ensures
        buf.contents().len() == BUF_SIZE,
        buf.position() < BUF_SIZE,
        text4096_bytes(result) == utf8_clean(live_text(buf.contents(), buf.position() as int)),
        valid_utf8(live_text(buf.contents(), buf.position() as int)) ==> text4096_bytes(result)
            == live_text(buf.contents(), buf.position() as int),
{
    proof {
        use_type_invariant(buf);
    }
    let live = live_bytes(buf);
    let ghost s = live@;
    proof {
        assert(s.skip(0) =~= s);
        assert(Seq::<u8>::empty() + utf8_clean(s) =~= utf8_clean(s));
    }
    let mut result = text4096_new();
    let mut i: usize = 0;
    while i < live.len()
        invariant
            i <= live.len(),
            s == live@,
            s.len() < BUF_SIZE,
            text4096_bytes(result).len() <= i,
            utf8_clean(s) == text4096_bytes(result) + utf8_clean(s.skip(i as int)),
        decreases live.len() - i,
    {
        let rest = slice_subrange(live.as_slice(), i, live.len());
        let n = match str_from_utf8(rest) {
            Some(_) => rest.len(),
            None => utf8_error_valid_up_to(rest),
        };
        proof {
            lemma_max_valid_prefix(rest@);
        }
        let piece = slice_subrange(rest, 0, n);
        assert(piece@ =~= rest@.take(n as int));
        match str_from_utf8(piece) {
            Some(t) => {
                let _ = text4096_push_str(&mut result, t);
            },
            None => {},
        }
        proof {
            assert(rest@ =~= s.skip(i as int));
        }
        if n == rest.len() {
            proof {
                assert(s.skip(live.len() as int) =~= Seq::<u8>::empty());
                assert(utf8_clean(Seq::<u8>::empty()) == Seq::<u8>::empty());
                assert(rest@.take(n as int) =~= rest@);
            }
            i = live.len();
        } else {
            proof {
                assert(s.skip(i as int).skip(n + 1) =~= s.skip(i + n + 1));
            }
            i = i + n + 1;
        }
    }
    proof {
        assert(s.skip(live.len() as int) =~= Seq::<u8>::empty());
        assert(text4096_bytes(result) + Seq::<u8>::empty() =~= text4096_bytes(result));
        if valid_utf8(s) {
            lemma_utf8_clean_valid(s);
        }
    }
    result
}

/// Clear the ring: all bytes zero, write position and overflow count reset.
pub fn clear_buffer(buf: &mut LogBuffer)
    ensures
        final(buf).contents() == zeroed_ring(),
        final(buf).position() == 0,
        final(buf).overflows() == 0,
        final(buf).contents().len() == BUF_SIZE,
{
    *buf = LogBuffer { data: zeroed_bytes(), write_pos: 0, overflow_count: 0 };
}

/// Bytes below 0x80 are valid UTF-8 (each one a character of its own).
pub proof fn lemma_ascii_bytes_valid(bytes: Seq<u8>)
    requires
        forall|i: int| 0 <= i < bytes.len() ==> #[trigger] bytes[i] < 0x80,
    ensures
        valid_utf8(bytes),
    decreases bytes.len(),
{
    if bytes.len() > 0 {
        let b = bytes[0];
        assert(b & 0x7fu8 <= 0x7fu8) by (bit_vector);
        assert(valid_first_scalar(bytes));
        assert(pop_first_scalar(bytes) =~= bytes.skip(1));
        lemma_ascii_bytes_valid(bytes.skip(1));
    }
}

/// A dump never holds more bytes than the ring, so it always fits its
/// 4096-byte string.
pub proof fn lemma_dump_within_capacity(data: Seq<u8>, pos: int)
    requires
        0 <= pos < BUF_SIZE,
        data.len() == BUF_SIZE,
    ensures
        utf8_clean(live_text(data, pos)).len() < BUF_SIZE,
{
    lemma_drop_nul_len(ring_order(data, pos));
    lemma_utf8_clean_len(live_text(data, pos));
}

/// A dump whose oldest byte is the orphan rest of a character whose first
/// byte was overwritten (a continuation byte) leaves out that byte only:
/// when the rest is UTF-8 text, the dump is exactly that rest.
pub proof fn lemma_dump_after_cut(data: Seq<u8>, pos: int, b: u8, rest: Seq<u8>)
    requires
        live_text(data, pos) == seq![b] + rest,
        0x80 <= b <= 0xbf,
        valid_utf8(rest),
    ensures
        utf8_clean(live_text(data, pos)) == rest,
{
    lemma_utf8_clean_after_cut(b, rest);
}

/// What a write stores is the text followed by a line feed, the text cut to
/// its first `BUF_SIZE - 2` bytes when it is longer.
pub proof fn lemma_log_entry_shape(text: Seq<u8>)
    ensures
        text.len() <= BUF_SIZE - 2 ==> log_entry(text) == text.push(10u8),
        text.len() > BUF_SIZE - 2 ==> log_entry(text) == text.take(BUF_SIZE - 2).push(10u8),
        log_entry(text).len() <= BUF_SIZE - 1,
        log_entry(text).last() == 10u8,
{
    if text.len() <= BUF_SIZE - 2 {
        assert(text.take(text.len() as int) =~= text);
    }
}

/// The overflow count grows by one exactly when a write runs past the end of
/// the ring, that is when the new write position is not the old one moved on
/// by the entry's length (it went round to the start); otherwise it stays.
pub proof fn lemma_overflow_counts_wraps(count: nat, pos: nat, text: Seq<u8>)
    requires
        pos < BUF_SIZE,
        count < usize::MAX,
    ensures
        overflows_after(count, pos, text) == if (pos + log_entry(text).len()) % (BUF_SIZE as nat)
            != pos + log_entry(text).len() {
            count + 1
        } else {
            count
        },
{
}

/// A cleared ring dumps nothing.
pub proof fn lemma_dump_after_clear()
    ensures
        live_text(zeroed_ring(), 0) == Seq::<u8>::empty(),
{
    lemma_drop_nul_zeros(ring_order(zeroed_ring(), 0));
}

/// Reading the ring in circular order: the `j`-th byte read is the one at
/// `(pos + 1 + j) mod BUF_SIZE`.
proof fn lemma_ring_order_index(data: Seq<u8>, pos: int, j: int)
    requires
        data.len() == BUF_SIZE,
        0 <= pos < BUF_SIZE,
        0 <= j < BUF_SIZE - 1,
    ensures
        ring_order(data, pos)[j] == data[(pos + 1 + j) % (BUF_SIZE as int)],
{
    if j < BUF_SIZE - 1 - pos {
        assert((pos + 1 + j) % (BUF_SIZE as int) == pos + 1 + j);
    } else {
        assert((pos + 1 + j) % (BUF_SIZE as int) == pos + 1 + j - BUF_SIZE);
    }
}

/// The slot `k` places after the start of a write is read `BUF_SIZE - 1 - n + k`
/// places into the circular order that starts after the write's end.
proof fn lemma_entry_slot(pos: int, n: int, k: int)
    requires
        0 <= pos < BUF_SIZE,
        0 < n < BUF_SIZE,
        0 <= k < n,
    ensures
        (((pos + n) % (BUF_SIZE as int)) + 1 + (BUF_SIZE - 1 - n + k)) % (BUF_SIZE as int) == (pos
            + k) % (BUF_SIZE as int),
        (((pos + k) % (BUF_SIZE as int)) - pos) % (BUF_SIZE as int) == k,
{
}

/// What a dump reads back of the latest write, whatever the ring held and
/// wherever the write position was, wrapping or not: the dump ends with the
/// entry of that write (the text without zero bytes, cut to `BUF_SIZE - 2`
/// bytes, and a line feed), whole; what comes before it is the rest of the
/// ring in circular order.
pub proof fn lemma_write_then_dump(data: Seq<u8>, pos: nat, text: Seq<u8>)
    requires
        data.len() == BUF_SIZE,
        pos < BUF_SIZE,
        forall|i: int| 0 <= i < text.len() ==> #[trigger] text[i] != 0,
    ensures
        ({
            let e = log_entry(text);
            let new = ring_write(data, pos as int, e.push(0u8));
            let q = ((pos + e.len()) % (BUF_SIZE as nat)) as int;
            live_text(new, q) == drop_nul(ring_order(new, q).take(BUF_SIZE - 1 - e.len())) + e
        }),
{
    let e = log_entry(text);
    let n = e.len() as int;
    let new = ring_write(data, pos as int, e.push(0u8));
    let q = ((pos + n) % (BUF_SIZE as int)) as int;
    let o = ring_order(new, q);
    let b = BUF_SIZE as int;
    assert(o.len() == b - 1);
    assert forall|k: int| 0 <= k < n implies #[trigger] o.skip(b - 1 - n)[k] == e[k] by {
        let j = b - 1 - n + k;
        lemma_ring_order_index(new, q, j);
        lemma_entry_slot(pos as int, n, k);
        let idx = (pos + k) % b;
        assert(o[j] == new[idx]);
        assert(new[idx] == e.push(0u8)[k]);
    }
    assert(o.skip(b - 1 - n) =~= e);
    assert(o =~= o.take(b - 1 - n) + o.skip(b - 1 - n));
    lemma_drop_nul_concat(o.take(b - 1 - n), e);
    assert forall|i: int| 0 <= i < e.len() implies #[trigger] e[i] != 0 by {
        if i < n - 1 {
            assert(e[i] == text[i]);
        }
    }
    lemma_drop_nul_free(e);
}

/// After every write the slot at the new write position holds the zero byte
/// that ends the entry, and the entry sits just before it.
pub proof fn lemma_write_leaves_terminator(data: Seq<u8>, pos: nat, text: Seq<u8>)
    requires
        data.len() == BUF_SIZE,
        pos < BUF_SIZE,
    ensures
        ring_write(data, pos as int, log_entry(text).push(0u8))[((pos + log_entry(text).len())
            % (BUF_SIZE as nat)) as int] == 0u8,
        forall|k: int|
            0 <= k < log_entry(text).len() ==> #[trigger] ring_write(
                data,
                pos as int,
                log_entry(text).push(0u8),
            )[(pos + k) % (BUF_SIZE as int)] == log_entry(text)[k],
{
    let e = log_entry(text);
    let n = e.len();
    let q = ((pos + n) % (BUF_SIZE as nat)) as int;
    assert((q - pos) % (BUF_SIZE as int) == n);
    assert forall|k: int| 0 <= k < n implies #[trigger] ring_write(
        data,
        pos as int,
        e.push(0u8),
    )[(pos + k) % (BUF_SIZE as int)] == e[k] by {
        let i = (pos + k) % (BUF_SIZE as int);
        assert((i - pos) % (BUF_SIZE as int) == k);
    }
}

/// The severity of a log record.
#[derive(Clone, Copy, PartialEq, Eq, Structural, Debug)]
pub enum LogLevel {
    Error,
    Warn,
    Info,
    Debug,
    Trace,
}

/// The name of a level as it stands in a log line.
pub open spec fn level_name(level: LogLevel) -> &'static str {
    match level {
        LogLevel::Error => "ERROR",
        LogLevel::Warn => "WARN",
        LogLevel::Info => "INFO",
        LogLevel::Debug => "DEBUG",
        LogLevel::Trace => "TRACE",
    }
}

/// The name of a level as it stands in a log line.
pub fn level_prefix(level: LogLevel) -> (name: &'static str)
    ensures
        name == level_name(level),
{
    match level {
        LogLevel::Error => "ERROR",
        LogLevel::Warn => "WARN",
        LogLevel::Info => "INFO",
        LogLevel::Debug => "DEBUG",
        LogLevel::Trace => "TRACE",
    }
}

/// A record handed to the system logger: its level and its message, written
/// as two pieces, a fixed prefix and then the text.
pub struct LogRecord {
    pub level: LogLevel,
    pub prefix: &'static str,
    pub text: String,
}

/// The pieces of the message of a record, by their bytes.
pub open spec fn piece_bytes(pieces: Seq<&str>) -> Seq<Seq<u8>> {
    pieces.map_values(|t: &str| t.spec_bytes())
}

/// The pieces that the logger writes for one line:
/// `[Core <id>] <LEVEL>: ` and then the pieces of the message.
pub open spec fn log_line_pieces(core_id: int, level: LogLevel, message: Seq<Seq<u8>>) -> Seq<
    Seq<u8>,
> {
    let magnitude: nat = if core_id < 0 {
        (-core_id) as nat
    } else {
        core_id as nat
    };
    let sign: Seq<Seq<u8>> = if core_id < 0 {
        seq!["-".spec_bytes()]
    } else {
        Seq::empty()
    };
    seq!["[Core ".spec_bytes()] + sign + seq![
        encode_utf8(decimal_chars(magnitude)),
        "] ".spec_bytes(),
        level_name(level).spec_bytes(),
        ": ".spec_bytes(),
    ] + message
}

/// The pieces of a MAVLink STATUSTEXT message: `[Sev:<severity>] <text>`.
pub open spec fn statustext_pieces(severity: u8, text: Seq<u8>) -> Seq<Seq<u8>> {
    seq![
        "[Sev:".spec_bytes(),
        encode_utf8(decimal_chars(severity as nat)),
        "] ".spec_bytes(),
        text,
    ]
}

/// Writes one piece into a 256-byte line the way a formatter does.
fn push_piece256(
    s: &mut heapless::String<256>,
    writing: bool,
    t: &str,
    Ghost(pieces): Ghost<Seq<Seq<u8>>>,
) -> (still_writing: bool)
    requires
        fill_state(pieces, 256) == (text256_bytes(*old(s)), writing),
    ensures
        fill_state(pieces.push(t.spec_bytes()), 256) == (text256_bytes(*final(s)), still_writing),
{
    assert(pieces.push(t.spec_bytes()).drop_last() =~= pieces);
    if writing {
        text256_push_str(s, t)
    } else {
        false
    }
}

/// Writes one piece into a 64-byte message the way a formatter does.
fn push_piece64(
    s: &mut heapless::String<64>,
    writing: bool,
    t: &str,
    Ghost(pieces): Ghost<Seq<Seq<u8>>>,
) -> (still_writing: bool)
    requires
        fill_state(pieces, 64) == (text64_bytes(*old(s)), writing),
    ensures
        fill_state(pieces.push(t.spec_bytes()), 64) == (text64_bytes(*final(s)), still_writing),
{
    assert(pieces.push(t.spec_bytes()).drop_last() =~= pieces);
    if writing {
        text64_push_str(s, t)
    } else {
        false
    }
}

/// The system logger of the firmware.
pub struct EspLogger;

impl EspLogger {
    /// Every record is taken (the level filter is set once, in `init`).
    pub fn enabled(&self) -> (r: bool)
        ensures
            r,
    {
        true
    }

    /// Log one record, whose message comes as the pieces its formatter
    /// writes: the line `[Core <id>] <LEVEL>: <message>` is formatted into
    /// `MSG_MAX` bytes the way `core::fmt` fills a bounded string (a piece that
    /// does not fit ends the line), written into the ring, and returned for the
    /// serial console.
    pub fn log(
        &self,
        buf: &mut LogBuffer,
        core_id: i32,
        level: LogLevel,
        message: &[&str],
    ) -> (line: heapless::String<256>)
        ensures
            text256_bytes(line) == formatted(
                log_line_pieces(core_id as int, level, piece_bytes(message@)),
                MSG_MAX as nat,
            ),
            log_line_header(core_id as int, level).len() + concat_pieces(piece_bytes(message@)).len()
                <= MSG_MAX ==> text256_bytes(line) == log_line_header(core_id as int, level)
                + concat_pieces(piece_bytes(message@)),
            final(buf).contents() == ring_write(
                old(buf).contents(),
                old(buf).position() as int,
                log_entry(text256_bytes(line)).push(0u8),
            ),
            final(buf).position() == (old(buf).position() + log_entry(text256_bytes(line)).len())
                % (BUF_SIZE as nat),
            final(buf).overflows() == overflows_after(
                old(buf).overflows(),
                old(buf).position(),
                text256_bytes(line),
            ),
            final(buf).position() < BUF_SIZE,
    {
        let mut line = text256_new();
        let ghost mut pieces: Seq<Seq<u8>> = Seq::empty();
        let mut writing = true;
        writing = push_piece256(&mut line, writing, "[Core ", Ghost(pieces));
        proof {
            pieces = pieces.push("[Core ".spec_bytes());
        }
        let magnitude: u64 = if core_id < 0 {
            writing = push_piece256(&mut line, writing, "-", Ghost(pieces));
            proof {
                pieces = pieces.push("-".spec_bytes());
            }
            if core_id == i32::MIN {
                2147483648u64
            } else {
                (-core_id) as u64
            }
        } else {
            core_id as u64
        };
        let digits = decimal_string(magnitude);
        writing = push_piece256(&mut line, writing, digits.as_str(), Ghost(pieces));
        proof {
            pieces = pieces.push(encode_utf8(digits@));
        }
        writing = push_piece256(&mut line, writing, "] ", Ghost(pieces));
        proof {
            pieces = pieces.push("] ".spec_bytes());
        }
        writing = push_piece256(&mut line, writing, level_prefix(level), Ghost(pieces));
        proof {
            pieces = pieces.push(level_name(level).spec_bytes());
        }
        writing = push_piece256(&mut line, writing, ": ", Ghost(pieces));
        proof {
            pieces = pieces.push(": ".spec_bytes());
        }
        let ghost header = pieces;
        let mut k: usize = 0;
        while k < message.len()
            invariant
                k <= message.len(),
                pieces == header + piece_bytes(message@).take(k as int),
                fill_state(pieces, 256) == (text256_bytes(line), writing),
            decreases message.len() - k,
        {
            writing = push_piece256(&mut line, writing, message[k], Ghost(pieces));
            proof {
                assert(header + piece_bytes(message@).take(k + 1) =~= (header + piece_bytes(
                    message@,
                ).take(k as int)).push(message@[k as int].spec_bytes()));
                pieces = pieces.push(message@[k as int].spec_bytes());
            }
            k = k + 1;
        }
        proof {
            assert(piece_bytes(message@).take(message@.len() as int) =~= piece_bytes(message@));
            assert(pieces =~= log_line_pieces(core_id as int, level, piece_bytes(message@)));
            if log_line_header(core_id as int, level).len() + concat_pieces(piece_bytes(message@)).len()
                <= MSG_MAX {
                lemma_log_line_whole(core_id, level, piece_bytes(message@));
            }
        }
        write_to_buffer(buf, text256_as_str(&line));
        line
    }

    /// Nothing is held back, so there is nothing to flush.
    pub fn flush(&self) {
    }
}

/// Output of a script's `print()`: the record to log, at level `Info`, with the
/// text behind the prefix `[Script] `.
pub fn rhai_print_handler(text: &str) -> (record: LogRecord)
    ensures
        record.level == LogLevel::Info,
        record.prefix == "[Script] ",
        record.text@ == text@,
{
    LogRecord { level: LogLevel::Info, prefix: "[Script] ", text: String::from_str(text) }
}

/// An event message for Telegram: the record to log, at level `Warn`, with the
/// text behind the prefix `[Telegram] `, and the text pushed to the status
/// queue for the on-screen display and the remote control.
pub fn telegram_send(queue: &mut StatusQueue, text: &str) -> (record: LogRecord)
    ensures
        record.level == LogLevel::Warn,
        record.prefix == "[Telegram] ",
        record.text@ == text@,
        final(queue)@ == if text.spec_bytes().len() <= status_queue::MSG_MAX {
            queue_after_send(old(queue)@, text.spec_bytes())
        } else {
            old(queue)@
        },
{
    status_queue::push_str(queue, text);
    LogRecord { level: LogLevel::Warn, prefix: "[Telegram] ", text: String::from_str(text) }
}

/// Queue a MAVLink STATUSTEXT message `[Sev:<severity>] <text>` (severity 0 is
/// EMERGENCY, 1 ALERT, ..., 6 INFO, 7 DEBUG), formatted into 64 bytes the way
/// `core::fmt` fills a bounded string; the queue drops it when full.
pub fn send_statustext(queue: &mut StatusQueue, severity: u8, text: &str)
    ensures
        final(queue)@ == queue_after_send(
            old(queue)@,
            formatted(statustext_pieces(severity, text.spec_bytes()), 64),
        ),
{
    let mut msg = text64_new();
    let ghost mut pieces: Seq<Seq<u8>> = Seq::empty();
    let mut writing = true;
    writing = push_piece64(&mut msg, writing, "[Sev:", Ghost(pieces));
    proof {
        pieces = pieces.push("[Sev:".spec_bytes());
    }
    let digits = decimal_string(severity as u64);
    writing = push_piece64(&mut msg, writing, digits.as_str(), Ghost(pieces));
    proof {
        pieces = pieces.push(encode_utf8(digits@));
    }
    writing = push_piece64(&mut msg, writing, "] ", Ghost(pieces));
    proof {
        pieces = pieces.push("] ".spec_bytes());
    }
    writing = push_piece64(&mut msg, writing, text, Ghost(pieces));
    proof {
        pieces = pieces.push(text.spec_bytes());
        assert(pieces =~= statustext_pieces(severity, text.spec_bytes()));
        lemma_formatted_within_capacity(pieces, 64);
    }
    let mut queued = text128_new();
    let _ = text128_push_str(&mut queued, text64_as_str(&msg));
    assert(text128_bytes(queued) =~= text64_bytes(msg));
    status_queue::push(queue, queued);
}

/// The entries that writes of `texts` leave one after the other.
pub open spec fn entries(texts: Seq<Seq<u8>>) -> Seq<u8>
    decreases texts.len(),
{
    if texts.len() == 0 {
        Seq::<u8>::empty()
    } else {
        entries(texts.drop_last()) + log_entry(texts.last())
    }
}

/// The ring and write position after a clear and then one write of each of
/// `texts`, in order.
pub open spec fn ring_after_writes(texts: Seq<Seq<u8>>) -> (Seq<u8>, nat)
    decreases texts.len(),
{
    if texts.len() == 0 {
        (zeroed_ring(), 0)
    } else {
        let (d, p) = ring_after_writes(texts.drop_last());
        (
            ring_write(d, p as int, log_entry(texts.last()).push(0u8)),
            (p + log_entry(texts.last()).len()) % (BUF_SIZE as nat),
        )
    }
}

/// Texts with no zero byte in any of them.
pub open spec fn nul_free_texts(texts: Seq<Seq<u8>>) -> bool {
    forall|j: int, i: int|
        0 <= j < texts.len() && 0 <= i < texts[j].len() ==> #[trigger] texts[j][i] != 0
}

/// `n` zero bytes.
pub open spec fn zeros(n: nat) -> Seq<u8> {
    Seq::new(n, |i: int| 0u8)
}

/// A write that stays short of the end of a ring holding entries followed by
/// zeros leaves its entry right after them.
proof fn lemma_append_entry(ents: Seq<u8>, text: Seq<u8>)
    requires
        ents.len() + log_entry(text).len() < BUF_SIZE,
    ensures
        ring_write(ents + zeros((BUF_SIZE - ents.len()) as nat), ents.len() as int, log_entry(
            text,
        ).push(0u8)) == (ents + log_entry(text)) + zeros(
            (BUF_SIZE - ents.len() - log_entry(text).len()) as nat,
        ),
{
    let e = log_entry(text);
    let p = ents.len() as int;
    let n = e.len() as int;
    let b = BUF_SIZE as int;
    let data = ents + zeros((b - p) as nat);
    let lhs = ring_write(data, p, e.push(0u8));
    let rhs = (ents + e) + zeros((b - p - n) as nat);
    assert forall|i: int| 0 <= i < b implies lhs[i] == rhs[i] by {
        if i < p {
            assert((i - p) % b == i - p + b);
        } else {
            assert((i - p) % b == i - p);
        }
    }
    assert(lhs =~= rhs);
}

/// What a dump reads after several writes: after a clear and writes of
/// texts without zero bytes whose entries stay short of the end of the ring,
/// the ring holds every entry in order followed by zeros, the write position
/// is at their end, and a dump reads exactly those entries.
pub proof fn lemma_writes_then_dump(texts: Seq<Seq<u8>>)
    requires
        nul_free_texts(texts),
        entries(texts).len() < BUF_SIZE,
    ensures
        ring_after_writes(texts).0 == entries(texts) + zeros(
            (BUF_SIZE - entries(texts).len()) as nat,
        ),
        ring_after_writes(texts).1 == entries(texts).len(),
        live_text(ring_after_writes(texts).0, ring_after_writes(texts).1 as int) == entries(texts),
        forall|i: int| 0 <= i < entries(texts).len() ==> #[trigger] entries(texts)[i] != 0,
    decreases texts.len(),
{
    let b = BUF_SIZE as int;
    if texts.len() == 0 {
        assert(zeroed_ring() =~= Seq::<u8>::empty() + zeros(BUF_SIZE as nat));
    } else {
        let prev = texts.drop_last();
        let t = texts.last();
        assert(nul_free_texts(prev)) by {
            assert forall|j: int, i: int| 0 <= j < prev.len() && 0 <= i < prev[j].len() implies #[trigger] prev[j][i] != 0 by {
                assert(prev[j] == texts[j]);
            }
        }
        assert forall|i: int| 0 <= i < t.len() implies t[i] != 0 by {
            assert(texts[texts.len() - 1] == t);
        }
        lemma_writes_then_dump(prev);
        lemma_append_entry(entries(prev), t);
        let e = entries(texts);
        assert forall|i: int| 0 <= i < e.len() implies #[trigger] e[i] != 0 by {
            let pl = entries(prev).len() as int;
            if i >= pl {
                let k = i - pl;
                if k < log_entry(t).len() - 1 {
                    assert(log_entry(t)[k] == t[k]);
                }
            } else {
                assert(e[i] == entries(prev)[i]);
            }
        }
    }
    let e = entries(texts);
    let d = ring_after_writes(texts).0;
    let pe = e.len() as int;
    assert(d.take(pe) =~= e);
    assert forall|i: int| 0 <= i < d.skip(pe + 1).len() implies #[trigger] d.skip(pe + 1)[i] == 0 by {
        assert(d.skip(pe + 1)[i] == d[pe + 1 + i]);
    }
    lemma_drop_nul_zeros(d.skip(pe + 1));
    lemma_drop_nul_concat(d.skip(pe + 1), d.take(pe));
    lemma_drop_nul_free(e);
    assert(Seq::<u8>::empty() + e =~= e);
}

/// Dumping ASCII text gives it back byte for byte: after a clear and writes
/// of ASCII texts with no zero byte whose entries stay short of the end of
/// the ring, the dump holds each text followed by a line feed, in order.
pub proof fn lemma_writes_then_dump_ascii(texts: Seq<Seq<u8>>)
    requires
        forall|j: int, i: int|
            0 <= j < texts.len() && 0 <= i < texts[j].len() ==> 0 < #[trigger] texts[j][i] < 0x80,
        entries(texts).len() < BUF_SIZE,
    ensures
        utf8_clean(live_text(ring_after_writes(texts).0, ring_after_writes(texts).1 as int))
            == entries(texts),
{
    lemma_writes_then_dump(texts);
    lemma_entries_ascii(texts);
    lemma_ascii_bytes_valid(entries(texts));
    lemma_utf8_clean_valid(entries(texts));
}

/// The entries of ASCII texts are ASCII.
proof fn lemma_entries_ascii(texts: Seq<Seq<u8>>)
    requires
        forall|j: int, i: int|
            0 <= j < texts.len() && 0 <= i < texts[j].len() ==> 0 < #[trigger] texts[j][i] < 0x80,
    ensures
        forall|i: int| 0 <= i < entries(texts).len() ==> #[trigger] entries(texts)[i] < 0x80,
    decreases texts.len(),
{
    if texts.len() > 0 {
        let prev = texts.drop_last();
        let t = texts.last();
        assert forall|j: int, i: int| 0 <= j < prev.len() && 0 <= i < prev[j].len() implies 0 < #[trigger] prev[j][i] < 0x80 by {
            assert(prev[j] == texts[j]);
        }
        lemma_entries_ascii(prev);
        let e = entries(texts);
        let pl = entries(prev).len();
        assert forall|i: int| 0 <= i < e.len() implies #[trigger] e[i] < 0x80 by {
            if i >= pl {
                let k = i - pl;
                if k < log_entry(t).len() - 1 {
                    assert(log_entry(t)[k] == t[k]);
                    assert(texts[texts.len() - 1] == t);
                }
            } else {
                assert(e[i] == entries(prev)[i]);
            }
        }
    }
}

/// The part of a STATUSTEXT message before its text: `[Sev:<severity>] `.
pub open spec fn statustext_header(severity: u8) -> Seq<u8> {
    "[Sev:".spec_bytes() + encode_utf8(decimal_chars(severity as nat)) + "] ".spec_bytes()
}

/// The part of a log line before its text: `[Core <id>] <LEVEL>: `.
pub open spec fn log_line_header(core_id: int, level: LogLevel) -> Seq<u8> {
    let magnitude: nat = if core_id < 0 {
        (-core_id) as nat
    } else {
        core_id as nat
    };
    let sign: Seq<u8> = if core_id < 0 {
        "-".spec_bytes()
    } else {
        Seq::empty()
    };
    "[Core ".spec_bytes() + sign + encode_utf8(decimal_chars(magnitude)) + "] ".spec_bytes()
        + level_name(level).spec_bytes() + ": ".spec_bytes()
}

/// One more piece on a formatter that is still writing goes in whole when it
/// fits, and ends the writing otherwise.
proof fn lemma_fill_step(pieces: Seq<Seq<u8>>, p: Seq<u8>, cap: nat)
    requires
        fill_state(pieces, cap).1,
    ensures
        fill_state(pieces.push(p), cap) == if fill_state(pieces, cap).0.len() + p.len() <= cap {
            (fill_state(pieces, cap).0 + p, true)
        } else {
            (fill_state(pieces, cap).0, false)
        },
{
    assert(pieces.push(p).drop_last() =~= pieces);
}

/// The bytes of an ASCII string are its characters, one byte each.
proof fn lemma_ascii_bytes_len(chars: Seq<char>)
    requires
        is_ascii_chars(chars),
    ensures
        encode_utf8(chars).len() == chars.len(),
{
    is_ascii_chars_encode_utf8(chars);
}

/// A STATUSTEXT message always starts with its full header
/// `[Sev:<severity>] ` (at most 10 bytes); the text follows whole when header
/// and text fit in 64 bytes, and is left out entirely otherwise.
pub proof fn lemma_statustext_shape(severity: u8, text: Seq<u8>)
    ensures
        statustext_header(severity).len() <= 10,
        formatted(statustext_pieces(severity, text), 64) == statustext_header(severity) + if statustext_header(
            severity,
        ).len() + text.len() <= 64 {
            text
        } else {
            Seq::<u8>::empty()
        },
{
    reveal_strlit("[Sev:");
    reveal_strlit("] ");
    let h0 = "[Sev:".spec_bytes();
    let d = encode_utf8(decimal_chars(severity as nat));
    let h1 = "] ".spec_bytes();
    lemma_ascii_bytes_len("[Sev:"@);
    lemma_ascii_bytes_len("] "@);
    reveal_with_fuel(pow10, 4);
    lemma_decimal_chars_shape(severity as nat, 3);
    lemma_ascii_bytes_len(decimal_chars(severity as nat));
    let e = Seq::<Seq<u8>>::empty();
    assert(fill_state(e, 64) == (Seq::<u8>::empty(), true));
    lemma_fill_step(e, h0, 64);
    assert(e.push(h0) =~= seq![h0]);
    assert(Seq::<u8>::empty() + h0 =~= h0);
    lemma_fill_step(seq![h0], d, 64);
    assert(seq![h0].push(d) =~= seq![h0, d]);
    lemma_fill_step(seq![h0, d], h1, 64);
    assert(seq![h0, d].push(h1) =~= seq![h0, d, h1]);
    lemma_fill_step(seq![h0, d, h1], text, 64);
    assert(seq![h0, d, h1].push(text) =~= statustext_pieces(severity, text));
    assert(statustext_header(severity) + Seq::<u8>::empty() =~= statustext_header(severity));
}

/// All pieces of a message, one after the other.
pub open spec fn concat_pieces(ps: Seq<Seq<u8>>) -> Seq<u8>
    decreases ps.len(),
{
    if ps.len() == 0 {
        Seq::<u8>::empty()
    } else {
        concat_pieces(ps.drop_last()) + ps.last()
    }
}

/// A formatter that is still writing takes every further piece whole as long
/// as all of them fit.
proof fn lemma_fill_append(pre: Seq<Seq<u8>>, ps: Seq<Seq<u8>>, cap: nat)
    requires
        fill_state(pre, cap).1,
        fill_state(pre, cap).0.len() + concat_pieces(ps).len() <= cap,
    ensures
        fill_state(pre + ps, cap) == (fill_state(pre, cap).0 + concat_pieces(ps), true),
    decreases ps.len(),
{
    if ps.len() == 0 {
        assert(pre + ps =~= pre);
        assert(fill_state(pre, cap).0 + concat_pieces(ps) =~= fill_state(pre, cap).0);
    } else {
        let init = ps.drop_last();
        lemma_fill_append(pre, init, cap);
        lemma_fill_step(pre + init, ps.last(), cap);
        assert((pre + init).push(ps.last()) =~= pre + ps);
        assert(fill_state(pre, cap).0 + concat_pieces(init) + ps.last() =~= fill_state(pre, cap).0
            + concat_pieces(ps));
    }
}

/// The header pieces of a log line fill the line with exactly the header
/// (at most 26 bytes), and the formatter is still writing after them.
proof fn lemma_log_header_fill(core_id: i32, level: LogLevel)
    ensures
        log_line_header(core_id as int, level).len() <= 26,
        fill_state(log_line_pieces(core_id as int, level, Seq::empty()), MSG_MAX as nat) == (
            log_line_header(core_id as int, level),
            true,
        ),
        forall|m: Seq<Seq<u8>>|
            #[trigger] log_line_pieces(core_id as int, level, m) == log_line_pieces(
                core_id as int,
                level,
                Seq::empty(),
            ) + m,
{
    let cap = MSG_MAX as nat;
    reveal_strlit("[Core ");
    reveal_strlit("-");
    reveal_strlit("] ");
    reveal_strlit(": ");
    lemma_ascii_bytes_len("[Core "@);
    lemma_ascii_bytes_len("-"@);
    lemma_ascii_bytes_len("] "@);
    lemma_ascii_bytes_len(": "@);
    lemma_level_name_len(level);
    let c = core_id as int;
    let magnitude: nat = if c < 0 {
        (-c) as nat
    } else {
        c as nat
    };
    reveal_with_fuel(pow10, 11);
    lemma_decimal_chars_shape(magnitude, 10);
    lemma_ascii_bytes_len(decimal_chars(magnitude));
    let h0 = "[Core ".spec_bytes();
    let d = encode_utf8(decimal_chars(magnitude));
    let h2 = "] ".spec_bytes();
    let h3 = level_name(level).spec_bytes();
    let h4 = ": ".spec_bytes();
    let e = Seq::<Seq<u8>>::empty();
    assert(fill_state(e, cap) == (Seq::<u8>::empty(), true));
    lemma_fill_step(e, h0, cap);
    assert(e.push(h0) =~= seq![h0]);
    assert(Seq::<u8>::empty() + h0 =~= h0);
    let signed: Seq<Seq<u8>> = if c < 0 {
        seq![h0, "-".spec_bytes()]
    } else {
        seq![h0]
    };
    let sign: Seq<u8> = if c < 0 {
        "-".spec_bytes()
    } else {
        Seq::empty()
    };
    if c < 0 {
        lemma_fill_step(seq![h0], "-".spec_bytes(), cap);
        assert(seq![h0].push("-".spec_bytes()) =~= signed);
    } else {
        assert(h0 + sign =~= h0);
    }
    assert(fill_state(signed, cap) == (h0 + sign, true));
    lemma_fill_step(signed, d, cap);
    lemma_fill_step(signed.push(d), h2, cap);
    lemma_fill_step(signed.push(d).push(h2), h3, cap);
    lemma_fill_step(signed.push(d).push(h2).push(h3), h4, cap);
    assert(signed.push(d).push(h2).push(h3).push(h4) =~= log_line_pieces(c, level, Seq::empty()));
    assert(h0 + sign + d + h2 + h3 + h4 =~= log_line_header(c, level));
    assert forall|m: Seq<Seq<u8>>|
        #[trigger] log_line_pieces(c, level, m) == log_line_pieces(c, level, Seq::empty()) + m by {
        assert(log_line_pieces(c, level, m) =~= log_line_pieces(c, level, Seq::empty()) + m);
    }
}

/// A log line that fits is the whole message: when the header and all the
/// pieces of the message fit in `MSG_MAX` bytes, the line is the header
/// `[Core <id>] <LEVEL>: ` followed by every piece of the message, in order,
/// however many pieces there are.
pub proof fn lemma_log_line_whole(core_id: i32, level: LogLevel, message: Seq<Seq<u8>>)
    requires
        log_line_header(core_id as int, level).len() + concat_pieces(message).len() <= MSG_MAX,
    ensures
        formatted(log_line_pieces(core_id as int, level, message), MSG_MAX as nat)
            == log_line_header(core_id as int, level) + concat_pieces(message),
{
    lemma_log_header_fill(core_id, level);
    let hp = log_line_pieces(core_id as int, level, Seq::empty());
    assert(log_line_pieces(core_id as int, level, message) == hp + message);
    lemma_fill_append(hp, message, MSG_MAX as nat);
}

/// The name of every level is ASCII, at most 5 bytes.
proof fn lemma_level_name_len(level: LogLevel)
    ensures
        level_name(level).spec_bytes().len() <= 5,
{
    match level {
        LogLevel::Error => {
            reveal_strlit("ERROR");
            lemma_ascii_bytes_len("ERROR"@);
        },
        LogLevel::Warn => {
            reveal_strlit("WARN");
            lemma_ascii_bytes_len("WARN"@);
        },
        LogLevel::Info => {
            reveal_strlit("INFO");
            lemma_ascii_bytes_len("INFO"@);
        },
        LogLevel::Debug => {
            reveal_strlit("DEBUG");
            lemma_ascii_bytes_len("DEBUG"@);
        },
        LogLevel::Trace => {
            reveal_strlit("TRACE");
            lemma_ascii_bytes_len("TRACE"@);
        },
    }
}

/// A log line always starts with its full header `[Core <id>] <LEVEL>: ` (at
/// most 26 bytes); a message written as one piece follows whole when header
/// and message fit in `MSG_MAX` bytes, and is left out entirely otherwise.
pub proof fn lemma_log_line_shape(core_id: i32, level: LogLevel, text: Seq<u8>)
    ensures
        log_line_header(core_id as int, level).len() <= 26,
        formatted(log_line_pieces(core_id as int, level, seq![text]), MSG_MAX as nat) == log_line_header(
            core_id as int,
            level,
        ) + if log_line_header(core_id as int, level).len() + text.len() <= MSG_MAX {
            text
        } else {
            Seq::<u8>::empty()
        },
{
    let cap = MSG_MAX as nat;
    reveal_strlit("[Core ");
    reveal_strlit("-");
    reveal_strlit("] ");
    reveal_strlit(": ");
    lemma_ascii_bytes_len("[Core "@);
    lemma_ascii_bytes_len("-"@);
    lemma_ascii_bytes_len("] "@);
    lemma_ascii_bytes_len(": "@);
    lemma_level_name_len(level);
    let c = core_id as int;
    let magnitude: nat = if c < 0 {
        (-c) as nat
    } else {
        c as nat
    };
    reveal_with_fuel(pow10, 11);
    lemma_decimal_chars_shape(magnitude, 10);
    lemma_ascii_bytes_len(decimal_chars(magnitude));
    let h0 = "[Core ".spec_bytes();
    let d = encode_utf8(decimal_chars(magnitude));
    let h2 = "] ".spec_bytes();
    let h3 = level_name(level).spec_bytes();
    let h4 = ": ".spec_bytes();
    let e = Seq::<Seq<u8>>::empty();
    assert(fill_state(e, cap) == (Seq::<u8>::empty(), true));
    lemma_fill_step(e, h0, cap);
    assert(e.push(h0) =~= seq![h0]);
    assert(Seq::<u8>::empty() + h0 =~= h0);
    let signed: Seq<Seq<u8>> = if c < 0 {
        seq![h0, "-".spec_bytes()]
    } else {
        seq![h0]
    };
    let sign: Seq<u8> = if c < 0 {
        "-".spec_bytes()
    } else {
        Seq::empty()
    };
    if c < 0 {
        lemma_fill_step(seq![h0], "-".spec_bytes(), cap);
        assert(seq![h0].push("-".spec_bytes()) =~= signed);
    } else {
        assert(h0 + sign =~= h0);
    }
    assert(fill_state(signed, cap) == (h0 + sign, true));
    lemma_fill_step(signed, d, cap);
    lemma_fill_step(signed.push(d), h2, cap);
    lemma_fill_step(signed.push(d).push(h2), h3, cap);
    lemma_fill_step(signed.push(d).push(h2).push(h3), h4, cap);
    lemma_fill_step(signed.push(d).push(h2).push(h3).push(h4), text, cap);
    assert(signed.push(d).push(h2).push(h3).push(h4).push(text) =~= log_line_pieces(c, level, seq![text]));
    assert(h0 + sign + d + h2 + h3 + h4 =~= log_line_header(c, level));
    assert(log_line_header(c, level) + Seq::<u8>::empty() =~= log_line_header(c, level));
}

} // verus!
