//! The dump itself: a running offset, one line per chunk read, and a last
//! line with the total.
use vstd::prelude::*;
use vstd::string::*;

use crate::hex::{hex_padded, push_hex};
use crate::line::{convert_to_hexdump_line, hexdump_line, BYTES_PER_LINE};

verus! {

/// Digits of the offset column.
pub const OFFSET_WIDTH: usize = 8;

/// A data line: the offset of its first byte, a space, then the groups.
pub open spec fn data_line(offset: nat, buf: Seq<u8>, n: nat) -> Seq<char> {
    hex_padded(offset, OFFSET_WIDTH as nat) + seq![' '] + hexdump_line(buf, n)
}

/// The last line: the offset reached, alone.
pub open spec fn offset_line(offset: nat) -> Seq<char> {
    hex_padded(offset, OFFSET_WIDTH as nat)
}

/// What to do with the outcome of one read.
pub enum DumpAction {
    /// Print this line and read on.
    Emit(String),
    /// Print this line and stop: the input is exhausted.
    Finish(String),
}

/// The state of a dump between reads: the number of bytes seen so far.
pub struct HexDumper {
    offset: u64,
}

impl View for HexDumper {
    type V = nat;

    closed spec fn view(&self) -> nat {
        self.offset as nat
    }
}

impl HexDumper {
    /// A dump at the start of its input.
    pub fn new() -> (r: Self)
        ensures
            r@ == 0,
    {
        HexDumper { offset: 0 }
    }

    /// The number of bytes seen so far.
    pub fn offset(&self) -> (r: u64)
        ensures
            r == self@,
    {
        self.offset
    }

    /// Takes the outcome of one read, `n` bytes into `buf`: for `n > 0` a data
    /// line at the current offset, which then advances by `n`; for `n == 0`
    /// (end of input) the last line, with the offset unchanged.
    pub fn step(&mut self, buf: &[u8], n: usize) -> (action: DumpAction)
        requires
            n <= BYTES_PER_LINE,
            n <= buf@.len(),
            old(self)@ + n <= u64::MAX,
        ensures
            match action {
                DumpAction::Emit(s) => {
                    &&& n > 0
                    &&& s@ == data_line(old(self)@, buf@, n as nat)
                    &&& final(self)@ == old(self)@ + n
                },
                DumpAction::Finish(s) => {
                    &&& n == 0
                    &&& s@ == offset_line(old(self)@)
                    &&& final(self)@ == old(self)@
                },
            },
    {
        let mut s = String::new();
        push_hex(&mut s, self.offset, OFFSET_WIDTH);
        if n == 0 {
            DumpAction::Finish(s)
        } else {
            s.append(" ");
            let groups = convert_to_hexdump_line(buf, n);
            s.append(groups.as_str());
            proof {
                reveal_strlit(" ");
            }
            assert(s@ =~= data_line(self@, buf@, n as nat));
            self.offset = self.offset + n as u64;
            DumpAction::Emit(s)
        }
    }
}

/// The number of bytes in a sequence of chunks.
pub open spec fn total_len(chunks: Seq<Seq<u8>>) -> nat
    decreases chunks.len(),
{
    if chunks.len() == 0 {
        0
    } else {
        chunks[0].len() + total_len(chunks.drop_first())
    }
}

/// The lines that `HexDumper::step` hands out, starting at `offset`, when it is
/// given each of `chunks` in turn and then the end of input.
pub open spec fn stepped_lines(offset: nat, chunks: Seq<Seq<u8>>) -> Seq<Seq<char>>
    decreases chunks.len(),
{
    if chunks.len() == 0 {
        seq![offset_line(offset)]
    } else {
        seq![data_line(offset, chunks[0], chunks[0].len())] + stepped_lines(
            offset + chunks[0].len(),
            chunks.drop_first(),
        )
    }
}

proof fn lemma_stepped_lines_from(offset: nat, chunks: Seq<Seq<u8>>)
    ensures
        stepped_lines(offset, chunks).len() == chunks.len() + 1,
        forall|j: int|
            0 <= j < chunks.len() ==> #[trigger] stepped_lines(offset, chunks)[j] == data_line(
                offset + total_len(chunks.take(j)),
                chunks[j],
                chunks[j].len(),
            ),
        stepped_lines(offset, chunks)[chunks.len() as int] == offset_line(
            offset + total_len(chunks),
        ),
    decreases chunks.len(),
{
    if chunks.len() > 0 {
        let rest = chunks.drop_first();
        let next = offset + chunks[0].len();
        lemma_stepped_lines_from(next, rest);
        let lines = stepped_lines(offset, chunks);
        assert forall|j: int| 0 <= j < chunks.len() implies #[trigger] lines[j] == data_line(
            offset + total_len(chunks.take(j)),
            chunks[j],
            chunks[j].len(),
        ) by {
            if j == 0 {
                assert(chunks.take(0).len() == 0);
            } else {
                assert(chunks.take(j).drop_first() =~= rest.take(j - 1));
                assert(lines[j] == stepped_lines(next, rest)[j - 1]);
            }
        }
    }
}

/// Offsets accumulate: fed chunks of sizes `c1, c2, ..., ck` and then the end
/// of input, a dump prints line `j` at offset `c1 + ... + cj` and ends with a
/// line holding the sum of all the sizes.
pub proof fn lemma_offsets_accumulate(chunks: Seq<Seq<u8>>)
    ensures
        stepped_lines(0, chunks).len() == chunks.len() + 1,
        forall|j: int|
            0 <= j < chunks.len() ==> #[trigger] stepped_lines(0, chunks)[j] == data_line(
                total_len(chunks.take(j)),
                chunks[j],
                chunks[j].len(),
            ),
        stepped_lines(0, chunks)[chunks.len() as int] == offset_line(total_len(chunks)),
{
    lemma_stepped_lines_from(0, chunks);
}

/// The bytes read from `data` under an optional cap on their number.
pub open spec fn limited(data: Seq<u8>, limit: Option<u64>) -> Seq<u8> {
    match limit {
        Some(m) => if m < data.len() {
            data.take(m as int)
        } else {
            data
        },
        None => data,
    }
}

/// The number of lines of data for `len` bytes: one per sixteen, rounded up.
pub open spec fn chunk_count(len: nat) -> nat {
    (len + 15) / 16
}

/// The bytes of chunk `j` when `data` is read sixteen bytes at a time.
pub open spec fn chunk_of(data: Seq<u8>, j: int) -> Seq<u8> {
    data.subrange(16 * j, if 16 * j + 16 < data.len() { 16 * j + 16 } else { data.len() as int })
}

/// Every line of the dump of `data`, read sixteen bytes at a time.
pub open spec fn dump_lines(data: Seq<u8>) -> Seq<Seq<char>> {
    Seq::new(
        chunk_count(data.len()) + 1,
        |j: int|
            if j < chunk_count(data.len()) {
                data_line((16 * j) as nat, chunk_of(data, j), chunk_of(data, j).len())
            } else {
                offset_line(data.len())
            },
    )
}

/// The dump of an input held in memory, read sixteen bytes at a time, with
/// no more than `limit` bytes taken when a limit is given.
pub fn dump_bytes(data: &[u8], limit: Option<u64>) -> (lines: Vec<String>)
    ensures
        lines@.map_values(|s: String| s@) == dump_lines(limited(data@, limit)),
{
    let len: usize = match limit {
        Some(m) => if (m as u128) < (data.len() as u128) {
            m as usize
        } else {
            data.len()
        },
        None => data.len(),
    };
    let d = &data[0..len];
    assert(d@ =~= limited(data@, limit));
    let mut dumper = HexDumper::new();
    let mut lines: Vec<String> = Vec::new();
    let mut pos: usize = 0;
    while pos < len
        invariant
            len == d@.len(),
            d@.len() <= usize::MAX,
            pos == (if 16 * lines.len() < len { 16 * lines.len() } else { len as int }),
            lines.len() <= chunk_count(len as nat),
            dumper@ == pos,
            forall|i: int|
                0 <= i < lines.len() ==> #[trigger] lines@[i]@ == dump_lines(d@)[i],
        decreases len - pos,
    {
        let k: usize = if len - pos < BYTES_PER_LINE { len - pos } else { BYTES_PER_LINE };
        let chunk = &d[pos..pos + k];
        assert(chunk@ == chunk_of(d@, lines.len() as int));
        let ghost j = lines.len();
        match dumper.step(chunk, k) {
            DumpAction::Emit(s) => lines.push(s),
            DumpAction::Finish(_) => {},
        }
        assert(lines.len() <= chunk_count(len as nat)) by (nonlinear_arith)
            requires
                16 * j < len,
                lines.len() == j + 1,
        ;
        pos = pos + k;
    }
    let last = match dumper.step(d, 0) {
        DumpAction::Emit(s) => s,
        DumpAction::Finish(s) => s,
    };
    assert(lines.len() == chunk_count(len as nat)) by (nonlinear_arith)
        requires
            16 * lines.len() >= len,
            lines.len() <= chunk_count(len as nat),
    ;
    lines.push(last);
    assert(lines@.map_values(|s: String| s@) =~= dump_lines(d@));
    lines
}

/// The chunks of `data` read sixteen bytes at a time.
pub open spec fn chunks_of(data: Seq<u8>) -> Seq<Seq<u8>> {
    Seq::new(chunk_count(data.len()), |j: int| chunk_of(data, j))
}

proof fn lemma_total_len_push(chunks: Seq<Seq<u8>>, x: Seq<u8>)
    ensures
        total_len(chunks.push(x)) == total_len(chunks) + x.len(),
    decreases chunks.len(),
{
    if chunks.len() > 0 {
        assert(chunks.push(x).drop_first() =~= chunks.drop_first().push(x));
        lemma_total_len_push(chunks.drop_first(), x);
    } else {
        assert(chunks.push(x).drop_first() =~= chunks);
    }
}

/// The first `j` chunks of `data` hold `16 j` bytes, or all of them.
proof fn lemma_chunks_total(data: Seq<u8>, j: nat)
    requires
        j <= chunk_count(data.len()),
    ensures
        total_len(chunks_of(data).take(j as int)) == if 16 * j < data.len() {
            16 * j
        } else {
            data.len()
        },
    decreases j,
{
    let chunks = chunks_of(data);
    if j == 0 {
        assert(chunks.take(0).len() == 0);
    } else {
        let i = (j - 1) as nat;
        lemma_chunks_total(data, i);
        assert(chunks.take(j as int) =~= chunks.take(i as int).push(chunks[i as int]));
        lemma_total_len_push(chunks.take(i as int), chunks[i as int]);
        assert(16 * i < data.len()) by (nonlinear_arith)
            requires
                i < chunk_count(data.len()),
        ;
    }
}

/// Reading an input held in memory sixteen bytes at a time and handing each
/// read to `HexDumper::step` gives the lines of `dump_bytes`.
pub proof fn lemma_dump_lines_stepped(data: Seq<u8>)
    ensures
        dump_lines(data) == stepped_lines(0, chunks_of(data)),
{
    let chunks = chunks_of(data);
    let count = chunk_count(data.len());
    lemma_offsets_accumulate(chunks);
    assert forall|j: int| 0 <= j < count implies #[trigger] dump_lines(data)[j] == stepped_lines(
        0,
        chunks,
    )[j] by {
        lemma_chunks_total(data, j as nat);
    }
    lemma_chunks_total(data, count);
    assert(16 * count >= data.len()) by (nonlinear_arith)
        requires
            count == chunk_count(data.len()),
    ;
    assert(chunks.take(count as int) =~= chunks);
    assert(dump_lines(data) =~= stepped_lines(0, chunks));
}

} // verus!
