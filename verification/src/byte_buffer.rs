//! The data stream: three cursors that place short values without padding,
//! and the reader and writer that keep them.
use vstd::prelude::*;
use crate::endian::{
    be_bytes, be_value, lemma_be_bytes_len, lemma_be_value_bound, lemma_bounds, read_be, write_be,
};
use crate::error::KbinError;
use crate::node_types::StandardType;

verus! {

/// The three cursors of a data stream. Values of one byte stand at `byte`,
/// values of two at `word`, all others at `dword`. The two short cursors
/// fill a window of four bytes each that was opened at the long cursor, so
/// that a run of short values needs no padding between them.
pub struct Cursors {
    pub byte: nat,
    pub word: nat,
    pub dword: nat,
}

/// The cursor that a value goes by.
#[derive(Clone, Copy, Debug, PartialEq, Eq, Structural)]
pub enum Lane {
    Byte,
    Word,
    Dword,
}

/// The least multiple of four that is not below `n`.
pub open spec fn align4(n: nat) -> nat {
    ((n + 3) / 4 * 4) as nat
}

/// The lane of a fixed-size value of `n` bytes.
pub open spec fn lane_of(n: nat) -> Lane {
    if n == 1 {
        Lane::Byte
    } else if n == 2 {
        Lane::Word
    } else {
        Lane::Dword
    }
}

impl Cursors {
    /// The cursors of an empty stream.
    pub open spec fn start() -> Cursors {
        Cursors { byte: 0, word: 0, dword: 0 }
    }

    /// The long cursor stands on a multiple of four, the word cursor on an
    /// even place, neither short cursor is ahead of the long one, and the
    /// two short cursors never share a window.
    pub open spec fn wf(self) -> bool {
        &&& self.dword % 4 == 0
        &&& self.word % 2 == 0
        &&& self.byte <= self.dword
        &&& self.word <= self.dword
        &&& (self.byte % 4 != 0 && self.word % 4 != 0 ==> self.byte / 4 != self.word / 4)
    }

    /// Where the next value of this lane stands. A short cursor on a
    /// multiple of four has no window left and opens one at the long cursor.
    pub open spec fn place(self, lane: Lane) -> nat {
        match lane {
            Lane::Byte => if self.byte % 4 == 0 {
                self.dword
            } else {
                self.byte
            },
            Lane::Word => if self.word % 4 == 0 {
                self.dword
            } else {
                self.word
            },
            Lane::Dword => self.dword,
        }
    }

    /// The cursors after a value of `n` bytes in this lane: one byte in the
    /// byte lane, two in the word lane. The long cursor moves by whole
    /// groups of four bytes.
    pub open spec fn after(self, lane: Lane, n: nat) -> Cursors {
        match lane {
            Lane::Byte => if self.byte % 4 == 0 {
                Cursors { byte: self.dword + 1, word: self.word, dword: self.dword + 4 }
            } else {
                Cursors { byte: self.byte + 1, word: self.word, dword: self.dword }
            },
            Lane::Word => if self.word % 4 == 0 {
                Cursors { byte: self.byte, word: self.dword + 2, dword: self.dword + 4 }
            } else {
                Cursors { byte: self.byte, word: self.word + 2, dword: self.dword }
            },
            Lane::Dword => Cursors {
                byte: self.byte,
                word: self.word,
                dword: self.dword + align4(n),
            },
        }
    }

    /// The cursors after the short ones were moved up to the long one.
    pub open spec fn realigned(self) -> Cursors {
        Cursors { byte: self.dword, word: self.dword, dword: self.dword }
    }

    /// A place in an open window that no value has taken yet.
    pub open spec fn free(self, p: int) -> bool {
        ||| self.byte % 4 != 0 && self.byte <= p < align4(self.byte)
        ||| self.word % 4 != 0 && self.word <= p < align4(self.word)
    }

    /// A place whose byte no later write changes.
    pub open spec fn settled(self, p: int) -> bool {
        0 <= p < self.dword && !self.free(p)
    }
}

/// The length that a lane allows: one byte, two bytes, or any number.
pub open spec fn lane_len_ok(lane: Lane, n: nat) -> bool {
    match lane {
        Lane::Byte => n == 1,
        Lane::Word => n == 2,
        Lane::Dword => true,
    }
}

/// What reading `n` bytes in a lane gives: the bytes and the cursors after
/// them, or nothing where the stream ends before the value does.
pub open spec fn spec_take(data: Seq<u8>, c: Cursors, lane: Lane, n: nat) -> Option<
    (Seq<u8>, Cursors),
> {
    let p = c.place(lane);
    if p + n <= data.len() {
        Some((data.subrange(p as int, (p + n) as int), c.after(lane, n)))
    } else {
        None
    }
}

/// The stream after `chunk` was written in a lane. A new window and the
/// padding behind a long value are zero.
pub open spec fn spec_put(data: Seq<u8>, c: Cursors, lane: Lane, chunk: Seq<u8>) -> Seq<u8> {
    let p = c.place(lane);
    if p == data.len() {
        data + chunk + Seq::new((c.after(lane, chunk.len()).dword - p - chunk.len()) as nat, |i: int| 0u8)
    } else {
        Seq::new(
            data.len(),
            |i: int|
                if p <= i < p + chunk.len() {
                    chunk[i - p]
                } else {
                    data[i]
                },
        )
    }
}

/// A stream and its cursors as a writer keeps them: the long cursor is the
/// end of the stream.
pub open spec fn stream_wf(data: Seq<u8>, c: Cursors) -> bool {
    c.wf() && c.dword == data.len()
}

/// `later` holds every settled byte of `data`.
pub open spec fn keeps(data: Seq<u8>, c: Cursors, later: Seq<u8>) -> bool {
    &&& data.len() <= later.len()
    &&& forall|p: int| c.settled(p) ==> #[trigger] later[p] == data[p]
}

pub proof fn lemma_align4(n: nat)
    ensures
        align4(n) % 4 == 0,
        n <= align4(n) < n + 4,
        n % 4 == 0 ==> align4(n) == n,
{
}

/// Moving the cursors keeps them well formed.
pub proof fn lemma_after_wf(c: Cursors, lane: Lane, n: nat)
    requires
        c.wf(),
        lane_len_ok(lane, n),
    ensures
        c.after(lane, n).wf(),
        c.realigned().wf(),
        c.place(lane) + n <= c.after(lane, n).dword,
        c.dword <= c.after(lane, n).dword,
        c.place(lane) < c.dword ==> c.after(lane, n).dword == c.dword,
        c.place(lane) >= c.dword ==> c.place(lane) == c.dword,
{
    lemma_align4(n);
}

/// A write keeps the stream well formed, changes no settled byte, and
/// leaves the written bytes settled: what was written is read back at the
/// same cursors from any stream that keeps the settled bytes.
pub proof fn lemma_put(data: Seq<u8>, c: Cursors, lane: Lane, chunk: Seq<u8>)
    requires
        stream_wf(data, c),
        lane_len_ok(lane, chunk.len()),
    ensures
        stream_wf(spec_put(data, c, lane, chunk), c.after(lane, chunk.len())),
        keeps(data, c, spec_put(data, c, lane, chunk)),
        forall|p: int| c.settled(p) ==> c.after(lane, chunk.len()).settled(p),
        forall|later: Seq<u8>|
            keeps(spec_put(data, c, lane, chunk), c.after(lane, chunk.len()), later) ==> #[trigger] spec_take(
                later,
                c,
                lane,
                chunk.len(),
            ) == Some((chunk, c.after(lane, chunk.len()))),
{
    let n = chunk.len();
    let c2 = c.after(lane, n);
    let d2 = spec_put(data, c, lane, chunk);
    let p = c.place(lane);
    lemma_align4(n);
    lemma_after_wf(c, lane, n);
    assert forall|later: Seq<u8>| keeps(d2, c2, later) implies #[trigger] spec_take(
        later,
        c,
        lane,
        n,
    ) == Some((chunk, c2)) by {
        assert(p + n <= d2.len());
        assert forall|i: int| 0 <= i < n implies later[p + i] == chunk[i] by {
            assert(c2.settled(p + i));
            assert(d2[p + i] == chunk[i]);
        }
        assert(later.subrange(p as int, (p + n) as int) =~= chunk);
    }
}

/// Realigning changes no byte and leaves every byte settled.
pub proof fn lemma_realign(data: Seq<u8>, c: Cursors)
    requires
        stream_wf(data, c),
    ensures
        stream_wf(data, c.realigned()),
        forall|p: int| c.settled(p) ==> c.realigned().settled(p),
        c.realigned().byte == c.realigned().dword,
        c.realigned().word == c.realigned().dword,
        c.realigned().dword % 4 == 0,
{
}

/// A stream that keeps the settled bytes of a later state keeps those of
/// an earlier one.
pub proof fn lemma_keeps_trans(
    data1: Seq<u8>,
    c1: Cursors,
    data2: Seq<u8>,
    c2: Cursors,
    later: Seq<u8>,
)
    requires
        keeps(data1, c1, data2),
        forall|p: int| c1.settled(p) ==> c2.settled(p),
        keeps(data2, c2, later),
    ensures
        keeps(data1, c1, later),
{
    assert forall|p: int| c1.settled(p) implies #[trigger] later[p] == data1[p] by {
        assert(c2.settled(p));
        assert(later[p] == data2[p]);
        assert(data2[p] == data1[p]);
    }
}

/// The data stream of a document that is read.
pub struct ByteBufferRead<'a> {
    data: &'a [u8],
    // The cursors may stand up to three bytes behind the end of the stream,
    // so they are kept in a type that is wider than any length.
    byte: u128,
    word: u128,
    dword: u128,
}

impl<'a> ByteBufferRead<'a> {
    /// The bytes of the stream.
    pub closed spec fn data(&self) -> Seq<u8> {
        self.data@
    }

    /// Where the three cursors stand.
    pub closed spec fn cursors(&self) -> Cursors {
        Cursors { byte: self.byte as nat, word: self.word as nat, dword: self.dword as nat }
    }

    /// The cursors are well formed and at most one window past the end.
    pub closed spec fn wf(&self) -> bool {
        &&& self.cursors().wf()
        &&& self.dword <= self.data@.len() + 3
    }

    /// The cursors of a well-formed reader are well-formed.
    pub proof fn lemma_wf(&self)
        requires
            self.wf(),
        ensures
            self.cursors().wf(),
    {
    }

    /// A reader at the start of `data`.
    pub fn new(data: &'a [u8]) -> (r: Self)
        ensures
            r.wf(),
            r.data() == data@,
            r.cursors() == Cursors::start(),
    {
        ByteBufferRead { data, byte: 0, word: 0, dword: 0 }
    }

    /// Reads `n` bytes in a lane. Where the stream ends before the value
    /// does, nothing is read.
    pub fn take(&mut self, lane: Lane, n: usize) -> (r: Result<&'a [u8], KbinError>)
        requires
            old(self).wf(),
            lane_len_ok(lane, n as nat),
        ensures
            final(self).wf(),
            final(self).data() == old(self).data(),
            match spec_take(old(self).data(), old(self).cursors(), lane, n as nat) {
                Some((bytes, c)) => r matches Ok(s) && s@ == bytes && final(self).cursors() == c,
                None => r == Err::<&[u8], KbinError>(KbinError::EndOfStream)
                    && final(self).cursors() == old(self).cursors(),
            },
    {
        let len = self.data.len();
        let fresh = match lane {
            Lane::Byte => self.byte % 4 == 0,
            Lane::Word => self.word % 4 == 0,
            Lane::Dword => true,
        };
        let p: u128 = match lane {
            Lane::Byte => if fresh {
                self.dword
            } else {
                self.byte
            },
            Lane::Word => if fresh {
                self.dword
            } else {
                self.word
            },
            Lane::Dword => self.dword,
        };
        if p > len as u128 || n as u128 > len as u128 - p {
            return Err(KbinError::EndOfStream);
        }
        proof {
            lemma_align4(n as nat);
            lemma_after_wf(old(self).cursors(), lane, n as nat);
        }
        let start = p as usize;
        let bytes = vstd::slice::slice_subrange(self.data, start, start + n);
        match lane {
            Lane::Byte => {
                self.byte = p + 1;
                if fresh {
                    self.dword = p + 4;
                }
            },
            Lane::Word => {
                self.word = p + 2;
                if fresh {
                    self.dword = p + 4;
                }
            },
            Lane::Dword => {
                let pad = (4 - n % 4) % 4;
                self.dword = p + n as u128 + pad as u128;
            },
        }
        Ok(bytes)
    }

    /// Reads one value of a fixed-size type in the lane of its size.
    pub fn get_aligned(&mut self, node_type: StandardType) -> (r: Result<&'a [u8], KbinError>)
        requires
            old(self).wf(),
        ensures
            final(self).wf(),
            final(self).data() == old(self).data(),
            match spec_take(
                old(self).data(),
                old(self).cursors(),
                lane_of(node_type.spec_byte_len() as nat),
                node_type.spec_byte_len() as nat,
            ) {
                Some((bytes, c)) => r matches Ok(s) && s@ == bytes && final(self).cursors() == c,
                None => r == Err::<&[u8], KbinError>(KbinError::EndOfStream)
                    && final(self).cursors() == old(self).cursors(),
            },
    {
        let n = node_type.byte_len();
        let lane = if n == 1 {
            Lane::Byte
        } else if n == 2 {
            Lane::Word
        } else {
            Lane::Dword
        };
        self.take(lane, n)
    }

    /// Reads `n` bytes at the long cursor.
    pub fn get(&mut self, n: usize) -> (r: Result<&'a [u8], KbinError>)
        requires
            old(self).wf(),
        ensures
            final(self).wf(),
            final(self).data() == old(self).data(),
            match spec_take(old(self).data(), old(self).cursors(), Lane::Dword, n as nat) {
                Some((bytes, c)) => r matches Ok(s) && s@ == bytes && final(self).cursors() == c,
                None => r == Err::<&[u8], KbinError>(KbinError::EndOfStream)
                    && final(self).cursors() == old(self).cursors(),
            },
    {
        self.take(Lane::Dword, n)
    }

    /// Reads a length: four bytes at the long cursor, most significant first.
    pub fn read_u32(&mut self) -> (r: Result<u32, KbinError>)
        requires
            old(self).wf(),
        ensures
            final(self).wf(),
            final(self).data() == old(self).data(),
            match spec_take(old(self).data(), old(self).cursors(), Lane::Dword, 4) {
                Some((bytes, c)) => r == Ok::<u32, KbinError>(be_value(bytes) as u32)
                    && final(self).cursors() == c,
                None => r == Err::<u32, KbinError>(KbinError::EndOfStream)
                    && final(self).cursors() == old(self).cursors(),
            },
    {
        match self.take(Lane::Dword, 4) {
            Ok(bytes) => {
                proof {
                    lemma_be_value_bound(bytes@);
                    lemma_bounds();
                    assert(bytes@.subrange(0, 4) =~= bytes@);
                }
                Ok(read_be(bytes, 4) as u32)
            },
            Err(e) => Err(e),
        }
    }

    /// Moves the two short cursors up to the long one. After it all three
    /// cursors are equal and stand on a multiple of four.
    pub fn realign_reads(&mut self)
        requires
            old(self).wf(),
        ensures
            final(self).wf(),
            final(self).data() == old(self).data(),
            final(self).cursors() == old(self).cursors().realigned(),
            final(self).cursors().byte == final(self).cursors().dword,
            final(self).cursors().word == final(self).cursors().dword,
            final(self).cursors().dword % 4 == 0,
    {
        self.byte = self.dword;
        self.word = self.dword;
    }
}

/// The data stream of a document that is written.
pub struct ByteBufferWrite {
    buf: Vec<u8>,
    byte: usize,
    word: usize,
}

impl ByteBufferWrite {
    /// The bytes written so far.
    pub closed spec fn data(&self) -> Seq<u8> {
        self.buf@
    }

    /// Where the three cursors stand; the long one is the end of the stream.
    pub closed spec fn cursors(&self) -> Cursors {
        Cursors { byte: self.byte as nat, word: self.word as nat, dword: self.buf@.len() }
    }

    pub closed spec fn wf(&self) -> bool {
        stream_wf(self.buf@, self.cursors())
    }

    /// The stream of a well-formed writer is well-formed for its cursors.
    pub proof fn lemma_wf(&self)
        requires
            self.wf(),
        ensures
            stream_wf(self.data(), self.cursors()),
    {
    }

    /// An empty stream.
    pub fn new() -> (r: Self)
        ensures
            r.wf(),
            r.data() == Seq::<u8>::empty(),
            r.cursors() == Cursors::start(),
    {
        ByteBufferWrite { buf: Vec::new(), byte: 0, word: 0 }
    }

    /// Writes `chunk` in a lane. A short value goes into the window of its
    /// lane where one is open, and else opens a window of four zero bytes
    /// at the end. A long value goes to the end and is padded with zeros to
    /// a multiple of four.
    pub fn put(&mut self, lane: Lane, chunk: &[u8])
        requires
            old(self).wf(),
            lane_len_ok(lane, chunk@.len()),
        ensures
            final(self).wf(),
            final(self).data() == spec_put(old(self).data(), old(self).cursors(), lane, chunk@),
            final(self).cursors() == old(self).cursors().after(lane, chunk@.len()),
    {
        let n = chunk.len();
        let end = self.buf.len();
        proof {
            lemma_align4(n as nat);
            lemma_after_wf(old(self).cursors(), lane, n as nat);
        }
        match lane {
            Lane::Byte => {
                if self.byte % 4 == 0 {
                    self.buf.push(chunk[0]);
                    self.buf.push(0);
                    self.buf.push(0);
                    self.buf.push(0);
                    self.byte = end + 1;
                } else {
                    self.buf.set(self.byte, chunk[0]);
                    self.byte = self.byte + 1;
                }
            },
            Lane::Word => {
                if self.word % 4 == 0 {
                    self.buf.push(chunk[0]);
                    self.buf.push(chunk[1]);
                    self.buf.push(0);
                    self.buf.push(0);
                    self.word = end + 2;
                } else {
                    self.buf.set(self.word, chunk[0]);
                    self.buf.set(self.word + 1, chunk[1]);
                    self.word = self.word + 2;
                }
            },
            Lane::Dword => {
                self.buf.extend_from_slice(chunk);
                let pad = (4 - n % 4) % 4;
                let mut k: usize = 0;
                while k < pad
                    invariant
                        k <= pad,
                        pad < 4,
                        self.byte == old(self).byte,
                        self.word == old(self).word,
                        self.buf@ == old(self).buf@ + chunk@ + Seq::new(k as nat, |i: int| 0u8),
                    decreases pad - k,
                {
                    self.buf.push(0);
                    assert(self.buf@ =~= old(self).buf@ + chunk@ + Seq::new(
                        (k + 1) as nat,
                        |i: int| 0u8,
                    ));
                    k += 1;
                }
            },
        }
        assert(self.buf@ =~= spec_put(old(self).data(), old(self).cursors(), lane, chunk@));
    }

    /// Writes one value of a fixed-size type in the lane of its size.
    pub fn write_aligned(&mut self, node_type: StandardType, chunk: &[u8])
        requires
            old(self).wf(),
            chunk@.len() == node_type.spec_byte_len(),
        ensures
            final(self).wf(),
            final(self).data() == spec_put(
                old(self).data(),
                old(self).cursors(),
                lane_of(chunk@.len()),
                chunk@,
            ),
            final(self).cursors() == old(self).cursors().after(
                lane_of(chunk@.len()),
                chunk@.len(),
            ),
    {
        let n = chunk.len();
        let lane = if n == 1 {
            Lane::Byte
        } else if n == 2 {
            Lane::Word
        } else {
            Lane::Dword
        };
        self.put(lane, chunk)
    }

    /// Writes a length: four bytes at the end, most significant first.
    pub fn write_u32(&mut self, n: u32)
        requires
            old(self).wf(),
        ensures
            final(self).wf(),
            final(self).data() == spec_put(
                old(self).data(),
                old(self).cursors(),
                Lane::Dword,
                be_bytes(n as nat, 4),
            ),
            final(self).cursors() == old(self).cursors().after(Lane::Dword, 4),
    {
        let mut bytes: Vec<u8> = Vec::new();
        proof {
            lemma_bounds();
            lemma_be_bytes_len(n as nat, 4);
        }
        write_be(&mut bytes, n as u64, 4);
        assert(bytes@ =~= be_bytes(n as nat, 4));
        self.put(Lane::Dword, bytes.as_slice())
    }

    /// Moves the two short cursors up to the end of the stream. After it
    /// all three cursors are equal and stand on a multiple of four.
    pub fn realign_writes(&mut self)
        requires
            old(self).wf(),
        ensures
            final(self).wf(),
            final(self).data() == old(self).data(),
            final(self).cursors() == old(self).cursors().realigned(),
            final(self).cursors().byte == final(self).cursors().dword,
            final(self).cursors().word == final(self).cursors().dword,
            final(self).cursors().dword % 4 == 0,
    {
        self.byte = self.buf.len();
        self.word = self.buf.len();
    }

    /// The bytes of the stream.
    pub fn into_inner(self) -> (r: Vec<u8>)
        ensures
            r@ == self.data(),
    {
        self.buf
    }
}

} // verus!
