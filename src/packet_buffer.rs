use vstd::prelude::*;
use vstd::string::StringExecFns;

verus! {

/// Size in bytes of one datagram, and of the buffer that holds it.
pub const CAPACITY: usize = 512;

/// How many compression pointers one name may follow before it is rejected.
pub const MAX_JUMPS: usize = 5;

/// Why a read from a [`PacketBuffer`] failed.
#[derive(Debug, Clone, Copy, PartialEq, Eq, Structural)]
pub enum DecodeError {
    /// The read would touch a byte at or past the end of the buffer.
    BufferExhausted,
    /// A name followed more compression pointers than [`MAX_JUMPS`].
    ExcessiveCompressionJumps,
}

/// A datagram and a read position into it.
pub struct PacketBuffer {
    pub buf: [u8; CAPACITY],
    pub pos: usize,
}

/// The character that a label byte stands for once case is folded: ASCII
/// letters become lower case, other ASCII bytes stand for themselves, and a
/// byte outside ASCII, which no label text may hold, becomes the replacement
/// character.
pub open spec fn label_char(b: u8) -> char {
    if 65 <= b <= 90 {
        ((b + 32) as u8) as char
    } else if b < 128 {
        b as char
    } else {
        '\u{FFFD}'
    }
}

fn fold_byte(b: u8) -> (c: char)
    ensures
        c == label_char(b),
{
    if b >= 65 && b <= 90 {
        (b + 32) as char
    } else if b < 128 {
        b as char
    } else {
        '\u{FFFD}'
    }
}

/// The big-endian value of two bytes.
pub open spec fn be_u16(hi: u8, lo: u8) -> int {
    hi as int * 256 + lo as int
}

/// The big-endian value of four bytes, most significant first.
pub open spec fn be_u32(b0: u8, b1: u8, b2: u8, b3: u8) -> int {
    ((b0 as int * 256 + b1 as int) * 256 + b2 as int) * 256 + b3 as int
}

/// A label byte whose two top bits are set starts a compression pointer.
pub open spec fn is_pointer(b: u8) -> bool {
    b >= 0xC0
}

/// The offset that the pointer `hi lo` refers to: its low fourteen bits.
pub open spec fn pointer_target(hi: u8, lo: u8) -> int {
    (hi as int - 0xC0) * 256 + lo as int
}

/// What decoding a name at `cur` in `buf` gives, when `jumps` pointers were
/// followed to reach it: the raw labels in order, and the position just past
/// the name as it is written at `cur` (past the zero byte that ends it, or
/// past the first pointer in it).
pub open spec fn walk_name(buf: Seq<u8>, cur: int, jumps: nat) -> Result<(Seq<Seq<u8>>, int), DecodeError>
    decreases MAX_JUMPS - jumps, CAPACITY - cur,
{
    if cur < 0 || cur >= CAPACITY {
        Err(DecodeError::BufferExhausted)
    } else if is_pointer(buf[cur]) {
        if cur + 1 >= CAPACITY {
            Err(DecodeError::BufferExhausted)
        } else if jumps >= MAX_JUMPS {
            Err(DecodeError::ExcessiveCompressionJumps)
        } else {
            match walk_name(buf, pointer_target(buf[cur], buf[cur + 1]), jumps + 1) {
                Ok((labels, _)) => Ok((labels, cur + 2)),
                Err(e) => Err(e),
            }
        }
    } else if buf[cur] == 0 {
        Ok((Seq::empty(), cur + 1))
    } else if cur + 1 + buf[cur] > CAPACITY {
        Err(DecodeError::BufferExhausted)
    } else {
        let next = cur + 1 + buf[cur];
        match walk_name(buf, next, jumps) {
            Ok((labels, end)) => Ok((seq![buf.subrange(cur + 1, next)] + labels, end)),
            Err(e) => Err(e),
        }
    }
}

/// The text of one label, case folded.
pub open spec fn label_text(label: Seq<u8>) -> Seq<char> {
    label.map_values(|b: u8| label_char(b))
}

/// Texts joined by single dots.
pub open spec fn dotted(texts: Seq<Seq<char>>) -> Seq<char>
    decreases texts.len(),
{
    if texts.len() == 0 {
        Seq::empty()
    } else if texts.len() == 1 {
        texts[0]
    } else {
        dotted(texts.drop_last()) + seq!['.'] + texts.last()
    }
}

/// The dotted, case-folded text of a name made of `labels`.
pub open spec fn name_text(labels: Seq<Seq<u8>>) -> Seq<char> {
    dotted(labels.map_values(|l: Seq<u8>| label_text(l)))
}

proof fn lemma_name_text_push(labels: Seq<Seq<u8>>, label: Seq<u8>)
    ensures
        name_text(labels.push(label)) == if labels.len() == 0 {
            label_text(label)
        } else {
            name_text(labels) + seq!['.'] + label_text(label)
        },
{
    let f = |l: Seq<u8>| label_text(l);
    let texts = labels.push(label).map_values(f);
    assert(texts.drop_last() =~= labels.map_values(f));
    assert(texts.last() == label_text(label));
}

/// Relies on String::push: the character is added at the end of the string.
#[verifier::external_body]
fn push_char(s: &mut String, c: char)
    ensures
        final(s)@ == old(s)@.push(c),
{
    s.push(c)
}

impl PacketBuffer {
    /// An all-zero buffer positioned at its start.
    pub fn new() -> (r: PacketBuffer)
        ensures
            r.buf@ == Seq::new(CAPACITY as nat, |i: int| 0u8),
            r.pos == 0,
    {
        let r = PacketBuffer { buf: [0u8; CAPACITY], pos: 0 };
        assert(r.buf@ =~= Seq::new(CAPACITY as nat, |i: int| 0u8));
        r
    }

    /// The current read position.
    pub fn pos(&self) -> (r: usize)
        ensures
            r == self.pos,
    {
        self.pos
    }

    /// Moves the read position forward by `steps`; a target past the end of
    /// the buffer is refused at once and leaves the position as it was.
    pub fn step(&mut self, steps: usize) -> (r: Result<(), DecodeError>)
        ensures
            old(self).pos + steps <= CAPACITY ==> r is Ok && final(self).pos == old(self).pos + steps,
            old(self).pos + steps > CAPACITY ==> r == Err::<(), DecodeError>(DecodeError::BufferExhausted)
                && final(self).pos == old(self).pos,
            final(self).buf == old(self).buf,
    {
        if self.pos > CAPACITY || steps > CAPACITY - self.pos {
            return Err(DecodeError::BufferExhausted);
        }
        self.pos = self.pos + steps;
        Ok(())
    }

    /// Sets the read position to `pos`; a target past the end of the buffer
    /// is refused at once and leaves the position as it was.
    pub fn seek(&mut self, pos: usize) -> (r: Result<(), DecodeError>)
        ensures
            pos <= CAPACITY ==> r is Ok && final(self).pos == pos,
            pos > CAPACITY ==> r == Err::<(), DecodeError>(DecodeError::BufferExhausted)
                && final(self).pos == old(self).pos,
            final(self).buf == old(self).buf,
    {
        if pos > CAPACITY {
            return Err(DecodeError::BufferExhausted);
        }
        self.pos = pos;
        Ok(())
    }

    /// Reads the byte at the read position and moves past it.
    pub fn read(&mut self) -> (r: Result<u8, DecodeError>)
        ensures
            old(self).pos < CAPACITY ==> r == Ok::<u8, DecodeError>(old(self).buf@[old(self).pos as int])
                && final(self).pos == old(self).pos + 1,
            old(self).pos >= CAPACITY ==> r == Err::<u8, DecodeError>(DecodeError::BufferExhausted)
                && final(self).pos == old(self).pos,
            final(self).buf == old(self).buf,
    {
        if self.pos >= CAPACITY {
            return Err(DecodeError::BufferExhausted);
        }
        let res = self.buf[self.pos];
        self.pos = self.pos + 1;
        Ok(res)
    }

    /// Reads a big-endian 16-bit integer and moves past it. Where fewer than
    /// two bytes remain, nothing is read and the position stays.
    pub fn read_u16(&mut self) -> (r: Result<u16, DecodeError>)
        ensures
            old(self).pos + 2 <= CAPACITY ==> r is Ok
                && r->Ok_0 == be_u16(old(self).buf@[old(self).pos as int], old(self).buf@[old(self).pos + 1])
                && final(self).pos == old(self).pos + 2,
            old(self).pos + 2 > CAPACITY ==> r == Err::<u16, DecodeError>(DecodeError::BufferExhausted)
                && final(self).pos == old(self).pos,
            final(self).buf == old(self).buf,
    {
        if self.pos >= CAPACITY - 1 {
            return Err(DecodeError::BufferExhausted);
        }
        let hi = match self.read() {
            Ok(b) => b,
            Err(e) => return Err(e),
        };
        let lo = match self.read() {
            Ok(b) => b,
            Err(e) => return Err(e),
        };
        Ok((hi as u16) * 256 + (lo as u16))
    }

    /// Reads a big-endian 32-bit integer and moves past it. Where fewer than
    /// four bytes remain, nothing is read and the position stays.
    pub fn read_u32(&mut self) -> (r: Result<u32, DecodeError>)
        ensures
            old(self).pos + 4 <= CAPACITY ==> r is Ok
                && r->Ok_0 == be_u32(
                    old(self).buf@[old(self).pos as int],
                    old(self).buf@[old(self).pos + 1],
                    old(self).buf@[old(self).pos + 2],
                    old(self).buf@[old(self).pos + 3],
                )
                && final(self).pos == old(self).pos + 4,
            old(self).pos + 4 > CAPACITY ==> r == Err::<u32, DecodeError>(DecodeError::BufferExhausted)
                && final(self).pos == old(self).pos,
            final(self).buf == old(self).buf,
    {
        if self.pos >= CAPACITY - 3 {
            return Err(DecodeError::BufferExhausted);
        }
        let mut res: u32 = 0;
        let mut i: usize = 0;
        while i < 4
            invariant
                i <= 4,
                self.pos == old(self).pos + i,
                self.pos + 4 <= CAPACITY + i,
                self.buf == old(self).buf,
                res == (if i == 0 { 0 } else if i == 1 { self.buf@[old(self).pos as int] as int }
                    else if i == 2 { be_u16(self.buf@[old(self).pos as int], self.buf@[old(self).pos + 1]) }
                    else if i == 3 { be_u16(self.buf@[old(self).pos as int], self.buf@[old(self).pos + 1]) * 256
                        + self.buf@[old(self).pos + 2] as int }
                    else { be_u32(self.buf@[old(self).pos as int], self.buf@[old(self).pos + 1],
                        self.buf@[old(self).pos + 2], self.buf@[old(self).pos + 3]) }),
            decreases 4 - i,
        {
            let b = match self.read() {
                Ok(b) => b,
                Err(e) => return Err(e),
            };
            res = res * 256 + (b as u32);
            i = i + 1;
        }
        Ok(res)
    }

    /// The byte at `pos`, without moving the read position.
    pub fn get(&self, pos: usize) -> (r: Result<u8, DecodeError>)
        ensures
            pos < CAPACITY ==> r == Ok::<u8, DecodeError>(self.buf@[pos as int]),
            pos >= CAPACITY ==> r == Err::<u8, DecodeError>(DecodeError::BufferExhausted),
    {
        if pos >= CAPACITY {
            return Err(DecodeError::BufferExhausted);
        }
        Ok(self.buf[pos])
    }

    /// The `len` bytes from `start`, without moving the read position. A range
    /// that ends exactly at the end of the buffer is accepted; one that runs
    /// past it is refused.
    pub fn get_range(&self, start: usize, len: usize) -> (r: Result<&[u8], DecodeError>)
        ensures
            start + len <= CAPACITY ==> r is Ok && r->Ok_0@ == self.buf@.subrange(start as int, start + len),
            start + len > CAPACITY ==> r == Err::<&[u8], DecodeError>(DecodeError::BufferExhausted),
    {
        if start > CAPACITY || len > CAPACITY - start {
            return Err(DecodeError::BufferExhausted);
        }
        Ok(&self.buf[start..start + len])
    }

    /// Decodes the domain name at the read position and appends its dotted,
    /// lower-case text to `outstr`. Compression pointers are followed, at most
    /// [`MAX_JUMPS`] of them. Afterwards the read position is just past the
    /// name as written where it started: past its zero byte, or past the
    /// first pointer in it. On failure neither the position nor `outstr`
    /// changes.
    pub fn read_domain(&mut self, outstr: &mut String) -> (r: Result<(), DecodeError>)
        ensures
            final(self).buf == old(self).buf,
            match walk_name(old(self).buf@, old(self).pos as int, 0) {
                Ok((labels, end)) => r is Ok && final(self).pos == end
                    && final(outstr)@ == old(outstr)@ + name_text(labels),
                Err(e) => r == Err::<(), DecodeError>(e) && final(self).pos == old(self).pos
                    && final(outstr)@ == old(outstr)@,
            },
    {
        let ghost buf = self.buf@;
        let ghost whole = walk_name(buf, self.pos as int, 0);
        if self.pos >= CAPACITY {
            return Err(DecodeError::BufferExhausted);
        }
        let mut cur: usize = self.pos;
        let mut jumped = false;
        let mut jumps: usize = 0;
        let mut resume: usize = 0;
        let mut name = String::new();
        let mut first = true;
        let ghost mut done: Seq<Seq<u8>> = Seq::empty();
        loop
            invariant
                self.buf@ == buf,
                self.pos == old(self).pos,
                buf == old(self).buf@,
                whole == walk_name(old(self).buf@, old(self).pos as int, 0),
                jumps <= MAX_JUMPS,
                jumped == (jumps > 0),
                jumped ==> resume <= CAPACITY + 1,
                cur <= 0x4000,
                name@ == name_text(done),
                first == (done.len() == 0),
                whole == match walk_name(buf, cur as int, jumps as nat) {
                    Ok((labels, end)) => Ok((done + labels, if jumped { resume as int } else { end })),
                    Err(e) => Err(e),
                },
            ensures
                cur < CAPACITY,
                buf[cur as int] == 0,
            decreases MAX_JUMPS - jumps, CAPACITY - cur,
        {
            let len = match self.get(cur) {
                Ok(b) => b,
                Err(e) => return Err(e),
            };
            assert((len & 0xC0u8 == 0xC0u8) == (len >= 0xC0u8)) by (bit_vector);
            if len & 0xC0 == 0xC0 {
                let lo = match self.get(cur + 1) {
                    Ok(b) => b,
                    Err(e) => return Err(e),
                };
                if jumps >= MAX_JUMPS {
                    return Err(DecodeError::ExcessiveCompressionJumps);
                }
                if !jumped {
                    resume = cur + 2;
                }
                cur = ((len - 0xC0) as usize) * 256 + (lo as usize);
                jumped = true;
                jumps = jumps + 1;
            } else {
                if len == 0 {
                    break;
                }
                cur = cur + 1;
                let bytes = match self.get_range(cur, len as usize) {
                    Ok(s) => s,
                    Err(e) => return Err(e),
                };
                if !first {
                    push_char(&mut name, '.');
                }
                let ghost head = name@;
                let mut i: usize = 0;
                while i < bytes.len()
                    invariant
                        i <= bytes@.len(),
                        name@ == head + label_text(bytes@).take(i as int),
                    decreases bytes@.len() - i,
                {
                    push_char(&mut name, fold_byte(bytes[i]));
                    assert(label_text(bytes@).take(i + 1) =~= label_text(bytes@).take(i as int).push(label_char(bytes@[i as int])));
                    i = i + 1;
                }
                proof {
                    assert(label_text(bytes@).take(bytes@.len() as int) =~= label_text(bytes@));
                    lemma_name_text_push(done, bytes@);
                    assert(name@ =~= name_text(done.push(bytes@)));
                    assert(done.push(bytes@) + walk_name(buf, cur + len, jumps as nat)->Ok_0.0 =~= done + (seq![bytes@] + walk_name(buf, cur + len, jumps as nat)->Ok_0.0));
                    done = done.push(bytes@);
                }
                first = false;
                cur = cur + len as usize;
            }
        }
        if !jumped {
            resume = cur + 1;
        }
        assert(walk_name(buf, cur as int, jumps as nat) == Ok::<(Seq<Seq<u8>>, int), DecodeError>(
            (Seq::empty(), cur + 1)));
        assert(done + Seq::<Seq<u8>>::empty() =~= done);
        self.pos = resume;
        outstr.append(name.as_str());
        Ok(())
    }
}

} // verus!
