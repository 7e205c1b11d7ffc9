//! The message authentication code as an engine that takes a message piece
//! by piece and keeps no more of it than its last block.

use crate::aes::KeySchedule;
use crate::omac;
use crate::rijndael::{cipher, xor_block, zero_block};
use vstd::prelude::*;

verus! {

/// The most bytes that one call of `Cmac::input` takes.
pub const MAX_INPUT_LEN: usize = 256;

/// Why an engine did not take what it was given.
#[derive(Clone, Copy, Debug, PartialEq, Eq)]
pub enum MacError {
    /// One call was given more than `MAX_INPUT_LEN` bytes.
    InputTooLong,
}

/// What an engine stands for: its key and the message it has taken so far.
pub struct MacState {
    pub key: Seq<u8>,
    pub message: Seq<u8>,
}

impl MacState {
    /// The state of an engine that has taken nothing yet.
    pub open spec fn fresh(key: Seq<u8>) -> MacState {
        MacState { key, message: Seq::empty() }
    }

    /// The state after one call of `input`: the data is appended, unless it
    /// is longer than one call may take, which changes nothing.
    pub open spec fn absorb(self, data: Seq<u8>) -> MacState {
        if data.len() <= MAX_INPUT_LEN {
            MacState { key: self.key, message: self.message + data }
        } else {
            self
        }
    }

    /// The state after one call of `input` for each of `chunks`, in order.
    pub open spec fn absorb_all(self, chunks: Seq<Seq<u8>>) -> MacState
        decreases chunks.len(),
    {
        if chunks.len() == 0 {
            self
        } else {
            self.absorb_all(chunks.drop_last()).absorb(chunks.last())
        }
    }

    /// The state after `reset`.
    pub open spec fn reset(self) -> MacState {
        MacState::fresh(self.key)
    }

    /// The tag that `result` gives in this state.
    pub open spec fn tag(self) -> Seq<u8> {
        omac::aes_cmac(self.key, self.message)
    }

    /// The bytes of the message that the engine holds back: its last block,
    /// of one to sixteen bytes, or none where the message is empty.
    pub open spec fn buffered_len(self) -> nat {
        (self.message.len() - omac::head_len(self.message.len())) as nat
    }

    /// The accumulator of the engine: the chain value after the blocks that
    /// lie before the last block, zero where there are none.
    pub open spec fn accumulator(self) -> Seq<u8> {
        omac::chain(self.key, self.message.subrange(0, omac::head_len(self.message.len()) as int))
    }

    /// The buffer of the engine: the last block of the message, and zeros
    /// behind it.
    pub open spec fn buffer(self) -> Seq<u8> {
        zero_filled(
            self.message.subrange(
                omac::head_len(self.message.len()) as int,
                self.message.len() as int,
            ),
        )
    }
}

/// Up to sixteen bytes with zeros behind them, sixteen bytes in all.
pub open spec fn zero_filled(tail: Seq<u8>) -> Seq<u8> {
    Seq::new(
        16,
        |i: int|
            if i < tail.len() {
                tail[i]
            } else {
                0u8
            },
    )
}

/// The chunks of a message put together again, in order.
pub open spec fn joined(chunks: Seq<Seq<u8>>) -> Seq<u8>
    decreases chunks.len(),
{
    if chunks.len() == 0 {
        Seq::empty()
    } else {
        joined(chunks.drop_last()) + chunks.last()
    }
}

/// However a message that one call can take is cut into consecutive chunks,
/// an engine that is given the chunks one by one ends in the state, and so
/// gives the tag, of an engine that is given the message in one call.
pub proof fn lemma_chunking_invariance(state: MacState, message: Seq<u8>, chunks: Seq<Seq<u8>>)
    requires
        joined(chunks) == message,
        message.len() <= MAX_INPUT_LEN,
    ensures
        state.absorb_all(chunks) == state.absorb(message),
        state.absorb_all(chunks).tag() == state.absorb(message).tag(),
    decreases chunks.len(),
{
    if chunks.len() == 0 {
        assert(state.message + message =~= state.message);
    } else {
        let before = joined(chunks.drop_last());
        lemma_chunking_invariance(state, before, chunks.drop_last());
        assert((state.message + before) + chunks.last() =~= state.message + message);
    }
}

/// After `reset` an engine is in the state of a new engine under the same
/// key, and whatever it is then given, it ends in the state, and gives the
/// tag, that the new engine would.
pub proof fn lemma_reset_is_fresh(state: MacState, chunks: Seq<Seq<u8>>)
    ensures
        state.reset() == MacState::fresh(state.key),
        state.reset().absorb_all(chunks) == MacState::fresh(state.key).absorb_all(chunks),
        state.reset().absorb_all(chunks).tag() == MacState::fresh(state.key).absorb_all(
            chunks,
        ).tag(),
{
}

/// An engine that computes the tag of a message under one key.
pub struct Cmac {
    schedule: KeySchedule,
    /// The chain value after the blocks that lie before the last block.
    x: [u8; 16],
    /// The last block of the message so far, in its first `last_len` bytes.
    last: [u8; 16],
    last_len: usize,
    message: Ghost<Seq<u8>>,
}

impl View for Cmac {
    type V = MacState;

    closed spec fn view(&self) -> MacState {
        MacState { key: self.schedule.key(), message: self.message@ }
    }
}

/// What ties the three fields of an engine to the key and the message that
/// it stands for.
spec fn holds(state: MacState, x: Seq<u8>, last: Seq<u8>, last_len: int) -> bool {
    &&& last_len == state.buffered_len()
    &&& last_len <= 16
    &&& x == state.accumulator()
    &&& last == state.buffer()
}

/// `a` with `b` added to it.
fn xor_into(a: &mut [u8; 16], b: &[u8; 16])
    ensures
        final(a)@ == xor_block(old(a)@, b@),
{
    let ghost before = a@;
    let mut i: usize = 0;
    while i < 16
        invariant
            i <= 16,
            forall|j: int| 0 <= j < i ==> a@[j] == before[j] ^ b@[j],
            forall|j: int| i <= j < 16 ==> a@[j] == before[j],
        decreases 16 - i,
    {
        a[i] = a[i] ^ b[i];
        i += 1;
    }
    assert(a@ =~= xor_block(before, b@));
}

/// `b` doubled in GF(2^128).
fn double(b: &[u8; 16]) -> (d: [u8; 16])
    ensures
        d@ == omac::double(b@),
{
    let mut d = [0u8; 16];
    let mut i: usize = 0;
    while i < 15
        invariant
            i <= 15,
            forall|j: int| 0 <= j < i ==> d@[j] == omac::double(b@)[j],
        decreases 15 - i,
    {
        d[i] = (b[i] << 1) | (b[i + 1] >> 7);
        i += 1;
    }
    if b[0] & 0x80 == 0x80 {
        d[15] = (b[15] << 1) ^ 0x87;
    } else {
        d[15] = b[15] << 1;
    }
    assert(d@ =~= omac::double(b@));
    d
}

/// The first `len` bytes of `last` made into a padded block.
fn padded(last: &[u8; 16], len: usize) -> (p: [u8; 16])
    requires
        len < 16,
    ensures
        p@ == omac::pad(last@.subrange(0, len as int)),
{
    let mut p = [0u8; 16];
    let mut i: usize = 0;
    while i < len
        invariant
            i <= len < 16,
            forall|j: int| 0 <= j < i ==> p@[j] == last@[j],
            forall|j: int| i <= j < 16 ==> p@[j] == 0,
        decreases len - i,
    {
        p[i] = last[i];
        i += 1;
    }
    p[len] = 0x80;
    assert(p@ =~= omac::pad(last@.subrange(0, len as int)));
    p
}

/// Appending one byte to a message whose last block is full closes that
/// block: it goes through the chain, and the byte starts a new last block.
proof fn lemma_push_after_full_block(key: Seq<u8>, message: Seq<u8>, byte: u8)
    requires
        message.len() > 0,
        message.len() % 16 == 0,
    ensures
        omac::head_len(message.len() + 1) == message.len(),
        omac::head_len(message.len()) == message.len() - 16,
        omac::chain(key, message.push(byte).subrange(0, message.len() as int)) == cipher(
            key,
            xor_block(
                omac::chain(key, message.subrange(0, message.len() - 16)),
                message.subrange(message.len() - 16, message.len() as int),
            ),
        ),
{
    assert(message.push(byte).subrange(0, message.len() as int) =~= message);
}

/// Appending one byte to a message whose last block is not full leaves the
/// blocks before the last block as they were.
proof fn lemma_push_into_last_block(message: Seq<u8>, byte: u8)
    requires
        message.len() == 0 || message.len() % 16 != 0,
    ensures
        omac::head_len(message.len() + 1) == omac::head_len(message.len()),
        message.push(byte).subrange(0, omac::head_len(message.len()) as int) == message.subrange(
            0,
            omac::head_len(message.len()) as int,
        ),
{
    let head = omac::head_len(message.len()) as int;
    assert(message.push(byte).subrange(0, head) =~= message.subrange(0, head));
}

impl Cmac {
    #[verifier::type_invariant]
    spec fn well_formed(&self) -> bool {
        holds(self@, self.x@, self.last@, self.last_len as int)
    }

    /// The accumulator: the running chain value.
    pub closed spec fn accumulator(&self) -> Seq<u8> {
        self.x@
    }

    /// The sixteen bytes of the buffer that holds the last block.
    pub closed spec fn buffer(&self) -> Seq<u8> {
        self.last@
    }

    /// The bytes of the buffer that are in use.
    pub closed spec fn buffered_len(&self) -> nat {
        self.last_len as nat
    }

    /// An engine under `key` that has taken nothing yet: its accumulator
    /// and its buffer are zero, and nothing is buffered.
    pub fn new(key: [u8; 16]) -> (mac: Cmac)
        ensures
            mac@ == MacState::fresh(key@),
            mac.accumulator() == zero_block(),
            mac.buffer() == zero_block(),
            mac.buffered_len() == 0,
    {
        let schedule = KeySchedule::set_key(&key);
        let x = [0u8; 16];
        let last = [0u8; 16];
        proof {
            let state = MacState::fresh(key@);
            assert(x@ =~= zero_block());
            assert(last@ =~= zero_block());
            assert(state.buffer() =~= zero_block());
        }
        Cmac { schedule, x, last, last_len: 0, message: Ghost(Seq::empty()) }
    }

    /// Appends `data` to the message. More than `MAX_INPUT_LEN` bytes in one
    /// call are refused, and the engine stays as it was. Every block that
    /// the data completes and runs past goes through the chain into the
    /// accumulator; the last block of the message stays in the buffer.
    pub fn input(&mut self, data: &[u8]) -> (taken: Result<(), MacError>)
        ensures
            final(self)@ == old(self)@.absorb(data@),
            data@.len() <= MAX_INPUT_LEN ==> taken == Ok::<(), MacError>(()),
            data@.len() > MAX_INPUT_LEN ==> taken == Err::<(), MacError>(MacError::InputTooLong),
            final(self).accumulator() == final(self)@.accumulator(),
            final(self).buffer() == final(self)@.buffer(),
            final(self).buffered_len() == final(self)@.buffered_len(),
    {
        proof {
            use_type_invariant(&*self);
        }
        if data.len() > MAX_INPUT_LEN {
            return Err(MacError::InputTooLong);
        }
        let schedule = self.schedule;
        let mut x = self.x;
        let mut last = self.last;
        let mut last_len = self.last_len;
        let ghost start = self.message@;
        let ghost key = schedule.key();
        let mut i: usize = 0;
        while i < data.len()
            invariant
                i <= data.len(),
                key == schedule.key(),
                holds(
                    MacState { key, message: start + data@.subrange(0, i as int) },
                    x@,
                    last@,
                    last_len as int,
                ),
            decreases data.len() - i,
        {
            let ghost message = start + data@.subrange(0, i as int);
            let ghost head = omac::head_len(message.len()) as int;
            let byte = data[i];
            proof {
                assert(message.push(byte) =~= start + data@.subrange(0, i + 1));
            }
            if last_len == 16 {
                proof {
                    lemma_push_after_full_block(key, message, byte);
                    assert(last@ =~= message.subrange(head, message.len() as int));
                }
                xor_into(&mut x, &last);
                x = schedule.encrypt_block(&x);
                last = [0u8; 16];
                last_len = 0;
            } else {
                proof {
                    lemma_push_into_last_block(message, byte);
                }
            }
            let ghost before = last@;
            last[last_len] = byte;
            last_len += 1;
            proof {
                let next = MacState { key, message: message.push(byte) };
                assert(last@ =~= next.buffer()) by {
                    assert forall|j: int| 0 <= j < 16 implies last@[j] == next.buffer()[j] by {
                        if j < last_len - 1 {
                            assert(before[j] == message[head + j]);
                        }
                    }
                }
            }
            i += 1;
        }
        proof {
            assert(data@.subrange(0, data@.len() as int) =~= data@);
        }
        *self = Cmac { schedule, x, last, last_len, message: Ghost(start + data@) };
        Ok(())
    }

    /// Forgets the message taken so far and keeps the key: the accumulator
    /// and the buffer are zero again, and nothing is buffered.
    pub fn reset(&mut self)
        ensures
            final(self)@ == old(self)@.reset(),
            final(self).accumulator() == zero_block(),
            final(self).buffer() == zero_block(),
            final(self).buffered_len() == 0,
    {
        let schedule = self.schedule;
        let x = [0u8; 16];
        let last = [0u8; 16];
        proof {
            let state = MacState::fresh(schedule.key());
            assert(x@ =~= zero_block());
            assert(last@ =~= zero_block());
            assert(state.buffer() =~= zero_block());
        }
        *self = Cmac { schedule, x, last, last_len: 0, message: Ghost(Seq::empty()) };
    }

    /// The tag of the message taken so far.
    pub fn result(self) -> (tag: [u8; 16])
        ensures
            tag@ == self@.tag(),
    {
        proof {
            use_type_invariant(&self);
        }
        let zero = [0u8; 16];
        assert(zero@ =~= zero_block());
        let k1 = double(&self.schedule.encrypt_block(&zero));
        let ghost head = omac::head_len(self.message@.len()) as int;
        let ghost tail = self.message@.subrange(head, self.message@.len() as int);
        assert(self.last@.subrange(0, self.last_len as int) =~= tail);
        let mut block;
        if self.last_len == 16 {
            block = self.last;
            assert(block@ =~= tail);
            xor_into(&mut block, &k1);
        } else {
            let k2 = double(&k1);
            block = padded(&self.last, self.last_len);
            xor_into(&mut block, &k2);
        }
        xor_into(&mut block, &self.x);
        self.schedule.encrypt_block(&block)
    }
}

} // verus!
