//! Frame codec: a message travels on the wire as a frame of exactly
//! `MSG_SIZE` bytes, the UTF-8 bytes of the message right-padded with zero
//! bytes.  A message therefore holds at most `MSG_SIZE - 1` bytes, so that
//! every well-formed frame carries at least one terminating zero; encoding
//! anything longer is rejected rather than truncated.  Decoding takes the
//! bytes before the first zero of the frame and demands that they be valid
//! UTF-8.

use vstd::prelude::*;

verus! {

/// Width of every frame on the wire, in bytes.
pub const MSG_SIZE: usize = 32;

/// No byte of `s` is zero.
pub open spec fn zero_free(s: Seq<u8>) -> bool {
    forall|i: int| 0 <= i < s.len() ==> s[i] != 0
}

/// Index of the first zero byte of `s`, or `s.len()` when none occurs.
pub open spec fn first_zero(s: Seq<u8>) -> int
    decreases s.len(),
{
    if s.len() == 0 {
        0
    } else if s[0] == 0 {
        0
    } else {
        1 + first_zero(s.skip(1))
    }
}

/// The bytes of `s` before its first zero byte.
pub open spec fn zero_prefix(s: Seq<u8>) -> Seq<u8> {
    s.take(first_zero(s))
}

/// `msg` right-padded with zero bytes up to `MSG_SIZE`.
pub open spec fn pad(msg: Seq<u8>) -> Seq<u8>
    recommends
        msg.len() <= MSG_SIZE,
{
    msg + Seq::new((MSG_SIZE - msg.len()) as nat, |i: int| 0u8)
}

/// A UTF-8 continuation byte.
pub open spec fn is_cont_byte(b: u8) -> bool {
    0x80 <= b && b <= 0xBF
}

/// Width in bytes of the UTF-8 scalar introduced by lead byte `b`
/// (0 when `b` cannot lead a scalar).
pub open spec fn scalar_len(b: u8) -> int {
    if b < 0x80 {
        1
    } else if 0xC2 <= b && b <= 0xDF {
        2
    } else if 0xE0 <= b && b <= 0xEF {
        3
    } else if 0xF0 <= b && b <= 0xF4 {
        4
    } else {
        0
    }
}

/// `s` begins with one well-formed UTF-8 scalar.
pub open spec fn scalar_ok(s: Seq<u8>) -> bool
    recommends
        s.len() > 0,
{
    let b0 = s[0];
    if b0 < 0x80 {
        true
    } else if 0xC2 <= b0 && b0 <= 0xDF {
        s.len() >= 2 && is_cont_byte(s[1])
    } else if b0 == 0xE0 {
        s.len() >= 3 && 0xA0 <= s[1] && s[1] <= 0xBF && is_cont_byte(s[2])
    } else if b0 == 0xED {
        s.len() >= 3 && 0x80 <= s[1] && s[1] <= 0x9F && is_cont_byte(s[2])
    } else if 0xE0 <= b0 && b0 <= 0xEF {
        s.len() >= 3 && is_cont_byte(s[1]) && is_cont_byte(s[2])
    } else if b0 == 0xF0 {
        s.len() >= 4 && 0x90 <= s[1] && s[1] <= 0xBF && is_cont_byte(s[2]) && is_cont_byte(s[3])
    } else if b0 == 0xF4 {
        s.len() >= 4 && 0x80 <= s[1] && s[1] <= 0x8F && is_cont_byte(s[2]) && is_cont_byte(s[3])
    } else if 0xF0 <= b0 && b0 <= 0xF4 {
        s.len() >= 4 && is_cont_byte(s[1]) && is_cont_byte(s[2]) && is_cont_byte(s[3])
    } else {
        false
    }
}

/// `s` is a well-formed UTF-8 byte sequence.
pub open spec fn is_utf8(s: Seq<u8>) -> bool
    decreases s.len(),
{
    if s.len() == 0 {
        true
    } else if !scalar_ok(s) {
        false
    } else {
        is_utf8(s.skip(scalar_len(s[0])))
    }
}

/// A frame's zero-terminated prefix decodes to a message: the frame holds a
/// zero byte, and the bytes before the first one are valid UTF-8.
pub open spec fn frame_decodes(f: Seq<u8>) -> bool {
    first_zero(f) < f.len() && is_utf8(zero_prefix(f))
}

/// `first_zero` lies between 0 and `s.len()`, every byte before it is
/// non-zero, and the byte at it (when inside `s`) is zero.
pub proof fn lemma_first_zero_bounds(s: Seq<u8>)
    ensures
        0 <= first_zero(s) <= s.len(),
        forall|k: int| 0 <= k < first_zero(s) ==> s[k] != 0,
        first_zero(s) < s.len() ==> s[first_zero(s)] == 0,
    decreases s.len(),
{
    if s.len() == 0 {
    } else if s[0] == 0 {
    } else {
        lemma_first_zero_bounds(s.skip(1));
        assert forall|k: int| 0 <= k < first_zero(s) implies s[k] != 0 by {
            if k > 0 {
                assert(s.skip(1)[k - 1] == s[k]);
            }
        }
        if first_zero(s) < s.len() {
            assert(s.skip(1)[first_zero(s) - 1] == s[first_zero(s)]);
        }
    }
}

/// The position with no zero before it and a zero (or the end) at it is
/// exactly `first_zero`.
pub proof fn lemma_first_zero_at(s: Seq<u8>, i: int)
    requires
        0 <= i <= s.len(),
        forall|k: int| 0 <= k < i ==> s[k] != 0,
        i < s.len() ==> s[i] == 0,
    ensures
        first_zero(s) == i,
    decreases i,
{
    if i == 0 {
    } else {
        assert(s[0] != 0);
        assert forall|k: int| 0 <= k < i - 1 implies s.skip(1)[k] != 0 by {
            assert(s.skip(1)[k] == s[k + 1]);
        }
        assert(i - 1 < s.skip(1).len() ==> s.skip(1)[i - 1] == s[i]);
        lemma_first_zero_at(s.skip(1), i - 1);
    }
}

/// Failure of `encode`.
#[derive(Clone, Copy, Debug, PartialEq, Eq, Structural)]
pub enum EncodeError {
    /// The message does not fit in one frame beside its terminating zero.
    EncodingOverflow,
}

/// Failure of `decode`.
#[derive(Clone, Copy, Debug, PartialEq, Eq, Structural)]
pub enum DecodeError {
    /// The frame holds no terminating zero, or its prefix is not UTF-8.
    InvalidEncoding,
}

/// Encodes `msg` into one fixed-size frame: the message bytes, right-padded
/// with zeros.  Rejects a message of `MSG_SIZE` bytes or more, so that every
/// frame produced here carries at least one terminating zero.
pub fn encode(msg: &Vec<u8>) -> (r: Result<Vec<u8>, EncodeError>)
    ensures
        r is Ok <==> msg@.len() < MSG_SIZE,
        r matches Ok(frame) ==> frame@ == pad(msg@) && frame@.len() == MSG_SIZE,
        r matches Err(e) ==> e is EncodingOverflow,
{
    if msg.len() >= MSG_SIZE {
        return Err(EncodeError::EncodingOverflow);
    }
    let mut frame: Vec<u8> = Vec::new();
    let mut i: usize = 0;
    while i < msg.len()
        invariant
            i <= msg@.len(),
            frame@ == msg@.take(i as int),
        decreases msg@.len() - i,
    {
        frame.push(msg[i]);
        i = i + 1;
        proof {
            assert(frame@ =~= msg@.take(i as int));
        }
    }
    assert(frame@ =~= msg@);
    while frame.len() < MSG_SIZE
        invariant
            msg@.len() <= frame@.len() <= MSG_SIZE,
            frame@.take(msg@.len() as int) == msg@,
            forall|j: int| msg@.len() <= j < frame@.len() ==> frame@[j] == 0,
        decreases MSG_SIZE - frame@.len(),
    {
        frame.push(0);
        proof {
            assert(frame@.take(msg@.len() as int) =~= msg@);
        }
    }
    proof {
        assert(frame@ =~= pad(msg@));
    }
    Ok(frame)
}

/// Index of the first zero byte of `frame`, or its length when none occurs.
fn find_first_zero(frame: &Vec<u8>) -> (i: usize)
    ensures
        i == first_zero(frame@),
{
    let mut i: usize = 0;
    while i < frame.len()
        invariant
            i <= frame@.len(),
            forall|k: int| 0 <= k < i ==> frame@[k] != 0,
        decreases frame@.len() - i,
    {
        if frame[i] == 0 {
            proof {
                lemma_first_zero_at(frame@, i as int);
            }
            return i;
        }
        i = i + 1;
    }
    proof {
        lemma_first_zero_at(frame@, i as int);
    }
    i
}

/// A UTF-8 continuation byte.
fn cont(b: u8) -> (r: bool)
    ensures
        r == is_cont_byte(b),
{
    0x80 <= b && b <= 0xBF
}

/// Whether `bytes` is well-formed UTF-8, checked scalar by scalar.
pub fn validate_utf8(bytes: &Vec<u8>) -> (r: bool)
    ensures
        r == is_utf8(bytes@),
{
    let n = bytes.len();
    let mut i: usize = 0;
    proof {
        assert(bytes@.skip(0) =~= bytes@);
    }
    while i < n
        invariant
            i <= n,
            n == bytes@.len(),
            is_utf8(bytes@) == is_utf8(bytes@.skip(i as int)),
        decreases n - i,
    {
        let ghost rem = bytes@.skip(i as int);
        proof {
            assert(rem.len() == n - i);
            assert(rem[0] == bytes@[i as int]);
            if 1 < rem.len() {
                assert(rem[1] == bytes@[i as int + 1]);
            }
            if 2 < rem.len() {
                assert(rem[2] == bytes@[i as int + 2]);
            }
            if 3 < rem.len() {
                assert(rem[3] == bytes@[i as int + 3]);
            }
        }
        let b0 = bytes[i];
        let mut width: usize = 0;
        if b0 < 0x80 {
            width = 1;
        } else if 0xC2 <= b0 && b0 <= 0xDF {
            if n - i >= 2 && cont(bytes[i + 1]) {
                width = 2;
            }
        } else if 0xE0 <= b0 && b0 <= 0xEF {
            let lo: u8 = if b0 == 0xE0 { 0xA0 } else { 0x80 };
            let hi: u8 = if b0 == 0xED { 0x9F } else { 0xBF };
            if n - i >= 3 && lo <= bytes[i + 1] && bytes[i + 1] <= hi && cont(bytes[i + 2]) {
                width = 3;
            }
        } else if 0xF0 <= b0 && b0 <= 0xF4 {
            let lo: u8 = if b0 == 0xF0 { 0x90 } else { 0x80 };
            let hi: u8 = if b0 == 0xF4 { 0x8F } else { 0xBF };
            if n - i >= 4 && lo <= bytes[i + 1] && bytes[i + 1] <= hi && cont(bytes[i + 2])
                && cont(bytes[i + 3]) {
                width = 4;
            }
        }
        if width == 0 {
            proof {
                assert(!scalar_ok(rem));
                assert(!is_utf8(rem));
            }
            return false;
        }
        proof {
            assert(scalar_ok(rem));
            assert(scalar_len(rem[0]) == width);
            assert(rem.skip(width as int) =~= bytes@.skip(i as int + width as int));
            assert(is_utf8(rem) == is_utf8(rem.skip(width as int)));
        }
        i = i + width;
    }
    proof {
        assert(bytes@.skip(n as int) =~= Seq::<u8>::empty());
        assert(is_utf8(Seq::<u8>::empty()));
    }
    true
}

/// One relayed text payload.  Every `Message` holds fewer than `MSG_SIZE`
/// bytes of zero-free, well-formed UTF-8, so it always fits in one frame
/// beside its terminating zero and survives a round trip through the codec.
pub struct Message {
    pub(crate) bytes: Vec<u8>,
}

impl View for Message {
    type V = Seq<u8>;

    closed spec fn view(&self) -> Seq<u8> {
        self.bytes@
    }
}

impl Message {
    #[verifier::type_invariant]
    pub(crate) open spec fn inv(self) -> bool {
        self.bytes@.len() < MSG_SIZE && zero_free(self.bytes@) && is_utf8(self.bytes@)
    }

    /// Builds a message from raw bytes; `None` when the bytes are too long
    /// for a frame, hold a zero byte, or are not valid UTF-8.
    pub fn from_bytes(bytes: Vec<u8>) -> (r: Option<Message>)
        ensures
            r is Some <==> bytes@.len() < MSG_SIZE && zero_free(bytes@) && is_utf8(bytes@),
            r matches Some(m) ==> m@ == bytes@,
    {
        if bytes.len() >= MSG_SIZE {
            return None;
        }
        let mut i: usize = 0;
        while i < bytes.len()
            invariant
                i <= bytes@.len(),
                forall|k: int| 0 <= k < i ==> bytes@[k] != 0,
            decreases bytes@.len() - i,
        {
            if bytes[i] == 0 {
                return None;
            }
            i = i + 1;
        }
        if !validate_utf8(&bytes) {
            return None;
        }
        Some(Message { bytes })
    }

    /// The payload bytes of the message.
    pub fn as_bytes(&self) -> (r: &Vec<u8>)
        ensures
            r@ == self@,
    {
        &self.bytes
    }

    /// Number of payload bytes; always below `MSG_SIZE`.
    pub fn len(&self) -> (n: usize)
        ensures
            n == self@.len(),
            n < MSG_SIZE,
    {
        proof {
            use_type_invariant(&*self);
        }
        self.bytes.len()
    }
}

/// Builds a `Message` from bytes already known to satisfy its invariant.
pub(crate) fn message_from_checked(bytes: Vec<u8>) -> (m: Message)
    requires
        bytes@.len() < MSG_SIZE,
        zero_free(bytes@),
        is_utf8(bytes@),
    ensures
        m@ == bytes@,
{
    Message { bytes }
}

/// Decodes one frame of exactly `MSG_SIZE` bytes: the bytes before the
/// frame's first zero are the message.  Fails when no zero terminates the
/// frame or when the prefix is not valid UTF-8.
pub fn decode(frame: &Vec<u8>) -> (r: Result<Message, DecodeError>)
    requires
        frame@.len() == MSG_SIZE,
    ensures
        r is Ok <==> frame_decodes(frame@),
        r matches Ok(m) ==> m@ == zero_prefix(frame@),
        r matches Err(e) ==> e is InvalidEncoding,
{
    let z = find_first_zero(frame);
    proof {
        lemma_first_zero_bounds(frame@);
    }
    if z >= MSG_SIZE {
        return Err(DecodeError::InvalidEncoding);
    }
    let mut prefix: Vec<u8> = Vec::new();
    let mut i: usize = 0;
    while i < z
        invariant
            i <= z,
            z < frame@.len(),
            prefix@ == frame@.take(i as int),
        decreases z - i,
    {
        prefix.push(frame[i]);
        i = i + 1;
        proof {
            assert(prefix@ =~= frame@.take(i as int));
        }
    }
    proof {
        assert(prefix@ == zero_prefix(frame@));
        lemma_first_zero_bounds(frame@);
        assert(zero_free(prefix@));
    }
    if validate_utf8(&prefix) {
        Ok(message_from_checked(prefix))
    } else {
        Err(DecodeError::InvalidEncoding)
    }
}

/// Round trip: a message of at most `MSG_SIZE - 1` zero-free bytes is
/// returned unchanged by decoding the frame that encodes it.
pub proof fn lemma_round_trip(msg: Seq<u8>)
    requires
        msg.len() < MSG_SIZE,
        zero_free(msg),
    ensures
        pad(msg).len() == MSG_SIZE,
        first_zero(pad(msg)) == msg.len(),
        zero_prefix(pad(msg)) == msg,
{
    let p = pad(msg);
    assert(p[msg.len() as int] == 0);
    lemma_first_zero_at(p, msg.len() as int);
    assert(p.take(msg.len() as int) =~= msg);
}

/// Encodes one drained message into the frame the dispatcher writes to
/// every registered handle.  A message always fits in a frame, and the
/// frame decodes back to exactly the message, so each surviving peer
/// receives it unmodified.
pub fn broadcast_frame(msg: &Message) -> (frame: Vec<u8>)
    ensures
        frame@ == pad(msg@),
        frame@.len() == MSG_SIZE,
        frame_decodes(frame@),
        zero_prefix(frame@) == msg@,
{
    proof {
        use_type_invariant(&*msg);
        lemma_round_trip(msg@);
    }
    match encode(msg.as_bytes()) {
        Ok(frame) => frame,
        Err(_) => {
            proof {
                assert(false);
            }
            Vec::new()
        },
    }
}

} // verus!
