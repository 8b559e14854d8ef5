//! Properties: the tagged records of a message.

use crate::mbox::words::{append, get_word, padded, split_word, word_at, word_bytes};
use crate::mbox::{MailboxError, HEADER_SIZE, MAX_PAYLOAD, RESPONSE_BIT};
use vstd::prelude::*;

verus! {

/// A property as a value: its three header words and its payload buffer.
pub struct PropertyView {
    pub tag: u32,
    pub buf_size: u32,
    pub resp_size: u32,
    pub data: Seq<u8>,
}

impl PropertyView {
    /// The payload buffer has the declared size, padded to whole words.
    pub open spec fn wf(self) -> bool {
        self.data.len() == padded(self.buf_size as int)
    }

    /// Bytes that the property takes in a message.
    pub open spec fn size(self) -> int {
        12 + self.data.len() as int
    }

    /// The property as it stands in a message.
    pub open spec fn encoding(self) -> Seq<u8> {
        word_bytes(self.tag) + word_bytes(self.buf_size) + word_bytes(self.resp_size) + self.data
    }

    /// Whether the firmware has filled in a response.
    pub open spec fn answered(self) -> bool {
        self.resp_size / 0x8000_0000 == 1
    }

    /// Bytes in the response, as the firmware declares them.
    pub open spec fn response_len(self) -> int {
        self.resp_size as int % 0x8000_0000
    }

    /// The response: the payload buffer as it stands, without its padding.
    /// The firmware has filled in the first `response_len()` bytes of it.
    /// There is none where the firmware has not answered, or where it had
    /// more to say than the buffer takes.
    pub open spec fn response(self) -> Result<Seq<u8>, MailboxError> {
        if !self.answered() {
            Err(MailboxError::NoResponse(self.tag))
        } else if self.response_len() > self.buf_size {
            Err(
                MailboxError::Truncated {
                    tag: self.tag,
                    capacity: self.buf_size,
                    size: self.response_len() as u32,
                },
            )
        } else {
            Ok(self.data.subrange(0, self.buf_size as int))
        }
    }
}

/// The request with the tag `tag` and the payload `input`, with room for a
/// response of `output_size` bytes: its payload buffer takes the larger of
/// the two sizes, and what `input` does not fill of it is zero.
pub open spec fn requested(tag: u32, input: Seq<u8>, output_size: int) -> PropertyView {
    let size = if input.len() >= output_size {
        input.len() as int
    } else {
        output_size
    };
    PropertyView {
        tag,
        buf_size: size as u32,
        resp_size: 0,
        data: Seq::new(
            padded(size) as nat,
            |i: int|
                if i < input.len() {
                    input[i]
                } else {
                    0u8
                },
        ),
    }
}

/// A property of a message: a request before the message is sent, a response
/// once it has come back.
pub struct Property {
    tag: u32,
    buf_size: u32,
    resp_size: u32,
    data: Vec<u8>,
}

impl View for Property {
    type V = PropertyView;

    closed spec fn view(&self) -> PropertyView {
        PropertyView {
            tag: self.tag,
            buf_size: self.buf_size,
            resp_size: self.resp_size,
            data: self.data@,
        }
    }
}

impl Property {
    #[verifier::type_invariant]
    spec fn inv(self) -> bool {
        self@.wf()
    }

    /// A request with the tag `tag` and the payload `input`, with room for a
    /// response of `output_size` bytes.
    pub fn new(tag: u32, input: &[u8], output_size: usize) -> (prop: Property)
        requires
            input.len() <= MAX_PAYLOAD,
            output_size <= MAX_PAYLOAD,
        ensures
            prop@ == requested(tag, input@, output_size as int),
            prop@.wf(),
    {
        let size: usize = if input.len() >= output_size {
            input.len()
        } else {
            output_size
        };
        let room: usize = (size + 3) / 4 * 4;
        let mut data: Vec<u8> = Vec::new();
        let mut i: usize = 0;
        while i < room
            invariant
                i <= room,
                input.len() <= size <= room,
                data.len() == i,
                forall|j: int|
                    0 <= j < i ==> data[j] == if j < input.len() {
                        input[j]
                    } else {
                        0u8
                    },
            decreases room - i,
        {
            let byte: u8 = if i < input.len() {
                input[i]
            } else {
                0
            };
            data.push(byte);
            i += 1;
        }
        assert(data@ =~= requested(tag, input@, output_size as int).data);
        Property { tag, buf_size: size as u32, resp_size: 0, data }
    }

    /// The property that `bytes` hold: a header, then the payload buffer
    /// that the header declares.
    pub(crate) fn from_bytes(bytes: &[u8]) -> (prop: Property)
        requires
            bytes.len() >= 12,
            bytes.len() == 12 + padded(word_at(bytes@, 4) as int),
        ensures
            prop@.wf(),
            prop@.tag == word_at(bytes@, 0),
            prop@.buf_size == word_at(bytes@, 4),
            prop@.resp_size == word_at(bytes@, 8),
            prop@.data == bytes@.skip(12),
    {
        let mut data: Vec<u8> = Vec::new();
        let mut i: usize = HEADER_SIZE;
        while i < bytes.len()
            invariant
                12 <= i <= bytes.len(),
                data@ == bytes@.subrange(12, i as int),
            decreases bytes.len() - i,
        {
            data.push(bytes[i]);
            i += 1;
            assert(data@ =~= bytes@.subrange(12, i as int));
        }
        assert(bytes@.subrange(12, bytes.len() as int) =~= bytes@.skip(12));
        Property {
            tag: get_word(bytes, 0),
            buf_size: get_word(bytes, 4),
            resp_size: get_word(bytes, 8),
            data,
        }
    }

    /// The property's tag.
    pub fn tag(&self) -> (tag: u32)
        ensures
            tag == self@.tag,
            self@.wf(),
    {
        proof {
            use_type_invariant(self);
        }
        self.tag
    }

    /// Bytes in the payload buffer, before padding.
    pub fn capacity(&self) -> (size: u32)
        ensures
            size == self@.buf_size,
            self@.wf(),
    {
        proof {
            use_type_invariant(self);
        }
        self.buf_size
    }

    /// The property as it stands in a message.
    pub fn bytes(&self) -> (bytes: Vec<u8>)
        ensures
            bytes@ == self@.encoding(),
            self@.wf(),
    {
        proof {
            use_type_invariant(self);
        }
        let mut bytes: Vec<u8> = Vec::new();
        append(&mut bytes, split_word(self.tag).as_slice());
        append(&mut bytes, split_word(self.buf_size).as_slice());
        append(&mut bytes, split_word(self.resp_size).as_slice());
        append(&mut bytes, self.data.as_slice());
        assert(bytes@ =~= self@.encoding());
        bytes
    }

    /// The response: the bytes of the payload buffer, as they stand.
    pub fn payload(&self) -> (result: Result<Vec<u8>, MailboxError>)
        ensures
            self@.wf(),
            match result {
                Ok(bytes) => self@.response() == Ok::<Seq<u8>, MailboxError>(bytes@),
                Err(error) => self@.response() == Err::<Seq<u8>, MailboxError>(error),
            },
    {
        proof {
            use_type_invariant(self);
        }
        let resp_size: u32 = self.resp_size;
        assert((resp_size & 0x8000_0000 != 0) == (resp_size / 0x8000_0000 == 1)) by (bit_vector);
        assert(resp_size & !0x8000_0000u32 == resp_size % 0x8000_0000) by (bit_vector);
        if resp_size & RESPONSE_BIT == 0 {
            return Err(MailboxError::NoResponse(self.tag));
        }
        let len: u32 = resp_size & !RESPONSE_BIT;
        if len > self.buf_size {
            return Err(
                MailboxError::Truncated { tag: self.tag, capacity: self.buf_size, size: len },
            );
        }
        let mut bytes: Vec<u8> = Vec::new();
        let mut i: usize = 0;
        while i < self.buf_size as usize
            invariant
                i <= self.buf_size <= self.data.len(),
                bytes@ == self.data@.subrange(0, i as int),
            decreases self.buf_size - i,
        {
            bytes.push(self.data[i]);
            i += 1;
            assert(bytes@ =~= self.data@.subrange(0, i as int));
        }
        Ok(bytes)
    }

    /// Hands `output` back.  A request whose answer is of no interest is
    /// closed with this.
    pub fn nop<O>(&self, output: O) -> (same: O)
        ensures
            same == output,
    {
        output
    }
}

} // verus!
