//! Message buffers.

use crate::mbox::list::{
    added, appended, built, empty_request, entry_at, entry_end, first_tagged, fit_together, has_tag,
    lemma_appended, lemma_built_holds_its_properties, lemma_first_tagged_is_unique,
    lemma_header_apart, list_end, offsets, properties_of, property_at, terminated,
};
use crate::mbox::property::{requested, Property, PropertyView};
use crate::mbox::words::{append, get_word, split_word, word_at};
use crate::mbox::{
    MailboxError, BUF_SIZE, END_TAG, HEADER_SIZE, LIST_START, MAX_PAYLOAD, REQUEST_CODE,
    SUCCESS_CODE,
};
use vstd::prelude::*;

verus! {

/// A message buffer.
pub struct Message {
    bytes: [u8; 256],
}

impl Message {
    /// The bytes of the buffer.
    pub closed spec fn bytes(self) -> Seq<u8> {
        self.bytes@
    }

    /// The word that says how the firmware took the message.
    pub open spec fn code(self) -> u32 {
        word_at(self.bytes(), 4)
    }

    /// The properties, in order.
    pub open spec fn properties(self) -> Seq<PropertyView> {
        properties_of(self.bytes())
    }

    /// Offset at which the list of properties stops.
    pub open spec fn end(self) -> int {
        list_end(self.bytes(), 8)
    }

    /// Whether the list of properties is closed by an end tag.
    pub open spec fn terminated(self) -> bool {
        terminated(self.bytes())
    }

    /// What looking for the property tagged `tag` gives: nothing before the
    /// firmware has answered with success, else the first property that
    /// carries the tag.
    pub open spec fn find(self, tag: u32) -> Result<PropertyView, MailboxError> {
        if self.code() != SUCCESS_CODE {
            Err(MailboxError::NotAnswered(self.code()))
        } else if !has_tag(self.properties(), tag) {
            Err(MailboxError::TagNotFound(tag))
        } else {
            Ok(self.properties()[choose|k: int| first_tagged(self.properties(), k, tag)])
        }
    }

    /// The response to the property tagged `tag`.
    pub open spec fn response(self, tag: u32) -> Result<Seq<u8>, MailboxError> {
        match self.find(tag) {
            Ok(prop) => prop.response(),
            Err(error) => Err(error),
        }
    }

    /// A message buffer holds 256 bytes.
    pub proof fn lemma_len(self)
        ensures
            self.bytes().len() == 256,
    {
    }

    /// A request without properties: the size of the buffer, the request
    /// code, and an end tag.
    pub fn new() -> (msg: Message)
        ensures
            msg.bytes() == empty_request(),
            msg.code() == REQUEST_CODE,
            msg.properties().len() == 0,
            msg.end() == 8,
            msg.terminated(),
    {
        let mut bytes = [0u8; 256];
        bytes[1] = 1;
        let msg = Message { bytes };
        assert(msg.bytes() =~= empty_request());
        msg
    }

    /// The message that a buffer holds, whatever stands in it.
    pub fn from_bytes(bytes: [u8; 256]) -> (msg: Message)
        ensures
            msg.bytes() == bytes@,
    {
        Message { bytes }
    }

    /// The buffer as it is handed to the firmware.
    pub fn to_bytes(&self) -> (bytes: [u8; 256])
        ensures
            bytes@ == self.bytes(),
    {
        self.bytes
    }

    /// The message's code.
    pub fn get_code(&self) -> (code: u32)
        ensures
            code == self.code(),
    {
        get_word(&self.bytes, 4)
    }

    /// The property tagged `tag` in an answer: the first one, where several
    /// carry the tag.
    pub fn find_property(&self, tag: u32) -> (result: Result<Property, MailboxError>)
        ensures
            match result {
                Ok(prop) => self.find(tag) == Ok::<PropertyView, MailboxError>(prop@) && prop@.wf(),
                Err(error) => self.find(tag) == Err::<PropertyView, MailboxError>(error),
            },
    {
        let code = self.get_code();
        if code != SUCCESS_CODE {
            return Err(MailboxError::NotAnswered(code));
        }
        let (at, found) = self.seek(tag);
        match found {
            None => Err(MailboxError::TagNotFound(tag)),
            Some(k) => {
                let size: u32 = get_word(&self.bytes, at + 4);
                let end: usize = at + HEADER_SIZE + (size as usize + 3) / 4 * 4;
                let prop = Property::from_bytes(vstd::slice::slice_subrange(&self.bytes, at, end));
                proof {
                    let bytes = self.bytes();
                    let part = bytes.subrange(at as int, end as int);
                    assert(part[0] == bytes[at + 0] && part[1] == bytes[at + 1] && part[2]
                        == bytes[at + 2] && part[3] == bytes[at + 3]);
                    assert(part[4] == bytes[at + 4] && part[5] == bytes[at + 5] && part[6]
                        == bytes[at + 6] && part[7] == bytes[at + 7]);
                    assert(part[8] == bytes[at + 8] && part[9] == bytes[at + 9] && part[10]
                        == bytes[at + 10] && part[11] == bytes[at + 11]);
                    assert(prop@.data =~= property_at(bytes, at as int).data);
                    assert(prop@ == self.properties()[k@]);
                    lemma_first_tagged_is_unique(self.properties(), tag, k@);
                }
                Ok(prop)
            },
        }
    }

    /// Appends `prop` to the list and closes the list behind it.  A message
    /// that refuses the property stays as it was.
    pub fn add_property(&mut self, prop: &Property) -> (result: Result<(), MailboxError>)
        ensures
            prop@.wf(),
            match result {
                Ok(()) => {
                    &&& added(old(self).bytes(), prop@) == Ok::<Seq<u8>, MailboxError>(
                        final(self).bytes(),
                    )
                    &&& final(self).terminated()
                    &&& final(self).code() == old(self).code()
                    &&& final(self).properties() == if prop@.tag == END_TAG {
                        old(self).properties()
                    } else {
                        old(self).properties().push(prop@)
                    }
                },
                Err(error) => {
                    &&& added(old(self).bytes(), prop@) == Err::<Seq<u8>, MailboxError>(error)
                    &&& final(self).bytes() == old(self).bytes()
                },
            },
    {
        let (at, found) = self.seek(prop.tag());
        if found.is_some() {
            return Err(MailboxError::DuplicateTag(prop.tag()));
        }
        if at + 4 > BUF_SIZE || get_word(&self.bytes, at) != END_TAG {
            return Err(MailboxError::Overflow);
        }
        let mut patch = prop.bytes();
        if patch.len() > BUF_SIZE - 4 - at {
            return Err(MailboxError::Overflow);
        }
        append(&mut patch, split_word(END_TAG).as_slice());
        let mut i: usize = 0;
        while i < patch.len()
            invariant
                i <= patch.len(),
                at + patch.len() <= 256,
                forall|j: int|
                    0 <= j < 256 ==> self.bytes()[j] == if at <= j < at + i {
                        patch[j - at]
                    } else {
                        old(self).bytes()[j]
                    },
            decreases patch.len() - i,
        {
            let ghost before = self.bytes();
            self.bytes[at + i] = patch[i];
            assert(self.bytes() == before.update(at + i, patch[i as int]));
            i += 1;
        }
        proof {
            assert(self.bytes() =~= appended(old(self).bytes(), prop@));
            lemma_appended(old(self).bytes(), prop@);
            assert(word_at(self.bytes(), 4) == word_at(old(self).bytes(), 4));
        }
        Ok(())
    }

    /// Walks the list up to the first property tagged `tag`, or to where the
    /// list stops.  Returns the offset reached, and the property's place in
    /// the list where one was found.
    fn seek(&self, tag: u32) -> (found: (usize, Option<Ghost<int>>))
        ensures
            found.0 <= 256,
            match found.1 {
                Some(k) => {
                    &&& first_tagged(self.properties(), k@, tag)
                    &&& offsets(self.bytes(), 8)[k@] == found.0
                    &&& entry_at(self.bytes(), found.0 as int)
                },
                None => !has_tag(self.properties(), tag) && found.0 == self.end(),
            },
    {
        let ghost bytes = self.bytes();
        let ghost all = offsets(bytes, 8);
        let mut at: usize = LIST_START;
        let ghost mut k: int = 0;
        proof {
            assert(all.skip(0) =~= all);
        }
        loop
            invariant
                bytes == self.bytes(),
                all == offsets(bytes, 8),
                8 <= at <= 256,
                0 <= k <= all.len(),
                offsets(bytes, at as int) == all.skip(k),
                list_end(bytes, at as int) == list_end(bytes, 8),
                forall|j: int| 0 <= j < k ==> word_at(bytes, #[trigger] all[j]) != tag,
            decreases 256 - at,
        {
            let mut next: usize = 0;
            let mut here: bool = false;
            if at + HEADER_SIZE <= BUF_SIZE && get_word(&self.bytes, at) != END_TAG {
                let size: u32 = get_word(&self.bytes, at + 4);
                let room: usize = BUF_SIZE - HEADER_SIZE - at;
                if size <= 244 && (size as usize + 3) / 4 * 4 <= room {
                    here = true;
                    next = at + HEADER_SIZE + (size as usize + 3) / 4 * 4;
                }
            }
            assert(here == entry_at(bytes, at as int));
            if !here {
                proof {
                    assert(all.skip(k).len() == 0);
                    assert forall|i: int| 0 <= i < self.properties().len() implies (
                    #[trigger] self.properties()[i]).tag != tag by {
                        assert(self.properties()[i].tag == word_at(bytes, all[i]));
                    }
                }
                return (at, None);
            }
            proof {
                assert(next == entry_end(bytes, at as int));
                let rest = offsets(bytes, at as int);
                assert(rest == seq![at as int] + offsets(bytes, next as int));
                assert(rest.len() >= 1 && rest[0] == at);
                assert(all[k] == all.skip(k)[0]);
                assert(offsets(bytes, next as int) =~= rest.skip(1));
                assert(rest.skip(1) =~= all.skip(k + 1));
            }
            if get_word(&self.bytes, at) == tag {
                proof {
                    assert forall|j: int| 0 <= j < k implies (#[trigger] self.properties()[j]).tag
                        != tag by {
                        assert(self.properties()[j].tag == word_at(bytes, all[j]));
                    }
                }
                return (at, Some(Ghost(k)));
            }
            proof {
                k = k + 1;
            }
            at = next;
        }
    }
}

/// What was put into a request is found in the answer: where the firmware
/// answers with success and leaves the list as it was, looking for the tag of
/// any of the properties gives that property.
pub proof fn lemma_answer_holds_what_was_sent(props: Seq<PropertyView>, answer: Message, i: int)
    requires
        fit_together(props),
        answer.code() == SUCCESS_CODE,
        forall|at: int| 8 <= at < 256 ==> answer.bytes()[at] == built(props)[at],
        0 <= i < props.len(),
    ensures
        answer.properties() == props,
        answer.terminated(),
        answer.find(props[i].tag) == Ok::<PropertyView, MailboxError>(props[i]),
{
    answer.lemma_len();
    lemma_built_holds_its_properties(props);
    lemma_header_apart(built(props), answer.bytes());
    assert(first_tagged(props, i, props[i].tag));
    lemma_first_tagged_is_unique(props, props[i].tag, i);
}

/// A request with one property, made as [`Property::new`] makes it.
pub fn request(tag: u32, input: &[u8], output_size: usize) -> (result: Result<
    Message,
    MailboxError,
>)
    requires
        input.len() <= MAX_PAYLOAD,
        output_size <= MAX_PAYLOAD,
    ensures
        match result {
            Ok(msg) => {
                &&& added(empty_request(), requested(tag, input@, output_size as int)) == Ok::<
                    Seq<u8>,
                    MailboxError,
                >(msg.bytes())
                &&& msg.code() == REQUEST_CODE
                &&& msg.terminated()
                &&& msg.properties() == if tag == END_TAG {
                    Seq::<PropertyView>::empty()
                } else {
                    seq![requested(tag, input@, output_size as int)]
                }
            },
            Err(error) => {
                &&& added(empty_request(), requested(tag, input@, output_size as int)) == Err::<
                    Seq<u8>,
                    MailboxError,
                >(error)
                &&& error == MailboxError::Overflow
            },
        },
{
    let mut msg = Message::new();
    let prop = Property::new(tag, input, output_size);
    assert(!has_tag(msg.properties(), tag));
    match msg.add_property(&prop) {
        Ok(()) => {
            assert(msg.properties() =~= if tag == END_TAG {
                Seq::<PropertyView>::empty()
            } else {
                seq![requested(tag, input@, output_size as int)]
            });
            Ok(msg)
        },
        Err(error) => Err(error),
    }
}

/// The response to the property tagged `tag` in an answer.
pub fn response(msg: &Message, tag: u32) -> (result: Result<Vec<u8>, MailboxError>)
    ensures
        match result {
            Ok(bytes) => msg.response(tag) == Ok::<Seq<u8>, MailboxError>(bytes@),
            Err(error) => msg.response(tag) == Err::<Seq<u8>, MailboxError>(error),
        },
{
    match msg.find_property(tag) {
        Ok(prop) => prop.payload(),
        Err(error) => Err(error),
    }
}

} // verus!
