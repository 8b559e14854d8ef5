//! The list of properties in a message buffer, as a walk over its bytes.

use crate::mbox::property::PropertyView;
use crate::mbox::words::{lemma_word_of_bytes, overwrite, padded, word_at, word_bytes};
use crate::mbox::{MailboxError, END_TAG, REQUEST_CODE};
use vstd::prelude::*;

verus! {

/// Offset behind the property that starts at `at`.
pub open spec fn entry_end(bytes: Seq<u8>, at: int) -> int {
    at + 12 + padded(word_at(bytes, at + 4) as int)
}

/// Whether a property starts at `at`: a tag that is not the end tag, with a
/// header and a payload buffer that lie within the message.
pub open spec fn entry_at(bytes: Seq<u8>, at: int) -> bool {
    &&& 0 <= at
    &&& at + 12 <= 256
    &&& word_at(bytes, at) != END_TAG
    &&& entry_end(bytes, at) <= 256
}

/// Offsets of the properties that are met when walking the list from `at`.
pub open spec fn offsets(bytes: Seq<u8>, at: int) -> Seq<int>
    decreases 256 - at,
{
    if entry_at(bytes, at) {
        seq![at] + offsets(bytes, entry_end(bytes, at))
    } else {
        Seq::empty()
    }
}

/// Offset at which walking the list from `at` stops.
pub open spec fn list_end(bytes: Seq<u8>, at: int) -> int
    decreases 256 - at,
{
    if entry_at(bytes, at) {
        list_end(bytes, entry_end(bytes, at))
    } else {
        at
    }
}

/// The property that starts at `at`.
pub open spec fn property_at(bytes: Seq<u8>, at: int) -> PropertyView {
    PropertyView {
        tag: word_at(bytes, at),
        buf_size: word_at(bytes, at + 4),
        resp_size: word_at(bytes, at + 8),
        data: bytes.subrange(at + 12, entry_end(bytes, at)),
    }
}

/// The properties in a message buffer, in order.
pub open spec fn properties_of(bytes: Seq<u8>) -> Seq<PropertyView> {
    offsets(bytes, 8).map_values(|at: int| property_at(bytes, at))
}

/// Whether the list in a message buffer is closed by an end tag.
pub open spec fn terminated(bytes: Seq<u8>) -> bool {
    list_end(bytes, 8) + 4 <= 256 && word_at(bytes, list_end(bytes, 8)) == END_TAG
}

/// Whether `props[i]` is the first property tagged `tag`.
pub open spec fn first_tagged(props: Seq<PropertyView>, i: int, tag: u32) -> bool {
    &&& 0 <= i < props.len()
    &&& props[i].tag == tag
    &&& forall|j: int| 0 <= j < i ==> props[j].tag != tag
}

/// Whether one of `props` is tagged `tag`.
pub open spec fn has_tag(props: Seq<PropertyView>, tag: u32) -> bool {
    exists|i: int| 0 <= i < props.len() && props[i].tag == tag
}

/// At most one property is the first one tagged `tag`.
pub proof fn lemma_first_tagged_is_unique(props: Seq<PropertyView>, tag: u32, k: int)
    requires
        first_tagged(props, k, tag),
    ensures
        has_tag(props, tag),
        (choose|i: int| first_tagged(props, i, tag)) == k,
{
    let i = choose|i: int| first_tagged(props, i, tag);
    assert(first_tagged(props, i, tag));
    if i < k {
        assert(props[i].tag != tag);
    }
    if k < i {
        assert(props[k].tag != tag);
    }
}

/// A message buffer with `prop` and an end tag written where the list
/// stops.
pub open spec fn appended(bytes: Seq<u8>, prop: PropertyView) -> Seq<u8> {
    overwrite(bytes, list_end(bytes, 8), prop.encoding() + word_bytes(END_TAG))
}

/// What appending `prop` to the list in a message buffer gives: the new
/// buffer, or why the message refuses.
pub open spec fn added(bytes: Seq<u8>, prop: PropertyView) -> Result<Seq<u8>, MailboxError> {
    if has_tag(properties_of(bytes), prop.tag) {
        Err(MailboxError::DuplicateTag(prop.tag))
    } else if !terminated(bytes) || list_end(bytes, 8) + prop.size() + 4 > 256 {
        Err(MailboxError::Overflow)
    } else {
        Ok(appended(bytes, prop))
    }
}

/// Walking the list never goes back.
proof fn lemma_list_end_bounds(bytes: Seq<u8>, at: int)
    requires
        0 <= at <= 256,
    ensures
        at <= list_end(bytes, at) <= 256,
        offsets(bytes, at).len() == 0 <==> list_end(bytes, at) == at,
        forall|k: int|
            0 <= k < offsets(bytes, at).len() ==> entry_at(bytes, #[trigger] offsets(bytes, at)[k])
                && at <= offsets(bytes, at)[k] && entry_end(bytes, offsets(bytes, at)[k])
                <= list_end(bytes, at),
    decreases 256 - at,
{
    if entry_at(bytes, at) {
        let next = entry_end(bytes, at);
        lemma_list_end_bounds(bytes, next);
        assert forall|k: int| 0 <= k < offsets(bytes, at).len() implies entry_at(
            bytes,
            #[trigger] offsets(bytes, at)[k],
        ) && at <= offsets(bytes, at)[k] && entry_end(bytes, offsets(bytes, at)[k]) <= list_end(
            bytes,
            at,
        ) by {
            if k > 0 {
                assert(offsets(bytes, at)[k] == offsets(bytes, next)[k - 1]);
            }
        }
    }
}

/// What lies in front of the place where the list stops decides the list up
/// to there: in a buffer `b` that agrees with `a` in front of that place, the
/// walk from `at` meets the same properties and goes on from there.
proof fn lemma_same_prefix(a: Seq<u8>, b: Seq<u8>, at: int, e: int)
    requires
        a.len() == 256,
        b.len() == 256,
        0 <= at <= e <= 256,
        list_end(a, at) == e,
        forall|i: int| 0 <= i < e ==> a[i] == b[i],
    ensures
        offsets(b, at) == offsets(a, at) + offsets(b, e),
        list_end(b, at) == list_end(b, e),
        forall|k: int|
            0 <= k < offsets(a, at).len() ==> property_at(b, #[trigger] offsets(a, at)[k])
                == property_at(a, offsets(a, at)[k]),
    decreases 256 - at,
{
    if entry_at(a, at) {
        let next = entry_end(a, at);
        lemma_list_end_bounds(a, next);
        assert(entry_at(b, at) && entry_end(b, at) == next);
        lemma_same_prefix(a, b, next, e);
        assert(offsets(b, at) =~= offsets(a, at) + offsets(b, e));
        assert(property_at(b, at).data =~= property_at(a, at).data);
        assert forall|k: int| 0 <= k < offsets(a, at).len() implies property_at(
            b,
            #[trigger] offsets(a, at)[k],
        ) == property_at(a, offsets(a, at)[k]) by {
            if k > 0 {
                assert(offsets(a, at)[k] == offsets(a, next)[k - 1]);
            }
        }
    } else {
        assert(offsets(b, at) =~= offsets(a, at) + offsets(b, e));
    }
}

/// Two buffers that differ in their first eight bytes at most hold the same
/// properties.
pub proof fn lemma_header_apart(a: Seq<u8>, b: Seq<u8>)
    requires
        a.len() == 256,
        b.len() == 256,
        forall|i: int| 8 <= i < 256 ==> a[i] == b[i],
    ensures
        properties_of(a) == properties_of(b),
        list_end(a, 8) == list_end(b, 8),
        terminated(a) == terminated(b),
{
    lemma_same_tail(a, b, 8);
    assert(properties_of(a) =~= properties_of(b)) by {
        lemma_list_end_bounds(a, 8);
    }
}

/// What lies behind the first eight bytes decides the walk: two buffers that
/// agree there are walked alike from `at`.
proof fn lemma_same_tail(a: Seq<u8>, b: Seq<u8>, at: int)
    requires
        a.len() == 256,
        b.len() == 256,
        8 <= at <= 256,
        forall|i: int| 8 <= i < 256 ==> a[i] == b[i],
    ensures
        offsets(a, at) == offsets(b, at),
        list_end(a, at) == list_end(b, at),
        forall|k: int|
            0 <= k < offsets(a, at).len() ==> property_at(b, #[trigger] offsets(a, at)[k])
                == property_at(a, offsets(a, at)[k]),
        list_end(a, at) + 4 <= 256 ==> word_at(a, list_end(a, at)) == word_at(b, list_end(a, at)),
    decreases 256 - at,
{
    if entry_at(a, at) {
        let next = entry_end(a, at);
        assert(entry_at(b, at) && entry_end(b, at) == next);
        lemma_same_tail(a, b, next);
        assert(property_at(b, at).data =~= property_at(a, at).data);
        assert forall|k: int| 0 <= k < offsets(a, at).len() implies property_at(
            b,
            #[trigger] offsets(a, at)[k],
        ) == property_at(a, offsets(a, at)[k]) by {
            if k > 0 {
                assert(offsets(a, at)[k] == offsets(a, next)[k - 1]);
            }
        }
    } else {
        if at + 12 <= 256 {
            assert(!entry_at(b, at));
        }
    }
}

/// Appending to a closed list that has room: the list is closed again, what
/// stood in it stands in it still, and the new property follows, unless it
/// carries the end tag and so closes the list itself.
pub proof fn lemma_appended(bytes: Seq<u8>, prop: PropertyView)
    requires
        bytes.len() == 256,
        prop.wf(),
        terminated(bytes),
        list_end(bytes, 8) + prop.size() + 4 <= 256,
    ensures
        appended(bytes, prop).len() == 256,
        terminated(appended(bytes, prop)),
        forall|i: int| 0 <= i < 8 ==> appended(bytes, prop)[i] == bytes[i],
        properties_of(appended(bytes, prop)) == if prop.tag == END_TAG {
            properties_of(bytes)
        } else {
            properties_of(bytes).push(prop)
        },
        list_end(appended(bytes, prop), 8) == if prop.tag == END_TAG {
            list_end(bytes, 8)
        } else {
            list_end(bytes, 8) + prop.size()
        },
{
    let e = list_end(bytes, 8);
    let patch = prop.encoding() + word_bytes(END_TAG);
    let b = appended(bytes, prop);
    let n = prop.size();
    lemma_list_end_bounds(bytes, 8);
    assert(patch.len() == n + 4);
    assert forall|i: int| 0 <= i < patch.len() implies b[e + i] == #[trigger] patch[i] by {}
    assert(b[e] == patch[0] && b[e + 1] == patch[1] && b[e + 2] == patch[2] && b[e + 3]
        == patch[3]);
    assert(b[e + 4] == patch[4] && b[e + 5] == patch[5] && b[e + 6] == patch[6] && b[e + 7]
        == patch[7]);
    assert(b[e + 8] == patch[8] && b[e + 9] == patch[9] && b[e + 10] == patch[10] && b[e + 11]
        == patch[11]);
    assert(b[e + n] == patch[n] && b[e + n + 1] == patch[n + 1] && b[e + n + 2] == patch[n + 2]
        && b[e + n + 3] == patch[n + 3]);
    lemma_word_of_bytes(prop.tag);
    lemma_word_of_bytes(prop.buf_size);
    lemma_word_of_bytes(prop.resp_size);
    assert(word_at(b, e) == prop.tag);
    assert(word_at(b, e + 4) == prop.buf_size);
    assert(word_at(b, e + 8) == prop.resp_size);
    assert(word_at(b, e + n) == END_TAG);
    assert(entry_end(b, e) == e + n);
    assert(property_at(b, e).data =~= prop.data) by {
        assert forall|i: int| 0 <= i < prop.data.len() implies b[e + 12 + i] == prop.data[i] by {
            assert(b[e + (12 + i)] == patch[12 + i]);
        }
    }
    assert(property_at(b, e) == prop);
    lemma_same_prefix(bytes, b, 8, e);
    if prop.tag == END_TAG {
        assert(!entry_at(b, e));
        assert(offsets(b, 8) =~= offsets(bytes, 8));
        assert(properties_of(b) =~= properties_of(bytes));
    } else {
        assert(entry_at(b, e));
        assert(!entry_at(b, e + n));
        assert(offsets(b, e + n) =~= Seq::empty());
        assert(list_end(b, e + n) == e + n);
        assert(offsets(b, e) =~= seq![e]);
        assert(offsets(b, 8) =~= offsets(bytes, 8).push(e));
        assert(properties_of(b) =~= properties_of(bytes).push(prop));
    }
}

/// The buffer of a request without properties.
pub open spec fn empty_request() -> Seq<u8> {
    word_bytes(256) + word_bytes(REQUEST_CODE) + word_bytes(END_TAG) + Seq::new(
        244,
        |i: int| 0u8,
    )
}

/// The buffer of a request to which `props` were added one after the other.
pub open spec fn built(props: Seq<PropertyView>) -> Seq<u8>
    decreases props.len(),
{
    if props.len() == 0 {
        empty_request()
    } else {
        appended(built(props.drop_last()), props.last())
    }
}

/// Bytes that `props` take in a message.
pub open spec fn total_size(props: Seq<PropertyView>) -> int
    decreases props.len(),
{
    if props.len() == 0 {
        0
    } else {
        total_size(props.drop_last()) + props.last().size()
    }
}

/// Whether `props` can all stand in one request: each is a property in its
/// own right, no two share a tag, and together with the header and the end
/// tag they fit into the buffer.
pub open spec fn fit_together(props: Seq<PropertyView>) -> bool {
    &&& forall|i: int|
        0 <= i < props.len() ==> (#[trigger] props[i]).wf() && props[i].tag != END_TAG
    &&& forall|i: int, j: int|
        0 <= i < j < props.len() ==> (#[trigger] props[i]).tag != (#[trigger] props[j]).tag
    &&& 8 + total_size(props) + 4 <= 256
}

/// A request without properties is a closed, empty list.
pub proof fn lemma_empty_request()
    ensures
        empty_request().len() == 256,
        word_at(empty_request(), 0) == 256,
        word_at(empty_request(), 4) == REQUEST_CODE,
        properties_of(empty_request()).len() == 0,
        list_end(empty_request(), 8) == 8,
        terminated(empty_request()),
{
    let b = empty_request();
    assert(b[0] == 0 && b[1] == 1 && b[2] == 0 && b[3] == 0);
    assert(b[4] == 0 && b[5] == 0 && b[6] == 0 && b[7] == 0);
    assert(b[8] == 0 && b[9] == 0 && b[10] == 0 && b[11] == 0);
}

/// Properties that fit together can be added to a request one after the
/// other: none is refused, the list is closed after each, and in the end the
/// request holds them all, in order.
pub proof fn lemma_built_holds_its_properties(props: Seq<PropertyView>)
    requires
        fit_together(props),
    ensures
        built(props).len() == 256,
        word_at(built(props), 4) == REQUEST_CODE,
        terminated(built(props)),
        list_end(built(props), 8) == 8 + total_size(props),
        properties_of(built(props)) == props,
        props.len() > 0 ==> fit_together(props.drop_last()) && added(
            built(props.drop_last()),
            props.last(),
        ) == Ok::<Seq<u8>, MailboxError>(built(props)),
    decreases props.len(),
{
    if props.len() == 0 {
        lemma_empty_request();
        assert(properties_of(built(props)) =~= props);
    } else {
        let rest = props.drop_last();
        let last = props.last();
        assert(fit_together(rest)) by {
            assert forall|i: int| 0 <= i < rest.len() implies (#[trigger] rest[i]).wf()
                && rest[i].tag != END_TAG by {
                assert(rest[i] == props[i]);
            }
            assert forall|i: int, j: int| 0 <= i < j < rest.len() implies (#[trigger] rest[i]).tag
                != (#[trigger] rest[j]).tag by {
                assert(rest[i] == props[i] && rest[j] == props[j]);
            }
        }
        lemma_built_holds_its_properties(rest);
        lemma_appended(built(rest), last);
        assert(word_at(built(props), 4) == word_at(built(rest), 4));
        assert(rest.push(last) =~= props);
        assert(!has_tag(rest, last.tag)) by {
            if has_tag(rest, last.tag) {
                let i = choose|i: int| 0 <= i < rest.len() && rest[i].tag == last.tag;
                assert(props[i].tag == props[props.len() - 1].tag);
            }
        }
    }
}

} // verus!
