//! Cuts the client's byte stream into messages. Each message ends with one
//! zero byte; what stands between two delimiters with nothing in it is no
//! message.

use vstd::prelude::*;

verus! {

/// The byte that ends a message on the wire.
pub const DELIMITER: u8 = 0;

/// No byte of `bytes` is the delimiter.
pub open spec fn unbroken(bytes: Seq<u8>) -> bool {
    forall|i: int| 0 <= i < bytes.len() ==> #[trigger] bytes[i] != DELIMITER
}

/// The position right after the last delimiter of `bytes`, 0 if it has none.
pub open spec fn cut(bytes: Seq<u8>) -> int
    decreases bytes.len(),
{
    if bytes.len() == 0 {
        0
    } else if bytes.last() == DELIMITER {
        bytes.len() as int
    } else {
        cut(bytes.drop_last())
    }
}

/// What follows the last delimiter of `bytes`: the start of a message whose
/// end has not arrived yet.
pub open spec fn pending(bytes: Seq<u8>) -> Seq<u8> {
    bytes.skip(cut(bytes))
}

/// The messages that `bytes` holds complete, in the order of their arrival:
/// every non-empty run of bytes that a delimiter ends.
pub open spec fn messages(bytes: Seq<u8>) -> Seq<Seq<u8>>
    decreases bytes.len(),
{
    if bytes.len() == 0 {
        Seq::empty()
    } else if bytes.last() == DELIMITER {
        let before = bytes.drop_last();
        if pending(before).len() == 0 {
            messages(before)
        } else {
            messages(before).push(pending(before))
        }
    } else {
        messages(bytes.drop_last())
    }
}

/// The contents of a list of byte vectors.
pub open spec fn contents(list: Seq<Vec<u8>>) -> Seq<Seq<u8>> {
    Seq::new(list.len(), |i: int| list[i]@)
}

/// The cut lies within the bytes, and nothing after it is a delimiter.
pub proof fn lemma_pending_unbroken(bytes: Seq<u8>)
    ensures
        0 <= cut(bytes) <= bytes.len(),
        unbroken(pending(bytes)),
    decreases bytes.len(),
{
    if bytes.len() > 0 && bytes.last() != DELIMITER {
        let before = bytes.drop_last();
        lemma_pending_unbroken(before);
        assert forall|i: int| 0 <= i < pending(bytes).len() implies #[trigger] pending(bytes)[i]
            != DELIMITER by {
            if i < pending(before).len() {
                assert(pending(bytes)[i] == pending(before)[i]);
            }
        }
    }
}

/// Bytes without a delimiter hold no complete message and are pending as a
/// whole.
pub proof fn lemma_unbroken_pending(bytes: Seq<u8>)
    requires
        unbroken(bytes),
    ensures
        cut(bytes) == 0,
        pending(bytes) == bytes,
        messages(bytes) == Seq::<Seq<u8>>::empty(),
    decreases bytes.len(),
{
    if bytes.len() > 0 {
        assert(bytes.last() != DELIMITER);
        lemma_unbroken_pending(bytes.drop_last());
    }
    assert(bytes.skip(0) =~= bytes);
}

/// What one more byte does to the complete messages and to what is pending.
pub proof fn lemma_push_byte(bytes: Seq<u8>, byte: u8)
    ensures
        byte != DELIMITER ==> messages(bytes.push(byte)) == messages(bytes) && pending(
            bytes.push(byte),
        ) == pending(bytes).push(byte),
        byte == DELIMITER ==> pending(bytes.push(byte)) == Seq::<u8>::empty() && messages(
            bytes.push(byte),
        ) == (if pending(bytes).len() == 0 {
            messages(bytes)
        } else {
            messages(bytes).push(pending(bytes))
        }),
{
    let grown = bytes.push(byte);
    assert(grown.drop_last() =~= bytes);
    lemma_pending_unbroken(bytes);
    if byte != DELIMITER {
        assert(pending(grown) =~= pending(bytes).push(byte));
    } else {
        assert(pending(grown) =~= Seq::<u8>::empty());
    }
}

/// Reading on after a prefix: the messages of `head + tail` are those of
/// `head`, then those of `tail` read behind what `head` left pending.
pub proof fn lemma_messages_resume(head: Seq<u8>, tail: Seq<u8>)
    ensures
        messages(head + tail) == messages(head) + messages(pending(head) + tail),
        pending(head + tail) == pending(pending(head) + tail),
    decreases tail.len(),
{
    lemma_pending_unbroken(head);
    if tail.len() == 0 {
        assert(head + tail =~= head);
        assert(pending(head) + tail =~= pending(head));
        lemma_unbroken_pending(pending(head));
        assert(messages(head) + Seq::<Seq<u8>>::empty() =~= messages(head));
    } else {
        let shorter = tail.drop_last();
        let byte = tail.last();
        lemma_messages_resume(head, shorter);
        assert(head + tail =~= (head + shorter).push(byte));
        assert(pending(head) + tail =~= (pending(head) + shorter).push(byte));
        lemma_push_byte(head + shorter, byte);
        lemma_push_byte(pending(head) + shorter, byte);
        if byte == DELIMITER && pending(head + shorter).len() != 0 {
            assert(messages(head + tail) =~= messages(head) + messages(pending(head) + tail));
        }
    }
}

/// The read side of the connection: holds the bytes of a message that has
/// begun and not ended.
pub struct Ingestor {
    queued: Vec<u8>,
}

impl Ingestor {
    /// The bytes that wait for their delimiter.
    pub closed spec fn queued(&self) -> Seq<u8> {
        self.queued@
    }

    /// Nothing that waits is a delimiter.
    pub open spec fn wf(&self) -> bool {
        unbroken(self.queued())
    }

    /// An ingestor that has read nothing.
    pub fn new() -> (ingestor: Ingestor)
        ensures
            ingestor.wf(),
            ingestor.queued() == Seq::<u8>::empty(),
    {
        Ingestor { queued: Vec::new() }
    }

    /// How many bytes wait for their delimiter.
    pub fn queued_len(&self) -> (len: usize)
        ensures
            len == self.queued().len(),
    {
        self.queued.len()
    }

    /// Takes in what one read returned. Hands out the messages that are now
    /// complete, in the order of their arrival, and keeps what follows the
    /// last delimiter for the next read.
    pub fn receive(&mut self, chunk: &[u8]) -> (complete: Vec<Vec<u8>>)
        requires
            old(self).wf(),
        ensures
            final(self).wf(),
            contents(complete@) == messages(old(self).queued() + chunk@),
            final(self).queued() == pending(old(self).queued() + chunk@),
    {
        let mut complete: Vec<Vec<u8>> = Vec::new();
        let mut i: usize = 0;
        proof {
            lemma_unbroken_pending(self.queued@);
            assert(old(self).queued@ + chunk@.take(0) =~= self.queued@);
            assert(contents(complete@) =~= Seq::<Seq<u8>>::empty());
        }
        while i < chunk.len()
            invariant
                i <= chunk.len(),
                contents(complete@) == messages(old(self).queued@ + chunk@.take(i as int)),
                self.queued@ == pending(old(self).queued@ + chunk@.take(i as int)),
            decreases chunk.len() - i,
        {
            let byte = chunk[i];
            let ghost seen = old(self).queued@ + chunk@.take(i as int);
            proof {
                assert(old(self).queued@ + chunk@.take(i + 1) =~= seen.push(byte));
                lemma_push_byte(seen, byte);
            }
            if byte == DELIMITER {
                if self.queued.len() > 0 {
                    let mut message: Vec<u8> = Vec::new();
                    std::mem::swap(&mut self.queued, &mut message);
                    let ghost before = complete@;
                    complete.push(message);
                    assert(contents(complete@) =~= contents(before).push(message@));
                }
            } else {
                self.queued.push(byte);
            }
            i += 1;
        }
        proof {
            assert(chunk@.take(i as int) =~= chunk@);
            lemma_pending_unbroken(old(self).queued@ + chunk@);
        }
        complete
    }
}

/// A message as it goes out on the wire: its bytes, then the delimiter.
pub fn frame(payload: Vec<u8>) -> (framed: Vec<u8>)
    ensures
        framed@ == payload@.push(DELIMITER),
{
    let mut framed = payload;
    framed.push(DELIMITER);
    framed
}

/// A framed message reads back as itself: behind a stream that left nothing
/// pending, a non-empty payload without a delimiter in it, once framed, is
/// the one message that follows, and nothing is left pending.
pub proof fn lemma_frame_reads_back(stream: Seq<u8>, payload: Seq<u8>)
    requires
        pending(stream).len() == 0,
        payload.len() > 0,
        unbroken(payload),
    ensures
        messages(stream + payload.push(DELIMITER)) == messages(stream).push(payload),
        pending(stream + payload.push(DELIMITER)) == Seq::<u8>::empty(),
{
    lemma_messages_resume(stream, payload.push(DELIMITER));
    assert(pending(stream) + payload.push(DELIMITER) =~= payload.push(DELIMITER));
    lemma_push_byte(payload, DELIMITER);
    lemma_unbroken_pending(payload);
    assert(messages(stream) + Seq::<Seq<u8>>::empty().push(payload) =~= messages(stream).push(
        payload,
    ));
}

/// All the chunks of a stream, one behind the other.
pub open spec fn joined(chunks: Seq<Seq<u8>>) -> Seq<u8>
    decreases chunks.len(),
{
    if chunks.len() == 0 {
        Seq::empty()
    } else {
        joined(chunks.drop_last()) + chunks.last()
    }
}

/// What an ingestor that started empty holds queued after it received
/// `chunks` one by one.
pub open spec fn queued_after(chunks: Seq<Seq<u8>>) -> Seq<u8>
    decreases chunks.len(),
{
    if chunks.len() == 0 {
        Seq::empty()
    } else {
        pending(queued_after(chunks.drop_last()) + chunks.last())
    }
}

/// What an ingestor that started empty has handed out after it received
/// `chunks` one by one.
pub open spec fn delivered(chunks: Seq<Seq<u8>>) -> Seq<Seq<u8>>
    decreases chunks.len(),
{
    if chunks.len() == 0 {
        Seq::empty()
    } else {
        delivered(chunks.drop_last()) + messages(
            queued_after(chunks.drop_last()) + chunks.last(),
        )
    }
}

/// Where the reads fall does not matter: however a stream is cut into
/// chunks, the ingestor hands out the messages of the whole stream, each
/// once and in order, and holds queued what the whole stream leaves pending.
pub proof fn lemma_chunking_is_invisible(chunks: Seq<Seq<u8>>)
    ensures
        delivered(chunks) == messages(joined(chunks)),
        queued_after(chunks) == pending(joined(chunks)),
    decreases chunks.len(),
{
    if chunks.len() > 0 {
        lemma_chunking_is_invisible(chunks.drop_last());
        lemma_messages_resume(joined(chunks.drop_last()), chunks.last());
    }
}

/// Every message is non-empty and holds no delimiter.
pub proof fn lemma_messages_unbroken(bytes: Seq<u8>, i: int)
    requires
        0 <= i < messages(bytes).len(),
    ensures
        messages(bytes)[i].len() > 0,
        unbroken(messages(bytes)[i]),
    decreases bytes.len(),
{
    if bytes.len() > 0 {
        let before = bytes.drop_last();
        if i < messages(before).len() {
            lemma_messages_unbroken(before, i);
        } else {
            lemma_pending_unbroken(before);
        }
    }
}

/// The stream that carries `payloads`: each of them, then the delimiter.
pub open spec fn framed(payloads: Seq<Seq<u8>>) -> Seq<u8>
    decreases payloads.len(),
{
    if payloads.len() == 0 {
        Seq::empty()
    } else {
        framed(payloads.drop_last()) + payloads.last().push(DELIMITER)
    }
}

/// Those of `payloads` that hold at least one byte, in their order.
pub open spec fn non_empty(payloads: Seq<Seq<u8>>) -> Seq<Seq<u8>>
    decreases payloads.len(),
{
    if payloads.len() == 0 {
        Seq::empty()
    } else if payloads.last().len() == 0 {
        non_empty(payloads.drop_last())
    } else {
        non_empty(payloads.drop_last()).push(payloads.last())
    }
}

/// What was framed is what is read: a stream that carries payloads without a
/// delimiter in them, each followed by the delimiter, and then the start of
/// one more, holds as messages just the payloads that are not empty, each
/// once and in order, and leaves the start of the last one pending.
pub proof fn lemma_messages_of_framed(payloads: Seq<Seq<u8>>, rest: Seq<u8>)
    requires
        forall|i: int| 0 <= i < payloads.len() ==> unbroken(#[trigger] payloads[i]),
        unbroken(rest),
    ensures
        messages(framed(payloads) + rest) == non_empty(payloads),
        pending(framed(payloads) + rest) == rest,
    decreases payloads.len(), rest.len(),
{
    let none = Seq::<u8>::empty();
    if rest.len() > 0 {
        lemma_messages_of_framed(payloads, none);
        assert(framed(payloads) + none =~= framed(payloads));
        lemma_messages_resume(framed(payloads), rest);
        assert(none + rest =~= rest);
        lemma_unbroken_pending(rest);
        assert(non_empty(payloads) + Seq::<Seq<u8>>::empty() =~= non_empty(payloads));
    } else if payloads.len() == 0 {
        assert(framed(payloads) + rest =~= none);
        assert(pending(none) =~= none);
    } else {
        let before = payloads.drop_last();
        let last = payloads.last();
        assert(framed(payloads) + rest =~= framed(before) + last.push(DELIMITER));
        assert(rest =~= none);
        lemma_messages_of_framed(before, none);
        assert(framed(before) + none =~= framed(before));
        lemma_messages_resume(framed(before), last.push(DELIMITER));
        assert(none + last.push(DELIMITER) =~= last.push(DELIMITER));
        lemma_push_byte(last, DELIMITER);
        lemma_unbroken_pending(last);
        if last.len() == 0 {
            assert(non_empty(before) + Seq::<Seq<u8>>::empty() =~= non_empty(before));
        } else {
            assert(non_empty(before) + Seq::<Seq<u8>>::empty().push(last) =~= non_empty(
                before,
            ).push(last));
        }
    }
}

} // verus!
