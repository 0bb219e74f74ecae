//! Chunk sequences and the complete responses they stand for.
//!
//! A complete stream has exactly one chunk with a finish reason, its last.
//! Its deltas, joined in order, are the content of the response that the
//! same call would have returned in one piece.

use crate::error::LLMError;
use crate::model::{LLMResponse, LLMStreamChunk, TokenUsage};
use vstd::prelude::*;
use vstd::string::*;

verus! {

/// A stream that has ended normally: it has a last chunk, which carries
/// the finish reason, and no other chunk carries one.
pub open spec fn complete_stream(chunks: Seq<LLMStreamChunk>) -> bool {
    &&& chunks.len() > 0
    &&& chunks.last().terminal()
    &&& forall|i: int| 0 <= i < chunks.len() - 1 ==> !(#[trigger] chunks[i]).terminal()
}

/// A stream that has not ended: no chunk carries a finish reason.
pub open spec fn open_stream(chunks: Seq<LLMStreamChunk>) -> bool {
    forall|i: int| 0 <= i < chunks.len() ==> !(#[trigger] chunks[i]).terminal()
}

/// The deltas of the chunks, joined in order.
pub open spec fn joined_deltas(chunks: Seq<LLMStreamChunk>) -> Seq<char>
    decreases chunks.len(),
{
    if chunks.len() == 0 {
        Seq::empty()
    } else {
        joined_deltas(chunks.drop_last()) + chunks.last().delta@
    }
}

/// The pieces that a text is cut into for streaming: consecutive runs of
/// `size` characters, the last one shorter where the length asks for it.
/// There is always one piece at least, and a `size` of 0 does not cut.
pub open spec fn pieces(text: Seq<char>, size: nat) -> Seq<Seq<char>>
    decreases text.len(),
{
    if size == 0 || text.len() <= size {
        seq![text]
    } else {
        seq![text.take(size as int)] + pieces(text.skip(size as int), size)
    }
}

/// The deltas of the chunks, one by one.
pub open spec fn deltas(chunks: Seq<LLMStreamChunk>) -> Seq<Seq<char>> {
    Seq::new(chunks.len(), |i: int| chunks[i].delta@)
}

/// Texts joined in order.
pub open spec fn joined(parts: Seq<Seq<char>>) -> Seq<char>
    decreases parts.len(),
{
    if parts.len() == 0 {
        Seq::empty()
    } else {
        joined(parts.drop_last()) + parts.last()
    }
}

/// Joining the deltas of chunks is joining their texts.
pub proof fn lemma_joined_deltas(chunks: Seq<LLMStreamChunk>)
    ensures
        joined_deltas(chunks) == joined(deltas(chunks)),
    decreases chunks.len(),
{
    if chunks.len() > 0 {
        lemma_joined_deltas(chunks.drop_last());
        assert(deltas(chunks).drop_last() =~= deltas(chunks.drop_last()));
    }
}

/// Joining a text in front of others puts it in front of their joining.
pub proof fn lemma_joined_front(head: Seq<char>, rest: Seq<Seq<char>>)
    ensures
        joined(seq![head] + rest) == head + joined(rest),
    decreases rest.len(),
{
    let all = seq![head] + rest;
    if rest.len() == 0 {
        assert(all.drop_last() =~= Seq::<Seq<char>>::empty());
        assert(all.last() == head);
        assert(joined(all.drop_last()) =~= Seq::<char>::empty());
        assert(joined(all) =~= head + joined(rest));
    } else {
        lemma_joined_front(head, rest.drop_last());
        assert(all.drop_last() =~= seq![head] + rest.drop_last());
        assert(all.last() == rest.last());
        assert(joined(all) =~= head + joined(rest));
    }
}

/// The pieces of a text, joined, are the text: cutting loses nothing and
/// keeps the order.
pub proof fn lemma_pieces_join(text: Seq<char>, size: nat)
    ensures
        joined(pieces(text, size)) == text,
        pieces(text, size).len() >= 1,
        size > 0 ==> forall|i: int|
            0 <= i < pieces(text, size).len() ==> (#[trigger] pieces(text, size)[i]).len() <= size,
    decreases text.len(),
{
    if size == 0 || text.len() <= size {
        let one = seq![text];
        assert(one.drop_last() =~= Seq::<Seq<char>>::empty());
        assert(one.last() == text);
        assert(joined(one.drop_last()) =~= Seq::<char>::empty());
        assert(joined(one) =~= text);
    } else {
        let rest = pieces(text.skip(size as int), size);
        lemma_pieces_join(text.skip(size as int), size);
        lemma_joined_front(text.take(size as int), rest);
        assert(text.take(size as int) + text.skip(size as int) =~= text);
    }
}

/// A call answers the same whether it streams or not: where the deltas of
/// a stream are the pieces of a content, joining them in order gives that
/// content back.
pub proof fn lemma_streaming_equivalence(
    content: Seq<char>,
    chunks: Seq<LLMStreamChunk>,
    size: nat,
)
    requires
        deltas(chunks) == pieces(content, size),
    ensures
        joined_deltas(chunks) == content,
{
    lemma_joined_deltas(chunks);
    lemma_pieces_join(content, size);
}

/// Builds the response that a complete stream stands for.
///
/// The content is the chunks' deltas joined in order; finish reason and
/// metadata are those of the last chunk; usage and model are as given. A
/// sequence that is not a complete stream is a `ParseError`.
pub fn assemble(chunks: Vec<LLMStreamChunk>, usage: TokenUsage, model: String) -> (res: Result<
    LLMResponse,
    LLMError,
>)
    ensures
        res is Ok <==> complete_stream(chunks@),
        res matches Ok(r) ==> r.content@ == joined_deltas(chunks@) && Some(r.finish_reason)
            == chunks@.last().finish_reason && r.usage == usage && r.model == model && r.metadata
            == chunks@.last().metadata,
        res matches Err(e) ==> e matches LLMError::ParseError(t) && t@
            == "chunks do not form a complete stream"@,
{
    let ghost all = chunks@;
    let mut rest = chunks;
    let mut content = String::new();
    let mut i: usize = 0;
    let n = rest.len();
    assert(all.take(0) =~= Seq::<LLMStreamChunk>::empty());
    while i < n
        invariant
            all == chunks@,
            rest@ == all,
            n == all.len(),
            i <= n,
            content@ == joined_deltas(all.take(i as int)),
            forall|j: int| 0 <= j < i && j < n - 1 ==> !(#[trigger] all[j]).terminal(),
        decreases n - i,
    {
        if i + 1 < n && rest[i].is_terminal() {
            assert(all[i as int].terminal());
            return Err(
                LLMError::ParseError(String::from_str("chunks do not form a complete stream")),
            );
        }
        assert(all.take(i as int + 1).drop_last() =~= all.take(i as int));
        content.append(rest[i].delta.as_str());
        i += 1;
    }
    assert(all.take(n as int) =~= all);
    match rest.pop() {
        Some(last) => match last.finish_reason {
            Some(finish_reason) => Ok(
                LLMResponse { content, finish_reason, usage, model, metadata: last.metadata },
            ),
            None => Err(
                LLMError::ParseError(String::from_str("chunks do not form a complete stream")),
            ),
        },
        None => Err(LLMError::ParseError(String::from_str("chunks do not form a complete stream"))),
    }
}

/// Cuts a response into the chunks of a complete stream.
///
/// The deltas are the pieces of the content, `size` characters each but
/// for the last, or the whole content in one chunk where `size` is 0. The
/// last chunk carries the finish reason and the metadata; the others
/// carry neither.
pub fn into_chunks(response: LLMResponse, size: usize) -> (chunks: Vec<LLMStreamChunk>)
    ensures
        deltas(chunks@) == pieces(response.content@, size as nat),
        complete_stream(chunks@),
        joined_deltas(chunks@) == response.content@,
        chunks@.last().finish_reason == Some(response.finish_reason),
        chunks@.last().metadata == response.metadata,
        forall|i: int| 0 <= i < chunks@.len() - 1 ==> (#[trigger] chunks@[i]).metadata is None,
{
    let ghost text = response.content@;
    let mut chunks: Vec<LLMStreamChunk> = Vec::new();
    let total = response.content.as_str().unicode_len();
    let mut at: usize = 0;
    assert(text.skip(0) =~= text);
    assert(deltas(chunks@) =~= Seq::<Seq<char>>::empty());
    assert(deltas(chunks@) + pieces(text.skip(0), size as nat) =~= pieces(text, size as nat));
    while size > 0 && total - at > size
        invariant
            text == response.content@,
            total == text.len(),
            at <= total,
            deltas(chunks@) + pieces(text.skip(at as int), size as nat) == pieces(
                text,
                size as nat,
            ),
            forall|i: int| 0 <= i < chunks@.len() ==> !(#[trigger] chunks@[i]).terminal(),
            forall|i: int| 0 <= i < chunks@.len() ==> (#[trigger] chunks@[i]).metadata is None,
        decreases total - at,
    {
        let piece = response.content.as_str().substring_char(at, at + size);
        let ghost before = deltas(chunks@);
        let ghost rest = text.skip(at as int);
        chunks.push(
            LLMStreamChunk { delta: String::from_str(piece), finish_reason: None, metadata: None },
        );
        proof {
            assert(rest.take(size as int) =~= text.subrange(at as int, at + size));
            assert(rest.skip(size as int) =~= text.skip(at + size));
            assert(deltas(chunks@) =~= before + seq![piece@]);
            assert(before + (seq![piece@] + pieces(text.skip(at + size), size as nat)) =~= (before
                + seq![piece@]) + pieces(text.skip(at + size), size as nat));
        }
        at += size;
    }
    let piece = response.content.as_str().substring_char(at, total);
    let ghost before = deltas(chunks@);
    chunks.push(
        LLMStreamChunk {
            delta: String::from_str(piece),
            finish_reason: Some(response.finish_reason),
            metadata: response.metadata,
        },
    );
    proof {
        assert(text.skip(at as int) =~= text.subrange(at as int, total as int));
        assert(deltas(chunks@) =~= before + seq![piece@]);
        lemma_joined_deltas(chunks@);
        lemma_pieces_join(text, size as nat);
    }
    chunks
}

} // verus!
