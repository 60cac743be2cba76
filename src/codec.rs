use vstd::prelude::*;

use crate::word::{u64_word, Word, WORD_BYTES};

verus! {

/// Number of words in the payload of a withdrawal message.
pub const PAYLOAD_WORDS: usize = 5;

/// Length in bytes of an encoded withdrawal message: eight words.
pub const ENCODED_LEN: usize = 256;

/// The byte strings of a sequence of words, put one after the other.
pub open spec fn concat_words(ws: Seq<Seq<u8>>) -> Seq<u8>
    decreases ws.len(),
{
    if ws.len() == 0 {
        Seq::empty()
    } else {
        concat_words(ws.drop_last()) + ws.last()
    }
}

/// The bytes of each word of a sequence.
pub open spec fn word_views(ws: Seq<Word>) -> Seq<Seq<u8>> {
    ws.map_values(|w: Word| w@)
}

/// Every word of the sequence holds 32 bytes.
pub open spec fn all_words(ws: Seq<Seq<u8>>) -> bool {
    forall|i: int| 0 <= i < ws.len() ==> (#[trigger] ws[i]).len() == WORD_BYTES
}

/// The words that are hashed for a message: the L2 bridge, the L1 bridge, the
/// payload length, then the payload words.
pub open spec fn message_words(l2_bridge: Seq<u8>, l1_bridge: Seq<u8>, payload: Seq<Seq<u8>>) -> Seq<
    Seq<u8>,
> {
    seq![l2_bridge, l1_bridge, u64_word(PAYLOAD_WORDS as u64)] + payload
}

/// The canonical packed encoding of a message sent from the L2 bridge to the L1
/// bridge.
pub open spec fn message_encoding(l2_bridge: Seq<u8>, l1_bridge: Seq<u8>, payload: Seq<Seq<u8>>) -> Seq<
    u8,
> {
    concat_words(message_words(l2_bridge, l1_bridge, payload))
}

/// The Keccak-256 hash of a byte string.
pub uninterp spec fn keccak256_of(data: Seq<u8>) -> Seq<u8>;

/// The digest by which the L1 message registry knows a message.
pub open spec fn message_digest_of(l2_bridge: Seq<u8>, l1_bridge: Seq<u8>, payload: Seq<Seq<u8>>) -> Seq<
    u8,
> {
    keccak256_of(message_encoding(l2_bridge, l1_bridge, payload))
}

/// Relies on alloy::primitives::keccak256: the 32-byte Keccak-256 hash of the
/// bytes, a function of the bytes alone.
#[verifier::external_body]
fn keccak256(data: &Vec<u8>) -> (r: Word)
    ensures
        r.wf(),
        r@ == keccak256_of(data@),
{
    Word { bytes: alloy::primitives::keccak256(data.as_slice()).to_vec() }
}

/// Appends the bytes of a word.
fn append_word(out: &mut Vec<u8>, w: &Word)
    ensures
        final(out)@ == old(out)@ + w@,
{
    let mut i: usize = 0;
    while i < w.bytes.len()
        invariant
            i <= w@.len(),
            out@ == old(out)@ + w@.take(i as int),
        decreases w@.len() - i,
    {
        out.push(w.bytes[i]);
        i = i + 1;
        assert(out@ =~= old(out)@ + w@.take(i as int));
    }
    assert(w@.take(i as int) =~= w@);
}

/// Every bridge address and payload word is a 32-byte word.
pub open spec fn message_inputs_wf(l2_bridge: &Word, l1_bridge: &Word, payload: Seq<Word>) -> bool {
    &&& l2_bridge.wf()
    &&& l1_bridge.wf()
    &&& payload.len() == PAYLOAD_WORDS
    &&& forall|i: int| 0 <= i < payload.len() ==> (#[trigger] payload[i]).wf()
}

/// The canonical encoding of a withdrawal message: the two bridge addresses, the
/// payload length, then the payload words (L1 token, L1 recipient, L2 sender,
/// low and high halves of the amount), each as 32 big-endian bytes.
pub fn encode_message(l2_bridge: &Word, l1_bridge: &Word, payload: &Vec<Word>) -> (r: Vec<u8>)
    requires
        message_inputs_wf(l2_bridge, l1_bridge, payload@),
    ensures
        r@ == message_encoding(l2_bridge@, l1_bridge@, word_views(payload@)),
        r@.len() == ENCODED_LEN,
{
    let ghost views = word_views(payload@);
    let ghost head = seq![l2_bridge@, l1_bridge@, u64_word(PAYLOAD_WORDS as u64)];
    let mut out: Vec<u8> = Vec::new();
    append_word(&mut out, l2_bridge);
    append_word(&mut out, l1_bridge);
    let len_word = Word::from_u64(PAYLOAD_WORDS as u64);
    append_word(&mut out, &len_word);
    proof {
        assert(head.drop_last().drop_last().drop_last() =~= Seq::<Seq<u8>>::empty());
        assert(head.drop_last().drop_last() =~= seq![l2_bridge@]);
        assert(head.drop_last() =~= seq![l2_bridge@, l1_bridge@]);
        assert(head + views.take(0) =~= head);
        assert(seq![l2_bridge@].drop_last() =~= Seq::<Seq<u8>>::empty());
        assert(concat_words(Seq::<Seq<u8>>::empty()) == Seq::<u8>::empty());
        assert(seq![l2_bridge@].last() == l2_bridge@);
        assert(concat_words(seq![l2_bridge@]) == concat_words(seq![l2_bridge@].drop_last())
            + l2_bridge@);
        assert(concat_words(seq![l2_bridge@]) =~= l2_bridge@);
        assert(concat_words(seq![l2_bridge@, l1_bridge@]) =~= l2_bridge@ + l1_bridge@);
        assert(out@ =~= concat_words(head));
    }
    let mut i: usize = 0;
    while i < payload.len()
        invariant
            message_inputs_wf(l2_bridge, l1_bridge, payload@),
            views == word_views(payload@),
            i <= payload@.len(),
            out@ == concat_words(head + views.take(i as int)),
            out@.len() == 32 * (3 + i),
        decreases payload@.len() - i,
    {
        let ghost before = head + views.take(i as int);
        append_word(&mut out, &payload[i]);
        i = i + 1;
        proof {
            let after = head + views.take(i as int);
            assert(after.drop_last() =~= before);
            assert(after.last() == payload@[i - 1]@);
        }
    }
    proof {
        assert(views.take(i as int) =~= views);
    }
    out
}

/// The digest of the canonical encoding of a withdrawal message.
pub fn message_digest(l2_bridge: &Word, l1_bridge: &Word, payload: &Vec<Word>) -> (r: Word)
    requires
        message_inputs_wf(l2_bridge, l1_bridge, payload@),
    ensures
        r.wf(),
        r@ == message_digest_of(l2_bridge@, l1_bridge@, word_views(payload@)),
{
    let encoded = encode_message(l2_bridge, l1_bridge, payload);
    keccak256(&encoded)
}

/// The encoding of a run of 32-byte words is 32 bytes per word.
pub proof fn lemma_concat_words_len(ws: Seq<Seq<u8>>)
    requires
        all_words(ws),
    ensures
        concat_words(ws).len() == 32 * ws.len(),
    decreases ws.len(),
{
    if ws.len() > 0 {
        lemma_concat_words_len(ws.drop_last());
    }
}

/// Byte `j` of word `i` stands at position `32 * i + j` of the encoding.
pub proof fn lemma_concat_words_index(ws: Seq<Seq<u8>>, i: int, j: int)
    requires
        all_words(ws),
        0 <= i < ws.len(),
        0 <= j < 32,
    ensures
        concat_words(ws)[32 * i + j] == ws[i][j],
    decreases ws.len(),
{
    lemma_concat_words_len(ws.drop_last());
    if i < ws.len() - 1 {
        lemma_concat_words_index(ws.drop_last(), i, j);
    }
}

/// The encoding of a message is 256 bytes long, whatever its words.
pub proof fn lemma_encoding_length(l2_bridge: Seq<u8>, l1_bridge: Seq<u8>, payload: Seq<Seq<u8>>)
    requires
        l2_bridge.len() == WORD_BYTES,
        l1_bridge.len() == WORD_BYTES,
        payload.len() == PAYLOAD_WORDS,
        all_words(payload),
    ensures
        message_encoding(l2_bridge, l1_bridge, payload).len() == ENCODED_LEN,
{
    let ws = message_words(l2_bridge, l1_bridge, payload);
    assert(all_words(ws)) by {
        assert forall|i: int| 0 <= i < ws.len() implies (#[trigger] ws[i]).len() == WORD_BYTES by {
            if i >= 3 {
                assert(ws[i] == payload[i - 3]);
            }
        }
    }
    lemma_concat_words_len(ws);
}

/// The encoding tells its words apart: two messages whose bridge addresses or
/// payload words differ in any word have different encodings.
pub proof fn lemma_encoding_injective(
    l2_bridge: Seq<u8>,
    l1_bridge: Seq<u8>,
    payload: Seq<Seq<u8>>,
    l2_bridge2: Seq<u8>,
    l1_bridge2: Seq<u8>,
    payload2: Seq<Seq<u8>>,
)
    requires
        l2_bridge.len() == WORD_BYTES,
        l1_bridge.len() == WORD_BYTES,
        payload.len() == PAYLOAD_WORDS,
        all_words(payload),
        l2_bridge2.len() == WORD_BYTES,
        l1_bridge2.len() == WORD_BYTES,
        payload2.len() == PAYLOAD_WORDS,
        all_words(payload2),
        message_encoding(l2_bridge, l1_bridge, payload) == message_encoding(
            l2_bridge2,
            l1_bridge2,
            payload2,
        ),
    ensures
        l2_bridge == l2_bridge2,
        l1_bridge == l1_bridge2,
        payload == payload2,
{
    let ws = message_words(l2_bridge, l1_bridge, payload);
    let ws2 = message_words(l2_bridge2, l1_bridge2, payload2);
    assert forall|i: int| 0 <= i < ws.len() implies (#[trigger] ws[i]).len() == WORD_BYTES by {
        if i >= 3 {
            assert(ws[i] == payload[i - 3]);
        }
    }
    assert forall|i: int| 0 <= i < ws2.len() implies (#[trigger] ws2[i]).len() == WORD_BYTES by {
        if i >= 3 {
            assert(ws2[i] == payload2[i - 3]);
        }
    }
    assert forall|i: int| 0 <= i < ws.len() implies #[trigger] ws[i] == ws2[i] by {
        assert forall|j: int| 0 <= j < 32 implies ws[i][j] == ws2[i][j] by {
            lemma_concat_words_index(ws, i, j);
            lemma_concat_words_index(ws2, i, j);
        }
        assert(ws[i] =~= ws2[i]);
    }
    assert(ws[0] == ws2[0]);
    assert(ws[1] == ws2[1]);
    assert forall|i: int| 0 <= i < payload.len() implies payload[i] == payload2[i] by {
        assert(ws[i + 3] == ws2[i + 3]);
    }
    assert(payload =~= payload2);
}

/// Encoding and hashing are deterministic: the same bridge addresses and payload
/// always give the same digest.
pub proof fn lemma_digest_deterministic(
    l2_bridge: Seq<u8>,
    l1_bridge: Seq<u8>,
    payload: Seq<Seq<u8>>,
    l2_bridge2: Seq<u8>,
    l1_bridge2: Seq<u8>,
    payload2: Seq<Seq<u8>>,
)
    requires
        l2_bridge == l2_bridge2,
        l1_bridge == l1_bridge2,
        payload == payload2,
    ensures
        message_encoding(l2_bridge, l1_bridge, payload) == message_encoding(
            l2_bridge2,
            l1_bridge2,
            payload2,
        ),
        message_digest_of(l2_bridge, l1_bridge, payload) == message_digest_of(
            l2_bridge2,
            l1_bridge2,
            payload2,
        ),
{
}

} // verus!
