use vstd::prelude::*;
use crate::packet_buffer::{
    is_pointer, label_char, label_text, name_text, dotted, pointer_target, walk_name,
    DecodeError, CAPACITY, MAX_JUMPS,
};

verus! {

/// A label as the wire format writes it uncompressed: one to 63 bytes of
/// ASCII with no upper-case letter.
pub open spec fn is_plain_label(label: Seq<u8>) -> bool {
    &&& 1 <= label.len() <= 63
    &&& forall|i: int| 0 <= i < label.len() ==> #[trigger] label[i] < 128 && !(65 <= label[i] <= 90)
}

/// Labels written each after its length byte, ended by a zero byte.
pub open spec fn encode_labels(labels: Seq<Seq<u8>>) -> Seq<u8>
    decreases labels.len(),
{
    if labels.len() == 0 {
        seq![0u8]
    } else {
        seq![labels[0].len() as u8] + labels[0] + encode_labels(labels.drop_first())
    }
}

/// The bytes of a label read as characters, one each.
pub open spec fn ascii_text(label: Seq<u8>) -> Seq<char> {
    label.map_values(|b: u8| b as char)
}

/// Whether `buf` holds, from `start`, the encoding of `labels`, all of it
/// inside the buffer.
pub open spec fn holds_encoding(buf: Seq<u8>, start: int, labels: Seq<Seq<u8>>) -> bool {
    &&& buf.len() == CAPACITY
    &&& 0 <= start
    &&& start + encode_labels(labels).len() <= CAPACITY
    &&& buf.subrange(start, start + encode_labels(labels).len()) == encode_labels(labels)
}

/// Whether the two bytes at `at` form a compression pointer to `target`.
pub open spec fn points_to(buf: Seq<u8>, at: int, target: int) -> bool {
    &&& 0 <= at
    &&& at + 1 < CAPACITY
    &&& is_pointer(buf[at])
    &&& pointer_target(buf[at], buf[at + 1]) == target
}

proof fn lemma_walk_encoded(buf: Seq<u8>, start: int, labels: Seq<Seq<u8>>, jumps: nat)
    requires
        holds_encoding(buf, start, labels),
        forall|i: int| 0 <= i < labels.len() ==> is_plain_label(#[trigger] labels[i]),
    ensures
        walk_name(buf, start, jumps) == Ok::<(Seq<Seq<u8>>, int), DecodeError>(
            (labels, start + encode_labels(labels).len())),
    decreases labels.len(),
{
    let enc = encode_labels(labels);
    assert(buf[start] == enc[0]);
    if labels.len() > 0 {
        let l = labels[0];
        let rest = labels.drop_first();
        let next = start + 1 + l.len();
        assert(enc == seq![l.len() as u8] + l + encode_labels(rest));
        assert(is_plain_label(labels[0]));
        assert(buf[start] as int == l.len());
        assert(enc.len() == 1 + l.len() + encode_labels(rest).len());
        assert(buf.subrange(start + 1, next) =~= l) by {
            assert forall|k: int| 0 <= k < l.len() implies buf[start + 1 + k] == l[k] by {
                assert(buf[start + 1 + k] == enc[1 + k]);
            }
        }
        assert(holds_encoding(buf, next, rest)) by {
            assert forall|k: int| 0 <= k < encode_labels(rest).len()
                implies buf[next + k] == encode_labels(rest)[k] by {
                assert(buf[next + k] == enc[1 + l.len() + k]);
            }
            assert(buf.subrange(next, next + encode_labels(rest).len()) =~= encode_labels(rest));
        }
        assert forall|i: int| 0 <= i < rest.len() implies is_plain_label(#[trigger] rest[i]) by {
            assert(rest[i] == labels[i + 1]);
        }
        lemma_walk_encoded(buf, next, rest, jumps);
        assert(seq![l] + rest =~= labels);
    } else {
        assert(labels =~= Seq::<Seq<u8>>::empty());
    }
}

/// Labels of one to 63 bytes of lower-case ASCII, each written after its
/// length and ended by a zero byte, decode to the same labels, and their
/// text is those labels joined by dots; the name ends just past the zero
/// byte.
pub proof fn lemma_round_trip(buf: Seq<u8>, start: int, labels: Seq<Seq<u8>>)
    requires
        holds_encoding(buf, start, labels),
        forall|i: int| 0 <= i < labels.len() ==> is_plain_label(#[trigger] labels[i]),
    ensures
        walk_name(buf, start, 0) == Ok::<(Seq<Seq<u8>>, int), DecodeError>(
            (labels, start + encode_labels(labels).len())),
        name_text(labels) == dotted(labels.map_values(|l: Seq<u8>| ascii_text(l))),
{
    lemma_walk_encoded(buf, start, labels, 0);
    assert forall|i: int| 0 <= i < labels.len() implies label_text(#[trigger] labels[i])
        == ascii_text(labels[i]) by {
        assert(is_plain_label(labels[i]));
        assert(label_text(labels[i]) =~= ascii_text(labels[i]));
    }
    assert(labels.map_values(|l: Seq<u8>| label_text(l)) =~= labels.map_values(|l: Seq<u8>| ascii_text(l)));
}

/// A name that is a pointer to encoded labels decodes to those labels, and
/// ends just past the pointer, however long the labels it points to.
pub proof fn lemma_pointer_to_labels(buf: Seq<u8>, at: int, target: int, labels: Seq<Seq<u8>>)
    requires
        points_to(buf, at, target),
        holds_encoding(buf, target, labels),
        forall|i: int| 0 <= i < labels.len() ==> is_plain_label(#[trigger] labels[i]),
    ensures
        walk_name(buf, at, 0) == Ok::<(Seq<Seq<u8>>, int), DecodeError>((labels, at + 2)),
{
    lemma_walk_encoded(buf, target, labels, 1);
}

proof fn lemma_chain_from(buf: Seq<u8>, chain: Seq<int>, k: nat)
    requires
        chain.len() == MAX_JUMPS + 1,
        k <= MAX_JUMPS,
        forall|i: int| 0 <= i < MAX_JUMPS ==> #[trigger] points_to(buf, chain[i], chain[i + 1]),
        0 <= chain[MAX_JUMPS as int],
        chain[MAX_JUMPS as int] + 1 < CAPACITY,
        is_pointer(buf[chain[MAX_JUMPS as int]]),
    ensures
        walk_name(buf, chain[k as int], k) == Err::<(Seq<Seq<u8>>, int), DecodeError>(
            DecodeError::ExcessiveCompressionJumps),
    decreases MAX_JUMPS - k,
{
    if k < MAX_JUMPS {
        assert(points_to(buf, chain[k as int], chain[k + 1 as int]));
        lemma_chain_from(buf, chain, k + 1);
    }
}

/// A chain of more compression pointers than [`MAX_JUMPS`], each leading to
/// the next (it may come back to where it started), is refused as excessive
/// rather than followed without end.
pub proof fn lemma_jump_bound(buf: Seq<u8>, chain: Seq<int>)
    requires
        chain.len() == MAX_JUMPS + 1,
        forall|i: int| 0 <= i < MAX_JUMPS ==> #[trigger] points_to(buf, chain[i], chain[i + 1]),
        0 <= chain[MAX_JUMPS as int],
        chain[MAX_JUMPS as int] + 1 < CAPACITY,
        is_pointer(buf[chain[MAX_JUMPS as int]]),
    ensures
        walk_name(buf, chain[0], 0) == Err::<(Seq<Seq<u8>>, int), DecodeError>(
            DecodeError::ExcessiveCompressionJumps),
{
    lemma_chain_from(buf, chain, 0);
}

/// Label text is lower case: each ASCII byte of a label stands in it as its
/// lower-case letter, so no upper-case letter is left.
pub proof fn lemma_case_folded(label: Seq<u8>)
    requires
        forall|i: int| 0 <= i < label.len() ==> #[trigger] label[i] < 128,
    ensures
        label_text(label).len() == label.len(),
        forall|i: int| 0 <= i < label.len() ==> !(65 <= #[trigger] (label_text(label)[i] as u32) <= 90),
        forall|i: int| 0 <= i < label.len() ==> #[trigger] label_text(label)[i]
            == (if 65 <= label[i] <= 90 { (label[i] + 32) as u8 } else { label[i] }) as char,
{
    assert forall|i: int| 0 <= i < label.len() implies !(65 <= #[trigger] (label_text(label)[i] as u32) <= 90) by {
        assert(label_text(label)[i] == label_char(label[i]));
        assert(label[i] < 128);
    }
}

} // verus!
