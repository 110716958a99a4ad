//! Reading the name of a question: a run of length-prefixed labels closed by
//! a zero byte.
use vstd::prelude::*;
use vstd::string::*;
use vstd::utf8::*;
use crate::buffer::MAX_UDP_QUERY_SIZE;

verus! {

broadcast use vstd::utf8::group_utf8_lib;

/// Why a name could not be read.
#[derive(PartialEq, Eq, Structural, Debug, Clone, Copy)]
pub enum QnameError {
    /// A label is not valid UTF-8.
    InvalidUtf8,
}

/// The walk over the labels from `offset` stays within byte offsets that fit
/// in a `u8` as far as it goes: every label start and label end up to the first
/// label that is not valid UTF-8, where the walk stops, and, where there is no
/// such label, the index past the closing zero byte, are at most 255.
pub open spec fn name_walk_ok(buf: Seq<u8>, offset: int) -> bool
    decreases 256 - offset,
{
    if offset < 0 || offset > 255 || buf.len() <= offset {
        false
    } else if buf[offset] == 0 {
        offset + 1 <= 255
    } else {
        offset + 1 + buf[offset] <= 255 && (valid_utf8(
            buf.subrange(offset + 1, offset + 1 + buf[offset]),
        ) ==> name_walk_ok(buf, offset + 1 + buf[offset]))
    }
}

/// The labels of the name that starts at `offset`, in order.
pub open spec fn name_labels(buf: Seq<u8>, offset: int) -> Seq<Seq<u8>>
    decreases 256 - offset,
{
    if offset < 0 || offset > 255 || buf.len() <= offset || buf[offset] == 0 || offset + 1
        + buf[offset] > 255 {
        seq![]
    } else {
        seq![buf.subrange(offset + 1, offset + 1 + buf[offset])] + name_labels(
            buf,
            offset + 1 + buf[offset],
        )
    }
}

/// The index just past the zero byte that closes the name at `offset`.
pub open spec fn name_end(buf: Seq<u8>, offset: int) -> int
    decreases 256 - offset,
{
    if offset < 0 || offset > 255 || buf.len() <= offset || offset + 1 + buf[offset] > 255 {
        offset
    } else if buf[offset] == 0 {
        offset + 1
    } else {
        name_end(buf, offset + 1 + buf[offset])
    }
}

/// Every label is valid UTF-8.
pub open spec fn all_utf8(labels: Seq<Seq<u8>>) -> bool {
    forall|i: int| 0 <= i < labels.len() ==> valid_utf8(#[trigger] labels[i])
}

/// The text of each label.
pub open spec fn decoded(labels: Seq<Seq<u8>>) -> Seq<Seq<char>> {
    labels.map_values(|l: Seq<u8>| decode_utf8(l))
}

/// The parts joined with a dot between each two.
pub open spec fn dot_join(parts: Seq<Seq<char>>) -> Seq<char>
    decreases parts.len(),
{
    if parts.len() == 0 {
        seq![]
    } else if parts.len() == 1 {
        parts[0]
    } else {
        dot_join(parts.drop_last()) + seq!['.'] + parts.last()
    }
}

/// Calls `std::str::from_utf8` on the label's bytes. Claimed: it succeeds
/// exactly on valid UTF-8, and the text it gives has the label's bytes.
#[verifier::external_body]
fn label_from_utf8(bytes: &[u8]) -> (r: Option<&str>)
    ensures
        r is Some <==> valid_utf8(bytes@),
        r matches Some(s) ==> s.spec_bytes() == bytes@,
{
    std::str::from_utf8(bytes).ok()
}

/// Whether the walk over the name at `offset`, up to the first label that is
/// not valid UTF-8, stays within `u8` offsets.
pub fn qname_fits(initial_offset: u8, buf: &[u8; MAX_UDP_QUERY_SIZE]) -> (r: bool)
    ensures
        r == name_walk_ok(buf@, initial_offset as int),
{
    let mut offset: usize = initial_offset as usize;
    loop
        invariant
            offset <= 255,
            buf@.len() == MAX_UDP_QUERY_SIZE,
            name_walk_ok(buf@, initial_offset as int) == name_walk_ok(buf@, offset as int),
        decreases 256 - offset,
    {
        let lsize = buf[offset] as usize;
        if lsize == 0 {
            return offset + 1 <= 255;
        }
        if offset + 1 + lsize > 255 {
            return false;
        }
        let raw = &buf[offset + 1..offset + 1 + lsize];
        if label_from_utf8(raw).is_none() {
            return true;
        }
        offset = offset + 1 + lsize;
    }
}

/// Reads the name at `initial_offset`: returns its labels joined by dots and
/// the index just past the closing zero byte, or an error where a label is
/// not valid UTF-8.
pub fn read_qname(initial_offset: u8, buf: &[u8; MAX_UDP_QUERY_SIZE]) -> (r: Result<
    (String, usize),
    QnameError,
>)
    requires
        name_walk_ok(buf@, initial_offset as int),
    ensures
        r is Ok <==> all_utf8(name_labels(buf@, initial_offset as int)),
        r matches Ok((qname, next)) ==> qname@ == dot_join(
            decoded(name_labels(buf@, initial_offset as int)),
        ) && next == name_end(buf@, initial_offset as int),
{
    let ghost start = initial_offset as int;
    let ghost bytes = buf@;
    let mut qname = String::new();
    let mut offset: u8 = initial_offset;
    let mut lsize: u8 = buf[offset as usize];
    let ghost mut done: Seq<Seq<u8>> = seq![];
    let mut first: bool = true;
    proof {
        reveal_strlit(".");
    }
    while lsize > 0
        invariant
            bytes == buf@,
            start == initial_offset as int,
            bytes.len() == MAX_UDP_QUERY_SIZE,
            name_walk_ok(bytes, offset as int),
            lsize == bytes[offset as int],
            name_labels(bytes, start) == done + name_labels(bytes, offset as int),
            name_end(bytes, start) == name_end(bytes, offset as int),
            all_utf8(done),
            qname@ == dot_join(decoded(done)),
            "."@ == seq!['.'],
            first == (done.len() == 0),
        decreases 256 - offset,
    {
        let ghost here = offset as int;
        offset = offset + 1;
        let range_begin = offset as usize;
        let range_end = (lsize + offset) as usize;
        let raw = &buf[range_begin..range_end];
        let ghost label = bytes.subrange(range_begin as int, range_end as int);
        assert(raw@ == label);
        assert(name_labels(bytes, here) == seq![label] + name_labels(bytes, range_end as int));
        assert(name_walk_ok(bytes, here) == (valid_utf8(label) ==> name_walk_ok(
            bytes,
            range_end as int,
        )));
        match label_from_utf8(raw) {
            None => {
                let ghost all = name_labels(bytes, start);
                assert(all[done.len() as int] == label);
                assert(!valid_utf8(all[done.len() as int]));
                assert(!all_utf8(all));
                return Err(QnameError::InvalidUtf8);
            },
            Some(text) => {
                proof {
                    encode_utf8_decode_utf8(text@);
                }
                assert(text@ == decode_utf8(label));
                let ghost old_done = done;
                proof {
                    done = done.push(label);
                }
                assert(done.drop_last() =~= old_done);
                assert(decoded(done).drop_last() =~= decoded(old_done));
                if !first {
                    qname.append(".");
                }
                first = false;
                qname.append(text);
                assert(name_labels(bytes, start) =~= done + name_labels(bytes, range_end as int));
                assert forall|i: int| 0 <= i < done.len() implies valid_utf8(#[trigger] done[i]) by {
                    if i < old_done.len() {
                        assert(done[i] == old_done[i]);
                    }
                }
            },
        }
        offset = offset + lsize;
        lsize = buf[offset as usize];
    }
    assert(done + name_labels(bytes, offset as int) =~= done);
    Ok((qname, (offset + 1) as usize))
}

/// The labels' bytes joined with a dot byte between each two.
pub open spec fn byte_join(labels: Seq<Seq<u8>>) -> Seq<u8>
    decreases labels.len(),
{
    if labels.len() == 0 {
        seq![]
    } else if labels.len() == 1 {
        labels[0]
    } else {
        byte_join(labels.drop_last()) + seq![0x2Eu8] + labels.last()
    }
}

proof fn lemma_encode_concat(a: Seq<char>, b: Seq<char>)
    ensures
        encode_utf8(a + b) == encode_utf8(a) + encode_utf8(b),
    decreases a.len(),
{
    if a.len() == 0 {
        assert(a + b =~= b);
        assert(encode_utf8(a) + encode_utf8(b) =~= encode_utf8(b));
    } else {
        lemma_encode_concat(a.drop_first(), b);
        assert((a + b).drop_first() =~= a.drop_first() + b);
        assert((a + b)[0] == a[0]);
        assert(encode_utf8(a + b) =~= encode_utf8(a) + encode_utf8(b));
    }
}

/// The name that `read_qname` gives back, written in UTF-8, is the labels'
/// bytes joined by dots.
pub proof fn name_text_spells_the_labels(labels: Seq<Seq<u8>>)
    requires
        all_utf8(labels),
    ensures
        encode_utf8(dot_join(decoded(labels))) == byte_join(labels),
    decreases labels.len(),
{
    if labels.len() == 1 {
        decode_utf8_encode_utf8(labels[0]);
    } else if labels.len() > 1 {
        let init = labels.drop_last();
        assert(decoded(labels).drop_last() =~= decoded(init));
        assert(all_utf8(init)) by {
            assert forall|i: int| 0 <= i < init.len() implies valid_utf8(#[trigger] init[i]) by {
                assert(init[i] == labels[i]);
            }
        }
        name_text_spells_the_labels(init);
        let last = labels.last();
        assert(valid_utf8(labels[labels.len() - 1]));
        decode_utf8_encode_utf8(last);
        let front = dot_join(decoded(init));
        lemma_encode_concat(front + seq!['.'], decode_utf8(last));
        lemma_encode_concat(front, seq!['.']);
        let dot = seq!['.'];
        assert(dot.drop_first() =~= Seq::<char>::empty());
        assert(('.' as u32) == 46u32);
        assert((46u32 & 0x7Fu32) as u8 == 0x2Eu8) by (bit_vector);
        assert(encode_scalar(46u32) =~= seq![0x2Eu8]);
        assert(dot[0] == '.');
        assert(encode_utf8(dot.drop_first()) =~= Seq::<u8>::empty());
        assert(encode_utf8(dot) == encode_scalar(dot[0] as u32) + encode_utf8(dot.drop_first()));
        assert(encode_utf8(dot) =~= seq![0x2Eu8]);
    }
}

/// The wire form of a name: each label after its length byte, then a zero
/// byte.
pub open spec fn encode_labels(labels: Seq<Seq<u8>>) -> Seq<u8>
    decreases labels.len(),
{
    if labels.len() == 0 {
        seq![0u8]
    } else {
        seq![labels[0].len() as u8] + labels[0] + encode_labels(labels.drop_first())
    }
}

/// Every label is non-empty and short enough for its length byte.
pub open spec fn labels_encodable(labels: Seq<Seq<u8>>) -> bool {
    forall|i: int| 0 <= i < labels.len() ==> 1 <= #[trigger] labels[i].len() <= 255
}

/// Reading a name written in wire form at `offset` gives back its labels and
/// the index just past it, where the whole name lies within `u8` offsets.
pub proof fn reading_an_encoded_name_gives_its_labels(
    buf: Seq<u8>,
    offset: int,
    labels: Seq<Seq<u8>>,
)
    requires
        labels_encodable(labels),
        0 <= offset,
        offset + encode_labels(labels).len() <= 255,
        offset + encode_labels(labels).len() <= buf.len(),
        buf.subrange(offset, offset + encode_labels(labels).len()) == encode_labels(labels),
    ensures
        name_walk_ok(buf, offset),
        name_labels(buf, offset) == labels,
        name_end(buf, offset) == offset + encode_labels(labels).len(),
    decreases labels.len(),
{
    let enc = encode_labels(labels);
    assert(buf[offset] == buf.subrange(offset, offset + enc.len())[0]);
    if labels.len() == 0 {
        assert(name_labels(buf, offset) =~= labels);
    } else {
        let first = labels[0];
        let n = first.len();
        let rest = labels.drop_first();
        let rest_enc = encode_labels(rest);
        let next = offset + 1 + n;
        assert(enc =~= seq![n as u8] + first + rest_enc);
        assert(rest_enc.len() >= 1);
        assert(buf[offset] == n as u8);
        assert(buf.subrange(offset + 1, next) =~= first) by {
            assert forall|i: int| 0 <= i < n implies buf.subrange(offset + 1, next)[i] == first[i] by {
                assert(buf.subrange(offset + 1, next)[i] == buf.subrange(offset, offset + enc.len())[1 + i]);
            }
        }
        assert(buf.subrange(next, next + rest_enc.len()) =~= rest_enc) by {
            assert forall|i: int| 0 <= i < rest_enc.len() implies buf.subrange(
                next,
                next + rest_enc.len(),
            )[i] == rest_enc[i] by {
                assert(buf.subrange(next, next + rest_enc.len())[i] == buf.subrange(
                    offset,
                    offset + enc.len(),
                )[1 + n + i]);
            }
        }
        assert(labels_encodable(rest)) by {
            assert forall|i: int| 0 <= i < rest.len() implies 1 <= #[trigger] rest[i].len()
                <= 255 by {
                assert(rest[i] == labels[i + 1]);
            }
        }
        reading_an_encoded_name_gives_its_labels(buf, next, rest);
        assert(name_labels(buf, offset) =~= seq![first] + rest);
        assert(seq![first] + rest =~= labels);
    }
}

/// What is read of a name depends only on the bytes of that name: another
/// buffer that agrees with it from `offset` up to the end of the name reads
/// the same labels and ends at the same index.
pub proof fn reading_a_name_ignores_other_bytes(first: Seq<u8>, second: Seq<u8>, offset: int)
    requires
        name_walk_ok(first, offset),
        all_utf8(name_labels(first, offset)),
        name_end(first, offset) <= second.len(),
        forall|j: int| offset <= j < name_end(first, offset) ==> first[j] == second[j],
    ensures
        name_walk_ok(second, offset),
        name_labels(second, offset) == name_labels(first, offset),
        name_end(second, offset) == name_end(first, offset),
    decreases 256 - offset,
{
    lemma_end_after(first, offset);
    assert(first[offset] == second[offset]);
    if first[offset] != 0 {
        let n = first[offset];
        let next = offset + 1 + n;
        let labels = name_labels(first, offset);
        assert(labels == seq![first.subrange(offset + 1, next)] + name_labels(first, next));
        assert(valid_utf8(labels[0]));
        assert(all_utf8(name_labels(first, next))) by {
            assert forall|i: int| 0 <= i < name_labels(first, next).len() implies valid_utf8(
                #[trigger] name_labels(first, next)[i],
            ) by {
                assert(labels[i + 1] == name_labels(first, next)[i]);
            }
        }
        lemma_end_after(first, next);
        assert(second.subrange(offset + 1, next) =~= first.subrange(offset + 1, next));
        reading_a_name_ignores_other_bytes(first, second, next);
    }
}

pub(crate) proof fn lemma_end_after(buf: Seq<u8>, offset: int)
    requires
        name_walk_ok(buf, offset),
        all_utf8(name_labels(buf, offset)),
    ensures
        offset + 1 <= name_end(buf, offset) <= 255,
        buf[offset] != 0 ==> offset + 1 + buf[offset] < name_end(buf, offset),
    decreases 256 - offset,
{
    if buf[offset] != 0 {
        let next = offset + 1 + buf[offset];
        let labels = name_labels(buf, offset);
        assert(labels == seq![buf.subrange(offset + 1, next)] + name_labels(buf, next));
        assert(valid_utf8(labels[0]));
        assert forall|i: int| 0 <= i < name_labels(buf, next).len() implies valid_utf8(
            #[trigger] name_labels(buf, next)[i],
        ) by {
            assert(labels[i + 1] == name_labels(buf, next)[i]);
        }
        lemma_end_after(buf, next);
    }
}

} // verus!
