//! The message format on the wire, as a mathematical model: what a message
//! is encoded to, and what a byte string is decoded to.

use vstd::prelude::*;

use crate::error::MessageError;
use crate::header::{byte_of_class, class_of_byte, Header, MessageClass};
use crate::option_map::{ascending, lemma_rank_is, with_added};

verus! {

/// A message as plain values.
pub struct PacketView {
    pub header: Header,
    pub token: Seq<u8>,
    /// Option numbers with their values, numbers ascending.
    pub options: Seq<(u16, Seq<Seq<u8>>)>,
    pub payload: Seq<u8>,
}

/// The nibble that announces a delta or a length: the value itself up to
/// 12, else 13 or 14 for the one-byte or two-byte extension.
pub open spec fn field_nibble(value: int) -> int {
    if value <= 12 {
        value
    } else if value < 269 {
        13
    } else {
        14
    }
}

/// The extension bytes of a delta or a length: none up to 12, one byte
/// biased by 13 below 269, else two bytes in network order biased by 269
/// (of which only the low sixteen bits are written).
pub open spec fn field_extension(value: int) -> Seq<u8> {
    if value <= 12 {
        Seq::empty()
    } else if value < 269 {
        seq![(value - 13) as u8]
    } else {
        seq![(((value - 269) / 256) % 256) as u8, ((value - 269) % 256) as u8]
    }
}

/// One option on the wire: the leading byte with the two nibbles, the
/// extension of the delta, the extension of the length, the value.
pub open spec fn encode_option(delta: int, value: Seq<u8>) -> Seq<u8> {
    seq![(field_nibble(delta) * 16 + field_nibble(value.len() as int)) as u8] + field_extension(
        delta,
    ) + field_extension(value.len() as int) + value
}

/// The options of a message one by one, in the order in which they are
/// written: entry after entry, and within an entry value after value.
pub open spec fn flatten(entries: Seq<(u16, Seq<Seq<u8>>)>) -> Seq<(u16, Seq<u8>)>
    decreases entries.len(),
{
    if entries.len() == 0 {
        Seq::empty()
    } else {
        flatten(entries.drop_last()) + Seq::new(
            entries.last().1.len(),
            |j: int| (entries.last().0, entries.last().1[j]),
        )
    }
}

/// The option number that precedes the item at `index`: 0 for the first.
pub open spec fn previous_number(items: Seq<(u16, Seq<u8>)>, index: int) -> int {
    if index <= 0 {
        0
    } else {
        items[index - 1].0 as int
    }
}

/// A run of options on the wire, each with the delta from the one before.
pub open spec fn encode_options(items: Seq<(u16, Seq<u8>)>) -> Seq<u8>
    decreases items.len(),
{
    if items.len() == 0 {
        Seq::empty()
    } else {
        encode_options(items.drop_last()) + encode_option(
            items.last().0 - previous_number(items, items.len() - 1),
            items.last().1,
        )
    }
}

/// Whether the payload is written: only with a code other than Empty, and
/// only where there is any.
pub open spec fn payload_is_written(p: PacketView) -> bool {
    p.header.code != MessageClass::Empty && p.payload.len() > 0
}

/// The marker and the payload, where the payload is written.
pub open spec fn encode_payload(p: PacketView) -> Seq<u8> {
    if payload_is_written(p) {
        seq![0xFFu8] + p.payload
    } else {
        Seq::empty()
    }
}

/// A message on the wire: header, token, options, then marker and payload.
pub open spec fn encode_packet(p: PacketView) -> Seq<u8> {
    p.header.bytes() + p.token + encode_options(flatten(p.options)) + encode_payload(p)
}

/// What is read of one option that starts at `index`, after an option
/// numbered `number`: its number, its value, and where the next one starts.
pub open spec fn parse_option(buf: Seq<u8>, index: int, number: int) -> Result<
    (u16, Seq<u8>, int),
    MessageError,
> {
    let delta_nibble = buf[index] as int / 16;
    let length_nibble = buf[index] as int % 16;
    let at_delta = index + 1;
    if delta_nibble == 13 && at_delta >= buf.len() {
        Err(MessageError::InvalidOptionLength)
    } else if delta_nibble == 14 && at_delta + 1 >= buf.len() {
        Err(MessageError::InvalidOptionLength)
    } else if delta_nibble == 14 && buf[at_delta] as int * 256 + buf[at_delta + 1] as int + 269
        > 65535 {
        Err(MessageError::InvalidOptionDelta)
    } else if delta_nibble == 15 {
        Err(MessageError::InvalidOptionDelta)
    } else {
        let delta = if delta_nibble == 13 {
            buf[at_delta] as int + 13
        } else if delta_nibble == 14 {
            buf[at_delta] as int * 256 + buf[at_delta + 1] as int + 269
        } else {
            delta_nibble
        };
        let at_length = if delta_nibble == 13 {
            at_delta + 1
        } else if delta_nibble == 14 {
            at_delta + 2
        } else {
            at_delta
        };
        if length_nibble == 13 && at_length >= buf.len() {
            Err(MessageError::InvalidOptionLength)
        } else if length_nibble == 14 && at_length + 1 >= buf.len() {
            Err(MessageError::InvalidOptionLength)
        } else if length_nibble == 15 {
            Err(MessageError::InvalidOptionLength)
        } else {
            let length = if length_nibble == 13 {
                buf[at_length] as int + 13
            } else if length_nibble == 14 {
                buf[at_length] as int * 256 + buf[at_length + 1] as int + 269
            } else {
                length_nibble
            };
            let at_value = if length_nibble == 13 {
                at_length + 1
            } else if length_nibble == 14 {
                at_length + 2
            } else {
                at_length
            };
            if number + delta > 65535 {
                Err(MessageError::InvalidOptionDelta)
            } else if at_value + length > buf.len() {
                Err(MessageError::InvalidOptionLength)
            } else {
                Ok(
                    (
                        (number + delta) as u16,
                        buf.subrange(at_value, at_value + length),
                        at_value + length,
                    ),
                )
            }
        }
    }
}

/// What is read of the options from `index` on, after an option numbered
/// `number`: the options in the order in which they stand, and the index at
/// which they end, which is that of the payload marker or the end of `buf`.
pub open spec fn parse_options(buf: Seq<u8>, index: int, number: int) -> Result<
    (Seq<(u16, Seq<u8>)>, int),
    MessageError,
>
    decreases buf.len() - index,
{
    if index < 0 || index >= buf.len() || buf[index] == 0xFF {
        Ok((Seq::empty(), index))
    } else {
        match parse_option(buf, index, number) {
            Err(e) => Err(e),
            Ok((next_number, value, next_index)) => match parse_options(
                buf,
                next_index,
                next_number as int,
            ) {
                Err(e) => Err(e),
                Ok((items, end)) => Ok((seq![(next_number, value)] + items, end)),
            },
        }
    }
}

/// The entries that a run of options makes: each value is appended to the
/// values of its number.
pub open spec fn collect(items: Seq<(u16, Seq<u8>)>) -> Seq<(u16, Seq<Seq<u8>>)>
    decreases items.len(),
{
    if items.len() == 0 {
        Seq::empty()
    } else {
        with_added(collect(items.drop_last()), items.last().0, items.last().1)
    }
}

/// What a byte string is decoded to: the message, or the first fault met.
pub open spec fn decode_packet(buf: Seq<u8>) -> Result<PacketView, MessageError> {
    if buf.len() < 4 {
        Err(MessageError::InvalidHeader)
    } else {
        let header = Header::parse(buf);
        let options_start = 4 + header.token_length() as int;
        if header.token_length() > 8 || options_start > buf.len() {
            Err(MessageError::InvalidTokenLength)
        } else {
            match parse_options(buf, options_start, 0) {
                Err(e) => Err(e),
                Ok((items, end)) => Ok(
                    PacketView {
                        header,
                        token: buf.subrange(4, options_start),
                        options: collect(items),
                        payload: if end < buf.len() {
                            buf.subrange(end + 1, buf.len() as int)
                        } else {
                            Seq::empty()
                        },
                    },
                ),
            }
        }
    }
}


/// The entries that have a value, in their order.
pub open spec fn without_empty_entries(entries: Seq<(u16, Seq<Seq<u8>>)>) -> Seq<
    (u16, Seq<Seq<u8>>),
>
    decreases entries.len(),
{
    if entries.len() == 0 {
        Seq::empty()
    } else if entries.last().1.len() > 0 {
        without_empty_entries(entries.drop_last()).push(entries.last())
    } else {
        without_empty_entries(entries.drop_last())
    }
}

/// The largest value that a delta or a length with its extension can
/// spell.
pub open spec fn largest_field() -> int {
    65804
}

/// Whether a message is one that the wire format can carry as it is: a
/// token of at most eight bytes whose length is the token length of the
/// header, a code that a byte stands for, option numbers that ascend, no
/// option value longer than a length can spell, and no payload under the
/// Empty code.
pub open spec fn valid_message(p: PacketView) -> bool {
    &&& p.token.len() <= 8
    &&& p.header.token_length() == p.token.len()
    &&& class_of_byte(byte_of_class(p.header.code)) == p.header.code
    &&& ascending(p.options)
    &&& forall|i: int, j: int|
        0 <= i < p.options.len() && 0 <= j < p.options[i].1.len() ==> (#[trigger] p.options[i].1[j]).len()
            <= largest_field()
    &&& (p.header.code == MessageClass::Empty ==> p.payload.len() == 0)
}

/// Whether the numbers of the items do not descend and no value is longer
/// than a length can spell.
pub open spec fn encodable(items: Seq<(u16, Seq<u8>)>) -> bool {
    &&& forall|i: int, j: int| 0 <= i <= j < items.len() ==> items[i].0 <= items[j].0
    &&& forall|i: int| 0 <= i < items.len() ==> (#[trigger] items[i]).1.len() <= largest_field()
}

proof fn lemma_parse_encoded_option(
    buf: Seq<u8>,
    index: int,
    number: int,
    delta: int,
    value: Seq<u8>,
)
    requires
        0 <= index,
        0 <= number,
        0 <= delta,
        number + delta <= 65535,
        value.len() <= largest_field(),
        index + encode_option(delta, value).len() <= buf.len(),
        buf.subrange(index, index + encode_option(delta, value).len()) == encode_option(
            delta,
            value,
        ),
    ensures
        parse_option(buf, index, number) == Ok::<(u16, Seq<u8>, int), MessageError>(
            ((number + delta) as u16, value, index + encode_option(delta, value).len()),
        ),
        buf[index] != 0xFF,
        encode_option(delta, value).len() >= 1,
{
    let encoded = encode_option(delta, value);
    let delta_extension = field_extension(delta);
    let length_extension = field_extension(value.len() as int);
    let lead = (field_nibble(delta) * 16 + field_nibble(value.len() as int)) as u8;
    let head = seq![lead] + delta_extension + length_extension;
    assert(encoded == head + value);
    assert forall|i: int| 0 <= i < encoded.len() implies buf[index + i] == encoded[i] by {
        assert(buf.subrange(index, index + encoded.len())[i] == buf[index + i]);
    }
    assert(encoded[0] == lead);
    assert(buf[index] == lead);
    assert(lead as int / 16 == field_nibble(delta));
    assert(lead as int % 16 == field_nibble(value.len() as int));
    let at_delta = index + 1;
    if delta_extension.len() >= 1 {
        assert(encoded[1] == delta_extension[0]);
        assert(buf[at_delta] == delta_extension[0]);
    }
    if delta_extension.len() == 2 {
        assert(encoded[2] == delta_extension[1]);
        assert(buf[at_delta + 1] == delta_extension[1]);
    }
    let at_length = at_delta + delta_extension.len();
    if length_extension.len() >= 1 {
        assert(encoded[1 + delta_extension.len() as int] == length_extension[0]);
        assert(buf[at_length] == length_extension[0]);
    }
    if length_extension.len() == 2 {
        assert(encoded[2 + delta_extension.len() as int] == length_extension[1]);
        assert(buf[at_length + 1] == length_extension[1]);
    }
    let at_value = at_length + length_extension.len();
    assert(at_value == index + head.len());
    assert(buf.subrange(at_value, at_value + value.len()) =~= value) by {
        assert forall|i: int| 0 <= i < value.len() implies buf[at_value + i] == value[i] by {
            assert(encoded[head.len() + i] == value[i]);
        }
    }
}

proof fn lemma_encode_options_step(items: Seq<(u16, Seq<u8>)>, k: int)
    requires
        0 <= k < items.len(),
    ensures
        encode_options(items.take(k + 1)) == encode_options(items.take(k)) + encode_option(
            items[k].0 - previous_number(items, k),
            items[k].1,
        ),
{
    let longer = items.take(k + 1);
    assert(longer.drop_last() =~= items.take(k));
    assert(longer.last() == items[k]);
    if k > 0 {
        assert(longer[k - 1] == items[k - 1]);
    }
}

proof fn lemma_encoding_prefix(items: Seq<(u16, Seq<u8>)>, k: int)
    requires
        0 <= k <= items.len(),
    ensures
        encode_options(items.take(k)).len() <= encode_options(items).len(),
        encode_options(items).subrange(0, encode_options(items.take(k)).len() as int)
            == encode_options(items.take(k)),
    decreases items.len() - k,
{
    let whole = encode_options(items);
    if k == items.len() {
        assert(items.take(k) =~= items);
        assert(whole.subrange(0, whole.len() as int) =~= whole);
    } else {
        lemma_encoding_prefix(items, k + 1);
        lemma_encode_options_step(items, k);
        let part = encode_options(items.take(k));
        let longer = encode_options(items.take(k + 1));
        assert(whole.subrange(0, part.len() as int) =~= part) by {
            assert forall|i: int| 0 <= i < part.len() implies whole[i] == part[i] by {
                assert(whole.subrange(0, longer.len() as int)[i] == whole[i]);
                assert(longer[i] == part[i]);
            }
        }
    }
}

proof fn lemma_parse_encoded_options(buf: Seq<u8>, start: int, items: Seq<(u16, Seq<u8>)>, k: int)
    requires
        0 <= start,
        0 <= k <= items.len(),
        encodable(items),
        start + encode_options(items).len() <= buf.len(),
        buf.subrange(start, start + encode_options(items).len()) == encode_options(items),
        start + encode_options(items).len() == buf.len() || buf[start + encode_options(
            items,
        ).len()] == 0xFF,
    ensures
        parse_options(
            buf,
            start + encode_options(items.take(k)).len(),
            previous_number(items, k),
        ) == Ok::<(Seq<(u16, Seq<u8>)>, int), MessageError>(
            (items.skip(k), start + encode_options(items).len()),
        ),
    decreases items.len() - k,
{
    let whole = encode_options(items);
    let end = start + whole.len();
    if k == items.len() {
        assert(items.take(k) =~= items);
        assert(items.skip(k) =~= Seq::<(u16, Seq<u8>)>::empty());
    } else {
        lemma_parse_encoded_options(buf, start, items, k + 1);
        lemma_encode_options_step(items, k);
        lemma_encoding_prefix(items, k + 1);
        let before = encode_options(items.take(k));
        let delta = items[k].0 - previous_number(items, k);
        let encoded = encode_option(delta, items[k].1);
        let after = encode_options(items.take(k + 1));
        let index = start + before.len();
        assert(after == before + encoded);
        assert(buf.subrange(index, index + encoded.len()) =~= encoded) by {
            assert forall|i: int| 0 <= i < encoded.len() implies buf[index + i] == encoded[i] by {
                assert(whole.subrange(0, after.len() as int)[before.len() + i] == whole[before.len()
                    + i]);
                assert(after[before.len() + i] == encoded[i]);
                assert(buf.subrange(start, end)[before.len() + i] == buf[start + before.len() + i]);
            }
        }
        if k > 0 {
            assert(items[k - 1].0 <= items[k].0);
        }
        lemma_parse_encoded_option(buf, index, previous_number(items, k), delta, items[k].1);
        assert(previous_number(items, k + 1) == items[k].0);
        assert(seq![(items[k].0, items[k].1)] + items.skip(k + 1) =~= items.skip(k));
    }
}

/// Whether every option number of `entries` is below `bound`.
pub open spec fn all_below(entries: Seq<(u16, Seq<Seq<u8>>)>, bound: int) -> bool {
    forall|i: int| 0 <= i < entries.len() ==> (#[trigger] entries[i]).0 < bound
}

proof fn lemma_without_empty_entries(entries: Seq<(u16, Seq<Seq<u8>>)>, bound: int)
    requires
        ascending(entries),
        all_below(entries, bound),
    ensures
        ascending(without_empty_entries(entries)),
        all_below(without_empty_entries(entries), bound),
    decreases entries.len(),
{
    if entries.len() > 0 {
        let front = entries.drop_last();
        let last = entries.last();
        assert(ascending(front)) by {
            assert forall|i: int, j: int| 0 <= i < j < front.len() implies front[i].0
                < front[j].0 by {
                assert(entries[i].0 < entries[j].0);
            }
        }
        assert(all_below(front, last.0 as int)) by {
            assert forall|i: int| 0 <= i < front.len() implies (#[trigger] front[i]).0
                < last.0 by {
                assert(entries[i].0 < entries[entries.len() - 1].0);
            }
        }
        lemma_without_empty_entries(front, last.0 as int);
        let kept = without_empty_entries(front);
        assert(all_below(kept, bound)) by {
            assert forall|i: int| 0 <= i < kept.len() implies (#[trigger] kept[i]).0 < bound by {
                assert(kept[i].0 < last.0);
                assert(entries[entries.len() - 1].0 < bound);
            }
        }
        if last.1.len() > 0 {
            let longer = kept.push(last);
            assert(ascending(longer)) by {
                assert forall|i: int, j: int| 0 <= i < j < longer.len() implies longer[i].0
                    < longer[j].0 by {
                    if j < kept.len() {
                        assert(kept[i].0 < kept[j].0);
                    } else {
                        assert(kept[i].0 < last.0);
                    }
                }
            }
            assert(all_below(longer, bound)) by {
                assert forall|i: int| 0 <= i < longer.len() implies (#[trigger] longer[i]).0
                    < bound by {
                    if i < kept.len() {
                        assert(kept[i].0 < bound);
                    } else {
                        assert(entries[entries.len() - 1].0 < bound);
                    }
                }
            }
        }
    }
}

/// The values of one option, each with the option's number.
pub open spec fn items_of(number: u16, values: Seq<Seq<u8>>) -> Seq<(u16, Seq<u8>)> {
    Seq::new(values.len(), |j: int| (number, values[j]))
}

proof fn lemma_collect_values(
    before: Seq<(u16, Seq<u8>)>,
    number: u16,
    values: Seq<Seq<u8>>,
    n: int,
)
    requires
        0 <= n <= values.len(),
        ascending(collect(before)),
        all_below(collect(before), number as int),
    ensures
        collect(before + items_of(number, values.take(n))) == if n == 0 {
            collect(before)
        } else {
            collect(before).push((number, values.take(n)))
        },
    decreases n,
{
    let base = collect(before);
    if n == 0 {
        assert(before + items_of(number, values.take(0)) =~= before);
    } else {
        lemma_collect_values(before, number, values, n - 1);
        let shorter = before + items_of(number, values.take(n - 1));
        let longer = before + items_of(number, values.take(n));
        assert(longer.drop_last() =~= shorter);
        assert(longer.last() == (number, values[n - 1]));
        assert(collect(longer) == with_added(collect(shorter), number, values[n - 1]));
        if n == 1 {
            lemma_rank_is(base, number, base.len() as int);
            assert(collect(longer) =~= base.push((number, seq![values[0]])));
            assert(values.take(1) =~= seq![values[0]]);
        } else {
            let grown = base.push((number, values.take(n - 1)));
            assert(forall|i: int| 0 <= i < base.len() ==> (#[trigger] grown[i]) == base[i]);
            lemma_rank_is(grown, number, base.len() as int);
            assert(values.take(n - 1).push(values[n - 1]) =~= values.take(n));
            assert(collect(longer) =~= base.push((number, values.take(n))));
        }
    }
}

/// The options that are read back from the options written are the entries
/// that have a value.
pub proof fn lemma_collect_flatten(entries: Seq<(u16, Seq<Seq<u8>>)>)
    requires
        ascending(entries),
    ensures
        collect(flatten(entries)) == without_empty_entries(entries),
    decreases entries.len(),
{
    if entries.len() > 0 {
        let front = entries.drop_last();
        let last = entries.last();
        assert(ascending(front)) by {
            assert forall|i: int, j: int| 0 <= i < j < front.len() implies front[i].0
                < front[j].0 by {
                assert(entries[i].0 < entries[j].0);
            }
        }
        assert(all_below(front, last.0 as int)) by {
            assert forall|i: int| 0 <= i < front.len() implies (#[trigger] front[i]).0
                < last.0 by {
                assert(entries[i].0 < entries[entries.len() - 1].0);
            }
        }
        lemma_collect_flatten(front);
        lemma_without_empty_entries(front, last.0 as int);
        assert(last.1.take(last.1.len() as int) =~= last.1);
        lemma_collect_values(flatten(front), last.0, last.1, last.1.len() as int);
        assert(flatten(entries) =~= flatten(front) + items_of(last.0, last.1));
    }
}

proof fn lemma_flatten_encodable(entries: Seq<(u16, Seq<Seq<u8>>)>, bound: int)
    requires
        ascending(entries),
        all_below(entries, bound),
        forall|i: int, j: int|
            0 <= i < entries.len() && 0 <= j < entries[i].1.len() ==> (#[trigger] entries[i].1[j]).len()
                <= largest_field(),
    ensures
        encodable(flatten(entries)),
        forall|i: int| 0 <= i < flatten(entries).len() ==> (#[trigger] flatten(entries)[i]).0 < bound,
    decreases entries.len(),
{
    if entries.len() > 0 {
        let front = entries.drop_last();
        let last = entries.last();
        assert(ascending(front)) by {
            assert forall|i: int, j: int| 0 <= i < j < front.len() implies front[i].0
                < front[j].0 by {
                assert(entries[i].0 < entries[j].0);
            }
        }
        assert(all_below(front, last.0 as int)) by {
            assert forall|i: int| 0 <= i < front.len() implies (#[trigger] front[i]).0
                < last.0 by {
                assert(entries[i].0 < entries[entries.len() - 1].0);
            }
        }
        assert forall|i: int, j: int|
            0 <= i < front.len() && 0 <= j < front[i].1.len() implies (#[trigger] front[i].1[j]).len()
            <= largest_field() by {
            assert(entries[i].1[j].len() <= largest_field());
        }
        lemma_flatten_encodable(front, last.0 as int);
        let items = flatten(entries);
        let head = flatten(front);
        assert(items =~= head + items_of(last.0, last.1));
        assert(entries[entries.len() - 1].0 < bound);
        assert forall|i: int| 0 <= i < items.len() implies (#[trigger] items[i]).0 < bound
            && items[i].1.len() <= largest_field() && items[i].0 <= last.0 && (i < head.len()
            ==> items[i] == head[i] && items[i].0 < last.0) && (i >= head.len() ==> items[i].0
            == last.0) by {
            if i < head.len() {
                assert(head[i].0 < last.0);
            } else {
                assert(items[i] == (last.0, last.1[i - head.len()]));
                assert(entries[entries.len() - 1].1[i - head.len()].len() <= largest_field());
            }
        }
        assert forall|i: int, j: int| 0 <= i <= j < items.len() implies items[i].0
            <= items[j].0 by {
            if j < head.len() {
                assert(head[i].0 <= head[j].0);
            }
        }
    }
}

/// A message that the wire format can carry is read back from its encoding
/// as it was written, up to the options that have no value, which the wire
/// does not show.
pub proof fn lemma_codec_round_trip(p: PacketView)
    requires
        valid_message(p),
    ensures
        decode_packet(encode_packet(p)) == Ok::<PacketView, MessageError>(
            PacketView { options: without_empty_entries(p.options), ..p },
        ),
{
    let buf = encode_packet(p);
    let items = flatten(p.options);
    let options = encode_options(items);
    let start: int = 4 + p.token.len() as int;
    let end: int = start + options.len() as int;
    assert(p.header.bytes().len() == 4);
    assert(buf == p.header.bytes() + p.token + options + encode_payload(p));
    assert(Header::parse(buf) == p.header);
    assert(buf.subrange(4, start) =~= p.token);
    assert(buf.subrange(start, end) =~= options);
    lemma_flatten_encodable(p.options, 65536);
    assert(all_below(p.options, 65536));
    assert(items.take(0) =~= Seq::<(u16, Seq<u8>)>::empty());
    lemma_parse_encoded_options(buf, start, items, 0);
    assert(items.skip(0) =~= items);
    lemma_collect_flatten(p.options);
    if payload_is_written(p) {
        assert(buf[end] == 0xFF);
        assert(buf.subrange(end + 1, buf.len() as int) =~= p.payload);
    } else {
        assert(end == buf.len());
        assert(p.payload =~= Seq::<u8>::empty());
    }
}

} // verus!
