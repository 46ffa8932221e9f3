//! The options of a message one by one, for consumers that walk a message
//! option by option.

use vstd::prelude::*;

use crate::option_map::{values_view, OptionMap};
use crate::packet::Packet;
use crate::wire::{flatten, items_of};

verus! {

/// One option of a message: its number and one of its values.
pub struct MessageOption<'a> {
    number: u16,
    value: &'a [u8],
}

impl<'a> MessageOption<'a> {
    /// The number of the option.
    pub closed spec fn spec_number(self) -> u16 {
        self.number
    }

    /// The value of the option.
    pub closed spec fn spec_value(self) -> Seq<u8> {
        self.value@
    }

    /// The number of the option.
    pub fn number(&self) -> (number: u16)
        ensures
            number == self.spec_number(),
    {
        self.number
    }

    /// The value of the option.
    pub fn value(&self) -> (value: &'a [u8])
        ensures
            value@ == self.spec_value(),
    {
        self.value
    }
}

proof fn lemma_flatten_step(entries: Seq<(u16, Seq<Seq<u8>>)>, e: int)
    requires
        0 <= e < entries.len(),
    ensures
        flatten(entries.take(e + 1)) == flatten(entries.take(e)) + items_of(
            entries[e].0,
            entries[e].1,
        ),
{
    let longer = entries.take(e + 1);
    assert(longer.drop_last() =~= entries.take(e));
    assert(longer.last() == entries[e]);
    assert(flatten(longer) =~= flatten(entries.take(e)) + items_of(entries[e].0, entries[e].1));
}

proof fn lemma_flatten_prefix(entries: Seq<(u16, Seq<Seq<u8>>)>, e: int)
    requires
        0 <= e <= entries.len(),
    ensures
        flatten(entries.take(e)).len() <= flatten(entries).len(),
        flatten(entries).subrange(0, flatten(entries.take(e)).len() as int) == flatten(
            entries.take(e),
        ),
    decreases entries.len() - e,
{
    let whole = flatten(entries);
    if e == entries.len() {
        assert(entries.take(e) =~= entries);
        assert(whole.subrange(0, whole.len() as int) =~= whole);
    } else {
        lemma_flatten_prefix(entries, e + 1);
        lemma_flatten_step(entries, e);
        let part = flatten(entries.take(e));
        let longer = flatten(entries.take(e + 1));
        assert(whole.subrange(0, part.len() as int) =~= part) by {
            assert forall|i: int| 0 <= i < part.len() implies whole[i] == part[i] by {
                assert(whole.subrange(0, longer.len() as int)[i] == whole[i]);
                assert(longer[i] == part[i]);
            }
        }
    }
}

/// A walk over the options of a message: entry after entry in ascending
/// order of the option numbers, and within an entry value after value.
pub struct MessageOptionAdapter<'a> {
    options: &'a OptionMap,
    entry: usize,
    index: usize,
}

impl<'a> MessageOptionAdapter<'a> {
    #[verifier::type_invariant]
    spec fn well_formed(self) -> bool {
        &&& self.entry <= self.options@.len()
        &&& self.entry < self.options@.len() ==> self.index <= self.options@[self.entry as int].1.len()
        &&& self.entry == self.options@.len() ==> self.index == 0
    }

    /// The options that the walk goes over, in its order.
    pub closed spec fn items(self) -> Seq<(u16, Seq<u8>)> {
        flatten(self.options@)
    }

    /// The number of options that the walk has passed.
    pub closed spec fn position(self) -> int {
        flatten(self.options@.take(self.entry as int)).len() + self.index
    }

    /// Starts a walk over the options of `packet`.
    pub fn new(packet: &'a Packet) -> (walk: Self)
        ensures
            walk.items() == flatten(packet.options@),
            walk.position() == 0,
    {
        assert(packet.options@.take(0) =~= Seq::<(u16, Seq<Seq<u8>>)>::empty());
        MessageOptionAdapter { options: &packet.options, entry: 0, index: 0 }
    }

    /// The next option of the walk, none behind the last.
    pub fn next(&mut self) -> (r: Option<MessageOption<'a>>)
        ensures
            final(self).items() == old(self).items(),
            0 <= old(self).position() <= old(self).items().len(),
            match r {
                Some(option) => {
                    &&& old(self).position() < old(self).items().len()
                    &&& (option.spec_number(), option.spec_value()) == old(self).items()[old(self).position()]
                    &&& final(self).position() == old(self).position() + 1
                },
                None => {
                    &&& old(self).position() == old(self).items().len()
                    &&& final(self).position() == old(self).position()
                },
            },
    {
        proof {
            use_type_invariant(&*self);
        }
        let options: &'a OptionMap = self.options;
        let ghost entries = options@;
        let ghost start = self.position();
        let count = options.len();
        let mut entry = self.entry;
        let mut index = self.index;
        proof {
            lemma_flatten_prefix(entries, entry as int);
        }
        while entry < count
            invariant
                options == old(self).options,
                start == old(self).position(),
                entries == options@,
                count == entries.len(),
                entry <= count,
                entry < count ==> index <= entries[entry as int].1.len(),
                entry == count ==> index == 0,
                start == flatten(entries.take(entry as int)).len() + index,
            decreases count - entry,
        {
            let values = options.values_at(entry);
            proof {
                lemma_flatten_step(entries, entry as int);
                lemma_flatten_prefix(entries, entry + 1);
            }
            if index < values.len() {
                let number = options.number_at(entry);
                let value: &'a [u8] = values[index].as_slice();
                proof {
                    let part = flatten(entries.take(entry as int));
                    let longer = flatten(entries.take(entry + 1));
                    let whole = flatten(entries);
                    assert(longer[start] == (number, value@)) by {
                        assert(items_of(entries[entry as int].0, entries[entry as int].1)[index as int]
                            == (number, values_view(*values)[index as int]));
                    }
                    assert(whole.subrange(0, longer.len() as int)[start] == whole[start]);
                }
                *self = MessageOptionAdapter { options, entry, index: index + 1 };
                return Some(MessageOption { number, value });
            }
            entry = entry + 1;
            index = 0;
        }
        proof {
            assert(entries.take(entry as int) =~= entries);
        }
        *self = MessageOptionAdapter { options, entry, index };
        None
    }
}

} // verus!
