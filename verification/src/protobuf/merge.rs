//! Reading of messages field by field.

use crate::protobuf::wire::{
    delimited_field, field_views, fields, lemma_delimited_field, lemma_varint_field, read_fields,
    varint_field, Field, FieldView, ValueView, MAX_LENGTH,
};
use vstd::prelude::*;

verus! {

/// A message that is read field by field.
pub trait MergeFields: Sized {
    /// What the message says.
    type Says;

    /// What the message says.
    spec fn says(&self) -> Self::Says;

    /// What a message says after a field was read, where the field can be.
    spec fn after_field(before: Self::Says, field: FieldView) -> Option<Self::Says>;

    /// Reads a field. Returns whether that was possible.
    fn merge_field(&mut self, field: &Field) -> (r: bool)
        ensures
            match Self::after_field(old(self).says(), field@) {
                Some(s) => r && final(self).says() == s,
                None => !r,
            },
    ;
}

/// What a message says after a list of fields was read, where they can be.
pub open spec fn after_fields<M: MergeFields>(before: M::Says, fs: Seq<FieldView>) -> Option<M::Says>
    decreases fs.len(),
{
    if fs.len() == 0 {
        Some(before)
    } else {
        match after_fields::<M>(before, fs.drop_last()) {
            Some(s) => M::after_field(s, fs.last()),
            None => None,
        }
    }
}

/// What a message says after bytes were read, where they can be and groups are nested at most `max`
/// deep in them.
pub open spec fn after_bytes<M: MergeFields>(before: M::Says, b: Seq<u8>, max: nat) -> Option<
    M::Says,
> {
    match fields(b, Seq::empty(), max) {
        Some(fs) => after_fields::<M>(before, fs),
        None => None,
    }
}

/// Fields that cannot be read stay so when more follow.
proof fn lemma_stays_unreadable<M: MergeFields>(before: M::Says, fs: Seq<FieldView>, i: int)
    requires
        0 <= i <= fs.len(),
        after_fields::<M>(before, fs.take(i)) is None,
    ensures
        after_fields::<M>(before, fs) is None,
    decreases fs.len() - i,
{
    if i == fs.len() {
        assert(fs.take(i) =~= fs);
    } else {
        assert(fs.take(i + 1).drop_last() =~= fs.take(i));
        lemma_stays_unreadable::<M>(before, fs, i + 1);
    }
}

/// Reads the fields in bytes, in which groups are nested at most `max` deep, into a message. Returns
/// whether that was possible.
pub fn merge_bytes<M: MergeFields>(message: &mut M, b: &[u8], max: usize) -> (r: bool)
    ensures
        match after_bytes::<M>(old(message).says(), b@, max as nat) {
            Some(s) => r && final(message).says() == s,
            None => !r,
        },
{
    let ghost before = message.says();
    let list = match read_fields(b, max) {
        Some(list) => list,
        None => {
            return false;
        },
    };
    let ghost fs = field_views(list@);
    let mut i: usize = 0;
    assert(fs.take(0) =~= Seq::empty());
    while i < list.len()
        invariant
            i <= list@.len(),
            fs == field_views(list@),
            fields(b@, Seq::empty(), max as nat) == Some(fs),
            before == old(message).says(),
            after_fields::<M>(before, fs.take(i as int)) == Some(message.says()),
        decreases list@.len() - i,
    {
        proof {
            assert(fs.take(i + 1).drop_last() =~= fs.take(i as int));
            assert(fs.take(i + 1).last() == list@[i as int]@);
        }
        if !message.merge_field(&list[i]) {
            proof {
                lemma_stays_unreadable::<M>(before, fs, i + 1);
            }
            return false;
        }
        i += 1;
    }
    assert(fs.take(i as int) =~= fs);
    true
}

/// One field in front of others is read before them.
proof fn lemma_first_field<M: MergeFields>(before: M::Says, f: FieldView, fs: Seq<FieldView>)
    ensures
        after_fields::<M>(before, seq![f] + fs) == (match M::after_field(before, f) {
            Some(s) => after_fields::<M>(s, fs),
            None => None,
        }),
    decreases fs.len(),
{
    let all = seq![f] + fs;
    if fs.len() == 0 {
        assert(all.drop_last() =~= Seq::empty());
        assert(after_fields::<M>(before, all.drop_last()) == Some(before));
        assert(all.last() == f);
    } else {
        lemma_first_field::<M>(before, f, fs.drop_last());
        assert(all.drop_last() =~= seq![f] + fs.drop_last());
        assert(all.last() == fs.last());
    }
}

/// A field with a number in front of other bytes is read first, and then these.
pub proof fn law_number_is_merged<M: MergeFields>(
    before: M::Says,
    number: nat,
    v: nat,
    rest: Seq<u8>,
    max: nat,
)
    requires
        1 <= number < 16,
        v < 0x1_0000_0000_0000_0000,
        fields(rest, Seq::empty(), max) is Some,
    ensures
        after_bytes::<M>(before, varint_field(number, v) + rest, max) == (match M::after_field(
            before,
            FieldView { number, value: ValueView::Varint(v) },
        ) {
            Some(s) => after_bytes::<M>(s, rest, max),
            None => None,
        }),
        fields(varint_field(number, v) + rest, Seq::empty(), max) is Some,
{
    lemma_varint_field(number, v, rest, max);
    lemma_first_field::<M>(
        before,
        FieldView { number, value: ValueView::Varint(v) },
        fields(rest, Seq::empty(), max)->Some_0,
    );
}

/// A field with bytes in front of other bytes is read first, and then these.
pub proof fn law_bytes_are_merged<M: MergeFields>(
    before: M::Says,
    number: nat,
    b: Seq<u8>,
    rest: Seq<u8>,
    max: nat,
)
    requires
        1 <= number < 15,
        b.len() <= MAX_LENGTH,
        fields(rest, Seq::empty(), max) is Some,
    ensures
        after_bytes::<M>(before, delimited_field(number, b) + rest, max) == (match M::after_field(
            before,
            FieldView { number, value: ValueView::Delimited(b) },
        ) {
            Some(s) => after_bytes::<M>(s, rest, max),
            None => None,
        }),
        fields(delimited_field(number, b) + rest, Seq::empty(), max) is Some,
{
    lemma_delimited_field(number, b, rest, max);
    lemma_first_field::<M>(
        before,
        FieldView { number, value: ValueView::Delimited(b) },
        fields(rest, Seq::empty(), max)->Some_0,
    );
}

/// Without bytes, nothing changes.
pub proof fn law_nothing_is_merged<M: MergeFields>(before: M::Says, max: nat)
    ensures
        after_bytes::<M>(before, Seq::empty(), max) == Some(before),
        fields(Seq::empty(), Seq::empty(), max) is Some,
{
}

} // verus!
