use vstd::prelude::*;
use crate::decode::string_token_text;
use crate::formatter::FormatterModel;
use crate::property::{
    collect, lemma_collect_sorted, object_text, property_of, sorted, PropertyModel,
};
use crate::sort_key::utf16_units;

verus! {

/// One object member as it arrives: its rendered key and its rendered value.
pub struct MemberText {
    pub key: Seq<u8>,
    pub value: Seq<u8>,
}

impl MemberText {
    /// Whether the key token denotes a text.
    pub open spec fn decodes(self) -> bool {
        string_token_text(self.key).is_some()
    }

    /// The member that the formatter makes of a key token that decodes.
    pub open spec fn property(self) -> PropertyModel {
        PropertyModel {
            sort_key: utf16_units(string_token_text(self.key).unwrap()),
            key: self.key,
            value: self.value,
        }
    }
}

/// The members that a sequence of arriving members stands for.
pub open spec fn properties(members: Seq<MemberText>) -> Seq<PropertyModel> {
    members.map_values(|m: MemberText| m.property())
}

impl FormatterModel {
    /// The state after the events of one member: the key is opened, written
    /// and closed, then the value is opened, written and closed.
    pub open spec fn member(self, text: MemberText) -> FormatterModel {
        self.open_buffer().write(text.key).stash_key().open_buffer().write(
            text.value,
        ).close_value(string_token_text(text.key))
    }

    /// The state after the events of several members, one after another.
    pub open spec fn members(self, texts: Seq<MemberText>) -> FormatterModel
        decreases texts.len(),
    {
        if texts.len() == 0 {
            self
        } else {
            self.members(texts.drop_last()).member(texts.last())
        }
    }
}

/// Writing in two steps is writing the concatenation, for the state and for
/// the output alike.
pub proof fn lemma_write_twice(m: FormatterModel, out: Seq<u8>, a: Seq<u8>, b: Seq<u8>)
    ensures
        m.write(a).write(b) == m.write(a + b),
        m.write(a).write_out(m.write_out(out, a), b) == m.write_out(out, a + b),
{
    if m.buffers.len() > 0 {
        assert((m.buffers.last() + a) + b =~= m.buffers.last() + (a + b));
        assert(m.write(a).write(b).buffers =~= m.write(a + b).buffers);
    } else {
        assert((out + a) + b =~= out + (a + b));
    }
}

/// The events of one member, in an open object, offer that member to the
/// object and leave the rest of the state as it was; a key token that does not
/// decode leaves all of it as it was.
pub proof fn lemma_member(m: FormatterModel, text: MemberText)
    requires
        m.objects.len() > 0,
    ensures
        text.decodes() ==> m.member(text) == m.offer(text.property()),
        !text.decodes() ==> m.member(text) == m,
        m.open_buffer().write(text.key).stash_key().open_buffer().write(
            text.value,
        ).close_value_result(string_token_text(text.key)) == (if text.decodes() {
            Ok::<(), crate::error::JcsError>(())
        } else {
            Err::<(), crate::error::JcsError>(crate::error::JcsError::InvalidKeyEncoding)
        }),
{
    let keyed = m.open_buffer().write(text.key);
    assert(keyed.buffers =~= m.buffers.push(text.key));
    let stashed = keyed.stash_key();
    assert(stashed.buffers =~= m.buffers);
    assert(stashed.keys =~= m.keys.push(text.key));
    let valued = stashed.open_buffer().write(text.value);
    assert(valued.buffers =~= m.buffers.push(text.value));
    let bare = valued.drop_buffer().drop_key();
    assert(bare.buffers =~= m.buffers);
    assert(bare.keys =~= m.keys);
    assert(bare == m);
    assert(property_of(string_token_text(text.key), valued.keys.last(), valued.buffers.last())
        == property_of(string_token_text(text.key), text.key, text.value));
}

/// The events of several members, all with keys that decode, leave in the
/// innermost object what it retains of them, and the rest of the state as it
/// was.
pub proof fn lemma_members(m: FormatterModel, texts: Seq<MemberText>)
    requires
        forall|i: int| 0 <= i < texts.len() ==> (#[trigger] texts[i]).decodes(),
    ensures
        m.open_object().members(texts) == (FormatterModel {
            objects: m.objects.push(collect(properties(texts))),
            ..m
        }),
    decreases texts.len(),
{
    if texts.len() == 0 {
        assert(properties(texts) =~= Seq::<PropertyModel>::empty());
    } else {
        let head = texts.drop_last();
        let last = texts.last();
        assert forall|i: int| 0 <= i < head.len() implies (#[trigger] head[i]).decodes() by {
            assert(head[i] == texts[i]);
        }
        lemma_members(m, head);
        let before = m.open_object().members(head);
        assert(last == texts[texts.len() - 1]);
        lemma_member(before, last);
        assert(properties(texts).drop_last() =~= properties(head));
        assert(properties(texts).last() == last.property());
        assert(before.offer(last.property()).objects =~= m.objects.push(
            collect(properties(texts)),
        ));
    }
}

/// An object from its opening to its close, whatever the order in which its
/// members arrive: nothing is written before the close; the close writes, to
/// the sink that was active when the object opened, the members retained,
/// first writers only, in strictly ascending order of the UTF-16 code units of
/// their decoded names; and the state is otherwise as before the object.
pub proof fn lemma_object(m: FormatterModel, out: Seq<u8>, texts: Seq<MemberText>)
    requires
        forall|i: int| 0 <= i < texts.len() ==> (#[trigger] texts[i]).decodes(),
    ensures
        sorted(collect(properties(texts))),
        m.open_object().members(texts).close_object() == m.write(
            object_text(collect(properties(texts))),
        ),
        m.open_object().members(texts).close_object_out(out) == m.write_out(
            out,
            object_text(collect(properties(texts))),
        ),
{
    lemma_collect_sorted(properties(texts));
    lemma_members(m, texts);
    let open = m.open_object().members(texts);
    assert(open.drop_object().objects =~= m.objects);
    assert(open.drop_object() == m);
}

} // verus!
