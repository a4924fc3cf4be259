use vstd::prelude::*;
use vstd::utf8::{pop_first_scalar, valid_utf8, valid_utf8_concat};
use crate::ascii::{COLON, COMMA, LEFT_BRACE, RIGHT_BRACE};
use crate::escape::{escape_text, hex_digit, CharEscape};
use crate::formatter::{bool_text, null_text, FormatterModel};
use crate::property::{
    insert_property, lemma_insert_contains, members_text, object_text, property_of, PropertyModel,
};

verus! {

/// Every byte is an ASCII character.
pub open spec fn is_ascii_bytes(bytes: Seq<u8>) -> bool {
    forall|i: int| 0 <= i < bytes.len() ==> #[trigger] bytes[i] < 0x80
}

/// ASCII text is well-formed UTF-8.
pub proof fn lemma_ascii_is_utf8(bytes: Seq<u8>)
    requires
        is_ascii_bytes(bytes),
    ensures
        valid_utf8(bytes),
    decreases bytes.len(),
{
    if bytes.len() > 0 {
        let first = bytes[0];
        assert(first & 0x7f < 0x80) by (bit_vector)
            requires
                first < 0x80,
        ;
        let rest = bytes.subrange(1, bytes.len() as int);
        assert(pop_first_scalar(bytes) == rest);
        assert forall|i: int| 0 <= i < rest.len() implies #[trigger] rest[i] < 0x80 by {
            assert(rest[i] == bytes[i + 1]);
        }
        lemma_ascii_is_utf8(rest);
    }
}

/// What the formatter writes for `null`, `true`, `false` and for the
/// punctuation is well-formed UTF-8.
pub proof fn lemma_literals_are_utf8()
    ensures
        valid_utf8(null_text()),
        valid_utf8(bool_text(true)),
        valid_utf8(bool_text(false)),
        forall|byte: u8| byte < 0x80 ==> valid_utf8(#[trigger] seq![byte]),
{
    lemma_ascii_is_utf8(null_text());
    lemma_ascii_is_utf8(bool_text(true));
    lemma_ascii_is_utf8(bool_text(false));
    assert forall|byte: u8| byte < 0x80 implies valid_utf8(#[trigger] seq![byte]) by {
        lemma_ascii_is_utf8(seq![byte]);
    }
}

/// Every escape is ASCII text, and so well-formed UTF-8.
pub proof fn lemma_escape_is_utf8(escape: CharEscape)
    ensures
        is_ascii_bytes(escape_text(escape)),
        valid_utf8(escape_text(escape)),
{
    match escape {
        CharEscape::AsciiControl(byte) => {
            assert(hex_digit(byte / 16) < 0x80);
            assert(hex_digit(byte % 16) < 0x80);
        },
        _ => {},
    }
    lemma_ascii_is_utf8(escape_text(escape));
}

/// Key and value of a member are well-formed UTF-8.
pub open spec fn property_is_utf8(p: PropertyModel) -> bool {
    valid_utf8(p.key) && valid_utf8(p.value)
}

/// Every member of an object is well-formed UTF-8.
pub open spec fn object_is_utf8(props: Seq<PropertyModel>) -> bool {
    forall|i: int| 0 <= i < props.len() ==> property_is_utf8(#[trigger] props[i])
}

/// Every buffer of a stack is well-formed UTF-8.
pub open spec fn stack_is_utf8(stack: Seq<Seq<u8>>) -> bool {
    forall|i: int| 0 <= i < stack.len() ==> valid_utf8(#[trigger] stack[i])
}

impl FormatterModel {
    /// Everything that the formatter holds is well-formed UTF-8.
    pub open spec fn is_utf8(self) -> bool {
        &&& stack_is_utf8(self.buffers)
        &&& stack_is_utf8(self.keys)
        &&& forall|i: int| 0 <= i < self.objects.len() ==> object_is_utf8(#[trigger] self.objects[i])
    }
}

proof fn lemma_members_text_is_utf8(props: Seq<PropertyModel>)
    requires
        object_is_utf8(props),
    ensures
        valid_utf8(members_text(props)),
    decreases props.len(),
{
    if props.len() > 0 {
        let head = props.drop_last();
        assert forall|i: int| 0 <= i < head.len() implies property_is_utf8(#[trigger] head[i]) by {
            assert(head[i] == props[i]);
        }
        lemma_members_text_is_utf8(head);
        lemma_literals_are_utf8();
        let last = props[props.len() - 1];
        assert(property_is_utf8(last));
        let separator: Seq<u8> = if props.len() == 1 {
            Seq::empty()
        } else {
            seq![COMMA]
        };
        assert(valid_utf8(separator));
        valid_utf8_concat(members_text(head), separator);
        valid_utf8_concat(members_text(head) + separator, last.key);
        valid_utf8_concat(members_text(head) + separator + last.key, seq![COLON]);
        valid_utf8_concat(members_text(head) + separator + last.key + seq![COLON], last.value);
    }
}

/// The text of an object whose members are well-formed UTF-8 is well-formed
/// UTF-8.
pub proof fn lemma_object_text_is_utf8(props: Seq<PropertyModel>)
    requires
        object_is_utf8(props),
    ensures
        valid_utf8(object_text(props)),
{
    lemma_members_text_is_utf8(props);
    lemma_literals_are_utf8();
    valid_utf8_concat(seq![LEFT_BRACE], members_text(props));
    valid_utf8_concat(seq![LEFT_BRACE] + members_text(props), seq![RIGHT_BRACE]);
}

/// Writing well-formed UTF-8 keeps the state and the output well-formed.
pub proof fn lemma_write_keeps_utf8(m: FormatterModel, out: Seq<u8>, bytes: Seq<u8>)
    requires
        m.is_utf8(),
        valid_utf8(out),
        valid_utf8(bytes),
    ensures
        m.write(bytes).is_utf8(),
        valid_utf8(m.write_out(out, bytes)),
{
    if m.buffers.len() > 0 {
        assert(valid_utf8(m.buffers[m.buffers.len() - 1]));
        valid_utf8_concat(m.buffers.last(), bytes);
    } else {
        valid_utf8_concat(out, bytes);
    }
}

/// Opening and closing keys, values and objects keeps the state and the
/// output well-formed UTF-8: the formatter never makes ill-formed text of
/// well-formed parts.
pub proof fn lemma_structure_keeps_utf8(m: FormatterModel, out: Seq<u8>, decoded: Option<Seq<char>>)
    requires
        m.is_utf8(),
        valid_utf8(out),
    ensures
        m.open_buffer().is_utf8(),
        m.buffers.len() > 0 ==> m.stash_key().is_utf8(),
        m.close_value(decoded).is_utf8(),
        m.open_object().is_utf8(),
        m.objects.len() > 0 ==> m.close_object().is_utf8() && valid_utf8(m.close_object_out(out)),
{
    assert(valid_utf8(Seq::<u8>::empty()));
    if m.buffers.len() > 0 {
        assert(valid_utf8(m.buffers[m.buffers.len() - 1]));
        if m.keys.len() > 0 {
            assert(valid_utf8(m.keys[m.keys.len() - 1]));
            if m.objects.len() > 0 {
                match property_of(decoded, m.keys.last(), m.buffers.last()) {
                    Ok(property) => {
                        let object = m.objects[m.objects.len() - 1];
                        let after = insert_property(object, property);
                        assert(object_is_utf8(object));
                        assert forall|i: int| 0 <= i < after.len() implies property_is_utf8(
                            #[trigger] after[i],
                        ) by {
                            lemma_insert_contains(object, property, after[i]);
                            if object.contains(after[i]) {
                                let j = choose|j: int| 0 <= j < object.len() && object[j] == after[i];
                                assert(property_is_utf8(object[j]));
                            }
                        }
                    },
                    Err(_) => {},
                }
            }
        }
    }
    if m.objects.len() > 0 {
        let object = m.objects[m.objects.len() - 1];
        assert(object_is_utf8(object));
        lemma_object_text_is_utf8(object);
        assert(m.drop_object().is_utf8());
        lemma_write_keeps_utf8(m.drop_object(), out, object_text(object));
    }
}

} // verus!
