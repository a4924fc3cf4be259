use vstd::prelude::*;
use vstd::string::StringSliceAdditionalSpecFns;
use crate::ascii::{
    COMMA, LEFT_BRACKET, LOWER_A, LOWER_E, LOWER_F, LOWER_L, LOWER_N, LOWER_R, LOWER_S, LOWER_T,
    LOWER_U, QUOTE, RIGHT_BRACKET,
};
use crate::decode::{decode_string_token, string_token_text, text_of};
use crate::error::JcsError;
use crate::escape::{escape_bytes, escape_text, CharEscape};
use crate::number::{double_is_finite, is_finite_double};
use crate::property::{
    insert_property, object_text, property_of, sorted, JsonObject, JsonProperty, PropertyModel,
};

verus! {

/// The formatter's state as the contracts see it: three stacks, the innermost
/// entry last.
pub struct FormatterModel {
    /// The members retained so far by each object that is still open.
    pub objects: Seq<Seq<PropertyModel>>,
    /// The rendered keys that still wait for their values.
    pub keys: Seq<Seq<u8>>,
    /// What has been captured for each key or value that is being rendered.
    pub buffers: Seq<Seq<u8>>,
}

impl FormatterModel {
    /// The state before any event.
    pub open spec fn empty() -> FormatterModel {
        FormatterModel { objects: Seq::empty(), keys: Seq::empty(), buffers: Seq::empty() }
    }

    /// The content of the sink that is active: the innermost buffer, or the
    /// output `out` where no buffer is open.
    pub open spec fn sink(self, out: Seq<u8>) -> Seq<u8> {
        if self.buffers.len() == 0 {
            out
        } else {
            self.buffers.last()
        }
    }

    /// The state once the innermost buffer, if there is one, holds `content`.
    pub open spec fn with_sink(self, content: Seq<u8>) -> FormatterModel {
        if self.buffers.len() == 0 {
            self
        } else {
            FormatterModel {
                buffers: self.buffers.update(self.buffers.len() - 1, content),
                ..self
            }
        }
    }

    /// The state once `bytes` have been written: they are appended to the
    /// innermost buffer, if there is one.
    pub open spec fn write(self, bytes: Seq<u8>) -> FormatterModel {
        if self.buffers.len() == 0 {
            self
        } else {
            self.with_sink(self.buffers.last() + bytes)
        }
    }

    /// The output once `bytes` have been written: they are appended to it
    /// where no buffer is open, and leave it as it is otherwise.
    pub open spec fn write_out(self, out: Seq<u8>, bytes: Seq<u8>) -> Seq<u8> {
        if self.buffers.len() == 0 {
            out + bytes
        } else {
            out
        }
    }

    /// The state with a fresh, empty buffer on top.
    pub open spec fn open_buffer(self) -> FormatterModel {
        FormatterModel { buffers: self.buffers.push(Seq::empty()), ..self }
    }

    /// The state without its innermost buffer.
    pub open spec fn drop_buffer(self) -> FormatterModel {
        FormatterModel { buffers: self.buffers.drop_last(), ..self }
    }

    /// The state without its innermost pending key.
    pub open spec fn drop_key(self) -> FormatterModel {
        FormatterModel { keys: self.keys.drop_last(), ..self }
    }

    /// The state without its innermost object.
    pub open spec fn drop_object(self) -> FormatterModel {
        FormatterModel { objects: self.objects.drop_last(), ..self }
    }

    /// The state with a new, empty object on top.
    pub open spec fn open_object(self) -> FormatterModel {
        FormatterModel { objects: self.objects.push(Seq::empty()), ..self }
    }

    /// The state once the innermost object has closed: it is gone from the
    /// stack, and its text has been written.
    pub open spec fn close_object(self) -> FormatterModel {
        self.drop_object().write(object_text(self.objects.last()))
    }

    /// The output once the innermost object has closed.
    pub open spec fn close_object_out(self, out: Seq<u8>) -> Seq<u8> {
        self.write_out(out, object_text(self.objects.last()))
    }

    /// The state once the innermost buffer has become the pending key.
    pub open spec fn stash_key(self) -> FormatterModel {
        FormatterModel {
            keys: self.keys.push(self.buffers.last()),
            buffers: self.buffers.drop_last(),
            ..self
        }
    }

    /// The state once `property` has been offered to the innermost object.
    pub open spec fn offer(self, property: PropertyModel) -> FormatterModel {
        FormatterModel {
            objects: self.objects.update(
                self.objects.len() - 1,
                insert_property(self.objects.last(), property),
            ),
            ..self
        }
    }

    /// The state in which the close of an object value leaves the formatter.
    /// The innermost buffer is the value and the innermost pending key its
    /// key; `decoded` is the text that the key token denotes, if it denotes
    /// one. What is missing is looked for in this order: the buffer, the key,
    /// the object; what was found before is gone from the state.
    pub open spec fn close_value(self, decoded: Option<Seq<char>>) -> FormatterModel {
        if self.buffers.len() == 0 {
            self
        } else if self.keys.len() == 0 {
            self.drop_buffer()
        } else if self.objects.len() == 0 {
            self.drop_buffer().drop_key()
        } else {
            match property_of(decoded, self.keys.last(), self.buffers.last()) {
                Ok(property) => self.drop_buffer().drop_key().offer(property),
                Err(_) => self.drop_buffer().drop_key(),
            }
        }
    }

    /// What the close of an object value reports.
    pub open spec fn close_value_result(self, decoded: Option<Seq<char>>) -> Result<(), JcsError> {
        if self.buffers.len() == 0 || self.keys.len() == 0 || self.objects.len() == 0 {
            Err(JcsError::StructuralMismatch)
        } else if decoded.is_none() {
            Err(JcsError::InvalidKeyEncoding)
        } else {
            Ok(())
        }
    }
}

/// The text `null`.
pub open spec fn null_text() -> Seq<u8> {
    seq![LOWER_N, LOWER_U, LOWER_L, LOWER_L]
}

/// The text `true` or `false`.
pub open spec fn bool_text(value: bool) -> Seq<u8> {
    if value {
        seq![LOWER_T, LOWER_R, LOWER_U, LOWER_E]
    } else {
        seq![LOWER_F, LOWER_A, LOWER_L, LOWER_S, LOWER_E]
    }
}

/// What each of a stack of byte buffers holds.
pub open spec fn contents(stack: Seq<Vec<u8>>) -> Seq<Seq<u8>> {
    stack.map_values(|b: Vec<u8>| b@)
}

/// The canonical formatter: it takes the events of one serialization and
/// writes canonical JSON to the sink that is active, which is the innermost
/// open buffer or, where none is open, the output handed in with the event.
pub struct JcsFormatter {
    objects: Vec<JsonObject>,
    keys: Vec<Vec<u8>>,
    buffers: Vec<Vec<u8>>,
}

impl View for JcsFormatter {
    type V = FormatterModel;

    closed spec fn view(&self) -> FormatterModel {
        FormatterModel {
            objects: self.objects@.map_values(|o: JsonObject| o@),
            keys: contents(self.keys@),
            buffers: contents(self.buffers@),
        }
    }
}

impl Default for JcsFormatter {
    fn default() -> (formatter: JcsFormatter)
        ensures
            formatter@ == FormatterModel::empty(),
    {
        JcsFormatter::new()
    }
}

impl JcsFormatter {
    /// A formatter that has seen no event.
    pub fn new() -> (formatter: JcsFormatter)
        ensures
            formatter@ == FormatterModel::empty(),
    {
        let formatter = JcsFormatter { objects: Vec::new(), keys: Vec::new(), buffers: Vec::new() };
        assert(formatter@.objects =~= Seq::empty());
        assert(formatter@.keys =~= Seq::empty());
        assert(formatter@.buffers =~= Seq::empty());
        formatter
    }

    /// The number of objects that are open.
    pub fn open_objects(&self) -> (n: usize)
        ensures
            n == self@.objects.len(),
    {
        self.objects.len()
    }

    /// The number of keys and values that are being captured.
    pub fn open_buffers(&self) -> (n: usize)
        ensures
            n == self@.buffers.len(),
    {
        self.buffers.len()
    }

    /// The sink that is active: the innermost open buffer, or `writer` where
    /// no buffer is open. What the caller appends to it ends up in the
    /// formatter's state or in `writer` accordingly.
    pub fn get_writer<'a>(&'a mut self, writer: &'a mut Vec<u8>) -> (sink: &'a mut Vec<u8>)
        ensures
            sink@ == old(self)@.sink(old(writer)@),
            final(self)@ == old(self)@.with_sink(final(sink)@),
            final(writer)@ == (if old(self)@.buffers.len() == 0 {
                final(sink)@
            } else {
                old(writer)@
            }),
    {
        let depth: usize = self.buffers.len();
        if depth > 0 {
            assert forall|content: Vec<u8>|
                #[trigger] contents(self.buffers@.update(depth - 1, content)) == contents(
                    self.buffers@,
                ).update(depth - 1, content@) by {
                assert(contents(self.buffers@.update(depth - 1, content)) =~= contents(
                    self.buffers@,
                ).update(depth - 1, content@));
            }
            &mut self.buffers[depth - 1]
        } else {
            writer
        }
    }

    fn append(&mut self, writer: &mut Vec<u8>, bytes: &[u8])
        ensures
            final(self)@ == old(self)@.write(bytes@),
            final(writer)@ == old(self)@.write_out(old(writer)@, bytes@),
    {
        let sink = self.get_writer(writer);
        let ghost before = sink@;
        sink.extend_from_slice(bytes);
        assert(sink@ =~= before + bytes@);
    }

    /// Writes `null`.
    pub fn write_null(&mut self, writer: &mut Vec<u8>) -> (r: Result<(), JcsError>)
        ensures
            r.is_ok(),
            final(self)@ == old(self)@.write(null_text()),
            final(writer)@ == old(self)@.write_out(old(writer)@, null_text()),
    {
        let text: Vec<u8> = vec![LOWER_N, LOWER_U, LOWER_L, LOWER_L];
        assert(text@ =~= null_text());
        self.append(writer, text.as_slice());
        Ok(())
    }

    /// Writes `true` or `false`.
    pub fn write_bool(&mut self, writer: &mut Vec<u8>, value: bool) -> (r: Result<(), JcsError>)
        ensures
            r.is_ok(),
            final(self)@ == old(self)@.write(bool_text(value)),
            final(writer)@ == old(self)@.write_out(old(writer)@, bool_text(value)),
    {
        let text: Vec<u8> = if value {
            vec![LOWER_T, LOWER_R, LOWER_U, LOWER_E]
        } else {
            vec![LOWER_F, LOWER_A, LOWER_L, LOWER_S, LOWER_E]
        };
        assert(text@ =~= bool_text(value));
        self.append(writer, text.as_slice());
        Ok(())
    }

    /// Writes a double, given by its IEEE-754 bits and by `shortest`, the
    /// shortest decimal text that reads back as that double. NaN and the
    /// infinities are refused, and nothing is written for them.
    pub fn write_f64(&mut self, writer: &mut Vec<u8>, bits: u64, shortest: &str) -> (r: Result<
        (),
        JcsError,
    >)
        ensures
            is_finite_double(bits) ==> r.is_ok() && final(self)@ == old(self)@.write(
                shortest.spec_bytes(),
            ) && final(writer)@ == old(self)@.write_out(old(writer)@, shortest.spec_bytes()),
            !is_finite_double(bits) ==> r == Err::<(), JcsError>(JcsError::NonFiniteNumber)
                && final(self)@ == old(self)@ && final(writer)@ == old(writer)@,
    {
        if double_is_finite(bits) {
            self.append(writer, shortest.as_bytes());
            Ok(())
        } else {
            Err(JcsError::NonFiniteNumber)
        }
    }

    /// Writes a number that arrived as text. `parsed` holds the bits of the
    /// double that the text reads as, or nothing where it reads as none;
    /// `shortest` is the shortest decimal text of that double. The number
    /// goes the way of every other double.
    pub fn write_number_str(
        &mut self,
        writer: &mut Vec<u8>,
        parsed: Option<u64>,
        shortest: &str,
    ) -> (r: Result<(), JcsError>)
        ensures
            parsed.is_none() ==> r == Err::<(), JcsError>(JcsError::UnparsableNumberText)
                && final(self)@ == old(self)@ && final(writer)@ == old(writer)@,
            parsed.is_some() && !is_finite_double(parsed.unwrap()) ==> r == Err::<(), JcsError>(
                JcsError::NonFiniteNumber,
            ) && final(self)@ == old(self)@ && final(writer)@ == old(writer)@,
            parsed.is_some() && is_finite_double(parsed.unwrap()) ==> r.is_ok() && final(self)@
                == old(self)@.write(shortest.spec_bytes()) && final(writer)@ == old(
                self,
            )@.write_out(old(writer)@, shortest.spec_bytes()),
    {
        match parsed {
            Some(bits) => self.write_f64(writer, bits, shortest),
            None => Err(JcsError::UnparsableNumberText),
        }
    }

    /// Opens a string: writes a quote.
    pub fn begin_string(&mut self, writer: &mut Vec<u8>) -> (r: Result<(), JcsError>)
        ensures
            r.is_ok(),
            final(self)@ == old(self)@.write(seq![QUOTE]),
            final(writer)@ == old(self)@.write_out(old(writer)@, seq![QUOTE]),
    {
        let text: Vec<u8> = vec![QUOTE];
        assert(text@ =~= seq![QUOTE]);
        self.append(writer, text.as_slice());
        Ok(())
    }

    /// Closes a string: writes a quote.
    pub fn end_string(&mut self, writer: &mut Vec<u8>) -> (r: Result<(), JcsError>)
        ensures
            r.is_ok(),
            final(self)@ == old(self)@.write(seq![QUOTE]),
            final(writer)@ == old(self)@.write_out(old(writer)@, seq![QUOTE]),
    {
        let text: Vec<u8> = vec![QUOTE];
        assert(text@ =~= seq![QUOTE]);
        self.append(writer, text.as_slice());
        Ok(())
    }

    /// Writes a run of characters that need no escape, as they are.
    pub fn write_string_fragment(&mut self, writer: &mut Vec<u8>, fragment: &str) -> (r: Result<
        (),
        JcsError,
    >)
        ensures
            r.is_ok(),
            final(self)@ == old(self)@.write(fragment.spec_bytes()),
            final(writer)@ == old(self)@.write_out(old(writer)@, fragment.spec_bytes()),
    {
        self.append(writer, fragment.as_bytes());
        Ok(())
    }

    /// Writes one escape. The solidus is written as itself, never escaped.
    pub fn write_char_escape(&mut self, writer: &mut Vec<u8>, char_escape: CharEscape) -> (r:
        Result<(), JcsError>)
        ensures
            r.is_ok(),
            final(self)@ == old(self)@.write(escape_text(char_escape)),
            final(writer)@ == old(self)@.write_out(old(writer)@, escape_text(char_escape)),
    {
        let text = escape_bytes(char_escape);
        self.append(writer, text.as_slice());
        Ok(())
    }

    /// Opens an array: writes `[`.
    pub fn begin_array(&mut self, writer: &mut Vec<u8>) -> (r: Result<(), JcsError>)
        ensures
            r.is_ok(),
            final(self)@ == old(self)@.write(seq![LEFT_BRACKET]),
            final(writer)@ == old(self)@.write_out(old(writer)@, seq![LEFT_BRACKET]),
    {
        let text: Vec<u8> = vec![LEFT_BRACKET];
        assert(text@ =~= seq![LEFT_BRACKET]);
        self.append(writer, text.as_slice());
        Ok(())
    }

    /// Closes an array: writes `]`.
    pub fn end_array(&mut self, writer: &mut Vec<u8>) -> (r: Result<(), JcsError>)
        ensures
            r.is_ok(),
            final(self)@ == old(self)@.write(seq![RIGHT_BRACKET]),
            final(writer)@ == old(self)@.write_out(old(writer)@, seq![RIGHT_BRACKET]),
    {
        let text: Vec<u8> = vec![RIGHT_BRACKET];
        assert(text@ =~= seq![RIGHT_BRACKET]);
        self.append(writer, text.as_slice());
        Ok(())
    }

    /// Comes before each element of an array: writes a comma unless the
    /// element is the first.
    pub fn begin_array_value(&mut self, writer: &mut Vec<u8>, first: bool) -> (r: Result<
        (),
        JcsError,
    >)
        ensures
            r.is_ok(),
            first ==> final(self)@ == old(self)@ && final(writer)@ == old(writer)@,
            !first ==> final(self)@ == old(self)@.write(seq![COMMA]) && final(writer)@ == old(
                self,
            )@.write_out(old(writer)@, seq![COMMA]),
    {
        if first {
            Ok(())
        } else {
            let text: Vec<u8> = vec![COMMA];
            assert(text@ =~= seq![COMMA]);
            self.append(writer, text.as_slice());
            Ok(())
        }
    }

    /// Comes after each element of an array: nothing is written.
    pub fn end_array_value(&mut self, writer: &mut Vec<u8>) -> (r: Result<(), JcsError>)
        ensures
            r.is_ok(),
            final(self)@ == old(self)@,
            final(writer)@ == old(writer)@,
    {
        Ok(())
    }

    /// Opens an object: a new, empty collection of members goes on the stack.
    /// Nothing is written before the object closes.
    pub fn begin_object(&mut self, writer: &mut Vec<u8>) -> (r: Result<(), JcsError>)
        ensures
            r.is_ok(),
            final(self)@ == old(self)@.open_object(),
            final(writer)@ == old(writer)@,
    {
        self.objects.push(JsonObject::new());
        assert(self@.objects =~= old(self)@.objects.push(Seq::empty()));
        assert(self@ == old(self)@.open_object());
        Ok(())
    }

    /// Closes the innermost object: its members are written to the active
    /// sink in ascending order of their sort keys, between braces. Without an
    /// open object the event is refused and nothing changes.
    pub fn end_object(&mut self, writer: &mut Vec<u8>) -> (r: Result<(), JcsError>)
        ensures
            old(self)@.objects.len() == 0 ==> r == Err::<(), JcsError>(
                JcsError::StructuralMismatch,
            ) && final(self)@ == old(self)@ && final(writer)@ == old(writer)@,
            old(self)@.objects.len() > 0 ==> r.is_ok() && final(self)@ == old(self)@.close_object()
                && final(writer)@ == old(self)@.close_object_out(old(writer)@) && sorted(
                old(self)@.objects.last(),
            ),
    {
        match self.objects.pop() {
            Some(object) => {
                assert(self@.objects =~= old(self)@.objects.drop_last());
                assert(self@ == old(self)@.drop_object());
                let text = object.render();
                self.append(writer, text.as_slice());
                Ok(())
            },
            None => Err(JcsError::StructuralMismatch),
        }
    }

    /// Opens an object key: a fresh buffer captures what is written next.
    pub fn begin_object_key(&mut self, writer: &mut Vec<u8>, first: bool) -> (r: Result<
        (),
        JcsError,
    >)
        ensures
            r.is_ok(),
            final(self)@ == old(self)@.open_buffer(),
            final(writer)@ == old(writer)@,
    {
        self.buffers.push(Vec::new());
        assert(self@.buffers =~= old(self)@.buffers.push(Seq::empty()));
        assert(self@ == old(self)@.open_buffer());
        Ok(())
    }

    /// Closes an object key: the innermost buffer becomes the pending key.
    /// Without an open buffer the event is refused and nothing changes.
    pub fn end_object_key(&mut self, writer: &mut Vec<u8>) -> (r: Result<(), JcsError>)
        ensures
            old(self)@.buffers.len() == 0 ==> r == Err::<(), JcsError>(
                JcsError::StructuralMismatch,
            ) && final(self)@ == old(self)@,
            old(self)@.buffers.len() > 0 ==> r.is_ok() && final(self)@ == old(self)@.stash_key(),
            final(writer)@ == old(writer)@,
    {
        match self.buffers.pop() {
            Some(key) => {
                self.keys.push(key);
                assert(self@.buffers =~= old(self)@.buffers.drop_last());
                assert(self@.keys =~= old(self)@.keys.push(old(self)@.buffers.last()));
                assert(self@ == old(self)@.stash_key());
                Ok(())
            },
            None => Err(JcsError::StructuralMismatch),
        }
    }

    /// Opens an object value: a fresh buffer captures what is written next.
    pub fn begin_object_value(&mut self, writer: &mut Vec<u8>) -> (r: Result<(), JcsError>)
        ensures
            r.is_ok(),
            final(self)@ == old(self)@.open_buffer(),
            final(writer)@ == old(writer)@,
    {
        self.buffers.push(Vec::new());
        assert(self@.buffers =~= old(self)@.buffers.push(Seq::empty()));
        assert(self@ == old(self)@.open_buffer());
        Ok(())
    }

    /// Closes an object value: the innermost buffer and the pending key make
    /// a member, which the innermost object takes unless it holds one with
    /// the same sort key already. A missing buffer, key or object is a
    /// structural error, a key token that denotes no text an encoding error.
    pub fn end_object_value(&mut self, writer: &mut Vec<u8>) -> (r: Result<(), JcsError>)
        ensures
            r == old(self)@.close_value_result(string_token_text(old(self)@.keys.last())),
            final(self)@ == old(self)@.close_value(string_token_text(old(self)@.keys.last())),
            final(writer)@ == old(writer)@,
    {
        let pending: usize = self.keys.len();
        let decoded = if self.buffers.len() > 0 && pending > 0 && self.objects.len() > 0 {
            decode_string_token(&self.keys[pending - 1])
        } else {
            None
        };
        self.close_object_value(decoded)
    }

    /// Closes an object value whose key token has been decoded already:
    /// `decoded` is the text that the pending key denotes, or nothing where
    /// it denotes none. The rest is as for `end_object_value`.
    pub fn close_object_value(&mut self, decoded: Option<Vec<char>>) -> (r: Result<(), JcsError>)
        ensures
            r == old(self)@.close_value_result(text_of(decoded)),
            final(self)@ == old(self)@.close_value(text_of(decoded)),
    {
        let value = match self.buffers.pop() {
            Some(value) => value,
            None => {
                return Err(JcsError::StructuralMismatch);
            },
        };
        assert(self@.buffers =~= old(self)@.buffers.drop_last());
        assert(self@ == old(self)@.drop_buffer());
        let key = match self.keys.pop() {
            Some(key) => key,
            None => {
                return Err(JcsError::StructuralMismatch);
            },
        };
        assert(self@.keys =~= old(self)@.keys.drop_last());
        assert(self@ == old(self)@.drop_buffer().drop_key());
        let depth: usize = self.objects.len();
        if depth == 0 {
            return Err(JcsError::StructuralMismatch);
        }
        let property = match JsonProperty::from_decoded(decoded, key, value) {
            Ok(property) => property,
            Err(e) => {
                return Err(e);
            },
        };
        let ghost before = self@;
        self.objects[depth - 1].insert(property);
        assert(self@.objects =~= before.objects.update(
            depth - 1,
            insert_property(before.objects.last(), property@),
        ));
        assert(self@ == before.offer(property@));
        Ok(())
    }

    /// Raw, already rendered fragments are never taken: nothing could show
    /// that one is canonical.
    pub fn write_raw_fragment(&mut self, writer: &mut Vec<u8>, fragment: &str) -> (r: Result<
        (),
        JcsError,
    >)
        ensures
            r == Err::<(), JcsError>(JcsError::RawFragmentUnsupported),
            final(self)@ == old(self)@,
            final(writer)@ == old(writer)@,
    {
        Err(JcsError::RawFragmentUnsupported)
    }
}

} // verus!
