use vstd::prelude::*;
use crate::ascii::{COLON, COMMA, LEFT_BRACE, RIGHT_BRACE};
use crate::decode::{decode_string_token, string_token_text, text_of};
use crate::error::JcsError;
use crate::sort_key::{
    compare_keys, encode_utf16, lemma_precedes_asymmetric, lemma_precedes_irreflexive,
    lemma_precedes_total, lemma_precedes_transitive, precedes, utf16_units, KeyOrder,
};

verus! {

/// One object member as the contracts see it.
pub struct PropertyModel {
    /// The member's name, decoded and re-encoded as UTF-16 code units.
    pub sort_key: Seq<u16>,
    /// The member's name as canonical JSON text, quoted and escaped.
    pub key: Seq<u8>,
    /// The member's value as canonical JSON text.
    pub value: Seq<u8>,
}

/// One object member that is being assembled.
pub struct JsonProperty {
    sorting_key: Vec<u16>,
    key: Vec<u8>,
    value: Vec<u8>,
}

impl View for JsonProperty {
    type V = PropertyModel;

    closed spec fn view(&self) -> PropertyModel {
        PropertyModel { sort_key: self.sorting_key@, key: self.key@, value: self.value@ }
    }
}

/// What building a member from a key token gives, the token already decoded:
/// the member, or `InvalidKeyEncoding` where the token denotes no text.
pub open spec fn property_of(decoded: Option<Seq<char>>, key: Seq<u8>, value: Seq<u8>) -> Result<
    PropertyModel,
    JcsError,
> {
    match decoded {
        Some(text) => Ok(PropertyModel { sort_key: utf16_units(text), key, value }),
        None => Err(JcsError::InvalidKeyEncoding),
    }
}

impl JsonProperty {
    /// Builds a member from its rendered key and value. The key token is
    /// decoded once more, so that escapes in it count as the characters they
    /// stand for when members are ordered.
    pub fn new(key: Vec<u8>, value: Vec<u8>) -> (r: Result<JsonProperty, JcsError>)
        ensures
            string_token_text(key@).is_some() ==> r.is_ok() && r.unwrap()@ == (PropertyModel {
                sort_key: utf16_units(string_token_text(key@).unwrap()),
                key: key@,
                value: value@,
            }),
            string_token_text(key@).is_none() ==> (r matches Err(e) && e
                == JcsError::InvalidKeyEncoding),
    {
        let decoded = decode_string_token(&key);
        JsonProperty::from_decoded(decoded, key, value)
    }

    /// Builds a member from the decoded text of its key, if the key decoded.
    pub fn from_decoded(decoded: Option<Vec<char>>, key: Vec<u8>, value: Vec<u8>) -> (r: Result<
        JsonProperty,
        JcsError,
    >)
        ensures
            decoded.is_some() ==> r.is_ok() && Ok::<PropertyModel, JcsError>(r.unwrap()@)
                == property_of(text_of(decoded), key@, value@),
            decoded.is_none() ==> (r matches Err(e) && e == JcsError::InvalidKeyEncoding),
    {
        match decoded {
            Some(text) => {
                let sorting_key = encode_utf16(&text);
                Ok(JsonProperty { sorting_key, key, value })
            },
            None => Err(JcsError::InvalidKeyEncoding),
        }
    }

    /// The UTF-16 code units by which the member is ordered.
    pub fn sorting_key(&self) -> (units: &Vec<u16>)
        ensures
            units@ == self@.sort_key,
    {
        &self.sorting_key
    }

    /// The member's name as canonical JSON text.
    pub fn key(&self) -> (bytes: &Vec<u8>)
        ensures
            bytes@ == self@.key,
    {
        &self.key
    }

    /// The member's value as canonical JSON text.
    pub fn value(&self) -> (bytes: &Vec<u8>)
        ensures
            bytes@ == self@.value,
    {
        &self.value
    }
}

/// Whether a member with this sort key is among `props`.
pub open spec fn has_key(props: Seq<PropertyModel>, sort_key: Seq<u16>) -> bool {
    exists|i: int| 0 <= i < props.len() && (#[trigger] props[i]).sort_key == sort_key
}

/// Members in strictly ascending order of their sort keys; no key occurs
/// twice in such a sequence.
pub open spec fn sorted(props: Seq<PropertyModel>) -> bool {
    forall|i: int, j: int|
        0 <= i < j < props.len() ==> precedes(
            (#[trigger] props[i]).sort_key,
            (#[trigger] props[j]).sort_key,
        )
}

/// The first position at or after `i` whose member does not come before
/// `sort_key`.
pub open spec fn slot_from(props: Seq<PropertyModel>, sort_key: Seq<u16>, i: int) -> int
    decreases props.len() - i,
{
    if 0 <= i < props.len() && precedes(props[i].sort_key, sort_key) {
        slot_from(props, sort_key, i + 1)
    } else {
        i
    }
}

/// Where a member with this sort key belongs: behind the leading members that
/// come before it.
pub open spec fn slot(props: Seq<PropertyModel>, sort_key: Seq<u16>) -> int {
    slot_from(props, sort_key, 0)
}

/// Insert-if-absent: a member whose sort key is already present is dropped,
/// any other goes to its place in the order.
pub open spec fn insert_property(props: Seq<PropertyModel>, p: PropertyModel) -> Seq<
    PropertyModel,
> {
    if has_key(props, p.sort_key) {
        props
    } else {
        props.insert(slot(props, p.sort_key), p)
    }
}

/// The members that an object retains when `members` arrive in this order.
pub open spec fn collect(members: Seq<PropertyModel>) -> Seq<PropertyModel>
    decreases members.len(),
{
    if members.len() == 0 {
        Seq::empty()
    } else {
        insert_property(collect(members.drop_last()), members.last())
    }
}

/// The text of the members between the braces: `key:value`, joined by commas.
pub open spec fn members_text(props: Seq<PropertyModel>) -> Seq<u8>
    decreases props.len(),
{
    if props.len() == 0 {
        Seq::empty()
    } else {
        let head = members_text(props.drop_last());
        let separator: Seq<u8> = if props.len() == 1 {
            Seq::empty()
        } else {
            seq![COMMA]
        };
        head + separator + props.last().key + seq![COLON] + props.last().value
    }
}

/// The canonical text of an object that holds `props` in this order.
pub open spec fn object_text(props: Seq<PropertyModel>) -> Seq<u8> {
    seq![LEFT_BRACE] + members_text(props) + seq![RIGHT_BRACE]
}

proof fn lemma_slot_from(props: Seq<PropertyModel>, sort_key: Seq<u16>, i: int)
    requires
        0 <= i <= props.len(),
    ensures
        i <= slot_from(props, sort_key, i) <= props.len(),
        forall|j: int|
            i <= j < slot_from(props, sort_key, i) ==> precedes(
                (#[trigger] props[j]).sort_key,
                sort_key,
            ),
        slot_from(props, sort_key, i) < props.len() ==> !precedes(
            props[slot_from(props, sort_key, i)].sort_key,
            sort_key,
        ),
    decreases props.len() - i,
{
    if i < props.len() && precedes(props[i].sort_key, sort_key) {
        lemma_slot_from(props, sort_key, i + 1);
    }
}

/// In a sorted sequence a key is present exactly when it stands at its slot.
pub proof fn lemma_slot_decides(props: Seq<PropertyModel>, sort_key: Seq<u16>)
    requires
        sorted(props),
    ensures
        0 <= slot(props, sort_key) <= props.len(),
        forall|j: int|
            0 <= j < slot(props, sort_key) ==> precedes((#[trigger] props[j]).sort_key, sort_key),
        forall|j: int|
            slot(props, sort_key) <= j < props.len() && props[slot(props, sort_key)].sort_key
                != sort_key ==> precedes(sort_key, (#[trigger] props[j]).sort_key),
        has_key(props, sort_key) <==> (slot(props, sort_key) < props.len() && props[slot(
            props,
            sort_key,
        )].sort_key == sort_key),
{
    let s = slot(props, sort_key);
    lemma_slot_from(props, sort_key, 0);
    if s < props.len() && props[s].sort_key != sort_key {
        lemma_precedes_total(sort_key, props[s].sort_key);
        assert forall|j: int| s <= j < props.len() implies precedes(
            sort_key,
            (#[trigger] props[j]).sort_key,
        ) by {
            if s < j {
                assert(precedes(props[s].sort_key, props[j].sort_key));
                lemma_precedes_transitive(sort_key, props[s].sort_key, props[j].sort_key);
            }
        }
    }
    if has_key(props, sort_key) {
        let w = choose|w: int| 0 <= w < props.len() && (#[trigger] props[w]).sort_key == sort_key;
        lemma_precedes_irreflexive(sort_key);
        if !(s < props.len() && props[s].sort_key == sort_key) {
            if w < s {
                assert(precedes(props[w].sort_key, sort_key));
            } else {
                assert(precedes(sort_key, props[w].sort_key));
            }
        }
    }
}

/// Inserting into a sorted sequence leaves it sorted.
pub proof fn lemma_insert_keeps_sorted(props: Seq<PropertyModel>, p: PropertyModel)
    requires
        sorted(props),
    ensures
        sorted(insert_property(props, p)),
{
    if !has_key(props, p.sort_key) {
        let s = slot(props, p.sort_key);
        let after = props.insert(s, p);
        lemma_slot_decides(props, p.sort_key);
        assert forall|i: int, j: int| 0 <= i < j < after.len() implies precedes(
            (#[trigger] after[i]).sort_key,
            (#[trigger] after[j]).sort_key,
        ) by {
            if j < s {
                assert(after[i] == props[i] && after[j] == props[j]);
            } else if j == s {
                assert(after[i] == props[i]);
            } else if i < s {
                assert(after[i] == props[i] && after[j] == props[j - 1]);
            } else if i == s {
                assert(after[j] == props[j - 1]);
            } else {
                assert(after[i] == props[i - 1] && after[j] == props[j - 1]);
            }
        }
    }
}

/// The members of one open object: kept in ascending order of their sort
/// keys, at most one member for each key.
pub struct JsonObject {
    properties: Vec<JsonProperty>,
}

impl View for JsonObject {
    type V = Seq<PropertyModel>;

    closed spec fn view(&self) -> Seq<PropertyModel> {
        models(self.properties@)
    }
}

/// What each of a sequence of members is to the contracts.
pub open spec fn models(properties: Seq<JsonProperty>) -> Seq<PropertyModel> {
    properties.map_values(|p: JsonProperty| p@)
}

impl JsonObject {
    /// The members stand in strictly ascending order of their sort keys, so
    /// that no key occurs twice. Every object keeps to this at all times.
    #[verifier::type_invariant]
    closed spec fn ascending(&self) -> bool {
        sorted(models(self.properties@))
    }

    /// An object without members.
    pub fn new() -> (object: JsonObject)
        ensures
            object@ == Seq::<PropertyModel>::empty(),
    {
        let properties: Vec<JsonProperty> = Vec::new();
        assert(models(properties@) =~= Seq::<PropertyModel>::empty());
        JsonObject { properties }
    }

    /// The number of members retained.
    pub fn len(&self) -> (n: usize)
        ensures
            n == self@.len(),
    {
        self.properties.len()
    }

    /// The member at `index` in ascending order.
    pub fn get(&self, index: usize) -> (property: Option<&JsonProperty>)
        ensures
            index < self@.len() ==> property.is_some() && property.unwrap()@ == self@[index as int],
            index >= self@.len() ==> property.is_none(),
    {
        if index < self.properties.len() {
            Some(&self.properties[index])
        } else {
            None
        }
    }

    /// Adds a member unless one with the same sort key is present: the first
    /// writer wins. Says whether the member was added.
    pub fn insert(&mut self, property: JsonProperty) -> (inserted: bool)
        ensures
            sorted(old(self)@),
            sorted(final(self)@),
            final(self)@ == insert_property(old(self)@, property@),
            inserted == !has_key(old(self)@, property@.sort_key),
    {
        proof {
            use_type_invariant(&*self);
        }
        let n: usize = self.properties.len();
        let mut i: usize = 0;
        let mut found: bool = false;
        let mut searching: bool = true;
        while searching && i < n
            invariant
                n == self.properties.len(),
                i <= n,
                slot(self@, property@.sort_key) == slot_from(self@, property@.sort_key, i as int),
                !searching ==> i < n && !precedes(self@[i as int].sort_key, property@.sort_key)
                    && found == (self@[i as int].sort_key == property@.sort_key),
                searching ==> !found,
            decreases (n - i) + (if searching { 1int } else { 0int }),
        {
            match compare_keys(&self.properties[i].sorting_key, &property.sorting_key) {
                KeyOrder::Before => {
                    i += 1;
                },
                KeyOrder::Same => {
                    proof {
                        lemma_precedes_irreflexive(property@.sort_key);
                    }
                    found = true;
                    searching = false;
                },
                KeyOrder::After => {
                    proof {
                        lemma_precedes_asymmetric(property@.sort_key, self@[i as int].sort_key);
                    }
                    searching = false;
                },
            }
        }
        proof {
            lemma_slot_decides(self@, property@.sort_key);
            lemma_insert_keeps_sorted(self@, property@);
        }
        if found {
            false
        } else {
            let ghost before = self@;
            let mut properties: Vec<JsonProperty> = Vec::new();
            assert(models(properties@) =~= Seq::<PropertyModel>::empty());
            std::mem::swap(&mut self.properties, &mut properties);
            properties.insert(i, property);
            assert(models(properties@) =~= before.insert(i as int, property@));
            self.properties = properties;
            true
        }
    }

    /// Renders the object: the members in ascending order between braces.
    pub fn render(&self) -> (text: Vec<u8>)
        ensures
            text@ == object_text(self@),
            sorted(self@),
    {
        proof {
            use_type_invariant(self);
        }
        let mut text: Vec<u8> = Vec::new();
        text.push(LEFT_BRACE);
        let n: usize = self.properties.len();
        let mut i: usize = 0;
        while i < n
            invariant
                n == self.properties.len(),
                i <= n,
                text@ == seq![LEFT_BRACE] + members_text(self@.take(i as int)),
            decreases n - i,
        {
            let ghost before = text@;
            if i > 0 {
                text.push(COMMA);
            }
            text.extend_from_slice(self.properties[i].key.as_slice());
            text.push(COLON);
            text.extend_from_slice(self.properties[i].value.as_slice());
            proof {
                let done = self@.take(i + 1);
                assert(done.drop_last() =~= self@.take(i as int));
                assert(done.last() == self@[i as int]);
                assert(text@ =~= seq![LEFT_BRACE] + members_text(done));
            }
            i += 1;
        }
        assert(self@.take(i as int) =~= self@);
        text.push(RIGHT_BRACE);
        text
    }
}

/// Whatever the order in which members arrive, the members retained stand in
/// strictly ascending order of the UTF-16 code units of their decoded names.
pub proof fn lemma_collect_sorted(members: Seq<PropertyModel>)
    ensures
        sorted(collect(members)),
    decreases members.len(),
{
    if members.len() > 0 {
        lemma_collect_sorted(members.drop_last());
        lemma_insert_keeps_sorted(collect(members.drop_last()), members.last());
    }
}

/// Members that arrive in strictly ascending order, no key twice, are
/// retained as they arrived: collecting what is canonical changes nothing.
pub proof fn lemma_collect_of_sorted(members: Seq<PropertyModel>)
    requires
        sorted(members),
    ensures
        collect(members) == members,
    decreases members.len(),
{
    if members.len() > 0 {
        let head = members.drop_last();
        let p = members.last();
        lemma_collect_of_sorted(head);
        lemma_slot_decides(head, p.sort_key);
        lemma_precedes_irreflexive(p.sort_key);
        assert forall|j: int| 0 <= j < head.len() implies precedes(
            (#[trigger] head[j]).sort_key,
            p.sort_key,
        ) by {
            assert(head[j] == members[j]);
            assert(p == members[members.len() - 1]);
        }
        let s = slot(head, p.sort_key);
        if s < head.len() {
            assert(precedes(head[s].sort_key, p.sort_key));
            assert(precedes(p.sort_key, head[s].sort_key));
            lemma_precedes_asymmetric(p.sort_key, head[s].sort_key);
        }
        assert(head.insert(head.len() as int, p) =~= members);
    }
}

/// Whether the member at `i` is the first one that arrives with its sort key.
pub open spec fn is_first_with_key(members: Seq<PropertyModel>, i: int) -> bool {
    &&& 0 <= i < members.len()
    &&& forall|j: int| 0 <= j < i ==> (#[trigger] members[j]).sort_key != members[i].sort_key
}

/// After an insertion the object holds what it held before, and the new
/// member where its sort key was absent; nothing else.
pub proof fn lemma_insert_contains(props: Seq<PropertyModel>, p: PropertyModel, q: PropertyModel)
    ensures
        insert_property(props, p).contains(q) <==> props.contains(q) || (q == p && !has_key(
            props,
            p.sort_key,
        )),
{
    if !has_key(props, p.sort_key) {
        let s = slot(props, p.sort_key);
        lemma_slot_from(props, p.sort_key, 0);
        let after = props.insert(s, p);
        if after.contains(q) {
            let i = choose|i: int| 0 <= i < after.len() && after[i] == q;
            if i < s {
                assert(props[i] == q);
            } else if i > s {
                assert(props[i - 1] == q);
            }
        }
        if props.contains(q) {
            let i = choose|i: int| 0 <= i < props.len() && props[i] == q;
            if i < s {
                assert(after[i] == q);
            } else {
                assert(after[i + 1] == q);
            }
        }
        if q == p {
            assert(after[s] == q);
        }
    }
}

proof fn lemma_insert_has_key(props: Seq<PropertyModel>, p: PropertyModel, k: Seq<u16>)
    ensures
        has_key(insert_property(props, p), k) <==> has_key(props, k) || k == p.sort_key,
{
    if !has_key(props, p.sort_key) {
        let s = slot(props, p.sort_key);
        lemma_slot_from(props, p.sort_key, 0);
        let after = props.insert(s, p);
        if has_key(after, k) {
            let i = choose|i: int| 0 <= i < after.len() && (#[trigger] after[i]).sort_key == k;
            if i < s {
                assert(props[i].sort_key == k);
            } else if i > s {
                assert(props[i - 1].sort_key == k);
            }
        }
        if has_key(props, k) {
            let i = choose|i: int| 0 <= i < props.len() && (#[trigger] props[i]).sort_key == k;
            if i < s {
                assert(after[i].sort_key == k);
            } else {
                assert(after[i + 1].sort_key == k);
            }
        }
        if k == p.sort_key {
            assert(after[s].sort_key == k);
        }
    }
}

/// An object retains a member for exactly the sort keys that arrived.
pub proof fn lemma_collect_keys(members: Seq<PropertyModel>, k: Seq<u16>)
    ensures
        has_key(collect(members), k) <==> has_key(members, k),
    decreases members.len(),
{
    if members.len() > 0 {
        let head = members.drop_last();
        lemma_collect_keys(head, k);
        lemma_insert_has_key(collect(head), members.last(), k);
        if has_key(head, k) {
            let i = choose|i: int| 0 <= i < head.len() && (#[trigger] head[i]).sort_key == k;
            assert(members[i].sort_key == k);
        }
        if k == members.last().sort_key {
            assert(members[members.len() - 1].sort_key == k);
        }
        if has_key(members, k) {
            let i = choose|i: int| 0 <= i < members.len() && (#[trigger] members[i]).sort_key == k;
            if i < head.len() {
                assert(head[i].sort_key == k);
            }
        }
    }
}

/// The first writer wins: the first member that arrives with a sort key is
/// retained.
pub proof fn lemma_collect_retains_first(members: Seq<PropertyModel>, i: int)
    requires
        is_first_with_key(members, i),
    ensures
        collect(members).contains(members[i]),
    decreases members.len(),
{
    let head = members.drop_last();
    let last = members.last();
    lemma_insert_contains(collect(head), last, members[i]);
    if i < head.len() {
        assert(head[i] == members[i]);
        assert forall|j: int| 0 <= j < i implies (#[trigger] head[j]).sort_key
            != head[i].sort_key by {
            assert(head[j] == members[j]);
        }
        lemma_collect_retains_first(head, i);
    } else {
        lemma_collect_keys(head, last.sort_key);
        if has_key(head, last.sort_key) {
            let j = choose|j: int|
                0 <= j < head.len() && (#[trigger] head[j]).sort_key == last.sort_key;
            assert(members[j].sort_key == members[i].sort_key);
        }
    }
}

/// Nothing but first writers is retained: every member of the result is the
/// first member that arrived with its sort key.
pub proof fn lemma_collect_only_first(members: Seq<PropertyModel>, p: PropertyModel)
    requires
        collect(members).contains(p),
    ensures
        exists|i: int| is_first_with_key(members, i) && members[i] == p,
    decreases members.len(),
{
    if members.len() > 0 {
        let head = members.drop_last();
        let last = members.last();
        lemma_insert_contains(collect(head), last, p);
        if collect(head).contains(p) {
            lemma_collect_only_first(head, p);
            let i = choose|i: int| is_first_with_key(head, i) && head[i] == p;
            assert(members[i] == p);
            assert forall|j: int| 0 <= j < i implies (#[trigger] members[j]).sort_key
                != members[i].sort_key by {
                assert(head[j] == members[j]);
            }
            assert(is_first_with_key(members, i));
        } else {
            let i = members.len() - 1;
            lemma_collect_keys(head, last.sort_key);
            assert forall|j: int| 0 <= j < i implies (#[trigger] members[j]).sort_key
                != members[i].sort_key by {
                assert(head[j] == members[j]);
            }
            assert(is_first_with_key(members, i));
        }
    } else {
        assert(collect(members).len() == 0);
    }
}

/// No sort key occurs twice among `members`.
pub open spec fn distinct_keys(members: Seq<PropertyModel>) -> bool {
    forall|i: int, j: int|
        0 <= i < j < members.len() ==> (#[trigger] members[i]).sort_key != (
        #[trigger] members[j]).sort_key
}

proof fn lemma_sorted_is_distinct(props: Seq<PropertyModel>, i: int, j: int)
    requires
        sorted(props),
        0 <= i < props.len(),
        0 <= j < props.len(),
        props[i].sort_key == props[j].sort_key,
    ensures
        i == j,
{
    lemma_precedes_irreflexive(props[i].sort_key);
    if i < j {
        assert(precedes(props[i].sort_key, props[j].sort_key));
    } else if j < i {
        assert(precedes(props[j].sort_key, props[i].sort_key));
    }
}

/// Two sorted sequences with the same members are the same sequence.
pub proof fn lemma_sorted_same_members(x: Seq<PropertyModel>, y: Seq<PropertyModel>)
    requires
        sorted(x),
        sorted(y),
        forall|p: PropertyModel| x.contains(p) <==> y.contains(p),
    ensures
        x == y,
    decreases x.len(),
{
    if x.len() == 0 {
        if y.len() > 0 {
            assert(y.contains(y[0]));
        }
        assert(x =~= y);
    } else {
        let xl = x.len() - 1;
        assert(x.contains(x[xl]));
        let j = choose|j: int| 0 <= j < y.len() && y[j] == x[xl];
        let yl = y.len() - 1;
        assert(y.contains(y[yl]));
        let i = choose|i: int| 0 <= i < x.len() && x[i] == y[yl];
        if j < yl {
            assert(precedes(y[j].sort_key, y[yl].sort_key));
            if i < xl {
                assert(precedes(x[i].sort_key, x[xl].sort_key));
                lemma_precedes_asymmetric(x[i].sort_key, x[xl].sort_key);
            } else {
                lemma_precedes_irreflexive(x[xl].sort_key);
            }
        }
        assert(j == yl);
        let xh = x.drop_last();
        let yh = y.drop_last();
        assert forall|p: PropertyModel| xh.contains(p) <==> yh.contains(p) by {
            if xh.contains(p) {
                let a = choose|a: int| 0 <= a < xh.len() && xh[a] == p;
                assert(x[a] == p);
                assert(x.contains(p));
                let b = choose|b: int| 0 <= b < y.len() && y[b] == p;
                if b == yl {
                    lemma_sorted_is_distinct(x, a, xl);
                }
                assert(yh[b] == p);
            }
            if yh.contains(p) {
                let b = choose|b: int| 0 <= b < yh.len() && yh[b] == p;
                assert(y[b] == p);
                assert(y.contains(p));
                let a = choose|a: int| 0 <= a < x.len() && x[a] == p;
                if a == xl {
                    lemma_sorted_is_distinct(y, b, yl);
                }
                assert(xh[a] == p);
            }
        }
        assert forall|a: int, b: int| 0 <= a < b < xh.len() implies precedes(
            (#[trigger] xh[a]).sort_key,
            (#[trigger] xh[b]).sort_key,
        ) by {
            assert(xh[a] == x[a] && xh[b] == x[b]);
        }
        assert forall|a: int, b: int| 0 <= a < b < yh.len() implies precedes(
            (#[trigger] yh[a]).sort_key,
            (#[trigger] yh[b]).sort_key,
        ) by {
            assert(yh[a] == y[a] && yh[b] == y[b]);
        }
        lemma_sorted_same_members(xh, yh);
        assert(x =~= xh.push(x[xl]));
        assert(y =~= yh.push(y[yl]));
    }
}

/// Where no sort key arrives twice, an object retains exactly the members
/// that arrived.
pub proof fn lemma_collect_of_distinct(members: Seq<PropertyModel>, p: PropertyModel)
    requires
        distinct_keys(members),
    ensures
        collect(members).contains(p) <==> members.contains(p),
{
    if collect(members).contains(p) {
        lemma_collect_only_first(members, p);
    }
    if members.contains(p) {
        let i = choose|i: int| 0 <= i < members.len() && members[i] == p;
        lemma_collect_retains_first(members, i);
    }
}

/// The order of arrival does not matter: two arrangements of the same
/// members, no sort key twice, leave the same object behind.
pub proof fn lemma_collect_order_independent(a: Seq<PropertyModel>, b: Seq<PropertyModel>)
    requires
        distinct_keys(a),
        distinct_keys(b),
        forall|p: PropertyModel| a.contains(p) <==> b.contains(p),
    ensures
        collect(a) == collect(b),
{
    lemma_collect_sorted(a);
    lemma_collect_sorted(b);
    assert forall|p: PropertyModel| collect(a).contains(p) <==> collect(b).contains(p) by {
        lemma_collect_of_distinct(a, p);
        lemma_collect_of_distinct(b, p);
    }
    lemma_sorted_same_members(collect(a), collect(b));
}

} // verus!
