use vstd::prelude::*;

verus! {

/// The UTF-16 code units of one character: itself below U+10000, else a
/// surrogate pair, high unit first.
pub open spec fn char_units(c: char) -> Seq<u16> {
    let v = c as u32;
    if v < 0x10000 {
        seq![v as u16]
    } else {
        seq![
            (0xD800 + (v - 0x10000) / 0x400) as u16,
            (0xDC00 + (v - 0x10000) % 0x400) as u16,
        ]
    }
}

/// The UTF-16 encoding of a text: the units of its characters in order.
pub open spec fn utf16_units(text: Seq<char>) -> Seq<u16>
    decreases text.len(),
{
    if text.len() == 0 {
        Seq::empty()
    } else {
        utf16_units(text.drop_last()) + char_units(text.last())
    }
}

/// Whether `a` comes before `b` when both agree on every unit before `i`:
/// the first unit that differs decides, and a sequence that ends first comes
/// first.
pub open spec fn precedes_from(a: Seq<u16>, b: Seq<u16>, i: int) -> bool
    decreases a.len() - i,
{
    if i < 0 || i >= b.len() {
        false
    } else if i >= a.len() {
        true
    } else if a[i] != b[i] {
        a[i] < b[i]
    } else {
        precedes_from(a, b, i + 1)
    }
}

/// Strict lexicographic order on sequences of UTF-16 code units.
pub open spec fn precedes(a: Seq<u16>, b: Seq<u16>) -> bool {
    precedes_from(a, b, 0)
}

/// How one sort key stands to another.
#[derive(Clone, Copy, Debug, PartialEq, Eq, Structural)]
pub enum KeyOrder {
    Before,
    Same,
    After,
}

pub open spec fn key_order(a: Seq<u16>, b: Seq<u16>) -> KeyOrder {
    if precedes(a, b) {
        KeyOrder::Before
    } else if a == b {
        KeyOrder::Same
    } else {
        KeyOrder::After
    }
}

proof fn lemma_irreflexive_from(a: Seq<u16>, i: int)
    requires
        0 <= i,
    ensures
        !precedes_from(a, a, i),
    decreases a.len() - i,
{
    if i < a.len() {
        lemma_irreflexive_from(a, i + 1);
    }
}

proof fn lemma_transitive_from(a: Seq<u16>, b: Seq<u16>, c: Seq<u16>, i: int)
    requires
        0 <= i,
        precedes_from(a, b, i),
        precedes_from(b, c, i),
    ensures
        precedes_from(a, c, i),
    decreases a.len() - i,
{
    if i < a.len() && a[i] == b[i] && b[i] == c[i] {
        lemma_transitive_from(a, b, c, i + 1);
    }
}

proof fn lemma_total_from(a: Seq<u16>, b: Seq<u16>, i: int)
    requires
        0 <= i <= a.len(),
        i <= b.len(),
        forall|j: int| 0 <= j < i ==> a[j] == b[j],
    ensures
        precedes_from(a, b, i) || precedes_from(b, a, i) || a == b,
    decreases a.len() - i,
{
    if i == a.len() || i == b.len() {
        if a.len() == b.len() {
            assert(a =~= b);
        }
    } else if a[i] == b[i] {
        lemma_total_from(a, b, i + 1);
    }
}

/// No key comes before itself.
pub proof fn lemma_precedes_irreflexive(a: Seq<u16>)
    ensures
        !precedes(a, a),
{
    lemma_irreflexive_from(a, 0);
}

/// The order is transitive.
pub proof fn lemma_precedes_transitive(a: Seq<u16>, b: Seq<u16>, c: Seq<u16>)
    requires
        precedes(a, b),
        precedes(b, c),
    ensures
        precedes(a, c),
{
    lemma_transitive_from(a, b, c, 0);
}

/// Of two different keys one comes before the other.
pub proof fn lemma_precedes_total(a: Seq<u16>, b: Seq<u16>)
    ensures
        precedes(a, b) || precedes(b, a) || a == b,
{
    lemma_total_from(a, b, 0);
}

/// Of two keys at most one comes before the other.
pub proof fn lemma_precedes_asymmetric(a: Seq<u16>, b: Seq<u16>)
    requires
        precedes(a, b),
    ensures
        !precedes(b, a),
{
    if precedes(b, a) {
        lemma_precedes_transitive(a, b, a);
        lemma_precedes_irreflexive(a);
    }
}

/// Compares two sort keys unit by unit.
pub fn compare_keys(a: &Vec<u16>, b: &Vec<u16>) -> (r: KeyOrder)
    ensures
        r == key_order(a@, b@),
        r == KeyOrder::After ==> precedes(b@, a@),
{
    let mut i: usize = 0;
    while i < a.len() && i < b.len()
        invariant
            i <= a.len(),
            i <= b.len(),
            forall|j: int| 0 <= j < i ==> a@[j] == b@[j],
            precedes(a@, b@) == precedes_from(a@, b@, i as int),
            precedes(b@, a@) == precedes_from(b@, a@, i as int),
        decreases a.len() - i,
    {
        if a[i] < b[i] {
            return KeyOrder::Before;
        }
        if a[i] > b[i] {
            return KeyOrder::After;
        }
        i += 1;
    }
    if i < b.len() {
        KeyOrder::Before
    } else if i < a.len() {
        KeyOrder::After
    } else {
        assert(a@ =~= b@);
        proof {
            lemma_precedes_irreflexive(a@);
        }
        KeyOrder::Same
    }
}

/// Encodes a text as UTF-16 code units, a character outside the basic plane
/// as its surrogate pair.
pub fn encode_utf16(text: &Vec<char>) -> (units: Vec<u16>)
    ensures
        units@ == utf16_units(text@),
{
    let mut units: Vec<u16> = Vec::new();
    let mut i: usize = 0;
    while i < text.len()
        invariant
            i <= text.len(),
            units@ == utf16_units(text@.take(i as int)),
        decreases text.len() - i,
    {
        let v: u32 = text[i] as u32;
        proof {
            assert(text@.take(i + 1).drop_last() =~= text@.take(i as int));
            assert(text@.take(i + 1).last() == text@[i as int]);
        }
        if v < 0x10000 {
            units.push(v as u16);
        } else {
            let offset: u32 = v - 0x10000;
            units.push((0xD800 + offset / 0x400) as u16);
            units.push((0xDC00 + offset % 0x400) as u16);
        }
        assert(units@ =~= utf16_units(text@.take(i as int)) + char_units(text@[i as int]));
        i += 1;
    }
    assert(text@.take(i as int) =~= text@);
    units
}

} // verus!
