//! The mock responder's value synthesis: for each property of an entity, a
//! fresh value of the declared primitive type — a random boolean, a random
//! three-digit integer, or a random non-empty word. Randomness comes from
//! the `fake` crate behind trusted wrappers; everything done with the drawn
//! values is verified.

use fake::Fake;
use vstd::pervasive::VecAdditionalExecFns;
use vstd::prelude::*;
use vstd::string::*;

use crate::catalog::resolved_for;
use crate::schema::{Entity, PrimitiveType, Property, PropertyView};
use crate::text::str_eq;

verus! {

/// A synthesized JSON value: one of the three supported primitive shapes.
#[derive(Clone, Debug)]
pub enum MockValue {
    Bool(bool),
    Int(i64),
    Text(String),
}

/// Mathematical view of a `MockValue`.
pub enum MockValueView {
    Bool(bool),
    Int(i64),
    Text(Seq<char>),
}

impl View for MockValue {
    type V = MockValueView;

    open spec fn view(&self) -> MockValueView {
        match self {
            MockValue::Bool(b) => MockValueView::Bool(*b),
            MockValue::Int(n) => MockValueView::Int(*n),
            MockValue::Text(s) => MockValueView::Text(s@),
        }
    }
}

/// One key/value pair of a synthesized JSON object.
#[derive(Clone, Debug)]
pub struct MockField {
    pub key: String,
    pub value: MockValue,
}

/// Mathematical view of a `MockField`.
pub struct MockFieldView {
    pub key: Seq<char>,
    pub value: MockValueView,
}

impl View for MockField {
    type V = MockFieldView;

    open spec fn view(&self) -> MockFieldView {
        MockFieldView { key: self.key@, value: self.value@ }
    }
}

/// A synthesized JSON object: its fields in entity property order.
#[derive(Clone, Debug)]
pub struct MockObject {
    pub fields: Vec<MockField>,
}

impl View for MockObject {
    type V = Seq<MockFieldView>;

    open spec fn view(&self) -> Seq<MockFieldView> {
        self.fields@.map_values(|f: MockField| f@)
    }
}

/// Whether a synthesized value type-checks against a primitive type:
/// booleans are booleans, numbers are integers drawn through the three-digit
/// pattern, strings are non-empty text.
pub open spec fn value_matches(v: MockValueView, t: PrimitiveType) -> bool {
    match t {
        PrimitiveType::Boolean => v is Bool,
        PrimitiveType::Number => v matches MockValueView::Int(n) && 0 <= n <= 999,
        PrimitiveType::String => v matches MockValueView::Text(s) && s.len() > 0,
    }
}

/// Whether an object's fields carry the given properties' names, in the
/// given order, each with a value of the declared type.
pub open spec fn object_matches(fields: Seq<MockFieldView>, props: Seq<PropertyView>) -> bool {
    &&& fields.len() == props.len()
    &&& forall|i: int|
        0 <= i < props.len() ==> (#[trigger] fields[i]).key == props[i].name
            && value_matches(fields[i].value, props[i].ty)
}

/// Whether a character is a decimal digit (`'0'` through `'9'`).
pub open spec fn digit(c: char) -> bool {
    48 <= c as int <= 57
}

/// Whether every character of `s` is a decimal digit.
pub open spec fn all_digits(s: Seq<char>) -> bool {
    forall|i: int| 0 <= i < s.len() ==> digit(#[trigger] s[i])
}

/// The integer a digit string denotes, most significant digit first.
pub open spec fn digits_value(s: Seq<char>) -> int
    decreases s.len(),
{
    if s.len() == 0 {
        0
    } else {
        digits_value(s.drop_last()) * 10 + (s.last() as int - 48)
    }
}

/// Ten to the `n`th power.
pub open spec fn pow10(n: nat) -> int
    decreases n,
{
    if n == 0 {
        1
    } else {
        10 * pow10((n - 1) as nat)
    }
}

/// A digit string of length `n` denotes a value in `[0, pow10(n))`.
pub proof fn lemma_digits_value_bound(s: Seq<char>)
    requires
        all_digits(s),
    ensures
        0 <= digits_value(s) < pow10(s.len() as nat),
    decreases s.len(),
{
    if s.len() > 0 {
        assert(all_digits(s.drop_last())) by {
            assert(forall|i: int|
                0 <= i < s.len() - 1 ==> s.drop_last()[i] == #[trigger] s[i]);
        }
        lemma_digits_value_bound(s.drop_last());
    }
}

/// Parses a short digit string into the integer it denotes.
pub fn digits_to_i64(s: &str) -> (n: i64)
    requires
        all_digits(s@),
        s@.len() <= 18,
    ensures
        n == digits_value(s@),
        0 <= n,
{
    let len: usize = s.unicode_len();
    let mut n: i64 = 0;
    let mut i: usize = 0;
    proof {
        assert(s@.subrange(0, 0) =~= Seq::<char>::empty());
        reveal_with_fuel(pow10, 20);
    }
    while i < len
        invariant
            i <= len,
            len == s@.len(),
            len <= 18,
            all_digits(s@),
            n == digits_value(s@.subrange(0, i as int)),
            0 <= n < pow10(i as nat),
            pow10(18) == 1000000000000000000,
        decreases len - i,
    {
        let ghost pre = s@.subrange(0, i as int);
        let ghost post = s@.subrange(0, i as int + 1);
        proof {
            assert(post.drop_last() =~= pre);
            assert(post.last() == s@[i as int]);
            lemma_digits_value_bound(pre);
            lemma_pow10_le(i as nat + 1, 18);
        }
        let c = s.get_char(i);
        let d: u32 = (c as u32) - 48;
        n = n * 10 + (d as i64);
        i = i + 1;
    }
    proof {
        assert(s@.subrange(0, len as int) =~= s@);
    }
    n
}

/// `pow10` is monotone in its exponent.
pub proof fn lemma_pow10_le(a: nat, b: nat)
    requires
        a <= b,
    ensures
        pow10(a) <= pow10(b),
        pow10(a) >= 1,
    decreases b,
{
    if a < b {
        lemma_pow10_le(a, (b - 1) as nat);
    } else if a > 0 {
        lemma_pow10_le((a - 1) as nat, (b - 1) as nat);
    }
}

/// Relies on fake's `Faker` drawing a `bool`: a random boolean; nothing can
/// be promised of which one.
#[verifier::external_body]
fn random_bool() -> bool {
    fake::Faker.fake()
}

/// Relies on fake's `NumberWithFormat`: every `#` of the format is replaced
/// by one random decimal digit and all other characters are kept, so a
/// `"###"` draw is exactly three digit characters.
#[verifier::external_body]
fn random_three_digits() -> (r: String)
    ensures
        r@.len() == 3,
        all_digits(r@),
{
    fake::faker::number::en::NumberWithFormat("###").fake()
}

/// Relies on fake's lorem `Word`: one word picked from a fixed list of
/// non-empty words.
#[verifier::external_body]
fn random_word() -> (r: String)
    ensures
        r@.len() > 0,
{
    fake::faker::lorem::en::Word().fake()
}

/// The first position of `name` among `props`, or `props.len()` when no
/// property carries it.
pub open spec fn name_index(props: Seq<PropertyView>, name: Seq<char>) -> int
    decreases props.len(),
{
    if props.len() == 0 {
        0
    } else if props[0].name == name {
        0
    } else {
        1 + name_index(props.subrange(1, props.len() as int), name)
    }
}

/// One step of building the effective schema: a property overwrites the
/// entry already holding its name, or appends a new entry.
pub open spec fn upsert(props: Seq<PropertyView>, p: PropertyView) -> Seq<PropertyView> {
    let i = name_index(props, p.name);
    if i < props.len() {
        props.update(i, p)
    } else {
        props.push(p)
    }
}

/// The effective schema of a property list: one entry per distinct name —
/// JSON object keys are unique — each at its name's first occurrence, typed
/// per the last property carrying that name.
pub open spec fn effective_props(props: Seq<PropertyView>) -> Seq<PropertyView>
    decreases props.len(),
{
    if props.len() == 0 {
        Seq::empty()
    } else {
        upsert(effective_props(props.drop_last()), props.last())
    }
}

/// A name carried by no property has index `props.len()`.
proof fn lemma_name_index_absent(props: Seq<PropertyView>, name: Seq<char>)
    requires
        forall|k: int| 0 <= k < props.len() ==> (#[trigger] props[k]).name != name,
    ensures
        name_index(props, name) == props.len(),
    decreases props.len(),
{
    if props.len() > 0 {
        let sub = props.subrange(1, props.len() as int);
        assert(forall|k: int| 0 <= k < sub.len() ==> #[trigger] sub[k] == props[k + 1]);
        lemma_name_index_absent(sub, name);
    }
}

/// A property list whose names are pairwise distinct is its own effective
/// schema: every name keeps its position and its declared type.
pub proof fn lemma_effective_props_distinct(props: Seq<PropertyView>)
    requires
        forall|i: int, j: int|
            0 <= i < j < props.len() ==> (#[trigger] props[i]).name != (
            #[trigger] props[j]).name,
    ensures
        effective_props(props) == props,
    decreases props.len(),
{
    if props.len() > 0 {
        let front = props.drop_last();
        assert(forall|k: int| 0 <= k < front.len() ==> #[trigger] front[k] == props[k]);
        lemma_effective_props_distinct(front);
        lemma_name_index_absent(front, props.last().name);
        assert(effective_props(props) =~= props);
    }
}

/// Finds the position of the property carrying `name`, if any.
fn find_name(props: &Vec<Property>, name: &str) -> (r: Option<usize>)
    ensures
        match r {
            Some(j) => j < props@.len() && name_index(
                props@.map_values(|p: Property| p@),
                name@,
            ) == j,
            None => name_index(props@.map_values(|p: Property| p@), name@)
                == props@.len(),
        },
{
    let ghost pv = props@.map_values(|p: Property| p@);
    let n = props.len();
    let mut i: usize = 0;
    proof {
        assert(pv.subrange(0, pv.len() as int) =~= pv);
    }
    while i < n
        invariant
            i <= n,
            n == props.len(),
            pv == props@.map_values(|p: Property| p@),
            name_index(pv, name@) == i + name_index(
                pv.subrange(i as int, pv.len() as int),
                name@,
            ),
        decreases n - i,
    {
        let ghost rem = pv.subrange(i as int, pv.len() as int);
        proof {
            assert(rem[0] == pv[i as int]);
            assert(rem.subrange(1, rem.len() as int) =~= pv.subrange(
                i as int + 1,
                pv.len() as int,
            ));
        }
        if str_eq(props[i].name.as_str(), name) {
            return Some(i);
        }
        i = i + 1;
    }
    proof {
        assert(pv.subrange(n as int, pv.len() as int) =~= Seq::<PropertyView>::empty());
    }
    None
}

/// Reduces a property list to its effective schema: the first property of
/// each name keeps the position, the last one the type.
fn effective_properties(props: &Vec<Property>) -> (eff: Vec<Property>)
    ensures
        eff@.map_values(|p: Property| p@) == effective_props(
            props@.map_values(|p: Property| p@),
        ),
{
    let ghost pv = props@.map_values(|p: Property| p@);
    let n = props.len();
    let mut eff: Vec<Property> = Vec::new();
    let mut i: usize = 0;
    proof {
        assert(pv.subrange(0, 0) =~= Seq::<PropertyView>::empty());
        assert(eff@.map_values(|p: Property| p@) =~= Seq::<PropertyView>::empty());
    }
    while i < n
        invariant
            i <= n,
            n == props.len(),
            pv == props@.map_values(|p: Property| p@),
            eff@.map_values(|p: Property| p@) == effective_props(pv.subrange(0, i as int)),
        decreases n - i,
    {
        let ghost pre = pv.subrange(0, i as int);
        let ghost post = pv.subrange(0, i as int + 1);
        proof {
            assert(post.drop_last() =~= pre);
            assert(post.last() == pv[i as int]);
        }
        let ghost old_eff = eff@;
        let p = &props[i];
        let fresh = Property { name: p.name.clone(), ty: p.ty };
        proof {
            assert(fresh@ == pv[i as int]);
        }
        match find_name(&eff, p.name.as_str()) {
            Some(j) => {
                eff.set(j, fresh);
                proof {
                    assert(eff@.map_values(|p2: Property| p2@) =~= old_eff.map_values(
                        |p2: Property| p2@,
                    ).update(j as int, pv[i as int]));
                }
            },
            None => {
                eff.push(fresh);
                proof {
                    assert(eff@.map_values(|p2: Property| p2@) =~= old_eff.map_values(
                        |p2: Property| p2@,
                    ).push(pv[i as int]));
                }
            },
        }
        i = i + 1;
    }
    proof {
        assert(pv.subrange(0, n as int) =~= pv);
    }
    eff
}

/// Synthesizes one JSON object for an entity: one freshly drawn value per
/// entry of the entity's effective schema — one field per distinct property
/// name, at its first occurrence's position, valued per the last property
/// carrying that name, as a JSON object keyed by the names ends up.
pub fn synthesize(entity: &Entity) -> (r: MockObject)
    ensures
        object_matches(r@, effective_props(entity@.props)),
{
    let eff = effective_properties(&entity.props);
    let ghost epv = effective_props(entity@.props);
    let n = eff.len();
    let mut fields: Vec<MockField> = Vec::new();
    let mut i: usize = 0;
    while i < n
        invariant
            i <= n,
            n == eff.len(),
            eff@.map_values(|p: Property| p@) == epv,
            fields@.len() == i,
            forall|j: int|
                0 <= j < i ==> (#[trigger] fields@[j])@.key == epv[j].name
                    && value_matches(fields@[j]@.value, epv[j].ty),
        decreases n - i,
    {
        let prop = &eff[i];
        proof {
            assert(prop@ == epv[i as int]);
        }
        let value = match prop.ty {
            PrimitiveType::Boolean => MockValue::Bool(random_bool()),
            PrimitiveType::Number => {
                let digits = random_three_digits();
                let v = digits_to_i64(digits.as_str());
                proof {
                    lemma_digits_value_bound(digits@);
                    reveal_with_fuel(pow10, 5);
                }
                MockValue::Int(v)
            },
            PrimitiveType::String => MockValue::Text(random_word()),
        };
        let key = prop.name.clone();
        fields.push(MockField { key, value });
        i = i + 1;
    }
    let r = MockObject { fields };
    proof {
        assert forall|j: int|
            0 <= j < epv.len() implies (#[trigger] r@[j]).key == epv[j].name
            && value_matches(r@[j].value, epv[j].ty) by {
            assert(r@[j] == r.fields@[j]@);
        }
    }
    r
}

/// Answers one GET request against the catalog: the first entity with the
/// requested route drives the response; an unregistered route yields none.
pub fn respond(catalog: &Vec<Entity>, route: &str) -> (r: Option<MockObject>)
    ensures
        match r {
            Some(obj) => resolved_for(catalog@.map_values(|e: Entity| e@), route@)
                matches Some(e) && object_matches(obj@, effective_props(e.props)),
            None => resolved_for(catalog@.map_values(|e: Entity| e@), route@) is None,
        },
{
    match crate::catalog::find_entity(catalog, route) {
        Some(e) => Some(synthesize(e)),
        None => None,
    }
}

} // verus!
