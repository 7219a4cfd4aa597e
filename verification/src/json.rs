//! JSON documents as the library holds them, and their mathematical model.
use vstd::prelude::*;

verus! {

/// A JSON number. A number with a fraction or an exponent is held by the bit pattern
/// of its IEEE-754 double (`f64::to_bits`); the library never computes with it.
#[derive(Clone, Copy, PartialEq, Eq, Structural, Debug)]
pub enum JsonNumber {
    PosInt(u64),
    NegInt(i64),
    Float(u64),
}

/// A JSON document. Object members keep their order.
#[derive(Debug, PartialEq)]
pub enum JsonValue {
    Null,
    Bool(bool),
    Number(JsonNumber),
    Str(String),
    Array(Vec<JsonValue>),
    Object(Vec<(String, JsonValue)>),
}

/// The mathematical model of a JSON document.
pub enum Json {
    Null,
    Bool(bool),
    Number(JsonNumber),
    Str(Seq<char>),
    Array(Seq<Json>),
    Object(Seq<(Seq<char>, Json)>),
}

impl JsonValue {
    /// The document this value holds.
    pub open spec fn model(self) -> Json
        decreases self,
    {
        match self {
            JsonValue::Null => Json::Null,
            JsonValue::Bool(b) => Json::Bool(b),
            JsonValue::Number(n) => Json::Number(n),
            JsonValue::Str(s) => Json::Str(s@),
            JsonValue::Array(items) => Json::Array(
                Seq::new(
                    items.len() as nat,
                    |i: int|
                        if 0 <= i < items.len() {
                            items@[i].model()
                        } else {
                            Json::Null
                        },
                ),
            ),
            JsonValue::Object(members) => Json::Object(
                Seq::new(
                    members.len() as nat,
                    |i: int|
                        if 0 <= i < members.len() {
                            (members@[i].0@, members@[i].1.model())
                        } else {
                            (Seq::empty(), Json::Null)
                        },
                ),
            ),
        }
    }
}

/// The elements of `v` in reverse order.
pub fn reversed<T>(v: Vec<T>) -> (r: Vec<T>)
    ensures
        r@ == v@.reverse(),
{
    let ghost orig = v@;
    let mut rest = v;
    let mut out: Vec<T> = Vec::new();
    while rest.len() > 0
        invariant
            rest@ == orig.subrange(0, rest.len() as int),
            rest.len() <= orig.len(),
            out@ == orig.subrange(rest.len() as int, orig.len() as int).reverse(),
        decreases rest.len(),
    {
        let x = rest.pop().unwrap();
        out.push(x);
        assert(out@ =~= orig.subrange(rest.len() as int, orig.len() as int).reverse());
    }
    assert(orig.subrange(0, orig.len() as int) =~= orig);
    out
}

/// The models of a sequence of values.
pub open spec fn models(items: Seq<JsonValue>) -> Seq<Json> {
    Seq::new(items.len(), |i: int| items[i].model())
}

/// The models of a sequence of object members.
pub open spec fn member_models(members: Seq<(String, JsonValue)>) -> Seq<(Seq<char>, Json)> {
    Seq::new(members.len(), |i: int| (members[i].0@, members[i].1.model()))
}

/// The model of an array is the array of the models of its items.
pub proof fn lemma_array_model(items: Vec<JsonValue>)
    ensures
        JsonValue::Array(items).model() == Json::Array(models(items@)),
{
    if let Json::Array(s) = JsonValue::Array(items).model() {
        assert(s =~= models(items@));
    }
}

/// The model of an object is the object of the models of its members.
pub proof fn lemma_object_model(members: Vec<(String, JsonValue)>)
    ensures
        JsonValue::Object(members).model() == Json::Object(member_models(members@)),
{
    if let Json::Object(s) = JsonValue::Object(members).model() {
        assert(s =~= member_models(members@));
    }
}

/// The array of the given values.
pub fn array_of(items: Vec<JsonValue>) -> (r: JsonValue)
    ensures
        r.model() == Json::Array(models(items@)),
{
    let r = JsonValue::Array(items);
    assert(r.model() == Json::Array(models(items@))) by {
        if let Json::Array(s) = r.model() {
            assert(s =~= models(items@));
        }
    }
    r
}

/// The object with the given members.
pub fn object_of(members: Vec<(String, JsonValue)>) -> (r: JsonValue)
    ensures
        r.model() == Json::Object(member_models(members@)),
{
    let r = JsonValue::Object(members);
    assert(r.model() == Json::Object(member_models(members@))) by {
        if let Json::Object(s) = r.model() {
            assert(s =~= member_models(members@));
        }
    }
    r
}

/// A member of an object.
pub(crate) fn entry(key: &str, value: JsonValue) -> (r: (String, JsonValue))
    ensures
        r.0@ == key@,
        r.1 == value,
{
    (crate::text::owned(key), value)
}

/// The object with two members.
pub(crate) fn object2(a: (String, JsonValue), b: (String, JsonValue)) -> (r: JsonValue)
    ensures
        r.model() == Json::Object(seq![(a.0@, a.1.model()), (b.0@, b.1.model())]),
{
    let ghost ma = (a.0@, a.1.model());
    let ghost mb = (b.0@, b.1.model());
    let mut v: Vec<(String, JsonValue)> = Vec::new();
    v.push(a);
    v.push(b);
    assert(member_models(v@) =~= seq![ma, mb]);
    object_of(v)
}

/// The object with three members.
pub(crate) fn object3(a: (String, JsonValue), b: (String, JsonValue), c: (String, JsonValue)) -> (r: JsonValue)
    ensures
        r.model() == Json::Object(
            seq![(a.0@, a.1.model()), (b.0@, b.1.model()), (c.0@, c.1.model())],
        ),
{
    let ghost ma = (a.0@, a.1.model());
    let ghost mb = (b.0@, b.1.model());
    let ghost mc = (c.0@, c.1.model());
    let mut v: Vec<(String, JsonValue)> = Vec::new();
    v.push(a);
    v.push(b);
    v.push(c);
    assert(member_models(v@) =~= seq![ma, mb, mc]);
    object_of(v)
}

/// The object with four members.
pub(crate) fn object4(
    a: (String, JsonValue),
    b: (String, JsonValue),
    c: (String, JsonValue),
    d: (String, JsonValue),
) -> (r: JsonValue)
    ensures
        r.model() == Json::Object(
            seq![
                (a.0@, a.1.model()),
                (b.0@, b.1.model()),
                (c.0@, c.1.model()),
                (d.0@, d.1.model()),
            ],
        ),
{
    let ghost ma = (a.0@, a.1.model());
    let ghost mb = (b.0@, b.1.model());
    let ghost mc = (c.0@, c.1.model());
    let ghost md = (d.0@, d.1.model());
    let mut v: Vec<(String, JsonValue)> = Vec::new();
    v.push(a);
    v.push(b);
    v.push(c);
    v.push(d);
    assert(member_models(v@) =~= seq![ma, mb, mc, md]);
    object_of(v)
}

/// The array with the given items.
pub(crate) fn array2(a: JsonValue, b: JsonValue) -> (r: JsonValue)
    ensures
        r.model() == Json::Array(seq![a.model(), b.model()]),
{
    let ghost ma = a.model();
    let ghost mb = b.model();
    let mut v: Vec<JsonValue> = Vec::new();
    v.push(a);
    v.push(b);
    assert(models(v@) =~= seq![ma, mb]);
    array_of(v)
}

/// The array with the single item `a`.
pub(crate) fn array1(a: JsonValue) -> (r: JsonValue)
    ensures
        r.model() == Json::Array(seq![a.model()]),
{
    let ghost ma = a.model();
    let mut v: Vec<JsonValue> = Vec::new();
    v.push(a);
    assert(models(v@) =~= seq![ma]);
    array_of(v)
}

/// The object with five members.
pub(crate) fn object5(
    a: (String, JsonValue),
    b: (String, JsonValue),
    c: (String, JsonValue),
    d: (String, JsonValue),
    e: (String, JsonValue),
) -> (r: JsonValue)
    ensures
        r.model() == Json::Object(
            seq![
                (a.0@, a.1.model()),
                (b.0@, b.1.model()),
                (c.0@, c.1.model()),
                (d.0@, d.1.model()),
                (e.0@, e.1.model()),
            ],
        ),
{
    let ghost ma = (a.0@, a.1.model());
    let ghost mb = (b.0@, b.1.model());
    let ghost mc = (c.0@, c.1.model());
    let ghost md = (d.0@, d.1.model());
    let ghost me = (e.0@, e.1.model());
    let mut v: Vec<(String, JsonValue)> = Vec::new();
    v.push(a);
    v.push(b);
    v.push(c);
    v.push(d);
    v.push(e);
    assert(member_models(v@) =~= seq![ma, mb, mc, md, me]);
    object_of(v)
}

/// The object with one member.
pub(crate) fn object1(a: (String, JsonValue)) -> (r: JsonValue)
    ensures
        r.model() == Json::Object(seq![(a.0@, a.1.model())]),
{
    let ghost ma = (a.0@, a.1.model());
    let mut v: Vec<(String, JsonValue)> = Vec::new();
    v.push(a);
    assert(member_models(v@) =~= seq![ma]);
    object_of(v)
}

/// The string value holding `s`.
pub fn str_of(s: &str) -> (r: JsonValue)
    ensures
        r.model() == Json::Str(s@),
{
    JsonValue::Str(crate::text::owned(s))
}

/// The value of the first member of `members` named `key`, if any.
pub open spec fn member(members: Seq<(Seq<char>, Json)>, key: Seq<char>) -> Option<Json>
    decreases members.len(),
{
    if members.len() == 0 {
        None
    } else if members[0].0 == key {
        Some(members[0].1)
    } else {
        member(members.subrange(1, members.len() as int), key)
    }
}

/// Sets member `key` of an object to `value`: the first member of that name gets the new
/// value in place, or, where there is none, the member is added at the end.
pub open spec fn insert_member(members: Seq<(Seq<char>, Json)>, key: Seq<char>, value: Json) -> Seq<
    (Seq<char>, Json),
>
    decreases members.len(),
{
    if members.len() == 0 {
        seq![(key, value)]
    } else if members[0].0 == key {
        members.update(0, (key, value))
    } else {
        seq![members[0]] + insert_member(members.subrange(1, members.len() as int), key, value)
    }
}

/// What `member` and `insert_member` give when the first member named `key` is at `i`.
pub proof fn lemma_first_member(members: Seq<(Seq<char>, Json)>, key: Seq<char>, value: Json, i: int)
    requires
        0 <= i < members.len(),
        members[i].0 == key,
        forall|j: int| 0 <= j < i ==> members[j].0 != key,
    ensures
        member(members, key) == Some(members[i].1),
        insert_member(members, key, value) == members.update(i, (key, value)),
    decreases members.len(),
{
    if i > 0 {
        let rest = members.subrange(1, members.len() as int);
        assert forall|j: int| 0 <= j < i - 1 implies rest[j].0 != key by {
            assert(rest[j] == members[j + 1]);
        }
        lemma_first_member(rest, key, value, i - 1);
        assert(seq![members[0]] + rest.update(i - 1, (key, value)) =~= members.update(i, (key, value)));
    }
}

/// What `member` and `insert_member` give when no member is named `key`.
pub proof fn lemma_no_member(members: Seq<(Seq<char>, Json)>, key: Seq<char>, value: Json)
    requires
        forall|j: int| 0 <= j < members.len() ==> members[j].0 != key,
    ensures
        member(members, key) is None,
        insert_member(members, key, value) == members.push((key, value)),
    decreases members.len(),
{
    if members.len() > 0 {
        let rest = members.subrange(1, members.len() as int);
        assert forall|j: int| 0 <= j < rest.len() implies rest[j].0 != key by {
            assert(rest[j] == members[j + 1]);
        }
        lemma_no_member(rest, key, value);
        assert(seq![members[0]] + rest.push((key, value)) =~= members.push((key, value)));
    }
}

/// Reading a member after setting one.
pub proof fn lemma_member_after_insert(
    members: Seq<(Seq<char>, Json)>,
    key: Seq<char>,
    value: Json,
    other: Seq<char>,
)
    ensures
        member(insert_member(members, key, value), other) == if other == key {
            Some(value)
        } else {
            member(members, other)
        },
    decreases members.len(),
{
    let ins = insert_member(members, key, value);
    if members.len() == 0 {
        assert(ins =~= seq![(key, value)]);
        assert(ins.subrange(1, ins.len() as int) =~= Seq::<(Seq<char>, Json)>::empty());
        assert(member(ins.subrange(1, ins.len() as int), other) is None);
    } else {
        let rest = members.subrange(1, members.len() as int);
        if members[0].0 == key {
            assert(ins =~= members.update(0, (key, value)));
            assert(ins[0] == (key, value));
            assert(ins.subrange(1, ins.len() as int) =~= rest);
        } else {
            lemma_member_after_insert(rest, key, value, other);
            assert(ins =~= seq![members[0]] + insert_member(rest, key, value));
            assert(ins[0] == members[0]);
            assert(ins.subrange(1, ins.len() as int) =~= insert_member(rest, key, value));
        }
    }
}

/// The index of the first member named `key`, if any.
pub fn member_index(members: &Vec<(String, JsonValue)>, key: &str) -> (r: Option<usize>)
    ensures
        r is None ==> forall|j: int| 0 <= j < members@.len() ==> members@[j].0@ != key@,
        r matches Some(i) ==> i < members@.len() && members@[i as int].0@ == key@ && forall|j: int|
            0 <= j < i ==> members@[j].0@ != key@,
{
    let wanted = crate::text::owned(key);
    let mut i: usize = 0;
    while i < members.len()
        invariant
            wanted@ == key@,
            i <= members@.len(),
            forall|j: int| 0 <= j < i ==> members@[j].0@ != key@,
        decreases members.len() - i,
    {
        if members[i].0 == wanted {
            return Some(i);
        }
        i = i + 1;
    }
    None
}

/// Sets member `key` to `value` (see `insert_member`).
pub fn set_member(members: &mut Vec<(String, JsonValue)>, key: String, value: JsonValue)
    ensures
        member_models(final(members)@) == insert_member(member_models(old(members)@), key@, value.model()),
{
    let ghost before = member_models(members@);
    let ghost vm = value.model();
    let ghost kv = key@;
    match member_index(members, key.as_str()) {
        Some(i) => {
            proof {
                lemma_first_member(before, kv, vm, i as int);
            }
            let _ = members.remove(i);
            members.insert(i, (key, value));
            assert(member_models(members@) =~= before.update(i as int, (kv, vm)));
        },
        None => {
            proof {
                lemma_no_member(before, kv, vm);
            }
            members.push((key, value));
            assert(member_models(members@) =~= before.push((kv, vm)));
        },
    }
}

} // verus!
