use vstd::prelude::*;
use crate::schema::Schema;

verus! {

/// A decoded message modeled as plain data: the renderer walks a `Value`
/// beside its `Schema`. Leaf fields carry their already-formatted text.
pub enum Value {
    /// One scalar field, as display text.
    Leaf { text: String },
    /// A struct's member values, in member order.
    Struct { fields: Vec<Value> },
    /// The index of the active variant and its payload.
    Enum { variant: usize, payload: Box<Value> },
    /// The elements of a repeated member.
    Repeated { elements: Vec<Value> },
    /// An optional member, present or absent.
    Optional { content: Option<Box<Value>> },
}

/// Whether `v` is shaped as `s` describes: struct values carry one value
/// per member, enum values select an existing variant, repeated elements
/// all follow the element schema, and expansion looks through to the inner
/// schema.
pub open spec fn conforms(v: Value, s: Schema) -> bool
    decreases v, s,
{
    match s {
        Schema::Leaf => v is Leaf,
        Schema::Struct { members } => v matches Value::Struct { fields } && fields@.len()
            == members@.len() && (forall|i: int|
            0 <= i < members@.len() ==> conforms(#[trigger] fields@[i], members@[i].schema)),
        Schema::Enum { name, variants } => v matches Value::Enum { variant, payload } && variant
            < variants@.len() && conforms(*payload, variants@[variant as int].schema),
        Schema::Repeated { elem_name, element } => v matches Value::Repeated { elements } && (
        forall|i: int| 0 <= i < elements@.len() ==> conforms(#[trigger] elements@[i], *element)),
        Schema::Optional { inner } => v matches Value::Optional { content } && (match content {
            Some(b) => conforms(*b, *inner),
            None => true,
        }),
        Schema::Expand { inner } => conforms(v, *inner),
    }
}

/// Whether every repeated member of `v` holds at most one element.
pub open spec fn repeats_bounded(v: Value) -> bool
    decreases v,
{
    match v {
        Value::Leaf { text } => true,
        Value::Struct { fields } => forall|i: int|
            0 <= i < fields@.len() ==> repeats_bounded(#[trigger] fields@[i]),
        Value::Enum { variant, payload } => repeats_bounded(*payload),
        Value::Repeated { elements } => elements@.len() <= 1 && (forall|i: int|
            0 <= i < elements@.len() ==> repeats_bounded(#[trigger] elements@[i])),
        Value::Optional { content } => match content {
            Some(b) => repeats_bounded(*b),
            None => true,
        },
    }
}

/// Decides conformance, so that unverified callers can test a value
/// against the schema before rendering it.
#[verifier::loop_isolation(false)]
pub fn check_conforms(v: &Value, s: &Schema) -> (r: bool)
    ensures
        r == conforms(*v, *s),
    decreases *v, *s,
{
    match s {
        Schema::Leaf => matches!(v, Value::Leaf { .. }),
        Schema::Struct { members } => {
            match v {
                Value::Struct { fields } => {
                    if fields.len() != members.len() {
                        return false;
                    }
                    let n = members.len();
                    let mut i: usize = 0;
                    while i < n
                        invariant
                            i <= n,
                            forall|j: int|
                                0 <= j < i ==> conforms(
                                    #[trigger] fields@[j],
                                    members@[j].schema,
                                ),
                        decreases n - i,
                    {
                        proof {
                            assert(decreases_to!(*v => (*v)->fields));
                            assert(decreases_to!((*v)->fields => (*v)->fields@));
                            assert(decreases_to!((*v)->fields@ => (*v)->fields@[i as int]));
                        }
                        if !check_conforms(&fields[i], &members[i].schema) {
                            return false;
                        }
                        i += 1;
                    }
                    true
                },
                _ => false,
            }
        },
        Schema::Enum { name, variants } => {
            match v {
                Value::Enum { variant, payload } => {
                    if *variant >= variants.len() {
                        return false;
                    }
                    proof {
                        assert(decreases_to!(*v => (*v)->payload));
                    }
                    check_conforms(payload, &variants[*variant].schema)
                },
                _ => false,
            }
        },
        Schema::Repeated { elem_name, element } => {
            match v {
                Value::Repeated { elements } => {
                    let n = elements.len();
                    let mut i: usize = 0;
                    while i < n
                        invariant
                            i <= n,
                            forall|j: int| 0 <= j < i ==> conforms(#[trigger] elements@[j], **element),
                        decreases n - i,
                    {
                        proof {
                            assert(decreases_to!(*v => (*v)->elements));
                            assert(decreases_to!((*v)->elements => (*v)->elements@));
                            assert(decreases_to!((*v)->elements@ => (*v)->elements@[i as int]));
                        }
                        if !check_conforms(&elements[i], element) {
                            return false;
                        }
                        i += 1;
                    }
                    true
                },
                _ => false,
            }
        },
        Schema::Optional { inner } => {
            match v {
                Value::Optional { content } => {
                    match content {
                        Some(b) => {
                            proof {
                                assert(decreases_to!(*v => (*v)->content));
                            }
                            check_conforms(b, inner)
                        },
                        None => true,
                    }
                },
                _ => false,
            }
        },
        Schema::Expand { inner } => check_conforms(v, inner),
    }
}

impl Value {
    /// A scalar field value.
    pub fn leaf(text: &str) -> (r: Value)
        ensures
            r matches Value::Leaf { text: t } && t@ == text@,
    {
        Value::Leaf { text: text.to_owned() }
    }

    /// A struct value from its member values.
    pub fn structure(fields: Vec<Value>) -> (r: Value)
        ensures
            r == (Value::Struct { fields }),
    {
        Value::Struct { fields }
    }

    /// An enum value from its active variant index and payload.
    pub fn union(variant: usize, payload: Value) -> (r: Value)
        ensures
            r matches Value::Enum { variant: i, payload: p } && i == variant && *p == payload,
    {
        Value::Enum { variant, payload: Box::new(payload) }
    }

    /// A repeated member's elements.
    pub fn repeated(elements: Vec<Value>) -> (r: Value)
        ensures
            r == (Value::Repeated { elements }),
    {
        Value::Repeated { elements }
    }

    /// A present optional member.
    pub fn some(inner: Value) -> (r: Value)
        ensures
            r matches Value::Optional { content: Some(b) } && *b == inner,
    {
        Value::Optional { content: Some(Box::new(inner)) }
    }

    /// An absent optional member.
    pub fn absent() -> (r: Value)
        ensures
            r == (Value::Optional { content: None }),
    {
        Value::Optional { content: None }
    }
}

} // verus!
