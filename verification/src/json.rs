//! Structured payload values carried by announcements.
//!
//! Announcement payloads are opaque structured data.  The daemon never
//! interprets them; it stores them, compares them, and hands them back.
//! They are modelled here as a closed datatype of JSON-like values.
//! A number is carried as its literal text, never parsed, so payloads
//! round-trip losslessly.

use vstd::prelude::*;

verus! {

broadcast use vstd::std_specs::vec::group_vec_axioms, vstd::seq::group_seq_axioms;

/// An announcement payload: a JSON-like structured value.
#[derive(Debug)]
pub enum JsonValue {
    Null,
    Bool(bool),
    Num(String),
    Text(String),
    Array(Vec<JsonValue>),
    Object(Vec<(String, JsonValue)>),
}

/// The mathematical model of a `JsonValue`.
pub enum JsonView {
    Null,
    Bool(bool),
    Num(Seq<char>),
    Text(Seq<char>),
    Array(Seq<JsonView>),
    Object(Seq<(Seq<char>, JsonView)>),
}

/// The model of one payload value.
pub open spec fn json_view(v: JsonValue) -> JsonView
    decreases v,
    via json_view_decreases
{
    match v {
        JsonValue::Null => JsonView::Null,
        JsonValue::Bool(b) => JsonView::Bool(b),
        JsonValue::Num(n) => JsonView::Num(n@),
        JsonValue::Text(s) => JsonView::Text(s@),
        JsonValue::Array(items) => JsonView::Array(json_views(items@)),
        JsonValue::Object(members) => JsonView::Object(json_member_views(members@)),
    }
}

/// The models of a sequence of payload values, in order.
pub open spec fn json_views(s: Seq<JsonValue>) -> Seq<JsonView>
    decreases s,
    via json_views_decreases
{
    if s.len() == 0 {
        Seq::empty()
    } else {
        seq![json_view(s[0])] + json_views(s.drop_first())
    }
}

/// The models of a sequence of object members, in order.
pub open spec fn json_member_views(s: Seq<(String, JsonValue)>) -> Seq<(Seq<char>, JsonView)>
    decreases s,
    via json_member_views_decreases
{
    if s.len() == 0 {
        Seq::empty()
    } else {
        seq![(s[0].0@, json_view(s[0].1))] + json_member_views(s.drop_first())
    }
}

#[via_fn]
proof fn json_view_decreases(v: JsonValue) {
    match v {
        JsonValue::Array(items) => {
            assert(decreases_to!(items => items@));
        },
        JsonValue::Object(members) => {
            assert(decreases_to!(members => members@));
        },
        _ => {},
    }
}

#[via_fn]
proof fn json_views_decreases(s: Seq<JsonValue>) {
    if s.len() != 0 {
        assert(decreases_to!(s => s[0]));
        assert(decreases_to!(s => s.subrange(1, s.len() as int)));
    }
}

#[via_fn]
proof fn json_member_views_decreases(s: Seq<(String, JsonValue)>) {
    if s.len() != 0 {
        assert(decreases_to!(s => s[0]));
        assert(decreases_to!(s => s.subrange(1, s.len() as int)));
    }
}

impl View for JsonValue {
    type V = JsonView;

    open spec fn view(&self) -> JsonView {
        json_view(*self)
    }
}

/// Element `i` of a modelled sequence is the model of element `i`.
pub proof fn lemma_json_views_index(s: Seq<JsonValue>, i: int)
    requires
        0 <= i < s.len(),
    ensures
        json_views(s).len() == s.len(),
        json_views(s)[i] == json_view(s[i]),
    decreases s.len(),
{
    if i > 0 {
        lemma_json_views_index(s.drop_first(), i - 1);
    } else {
        lemma_json_views_len(s.drop_first());
    }
}

/// A modelled sequence has the length of its source.
pub proof fn lemma_json_views_len(s: Seq<JsonValue>)
    ensures
        json_views(s).len() == s.len(),
    decreases s.len(),
{
    if s.len() != 0 {
        lemma_json_views_len(s.drop_first());
    }
}

/// Element `i` of a modelled member sequence is the model of member `i`.
pub proof fn lemma_json_member_views_index(s: Seq<(String, JsonValue)>, i: int)
    requires
        0 <= i < s.len(),
    ensures
        json_member_views(s).len() == s.len(),
        json_member_views(s)[i] == (s[i].0@, json_view(s[i].1)),
    decreases s.len(),
{
    if i > 0 {
        lemma_json_member_views_index(s.drop_first(), i - 1);
    } else {
        lemma_json_member_views_len(s.drop_first());
    }
}

/// A modelled member sequence has the length of its source.
pub proof fn lemma_json_member_views_len(s: Seq<(String, JsonValue)>)
    ensures
        json_member_views(s).len() == s.len(),
    decreases s.len(),
{
    if s.len() != 0 {
        lemma_json_member_views_len(s.drop_first());
    }
}

impl JsonValue {
    /// Produces a copy of this payload value.
    #[verifier::loop_isolation(false)]
    pub fn duplicate(&self) -> (r: JsonValue)
        ensures
            r@ == self@,
        decreases *self,
    {
        match self {
            JsonValue::Null => JsonValue::Null,
            JsonValue::Bool(b) => JsonValue::Bool(*b),
            JsonValue::Num(n) => JsonValue::Num(n.clone()),
            JsonValue::Text(s) => JsonValue::Text(s.clone()),
            JsonValue::Array(items) => {
                let mut out: Vec<JsonValue> = Vec::new();
                let mut i: usize = 0;
                while i < items.len()
                    invariant
                        i <= items.len(),
                        out@.len() == i,
                        forall|j: int| 0 <= j < i ==> out@[j]@ == items@[j]@,
                    decreases items.len() - i,
                {
                    proof {
                        assert(*self == JsonValue::Array(*items));
                        assert(decreases_to!(JsonValue::Array(*items) => *items));
                        assert(decreases_to!(*items => items@));
                        assert(decreases_to!(items@ => items@[i as int]));
                    }
                    out.push(items[i].duplicate());
                    i += 1;
                }
                proof {
                    lemma_json_seq_view_eq(out@, items@);
                }
                JsonValue::Array(out)
            },
            JsonValue::Object(members) => {
                let mut out: Vec<(String, JsonValue)> = Vec::new();
                let mut i: usize = 0;
                while i < members.len()
                    invariant
                        i <= members.len(),
                        out@.len() == i,
                        forall|j: int|
                            0 <= j < i ==> out@[j].0@ == members@[j].0@
                                && out@[j].1@ == members@[j].1@,
                    decreases members.len() - i,
                {
                    proof {
                        assert(*self == JsonValue::Object(*members));
                        assert(decreases_to!(JsonValue::Object(*members) => *members));
                        assert(decreases_to!(*members => members@));
                        assert(decreases_to!(members@ => members@[i as int]));
                        assert(decreases_to!(members@[i as int] => members@[i as int].1));
                    }
                    out.push((members[i].0.clone(), members[i].1.duplicate()));
                    i += 1;
                }
                proof {
                    lemma_json_member_seq_view_eq(out@, members@);
                }
                JsonValue::Object(out)
            },
        }
    }

    /// Compares two payload values structurally.
    #[verifier::loop_isolation(false)]
    pub fn same_as(&self, other: &JsonValue) -> (r: bool)
        ensures
            r <==> self@ == other@,
        decreases *self,
    {
        match (self, other) {
            (JsonValue::Null, JsonValue::Null) => true,
            (JsonValue::Bool(a), JsonValue::Bool(b)) => *a == *b,
            (JsonValue::Num(a), JsonValue::Num(b)) => *a == *b,
            (JsonValue::Text(a), JsonValue::Text(b)) => *a == *b,
            (JsonValue::Array(a), JsonValue::Array(b)) => {
                proof {
                    lemma_json_views_len(a@);
                    lemma_json_views_len(b@);
                }
                if a.len() != b.len() {
                    false
                } else {
                    let mut i: usize = 0;
                    let mut same = true;
                    while i < a.len()
                        invariant
                            i <= a.len(),
                            a@.len() == b@.len(),
                            same <==> (forall|j: int| 0 <= j < i ==> a@[j]@ == b@[j]@),
                        decreases a.len() - i,
                    {
                        proof {
                            assert(*self == JsonValue::Array(*a));
                            assert(decreases_to!(JsonValue::Array(*a) => *a));
                            assert(decreases_to!(*a => a@));
                            assert(decreases_to!(a@ => a@[i as int]));
                        }
                        if !a[i].same_as(&b[i]) {
                            same = false;
                        }
                        i += 1;
                    }
                    proof {
                        if same {
                            lemma_json_seq_view_eq(a@, b@);
                        } else {
                            let j = choose|j: int| 0 <= j < a@.len() && a@[j]@ != b@[j]@;
                            lemma_json_views_index(a@, j);
                            lemma_json_views_index(b@, j);
                        }
                    }
                    same
                }
            },
            (JsonValue::Object(a), JsonValue::Object(b)) => {
                proof {
                    lemma_json_member_views_len(a@);
                    lemma_json_member_views_len(b@);
                }
                if a.len() != b.len() {
                    false
                } else {
                    let mut i: usize = 0;
                    let mut same = true;
                    while i < a.len()
                        invariant
                            i <= a.len(),
                            a@.len() == b@.len(),
                            same <==> (forall|j: int|
                                0 <= j < i ==> a@[j].0@ == b@[j].0@ && a@[j].1@ == b@[j].1@),
                        decreases a.len() - i,
                    {
                        proof {
                            assert(*self == JsonValue::Object(*a));
                            assert(decreases_to!(JsonValue::Object(*a) => *a));
                            assert(decreases_to!(*a => a@));
                            assert(decreases_to!(a@ => a@[i as int]));
                            assert(decreases_to!(a@[i as int] => a@[i as int].1));
                        }
                        if !(a[i].0 == b[i].0 && a[i].1.same_as(&b[i].1)) {
                            same = false;
                        }
                        i += 1;
                    }
                    proof {
                        if same {
                            lemma_json_member_seq_view_eq(a@, b@);
                        } else {
                            let j = choose|j: int|
                                0 <= j < a@.len()
                                    && !(a@[j].0@ == b@[j].0@ && a@[j].1@ == b@[j].1@);
                            lemma_json_member_views_index(a@, j);
                            lemma_json_member_views_index(b@, j);
                        }
                    }
                    same
                }
            },
            _ => false,
        }
    }
}

/// Sequences whose elements have equal models have equal modelled sequences.
pub proof fn lemma_json_seq_view_eq(a: Seq<JsonValue>, b: Seq<JsonValue>)
    requires
        a.len() == b.len(),
        forall|j: int| 0 <= j < a.len() ==> a[j]@ == b[j]@,
    ensures
        json_views(a) == json_views(b),
{
    lemma_json_views_len(a);
    lemma_json_views_len(b);
    assert forall|j: int| 0 <= j < a.len() implies json_views(a)[j] == json_views(b)[j] by {
        lemma_json_views_index(a, j);
        lemma_json_views_index(b, j);
    }
    assert(json_views(a) =~= json_views(b));
}

/// Member sequences whose keys and values agree have equal modelled sequences.
pub proof fn lemma_json_member_seq_view_eq(a: Seq<(String, JsonValue)>, b: Seq<(String, JsonValue)>)
    requires
        a.len() == b.len(),
        forall|j: int| 0 <= j < a.len() ==> a[j].0@ == b[j].0@ && a[j].1@ == b[j].1@,
    ensures
        json_member_views(a) == json_member_views(b),
{
    lemma_json_member_views_len(a);
    lemma_json_member_views_len(b);
    assert forall|j: int| 0 <= j < a.len() implies json_member_views(a)[j]
        == json_member_views(b)[j] by {
        lemma_json_member_views_index(a, j);
        lemma_json_member_views_index(b, j);
    }
    assert(json_member_views(a) =~= json_member_views(b));
}

} // verus!
