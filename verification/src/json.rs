//! JSON values as the library sees them: parameters, results and documents.
//!
//! A number keeps the decimal text it was written with, so the library never
//! handles a float; an object keeps its members in order.

use vstd::prelude::*;

verus! {

/// A JSON document.
#[derive(Debug, PartialEq)]
pub enum Json {
    Null,
    Bool(bool),
    /// The number's decimal text, e.g. `1`, `-2.5`, `1e9`.
    Number(String),
    Str(String),
    Array(Vec<Json>),
    /// Members in order; a well-formed object names each key once.
    Object(Vec<(String, Json)>),
}

/// The mathematical value of a JSON document.
pub enum JsonV {
    Null,
    Bool(bool),
    Number(Seq<char>),
    Str(Seq<char>),
    Array(Seq<JsonV>),
    Object(Seq<(Seq<char>, JsonV)>),
}

/// The value of a document.
pub open spec fn json_view(j: Json) -> JsonV
    decreases j,
{
    match j {
        Json::Null => JsonV::Null,
        Json::Bool(b) => JsonV::Bool(b),
        Json::Number(n) => JsonV::Number(n@),
        Json::Str(s) => JsonV::Str(s@),
        Json::Array(items) => JsonV::Array(items_view(items@)),
        Json::Object(members) => JsonV::Object(members_view(members@)),
    }
}

/// The values of a sequence of documents.
pub open spec fn items_view(s: Seq<Json>) -> Seq<JsonV>
    decreases s,
{
    if s.len() == 0 {
        Seq::empty()
    } else {
        items_view(s.drop_last()).push(json_view(s.last()))
    }
}

/// The values of a sequence of object members.
pub open spec fn members_view(s: Seq<(String, Json)>) -> Seq<(Seq<char>, JsonV)>
    decreases s,
{
    if s.len() == 0 {
        Seq::empty()
    } else {
        members_view(s.drop_last()).push((s.last().0@, json_view(s.last().1)))
    }
}

/// `i` is the first member of `m` whose key is `k`.
pub open spec fn is_first_key(m: Seq<(Seq<char>, JsonV)>, k: Seq<char>, i: int) -> bool {
    &&& 0 <= i < m.len()
    &&& m[i].0 == k
    &&& forall|j: int| 0 <= j < i ==> m[j].0 != k
}

/// Some member of `m` has key `k`.
pub open spec fn has_key(m: Seq<(Seq<char>, JsonV)>, k: Seq<char>) -> bool {
    exists|i: int| 0 <= i < m.len() && m[i].0 == k
}

/// What a lookup of `k` among the members `m` finds: the value of the first member named `k`.
pub open spec fn member(m: Seq<(Seq<char>, JsonV)>, k: Seq<char>) -> Option<JsonV> {
    if has_key(m, k) {
        Some(m[choose|i: int| is_first_key(m, k, i)].1)
    } else {
        None
    }
}

/// No two members of `m` share a key.
pub open spec fn keys_distinct(m: Seq<(Seq<char>, JsonV)>) -> bool {
    forall|i: int, j: int| 0 <= i < j < m.len() ==> m[i].0 != m[j].0
}

/// The first member with key `k` exists whenever some member has that key.
pub proof fn lemma_first_key_exists(m: Seq<(Seq<char>, JsonV)>, k: Seq<char>)
    requires
        has_key(m, k),
    ensures
        exists|i: int| is_first_key(m, k, i),
{
    let i = choose|i: int| 0 <= i < m.len() && m[i].0 == k;
    lemma_first_key_below(m, k, i);
}

proof fn lemma_first_key_below(m: Seq<(Seq<char>, JsonV)>, k: Seq<char>, i: int)
    requires
        0 <= i < m.len(),
        m[i].0 == k,
    ensures
        exists|f: int| is_first_key(m, k, f),
    decreases i,
{
    if exists|j: int| 0 <= j < i && m[j].0 == k {
        let j = choose|j: int| 0 <= j < i && m[j].0 == k;
        lemma_first_key_below(m, k, j);
    } else {
        assert(is_first_key(m, k, i));
    }
}

/// A lookup finds the value at the first member with that key.
pub proof fn lemma_member_at(m: Seq<(Seq<char>, JsonV)>, k: Seq<char>, i: int)
    requires
        is_first_key(m, k, i),
    ensures
        member(m, k) == Some(m[i].1),
{
    lemma_first_key_exists(m, k);
    let c = choose|c: int| is_first_key(m, k, c);
    assert(c == i) by {
        if c < i {
            assert(m[c].0 == k);
        } else if i < c {
            assert(m[i].0 == k);
        }
    }
}

/// Each item of `items_view(s)` is the value of the corresponding document.
pub proof fn lemma_items_view_index(s: Seq<Json>)
    ensures
        items_view(s).len() == s.len(),
        forall|i: int| 0 <= i < s.len() ==> #[trigger] items_view(s)[i] == s[i]@,
    decreases s.len(),
{
    if s.len() > 0 {
        lemma_items_view_index(s.drop_last());
    }
}

/// Each member of `members_view(s)` is the key and value of the corresponding member.
pub proof fn lemma_members_view_index(s: Seq<(String, Json)>)
    ensures
        members_view(s).len() == s.len(),
        forall|i: int| 0 <= i < s.len() ==> #[trigger] members_view(s)[i] == (s[i].0@, s[i].1@),
    decreases s.len(),
{
    if s.len() > 0 {
        lemma_members_view_index(s.drop_last());
    }
}

impl View for Json {
    type V = JsonV;

    open spec fn view(&self) -> JsonV {
        json_view(*self)
    }
}

/// `items_view` of a sequence with one more item.
pub proof fn lemma_items_view_push(s: Seq<Json>, x: Json)
    ensures
        items_view(s.push(x)) == items_view(s).push(x@),
{
    assert(s.push(x).drop_last() =~= s);
}

/// `members_view` of a sequence with one more member.
pub proof fn lemma_members_view_push(s: Seq<(String, Json)>, x: (String, Json))
    ensures
        members_view(s.push(x)) == members_view(s).push((x.0@, x.1@)),
{
    assert(s.push(x).drop_last() =~= s);
}

impl Json {
    /// A copy of this value.
    pub fn deep_copy(&self) -> (r: Json)
        ensures
            r@ == self@,
        decreases self,
    {
        match self {
            Json::Null => Json::Null,
            Json::Bool(b) => Json::Bool(*b),
            Json::Number(n) => Json::Number(n.clone()),
            Json::Str(s) => Json::Str(s.clone()),
            Json::Array(items) => {
                let mut out: Vec<Json> = Vec::new();
                let mut i: usize = 0;
                while i < items.len()
                    invariant
                        i <= items.len(),
                        *self == Json::Array(*items),
                        items_view(out@) == items_view(items@.subrange(0, i as int)),
                    decreases items.len() - i,
                {
                    proof {
                        vstd::std_specs::vec::axiom_vec_index_decreases(*items, i as int);
                        assert(decreases_to!(*self => self->Array_0));
                    }
                    let c = items[i].deep_copy();
                    proof {
                        lemma_items_view_push(out@, c);
                        lemma_items_view_push(items@.subrange(0, i as int), items@[i as int]);
                        assert(items@.subrange(0, i as int).push(items@[i as int])
                            =~= items@.subrange(0, i + 1));
                    }
                    out.push(c);
                    i = i + 1;
                }
                assert(items@.subrange(0, items.len() as int) =~= items@);
                Json::Array(out)
            },
            Json::Object(members) => {
                let mut out: Vec<(String, Json)> = Vec::new();
                let mut i: usize = 0;
                while i < members.len()
                    invariant
                        i <= members.len(),
                        *self == Json::Object(*members),
                        members_view(out@) == members_view(members@.subrange(0, i as int)),
                    decreases members.len() - i,
                {
                    proof {
                        vstd::std_specs::vec::axiom_vec_index_decreases(*members, i as int);
                        assert(decreases_to!(*self => self->Object_0));
                        assert(decreases_to!(members@[i as int] => members@[i as int].1));
                    }
                    let c = members[i].1.deep_copy();
                    let k = members[i].0.clone();
                    proof {
                        lemma_members_view_push(out@, (k, c));
                        lemma_members_view_push(members@.subrange(0, i as int), members@[i as int]);
                        assert(members@.subrange(0, i as int).push(members@[i as int])
                            =~= members@.subrange(0, i + 1));
                    }
                    out.push((k, c));
                    i = i + 1;
                }
                assert(members@.subrange(0, members.len() as int) =~= members@);
                Json::Object(out)
            },
        }
    }
}


/// The position of the first member of `members` whose key is `k`.
pub fn find_key(members: &Vec<(String, Json)>, k: &String) -> (r: Option<usize>)
    ensures
        match r {
            Some(i) => is_first_key(members_view(members@), k@, i as int),
            None => !has_key(members_view(members@), k@),
        },
{
    proof {
        lemma_members_view_index(members@);
    }
    let mut i: usize = 0;
    while i < members.len()
        invariant
            i <= members.len(),
            members_view(members@).len() == members.len(),
            forall|j: int|
                0 <= j < members.len() ==> #[trigger] members_view(members@)[j] == (
                    members@[j].0@,
                    members@[j].1@,
                ),
            forall|j: int| 0 <= j < i ==> members_view(members@)[j].0 != k@,
        decreases members.len() - i,
    {
        if members[i].0 == *k {
            return Some(i);
        }
        i = i + 1;
    }
    None
}


/// Set member `key` of `members` to `value`: replace the first member with
/// that key, or append one.
pub fn insert_member(members: &mut Vec<(String, Json)>, key: String, value: Json)
    ensures
        forall|k: Seq<char>|
            #[trigger] member(members_view(final(members)@), k) == if k == key@ {
                Some(value@)
            } else {
                member(members_view(old(members)@), k)
            },
        keys_distinct(members_view(old(members)@)) ==> keys_distinct(members_view(final(members)@)),
        forall|k: Seq<char>|
            #[trigger] has_key(members_view(final(members)@), k) == (k == key@ || has_key(
                members_view(old(members)@),
                k,
            )),
{
    let ghost before = members_view(members@);
    let ghost kv = key@;
    let ghost vv = value@;
    proof {
        lemma_members_view_index(members@);
    }
    match find_key(members, &key) {
        Some(at) => {
            members.set(at, (key, value));
            proof {
                lemma_members_view_index(members@);
                let after = members_view(members@);
                assert(after =~= before.update(at as int, (kv, vv)));
                assert forall|k: Seq<char>| #[trigger] member(after, k) == if k == kv {
                    Some(vv)
                } else {
                    member(before, k)
                } by {
                    if k == kv {
                        assert(is_first_key(after, k, at as int));
                        lemma_member_at(after, k, at as int);
                    } else if has_key(before, k) {
                        lemma_first_key_exists(before, k);
                        let f = choose|f: int| is_first_key(before, k, f);
                        assert(is_first_key(after, k, f));
                        lemma_member_at(before, k, f);
                        lemma_member_at(after, k, f);
                    } else {
                        assert(!has_key(after, k));
                    }
                }
                assert forall|k: Seq<char>| #[trigger] has_key(after, k) == (k == kv || has_key(before, k)) by {
                    if has_key(after, k) {
                        let w = choose|w: int| 0 <= w < after.len() && after[w].0 == k;
                        assert(before[w].0 == k);
                    }
                    if has_key(before, k) {
                        let w = choose|w: int| 0 <= w < before.len() && before[w].0 == k;
                        assert(after[w].0 == k);
                    }
                }
            }
        },
        None => {
            members.push((key, value));
            proof {
                lemma_members_view_index(members@);
                let after = members_view(members@);
                assert(after =~= before.push((kv, vv)));
                assert forall|k: Seq<char>| #[trigger] member(after, k) == if k == kv {
                    Some(vv)
                } else {
                    member(before, k)
                } by {
                    if k == kv {
                        assert(is_first_key(after, k, before.len() as int));
                        lemma_member_at(after, k, before.len() as int);
                    } else if has_key(before, k) {
                        lemma_first_key_exists(before, k);
                        let f = choose|f: int| is_first_key(before, k, f);
                        assert(is_first_key(after, k, f));
                        lemma_member_at(before, k, f);
                        lemma_member_at(after, k, f);
                    } else {
                        assert(!has_key(after, k));
                    }
                }
                assert forall|k: Seq<char>| #[trigger] has_key(after, k) == (k == kv || has_key(before, k)) by {
                    if has_key(after, k) {
                        let w = choose|w: int| 0 <= w < after.len() && after[w].0 == k;
                        if w < before.len() {
                            assert(before[w].0 == k);
                        }
                    }
                    if has_key(before, k) {
                        let w = choose|w: int| 0 <= w < before.len() && before[w].0 == k;
                        assert(after[w].0 == k);
                    }
                    if k == kv {
                        assert(after[before.len() as int].0 == k);
                    }
                }
            }
        },
    }
}

/// The value of member `key` of `members`.
pub fn get_member<'a>(members: &'a Vec<(String, Json)>, key: &str) -> (r: Option<&'a Json>)
    ensures
        match r {
            Some(v) => member(members_view(members@), key@) == Some(v@),
            None => member(members_view(members@), key@) is None,
        },
{
    proof {
        lemma_members_view_index(members@);
    }
    let mut i: usize = 0;
    while i < members.len()
        invariant
            i <= members.len(),
            members_view(members@).len() == members.len(),
            forall|j: int|
                0 <= j < members.len() ==> #[trigger] members_view(members@)[j] == (
                    members@[j].0@,
                    members@[j].1@,
                ),
            forall|j: int| 0 <= j < i ==> members_view(members@)[j].0 != key@,
        decreases members.len() - i,
    {
        if crate::text::str_eq(members[i].0.as_str(), key) {
            proof {
                lemma_member_at(members_view(members@), key@, i as int);
            }
            return Some(&members[i].1);
        }
        i = i + 1;
    }
    None
}


// ── reading values ───────────────────────────────────────────────────────

/// The member `key` of a document, when it is an object that has one.
pub open spec fn get_spec(j: JsonV, key: Seq<char>) -> Option<JsonV> {
    match j {
        JsonV::Object(m) => member(m, key),
        _ => None,
    }
}

/// The member `key` of a document, or null when there is none (what
/// indexing a document by a key gives).
pub open spec fn field(j: JsonV, key: Seq<char>) -> JsonV {
    match get_spec(j, key) {
        Some(v) => v,
        None => JsonV::Null,
    }
}

impl Json {
    /// The member `key`, when this is an object that has one.
    pub fn get(&self, key: &str) -> (r: Option<&Json>)
        ensures
            match r {
                Some(v) => get_spec(self@, key@) == Some(v@),
                None => get_spec(self@, key@) is None,
            },
    {
        match self {
            Json::Object(members) => get_member(members, key),
            _ => None,
        }
    }

    /// The member `key`, or null when there is none.
    pub fn field(&self, key: &str) -> (r: Json)
        ensures
            r@ == field(self@, key@),
    {
        match self.get(key) {
            Some(v) => v.deep_copy(),
            None => Json::Null,
        }
    }

    /// The text, when this is a string.
    pub fn as_str(&self) -> (r: Option<&str>)
        ensures
            match r {
                Some(s) => self@ == JsonV::Str(s@),
                None => !(self@ is Str),
            },
    {
        match self {
            Json::Str(s) => Some(s.as_str()),
            _ => None,
        }
    }

    /// The value, when this is a boolean.
    pub fn as_bool(&self) -> (r: Option<bool>)
        ensures
            match r {
                Some(b) => self@ == JsonV::Bool(b),
                None => !(self@ is Bool),
            },
    {
        match self {
            Json::Bool(b) => Some(*b),
            _ => None,
        }
    }

    /// The items, when this is an array.
    pub fn as_array(&self) -> (r: Option<&Vec<Json>>)
        ensures
            match r {
                Some(items) => self@ == JsonV::Array(items_view(items@)),
                None => !(self@ is Array),
            },
    {
        match self {
            Json::Array(items) => Some(items),
            _ => None,
        }
    }

    /// The value, when this is a number that is a `u64`: its text is plain
    /// decimal digits of a value that fits.
    pub fn as_u64(&self) -> (r: Option<u64>)
        ensures
            r == match self@ {
                JsonV::Number(t) => if t.len() > 0 && t[0] == '+' {
                    None
                } else {
                    crate::text::parsed_u64(t)
                },
                _ => None,
            },
    {
        match self {
            Json::Number(t) => {
                let n = t.as_str().unicode_len();
                if n > 0 && t.as_str().get_char(0) == '+' {
                    None
                } else {
                    crate::text::parse_u64(t.as_str())
                }
            },
            _ => None,
        }
    }
}

} // verus!
