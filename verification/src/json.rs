//! JSON values as the cache keys need them: a canonical order of the members
//! of objects, and the text of a value.
use vstd::prelude::*;
use vstd::utf8::encode_utf8;
use vstd::string::StringSliceAdditionalSpecFns;
use vstd::string::StringExecFns;
use vstd::std_specs::vec::axiom_vec_index_decreases;
use crate::text::lemma_encoding_is_injective;

verus! {

/// One member of an object.
#[derive(Debug)]
pub struct JsonMember {
    pub key: String,
    pub value: JsonValue,
}

/// A JSON value. A number is held as its text, so that it passes through
/// unchanged.
#[derive(Debug)]
pub enum JsonValue {
    Null,
    Bool(bool),
    Number(String),
    Text(String),
    Array(Vec<JsonValue>),
    Object(Vec<JsonMember>),
}

/// A JSON value as contracts see it.
pub enum Json {
    Null,
    Bool(bool),
    Number(Seq<char>),
    Text(Seq<char>),
    Array(Seq<Json>),
    Object(Seq<(Seq<char>, Json)>),
}

/// The view of `value`.
pub open spec fn value_view(value: JsonValue) -> Json
    decreases value,
{
    match value {
        JsonValue::Null => Json::Null,
        JsonValue::Bool(b) => Json::Bool(b),
        JsonValue::Number(text) => Json::Number(text@),
        JsonValue::Text(text) => Json::Text(text@),
        JsonValue::Array(items) => Json::Array(
            Seq::new(
                items@.len(),
                |i: int|
                    if 0 <= i < items@.len() {
                        value_view(items@[i])
                    } else {
                        Json::Null
                    },
            ),
        ),
        JsonValue::Object(members) => Json::Object(
            Seq::new(
                members@.len(),
                |i: int|
                    if 0 <= i < members@.len() {
                        (members@[i].key@, value_view(members@[i].value))
                    } else {
                        (Seq::empty(), Json::Null)
                    },
            ),
        ),
    }
}

impl View for JsonValue {
    type V = Json;

    open spec fn view(&self) -> Json {
        value_view(*self)
    }
}

/// Whether `a` comes before `b` in the order of byte strings: at the first
/// place where they differ `a` has the smaller byte, or `a` ends there and
/// `b` goes on.
pub open spec fn bytes_before(a: Seq<u8>, b: Seq<u8>) -> bool
    decreases a.len(),
{
    if b.len() == 0 {
        false
    } else if a.len() == 0 {
        true
    } else if a[0] != b[0] {
        a[0] < b[0]
    } else {
        bytes_before(a.drop_first(), b.drop_first())
    }
}

/// Whether the key `a` comes before the key `b`: the order of their UTF-8
/// encodings, which is the order of strings.
pub open spec fn key_before(a: Seq<char>, b: Seq<char>) -> bool {
    bytes_before(encode_utf8(a), encode_utf8(b))
}

/// Two byte strings that agree up to `n` compare as what follows.
pub proof fn lemma_bytes_before_skip(a: Seq<u8>, b: Seq<u8>, n: int)
    requires
        0 <= n <= a.len(),
        n <= b.len(),
        a.subrange(0, n) == b.subrange(0, n),
    ensures
        bytes_before(a, b) == bytes_before(
            a.subrange(n, a.len() as int),
            b.subrange(n, b.len() as int),
        ),
    decreases n,
{
    if n == 0 {
        assert(a.subrange(0, a.len() as int) == a);
        assert(b.subrange(0, b.len() as int) == b);
    } else {
        assert(a[0] == a.subrange(0, n)[0]);
        assert(b[0] == b.subrange(0, n)[0]);
        assert(a.drop_first().subrange(0, n - 1) == a.subrange(0, n).drop_first());
        assert(b.drop_first().subrange(0, n - 1) == b.subrange(0, n).drop_first());
        lemma_bytes_before_skip(a.drop_first(), b.drop_first(), n - 1);
        assert(a.drop_first().subrange(n - 1, a.len() - 1) == a.subrange(n, a.len() as int));
        assert(b.drop_first().subrange(n - 1, b.len() - 1) == b.subrange(n, b.len() as int));
    }
}

/// Whether the key `a` comes before the key `b`.
pub fn key_less(a: &str, b: &str) -> (before: bool)
    ensures
        before == key_before(a@, b@),
{
    let x = a.as_bytes();
    let y = b.as_bytes();
    let mut i: usize = 0;
    while i < x.len() && i < y.len()
        invariant
            i <= x@.len(),
            i <= y@.len(),
            x@ == encode_utf8(a@),
            y@ == encode_utf8(b@),
            x@.subrange(0, i as int) == y@.subrange(0, i as int),
        decreases x@.len() - i,
    {
        if x[i] != y[i] {
            proof {
                lemma_bytes_before_skip(x@, y@, i as int);
                let sa = x@.subrange(i as int, x@.len() as int);
                let sb = y@.subrange(i as int, y@.len() as int);
                assert(sa[0] == x@[i as int]);
                assert(sb[0] == y@[i as int]);
                assert(bytes_before(sa, sb) == (sa[0] < sb[0]));
                assert(x@ == encode_utf8(a@));
                assert(y@ == encode_utf8(b@));
            }
            return x[i] < y[i];
        }
        assert(x@.subrange(0, i + 1) == x@.subrange(0, i as int).push(x@[i as int]));
        assert(y@.subrange(0, i + 1) == y@.subrange(0, i as int).push(y@[i as int]));
        i += 1;
    }
    proof {
        lemma_bytes_before_skip(x@, y@, i as int);
        assert(x@ == encode_utf8(a@));
        assert(y@ == encode_utf8(b@));
    }
    i < y.len()
}

/// No byte string comes before itself.
pub proof fn lemma_bytes_before_irreflexive(a: Seq<u8>)
    ensures
        !bytes_before(a, a),
    decreases a.len(),
{
    if a.len() > 0 {
        lemma_bytes_before_irreflexive(a.drop_first());
    }
}

/// Of two different byte strings one comes before the other.
pub proof fn lemma_bytes_before_connected(a: Seq<u8>, b: Seq<u8>)
    ensures
        a != b ==> bytes_before(a, b) || bytes_before(b, a),
        !(bytes_before(a, b) && bytes_before(b, a)),
    decreases a.len(),
{
    if a.len() > 0 && b.len() > 0 && a[0] == b[0] {
        lemma_bytes_before_connected(a.drop_first(), b.drop_first());
        if a.drop_first() == b.drop_first() {
            assert(a == seq![a[0]] + a.drop_first());
            assert(b == seq![b[0]] + b.drop_first());
        }
    } else if a.len() == 0 && b.len() == 0 {
        assert(a == b);
    }
}

/// The order of byte strings is transitive.
pub proof fn lemma_bytes_before_transitive(a: Seq<u8>, b: Seq<u8>, c: Seq<u8>)
    requires
        bytes_before(a, b),
        bytes_before(b, c),
    ensures
        bytes_before(a, c),
    decreases a.len(),
{
    if a.len() > 0 && a[0] == b[0] && b[0] == c[0] {
        lemma_bytes_before_transitive(a.drop_first(), b.drop_first(), c.drop_first());
    }
}

/// The members of an object as contracts see them.
pub type Members = Seq<(Seq<char>, Json)>;

/// The views of `members`.
pub open spec fn member_views(members: Seq<JsonMember>) -> Members {
    Seq::new(members.len(), |i: int| (members[i].key@, members[i].value@))
}

/// `sorted` with `member` put behind the last member whose key does not come
/// after its own.
pub open spec fn insert_member(sorted: Members, member: (Seq<char>, Json)) -> Members
    decreases sorted.len(),
{
    if sorted.len() > 0 && key_before(member.0, sorted.last().0) {
        insert_member(sorted.drop_last(), member).push(sorted.last())
    } else {
        sorted.push(member)
    }
}

/// `members` in the order of their keys; members of the same key keep their
/// order.
pub open spec fn sort_members(members: Members) -> Members
    decreases members.len(),
{
    if members.len() == 0 {
        Seq::empty()
    } else {
        insert_member(sort_members(members.drop_last()), members.last())
    }
}

/// Each of `items` in canonical order.
pub open spec fn canonical_items(items: Seq<Json>) -> Seq<Json>
    decreases items,
{
    Seq::new(
        items.len(),
        |i: int|
            if 0 <= i < items.len() {
                canonical(items[i])
            } else {
                Json::Null
            },
    )
}

/// `members` with each value in canonical order.
pub open spec fn canonical_members(members: Members) -> Members
    decreases members,
{
    Seq::new(
        members.len(),
        |i: int|
            if 0 <= i < members.len() {
                (members[i].0, canonical(members[i].1))
            } else {
                (Seq::empty(), Json::Null)
            },
    )
}

/// `value` with the members of every object in it in the order of their
/// keys. Arrays keep their order and scalars pass through.
pub open spec fn canonical(value: Json) -> Json
    decreases value,
{
    match value {
        Json::Array(items) => Json::Array(canonical_items(items)),
        Json::Object(members) => Json::Object(sort_members(canonical_members(members))),
        other => other,
    }
}

/// Whether the keys rise from each member to the next.
pub open spec fn keys_rise(members: Members) -> bool {
    forall|i: int, j: int|
        0 <= i < j < members.len() ==> key_before((#[trigger] members[i]).0, (#[trigger] members[j]).0)
}

/// No key occurs twice among `members`.
pub open spec fn distinct_member_keys(members: Members) -> bool {
    forall|i: int, j: int|
        0 <= i < j < members.len() ==> (#[trigger] members[i]).0 != (#[trigger] members[j]).0
}

/// Of two different keys one comes before the other, never both, and none
/// before itself.
pub proof fn lemma_key_order(a: Seq<char>, b: Seq<char>)
    ensures
        a != b ==> key_before(a, b) || key_before(b, a),
        !(key_before(a, b) && key_before(b, a)),
        !key_before(a, a),
{
    lemma_bytes_before_connected(encode_utf8(a), encode_utf8(b));
    lemma_bytes_before_irreflexive(encode_utf8(a));
    if encode_utf8(a) == encode_utf8(b) {
        lemma_encoding_is_injective(a, b);
    }
}

/// Putting a member in adds it and nothing else; and where the keys rose
/// and the new key is none of them, they still rise.
pub proof fn lemma_insert_member(sorted: Members, member: (Seq<char>, Json))
    ensures
        insert_member(sorted, member).len() == sorted.len() + 1,
        forall|x: (Seq<char>, Json)| #[trigger]
            insert_member(sorted, member).contains(x) <==> sorted.contains(x) || x == member,
        keys_rise(sorted) && (forall|j: int|
            0 <= j < sorted.len() ==> (#[trigger] sorted[j]).0 != member.0) ==> keys_rise(
            insert_member(sorted, member),
        ),
    decreases sorted.len(),
{
    let out = insert_member(sorted, member);
    if sorted.len() > 0 && key_before(member.0, sorted.last().0) {
        let head = sorted.drop_last();
        let last = sorted.last();
        lemma_insert_member(head, member);
        let inner = insert_member(head, member);
        assert(out == inner.push(last));
        assert forall|x: (Seq<char>, Json)| #[trigger] out.contains(x) <==> sorted.contains(x) || x
            == member by {
            if out.contains(x) {
                let k = choose|k: int| 0 <= k < out.len() && out[k] == x;
                if k < inner.len() {
                    assert(inner[k] == x);
                    assert(inner.contains(x));
                    if head.contains(x) {
                        let h = choose|h: int| 0 <= h < head.len() && head[h] == x;
                        assert(sorted[h] == x);
                    }
                } else {
                    assert(sorted[sorted.len() - 1] == x);
                }
            }
            if sorted.contains(x) {
                let h = choose|h: int| 0 <= h < sorted.len() && sorted[h] == x;
                if h < head.len() {
                    assert(head[h] == x);
                    assert(head.contains(x));
                    assert(inner.contains(x));
                    let k = choose|k: int| 0 <= k < inner.len() && inner[k] == x;
                    assert(out[k] == x);
                } else {
                    assert(out[out.len() - 1] == x);
                }
            }
            if x == member {
                assert(inner.contains(x));
                let k = choose|k: int| 0 <= k < inner.len() && inner[k] == x;
                assert(out[k] == x);
            }
        }
        if keys_rise(sorted) && (forall|j: int|
            0 <= j < sorted.len() ==> (#[trigger] sorted[j]).0 != member.0) {
            assert forall|a: int, b: int| 0 <= a < b < head.len() implies key_before(
                (#[trigger] head[a]).0,
                (#[trigger] head[b]).0,
            ) by {
                assert(head[a] == sorted[a] && head[b] == sorted[b]);
            }
            assert forall|j: int| 0 <= j < head.len() implies (#[trigger] head[j]).0
                != member.0 by {
                assert(head[j] == sorted[j]);
            }
            assert(keys_rise(inner));
            assert forall|a: int, b: int| 0 <= a < b < out.len() implies key_before(
                (#[trigger] out[a]).0,
                (#[trigger] out[b]).0,
            ) by {
                if b < inner.len() {
                    assert(out[a] == inner[a] && out[b] == inner[b]);
                } else {
                    assert(out[b] == last);
                    assert(out[a] == inner[a]);
                    assert(inner.contains(inner[a]));
                    if inner[a] == member {
                    } else {
                        assert(head.contains(inner[a]));
                        let h = choose|h: int| 0 <= h < head.len() && head[h] == inner[a];
                        assert(sorted[h] == inner[a]);
                        assert(key_before(sorted[h].0, sorted[sorted.len() - 1].0));
                    }
                }
            }
        }
    } else {
        assert(out == sorted.push(member));
        assert forall|x: (Seq<char>, Json)| #[trigger] out.contains(x) <==> sorted.contains(x) || x
            == member by {
            if out.contains(x) {
                let k = choose|k: int| 0 <= k < out.len() && out[k] == x;
                if k < sorted.len() {
                    assert(sorted[k] == x);
                }
            }
            if sorted.contains(x) {
                let h = choose|h: int| 0 <= h < sorted.len() && sorted[h] == x;
                assert(out[h] == x);
            }
            if x == member {
                assert(out[out.len() - 1] == x);
            }
        }
        if keys_rise(sorted) && (forall|j: int|
            0 <= j < sorted.len() ==> (#[trigger] sorted[j]).0 != member.0) {
            assert forall|a: int, b: int| 0 <= a < b < out.len() implies key_before(
                (#[trigger] out[a]).0,
                (#[trigger] out[b]).0,
            ) by {
                if b < sorted.len() {
                    assert(out[a] == sorted[a] && out[b] == sorted[b]);
                } else {
                    assert(out[b] == member);
                    assert(out[a] == sorted[a]);
                    let top = sorted[sorted.len() - 1];
                    assert(top.0 != member.0);
                    lemma_key_order(member.0, top.0);
                    assert(key_before(top.0, member.0));
                    if a < sorted.len() - 1 {
                        assert(key_before(sorted[a].0, top.0));
                        lemma_bytes_before_transitive(
                            encode_utf8(sorted[a].0),
                            encode_utf8(top.0),
                            encode_utf8(member.0),
                        );
                    }
                }
            }
        }
    }
}

/// Sorting keeps the members and loses none; and where no key occurs twice,
/// the keys of the result rise.
pub proof fn lemma_sort_members(members: Members)
    ensures
        sort_members(members).len() == members.len(),
        forall|x: (Seq<char>, Json)| #[trigger]
            sort_members(members).contains(x) <==> members.contains(x),
        distinct_member_keys(members) ==> keys_rise(sort_members(members)),
    decreases members.len(),
{
    if members.len() > 0 {
        let head = members.drop_last();
        let last = members.last();
        let sorted = sort_members(head);
        lemma_sort_members(head);
        lemma_insert_member(sorted, last);
        let out = sort_members(members);
        assert forall|x: (Seq<char>, Json)| #[trigger] out.contains(x) <==> members.contains(
            x,
        ) by {
            if head.contains(x) {
                let h = choose|h: int| 0 <= h < head.len() && head[h] == x;
                assert(members[h] == x);
            }
            if members.contains(x) {
                let h = choose|h: int| 0 <= h < members.len() && members[h] == x;
                if h < head.len() {
                    assert(head[h] == x);
                }
            }
            if x == last {
                assert(members[members.len() - 1] == x);
            }
        }
        if distinct_member_keys(members) {
            assert forall|a: int, b: int| 0 <= a < b < head.len() implies (#[trigger] head[a]).0 != (
            #[trigger] head[b]).0 by {
                assert(head[a] == members[a] && head[b] == members[b]);
            }
            assert forall|j: int| 0 <= j < sorted.len() implies (#[trigger] sorted[j]).0
                != last.0 by {
                assert(sorted.contains(sorted[j]));
                assert(head.contains(sorted[j]));
                let h = choose|h: int| 0 <= h < head.len() && head[h] == sorted[j];
                assert(members[h].0 != members[members.len() - 1].0);
            }
        }
    }
}

/// Two sequences of members with rising keys that hold the same members are
/// the same sequence.
pub proof fn lemma_rising_unique(a: Members, b: Members)
    requires
        keys_rise(a),
        keys_rise(b),
        forall|x: (Seq<char>, Json)| a.contains(x) <==> b.contains(x),
    ensures
        a == b,
    decreases a.len(),
{
    if a.len() == 0 {
        if b.len() > 0 {
            assert(b.contains(b[0]));
        }
        assert(a =~= b);
    } else {
        let top = a[a.len() - 1];
        assert(a.contains(top));
        assert(b.contains(top));
        let j = choose|j: int| 0 <= j < b.len() && b[j] == top;
        let other = b[b.len() - 1];
        assert(b.contains(other));
        assert(a.contains(other));
        let i = choose|i: int| 0 <= i < a.len() && a[i] == other;
        if j < b.len() - 1 && i < a.len() - 1 {
            assert(key_before(b[j].0, b[b.len() - 1].0));
            assert(key_before(a[i].0, a[a.len() - 1].0));
            lemma_key_order(top.0, other.0);
        }
        if j < b.len() - 1 {
            assert(key_before(b[j].0, b[b.len() - 1].0));
            lemma_key_order(top.0, top.0);
        }
        if i < a.len() - 1 {
            assert(key_before(a[i].0, a[a.len() - 1].0));
            lemma_key_order(top.0, top.0);
        }
        assert(top == other);
        let x = a.drop_last();
        let y = b.drop_last();
        assert forall|m: (Seq<char>, Json)| x.contains(m) <==> y.contains(m) by {
            if x.contains(m) {
                let k = choose|k: int| 0 <= k < x.len() && x[k] == m;
                assert(a[k] == m);
                assert(key_before(a[k].0, a[a.len() - 1].0));
                lemma_key_order(m.0, m.0);
                assert(a.contains(m));
                assert(b.contains(m));
                let l = choose|l: int| 0 <= l < b.len() && b[l] == m;
                assert(y[l] == m);
            }
            if y.contains(m) {
                let k = choose|k: int| 0 <= k < y.len() && y[k] == m;
                assert(b[k] == m);
                assert(key_before(b[k].0, b[b.len() - 1].0));
                lemma_key_order(m.0, m.0);
                assert(b.contains(m));
                assert(a.contains(m));
                let l = choose|l: int| 0 <= l < a.len() && a[l] == m;
                assert(x[l] == m);
            }
        }
        assert forall|p: int, q: int| 0 <= p < q < x.len() implies key_before(
            (#[trigger] x[p]).0,
            (#[trigger] x[q]).0,
        ) by {
            assert(x[p] == a[p] && x[q] == a[q]);
        }
        assert forall|p: int, q: int| 0 <= p < q < y.len() implies key_before(
            (#[trigger] y[p]).0,
            (#[trigger] y[q]).0,
        ) by {
            assert(y[p] == b[p] && y[q] == b[q]);
        }
        lemma_rising_unique(x, y);
        assert(a == x.push(top));
        assert(b == y.push(other));
    }
}

/// Where a member goes: behind `at` members, all of them with keys that do
/// not come after its own, and before members whose keys do.
pub proof fn lemma_insert_member_at(sorted: Members, member: (Seq<char>, Json), at: int)
    requires
        0 <= at <= sorted.len(),
        forall|j: int| at <= j < sorted.len() ==> key_before(member.0, (#[trigger] sorted[j]).0),
        at > 0 ==> !key_before(member.0, sorted[at - 1].0),
    ensures
        insert_member(sorted, member) == sorted.insert(at, member),
    decreases sorted.len(),
{
    if at == sorted.len() {
        assert(sorted.push(member) == sorted.insert(at, member));
    } else {
        let head = sorted.drop_last();
        assert(key_before(member.0, sorted[sorted.len() - 1].0));
        assert forall|j: int| at <= j < head.len() implies key_before(
            member.0,
            (#[trigger] head[j]).0,
        ) by {
            assert(head[j] == sorted[j]);
        }
        lemma_insert_member_at(head, member, at);
        assert(head.insert(at, member).push(sorted.last()) == sorted.insert(at, member));
    }
}

/// Puts `member` into `sorted` where its key belongs.
fn insert_sorted(sorted: &mut Vec<JsonMember>, member: JsonMember)
    ensures
        member_views(final(sorted)@) == insert_member(
            member_views(old(sorted)@),
            (member.key@, member.value@),
        ),
{
    let ghost before = member_views(sorted@);
    let mut at: usize = sorted.len();
    while at > 0 && key_less(member.key.as_str(), sorted[at - 1].key.as_str())
        invariant
            at <= sorted@.len(),
            sorted@ == old(sorted)@,
            forall|j: int|
                at <= j < sorted@.len() ==> key_before(member.key@, (#[trigger] sorted@[j]).key@),
        decreases at,
    {
        at -= 1;
    }
    proof {
        assert forall|j: int| at <= j < before.len() implies key_before(
            member.key@,
            (#[trigger] before[j]).0,
        ) by {
            assert(key_before(member.key@, sorted@[j].key@));
        }
        lemma_insert_member_at(before, (member.key@, member.value@), at as int);
    }
    sorted.insert(at, member);
    assert(member_views(sorted@) == before.insert(at as int, (member.key@, member.value@)));
}

/// `value` with the members of every object in it in the order of their
/// keys.
pub fn canonical_json(value: &JsonValue) -> (ordered: JsonValue)
    ensures
        ordered@ == canonical(value@),
    decreases value,
{
    match value {
        JsonValue::Null => JsonValue::Null,
        JsonValue::Bool(b) => JsonValue::Bool(*b),
        JsonValue::Number(text) => JsonValue::Number(text.clone()),
        JsonValue::Text(text) => JsonValue::Text(text.clone()),
        JsonValue::Array(items) => {
            let mut ordered: Vec<JsonValue> = Vec::new();
            let mut i: usize = 0;
            while i < items.len()
                invariant
                    *value == JsonValue::Array(*items),
                    i <= items@.len(),
                    ordered@.len() == i,
                    forall|j: int| 0 <= j < i ==> (#[trigger] ordered@[j])@ == canonical(items@[j]@),
                decreases items@.len() - i,
            {
                proof {
                    assert(decreases_to!(*value => value->Array_0));
                    axiom_vec_index_decreases(*items, i as int);
                }
                let item = canonical_json(&items[i]);
                ordered.push(item);
                i += 1;
            }
            let result = JsonValue::Array(ordered);
            assert(result@ == canonical(value@)) by {
                assert(result@->Array_0 =~= canonical(value@)->Array_0);
            }
            result
        },
        JsonValue::Object(members) => {
            let mut ordered: Vec<JsonMember> = Vec::new();
            let ghost each = Seq::new(
                members@.len(),
                |i: int|
                    if 0 <= i < members@.len() {
                        (members@[i].key@, canonical(members@[i].value@))
                    } else {
                        (Seq::empty(), Json::Null)
                    },
            );
            let mut i: usize = 0;
            while i < members.len()
                invariant
                    *value == JsonValue::Object(*members),
                    i <= members@.len(),
                    each.len() == members@.len(),
                    forall|j: int|
                        0 <= j < each.len() ==> #[trigger] each[j] == (
                            members@[j].key@,
                            canonical(members@[j].value@),
                        ),
                    member_views(ordered@) == sort_members(each.subrange(0, i as int)),
                decreases members@.len() - i,
            {
                proof {
                    assert(decreases_to!(*value => value->Object_0));
                    axiom_vec_index_decreases(*members, i as int);
                    assert(each.subrange(0, i + 1).drop_last() == each.subrange(0, i as int));
                }
                let member = JsonMember {
                    key: members[i].key.clone(),
                    value: canonical_json(&members[i].value),
                };
                insert_sorted(&mut ordered, member);
                i += 1;
            }
            assert(each.subrange(0, i as int) == each);
            let result = JsonValue::Object(ordered);
            assert(result@ == canonical(value@)) by {
                let held = value@->Object_0;
                assert(held.len() == members@.len());
                assert forall|j: int| 0 <= j < each.len() implies canonical_members(held)[j]
                    == each[j] by {
                    assert(held[j] == (members@[j].key@, members@[j].value@));
                }
                assert(canonical_members(held) =~= each);
                assert(result@->Object_0 =~= member_views(ordered@));
            }
            result
        },
    }
}

/// Whether no object in `value` has a key twice.
pub open spec fn keys_are_distinct(value: Json) -> bool
    decreases value,
{
    match value {
        Json::Array(items) => forall|i: int|
            0 <= i < items.len() ==> keys_are_distinct(#[trigger] items[i]),
        Json::Object(members) => {
            &&& distinct_member_keys(members)
            &&& forall|i: int|
                0 <= i < members.len() ==> keys_are_distinct((#[trigger] members[i]).1)
        },
        _ => true,
    }
}

/// Whether `members` hold a member with the key of `member` and the same
/// value but for order.
pub open spec fn has_match(member: (Seq<char>, Json), members: Members) -> bool
    decreases member,
{
    exists|j: int|
        0 <= j < members.len() && (#[trigger] members[j]).0 == member.0 && same_but_for_order(
            member.1,
            members[j].1,
        )
}

/// Whether `members` hold a member with the key of `member` and the same
/// value but for order, seen from `members`.
pub open spec fn is_match_of(members: Members, member: (Seq<char>, Json)) -> bool
    decreases members,
{
    exists|i: int|
        0 <= i < members.len() && (#[trigger] members[i]).0 == member.0 && same_but_for_order(
            members[i].1,
            member.1,
        )
}

/// Whether `a` and `b` are the same value but for the order in which their
/// objects list their members.
pub open spec fn same_but_for_order(a: Json, b: Json) -> bool
    decreases a,
{
    match a {
        Json::Array(x) => {
            &&& b matches Json::Array(y)
            &&& x.len() == y.len()
            &&& forall|i: int| 0 <= i < x.len() ==> same_but_for_order(#[trigger] x[i], y[i])
        },
        Json::Object(x) => {
            &&& b matches Json::Object(y)
            &&& forall|i: int| 0 <= i < x.len() ==> has_match(#[trigger] x[i], y)
            &&& forall|j: int| 0 <= j < y.len() ==> is_match_of(x, #[trigger] y[j])
        },
        _ => a == b,
    }
}

/// Values that differ in nothing but the order of the members of their
/// objects have the same canonical form, and so the same canonical text.
pub proof fn lemma_order_is_free(a: Json, b: Json)
    requires
        same_but_for_order(a, b),
        keys_are_distinct(a),
        keys_are_distinct(b),
    ensures
        canonical(a) == canonical(b),
        json_text(canonical(a)) == json_text(canonical(b)),
    decreases a,
{
    match a {
        Json::Array(x) => {
            let y = b->Array_0;
            assert forall|i: int| 0 <= i < x.len() implies canonical_items(x)[i] == canonical_items(
                y,
            )[i] by {
                assert(same_but_for_order(x[i], y[i]));
                assert(keys_are_distinct(x[i]));
                assert(keys_are_distinct(y[i]));
                lemma_order_is_free(x[i], y[i]);
            }
            assert(canonical_items(x) =~= canonical_items(y));
        },
        Json::Object(x) => {
            let y = b->Object_0;
            let cx = canonical_members(x);
            let cy = canonical_members(y);
            assert forall|i: int| 0 <= i < x.len() implies cy.contains(#[trigger] cx[i]) by {
                assert(has_match(x[i], y));
                let j = choose|j: int|
                    0 <= j < y.len() && (#[trigger] y[j]).0 == x[i].0 && same_but_for_order(
                        x[i].1,
                        y[j].1,
                    );
                assert(keys_are_distinct(x[i].1));
                assert(keys_are_distinct(y[j].1));
                lemma_order_is_free(x[i].1, y[j].1);
                assert(cy[j] == cx[i]);
            }
            assert forall|j: int| 0 <= j < y.len() implies cx.contains(#[trigger] cy[j]) by {
                assert(is_match_of(x, y[j]));
                let i = choose|i: int|
                    0 <= i < x.len() && (#[trigger] x[i]).0 == y[j].0 && same_but_for_order(
                        x[i].1,
                        y[j].1,
                    );
                assert(keys_are_distinct(x[i].1));
                assert(keys_are_distinct(y[j].1));
                lemma_order_is_free(x[i].1, y[j].1);
                assert(cx[i] == cy[j]);
            }
            lemma_same_members_sort_alike(x, y, cx, cy);
        },
        _ => {},
    }
}

/// Members with distinct keys that hold the same pairs are sorted alike.
proof fn lemma_same_members_sort_alike(x: Members, y: Members, cx: Members, cy: Members)
    requires
        distinct_member_keys(x),
        distinct_member_keys(y),
        cx.len() == x.len(),
        cy.len() == y.len(),
        forall|i: int| 0 <= i < x.len() ==> (#[trigger] cx[i]).0 == x[i].0,
        forall|j: int| 0 <= j < y.len() ==> (#[trigger] cy[j]).0 == y[j].0,
        forall|i: int| 0 <= i < cx.len() ==> cy.contains(#[trigger] cx[i]),
        forall|j: int| 0 <= j < cy.len() ==> cx.contains(#[trigger] cy[j]),
    ensures
        sort_members(cx) == sort_members(cy),
{
    assert forall|m: (Seq<char>, Json)| cx.contains(m) <==> cy.contains(m) by {
        if cx.contains(m) {
            let i = choose|i: int| 0 <= i < cx.len() && cx[i] == m;
            assert(cy.contains(cx[i]));
        }
        if cy.contains(m) {
            let j = choose|j: int| 0 <= j < cy.len() && cy[j] == m;
            assert(cx.contains(cy[j]));
        }
    }
    assert(distinct_member_keys(cx)) by {
        assert forall|i: int, j: int| 0 <= i < j < cx.len() implies (#[trigger] cx[i]).0 != (
        #[trigger] cx[j]).0 by {
            assert(x[i].0 != x[j].0);
        }
    }
    assert(distinct_member_keys(cy)) by {
        assert forall|i: int, j: int| 0 <= i < j < cy.len() implies (#[trigger] cy[i]).0 != (
        #[trigger] cy[j]).0 by {
            assert(y[i].0 != y[j].0);
        }
    }
    lemma_sort_members(cx);
    lemma_sort_members(cy);
    lemma_rising_unique(sort_members(cx), sort_members(cy));
}

/// The JSON string literal of `text`: the text between double quotes, with
/// the characters escaped that JSON does not take as they are.
pub uninterp spec fn json_quoted(text: Seq<char>) -> Seq<char>;

/// Writes `text` as a JSON string literal with `serde_json::to_string`. The
/// literal is a function of the text alone; its escapes are not stated.
#[verifier::external_body]
fn quote_json(text: &str) -> (quoted: String)
    ensures
        quoted@ == json_quoted(text@),
{
    serde_json::to_string(text).unwrap_or_default()
}

/// The texts of the first `n` of `items`, with commas between them.
pub open spec fn items_text(items: Seq<Json>, n: int) -> Seq<char>
    decreases items, n,
{
    if n <= 0 || n > items.len() {
        Seq::empty()
    } else if n == 1 {
        json_text(items[0])
    } else {
        items_text(items, n - 1) + ","@ + json_text(items[n - 1])
    }
}

/// The texts of the first `n` of `members`, with commas between them: each
/// the key as a string literal, a colon, and the text of the value.
pub open spec fn members_text(members: Members, n: int) -> Seq<char>
    decreases members, n,
{
    if n <= 0 || n > members.len() {
        Seq::empty()
    } else if n == 1 {
        json_quoted(members[0].0) + ":"@ + json_text(members[0].1)
    } else {
        members_text(members, n - 1) + ","@ + json_quoted(members[n - 1].0) + ":"@ + json_text(
            members[n - 1].1,
        )
    }
}

/// The compact text of `value`: no white space between its tokens.
pub open spec fn json_text(value: Json) -> Seq<char>
    decreases value, 0int,
{
    match value {
        Json::Null => "null"@,
        Json::Bool(b) => if b {
            "true"@
        } else {
            "false"@
        },
        Json::Number(text) => text,
        Json::Text(text) => json_quoted(text),
        Json::Array(items) => "["@ + items_text(items, items.len() as int) + "]"@,
        Json::Object(members) => "{"@ + members_text(members, members.len() as int) + "}"@,
    }
}

/// Writes the compact text of `value` behind `out`.
pub fn write_json(out: &mut String, value: &JsonValue)
    ensures
        final(out)@ == old(out)@ + json_text(value@),
    decreases value,
{
    match value {
        JsonValue::Null => {
            out.append("null");
        },
        JsonValue::Bool(b) => {
            if *b {
                out.append("true");
            } else {
                out.append("false");
            }
        },
        JsonValue::Number(text) => {
            out.append(text.as_str());
        },
        JsonValue::Text(text) => {
            let quoted = quote_json(text.as_str());
            out.append(quoted.as_str());
        },
        JsonValue::Array(items) => {
            out.append("[");
            let ghost held = value@->Array_0;
            let mut i: usize = 0;
            while i < items.len()
                invariant
                    *value == JsonValue::Array(*items),
                    held == value@->Array_0,
                    held.len() == items@.len(),
                    i <= items@.len(),
                    out@ == old(out)@ + "["@ + items_text(held, i as int),
                decreases items@.len() - i,
            {
                proof {
                    assert(decreases_to!(*value => value->Array_0));
                    axiom_vec_index_decreases(*items, i as int);
                    assert(held[i as int] == items@[i as int]@);
                }
                let ghost before = out@;
                if i > 0 {
                    out.append(",");
                }
                write_json(out, &items[i]);
                assert(out@ == old(out)@ + "["@ + items_text(held, i + 1)) by {
                    if i > 0 {
                        assert(out@ == before + ","@ + json_text(held[i as int]));
                        assert(out@ == old(out)@ + "["@ + (items_text(held, i as int) + ","@
                            + json_text(held[i as int])));
                    } else {
                        assert(before + items_text(held, 0) == before);
                        assert(before == old(out)@ + "["@);
                    }
                }
                i += 1;
            }
            out.append("]");
        },
        JsonValue::Object(members) => {
            out.append("{");
            let ghost held = value@->Object_0;
            let mut i: usize = 0;
            while i < members.len()
                invariant
                    *value == JsonValue::Object(*members),
                    held == value@->Object_0,
                    held.len() == members@.len(),
                    i <= members@.len(),
                    out@ == old(out)@ + "{"@ + members_text(held, i as int),
                decreases members@.len() - i,
            {
                proof {
                    assert(decreases_to!(*value => value->Object_0));
                    axiom_vec_index_decreases(*members, i as int);
                    assert(held[i as int] == (members@[i as int].key@, members@[i as int].value@));
                }
                let ghost before = out@;
                if i > 0 {
                    out.append(",");
                }
                let quoted = quote_json(members[i].key.as_str());
                out.append(quoted.as_str());
                out.append(":");
                write_json(out, &members[i].value);
                assert(out@ == old(out)@ + "{"@ + members_text(held, i + 1)) by {
                    let piece = json_quoted(held[i as int].0) + ":"@ + json_text(held[i as int].1);
                    if i > 0 {
                        assert(out@ == before + ","@ + json_quoted(held[i as int].0) + ":"@
                            + json_text(held[i as int].1));
                        assert(out@ == old(out)@ + "{"@ + (members_text(held, i as int) + ","@
                            + json_quoted(held[i as int].0) + ":"@ + json_text(held[i as int].1)));
                    } else {
                        assert(before + members_text(held, 0) == before);
                        assert(before == old(out)@ + "{"@);
                        assert(out@ == before + json_quoted(held[i as int].0) + ":"@ + json_text(
                            held[i as int].1,
                        ));
                        assert(out@ == old(out)@ + "{"@ + piece);
                    }
                }
                i += 1;
            }
            out.append("}");
        },
    }
}

/// The compact text of `value`.
pub fn to_json_text(value: &JsonValue) -> (text: String)
    ensures
        text@ == json_text(value@),
{
    let mut text = String::new();
    write_json(&mut text, value);
    text
}

} // verus!
