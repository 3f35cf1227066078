//! JSON values, by what they hold.
//!
//! A value is described by its texts, the lengths of its lists and the keys of its objects. Each is
//! found by a JSON pointer, the path from the root of the value to the place: `/data/0/ordId` is the
//! member `ordId` of the first item of the member `data`. Numbers, booleans and nulls are not told
//! apart: one stands where a list has an item, or an object a key, and there is no text, no list and
//! no object.

use crate::number::Real;
use crate::parse::parsed_real;
use crate::text::decimal;
use crate::text::decimal_text;
use crate::text::parse_u64;
use crate::text::parsed_u64;
use serde_json::Value;
use vstd::prelude::*;
use vstd::string::*;

verus! {

/// A value of `serde_json`.
#[verifier::external_type_specification]
#[verifier::external_body]
pub struct ExValue(serde_json::Value);

/// The texts in a value, by their pointers.
pub uninterp spec fn json_texts(v: serde_json::Value) -> Map<Seq<char>, Seq<char>>;

/// The lengths of the lists in a value, by their pointers.
pub uninterp spec fn json_lists(v: serde_json::Value) -> Map<Seq<char>, nat>;

/// The keys of the objects in a value, by their pointers.
pub uninterp spec fn json_keys(v: serde_json::Value) -> Map<Seq<char>, Set<Seq<char>>>;

/// How deep lists and objects are nested in a value.
pub uninterp spec fn json_depth(v: serde_json::Value) -> nat;

/// The texts, the lists and the objects' keys of the value that a document holds, `None` where it
/// holds none.
pub uninterp spec fn parsed_json(text: Seq<char>) -> Option<
    (Map<Seq<char>, Seq<char>>, Map<Seq<char>, nat>, Map<Seq<char>, Set<Seq<char>>>),
>;

/// The document that a value is written as.
pub uninterp spec fn printed_json(v: serde_json::Value) -> Seq<char>;

/// All that is said of a value.
pub struct Content {
    pub texts: Map<Seq<char>, Seq<char>>,
    pub lists: Map<Seq<char>, nat>,
    pub keys: Map<Seq<char>, Set<Seq<char>>>,
    pub depth: nat,
}

/// What a value holds.
pub open spec fn content(v: serde_json::Value) -> Content {
    Content {
        texts: json_texts(v),
        lists: json_lists(v),
        keys: json_keys(v),
        depth: json_depth(v),
    }
}

/// What a text holds.
pub open spec fn text_content(s: Seq<char>) -> Content {
    Content {
        texts: map![Seq::<char>::empty() => s],
        lists: Map::empty(),
        keys: Map::empty(),
        depth: 0,
    }
}

/// The pointer to a member of the root.
pub open spec fn member_pointer(key: Seq<char>) -> Seq<char> {
    "/"@ + key
}

/// A map with the same values under longer pointers.
pub open spec fn below<T>(m: Map<Seq<char>, T>, at: Seq<char>) -> Map<Seq<char>, T> {
    Map::new(
        |p: Seq<char>| at.is_prefix_of(p) && m.contains_key(p.skip(at.len() as int)),
        |p: Seq<char>| m[p.skip(at.len() as int)],
    )
}

/// The texts of the members of an object.
pub open spec fn member_texts(members: Seq<(Seq<char>, Content)>) -> Map<Seq<char>, Seq<char>>
    decreases members.len(),
{
    if members.len() == 0 {
        Map::empty()
    } else {
        let (key, value) = members.last();
        member_texts(members.drop_last()).union_prefer_right(
            below(value.texts, member_pointer(key)),
        )
    }
}

/// The lists of the members of an object.
pub open spec fn member_lists(members: Seq<(Seq<char>, Content)>) -> Map<Seq<char>, nat>
    decreases members.len(),
{
    if members.len() == 0 {
        Map::empty()
    } else {
        let (key, value) = members.last();
        member_lists(members.drop_last()).union_prefer_right(
            below(value.lists, member_pointer(key)),
        )
    }
}

/// The keys of the objects among the members of an object, and in them.
pub open spec fn member_keys(members: Seq<(Seq<char>, Content)>) -> Map<Seq<char>, Set<Seq<char>>>
    decreases members.len(),
{
    if members.len() == 0 {
        Map::empty()
    } else {
        let (key, value) = members.last();
        member_keys(members.drop_last()).union_prefer_right(
            below(value.keys, member_pointer(key)),
        )
    }
}

/// The keys of an object with these members.
pub open spec fn key_set(members: Seq<(Seq<char>, Content)>) -> Set<Seq<char>> {
    members.map_values(|m: (Seq<char>, Content)| m.0).to_set()
}

/// The depth of a list or an object, from those of what is in it.
pub open spec fn depth_above(members: Seq<(Seq<char>, Content)>) -> nat
    decreases members.len(),
{
    if members.len() == 0 {
        1
    } else {
        let (d, e) = (depth_above(members.drop_last()), members.last().1.depth);
        if d >= e + 1 { d } else { e + 1 }
    }
}

/// What an object with these members holds.
pub open spec fn object_content(members: Seq<(Seq<char>, Content)>) -> Content {
    Content {
        texts: member_texts(members),
        lists: member_lists(members),
        keys: member_keys(members).insert(Seq::empty(), key_set(members)),
        depth: depth_above(members),
    }
}

/// The items of a list, each under its place.
pub open spec fn numbered(items: Seq<Content>) -> Seq<(Seq<char>, Content)> {
    Seq::new(items.len(), |i: int| (decimal(i as nat), items[i]))
}

/// What a list of these items holds.
pub open spec fn list_content(items: Seq<Content>) -> Content {
    Content {
        texts: member_texts(numbered(items)),
        lists: member_lists(numbered(items)).insert(Seq::empty(), items.len()),
        keys: member_keys(numbered(items)),
        depth: depth_above(numbered(items)),
    }
}

/// Whether the document of a value of some depth is read back as that value.
pub open spec fn readable(depth: nat) -> bool {
    depth < 128
}

/// Whether a document says what a value holds.
pub open spec fn says(document: Seq<char>, c: Content) -> bool {
    parsed_json(document) == Some((c.texts, c.lists, c.keys))
}

/// The text at a pointer, if there is one.
pub open spec fn text_in(texts: Map<Seq<char>, Seq<char>>, pointer: Seq<char>) -> Option<Seq<char>> {
    if texts.contains_key(pointer) { Some(texts[pointer]) } else { None }
}

/// The text at a pointer, or another one where there is none.
pub open spec fn text_or(
    texts: Map<Seq<char>, Seq<char>>,
    pointer: Seq<char>,
    other: Seq<char>,
) -> Seq<char> {
    if texts.contains_key(pointer) { texts[pointer] } else { other }
}

/// The number in the text at a pointer, if there is one.
pub open spec fn number_in(texts: Map<Seq<char>, Seq<char>>, pointer: Seq<char>) -> Option<Real> {
    match text_in(texts, pointer) {
        Some(s) => parsed_real(s),
        None => None,
    }
}

/// The integer in the text at a pointer, if there is one.
pub open spec fn integer_in(texts: Map<Seq<char>, Seq<char>>, pointer: Seq<char>) -> Option<u64> {
    match text_in(texts, pointer) {
        Some(s) => parsed_u64(s),
        None => None,
    }
}

/// The pointer to an item of the list `data`.
pub open spec fn item_pointer(i: nat) -> Seq<char> {
    "/data/"@ + decimal(i)
}

/// The length of the list at a pointer, if there is one.
pub open spec fn list_in(lists: Map<Seq<char>, nat>, pointer: Seq<char>) -> Option<nat> {
    if lists.contains_key(pointer) { Some(lists[pointer]) } else { None }
}

/// Whether a key stands in a pointer as it is.
pub open spec fn plain_key(key: Seq<char>) -> bool {
    forall|i: int| 0 <= i < key.len() ==> key[i] != '/' && key[i] != '~'
}

/// What the values of some members hold, each under its key.
pub open spec fn member_contents(members: Seq<(String, serde_json::Value)>) -> Seq<
    (Seq<char>, Content),
> {
    Seq::new(members.len(), |i: int| (members[i].0@, content(members[i].1)))
}

/// What some values hold.
pub open spec fn contents(items: Seq<serde_json::Value>) -> Seq<Content> {
    Seq::new(items.len(), |i: int| content(items[i]))
}

/// The value that a document holds, by `serde_json::from_str`. What comes back is what the
/// document says: the texts, the lists and the keys depend on the document alone.
#[verifier::external_body]
pub(crate) fn parse_json(text: &str) -> (r: Option<Value>)
    ensures
        match r {
            Some(v) => parsed_json(text@) == Some((json_texts(v), json_lists(v), json_keys(v))),
            None => parsed_json(text@) is None,
        },
{
    serde_json::from_str::<Value>(text).ok()
}

/// The text at a pointer, by `serde_json::Value::pointer` and `as_str`. There is one exactly
/// where the value has a text at that pointer.
#[verifier::external_body]
pub(crate) fn text_at(v: &Value, pointer: &str) -> (r: Option<String>)
    ensures
        match r {
            Some(s) => text_in(json_texts(*v), pointer@) == Some(s@),
            None => text_in(json_texts(*v), pointer@) is None,
        },
{
    v.pointer(pointer).and_then(|t| t.as_str()).map(|s| s.to_string())
}

/// The length of the list at a pointer, by `serde_json::Value::pointer` and `as_array`. There is
/// one exactly where the value has a list at that pointer.
#[verifier::external_body]
pub(crate) fn list_at(v: &Value, pointer: &str) -> (r: Option<usize>)
    ensures
        match r {
            Some(n) => list_in(json_lists(*v), pointer@) == Some(n as nat),
            None => list_in(json_lists(*v), pointer@) is None,
        },
{
    v.pointer(pointer).and_then(|t| t.as_array()).map(|a| a.len())
}

/// A text as a value, by `serde_json::Value::String`. It holds that text at its root, no list
/// and no object.
#[verifier::external_body]
pub(crate) fn text_value(s: &str) -> (r: Value)
    ensures
        content(r) == text_content(s@),
{
    Value::String(s.to_string())
}

/// A list as a value, by `serde_json::Value::Array`. It holds the list at its root, and what its
/// items hold, each below its place in the list.
#[verifier::external_body]
pub(crate) fn list_value(items: Vec<Value>) -> (r: Value)
    ensures
        content(r) == list_content(contents(items@)),
{
    Value::Array(items)
}

/// An object as a value, by `serde_json::Value::Object` and the `FromIterator` of
/// `serde_json::Map`. It holds an object with the members' keys at its root, and what its members
/// hold, each below its key. The keys differ, and need no escape in a pointer.
#[verifier::external_body]
pub(crate) fn object_value(members: Vec<(String, Value)>) -> (r: Value)
    requires
        forall|i: int| 0 <= i < members.len() ==> plain_key(#[trigger] members[i].0@),
        forall|i: int, j: int|
            0 <= i < j < members.len() ==> #[trigger] members[i].0@ != #[trigger] members[j].0@,
    ensures
        content(r) == object_content(member_contents(members@)),
{
    Value::Object(serde_json::Map::from_iter(members))
}

/// A value as a document, by the `Display` of `serde_json::Value`. The document depends on the value
/// alone. That of a value that is nested no deeper than `serde_json::from_str` follows is read back
/// with the same texts, lists and keys.
#[verifier::external_body]
pub(crate) fn value_text(v: &Value) -> (r: String)
    ensures
        r@ == printed_json(*v),
        readable(json_depth(*v)) ==> parsed_json(r@) == Some(
            (json_texts(*v), json_lists(*v), json_keys(*v)),
        ),
{
    v.to_string()
}

/// The text at a pointer, or another one where there is none.
pub(crate) fn text_at_or(v: &Value, pointer: &str, other: &str) -> (r: String)
    ensures
        r@ == text_or(json_texts(*v), pointer@, other@),
{
    match text_at(v, pointer) {
        Some(s) => s,
        None => other.to_owned(),
    }
}

/// The text at a place below a pointer.
pub(crate) fn text_below(v: &Value, at: &str, key: &str) -> (r: Option<String>)
    ensures
        match r {
            Some(s) => text_in(json_texts(*v), at@ + key@) == Some(s@),
            None => text_in(json_texts(*v), at@ + key@) is None,
        },
{
    let mut pointer = at.to_owned();
    pointer.append(key);
    text_at(v, pointer.as_str())
}

/// The number in the text at a place below a pointer.
pub(crate) fn number_below(v: &Value, at: &str, key: &str) -> (r: Option<Real>)
    ensures
        r == number_in(json_texts(*v), at@ + key@),
{
    match text_below(v, at, key) {
        Some(s) => Real::parse(s.as_str()),
        None => None,
    }
}

/// The integer in the text at a place below a pointer.
pub(crate) fn integer_below(v: &Value, at: &str, key: &str) -> (r: Option<u64>)
    ensures
        r == integer_in(json_texts(*v), at@ + key@),
{
    match text_below(v, at, key) {
        Some(s) => parse_u64(s.as_str()),
        None => None,
    }
}

/// The pointer to an item of the list `data`.
pub(crate) fn item_at(i: usize) -> (s: String)
    ensures
        s@ == item_pointer(i as nat),
{
    let mut s = "/data/".to_owned();
    s.append(decimal_text(i as u64).as_str());
    s
}

/// The contents of pairs of texts.
pub open spec fn pair_texts(pairs: Seq<(String, String)>) -> Seq<(Seq<char>, Seq<char>)> {
    Seq::new(pairs.len(), |i: int| (pairs[i].0@, pairs[i].1@))
}

/// Texts as members of an object.
pub open spec fn text_members(pairs: Seq<(Seq<char>, Seq<char>)>) -> Seq<(Seq<char>, Content)> {
    Seq::new(pairs.len(), |i: int| (pairs[i].0, text_content(pairs[i].1)))
}

/// What an object of texts holds.
pub open spec fn flat_content(pairs: Seq<(Seq<char>, Seq<char>)>) -> Content {
    object_content(text_members(pairs))
}

/// Whether keys can be told apart, and stand in pointers as they are.
pub open spec fn good_keys(pairs: Seq<(Seq<char>, Seq<char>)>) -> bool {
    &&& forall|i: int| 0 <= i < pairs.len() ==> plain_key(#[trigger] pairs[i].0)
    &&& forall|i: int, j: int|
        0 <= i < j < pairs.len() ==> #[trigger] pairs[i].0 != #[trigger] pairs[j].0
}

/// Texts as members of an object.
pub(crate) fn fields(pairs: Vec<(String, String)>) -> (r: Vec<(String, Value)>)
    ensures
        member_contents(r@) == text_members(pair_texts(pairs@)),
        r@.len() == pairs@.len(),
        forall|i: int| 0 <= i < r@.len() ==> #[trigger] r@[i].0@ == pairs@[i].0@,
{
    let mut members: Vec<(String, Value)> = Vec::new();
    let mut i: usize = 0;
    while i < pairs.len()
        invariant
            i <= pairs.len(),
            members@.len() == i,
            forall|j: int|
                0 <= j < i ==> #[trigger] members@[j].0@ == pairs@[j].0@ && content(members@[j].1)
                    == text_content(pairs@[j].1@),
        decreases pairs.len() - i,
    {
        let (key, value) = &pairs[i];
        members.push((key.clone(), text_value(value.as_str())));
        i = i + 1;
    }
    assert(member_contents(members@) =~= text_members(pair_texts(pairs@)));
    members
}

/// An object of texts.
pub(crate) fn flat_object(pairs: Vec<(String, String)>) -> (r: Value)
    requires
        good_keys(pair_texts(pairs@)),
    ensures
        content(r) == flat_content(pair_texts(pairs@)),
{
    let ghost keys = pair_texts(pairs@);
    let members = fields(pairs);
    proof {
        assert forall|i: int| 0 <= i < members.len() implies plain_key(
            #[trigger] members@[i].0@,
        ) by {
            assert(plain_key(keys[i].0));
        }
        assert forall|i: int, j: int| 0 <= i < j < members.len() implies #[trigger] members@[i].0@
            != #[trigger] members@[j].0@ by {
            assert(keys[i].0 != keys[j].0);
        }
    }
    object_value(members)
}

/// Whether every pointer is one to the root or to a place below it.
pub open spec fn rooted<T>(m: Map<Seq<char>, T>) -> bool {
    forall|p: Seq<char>| #[trigger] m.contains_key(p) ==> p.len() == 0 || p[0] == '/'
}

/// What lies below one key does not lie below another.
proof fn lemma_keys_part<T>(m: Map<Seq<char>, T>, key: Seq<char>, other: Seq<char>, q: Seq<char>)
    requires
        rooted(m),
        plain_key(key),
        plain_key(other),
        key != other,
        q.len() == 0 || q[0] == '/',
    ensures
        !below(m, member_pointer(other)).contains_key(member_pointer(key) + q),
{
    reveal_strlit("/");
    let p = member_pointer(key) + q;
    let at = member_pointer(other);
    if below(m, at).contains_key(p) {
        let rest = p.skip(at.len() as int);
        let (n, k) = (key.len() as int, other.len() as int);
        assert forall|i: int| 0 <= i < k implies p[i + 1] == other[i] by {
            assert(p.take(at.len() as int)[i + 1] == at[i + 1]);
        }
        if k < n {
            assert(rest[0] == p[k + 1]);
            assert(p[k + 1] == key[k]);
        } else if n < k {
            assert(p[n + 1] == other[n]);
            if q.len() > 0 {
                assert(p[n + 1] == q[0]);
            }
        } else {
            assert(key =~= other) by {
                assert forall|i: int| 0 <= i < n implies key[i] == other[i] by {
                    assert(p[i + 1] == key[i]);
                }
            }
        }
    }
}

/// A member's texts are found below its key.
pub proof fn lemma_member_text(members: Seq<(Seq<char>, Content)>, i: int, q: Seq<char>)
    requires
        0 <= i < members.len(),
        forall|j: int|
            0 <= j < members.len() ==> plain_key((#[trigger] members[j]).0) && rooted(
                members[j].1.texts,
            ),
        forall|j: int, k: int|
            0 <= j < k < members.len() ==> (#[trigger] members[j]).0 != (#[trigger] members[k]).0,
        q.len() == 0 || q[0] == '/',
    ensures
        text_in(member_texts(members), member_pointer(members[i].0) + q) == text_in(
            members[i].1.texts,
            q,
        ),
    decreases members.len(),
{
    let last = members.len() - 1;
    let p = member_pointer(members[i].0) + q;
    let rest = members.drop_last();
    assert forall|j: int| 0 <= j < rest.len() implies plain_key((#[trigger] rest[j]).0) && rooted(
        rest[j].1.texts,
    ) by {
        assert(rest[j] == members[j]);
    }
    assert(members.last() == members[last]);
    if i < last {
        lemma_keys_part(members[last].1.texts, members[i].0, members[last].0, q);
        lemma_member_text(rest, i, q);
        assert(rest[i] == members[i]);
    } else {
        lemma_absent(rest, members[i].0, q);
        let at = member_pointer(members[i].0);
        assert(p.skip(at.len() as int) =~= q);
        assert(at.is_prefix_of(p));
    }
}

/// Nothing lies below a key that no member has.
proof fn lemma_absent(members: Seq<(Seq<char>, Content)>, key: Seq<char>, q: Seq<char>)
    requires
        plain_key(key),
        forall|j: int|
            0 <= j < members.len() ==> plain_key((#[trigger] members[j]).0) && rooted(
                members[j].1.texts,
            ) && members[j].0 != key,
        q.len() == 0 || q[0] == '/',
    ensures
        !member_texts(members).contains_key(member_pointer(key) + q),
    decreases members.len(),
{
    if members.len() > 0 {
        let rest = members.drop_last();
        assert forall|j: int| 0 <= j < rest.len() implies plain_key((#[trigger] rest[j]).0)
            && rooted(rest[j].1.texts) && rest[j].0 != key by {
            assert(rest[j] == members[j]);
        }
        lemma_absent(rest, key, q);
        assert(members.last() == members[members.len() - 1]);
        lemma_keys_part(members.last().1.texts, key, members.last().0, q);
    }
}

/// The texts of an object lie below its root.
pub proof fn lemma_members_rooted(members: Seq<(Seq<char>, Content)>)
    ensures
        rooted(member_texts(members)),
    decreases members.len(),
{
    reveal_strlit("/");
    if members.len() > 0 {
        lemma_members_rooted(members.drop_last());
        let at = member_pointer(members.last().0);
        assert forall|p: Seq<char>| #[trigger]
            member_texts(members).contains_key(p) implies p.len() == 0 || p[0] == '/' by {
            if at.is_prefix_of(p) {
                assert(p.take(at.len() as int)[0] == at[0]);
            }
        }
    }
}

/// A text of an object of texts is found under its key.
pub proof fn lemma_flat_text(pairs: Seq<(Seq<char>, Seq<char>)>, i: int)
    requires
        0 <= i < pairs.len(),
        good_keys(pairs),
    ensures
        text_in(flat_content(pairs).texts, member_pointer(pairs[i].0)) == Some(pairs[i].1),
{
    let members = text_members(pairs);
    assert forall|j: int| 0 <= j < members.len() implies plain_key((#[trigger] members[j]).0)
        && rooted(members[j].1.texts) by {
        assert(plain_key(pairs[j].0));
    }
    assert forall|j: int, k: int| 0 <= j < k < members.len() implies (#[trigger] members[j]).0 != (
    #[trigger] members[k]).0 by {
        assert(pairs[j].0 != pairs[k].0);
    }
    let none = Seq::<char>::empty();
    lemma_member_text(members, i, none);
    assert(member_pointer(pairs[i].0) + none =~= member_pointer(pairs[i].0));
}

/// What is in a list or an object is nested one level less.
pub proof fn lemma_depth(members: Seq<(Seq<char>, Content)>, d: nat)
    requires
        forall|i: int|
            0 <= i < members.len() ==> (#[trigger] members[i]).1.depth <= d,
    ensures
        depth_above(members) <= d + 1,
    decreases members.len(),
{
    if members.len() > 0 {
        let rest = members.drop_last();
        assert forall|i: int| 0 <= i < rest.len() implies (#[trigger] rest[i]).1.depth <= d by {
            assert(rest[i] == members[i]);
        }
        lemma_depth(rest, d);
        assert(members.last() == members[members.len() - 1]);
    }
}

/// An object of texts is one level deep.
pub proof fn lemma_flat_depth(pairs: Seq<(Seq<char>, Seq<char>)>)
    ensures
        flat_content(pairs).depth <= 1,
{
    lemma_depth(text_members(pairs), 0);
}

/// What a request of the streams holds: an operation and its arguments.
pub open spec fn op_content(op: Seq<char>, args: Seq<Content>) -> Content {
    object_content(seq![("op"@, text_content(op)), ("args"@, list_content(args))])
}

/// A request of the streams as a document. Its arguments are objects of texts.
pub(crate) fn op_message(op: &str, args: Vec<Value>) -> (r: String)
    requires
        forall|i: int|
            0 <= i < args.len() ==> content(#[trigger] args[i]).depth <= 1,
    ensures
        says(r@, op_content(op@, contents(args@))),
{
    let ghost items = contents(args@);
    let mut members: Vec<(String, Value)> = Vec::new();
    members.push(("op".to_owned(), text_value(op)));
    members.push(("args".to_owned(), list_value(args)));
    proof {
        reveal_strlit("op");
        reveal_strlit("args");
        let expected = seq![("op"@, text_content(op@)), ("args"@, list_content(items))];
        assert(member_contents(members@) =~= expected);
        assert(members@[0].0@.len() == 2 && members@[1].0@.len() == 4);
        let places = numbered(items);
        assert forall|i: int| 0 <= i < places.len() implies (#[trigger] places[i]).1.depth <= 1 by {
            assert(content(args[i]) == items[i]);
        }
        lemma_depth(places, 1);
        lemma_depth(expected, 2);
    }
    let message = object_value(members);
    value_text(&message)
}

} // verus!
