//! Attribute lists: the key and value texts that are set on a graph, a node
//! or an edge.
use vstd::prelude::*;
use vstd::std_specs::iter::IteratorSpec;
use vstd::string::StringExecFns;

verus! {

/// Whether a text can be handed to the layout engine as a C string: it holds
/// no NUL character.
pub open spec fn nul_free(s: Seq<char>) -> bool {
    forall|i: int| 0 <= i < s.len() ==> s[i] != '\0'
}

/// Tests whether a text holds no NUL character.
pub fn is_nul_free(s: &str) -> (ok: bool)
    ensures
        ok == nul_free(s@),
{
    broadcast use vstd::string::axiom_spec_iter, vstd::string::next_postcondition;

    let mut it = s.chars();
    let ghost mut k: int = 0;
    loop
        invariant
            0 <= k <= s@.len(),
            it.remaining() == s@.skip(k),
            forall|j: int| 0 <= j < k ==> s@[j] != '\0',
        ensures
            k == s@.len(),
        decreases s@.len() - k,
    {
        match it.next() {
            Some(c) => {
                assert(c == s@[k]);
                if c == '\0' {
                    return false;
                }
                proof {
                    assert(s@.skip(k).drop_first() =~= s@.skip(k + 1));
                    k = k + 1;
                }
            },
            None => {
                break;
            },
        }
    }
    true
}

/// One attribute: the key, the value to set, and the default that the key is
/// declared with where the engine has not seen it yet.
pub struct Attr {
    pub key: String,
    pub value: String,
    pub default: String,
}

/// The mathematical content of an [`Attr`].
pub struct AttrView {
    pub key: Seq<char>,
    pub value: Seq<char>,
    pub default: Seq<char>,
}

impl View for Attr {
    type V = AttrView;

    open spec fn view(&self) -> AttrView {
        AttrView { key: self.key@, value: self.value@, default: self.default@ }
    }
}

/// An attribute list, in the order in which its entries are set.
pub type Attrs = Vec<Attr>;

/// The attribute that sets `key` to `value`, declared with the empty default.
pub open spec fn attr(key: Seq<char>, value: Seq<char>) -> AttrView {
    AttrView { key, value, default: Seq::empty() }
}

/// Whether all three texts of an attribute are free of NUL characters.
pub open spec fn attr_plain(a: AttrView) -> bool {
    nul_free(a.key) && nul_free(a.value) && nul_free(a.default)
}

/// Whether every attribute of a list is free of NUL characters.
pub open spec fn attrs_plain(s: Seq<AttrView>) -> bool {
    forall|i: int| 0 <= i < s.len() ==> attr_plain(#[trigger] s[i])
}

/// The contents of an attribute list.
pub open spec fn attrs_view(s: Seq<Attr>) -> Seq<AttrView> {
    Seq::new(s.len(), |i: int| s[i]@)
}

/// The attribute list that a list of key and value pairs stands for.
pub open spec fn pairs_attrs(pairs: Seq<(Seq<char>, Seq<char>)>) -> Seq<AttrView> {
    Seq::new(pairs.len(), |i: int| attr(pairs[i].0, pairs[i].1))
}

/// The value that a key has once a whole list has been set in order: that of
/// the last entry with this key, if there is one.
pub open spec fn lookup(s: Seq<AttrView>, key: Seq<char>) -> Option<Seq<char>>
    decreases s.len(),
{
    if s.len() == 0 {
        None
    } else if s.last().key == key {
        Some(s.last().value)
    } else {
        lookup(s.drop_last(), key)
    }
}

/// Setting one more attribute changes what its own key yields and leaves
/// every other key as it was.
pub proof fn lemma_lookup_push(s: Seq<AttrView>, a: AttrView, key: Seq<char>)
    ensures
        lookup(s.push(a), key) == if a.key == key {
            Some(a.value)
        } else {
            lookup(s, key)
        },
{
    assert(s.push(a).last() == a);
    assert(s.push(a).drop_last() =~= s);
}

/// Setting a second list after a first: a key that the second list sets has
/// the value from there, any other key keeps what the first list gave it.
pub proof fn lemma_lookup_concat(s: Seq<AttrView>, t: Seq<AttrView>, key: Seq<char>)
    ensures
        lookup(s + t, key) == match lookup(t, key) {
            Some(value) => Some(value),
            None => lookup(s, key),
        },
    decreases t.len(),
{
    if t.len() == 0 {
        assert(s + t =~= s);
    } else {
        assert((s + t).last() == t.last());
        assert((s + t).drop_last() =~= s + t.drop_last());
        lemma_lookup_concat(s, t.drop_last(), key);
    }
}

/// A key yields a value exactly if some entry of the list has it.
pub proof fn lemma_lookup_some(s: Seq<AttrView>, key: Seq<char>)
    ensures
        lookup(s, key).is_some() <==> exists|i: int| 0 <= i < s.len() && #[trigger] s[i].key == key,
    decreases s.len(),
{
    if s.len() > 0 {
        let t = s.drop_last();
        lemma_lookup_some(t, key);
        if s.last().key == key {
            assert(s[s.len() - 1].key == key);
        } else if lookup(t, key).is_some() {
            let i = choose|i: int| 0 <= i < t.len() && #[trigger] t[i].key == key;
            assert(s[i].key == key);
        } else if exists|i: int| 0 <= i < s.len() && #[trigger] s[i].key == key {
            let i = choose|i: int| 0 <= i < s.len() && #[trigger] s[i].key == key;
            assert(t[i].key == key);
        }
    }
}

/// Builds the attribute that sets `key` to `value`.
pub fn make_attr(key: &str, value: &str) -> (a: Attr)
    requires
        nul_free(key@),
        nul_free(value@),
    ensures
        a@ == attr(key@, value@),
        attr_plain(a@),
{
    Attr { key: String::from_str(key), value: String::from_str(value), default: String::new() }
}

/// The text of an optional string.
pub open spec fn text_of(value: Option<String>) -> Option<Seq<char>> {
    match value {
        None => None,
        Some(v) => Some(v@),
    }
}

/// Finds the value that `key` has once the whole list has been set in order.
pub fn value_of(attrs: &Attrs, key: &String) -> (value: Option<String>)
    ensures
        text_of(value) == lookup(attrs_view(attrs@), key@),
{
    let ghost all = attrs_view(attrs@);
    let mut i: usize = attrs.len();
    assert(all.subrange(0, i as int) =~= all);
    while i > 0
        invariant
            i <= attrs@.len(),
            all == attrs_view(attrs@),
            lookup(all, key@) == lookup(all.subrange(0, i as int), key@),
        decreases i,
    {
        let ghost upto = all.subrange(0, i as int);
        i = i - 1;
        assert(upto.last() == attrs@[i as int]@);
        assert(upto.drop_last() =~= all.subrange(0, i as int));
        if attrs[i].key == *key {
            return Some(attrs[i].value.clone());
        }
    }
    assert(all.subrange(0, 0).len() == 0);
    None
}

/// The texts of a list of borrowed pairs.
pub open spec fn pairs_view(pairs: Seq<(&str, &str)>) -> Seq<(Seq<char>, Seq<char>)> {
    Seq::new(pairs.len(), |i: int| (pairs[i].0@, pairs[i].1@))
}

/// Whether every key and every value of a list of pairs is free of NUL
/// characters.
pub open spec fn pairs_plain(pairs: Seq<(Seq<char>, Seq<char>)>) -> bool {
    forall|i: int|
        0 <= i < pairs.len() ==> nul_free((#[trigger] pairs[i]).0) && nul_free(pairs[i].1)
}

/// Turns key and value pairs into an attribute list, one entry per pair, in
/// the same order, each with the empty default.
pub fn make_attrs(pairs: Vec<(&str, &str)>) -> (attrs: Attrs)
    requires
        pairs_plain(pairs_view(pairs@)),
    ensures
        attrs_view(attrs@) == pairs_attrs(pairs_view(pairs@)),
        attrs_plain(attrs_view(attrs@)),
{
    let mut attrs: Attrs = Vec::new();
    let n: usize = pairs.len();
    let mut i: usize = 0;
    while i < n
        invariant
            n == pairs.len(),
            i <= n,
            attrs.len() == i,
            pairs_plain(pairs_view(pairs@)),
            forall|j: int| 0 <= j < i ==> (#[trigger] attrs[j])@ == attr(pairs[j].0@, pairs[j].1@),
            forall|j: int| 0 <= j < i ==> attr_plain((#[trigger] attrs[j])@),
        decreases n - i,
    {
        assert(pairs_view(pairs@)[i as int] == (pairs[i as int].0@, pairs[i as int].1@));
        let a = make_attr(pairs[i].0, pairs[i].1);
        attrs.push(a);
        i = i + 1;
    }
    assert(attrs_view(attrs@) =~= pairs_attrs(pairs_view(pairs@)));
    attrs
}

} // verus!
