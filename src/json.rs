//! Message payloads and string maps.
//!
//! `JsonValue` holds a JSON document as plain values. A number is kept as the
//! text it was written with, so nothing is lost in rounding. `StringMap` is the
//! string-to-string map of message metadata.
use vstd::prelude::*;
use crate::template::push_char;

verus! {

broadcast use vstd::std_specs::vec::group_vec_axioms;

/// A JSON document.
#[derive(Debug)]
pub enum JsonValue {
    Null,
    Bool(bool),
    /// A number, as its decimal text.
    Number(String),
    Str(String),
    Array(Vec<JsonValue>),
    /// Members in document order.
    Object(Vec<(String, JsonValue)>),
}

/// Value of the last member of `members` named `key`.
pub open spec fn member(members: Seq<(String, JsonValue)>, key: Seq<char>) -> Option<JsonValue>
    decreases members.len(),
{
    if members.len() == 0 {
        None
    } else if members.last().0@ == key {
        Some(members.last().1)
    } else {
        member(members.drop_last(), key)
    }
}

/// `a` and `b` hold the same document.
pub open spec fn same(a: JsonValue, b: JsonValue) -> bool
    decreases a,
{
    match (a, b) {
        (JsonValue::Null, JsonValue::Null) => true,
        (JsonValue::Bool(x), JsonValue::Bool(y)) => x == y,
        (JsonValue::Number(x), JsonValue::Number(y)) => x@ == y@,
        (JsonValue::Str(x), JsonValue::Str(y)) => x@ == y@,
        (JsonValue::Array(x), JsonValue::Array(y)) => {
            &&& x@.len() == y@.len()
            &&& forall|i: int| 0 <= i < x@.len() ==> same(#[trigger] x@[i], y@[i])
        },
        (JsonValue::Object(x), JsonValue::Object(y)) => {
            &&& x@.len() == y@.len()
            &&& forall|i: int|
                0 <= i < x@.len() ==> (#[trigger] x@[i]).0@ == y@[i].0@ && same(x@[i].1, y@[i].1)
        },
        _ => false,
    }
}

impl JsonValue {
    /// A copy holding the same document.
    #[verifier::loop_isolation(false)]
    pub fn duplicate(&self) -> (r: JsonValue)
        ensures
            same(*self, r),
        decreases self,
    {
        match self {
            JsonValue::Null => JsonValue::Null,
            JsonValue::Bool(b) => JsonValue::Bool(*b),
            JsonValue::Number(t) => JsonValue::Number(t.clone()),
            JsonValue::Str(t) => JsonValue::Str(t.clone()),
            JsonValue::Array(items) => {
                let mut out: Vec<JsonValue> = Vec::new();
                let mut i: usize = 0;
                while i < items.len()
                    invariant
                        i <= items@.len(),
                        out@.len() == i,
                        forall|k: int| 0 <= k < i ==> same(#[trigger] items@[k], out@[k]),
                    decreases items@.len() - i,
                {
                    proof {
                        vstd::std_specs::vec::axiom_vec_index_decreases(*items, i as int);
                        assert(*items == (*self)->Array_0);
                        assert(decreases_to!(*self => (*self)->Array_0));
                        assert(decreases_to!(*self => items[i as int]));
                    }
                    let c = items[i].duplicate();
                    out.push(c);
                    i = i + 1;
                }
                let r = JsonValue::Array(out);
                assert(same(*self, r));
                r
            },
            JsonValue::Object(members) => {
                let mut out: Vec<(String, JsonValue)> = Vec::new();
                let mut i: usize = 0;
                while i < members.len()
                    invariant
                        i <= members@.len(),
                        out@.len() == i,
                        forall|k: int|
                            0 <= k < i ==> (#[trigger] members@[k]).0@ == out@[k].0@ && same(members@[k].1, out@[k].1),
                    decreases members@.len() - i,
                {
                    proof {
                        vstd::std_specs::vec::axiom_vec_index_decreases(*members, i as int);
                        assert(*members == (*self)->Object_0);
                        assert(decreases_to!(*self => (*self)->Object_0));
                        assert(decreases_to!(*self => members[i as int]));
                        assert(decreases_to!(*self => members[i as int].1));
                    }
                    let k = members[i].0.clone();
                    let c = members[i].1.duplicate();
                    out.push((k, c));
                    i = i + 1;
                }
                let r = JsonValue::Object(out);
                assert(same(*self, r));
                r
            },
        }
    }

    /// The member named `key` of an object (the last one, if several share
    /// the name); `None` for any other value.
    pub open spec fn get_spec(&self, key: Seq<char>) -> Option<JsonValue> {
        match self {
            JsonValue::Object(members) => member(members@, key),
            _ => None,
        }
    }

    /// Looks up the member named `key`.
    #[verifier::loop_isolation(false)]
    pub fn get(&self, key: &str) -> (r: Option<&JsonValue>)
        ensures
            r matches Some(v) ==> self.get_spec(key@) == Some(*v),
            r is None ==> self.get_spec(key@) is None,
    {
        match self {
            JsonValue::Object(members) => {
                let mut i: usize = members.len();
                assert(members@.subrange(0, i as int) =~= members@);
                while i > 0
                    invariant
                        i <= members@.len(),
                        member(members@, key@) == member(members@.subrange(0, i as int), key@),
                    decreases i,
                {
                    let ghost pre = members@.subrange(0, i as int);
                    assert(pre.drop_last() =~= members@.subrange(0, i - 1));
                    if str_eq(members[i - 1].0.as_str(), key) {
                        assert(pre.last() == members@[i - 1]);
                        assert(member(pre, key@) == Some(members@[i - 1].1));
                        return Some(&members[i - 1].1);
                    }
                    i = i - 1;
                }
                assert(members@.subrange(0, 0) =~= Seq::<(String, JsonValue)>::empty());
                None
            },
            _ => None,
        }
    }
}

/// Lower-case hexadecimal digit of `d < 16`.
pub open spec fn hex_char(d: u32) -> char {
    if d < 10 {
        ((d + 48) as u8) as char
    } else {
        ((d + 87) as u8) as char
    }
}

/// How a character is written inside a JSON string: quote, backslash and
/// control characters escaped, the common ones by letter, the others as
/// `\u00XX`.
pub open spec fn escape_char(c: char) -> Seq<char> {
    if c == '"' {
        seq!['\\', '"']
    } else if c == '\\' {
        seq!['\\', '\\']
    } else if c == '\n' {
        seq!['\\', 'n']
    } else if c == '\r' {
        seq!['\\', 'r']
    } else if c == '\t' {
        seq!['\\', 't']
    } else if c == '\x08' {
        seq!['\\', 'b']
    } else if c == '\x0c' {
        seq!['\\', 'f']
    } else if (c as u32) < 32 {
        seq!['\\', 'u', '0', '0', hex_char((c as u32) / 16), hex_char((c as u32) % 16)]
    } else {
        seq![c]
    }
}

/// The characters of `s`, each escaped.
pub open spec fn escaped(s: Seq<char>) -> Seq<char>
    decreases s.len(),
{
    if s.len() == 0 {
        Seq::empty()
    } else {
        escaped(s.drop_last()) + escape_char(s.last())
    }
}

/// `s` as a JSON string.
pub open spec fn quoted(s: Seq<char>) -> Seq<char> {
    seq!['"'] + escaped(s) + seq!['"']
}

/// The parts joined by commas.
pub open spec fn comma_join(parts: Seq<Seq<char>>) -> Seq<char>
    decreases parts.len(),
{
    if parts.len() == 0 {
        Seq::empty()
    } else if parts.len() == 1 {
        parts[0]
    } else {
        comma_join(parts.drop_last()) + seq![','] + parts.last()
    }
}

/// The JSON texts of `items`.
pub open spec fn item_texts(items: Seq<JsonValue>) -> Seq<Seq<char>>
    decreases items,
{
    if items.len() == 0 {
        Seq::empty()
    } else {
        item_texts(items.drop_last()).push(json_text(items.last()))
    }
}

/// The `"name":value` texts of `members`.
pub open spec fn member_texts(members: Seq<(String, JsonValue)>) -> Seq<Seq<char>>
    decreases members,
{
    if members.len() == 0 {
        Seq::empty()
    } else {
        member_texts(members.drop_last()).push(quoted(members.last().0@) + seq![':'] + json_text(members.last().1))
    }
}

/// The compact JSON text of `v`, members in document order.
pub open spec fn json_text(v: JsonValue) -> Seq<char>
    decreases v,
{
    match v {
        JsonValue::Null => seq!['n', 'u', 'l', 'l'],
        JsonValue::Bool(b) => if b {
            seq!['t', 'r', 'u', 'e']
        } else {
            seq!['f', 'a', 'l', 's', 'e']
        },
        JsonValue::Number(t) => t@,
        JsonValue::Str(t) => quoted(t@),
        JsonValue::Array(items) => seq!['['] + comma_join(item_texts(items@)) + seq![']'],
        JsonValue::Object(members) => seq!['{'] + comma_join(member_texts(members@)) + seq!['}'],
    }
}

fn hex_digit(d: u32) -> (c: char)
    requires
        d < 16,
    ensures
        c == hex_char(d),
{
    if d < 10 {
        ((d + 48) as u8) as char
    } else {
        ((d + 87) as u8) as char
    }
}

/// Writes `c` as it stands inside a JSON string.
fn write_escaped_char(out: &mut String, c: char)
    ensures
        final(out)@ == old(out)@ + escape_char(c),
{
    let pre = Ghost(out@);
    if c == '"' {
        push_char(out, '\\');
        push_char(out, '"');
    } else if c == '\\' {
        push_char(out, '\\');
        push_char(out, '\\');
    } else if c == '\n' {
        push_char(out, '\\');
        push_char(out, 'n');
    } else if c == '\r' {
        push_char(out, '\\');
        push_char(out, 'r');
    } else if c == '\t' {
        push_char(out, '\\');
        push_char(out, 't');
    } else if c == '\x08' {
        push_char(out, '\\');
        push_char(out, 'b');
    } else if c == '\x0c' {
        push_char(out, '\\');
        push_char(out, 'f');
    } else if (c as u32) < 32 {
        push_char(out, '\\');
        push_char(out, 'u');
        push_char(out, '0');
        push_char(out, '0');
        push_char(out, hex_digit((c as u32) / 16));
        push_char(out, hex_digit((c as u32) % 16));
    } else {
        push_char(out, c);
    }
    assert(out@ =~= pre@ + escape_char(c));
}

/// Writes `s` as a JSON string.
fn write_quoted(out: &mut String, s: &str)
    ensures
        final(out)@ == old(out)@ + quoted(s@),
{
    let pre = Ghost(out@);
    push_char(out, '"');
    let n = s.unicode_len();
    let mut i: usize = 0;
    while i < n
        invariant
            n == s@.len(),
            i <= n,
            out@ == pre@ + seq!['"'] + escaped(s@.subrange(0, i as int)),
        decreases n - i,
    {
        assert(s@.subrange(0, i + 1).drop_last() =~= s@.subrange(0, i as int));
        write_escaped_char(out, s.get_char(i));
        i = i + 1;
        assert(out@ =~= pre@ + seq!['"'] + escaped(s@.subrange(0, i as int)));
    }
    push_char(out, '"');
    assert(s@.subrange(0, n as int) =~= s@);
    assert(out@ =~= pre@ + quoted(s@));
}

/// Writes the compact JSON text of `v`.
#[verifier::loop_isolation(false)]
pub fn write_json(out: &mut String, v: &JsonValue)
    ensures
        final(out)@ == old(out)@ + json_text(*v),
    decreases v,
{
    let pre = Ghost(out@);
    match v {
        JsonValue::Null => {
            out.append("null");
            proof {
                reveal_strlit("null");
            }
            assert(out@ =~= pre@ + json_text(*v));
        },
        JsonValue::Bool(b) => {
            if *b {
                out.append("true");
                proof {
                    reveal_strlit("true");
                }
            } else {
                out.append("false");
                proof {
                    reveal_strlit("false");
                }
            }
            assert(out@ =~= pre@ + json_text(*v));
        },
        JsonValue::Number(t) => {
            out.append(t.as_str());
        },
        JsonValue::Str(t) => {
            write_quoted(out, t.as_str());
        },
        JsonValue::Array(items) => {
            push_char(out, '[');
            let mut k: usize = 0;
            while k < items.len()
                invariant
                    k <= items@.len(),
                    out@ == pre@ + seq!['['] + comma_join(item_texts(items@.subrange(0, k as int))),
                decreases items@.len() - k,
            {
                proof {
                    vstd::std_specs::vec::axiom_vec_index_decreases(*items, k as int);
                    assert(decreases_to!(*v => (*v)->Array_0));
                }
                let ghost sub = items@.subrange(0, k + 1);
                assert(sub.drop_last() =~= items@.subrange(0, k as int));
                assert(sub.last() == items@[k as int]);
                let ghost before = item_texts(items@.subrange(0, k as int));
                assert(item_texts(sub) == before.push(json_text(items@[k as int])));
                assert(before.push(json_text(items@[k as int])).drop_last() =~= before);
                if k > 0 {
                    push_char(out, ',');
                }
                write_json(out, &items[k]);
                k = k + 1;
                assert(out@ =~= pre@ + seq!['['] + comma_join(item_texts(items@.subrange(0, k as int))));
            }
            push_char(out, ']');
            assert(items@.subrange(0, items@.len() as int) =~= items@);
            assert(out@ =~= pre@ + json_text(*v));
        },
        JsonValue::Object(members) => {
            push_char(out, '{');
            let mut k: usize = 0;
            while k < members.len()
                invariant
                    k <= members@.len(),
                    out@ == pre@ + seq!['{'] + comma_join(member_texts(members@.subrange(0, k as int))),
                decreases members@.len() - k,
            {
                proof {
                    vstd::std_specs::vec::axiom_vec_index_decreases(*members, k as int);
                    assert(decreases_to!(*v => (*v)->Object_0));
                    assert(decreases_to!(*v => members[k as int].1));
                }
                let ghost sub = members@.subrange(0, k + 1);
                assert(sub.drop_last() =~= members@.subrange(0, k as int));
                assert(sub.last() == members@[k as int]);
                let ghost before = member_texts(members@.subrange(0, k as int));
                let ghost part = quoted(members@[k as int].0@) + seq![':'] + json_text(members@[k as int].1);
                assert(member_texts(sub) == before.push(part));
                assert(before.push(part).drop_last() =~= before);
                if k > 0 {
                    push_char(out, ',');
                }
                write_quoted(out, members[k].0.as_str());
                push_char(out, ':');
                write_json(out, &members[k].1);
                k = k + 1;
                assert(out@ =~= pre@ + seq!['{'] + comma_join(member_texts(members@.subrange(0, k as int))));
            }
            push_char(out, '}');
            assert(members@.subrange(0, members@.len() as int) =~= members@);
            assert(out@ =~= pre@ + json_text(*v));
        },
    }
}


/// Compares two strings character by character.
pub fn str_eq(a: &str, b: &str) -> (r: bool)
    ensures
        r == (a@ == b@),
{
    let n = a.unicode_len();
    if n != b.unicode_len() {
        return false;
    }
    let mut i: usize = 0;
    while i < n
        invariant
            n == a@.len(),
            n == b@.len(),
            i <= n,
            forall|k: int| 0 <= k < i ==> a@[k] == b@[k],
        decreases n - i,
    {
        if a.get_char(i) != b.get_char(i) {
            return false;
        }
        i = i + 1;
    }
    assert(a@ =~= b@);
    true
}

/// Value stored under `key` in `entries`: the last entry with that key.
pub open spec fn lookup(entries: Seq<(String, String)>, key: Seq<char>) -> Option<Seq<char>>
    decreases entries.len(),
{
    if entries.len() == 0 {
        None
    } else if entries.last().0@ == key {
        Some(entries.last().1@)
    } else {
        lookup(entries.drop_last(), key)
    }
}

proof fn lemma_lookup_update(entries: Seq<(String, String)>, i: int, e: (String, String), key: Seq<char>)
    requires
        0 <= i < entries.len(),
        entries[i].0@ == e.0@,
        forall|j: int| i < j < entries.len() ==> (#[trigger] entries[j]).0@ != e.0@,
    ensures
        lookup(entries.update(i, e), key) == if key == e.0@ {
            Some(e.1@)
        } else {
            lookup(entries, key)
        },
    decreases entries.len(),
{
    let u = entries.update(i, e);
    if i == entries.len() - 1 {
        assert(u.drop_last() =~= entries.drop_last());
    } else {
        assert(u.drop_last() =~= entries.drop_last().update(i, e));
        lemma_lookup_update(entries.drop_last(), i, e, key);
    }
}

proof fn lemma_lookup_absent(entries: Seq<(String, String)>, key: Seq<char>)
    requires
        forall|j: int| 0 <= j < entries.len() ==> (#[trigger] entries[j]).0@ != key,
    ensures
        lookup(entries, key) is None,
    decreases entries.len(),
{
    if entries.len() > 0 {
        lemma_lookup_absent(entries.drop_last(), key);
    }
}

/// A map from strings to strings, kept as a list of entries.
#[derive(Debug, Clone)]
pub struct StringMap {
    pub entries: Vec<(String, String)>,
}

impl StringMap {
    pub open spec fn get_spec(&self, key: Seq<char>) -> Option<Seq<char>> {
        lookup(self.entries@, key)
    }

    /// The empty map.
    pub fn new() -> (r: StringMap)
        ensures
            forall|k: Seq<char>| (#[trigger] r.get_spec(k)) is None,
            r.entries@.len() == 0,
    {
        StringMap { entries: Vec::new() }
    }

    /// The value stored under `key`.
    pub fn get(&self, key: &str) -> (r: Option<String>)
        ensures
            r matches Some(v) ==> self.get_spec(key@) == Some(v@),
            r is None ==> self.get_spec(key@) is None,
    {
        let mut i: usize = self.entries.len();
        assert(self.entries@.subrange(0, i as int) =~= self.entries@);
        while i > 0
            invariant
                i <= self.entries@.len(),
                lookup(self.entries@, key@) == lookup(self.entries@.subrange(0, i as int), key@),
            decreases i,
        {
            let ghost pre = self.entries@.subrange(0, i as int);
            assert(pre.drop_last() =~= self.entries@.subrange(0, i - 1));
            if str_eq(self.entries[i - 1].0.as_str(), key) {
                return Some(self.entries[i - 1].1.clone());
            }
            i = i - 1;
        }
        assert(self.entries@.subrange(0, 0) =~= Seq::<(String, String)>::empty());
        None
    }

    /// Stores `value` under `key`, replacing what was there.
    pub fn insert(&mut self, key: String, value: String)
        ensures
            final(self).get_spec(key@) == Some(value@),
            forall|k: Seq<char>| k != key@ ==> #[trigger] final(self).get_spec(k) == old(self).get_spec(k),
    {
        let mut i: usize = self.entries.len();
        while i > 0
            invariant
                i <= self.entries@.len(),
                self.entries@ == old(self).entries@,
                forall|j: int| i <= j < self.entries@.len() ==> (#[trigger] self.entries@[j]).0@ != key@,
            decreases i,
        {
            if str_eq(self.entries[i - 1].0.as_str(), key.as_str()) {
                let ghost pre = self.entries@;
                let idx = i - 1;
                proof {
                    assert forall|k: Seq<char>| true implies lookup(pre.update(idx as int, (key, value)), k) == if k == key@ {
                        Some(value@)
                    } else {
                        lookup(pre, k)
                    } by {
                        lemma_lookup_update(pre, idx as int, (key, value), k);
                    }
                }
                self.entries.set(idx, (key, value));
                return;
            }
            i = i - 1;
        }
        let ghost pre = self.entries@;
        self.entries.push((key, value));
        proof {
            assert(self.entries@.drop_last() =~= pre);
            assert forall|k: Seq<char>| k != key@ implies #[trigger] lookup(self.entries@, k) == lookup(pre, k) by {}
        }
    }

    /// A copy with the same entries.
    pub fn duplicate(&self) -> (r: StringMap)
        ensures
            r.entries@ == self.entries@,
    {
        let mut out: Vec<(String, String)> = Vec::new();
        let mut i: usize = 0;
        while i < self.entries.len()
            invariant
                i <= self.entries@.len(),
                out@ == self.entries@.subrange(0, i as int),
            decreases self.entries@.len() - i,
        {
            out.push((self.entries[i].0.clone(), self.entries[i].1.clone()));
            i = i + 1;
            assert(out@ =~= self.entries@.subrange(0, i as int));
        }
        assert(out@ =~= self.entries@);
        StringMap { entries: out }
    }
}

} // verus!
