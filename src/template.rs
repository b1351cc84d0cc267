//! `${path}` template substitution against a message.
//!
//! A marker `${path}` is replaced by the message field that `path` names:
//! `msg.id`, `msg.type`, `msg.data`, or `msg.data.a.b` for a member of the
//! payload reached by a dotted path. A string is written as it is; numbers,
//! booleans, null, objects and arrays as their JSON text. A missing path or
//! another path gives the empty string. Markers are replaced in one
//! left-to-right pass: text that a replacement brings in is not scanned
//! again. A `${` without a closing `}` is kept as it is, with the rest of
//! the text.
use vstd::prelude::*;
use crate::json::{JsonValue, json_text, str_eq, write_json};
use crate::types::Message;

verus! {

/// The hyphenated lower-case text of a UUID, as the uuid crate writes it.
pub uninterp spec fn uuid_text(id: u128) -> Seq<char>;

/// Relies on uuid::Uuid's Display: the hyphenated form, 36 characters.
#[verifier::external_body]
pub(crate) fn uuid_to_string(id: u128) -> (r: String)
    ensures
        r@ == uuid_text(id),
        r@.len() == 36,
{
    uuid::Uuid::from_u128(id).to_string()
}

/// Relies on String::push: appends one character.
#[verifier::external_body]
pub(crate) fn push_char(s: &mut String, c: char)
    ensures
        final(s)@ == old(s)@.push(c),
{
    s.push(c)
}

/// Position of the first `.` in `p`, if any.
pub open spec fn dot_index(p: Seq<char>) -> Option<int>
    decreases p.len(),
{
    if p.len() == 0 {
        None
    } else if p[0] == '.' {
        Some(0)
    } else {
        match dot_index(p.drop_first()) {
            Some(i) => Some(i + 1),
            None => None,
        }
    }
}

/// The value reached from `v` through the members named by the dotted path `p`.
pub open spec fn lookup_path(v: JsonValue, p: Seq<char>) -> Option<JsonValue>
    decreases p.len(),
{
    match dot_index(p) {
        Some(i) => if 0 <= i < p.len() {
            match v.get_spec(p.subrange(0, i)) {
                Some(w) => lookup_path(w, p.subrange(i + 1, p.len() as int)),
                None => None,
            }
        } else {
            None
        },
        None => v.get_spec(p),
    }
}

/// How a value is written into text: a string as it is, anything else as
/// its JSON text.
pub open spec fn render(v: JsonValue) -> Seq<char> {
    match v {
        JsonValue::Str(s) => s@,
        JsonValue::Number(t) => t@,
        JsonValue::Bool(b) => if b {
            "true"@
        } else {
            "false"@
        },
        JsonValue::Null => "null"@,
        _ => json_text(v),
    }
}

/// The text that replaces the marker `${path}`.
pub open spec fn field_text(path: Seq<char>, m: Message) -> Seq<char> {
    if path == "msg.id"@ {
        uuid_text(m.id)
    } else if path == "msg.type"@ {
        m.msg_type@
    } else if path == "msg.data"@ {
        render(m.data)
    } else if path.len() > 9 && path.subrange(0, 9) == "msg.data."@ {
        match lookup_path(m.data, path.subrange(9, path.len() as int)) {
            Some(v) => render(v),
            None => Seq::empty(),
        }
    } else {
        Seq::empty()
    }
}

/// Position of the first `}` at or after `k`.
pub open spec fn close_from(t: Seq<char>, k: int) -> Option<int>
    decreases t.len() - k,
{
    if k < 0 || k >= t.len() {
        None
    } else if t[k] == '}' {
        Some(k)
    } else {
        close_from(t, k + 1)
    }
}

/// A marker starts at `i`.
pub open spec fn opens_at(t: Seq<char>, i: int) -> bool {
    0 <= i && i + 1 < t.len() && t[i] == '$' && t[i + 1] == '{'
}

/// The substitution of `t` from position `i` on.
pub open spec fn subst_from(t: Seq<char>, m: Message, i: int) -> Seq<char>
    decreases t.len() - i,
{
    if i < 0 || i >= t.len() {
        Seq::empty()
    } else if opens_at(t, i) {
        match close_from(t, i + 2) {
            Some(j) => if i < j < t.len() {
                field_text(t.subrange(i + 2, j), m) + subst_from(t, m, j + 1)
            } else {
                t.subrange(i, t.len() as int)
            },
            None => t.subrange(i, t.len() as int),
        }
    } else {
        seq![t[i]] + subst_from(t, m, i + 1)
    }
}

/// `t` with every marker replaced.
pub open spec fn substitute(t: Seq<char>, m: Message) -> Seq<char> {
    subst_from(t, m, 0)
}

/// `s` holds no `${`.
pub open spec fn no_marker(s: Seq<char>) -> bool {
    forall|k: int| 0 <= k < s.len() - 1 ==> !(#[trigger] opens_at(s, k))
}

proof fn lemma_plain_from(s: Seq<char>, m: Message, i: int)
    requires
        no_marker(s),
        0 <= i <= s.len(),
    ensures
        subst_from(s, m, i) == s.subrange(i, s.len() as int),
    decreases s.len() - i,
{
    if i < s.len() {
        assert(!opens_at(s, i)) by {
            if i < s.len() - 1 {
                assert(!opens_at(s, i));
            }
        }
        lemma_plain_from(s, m, i + 1);
        assert(seq![s[i]] + s.subrange(i + 1, s.len() as int) =~= s.subrange(i, s.len() as int));
    } else {
        assert(s.subrange(i, s.len() as int) =~= Seq::<char>::empty());
    }
}

/// Text without markers is left as it is.
pub proof fn lemma_substitute_plain(s: Seq<char>, m: Message)
    requires
        no_marker(s),
    ensures
        substitute(s, m) == s,
{
    lemma_plain_from(s, m, 0);
    assert(s.subrange(0, s.len() as int) =~= s);
}

/// Substituting twice gives what substituting once gives, whenever the
/// first result holds no marker (the values written in bring none, nor
/// form one with the text around them).
pub proof fn lemma_substitute_idempotent(t: Seq<char>, m: Message)
    requires
        no_marker(substitute(t, m)),
    ensures
        substitute(substitute(t, m), m) == substitute(t, m),
{
    lemma_substitute_plain(substitute(t, m), m);
}

/// Finds the first `.` of `p`.
fn find_dot(p: &str) -> (r: Option<usize>)
    ensures
        r matches Some(i) ==> dot_index(p@) == Some(i as int) && i < p@.len(),
        r is None ==> dot_index(p@) is None,
{
    let n = p.unicode_len();
    let mut i: usize = 0;
    while i < n
        invariant
            n == p@.len(),
            i <= n,
            forall|k: int| 0 <= k < i ==> p@[k] != '.',
        decreases n - i,
    {
        if p.get_char(i) == '.' {
            proof {
                lemma_dot_index_at(p@, i as int);
            }
            return Some(i);
        }
        i = i + 1;
    }
    proof {
        lemma_dot_index_none(p@);
    }
    None
}

proof fn lemma_dot_index_at(p: Seq<char>, i: int)
    requires
        0 <= i < p.len(),
        p[i] == '.',
        forall|k: int| 0 <= k < i ==> p[k] != '.',
    ensures
        dot_index(p) == Some(i),
    decreases i,
{
    if i > 0 {
        lemma_dot_index_at(p.drop_first(), i - 1);
    }
}

proof fn lemma_dot_index_none(p: Seq<char>)
    requires
        forall|k: int| 0 <= k < p.len() ==> p[k] != '.',
    ensures
        dot_index(p) is None,
    decreases p.len(),
{
    if p.len() > 0 {
        lemma_dot_index_none(p.drop_first());
    }
}

/// Follows the dotted path `p` from `v`.
pub fn lookup_path_of<'a>(v: &'a JsonValue, p: &str) -> (r: Option<&'a JsonValue>)
    ensures
        r matches Some(w) ==> lookup_path(*v, p@) == Some(*w),
        r is None ==> lookup_path(*v, p@) is None,
    decreases p@.len(),
{
    match find_dot(p) {
        Some(i) => {
            let n = p.unicode_len();
            let head = p.substring_char(0, i);
            let rest = p.substring_char(i + 1, n);
            match v.get(head) {
                Some(w) => lookup_path_of(w, rest),
                None => None,
            }
        },
        None => v.get(p),
    }
}

/// Writes `v` into `out`.
fn render_into(out: &mut String, v: &JsonValue)
    ensures
        final(out)@ == old(out)@ + render(*v),
{
    match v {
        JsonValue::Str(s) => out.append(s.as_str()),
        JsonValue::Number(t) => out.append(t.as_str()),
        JsonValue::Bool(b) => {
            if *b {
                out.append("true")
            } else {
                out.append("false")
            }
        },
        JsonValue::Null => out.append("null"),
        _ => write_json(out, v),
    }
}

/// The text a value is written as.
pub fn render_text(v: &JsonValue) -> (r: String)
    ensures
        r@ == render(*v),
{
    let mut out = String::new();
    render_into(&mut out, v);
    out
}

/// Writes the text for the marker `${path}` into `out`.
fn field_into(out: &mut String, path: &str, m: &Message)
    ensures
        final(out)@ == old(out)@ + field_text(path@, *m),
{
    let n = path.unicode_len();
    if str_eq(path, "msg.id") {
        let t = uuid_to_string(m.id);
        out.append(t.as_str());
    } else if str_eq(path, "msg.type") {
        out.append(m.msg_type.as_str());
    } else if str_eq(path, "msg.data") {
        render_into(out, &m.data);
    } else if n > 9 && str_eq(path.substring_char(0, 9), "msg.data.") {
        match lookup_path_of(&m.data, path.substring_char(9, n)) {
            Some(v) => render_into(out, v),
            None => {
                assert(old(out)@ + field_text(path@, *m) =~= old(out)@);
            },
        }
    } else {
        assert(old(out)@ + field_text(path@, *m) =~= old(out)@);
    }
}

/// Replaces every `${path}` marker of `template` with the field of `m`
/// that it names.
pub fn substitute_str(template: &str, m: &Message) -> (r: String)
    ensures
        r@ == substitute(template@, *m),
{
    let t = template;
    let n = t.unicode_len();
    let mut out = String::new();
    let mut i: usize = 0;
    while i < n
        invariant
            n == t@.len(),
            i <= n,
            substitute(t@, *m) == out@ + subst_from(t@, *m, i as int),
        decreases n - i,
    {
        let ghost pre = out@;
        if i + 1 < n && t.get_char(i) == '$' && t.get_char(i + 1) == '{' {
            assert(opens_at(t@, i as int));
            let mut j: usize = i + 2;
            while j < n && t.get_char(j) != '}'
                invariant
                    n == t@.len(),
                    i + 2 <= j <= n,
                    close_from(t@, i + 2) == close_from(t@, j as int),
                decreases n - j,
            {
                j = j + 1;
            }
            if j < n {
                assert(close_from(t@, i + 2) == Some(j as int));
                field_into(&mut out, t.substring_char(i + 2, j), m);
                proof {
                    assert(out@ + subst_from(t@, *m, j + 1) =~= pre + (field_text(t@.subrange(i + 2, j as int), *m) + subst_from(
                        t@,
                        *m,
                        j + 1,
                    )));
                }
                i = j + 1;
            } else {
                assert(close_from(t@, i + 2) is None);
                out.append(t.substring_char(i, n));
                proof {
                    assert(subst_from(t@, *m, i as int) == t@.subrange(i as int, n as int));
                    assert(subst_from(t@, *m, n as int) =~= Seq::<char>::empty());
                    assert(out@ + subst_from(t@, *m, n as int) =~= out@);
                }
                i = n;
            }
        } else {
            assert(!opens_at(t@, i as int));
            let c = t.get_char(i);
            push_char(&mut out, c);
            proof {
                assert(out@ + subst_from(t@, *m, i + 1) =~= pre + (seq![t@[i as int]] + subst_from(t@, *m, i + 1)));
            }
            i = i + 1;
        }
    }
    assert(subst_from(t@, *m, n as int) =~= Seq::<char>::empty());
    assert(out@ + Seq::<char>::empty() =~= out@);
    out
}

} // verus!
