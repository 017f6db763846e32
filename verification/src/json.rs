//! A JSON document model: the values that metadata services return, the
//! accessors that the key resolvers use, and compact JSON text.
use vstd::prelude::*;
use crate::text::{
    chars_of, decimal, digit, digit_char, i64_to_decimal, join_spec, owned, push_char, push_str,
    signed_decimal, str_eq, u64_to_decimal,
};

verus! {

/// A JSON number as the metadata documents carry it: a non-negative
/// integer, a negative integer, or a floating-point number held by the
/// text that displays it.
pub enum JsonNumber {
    PosInt(u64),
    NegInt(i64),
    Float(String),
}

/// A JSON value. Object members keep their order.
pub enum Json {
    Null,
    Bool(bool),
    Number(JsonNumber),
    Str(String),
    Array(Vec<Json>),
    Object(Vec<(String, Json)>),
}

/// Mathematical counterpart of [`JsonNumber`].
pub enum NumV {
    PosInt(u64),
    NegInt(i64),
    Float(Seq<char>),
}

/// Mathematical counterpart of [`Json`].
pub enum JsonV {
    Null,
    Bool(bool),
    Number(NumV),
    Str(Seq<char>),
    Array(Seq<JsonV>),
    Object(Seq<(Seq<char>, JsonV)>),
}

pub open spec fn num_view(n: JsonNumber) -> NumV {
    match n {
        JsonNumber::PosInt(u) => NumV::PosInt(u),
        JsonNumber::NegInt(i) => NumV::NegInt(i),
        JsonNumber::Float(s) => NumV::Float(s@),
    }
}

pub open spec fn json_view(j: Json) -> JsonV
    decreases j, 1int,
{
    match j {
        Json::Null => JsonV::Null,
        Json::Bool(b) => JsonV::Bool(b),
        Json::Number(n) => JsonV::Number(num_view(n)),
        Json::Str(s) => JsonV::Str(s@),
        Json::Array(v) => {
            proof {
                broadcast use vstd::std_specs::vec::axiom_vec_decreases_to_view;
                assert(decreases_to!(j => j->Array_0));
            }
            JsonV::Array(json_views(v@))
        },
        Json::Object(v) => {
            proof {
                broadcast use vstd::std_specs::vec::axiom_vec_decreases_to_view;
                assert(decreases_to!(j => j->Object_0));
            }
            JsonV::Object(entry_views(v@))
        },
    }
}

impl View for Json {
    type V = JsonV;

    open spec fn view(&self) -> JsonV {
        json_view(*self)
    }
}

/// Views of a sequence of members.
pub open spec fn entry_views(v: Seq<(String, Json)>) -> Seq<(Seq<char>, JsonV)>
    decreases v, 0int,
{
    Seq::new(
        v.len(),
        |i: int|
            if 0 <= i < v.len() {
                proof {
                    assert(decreases_to!(v => v[i]));
                    assert(decreases_to!(v[i] => v[i].1));
                }
                (v[i].0@, json_view(v[i].1))
            } else {
                (Seq::empty(), JsonV::Null)
            },
    )
}

/// Views of a sequence of values.
pub open spec fn json_views(v: Seq<Json>) -> Seq<JsonV>
    decreases v, 0int,
{
    Seq::new(
        v.len(),
        |i: int|
            if 0 <= i < v.len() {
                json_view(v[i])
            } else {
                JsonV::Null
            },
    )
}

pub proof fn lemma_array_view(v: Vec<Json>)
    ensures
        Json::Array(v)@ == JsonV::Array(json_views(v@)),
{
}

pub proof fn lemma_object_view(v: Vec<(String, Json)>)
    ensures
        Json::Object(v)@ == JsonV::Object(entry_views(v@)),
{
}

// ---------------------------------------------------------------------------
// Accessors
// ---------------------------------------------------------------------------

/// Index of the first member named `key`, if any.
pub open spec fn first_key_index(entries: Seq<(Seq<char>, JsonV)>, key: Seq<char>) -> Option<int>
    decreases entries.len(),
{
    if entries.len() == 0 {
        None
    } else {
        match first_key_index(entries.drop_last(), key) {
            Some(i) => Some(i),
            None => if entries.last().0 == key {
                Some(entries.len() - 1)
            } else {
                None
            },
        }
    }
}

pub proof fn lemma_first_key_index(entries: Seq<(Seq<char>, JsonV)>, key: Seq<char>)
    ensures
        match first_key_index(entries, key) {
            Some(i) => 0 <= i < entries.len() && entries[i].0 == key && forall|j: int|
                0 <= j < i ==> (#[trigger] entries[j]).0 != key,
            None => forall|j: int| 0 <= j < entries.len() ==> (#[trigger] entries[j]).0 != key,
        },
    decreases entries.len(),
{
    if entries.len() > 0 {
        lemma_first_key_index(entries.drop_last(), key);
        assert forall|j: int| 0 <= j < entries.len() - 1 implies entries.drop_last()[j]
            == entries[j] by {}
    }
}

/// The value of the member named `key` of an object (`Value::get`).
pub open spec fn jget(v: JsonV, key: Seq<char>) -> Option<JsonV> {
    match v {
        JsonV::Object(entries) => match first_key_index(entries, key) {
            Some(i) => Some(entries[i].1),
            None => None,
        },
        _ => None,
    }
}

/// `Value::get` on an optional value.
pub open spec fn oget(o: Option<JsonV>, key: Seq<char>) -> Option<JsonV> {
    match o {
        Some(v) => jget(v, key),
        None => None,
    }
}

/// The text of a string value (`Value::as_str`).
pub open spec fn ostr(o: Option<JsonV>) -> Option<Seq<char>> {
    match o {
        Some(JsonV::Str(s)) => Some(s),
        _ => None,
    }
}

/// The elements of an array value (`Value::as_array`).
pub open spec fn oarr(o: Option<JsonV>) -> Option<Seq<JsonV>> {
    match o {
        Some(JsonV::Array(a)) => Some(a),
        _ => None,
    }
}

/// The first element of an optional array (`as_array().and_then(first)`).
pub open spec fn ofirst(o: Option<JsonV>) -> Option<JsonV> {
    match oarr(o) {
        Some(a) => if a.len() > 0 {
            Some(a[0])
        } else {
            None
        },
        None => None,
    }
}

/// `Value::as_u64`.
pub open spec fn ou64(o: Option<JsonV>) -> Option<u64> {
    match o {
        Some(JsonV::Number(NumV::PosInt(u))) => Some(u),
        _ => None,
    }
}

/// `Value::as_i64`.
pub open spec fn oi64(o: Option<JsonV>) -> Option<i64> {
    match o {
        Some(JsonV::Number(NumV::PosInt(u))) => if u <= i64::MAX {
            Some(u as i64)
        } else {
            None
        },
        Some(JsonV::Number(NumV::NegInt(i))) => Some(i),
        _ => None,
    }
}

/// `Value::as_bool`.
pub open spec fn obool(o: Option<JsonV>) -> Option<bool> {
    match o {
        Some(JsonV::Bool(b)) => Some(b),
        _ => None,
    }
}

pub open spec fn opt_view(o: Option<&Json>) -> Option<JsonV> {
    match o {
        Some(j) => Some(j@),
        None => None,
    }
}

pub open spec fn opt_str_view(o: Option<&str>) -> Option<Seq<char>> {
    match o {
        Some(s) => Some(s@),
        None => None,
    }
}

impl Json {
    /// The member named `key` of an object; `None` for other values.
    pub fn get(&self, key: &str) -> (r: Option<&Json>)
        ensures
            opt_view(r) == jget(self@, key@),
    {
        match self {
            Json::Object(entries) => {
                proof {
                    lemma_object_view(*entries);
                }
                let ghost ev = entry_views(entries@);
                let mut i: usize = 0;
                while i < entries.len()
                    invariant
                        i <= entries.len(),
                        *self == Json::Object(*entries),
                        ev == entry_views(entries@),
                        first_key_index(ev.take(i as int), key@) is None,
                    decreases entries.len() - i,
                {
                    assert(ev.take(i + 1).drop_last() =~= ev.take(i as int));
                    if str_eq(entries[i].0.as_str(), key) {
                        proof {
                            lemma_first_key_index(ev.take(i + 1), key@);
                            lemma_first_key_index(ev, key@);
                            lemma_first_key_index(ev.take(i as int), key@);
                            let fi = first_key_index(ev, key@);
                            if fi != Some(i as int) {
                                assert(ev[i as int].0 == key@);
                                let k = fi->0;
                                assert(k < i);
                                assert(ev.take(i as int)[k] == ev[k]);
                            }
                            assert(fi == Some(i as int));
                            assert(ev[i as int].1 == entries@[i as int].1@);
                        }
                        return Some(&entries[i].1);
                    }
                    i = i + 1;
                }
                proof {
                    assert(ev.take(entries.len() as int) =~= ev);
                }
                None
            },
            _ => None,
        }
    }

    /// The text of a string value.
    pub fn as_str(&self) -> (r: Option<&str>)
        ensures
            opt_str_view(r) == ostr(Some(self@)),
    {
        match self {
            Json::Str(s) => Some(s.as_str()),
            _ => None,
        }
    }

    /// The elements of an array value.
    pub fn as_array(&self) -> (r: Option<&Vec<Json>>)
        ensures
            match r {
                Some(v) => oarr(Some(self@)) == Some(json_views(v@)),
                None => oarr(Some(self@)) is None,
            },
    {
        match self {
            Json::Array(v) => {
                proof {
                    lemma_array_view(*v);
                }
                Some(v)
            },
            _ => None,
        }
    }

    pub fn as_u64(&self) -> (r: Option<u64>)
        ensures
            r == ou64(Some(self@)),
    {
        match self {
            Json::Number(JsonNumber::PosInt(u)) => Some(*u),
            _ => None,
        }
    }

    pub fn as_i64(&self) -> (r: Option<i64>)
        ensures
            r == oi64(Some(self@)),
    {
        match self {
            Json::Number(JsonNumber::PosInt(u)) => {
                if *u <= 0x7fff_ffff_ffff_ffffu64 {
                    Some(*u as i64)
                } else {
                    None
                }
            },
            Json::Number(JsonNumber::NegInt(i)) => Some(*i),
            _ => None,
        }
    }

    pub fn as_bool(&self) -> (r: Option<bool>)
        ensures
            r == obool(Some(self@)),
    {
        match self {
            Json::Bool(b) => Some(*b),
            _ => None,
        }
    }

    /// A copy of this value.
    pub fn duplicate(&self) -> (r: Json)
        ensures
            r@ == self@,
        decreases self,
    {
        match self {
            Json::Null => Json::Null,
            Json::Bool(b) => Json::Bool(*b),
            Json::Number(JsonNumber::PosInt(u)) => Json::Number(JsonNumber::PosInt(*u)),
            Json::Number(JsonNumber::NegInt(i)) => Json::Number(JsonNumber::NegInt(*i)),
            Json::Number(JsonNumber::Float(t)) => Json::Number(JsonNumber::Float(t.clone())),
            Json::Str(s) => Json::Str(s.clone()),
            Json::Array(v) => {
                let mut out: Vec<Json> = Vec::new();
                let mut i: usize = 0;
                while i < v.len()
                    invariant
                        i <= v.len(),
                        *self == Json::Array(*v),
                        json_views(out@) == json_views(v@).take(i as int),
                    decreases v.len() - i,
                {
                    proof {
                        broadcast use vstd::std_specs::vec::axiom_vec_index_decreases;
                        let me = *self;
                        let vv = *v;
                        assert(decreases_to!(me => me->Array_0));
                        assert(decreases_to!(vv => vv[i as int]));
                    }
                    let e = v[i].duplicate();
                    let ghost pre = json_views(out@);
                    let ghost ev = e@;
                    out.push(e);
                    assert(json_views(out@) =~= pre.push(ev));
                    assert(json_views(out@) =~= json_views(v@).take(i + 1));
                    i = i + 1;
                }
                proof {
                    lemma_array_view(*v);
                    lemma_array_view(out);
                    assert(json_views(v@).take(v.len() as int) =~= json_views(v@));
                }
                Json::Array(out)
            },
            Json::Object(v) => {
                let mut out: Vec<(String, Json)> = Vec::new();
                let mut i: usize = 0;
                while i < v.len()
                    invariant
                        i <= v.len(),
                        *self == Json::Object(*v),
                        entry_views(out@) == entry_views(v@).take(i as int),
                    decreases v.len() - i,
                {
                    proof {
                        broadcast use vstd::std_specs::vec::axiom_vec_index_decreases;
                        let me = *self;
                        let vv = *v;
                        assert(decreases_to!(me => me->Object_0));
                        assert(decreases_to!(vv => vv[i as int]));
                        assert(decreases_to!(vv[i as int] => vv[i as int].1));
                    }
                    let e = v[i].1.duplicate();
                    let k = v[i].0.clone();
                    let ghost pre = entry_views(out@);
                    let ghost item = (k@, e@);
                    assert(item == (v@[i as int].0@, v@[i as int].1@));
                    out.push((k, e));
                    assert(entry_views(out@) =~= pre.push(item));
                    assert(entry_views(out@) =~= entry_views(v@).take(i + 1));
                    i = i + 1;
                }
                proof {
                    lemma_object_view(*v);
                    lemma_object_view(out);
                    assert(entry_views(v@).take(v.len() as int) =~= entry_views(v@));
                }
                Json::Object(out)
            },
        }
    }
}

/// A string value holding `s`.
pub fn json_string(s: &str) -> (r: Json)
    ensures
        r@ == JsonV::Str(s@),
{
    Json::Str(owned(s))
}

/// An optional member lookup (`Option<&Value>::and_then(|v| v.get(key))`).
pub fn get_opt<'a>(o: Option<&'a Json>, key: &str) -> (r: Option<&'a Json>)
    ensures
        opt_view(r) == oget(opt_view(o), key@),
{
    match o {
        Some(v) => v.get(key),
        None => None,
    }
}

/// An optional string lookup (`Option<&Value>::and_then(as_str)`).
pub fn str_opt<'a>(o: Option<&'a Json>) -> (r: Option<&'a str>)
    ensures
        opt_str_view(r) == ostr(opt_view(o)),
{
    match o {
        Some(v) => v.as_str(),
        None => None,
    }
}

/// The first element of an optional array.
pub fn first_opt<'a>(o: Option<&'a Json>) -> (r: Option<&'a Json>)
    ensures
        opt_view(r) == ofirst(opt_view(o)),
{
    match o {
        Some(v) => match v.as_array() {
            Some(a) => {
                if a.len() > 0 {
                    assert(json_views(a@)[0] == a@[0]@);
                    Some(&a[0])
                } else {
                    None
                }
            },
            None => None,
        },
        None => None,
    }
}

// ---------------------------------------------------------------------------
// Building objects
// ---------------------------------------------------------------------------

/// The members after setting `key` to `value`: an existing member keeps its
/// place and takes the new value, a new one is appended.
pub open spec fn set_member(entries: Seq<(Seq<char>, JsonV)>, key: Seq<char>, value: JsonV) -> Seq<
    (Seq<char>, JsonV),
> {
    match first_key_index(entries, key) {
        Some(i) => entries.update(i, (key, value)),
        None => entries.push((key, value)),
    }
}

/// Sets member `key` of an object to `value` (`value[key] = ...` on a map).
pub fn set_entry(entries: &mut Vec<(String, Json)>, key: &str, value: Json)
    ensures
        entry_views(final(entries)@) == set_member(entry_views(old(entries)@), key@, value@),
{
    let ghost ev = entry_views(entries@);
    let mut i: usize = 0;
    while i < entries.len()
        invariant
            i <= entries.len(),
            entries@ == old(entries)@,
            ev == entry_views(entries@),
            first_key_index(ev.take(i as int), key@) is None,
        decreases entries.len() - i,
    {
        assert(ev.take(i + 1).drop_last() =~= ev.take(i as int));
        if str_eq(entries[i].0.as_str(), key) {
            proof {
                assert(ev[i as int].0 == key@);
                lemma_first_key_index(ev, key@);
                lemma_first_key_index(ev.take(i as int), key@);
                let fi = first_key_index(ev, key@);
                if fi != Some(i as int) {
                    let k = fi->0;
                    assert(k < i);
                    assert(ev.take(i as int)[k] == ev[k]);
                }
                assert(fi == Some(i as int));
            }
            let ghost vv = value@;
            entries.set(i, (owned(key), value));
            assert(entry_views(entries@) =~= ev.update(i as int, (key@, vv)));
            return;
        }
        i = i + 1;
    }
    assert(ev.take(entries.len() as int) =~= ev);
    let ghost vv = value@;
    entries.push((owned(key), value));
    assert(entry_views(entries@) =~= ev.push((key@, vv)));
}

/// An object with the given members, in order.
pub fn object_of(entries: Vec<(String, Json)>) -> (r: Json)
    ensures
        r@ == JsonV::Object(entry_views(entries@)),
{
    proof {
        lemma_object_view(entries);
    }
    Json::Object(entries)
}

// ---------------------------------------------------------------------------
// Text
// ---------------------------------------------------------------------------

/// How a number displays: digits of an integer, or the held text of a
/// floating-point number.
pub open spec fn number_text(n: NumV) -> Seq<char> {
    match n {
        NumV::PosInt(u) => decimal(u as nat),
        NumV::NegInt(i) => signed_decimal(i as int),
        NumV::Float(t) => t,
    }
}

pub fn number_to_text(n: &JsonNumber) -> (r: String)
    ensures
        r@ == number_text(num_view(*n)),
{
    match n {
        JsonNumber::PosInt(u) => u64_to_decimal(*u),
        JsonNumber::NegInt(i) => i64_to_decimal(*i),
        JsonNumber::Float(t) => t.clone(),
    }
}

pub open spec fn lower_hex_char(d: nat) -> char {
    if d < 10 {
        digit_char(d)
    } else if d == 10 {
        'a'
    } else if d == 11 {
        'b'
    } else if d == 12 {
        'c'
    } else if d == 13 {
        'd'
    } else if d == 14 {
        'e'
    } else {
        'f'
    }
}

/// How one character appears inside a JSON string literal.
pub open spec fn escape_char(c: char) -> Seq<char> {
    if c == '"' {
        seq!['\\', '"']
    } else if c == '\\' {
        seq!['\\', '\\']
    } else if c == '\n' {
        seq!['\\', 'n']
    } else if c == '\r' {
        seq!['\\', 'r']
    } else if c == '\t' {
        seq!['\\', 't']
    } else if c == '\u{8}' {
        seq!['\\', 'b']
    } else if c == '\u{c}' {
        seq!['\\', 'f']
    } else if (c as u32) < 0x20 {
        seq!['\\', 'u', '0', '0', lower_hex_char((c as u32 / 16) as nat), lower_hex_char((c as u32 % 16) as nat)]
    } else {
        seq![c]
    }
}

pub open spec fn escape_text(s: Seq<char>) -> Seq<char>
    decreases s.len(),
{
    if s.len() == 0 {
        Seq::empty()
    } else {
        escape_text(s.drop_last()) + escape_char(s.last())
    }
}

/// A JSON string literal.
pub open spec fn quoted(s: Seq<char>) -> Seq<char> {
    seq!['"'] + escape_text(s) + seq!['"']
}

/// Compact JSON text of a value (what `Value`'s `Display` writes).
pub open spec fn json_text(v: JsonV) -> Seq<char>
    decreases v, 1int,
{
    match v {
        JsonV::Null => seq!['n', 'u', 'l', 'l'],
        JsonV::Bool(b) => if b {
            seq!['t', 'r', 'u', 'e']
        } else {
            seq!['f', 'a', 'l', 's', 'e']
        },
        JsonV::Number(n) => number_text(n),
        JsonV::Str(s) => quoted(s),
        JsonV::Array(items) => seq!['['] + join_spec(item_texts(items), seq![',']) + seq![']'],
        JsonV::Object(entries) => seq!['{'] + join_spec(member_texts(entries), seq![','])
            + seq!['}'],
    }
}

/// The texts of array elements.
pub open spec fn item_texts(items: Seq<JsonV>) -> Seq<Seq<char>>
    decreases items, 0int,
{
    Seq::new(
        items.len(),
        |i: int|
            if 0 <= i < items.len() {
                json_text(items[i])
            } else {
                Seq::empty()
            },
    )
}

/// The texts of object members, `"key":value` each.
pub open spec fn member_texts(entries: Seq<(Seq<char>, JsonV)>) -> Seq<Seq<char>>
    decreases entries, 0int,
{
    Seq::new(
        entries.len(),
        |i: int|
            if 0 <= i < entries.len() {
                quoted(entries[i].0) + seq![':'] + json_text(entries[i].1)
            } else {
                Seq::empty()
            },
    )
}

fn lower_hex(d: u32) -> (c: char)
    requires
        d < 16,
    ensures
        c == lower_hex_char(d as nat),
{
    if d < 10 {
        digit(d as u64)
    } else if d == 10 {
        'a'
    } else if d == 11 {
        'b'
    } else if d == 12 {
        'c'
    } else if d == 13 {
        'd'
    } else if d == 14 {
        'e'
    } else {
        'f'
    }
}

fn push_escaped_char(out: &mut String, c: char)
    ensures
        final(out)@ == old(out)@ + escape_char(c),
{
    let ghost start = out@;
    if c == '"' {
        push_char(out, '\\');
        push_char(out, '"');
    } else if c == '\\' {
        push_char(out, '\\');
        push_char(out, '\\');
    } else if c == '\n' {
        push_char(out, '\\');
        push_char(out, 'n');
    } else if c == '\r' {
        push_char(out, '\\');
        push_char(out, 'r');
    } else if c == '\t' {
        push_char(out, '\\');
        push_char(out, 't');
    } else if c == '\u{8}' {
        push_char(out, '\\');
        push_char(out, 'b');
    } else if c == '\u{c}' {
        push_char(out, '\\');
        push_char(out, 'f');
    } else if (c as u32) < 0x20 {
        push_char(out, '\\');
        push_char(out, 'u');
        push_char(out, '0');
        push_char(out, '0');
        push_char(out, lower_hex(c as u32 / 16));
        push_char(out, lower_hex(c as u32 % 16));
    } else {
        push_char(out, c);
    }
    assert(out@ =~= start + escape_char(c));
}

/// Appends a JSON string literal for `s`.
pub fn push_quoted(out: &mut String, s: &str)
    ensures
        final(out)@ == old(out)@ + quoted(s@),
{
    let ghost start = out@;
    push_char(out, '"');
    let cs = chars_of(s);
    let mut i: usize = 0;
    while i < cs.len()
        invariant
            i <= cs.len(),
            cs@ == s@,
            out@ == start + seq!['"'] + escape_text(s@.take(i as int)),
        decreases cs.len() - i,
    {
        assert(s@.take(i + 1).drop_last() =~= s@.take(i as int));
        push_escaped_char(out, cs[i]);
        i = i + 1;
    }
    assert(s@.take(cs.len() as int) =~= s@);
    push_char(out, '"');
    assert(out@ =~= start + quoted(s@));
}

/// Appends the compact JSON text of `v`.
pub fn push_json_text(out: &mut String, v: &Json)
    ensures
        final(out)@ == old(out)@ + json_text(v@),
    decreases v,
{
    let ghost start = out@;
    match v {
        Json::Null => {
            push_str(out, "null");
            proof {
                reveal_strlit("null");
            }
            assert(out@ =~= start + json_text(v@));
        },
        Json::Bool(b) => {
            if *b {
                push_str(out, "true");
                proof {
                    reveal_strlit("true");
                }
            } else {
                push_str(out, "false");
                proof {
                    reveal_strlit("false");
                }
            }
            assert(out@ =~= start + json_text(v@));
        },
        Json::Number(n) => {
            let t = number_to_text(n);
            push_str(out, t.as_str());
        },
        Json::Str(s) => {
            push_quoted(out, s.as_str());
        },
        Json::Array(items) => {
            proof {
                lemma_array_view(*items);
            }
            let ghost iv = json_views(items@);
            let ghost texts = item_texts(iv);
            push_char(out, '[');
            let mut i: usize = 0;
            while i < items.len()
                invariant
                    i <= items.len(),
                    *v == Json::Array(*items),
                    iv == json_views(items@),
                    texts.len() == iv.len(),
                    forall|k: int| 0 <= k < iv.len() ==> #[trigger] texts[k] == json_text(iv[k]),
                    out@ == start + seq!['['] + join_spec(texts.take(i as int), seq![',']),
                decreases items.len() - i,
            {
                proof {
                    broadcast use vstd::std_specs::vec::axiom_vec_index_decreases;
                    let me = *v;
                    let vv = *items;
                    assert(decreases_to!(me => me->Array_0));
                    assert(decreases_to!(vv => vv[i as int]));
                }
                assert(texts.take(i + 1).drop_last() =~= texts.take(i as int));
                if i > 0 {
                    push_char(out, ',');
                } else {
                    assert(join_spec(texts.take(0), seq![',']) =~= Seq::<char>::empty());
                }
                push_json_text(out, &items[i]);
                assert(texts[i as int] == json_text(items@[i as int]@));
                assert(out@ =~= start + seq!['['] + join_spec(texts.take(i + 1), seq![',']));
                i = i + 1;
            }
            assert(texts.take(items.len() as int) =~= texts);
            push_char(out, ']');
            assert(out@ =~= start + json_text(v@));
        },
        Json::Object(entries) => {
            proof {
                lemma_object_view(*entries);
            }
            let ghost ev = entry_views(entries@);
            let ghost texts = member_texts(ev);
            push_char(out, '{');
            let mut i: usize = 0;
            while i < entries.len()
                invariant
                    i <= entries.len(),
                    *v == Json::Object(*entries),
                    ev == entry_views(entries@),
                    texts.len() == ev.len(),
                    forall|k: int|
                        0 <= k < ev.len() ==> #[trigger] texts[k] == quoted(ev[k].0) + seq![':']
                            + json_text(ev[k].1),
                    out@ == start + seq!['{'] + join_spec(texts.take(i as int), seq![',']),
                decreases entries.len() - i,
            {
                proof {
                    broadcast use vstd::std_specs::vec::axiom_vec_index_decreases;
                    let me = *v;
                    let vv = *entries;
                    assert(decreases_to!(me => me->Object_0));
                    assert(decreases_to!(vv => vv[i as int]));
                    assert(decreases_to!(vv[i as int] => vv[i as int].1));
                }
                assert(texts.take(i + 1).drop_last() =~= texts.take(i as int));
                let ghost before = out@;
                if i > 0 {
                    push_char(out, ',');
                } else {
                    assert(join_spec(texts.take(0), seq![',']) =~= Seq::<char>::empty());
                }
                let ghost mid = out@;
                push_quoted(out, entries[i].0.as_str());
                push_char(out, ':');
                push_json_text(out, &entries[i].1);
                assert(texts[i as int] == quoted(entries@[i as int].0@) + seq![':'] + json_text(
                    entries@[i as int].1@,
                ));
                assert(out@ =~= mid + texts[i as int]);
                assert(out@ =~= start + seq!['{'] + join_spec(texts.take(i + 1), seq![',']));
                i = i + 1;
            }
            assert(texts.take(entries.len() as int) =~= texts);
            push_char(out, '}');
            assert(out@ =~= start + json_text(v@));
        },
    }
}

/// The compact JSON text of a value.
pub fn to_json_text(v: &Json) -> (r: String)
    ensures
        r@ == json_text(v@),
{
    let mut r = String::new();
    push_json_text(&mut r, v);
    r
}

} // verus!
