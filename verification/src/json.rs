//! A JSON value model: the documents of MCP clients and the payloads of
//! JSON-RPC messages, with field access and compact serialisation.
use vstd::prelude::*;
use crate::text::{append_chars, decimal, decimal_chars_u64, str_chars, string_from_chars};

verus! {

/// A JSON number as JSON-RPC peers send it: a non-negative integer, a
/// negative integer, or any other number kept as its JSON text.
#[derive(Debug)]
pub enum JsonNumber {
    PosInt(u64),
    NegInt(i64),
    Float(String),
}

/// A JSON value. Objects keep their fields in document order; a lookup finds
/// the first field with the key.
#[derive(Debug)]
pub enum Json {
    Null,
    Bool(bool),
    Number(JsonNumber),
    Str(String),
    Array(Vec<Json>),
    Object(Vec<(String, Json)>),
}

/// The mathematical value of a JSON number.
pub enum NumV {
    PosInt(u64),
    NegInt(i64),
    Float(Seq<char>),
}

/// The mathematical value of a JSON document.
pub enum JsonV {
    Null,
    Bool(bool),
    Number(NumV),
    Str(Seq<char>),
    Array(Seq<JsonV>),
    Object(Seq<(Seq<char>, JsonV)>),
}

pub open spec fn num_view(n: JsonNumber) -> NumV {
    match n {
        JsonNumber::PosInt(u) => NumV::PosInt(u),
        JsonNumber::NegInt(i) => NumV::NegInt(i),
        JsonNumber::Float(s) => NumV::Float(s@),
    }
}

/// The value a `Json` stands for.
pub open spec fn jview(j: Json) -> JsonV
    decreases j,
{
    match j {
        Json::Null => JsonV::Null,
        Json::Bool(b) => JsonV::Bool(b),
        Json::Number(n) => JsonV::Number(num_view(n)),
        Json::Str(s) => JsonV::Str(s@),
        Json::Array(items) => {
            proof {
                broadcast use vstd::std_specs::vec::axiom_vec_decreases_to_view;

                assert(decreases_to!(items => items@));
            }
            JsonV::Array(jview_items(items@))
        },
        Json::Object(fields) => {
            proof {
                broadcast use vstd::std_specs::vec::axiom_vec_decreases_to_view;

                assert(decreases_to!(fields => fields@));
            }
            JsonV::Object(jview_fields(fields@))
        },
    }
}

pub open spec fn jview_items(s: Seq<Json>) -> Seq<JsonV>
    decreases s,
{
    if s.len() == 0 {
        seq![]
    } else {
        proof {
            assert(decreases_to!(s => s[s.len() - 1]));
        }
        jview_items(s.drop_last()).push(jview(s[s.len() - 1]))
    }
}

pub open spec fn jview_fields(s: Seq<(String, Json)>) -> Seq<(Seq<char>, JsonV)>
    decreases s,
{
    if s.len() == 0 {
        seq![]
    } else {
        proof {
            assert(decreases_to!(s => s[s.len() - 1]));
            assert(decreases_to!(s[s.len() - 1] => s[s.len() - 1].1));
        }
        jview_fields(s.drop_last()).push((s[s.len() - 1].0@, jview(s[s.len() - 1].1)))
    }
}

impl View for Json {
    type V = JsonV;

    open spec fn view(&self) -> JsonV {
        jview(*self)
    }
}

pub proof fn lemma_jview_items(s: Seq<Json>)
    ensures
        jview_items(s).len() == s.len(),
        forall|i: int| 0 <= i < s.len() ==> #[trigger] jview_items(s)[i] == jview(s[i]),
    decreases s.len(),
{
    if s.len() > 0 {
        lemma_jview_items(s.drop_last());
        assert forall|i: int| 0 <= i < s.len() implies #[trigger] jview_items(s)[i] == jview(s[i]) by {
            if i < s.len() - 1 {
                assert(s.drop_last()[i] == s[i]);
            }
        }
    }
}

pub proof fn lemma_jview_fields(s: Seq<(String, Json)>)
    ensures
        jview_fields(s).len() == s.len(),
        forall|i: int|
            0 <= i < s.len() ==> #[trigger] jview_fields(s)[i] == (s[i].0@, jview(s[i].1)),
    decreases s.len(),
{
    if s.len() > 0 {
        lemma_jview_fields(s.drop_last());
        assert forall|i: int| 0 <= i < s.len() implies #[trigger] jview_fields(s)[i] == (
        s[i].0@,
        jview(s[i].1),
        ) by {
            if i < s.len() - 1 {
                assert(s.drop_last()[i] == s[i]);
            }
        }
    }
}

// ── Field access ────────────────────────────────────────────────────────────

/// The value of the first field named `key`.
pub open spec fn vfield(fs: Seq<(Seq<char>, JsonV)>, key: Seq<char>) -> Option<JsonV>
    decreases fs.len(),
{
    if fs.len() == 0 {
        None
    } else if fs[0].0 == key {
        Some(fs[0].1)
    } else {
        vfield(fs.drop_first(), key)
    }
}

/// The field `key` of an object; `None` for a missing field or a value that
/// is not an object.
pub open spec fn vget(v: JsonV, key: Seq<char>) -> Option<JsonV> {
    match v {
        JsonV::Object(fs) => vfield(fs, key),
        _ => None,
    }
}

pub open spec fn vstr(v: JsonV) -> Option<Seq<char>> {
    match v {
        JsonV::Str(s) => Some(s),
        _ => None,
    }
}

pub open spec fn vbool(v: JsonV) -> Option<bool> {
    match v {
        JsonV::Bool(b) => Some(b),
        _ => None,
    }
}

pub open spec fn vu64(v: JsonV) -> Option<u64> {
    match v {
        JsonV::Number(NumV::PosInt(u)) => Some(u),
        _ => None,
    }
}

/// `vget` followed by `vstr`: the string value of a field.
pub open spec fn vget_str(v: JsonV, key: Seq<char>) -> Option<Seq<char>> {
    match vget(v, key) {
        Some(x) => vstr(x),
        None => None,
    }
}

/// The field `key` of `o`, when `o` is an object and has that field.
pub fn get_field<'a>(fields: &'a Vec<(String, Json)>, key: &str) -> (r: Option<&'a Json>)
    ensures
        match r {
            Some(x) => vfield(jview_fields(fields@), key@) == Some(x@),
            None => vfield(jview_fields(fields@), key@) is None,
        },
{
    proof {
        lemma_jview_fields(fields@);
    }
    let k = str_chars(key);
    let mut i: usize = 0;
    assert(jview_fields(fields@).skip(0) =~= jview_fields(fields@));
    while i < fields.len()
        invariant
            i <= fields.len(),
            k@ == key@,
            jview_fields(fields@).len() == fields@.len(),
            forall|j: int|
                0 <= j < fields@.len() ==> #[trigger] jview_fields(fields@)[j] == (
                    fields@[j].0@,
                    jview(fields@[j].1),
                ),
            vfield(jview_fields(fields@), key@) == vfield(jview_fields(fields@).skip(i as int), key@),
        decreases fields.len() - i,
    {
        let ghost fs = jview_fields(fields@);
        assert(fs.skip(i as int)[0] == fs[i as int]);
        assert(fs.skip(i as int).drop_first() =~= fs.skip(i + 1));
        if crate::compress::chars_eq(&str_chars(fields[i].0.as_str()), &k) {
            return Some(&fields[i].1);
        }
        i = i + 1;
    }
    None
}

impl Json {
    pub fn get(&self, key: &str) -> (r: Option<&Json>)
        ensures
            match r {
                Some(x) => vget(self@, key@) == Some(x@),
                None => vget(self@, key@) is None,
            },
    {
        match self {
            Json::Object(fields) => get_field(fields, key),
            _ => None,
        }
    }

    pub fn as_str(&self) -> (r: Option<&String>)
        ensures
            match r {
                Some(s) => vstr(self@) == Some(s@),
                None => vstr(self@) is None,
            },
    {
        match self {
            Json::Str(s) => Some(s),
            _ => None,
        }
    }

    pub fn as_bool(&self) -> (r: Option<bool>)
        ensures
            r == vbool(self@),
    {
        match self {
            Json::Bool(b) => Some(*b),
            _ => None,
        }
    }

    pub fn as_u64(&self) -> (r: Option<u64>)
        ensures
            r == vu64(self@),
    {
        match self {
            Json::Number(JsonNumber::PosInt(u)) => Some(*u),
            _ => None,
        }
    }

    pub fn as_array(&self) -> (r: Option<&Vec<Json>>)
        ensures
            match r {
                Some(a) => self@ == JsonV::Array(jview_items(a@)),
                None => !(self@ is Array),
            },
    {
        match self {
            Json::Array(a) => Some(a),
            _ => None,
        }
    }

    pub fn as_object(&self) -> (r: Option<&Vec<(String, Json)>>)
        ensures
            match r {
                Some(fs) => self@ == JsonV::Object(jview_fields(fs@)),
                None => !(self@ is Object),
            },
    {
        match self {
            Json::Object(fs) => Some(fs),
            _ => None,
        }
    }

    pub fn is_some_str(&self, expected: &str) -> (b: bool)
        ensures
            b == (vstr(self@) == Some(expected@)),
    {
        match self {
            Json::Str(s) => crate::compress::chars_eq(&str_chars(s.as_str()), &str_chars(expected)),
            _ => false,
        }
    }
}

/// Whether the field `key` of `v` is the string `expected`.
pub fn field_is_str(v: Option<&Json>, expected: &str) -> (b: bool)
    ensures
        b == match v {
            Some(x) => vstr(x@) == Some(expected@),
            None => false,
        },
{
    match v {
        Some(x) => x.is_some_str(expected),
        None => false,
    }
}

// ── Compact serialisation ─────────────────────────────────────────────────

pub open spec fn hex_digit(d: nat) -> char {
    seq!['0', '1', '2', '3', '4', '5', '6', '7', '8', '9', 'a', 'b', 'c', 'd', 'e', 'f'][d as int]
}

/// How a character of a string is written inside JSON quotes: `"` and `\`
/// and control characters are escaped, everything else is written as is.
pub open spec fn escape_char(c: char) -> Seq<char> {
    if c == '"' {
        seq!['\\', '"']
    } else if c == '\\' {
        seq!['\\', '\\']
    } else if c == '\u{8}' {
        seq!['\\', 'b']
    } else if c == '\t' {
        seq!['\\', 't']
    } else if c == '\n' {
        seq!['\\', 'n']
    } else if c == '\u{c}' {
        seq!['\\', 'f']
    } else if c == '\r' {
        seq!['\\', 'r']
    } else if (c as u32) < 0x20 {
        seq!['\\', 'u', '0', '0', hex_digit(((c as u32) / 16) as nat), hex_digit(((c as u32) % 16) as nat)]
    } else {
        seq![c]
    }
}

pub open spec fn escape_str(s: Seq<char>) -> Seq<char>
    decreases s.len(),
{
    if s.len() == 0 {
        seq![]
    } else {
        escape_str(s.drop_last()) + escape_char(s.last())
    }
}

/// A string literal in JSON: quoted and escaped.
pub open spec fn quoted(s: Seq<char>) -> Seq<char> {
    seq!['"'] + escape_str(s) + seq!['"']
}

pub open spec fn num_text(n: NumV) -> Seq<char> {
    match n {
        NumV::PosInt(u) => decimal(u as nat),
        NumV::NegInt(i) => if i < 0 {
            seq!['-'] + decimal((-i) as nat)
        } else {
            decimal(i as nat)
        },
        NumV::Float(t) => t,
    }
}

/// The compact JSON text of a value: no whitespace, fields in order.
pub open spec fn json_text(v: JsonV) -> Seq<char>
    decreases v,
{
    match v {
        JsonV::Null => "null"@,
        JsonV::Bool(b) => if b {
            "true"@
        } else {
            "false"@
        },
        JsonV::Number(n) => num_text(n),
        JsonV::Str(s) => quoted(s),
        JsonV::Array(items) => seq!['['] + items_text(items) + seq![']'],
        JsonV::Object(fs) => seq!['{'] + fields_text(fs) + seq!['}'],
    }
}

pub open spec fn items_text(s: Seq<JsonV>) -> Seq<char>
    decreases s,
{
    if s.len() == 0 {
        seq![]
    } else {
        proof {
            assert(decreases_to!(s => s[s.len() - 1]));
        }
        if s.len() == 1 {
            json_text(s[s.len() - 1])
        } else {
            items_text(s.drop_last()) + seq![','] + json_text(s[s.len() - 1])
        }
    }
}

pub open spec fn fields_text(s: Seq<(Seq<char>, JsonV)>) -> Seq<char>
    decreases s,
{
    if s.len() == 0 {
        seq![]
    } else {
        proof {
            assert(decreases_to!(s => s[s.len() - 1]));
            assert(decreases_to!(s[s.len() - 1] => s[s.len() - 1].1));
        }
        let field = quoted(s[s.len() - 1].0) + seq![':'] + json_text(s[s.len() - 1].1);
        if s.len() == 1 {
            field
        } else {
            fields_text(s.drop_last()) + seq![','] + field
        }
    }
}

fn hex(d: u32) -> (c: char)
    requires
        d < 16,
    ensures
        c == hex_digit(d as nat),
{
    let digits: [char; 16] = [
        '0',
        '1',
        '2',
        '3',
        '4',
        '5',
        '6',
        '7',
        '8',
        '9',
        'a',
        'b',
        'c',
        'd',
        'e',
        'f',
    ];
    assert(digits@ =~= seq!['0', '1', '2', '3', '4', '5', '6', '7', '8', '9', 'a', 'b', 'c', 'd', 'e', 'f']);
    digits[d as usize]
}

fn push_escaped_char(out: &mut Vec<char>, c: char)
    ensures
        final(out)@ == old(out)@ + escape_char(c),
{
    let ghost start = out@;
    if c == '"' {
        out.push('\\');
        out.push('"');
    } else if c == '\\' {
        out.push('\\');
        out.push('\\');
    } else if c == '\u{8}' {
        out.push('\\');
        out.push('b');
    } else if c == '\t' {
        out.push('\\');
        out.push('t');
    } else if c == '\n' {
        out.push('\\');
        out.push('n');
    } else if c == '\u{c}' {
        out.push('\\');
        out.push('f');
    } else if c == '\r' {
        out.push('\\');
        out.push('r');
    } else if (c as u32) < 0x20 {
        let code = c as u32;
        out.push('\\');
        out.push('u');
        out.push('0');
        out.push('0');
        out.push(hex(code / 16));
        out.push(hex(code % 16));
    } else {
        out.push(c);
    }
    assert(out@ =~= start + escape_char(c));
}

/// Appends `s` as a quoted, escaped JSON string.
pub fn push_quoted(out: &mut Vec<char>, s: &str)
    ensures
        final(out)@ == old(out)@ + quoted(s@),
{
    let cs = str_chars(s);
    let ghost start = out@;
    out.push('"');
    let mut i: usize = 0;
    while i < cs.len()
        invariant
            i <= cs.len(),
            out@ == start + seq!['"'] + escape_str(cs@.take(i as int)),
        decreases cs.len() - i,
    {
        assert(cs@.take(i + 1).drop_last() =~= cs@.take(i as int));
        assert(cs@.take(i + 1).last() == cs@[i as int]);
        push_escaped_char(out, cs[i]);
        i = i + 1;
    }
    assert(cs@.take(cs.len() as int) =~= cs@);
    out.push('"');
    assert(out@ =~= start + quoted(s@));
}

fn push_number(out: &mut Vec<char>, n: &JsonNumber)
    ensures
        final(out)@ == old(out)@ + num_text(num_view(*n)),
{
    match n {
        JsonNumber::PosInt(u) => {
            append_chars(out, &decimal_chars_u64(*u));
        },
        JsonNumber::NegInt(i) => {
            if *i < 0 {
                out.push('-');
                let magnitude: u64 = if *i == i64::MIN {
                    9223372036854775808u64
                } else {
                    (-*i) as u64
                };
                let ghost start = out@;
                append_chars(out, &decimal_chars_u64(magnitude));
            } else {
                append_chars(out, &decimal_chars_u64(*i as u64));
            }
        },
        JsonNumber::Float(t) => {
            append_chars(out, &str_chars(t.as_str()));
        },
    }
}

/// Appends the compact JSON text of `j`.
#[verifier::loop_isolation(false)]
pub fn write_json(out: &mut Vec<char>, j: &Json)
    ensures
        final(out)@ == old(out)@ + json_text(j@),
    decreases j,
{
    let ghost start = out@;
    match j {
        Json::Null => {
            append_chars(out, &str_chars("null"));
        },
        Json::Bool(b) => {
            if *b {
                append_chars(out, &str_chars("true"));
            } else {
                append_chars(out, &str_chars("false"));
            }
        },
        Json::Number(n) => {
            push_number(out, n);
        },
        Json::Str(s) => {
            push_quoted(out, s.as_str());
        },
        Json::Array(items) => {
            out.push('[');
            let mut i: usize = 0;
            while i < items.len()
                invariant
                    i <= items.len(),
                    out@ == start + seq!['['] + items_text(jview_items(items@.take(i as int))),
                decreases items.len() - i,
            {
                assert(items@.take(i + 1).drop_last() =~= items@.take(i as int));
                proof {
                    lemma_jview_items(items@.take(i + 1));
                    lemma_jview_items(items@.take(i as int));
                    assert(decreases_to!(items => items[i as int]));
                }
                let ghost prev = jview_items(items@.take(i as int));
                let ghost cur = jview_items(items@.take(i + 1));
                assert(items@.take(i + 1)[i as int] == items@[i as int]);
                assert(cur.drop_last() =~= prev);
                assert(cur[cur.len() - 1] == jview(items@[i as int]));
                if i > 0 {
                    out.push(',');
                }
                write_json(out, &items[i]);
                assert(items_text(cur) == if i == 0 {
                    json_text(jview(items@[i as int]))
                } else {
                    items_text(prev) + seq![','] + json_text(jview(items@[i as int]))
                });
                i = i + 1;
                assert(out@ =~= start + seq!['['] + items_text(jview_items(items@.take(i as int))));
            }
            assert(items@.take(items.len() as int) =~= items@);
            out.push(']');
            assert(out@ =~= start + json_text(j@));
        },
        Json::Object(fields) => {
            out.push('{');
            let mut i: usize = 0;
            while i < fields.len()
                invariant
                    i <= fields.len(),
                    out@ == start + seq!['{'] + fields_text(jview_fields(fields@.take(i as int))),
                decreases fields.len() - i,
            {
                assert(fields@.take(i + 1).drop_last() =~= fields@.take(i as int));
                proof {
                    lemma_jview_fields(fields@.take(i + 1));
                    lemma_jview_fields(fields@.take(i as int));
                    assert(decreases_to!(fields => fields[i as int]));
                    assert(decreases_to!(fields[i as int] => fields[i as int].1));
                }
                let ghost prev = jview_fields(fields@.take(i as int));
                let ghost cur = jview_fields(fields@.take(i + 1));
                assert(fields@.take(i + 1)[i as int] == fields@[i as int]);
                assert(cur.drop_last() =~= prev);
                assert(cur[cur.len() - 1] == (fields@[i as int].0@, jview(fields@[i as int].1)));
                let ghost field = quoted(fields@[i as int].0@) + seq![':'] + json_text(jview(fields@[i as int].1));
                if i > 0 {
                    out.push(',');
                }
                push_quoted(out, fields[i].0.as_str());
                out.push(':');
                write_json(out, &fields[i].1);
                assert(fields_text(cur) == if i == 0 {
                    field
                } else {
                    fields_text(prev) + seq![','] + field
                });
                i = i + 1;
                assert(out@ =~= start + seq!['{'] + fields_text(jview_fields(fields@.take(i as int))));
            }
            assert(fields@.take(fields.len() as int) =~= fields@);
            out.push('}');
            assert(out@ =~= start + json_text(j@));
        },
    }
}

/// The compact JSON text of `j`, as `serde_json::Value`'s `Display` writes it.
pub fn to_json_string(j: &Json) -> (s: String)
    ensures
        s@ == json_text(j@),
{
    let mut out: Vec<char> = Vec::new();
    write_json(&mut out, j);
    assert(out@ =~= json_text(j@));
    string_from_chars(&out)
}

// ── Copies ────────────────────────────────────────────────────────────────

impl Clone for JsonNumber {
    fn clone(&self) -> (r: Self)
        ensures
            num_view(r) == num_view(*self),
    {
        match self {
            JsonNumber::PosInt(u) => JsonNumber::PosInt(*u),
            JsonNumber::NegInt(i) => JsonNumber::NegInt(*i),
            JsonNumber::Float(t) => JsonNumber::Float(t.clone()),
        }
    }
}

/// A copy of `j` with the same value.
#[verifier::loop_isolation(false)]
pub fn clone_json(j: &Json) -> (r: Json)
    ensures
        r@ == j@,
    decreases j,
{
    match j {
        Json::Null => Json::Null,
        Json::Bool(b) => Json::Bool(*b),
        Json::Number(n) => Json::Number(n.clone()),
        Json::Str(s) => Json::Str(s.clone()),
        Json::Array(items) => {
            let mut v: Vec<Json> = Vec::new();
            let mut i: usize = 0;
            while i < items.len()
                invariant
                    i <= items.len(),
                    jview_items(v@) == jview_items(items@.take(i as int)),
                decreases items.len() - i,
            {
                proof {
                    assert(decreases_to!(items => items[i as int]));
                }
                let c = clone_json(&items[i]);
                let ghost before = v@;
                v.push(c);
                assert(v@.drop_last() =~= before);
                assert(items@.take(i + 1).drop_last() =~= items@.take(i as int));
                assert(items@.take(i + 1)[i as int] == items@[i as int]);
                i = i + 1;
            }
            assert(items@.take(items.len() as int) =~= items@);
            Json::Array(v)
        },
        Json::Object(fields) => {
            let mut v: Vec<(String, Json)> = Vec::new();
            let mut i: usize = 0;
            while i < fields.len()
                invariant
                    i <= fields.len(),
                    jview_fields(v@) == jview_fields(fields@.take(i as int)),
                decreases fields.len() - i,
            {
                proof {
                    assert(decreases_to!(fields => fields[i as int]));
                    assert(decreases_to!(fields[i as int] => fields[i as int].1));
                }
                let c = clone_json(&fields[i].1);
                let k = fields[i].0.clone();
                let ghost before = v@;
                v.push((k, c));
                assert(v@.drop_last() =~= before);
                assert(fields@.take(i + 1).drop_last() =~= fields@.take(i as int));
                assert(fields@.take(i + 1)[i as int] == fields@[i as int]);
                i = i + 1;
            }
            assert(fields@.take(fields.len() as int) =~= fields@);
            Json::Object(v)
        },
    }
}

impl Clone for Json {
    fn clone(&self) -> (r: Self)
        ensures
            r@ == self@,
    {
        clone_json(self)
    }
}

} // verus!
