//! The library's own model of a parsed JSON document.
//!
//! Documents are parsed elsewhere and handed to the library in this form, so
//! that everything the library reads out of them is plain data.  Object
//! members keep the order in which the parser yielded them.
use vstd::prelude::*;

use crate::text::{append_char, chars_vec};

verus! {

/// A JSON number as the library sees it: its value as a `u64` where it is a
/// non-negative integer that fits, the bit pattern of its value as an `f64`,
/// and its canonical text.
pub struct JsonNumber {
    pub as_u64: Option<u64>,
    pub f64_bits: u64,
    pub text: String,
}

/// A parsed JSON value.
pub enum Json {
    Null,
    Bool(bool),
    Number(JsonNumber),
    Str(String),
    Array(Vec<Json>),
    Object(Vec<(String, Json)>),
}

/// First member of `es` whose key is `k`.
pub open spec fn member(es: Seq<(String, Json)>, k: Seq<char>) -> Option<Json>
    decreases es.len(),
{
    if es.len() == 0 {
        None
    } else if es[0].0@ == k {
        Some(es[0].1)
    } else {
        member(es.drop_first(), k)
    }
}

/// `j[k]` for an object `j`; nothing for any other value.
pub open spec fn json_get(j: Json, k: Seq<char>) -> Option<Json> {
    match j {
        Json::Object(es) => member(es@, k),
        _ => None,
    }
}

/// An optional reference read as an optional value.
pub open spec fn opt_json(o: Option<&Json>) -> Option<Json> {
    match o {
        Some(j) => Some(*j),
        None => None,
    }
}

pub open spec fn jget(o: Option<Json>, k: Seq<char>) -> Option<Json> {
    match o {
        Some(j) => json_get(j, k),
        None => None,
    }
}

pub open spec fn jstr(o: Option<Json>) -> Option<Seq<char>> {
    match o {
        Some(Json::Str(s)) => Some(s@),
        _ => None,
    }
}

pub open spec fn ju64(o: Option<Json>) -> Option<u64> {
    match o {
        Some(Json::Number(n)) => n.as_u64,
        _ => None,
    }
}

pub open spec fn jf64(o: Option<Json>) -> Option<u64> {
    match o {
        Some(Json::Number(n)) => Some(n.f64_bits),
        _ => None,
    }
}

pub open spec fn jbool(o: Option<Json>) -> Option<bool> {
    match o {
        Some(Json::Bool(b)) => Some(b),
        _ => None,
    }
}

pub open spec fn jarr(o: Option<Json>) -> Option<Seq<Json>> {
    match o {
        Some(Json::Array(v)) => Some(v@),
        _ => None,
    }
}

pub open spec fn jobj(o: Option<Json>) -> Option<Seq<(String, Json)>> {
    match o {
        Some(Json::Object(es)) => Some(es@),
        _ => None,
    }
}

pub open spec fn u64_or(o: Option<u64>, d: u64) -> u64 {
    match o {
        Some(v) => v,
        None => d,
    }
}

/// The JSON escape of one character inside a string literal.
pub open spec fn escape_char(c: char) -> Seq<char> {
    if c == '"' {
        seq!['\\', '"']
    } else if c == '\\' {
        seq!['\\', '\\']
    } else if c == '\n' {
        seq!['\\', 'n']
    } else if c == '\r' {
        seq!['\\', 'r']
    } else if c == '\t' {
        seq!['\\', 't']
    } else if c == '\x08' {
        seq!['\\', 'b']
    } else if c == '\x0c' {
        seq!['\\', 'f']
    } else if (c as u32) < 0x20 {
        seq!['\\', 'u', '0', '0', hex_digit((c as u32) / 16), hex_digit((c as u32) % 16)]
    } else {
        seq![c]
    }
}

pub open spec fn hex_digit(d: u32) -> char {
    if d < 10 {
        ((d + 48) as u8) as char
    } else {
        ((d + 87) as u8) as char
    }
}

pub open spec fn escaped(s: Seq<char>) -> Seq<char>
    decreases s.len(),
{
    if s.len() == 0 {
        seq![]
    } else {
        escaped(s.drop_last()) + escape_char(s.last())
    }
}

/// A string as a quoted JSON literal.
pub open spec fn quoted(s: Seq<char>) -> Seq<char> {
    seq!['"'] + escaped(s) + seq!['"']
}

/// The compact text of a JSON value.
pub open spec fn json_text(j: Json) -> Seq<char>
    decreases j, 1int,
{
    match j {
        Json::Null => "null"@,
        Json::Bool(b) => if b {
            "true"@
        } else {
            "false"@
        },
        Json::Number(n) => n.text@,
        Json::Str(s) => quoted(s@),
        Json::Array(v) => seq!['['] + items_text(v@) + seq![']'],
        Json::Object(es) => seq!['{'] + members_text(es@) + seq!['}'],
    }
}

/// Array elements separated by commas.
pub open spec fn items_text(s: Seq<Json>) -> Seq<char>
    decreases s, 0int,
{
    if s.len() == 0 {
        seq![]
    } else if s.len() == 1 {
        json_text(s[0])
    } else {
        items_text(s.drop_last()) + seq![','] + json_text(s.last())
    }
}

/// Object members as `"key":value`, separated by commas.
pub open spec fn members_text(es: Seq<(String, Json)>) -> Seq<char>
    decreases es, 0int,
{
    if es.len() == 0 {
        seq![]
    } else if es.len() == 1 {
        quoted(es[0].0@) + seq![':'] + json_text(es[0].1)
    } else {
        members_text(es.drop_last()) + seq![','] + quoted(es.last().0@) + seq![':'] + json_text(
            es.last().1,
        )
    }
}

impl Json {
    /// The member `key` of an object.
    pub fn get(&self, key: &str) -> (r: Option<&Json>)
        ensures
            opt_json(r) == json_get(*self, key@),
    {
        match self {
            Json::Object(es) => {
                let k = key.to_owned();
                let mut i: usize = 0;
                assert(es@.skip(0) =~= es@);
                while i < es.len()
                    invariant
                        i <= es@.len(),
                        k@ == key@,
                        json_get(*self, key@) == member(es@, key@),
                        member(es@, key@) == member(es@.skip(i as int), key@),
                    decreases es.len() - i,
                {
                    proof {
                        assert(es@.skip(i as int).drop_first() =~= es@.skip(i + 1));
                    }
                    if es[i].0 == k {
                        assert(es@.skip(i as int)[0] == es@[i as int]);
                        assert(member(es@.skip(i as int), key@) == Some(es@[i as int].1));
                        return Some(&es[i].1);
                    }
                    i += 1;
                }
                None
            },
            _ => None,
        }
    }

    /// Whether this is `null`.
    pub fn is_null(&self) -> (r: bool)
        ensures
            r == (*self is Null),
    {
        match self {
            Json::Null => true,
            _ => false,
        }
    }
}

/// `o[key]` where `o` may be absent.
pub fn get_in<'a>(o: Option<&'a Json>, key: &str) -> (r: Option<&'a Json>)
    ensures
        opt_json(r) == jget(opt_json(o), key@),
{
    match o {
        Some(j) => j.get(key),
        None => None,
    }
}

/// The string of an optional value, when it is one.
pub fn as_str_of<'a>(o: Option<&'a Json>) -> (r: Option<&'a String>)
    ensures
        match r {
            Some(s) => jstr(opt_json(o)) == Some(s@),
            None => jstr(opt_json(o)) is None,
        },
{
    match o {
        Some(Json::Str(s)) => Some(s),
        _ => None,
    }
}

/// The `u64` value of an optional number, when it has one.
pub fn as_u64_of(o: Option<&Json>) -> (r: Option<u64>)
    ensures
        r == ju64(opt_json(o)),
{
    match o {
        Some(Json::Number(n)) => n.as_u64,
        _ => None,
    }
}

/// The `f64` bit pattern of an optional number.
pub fn as_f64_bits_of(o: Option<&Json>) -> (r: Option<u64>)
    ensures
        r == jf64(opt_json(o)),
{
    match o {
        Some(Json::Number(n)) => Some(n.f64_bits),
        _ => None,
    }
}

/// The value of an optional boolean.
pub fn as_bool_of(o: Option<&Json>) -> (r: Option<bool>)
    ensures
        r == jbool(opt_json(o)),
{
    match o {
        Some(Json::Bool(b)) => Some(*b),
        _ => None,
    }
}

/// The elements of an optional array.
pub fn as_array_of<'a>(o: Option<&'a Json>) -> (r: Option<&'a Vec<Json>>)
    ensures
        match r {
            Some(v) => jarr(opt_json(o)) == Some(v@),
            None => jarr(opt_json(o)) is None,
        },
{
    match o {
        Some(Json::Array(v)) => Some(v),
        _ => None,
    }
}

/// The members of an optional object.
pub fn as_object_of<'a>(o: Option<&'a Json>) -> (r: Option<&'a Vec<(String, Json)>>)
    ensures
        match r {
            Some(es) => jobj(opt_json(o)) == Some(es@),
            None => jobj(opt_json(o)) is None,
        },
{
    match o {
        Some(Json::Object(es)) => Some(es),
        _ => None,
    }
}

/// The `i`-th element of an array, or nothing.
pub fn index_in<'a>(o: Option<&'a Json>, i: usize) -> (r: Option<&'a Json>)
    ensures
        opt_json(r) == match jarr(opt_json(o)) {
            Some(v) => if i < v.len() {
                Some(v[i as int])
            } else {
                None
            },
            None => None,
        },
{
    match o {
        Some(Json::Array(v)) => {
            if i < v.len() {
                Some(&v[i])
            } else {
                None
            }
        },
        _ => None,
    }
}

fn hex_digit_exec(d: u32) -> (c: char)
    requires
        d < 16,
    ensures
        c == hex_digit(d),
{
    if d < 10 {
        ((d + 48) as u8) as char
    } else {
        ((d + 87) as u8) as char
    }
}

/// Appends the escaped form of `s` to `out`.
fn append_escaped(out: &mut String, s: &String)
    ensures
        final(out)@ == old(out)@ + escaped(s@),
{
    let cs = chars_vec(s.as_str());
    let mut i: usize = 0;
    while i < cs.len()
        invariant
            i <= cs@.len(),
            cs@ == s@,
            out@ == old(out)@ + escaped(s@.take(i as int)),
        decreases cs.len() - i,
    {
        let c = cs[i];
        proof {
            assert(s@.take(i + 1).drop_last() =~= s@.take(i as int));
        }
        if c == '"' {
            append_char(out, '\\');
            append_char(out, '"');
        } else if c == '\\' {
            append_char(out, '\\');
            append_char(out, '\\');
        } else if c == '\n' {
            append_char(out, '\\');
            append_char(out, 'n');
        } else if c == '\r' {
            append_char(out, '\\');
            append_char(out, 'r');
        } else if c == '\t' {
            append_char(out, '\\');
            append_char(out, 't');
        } else if c == '\x08' {
            append_char(out, '\\');
            append_char(out, 'b');
        } else if c == '\x0c' {
            append_char(out, '\\');
            append_char(out, 'f');
        } else if (c as u32) < 0x20 {
            append_char(out, '\\');
            append_char(out, 'u');
            append_char(out, '0');
            append_char(out, '0');
            append_char(out, hex_digit_exec((c as u32) / 16));
            append_char(out, hex_digit_exec((c as u32) % 16));
        } else {
            append_char(out, c);
        }
        proof {
            assert(out@ =~= old(out)@ + escaped(s@.take(i + 1)));
        }
        i += 1;
    }
    proof {
        assert(s@.take(cs@.len() as int) =~= s@);
    }
}

fn append_quoted(out: &mut String, s: &String)
    ensures
        final(out)@ == old(out)@ + quoted(s@),
{
    append_char(out, '"');
    append_escaped(out, s);
    append_char(out, '"');
    proof {
        assert(out@ =~= old(out)@ + quoted(s@));
    }
}

/// Appends the compact text of `j` to `out`.
pub fn append_json_text(out: &mut String, j: &Json)
    ensures
        final(out)@ == old(out)@ + json_text(*j),
    decreases j, 1int,
{
    match j {
        Json::Null => {
            out.append("null");
        },
        Json::Bool(b) => {
            if *b {
                out.append("true");
            } else {
                out.append("false");
            }
        },
        Json::Number(n) => {
            out.append(n.text.as_str());
        },
        Json::Str(s) => {
            append_quoted(out, s);
        },
        Json::Array(v) => {
            append_char(out, '[');
            append_items(out, v);
            append_char(out, ']');
            proof {
                assert(out@ =~= old(out)@ + json_text(*j));
            }
        },
        Json::Object(es) => {
            append_char(out, '{');
            append_members(out, es);
            append_char(out, '}');
            proof {
                assert(out@ =~= old(out)@ + json_text(*j));
            }
        },
    }
}

fn append_items(out: &mut String, v: &Vec<Json>)
    ensures
        final(out)@ == old(out)@ + items_text(v@),
    decreases v@, 0int,
{
    let mut i: usize = 0;
    while i < v.len()
        invariant
            i <= v@.len(),
            out@ == old(out)@ + items_text(v@.take(i as int)),
        decreases v.len() - i,
    {
        proof {
            assert(v@.take(i + 1).drop_last() =~= v@.take(i as int));
            assert(v@.take(i + 1).last() == v@[i as int]);
            if i == 0 {
                assert(v@.take(1)[0] == v@[0]);
            }
        }
        if i > 0 {
            append_char(out, ',');
        }
        append_json_text(out, &v[i]);
        proof {
            assert(out@ =~= old(out)@ + items_text(v@.take(i + 1)));
        }
        i += 1;
    }
    proof {
        assert(v@.take(v@.len() as int) =~= v@);
    }
}

fn append_members(out: &mut String, es: &Vec<(String, Json)>)
    ensures
        final(out)@ == old(out)@ + members_text(es@),
    decreases es@, 0int,
{
    let mut i: usize = 0;
    while i < es.len()
        invariant
            i <= es@.len(),
            out@ == old(out)@ + members_text(es@.take(i as int)),
        decreases es.len() - i,
    {
        proof {
            assert(es@.take(i + 1).drop_last() =~= es@.take(i as int));
            assert(es@.take(i + 1).last() == es@[i as int]);
            if i == 0 {
                assert(es@.take(1)[0] == es@[0]);
            }
        }
        if i > 0 {
            append_char(out, ',');
        }
        append_quoted(out, &es[i].0);
        append_char(out, ':');
        append_json_text(out, &es[i].1);
        proof {
            assert(out@ =~= old(out)@ + members_text(es@.take(i + 1)));
        }
        i += 1;
    }
    proof {
        assert(es@.take(es@.len() as int) =~= es@);
    }
}

/// The compact text of `j`.
pub fn json_to_text(j: &Json) -> (r: String)
    ensures
        r@ == json_text(*j),
{
    let mut out = String::new();
    append_json_text(&mut out, j);
    proof {
        assert(out@ =~= json_text(*j));
    }
    out
}

// ---------------------------------------------------------------- laws

/// Escaping works character by character: the escape of joined text is the escapes joined.
/// The result for two runs joined is the results joined.
pub proof fn law_escaped_concatenate(s: Seq<char>, t: Seq<char>)
    ensures
        escaped(s + t) == escaped(s) + escaped(t),
    decreases t.len(),
{
    if t.len() == 0 {
        assert(s + t =~= s);
        assert(escaped(s) + escaped(t) =~= escaped(s));
    } else {
        law_escaped_concatenate(s, t.drop_last());
        assert((s + t).drop_last() =~= s + t.drop_last());
        assert((s + t).last() == t.last());
        assert(escaped(s + t) =~= escaped(s) + escaped(t));
    }
}

} // verus!
