//! Objects and lists written as JSON text.
use crate::text::{decimal, decimal_signed};
use crate::text;
use vstd::prelude::*;

verus! {

/// The names and values of an object's fields.
pub open spec fn pairs(fields: Seq<(String, String)>) -> Seq<(Seq<char>, Seq<char>)> {
    fields.map_values(|f: (String, String)| (f.0@, f.1@))
}

/// A string in quotes.
pub open spec fn string(s: Seq<char>) -> Seq<char> {
    "\""@ + s + "\""@
}

/// One field on its line.
pub open spec fn line(indent: Seq<char>, f: (Seq<char>, Seq<char>)) -> Seq<char> {
    indent + string(f.0) + ": "@ + f.1
}

/// Texts with a separator between them.
pub open spec fn joined(parts: Seq<Seq<char>>, sep: Seq<char>) -> Seq<char>
    decreases parts.len(),
{
    if parts.len() == 0 {
        Seq::empty()
    } else if parts.len() == 1 {
        parts[0]
    } else {
        joined(parts.drop_last(), sep) + sep + parts.last()
    }
}

/// An object with a field on each line; `indent` stands before the fields, `close` before the
/// closing bracket.
pub open spec fn object(
    indent: Seq<char>,
    close: Seq<char>,
    fields: Seq<(Seq<char>, Seq<char>)>,
) -> Seq<char> {
    "{\n"@ + joined(
        fields.map_values(|f: (Seq<char>, Seq<char>)| line(indent, f)),
        ",\n"@,
    ) + "\n"@ + close + "}"@
}

/// A list with an item on each line.
pub open spec fn list(items: Seq<Seq<char>>) -> Seq<char> {
    if items.len() == 0 {
        "[]"@
    } else {
        "[\n  "@ + joined(items, ",\n  "@) + "\n]"@
    }
}

/// A number or nothing.
pub open spec fn optional_number(v: Option<int>) -> Seq<char> {
    match v {
        Some(n) => text::dec_signed(n),
        None => "null"@,
    }
}

pub open spec fn optional_int(v: Option<u64>) -> Option<int> {
    match v {
        Some(n) => Some(n as int),
        None => None,
    }
}

pub open spec fn optional_signed(v: Option<i128>) -> Option<int> {
    match v {
        Some(n) => Some(n as int),
        None => None,
    }
}

/// A number with three places behind the point, or nothing.
pub open spec fn optional_millis(v: Option<int>) -> Seq<char> {
    match v {
        Some(n) => text::dec_signed(n) + ".000"@,
        None => "null"@,
    }
}

pub open spec fn optional_bool(v: Option<bool>) -> Seq<char> {
    match v {
        Some(true) => "true"@,
        Some(false) => "false"@,
        None => "null"@,
    }
}

/// Writes a string in quotes.
pub fn write_string(s: &str) -> (r: String)
    ensures
        r@ == string(s@),
{
    let mut r = "\"".to_owned();
    r.append(s);
    r.append("\"");
    r
}

pub fn write_number(n: u128) -> (r: String)
    ensures
        r@ == text::dec_signed(n as int),
{
    decimal(n)
}

pub fn write_optional_u64(v: Option<u64>) -> (r: String)
    ensures
        r@ == optional_number(optional_int(v)),
{
    match v {
        Some(n) => decimal(n as u128),
        None => "null".to_owned(),
    }
}

pub fn write_optional_i128(v: Option<i128>) -> (r: String)
    requires
        v matches Some(n) ==> n > i128::MIN,
    ensures
        r@ == optional_number(optional_signed(v)),
{
    match v {
        Some(n) => decimal_signed(n),
        None => "null".to_owned(),
    }
}

pub fn write_optional_millis(v: Option<i128>) -> (r: String)
    requires
        v matches Some(n) ==> n > i128::MIN,
    ensures
        r@ == optional_millis(optional_signed(v)),
{
    match v {
        Some(n) => {
            let mut r = decimal_signed(n);
            r.append(".000");
            r
        },
        None => "null".to_owned(),
    }
}

pub fn write_optional_bool(v: Option<bool>) -> (r: String)
    ensures
        r@ == optional_bool(v),
{
    match v {
        Some(b) => if b {
            "true".to_owned()
        } else {
            "false".to_owned()
        },
        None => "null".to_owned(),
    }
}

/// Adds a field to an object.
pub fn add_field(fields: &mut Vec<(String, String)>, name: &str, value: String)
    ensures
        pairs(final(fields)@) == pairs(old(fields)@).push((name@, value@)),
{
    fields.push((name.to_owned(), value));
    assert(pairs(fields@) =~= pairs(old(fields)@).push((name@, value@)));
}

/// Writes texts with a separator between them.
pub fn write_joined(parts: &Vec<String>, sep: &str) -> (r: String)
    ensures
        r@ == joined(text::texts(parts@), sep@),
{
    let mut r = String::new();
    let ghost all = text::texts(parts@);
    let mut i: usize = 0;
    assert(all.take(0) =~= Seq::<Seq<char>>::empty());
    assert(r@ =~= joined(all.take(0), sep@));
    while i < parts.len()
        invariant
            all == text::texts(parts@),
            i <= parts@.len(),
            r@ == joined(all.take(i as int), sep@),
        decreases parts@.len() - i,
    {
        let ghost now = all.take(i + 1);
        proof {
            assert(now.drop_last() =~= all.take(i as int));
            assert(now.last() == parts@[i as int]@);
        }
        if i > 0 {
            r.append(sep);
        }
        r.append(parts[i].as_str());
        proof {
            if i == 0 {
                assert(r@ =~= now[0]);
            } else {
                assert(r@ =~= joined(all.take(i as int), sep@) + sep@ + now.last());
            }
        }
        i = i + 1;
    }
    assert(all.take(i as int) =~= all);
    r
}

/// Writes an object.
pub fn write_object(fields: &Vec<(String, String)>, indent: &str, close: &str) -> (r: String)
    ensures
        r@ == object(indent@, close@, pairs(fields@)),
{
    let mut lines: Vec<String> = Vec::new();
    let ghost all = pairs(fields@);
    let ghost wanted = all.map_values(|f: (Seq<char>, Seq<char>)| line(indent@, f));
    let mut i: usize = 0;
    while i < fields.len()
        invariant
            all == pairs(fields@),
            wanted == all.map_values(|f: (Seq<char>, Seq<char>)| line(indent@, f)),
            i <= fields@.len(),
            lines@.len() == i,
            forall|j: int| 0 <= j < i ==> (#[trigger] lines@[j])@ == wanted[j],
        decreases fields@.len() - i,
    {
        let mut l = indent.to_owned();
        let name = write_string(fields[i].0.as_str());
        l.append(name.as_str());
        l.append(": ");
        l.append(fields[i].1.as_str());
        assert(l@ =~= line(indent@, all[i as int]));
        lines.push(l);
        i = i + 1;
    }
    assert(text::texts(lines@) =~= wanted);
    let body = write_joined(&lines, ",\n");
    let mut r = "{\n".to_owned();
    r.append(body.as_str());
    r.append("\n");
    r.append(close);
    r.append("}");
    r
}

/// Writes a list.
pub fn write_list(items: &Vec<String>) -> (r: String)
    ensures
        r@ == list(text::texts(items@)),
{
    if items.len() == 0 {
        "[]".to_owned()
    } else {
        let mut r = "[\n  ".to_owned();
        let body = write_joined(items, ",\n  ");
        r.append(body.as_str());
        r.append("\n]");
        r
    }
}

/// What is joined stands in its order with the separator between each two and nowhere else.
pub proof fn law_joining_puts_one_separator_between(
    parts: Seq<Seq<char>>,
    p: Seq<char>,
    sep: Seq<char>,
)
    ensures
        joined(Seq::empty(), sep).len() == 0,
        joined(seq![p], sep) == p,
        parts.len() > 0 ==> joined(parts.push(p), sep) == joined(parts, sep) + sep + p,
{
    assert(parts.push(p).drop_last() =~= parts);
}

/// A value that is not known is written as such, and no value that is known is; two numbers are
/// written alike only where they are equal.
pub proof fn law_values_are_told_apart(a: int, b: int, x: bool)
    ensures
        optional_number(None) == "null"@,
        optional_millis(None) == "null"@,
        optional_bool(None) == "null"@,
        optional_number(Some(a)) != "null"@,
        optional_number(Some(a)) == optional_number(Some(b)) <==> a == b,
        optional_millis(Some(a)) == optional_number(Some(a)) + ".000"@,
        optional_bool(Some(true)) == "true"@,
        optional_bool(Some(false)) == "false"@,
        optional_bool(Some(x)) != "null"@,
{
    text::law_decimal_holds_digits(a, b);
    reveal_strlit("null");
    reveal_strlit("true");
    reveal_strlit("false");
    assert("null"@[0] == 'n');
    assert("true"@[0] == 't');
    assert("false"@[0] == 'f');
    assert('0' <= text::dec_signed(a)[0] <= '9' || text::dec_signed(a)[0] == '-');
}

/// A string stands between quotes, a field on a line behind its name, and an object holds a line
/// for each of its fields between its brackets.
pub proof fn law_fields_stand_on_lines_of_their_own(
    indent: Seq<char>,
    close: Seq<char>,
    f: (Seq<char>, Seq<char>),
    g: (Seq<char>, Seq<char>),
)
    ensures
        line(indent, f) == indent + "\""@ + f.0 + "\""@ + ": "@ + f.1,
        object(indent, close, seq![f]) == "{\n"@ + line(indent, f) + "\n"@ + close + "}"@,
        object(indent, close, seq![f, g]) == "{\n"@ + line(indent, f) + ",\n"@ + line(indent, g)
            + "\n"@ + close + "}"@,
{
    assert(line(indent, f) =~= indent + "\""@ + f.0 + "\""@ + ": "@ + f.1);
    let one = seq![f].map_values(|f: (Seq<char>, Seq<char>)| line(indent, f));
    assert(one =~= seq![line(indent, f)]);
    let two = seq![f, g].map_values(|f: (Seq<char>, Seq<char>)| line(indent, f));
    assert(two.drop_last() =~= seq![line(indent, f)]);
    assert(two.last() == line(indent, g));
    assert(joined(two, ",\n"@) == joined(two.drop_last(), ",\n"@) + ",\n"@ + two.last());
    assert(object(indent, close, seq![f, g]) =~= "{\n"@ + line(indent, f) + ",\n"@ + line(indent, g)
        + "\n"@ + close + "}"@);
}

} // verus!
