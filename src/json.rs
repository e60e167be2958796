//! The JSON layer: the tree that the JSON reader produces, the reader itself
//! (serde_json), and a compact writer for such trees.
use vstd::prelude::*;

verus! {

/// A JSON value as read from text: objects keep their entries in document
/// order; a number is an integer when it fits in 64 bits, and otherwise a
/// float held as its shortest decimal text.
#[derive(Debug, PartialEq)]
pub enum Json {
    Null,
    Bool(bool),
    Integer(i128),
    Float(String),
    String(String),
    Array(Vec<Json>),
    Object(Vec<(String, Json)>),
}

/// The mathematical model of a [`Json`] tree.
pub ghost enum JsonV {
    Null,
    Bool(bool),
    Integer(int),
    Float(Seq<char>),
    String(Seq<char>),
    Array(Seq<JsonV>),
    Object(Seq<(Seq<char>, JsonV)>),
}

impl Json {
    pub open spec fn view_items(items: Seq<Json>) -> Seq<JsonV>
        decreases items,
    {
        if items.len() == 0 {
            Seq::empty()
        } else {
            Json::view_items(items.drop_last()).push(items.last().view())
        }
    }

    pub open spec fn view_entries(entries: Seq<(String, Json)>) -> Seq<(Seq<char>, JsonV)>
        decreases entries,
    {
        if entries.len() == 0 {
            Seq::empty()
        } else {
            Json::view_entries(entries.drop_last()).push(
                (entries.last().0@, entries.last().1.view()),
            )
        }
    }
}

impl View for Json {
    type V = JsonV;

    open spec fn view(&self) -> JsonV
        decreases self,
    {
        match self {
            Json::Null => JsonV::Null,
            Json::Bool(b) => JsonV::Bool(*b),
            Json::Integer(i) => JsonV::Integer(*i as int),
            Json::Float(t) => JsonV::Float(t@),
            Json::String(s) => JsonV::String(s@),
            Json::Array(items) => JsonV::Array(Json::view_items(items@)),
            Json::Object(entries) => JsonV::Object(Json::view_entries(entries@)),
        }
    }
}

/// What serde_json reads from the bytes `b`: the first JSON value and whether
/// only whitespace follows it, or the reader's error message.
pub uninterp spec fn json_document(b: Seq<u8>) -> Result<(JsonV, bool), Seq<char>>;

/// The JSON string literal that serde_json writes for `s`, quotes and escapes
/// included.
pub uninterp spec fn json_quoted(s: Seq<char>) -> Seq<char>;

#[verifier::external_type_specification]
#[verifier::external_body]
pub struct ExJsonValue(serde_json::Value);

/// Part of `read_json`, with no contract of its own: converts a
/// `serde_json::Value` into the tree, variant for variant. Relies on
/// `serde_json::Number::as_u64` and `as_i64` to tell integers from floats, and on
/// the `Display` of `Number` for a float's text.
#[verifier::external_body]
fn tree_of(v: serde_json::Value) -> Json {
    match v {
        serde_json::Value::Null => Json::Null,
        serde_json::Value::Bool(b) => Json::Bool(b),
        serde_json::Value::Number(n) => match (n.as_u64(), n.as_i64()) {
            (Some(u), _) => Json::Integer(u as i128),
            (None, Some(i)) => Json::Integer(i as i128),
            (None, None) => Json::Float(n.to_string()),
        },
        serde_json::Value::String(s) => Json::String(s),
        serde_json::Value::Array(a) => Json::Array(a.into_iter().map(tree_of).collect()),
        serde_json::Value::Object(o) => Json::Object(o.into_iter().map(|(k, x)| (k, tree_of(x))).collect()),
    }
}

/// Relies on serde_json's `Deserializer::from_slice`, the `Deserialize` impl of
/// `serde_json::Value` (with entries kept in document order) and
/// `Deserializer::end`: reads the first JSON value of `b`, then whether only
/// whitespace follows it. The reader refuses nesting deeper than 128 levels,
/// which bounds the depth of every tree that decoding walks.
#[verifier::external_body]
pub(crate) fn read_json(b: &[u8]) -> (r: Result<(Json, bool), String>)
    ensures
        match r {
            Ok((t, complete)) => json_document(b@) == Ok::<(JsonV, bool), Seq<char>>((t@, complete)),
            Err(m) => json_document(b@) == Err::<(JsonV, bool), Seq<char>>(m@),
        },
{
    let mut de = serde_json::Deserializer::from_slice(b);
    match <serde_json::Value as serde::Deserialize>::deserialize(&mut de) {
        Ok(v) => Ok((tree_of(v), de.end().is_ok())),
        Err(e) => Err(e.to_string()),
    }
}

/// Relies on serde_json's compact writer (the `Display` of `serde_json::Value`)
/// for a string: the quoted and escaped literal.
#[verifier::external_body]
pub(crate) fn quote(s: &str) -> (r: String)
    ensures
        r@ == json_quoted(s@),
{
    serde_json::Value::String(s.to_string()).to_string()
}

/// The decimal digit for `d < 10`.
pub open spec fn digit_char(d: nat) -> char {
    seq!['0', '1', '2', '3', '4', '5', '6', '7', '8', '9'][d as int]
}

/// The decimal digits of `n`, without leading zeros.
pub open spec fn digits(n: nat) -> Seq<char>
    decreases n,
{
    if n < 10 {
        seq![digit_char(n)]
    } else {
        digits(n / 10).push(digit_char(n % 10))
    }
}

/// The decimal text of an integer, with a leading `-` when it is negative.
pub open spec fn decimal(i: int) -> Seq<char> {
    if i < 0 {
        seq!['-'] + digits((-i) as nat)
    } else {
        digits(i as nat)
    }
}

/// The compact JSON text of a tree: no whitespace between tokens.
pub open spec fn json_text(j: JsonV) -> Seq<char>
    decreases j,
{
    match j {
        JsonV::Null => seq!['n', 'u', 'l', 'l'],
        JsonV::Bool(b) => if b {
            seq!['t', 'r', 'u', 'e']
        } else {
            seq!['f', 'a', 'l', 's', 'e']
        },
        JsonV::Integer(i) => decimal(i),
        JsonV::Float(t) => t,
        JsonV::String(s) => json_quoted(s),
        JsonV::Array(items) => seq!['['] + items_text(items) + seq![']'],
        JsonV::Object(entries) => seq!['{'] + entries_text(entries) + seq!['}'],
    }
}

/// The elements of an array, separated by commas.
pub open spec fn items_text(items: Seq<JsonV>) -> Seq<char>
    decreases items,
{
    if items.len() == 0 {
        Seq::empty()
    } else if items.len() == 1 {
        json_text(items[0])
    } else {
        items_text(items.drop_last()) + seq![','] + json_text(items.last())
    }
}

/// The entries of an object, each `key:value`, separated by commas.
pub open spec fn entries_text(entries: Seq<(Seq<char>, JsonV)>) -> Seq<char>
    decreases entries,
{
    if entries.len() == 0 {
        Seq::empty()
    } else if entries.len() == 1 {
        json_quoted(entries[0].0) + seq![':'] + json_text(entries[0].1)
    } else {
        entries_text(entries.drop_last()) + seq![','] + json_quoted(entries.last().0) + seq![
            ':',
        ] + json_text(entries.last().1)
    }
}

pub proof fn lemma_view_items(items: Seq<Json>)
    ensures
        Json::view_items(items).len() == items.len(),
        forall|k: int| 0 <= k < items.len() ==> #[trigger] Json::view_items(items)[k] == items[k]@,
    decreases items.len(),
{
    if items.len() > 0 {
        lemma_view_items(items.drop_last());
        assert(Json::view_items(items) == Json::view_items(items.drop_last()).push(items.last()@));
    } else {
        assert(Json::view_items(items) == Seq::<JsonV>::empty());
    }
}

pub proof fn lemma_view_entries(entries: Seq<(String, Json)>)
    ensures
        Json::view_entries(entries).len() == entries.len(),
        forall|k: int|
            0 <= k < entries.len() ==> #[trigger] Json::view_entries(entries)[k] == (
            entries[k].0@,
            entries[k].1@,
        ),
    decreases entries.len(),
{
    if entries.len() > 0 {
        lemma_view_entries(entries.drop_last());
        assert(Json::view_entries(entries) == Json::view_entries(entries.drop_last()).push(
            (entries.last().0@, entries.last().1@),
        ));
    } else {
        assert(Json::view_entries(entries) == Seq::<(Seq<char>, JsonV)>::empty());
    }
}

fn digit_str(d: u128) -> (r: &'static str)
    requires
        d < 10,
    ensures
        r@ == seq![digit_char(d as nat)],
{
    proof {
        reveal_strlit("0");
        reveal_strlit("1");
        reveal_strlit("2");
        reveal_strlit("3");
        reveal_strlit("4");
        reveal_strlit("5");
        reveal_strlit("6");
        reveal_strlit("7");
        reveal_strlit("8");
        reveal_strlit("9");
    }
    if d == 0 {
        "0"
    } else if d == 1 {
        "1"
    } else if d == 2 {
        "2"
    } else if d == 3 {
        "3"
    } else if d == 4 {
        "4"
    } else if d == 5 {
        "5"
    } else if d == 6 {
        "6"
    } else if d == 7 {
        "7"
    } else if d == 8 {
        "8"
    } else {
        "9"
    }
}

fn push_digits(n: u128, out: &mut String)
    ensures
        final(out)@ == old(out)@ + digits(n as nat),
    decreases n,
{
    if n >= 10 {
        push_digits(n / 10, out);
    }
    out.append(digit_str(n % 10));
    proof {
        assert(final(out)@ =~= old(out)@ + digits(n as nat));
    }
}

/// Writes the decimal text of `i`; the whole `i128` range is written exactly.
pub fn write_integer(i: i128, out: &mut String)
    ensures
        final(out)@ == old(out)@ + decimal(i as int),
{
    if i < 0 {
        proof {
            reveal_strlit("-");
        }
        out.append("-");
        let magnitude: u128 = (-(i + 1)) as u128 + 1;
        push_digits(magnitude, out);
        proof {
            assert(final(out)@ =~= old(out)@ + decimal(i as int));
        }
    } else {
        push_digits(i as u128, out);
    }
}

/// Writes the compact JSON text of `j`.
pub fn write_json(j: &Json, out: &mut String)
    ensures
        final(out)@ == old(out)@ + json_text(j@),
    decreases j,
{
    match j {
        Json::Null => {
            proof {
                reveal_strlit("null");
            }
            out.append("null");
        },
        Json::Bool(b) => {
            proof {
                reveal_strlit("true");
                reveal_strlit("false");
            }
            if *b {
                out.append("true");
            } else {
                out.append("false");
            }
        },
        Json::Integer(i) => write_integer(*i, out),
        Json::Float(t) => out.append(t.as_str()),
        Json::String(s) => {
            let q = quote(s.as_str());
            out.append(q.as_str());
        },
        Json::Array(items) => {
            proof {
                reveal_strlit("[");
                reveal_strlit("]");
                reveal_strlit(",");
                lemma_view_items(items@);
            }
            let ghost start = out@;
            let ghost views = Json::view_items(items@);
            out.append("[");
            let mut i: usize = 0;
            while i < items.len()
                invariant
                    i <= items.len(),
                    *j is Array,
                    j->Array_0 == *items,
                    views == Json::view_items(items@),
                    views.len() == items@.len(),
                    forall|k: int| 0 <= k < items@.len() ==> #[trigger] views[k] == items@[k]@,
                    out@ == start + seq!['['] + items_text(views.take(i as int)),
                decreases items.len() - i,
            {
                if i > 0 {
                    out.append(",");
                }
                proof {
                    reveal_strlit(",");
                    assert(decreases_to!(j => j->Array_0@[i as int]));
                }
                write_json(&items[i], out);
                proof {
                    let next = views.take(i + 1);
                    assert(next.drop_last() =~= views.take(i as int));
                    assert(next.last() == items@[i as int]@);
                    if i == 0 {
                        assert(next =~= seq![items@[0]@]);
                        assert(items_text(next) == json_text(next[0]));
                    } else {
                        assert(items_text(next) == items_text(next.drop_last()) + seq![',']
                            + json_text(next.last()));
                    }
                    assert(out@ =~= start + seq!['['] + items_text(next));
                }
                i = i + 1;
            }
            out.append("]");
            proof {
                assert(views.take(items.len() as int) =~= views);
            }
        },
        Json::Object(entries) => {
            proof {
                reveal_strlit("{");
                reveal_strlit("}");
                reveal_strlit(",");
                reveal_strlit(":");
                lemma_view_entries(entries@);
            }
            let ghost start = out@;
            let ghost views = Json::view_entries(entries@);
            out.append("{");
            let mut i: usize = 0;
            while i < entries.len()
                invariant
                    i <= entries.len(),
                    *j is Object,
                    j->Object_0 == *entries,
                    views == Json::view_entries(entries@),
                    views.len() == entries@.len(),
                    forall|k: int|
                        0 <= k < entries@.len() ==> #[trigger] views[k] == (
                        entries@[k].0@,
                        entries@[k].1@,
                    ),
                    out@ == start + seq!['{'] + entries_text(views.take(i as int)),
                decreases entries.len() - i,
            {
                proof {
                    reveal_strlit(",");
                    reveal_strlit(":");
                }
                if i > 0 {
                    out.append(",");
                }
                let q = quote(entries[i].0.as_str());
                out.append(q.as_str());
                out.append(":");
                proof {
                    assert(decreases_to!(j => j->Object_0@[i as int].1));
                }
                write_json(&entries[i].1, out);
                proof {
                    let next = views.take(i + 1);
                    assert(next.drop_last() =~= views.take(i as int));
                    assert(next.last() == views[i as int]);
                    if i == 0 {
                        assert(next =~= seq![views[0]]);
                        assert(entries_text(next) == json_quoted(next[0].0) + seq![':'] + json_text(
                            next[0].1,
                        ));
                    } else {
                        assert(entries_text(next) == entries_text(next.drop_last()) + seq![',']
                            + json_quoted(next.last().0) + seq![':'] + json_text(next.last().1));
                    }
                    assert(out@ =~= start + seq!['{'] + entries_text(next));
                }
                i = i + 1;
            }
            out.append("}");
            proof {
                assert(views.take(entries.len() as int) =~= views);
            }
        },
    }
    proof {
        assert(final(out)@ =~= old(out)@ + json_text(j@));
    }
}

} // verus!
