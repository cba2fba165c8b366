//! JSON values.
//!
//! Values and their text come from `serde_json`; `Json` says what a value
//! holds. A text is read level by level: the levels below those that a message
//! has are not looked into, and a field that is given twice is kept twice, so
//! that a reader can refuse it.
use crate::text;
use vstd::prelude::*;
use vstd::string::*;

verus! {

/// What a JSON value holds.
pub enum Json {
    Null,
    Bool(bool),
    Number(u64),
    Text(Seq<char>),
    List(Seq<Json>),
    /// The fields in the order in which they were put in.
    Object(Seq<(Seq<char>, Json)>),
    /// Anything else, or a value that is not looked into.
    Other,
}

/// A JSON value of `serde_json`.
#[verifier::external_type_specification]
#[verifier::external_body]
pub struct ExValue(serde_json::Value);

/// What a value of `serde_json` holds.
pub uninterp spec fn json_tree(v: serde_json::Value) -> Json;

/// The compact text of a plain value.
pub uninterp spec fn json_text(j: Json) -> Seq<char>;

/// The indented text of a plain value.
pub uninterp spec fn json_pretty(j: Json) -> Seq<char>;

/// The string that a text denotes, if it denotes one.
pub uninterp spec fn text_read(s: Seq<char>) -> Option<Seq<char>>;

/// The unsigned integer of 64 bits that a text denotes, if it denotes one.
pub uninterp spec fn number_read(s: Seq<char>) -> Option<u64>;

/// Whether a text denotes null.
pub uninterp spec fn null_read(s: Seq<char>) -> bool;

/// The texts of the values in the list that a text denotes, if it denotes one.
pub uninterp spec fn list_read(s: Seq<char>) -> Option<Seq<Seq<char>>>;

/// The text of the value that a text begins with, and what stands behind it,
/// if it begins with one.
pub uninterp spec fn head_read(s: Seq<char>) -> Option<(Seq<char>, Seq<char>)>;

/// What the values of a list hold.
pub open spec fn trees(list: Seq<serde_json::Value>) -> Seq<Json> {
    list.map_values(|v: serde_json::Value| json_tree(v))
}

/// What named values hold.
pub open spec fn field_trees(list: Seq<(String, serde_json::Value)>) -> Seq<(Seq<char>, Json)> {
    list.map_values(|f: (String, serde_json::Value)| (f.0@, json_tree(f.1)))
}

/// No name occurs twice.
pub open spec fn distinct_names(fields: Seq<(Seq<char>, Json)>) -> bool {
    forall|i: int, j: int|
        0 <= i < j < fields.len() ==> (#[trigger] fields[i]).0 != (#[trigger] fields[j]).0
}

/// The value that stands under `name`, the last one if there are several.
pub open spec fn field(fields: Seq<(Seq<char>, Json)>, name: Seq<char>) -> Option<Json>
    decreases fields.len(),
{
    if fields.len() == 0 {
        None
    } else if fields.last().0 == name {
        Some(fields.last().1)
    } else {
        field(fields.drop_last(), name)
    }
}

// ---------------------------------------------------------------------------
// Writing
// ---------------------------------------------------------------------------
/// `serde_json::Value::String`: a string.
#[verifier::external_body]
pub(crate) fn text_value(s: String) -> (r: serde_json::Value)
    ensures
        json_tree(r) == Json::Text(s@),
{
    serde_json::Value::String(s)
}

/// `serde_json::Value::from` on an unsigned integer: that number.
#[verifier::external_body]
pub(crate) fn number_value(n: u64) -> (r: serde_json::Value)
    ensures
        json_tree(r) == Json::Number(n),
{
    serde_json::Value::from(n)
}

/// `serde_json::Value::Bool`: a truth value.
#[verifier::external_body]
pub(crate) fn bool_value(b: bool) -> (r: serde_json::Value)
    ensures
        json_tree(r) == Json::Bool(b),
{
    serde_json::Value::Bool(b)
}

/// `serde_json::Value::Array`: a list.
#[verifier::external_body]
pub(crate) fn list_value(l: Vec<serde_json::Value>) -> (r: serde_json::Value)
    ensures
        json_tree(r) == Json::List(trees(l@)),
{
    serde_json::Value::Array(l)
}

/// `serde_json::Value::Object` on a `Map` collected from pairs. The map keeps
/// the order in which distinct names are put in.
#[verifier::external_body]
pub(crate) fn object_value(f: Vec<(String, serde_json::Value)>) -> (r: serde_json::Value)
    requires
        distinct_names(field_trees(f@)),
    ensures
        json_tree(r) == Json::Object(field_trees(f@)),
{
    serde_json::Value::Object(f.into_iter().collect())
}

/// Whether a value has no more than `depth` levels of lists and objects, no
/// name twice in an object, and nothing but what `Json` tells apart.
pub open spec fn is_plain(j: Json, depth: nat) -> bool
    decreases j,
{
    match j {
        Json::List(l) => depth > 0 && forall|i: int|
            0 <= i < l.len() ==> is_plain(#[trigger] l[i], (depth - 1) as nat),
        Json::Object(f) => depth > 0 && distinct_names(f) && forall|i: int|
            0 <= i < f.len() ==> is_plain((#[trigger] f[i]).1, (depth - 1) as nat),
        Json::Other => false,
        _ => true,
    }
}

/// Whether a text denotes neither a string, nor a number, nor null.
pub open spec fn is_no_leaf(t: Seq<char>) -> bool {
    text_read(t) is None && number_read(t) is None && !null_read(t)
}

/// A character that may stand between the tokens of a JSON text.
pub open spec fn is_blank(c: char) -> bool {
    c == ' ' || c == '\n' || c == '\t' || c == '\r'
}

/// A text without blanks at its start.
pub open spec fn unspaced(t: Seq<char>) -> Seq<char>
    decreases t.len(),
{
    if t.len() > 0 && is_blank(t[0]) {
        unspaced(t.skip(1))
    } else {
        t
    }
}

/// Whether a text starts with `c`.
pub open spec fn starts(t: Seq<char>, c: char) -> bool {
    t.len() > 0 && t[0] == c
}

/// The field that a text begins with, as its name and the text of its value,
/// and what stands behind it.
pub open spec fn head_field(t: Seq<char>) -> Option<((Seq<char>, Seq<char>), Seq<char>)> {
    match head_read(t) {
        Some((key, rest)) => match (text_read(key), starts(unspaced(rest), ':')) {
            (Some(name), true) => match head_read(unspaced(rest).skip(1)) {
                Some((value, more)) => Some(((name, value), unspaced(more))),
                None => None,
            },
            _ => None,
        },
        None => None,
    }
}

/// The fields of the object whose text goes on with `t`, where a field has to
/// follow. What follows a field is shorter than what it begins.
pub open spec fn more_fields(t: Seq<char>) -> Option<Seq<(Seq<char>, Seq<char>)>>
    decreases t.len(),
{
    match head_field(t) {
        Some((f, rest)) => if rest.len() >= t.len() {
            None
        } else if starts(rest, ',') {
            match more_fields(rest.skip(1)) {
                Some(fields) => Some(seq![f] + fields),
                None => None,
            }
        } else if starts(rest, '}') && unspaced(rest.skip(1)).len() == 0 {
            Some(seq![f])
        } else {
            None
        },
        None => None,
    }
}

/// The fields of the object that a text denotes, in order, each as its name
/// and the text of its value, if the text denotes an object.
pub open spec fn object_read(t: Seq<char>) -> Option<Seq<(Seq<char>, Seq<char>)>> {
    let body = unspaced(t);
    let inner = unspaced(body.skip(1));
    if !starts(body, '{') {
        None
    } else if starts(inner, '}') {
        if unspaced(inner.skip(1)).len() == 0 {
            Some(Seq::empty())
        } else {
            None
        }
    } else {
        more_fields(inner)
    }
}

/// Whether a text reads as a value, level by level.
pub open spec fn reads_as(t: Seq<char>, j: Json) -> bool
    decreases j,
{
    match j {
        Json::Null => text_read(t) is None && number_read(t) is None && null_read(t),
        Json::Number(n) => text_read(t) is None && number_read(t) == Some(n),
        Json::Text(s) => text_read(t) == Some(s),
        Json::List(l) => {
            &&& is_no_leaf(t)
            &&& list_read(t) is Some
            &&& list_read(t)->0.len() == l.len()
            &&& forall|i: int|
                0 <= i < l.len() ==> reads_as(list_read(t)->0[i], #[trigger] l[i])
        },
        Json::Object(f) => {
            &&& is_no_leaf(t)
            &&& list_read(t) is None
            &&& object_read(t) is Some
            &&& object_read(t)->0.len() == f.len()
            &&& forall|i: int|
                0 <= i < f.len() ==> object_read(t)->0[i].0 == (#[trigger] f[i]).0 && reads_as(
                    object_read(t)->0[i].1,
                    f[i].1,
                )
        },
        Json::Bool(_) => true,
        Json::Other => true,
    }
}

/// `serde_json::to_string` on a `Value`: its compact text. It does not fail
/// on a `Value`. Line breaks inside strings are escaped and none stand
/// between tokens. `serde_json::from_str` reads the text as the value.
#[verifier::external_body]
pub(crate) fn compact_text(v: &serde_json::Value) -> (r: Option<String>)
    requires
        is_plain(json_tree(*v), 127),
    ensures
        match r {
            Some(s) => {
                &&& s@ == json_text(json_tree(*v))
                &&& s@.len() > 0
                &&& !s@.contains('\n')
                &&& !s@.contains('\r')
                &&& reads_as(s@, json_tree(*v))
            },
            None => false,
        },
{
    serde_json::to_string(v).ok()
}

/// `serde_json::to_string_pretty` on a `Value`: its indented text. It does not
/// fail on a `Value`. `serde_json::from_str` reads the text as the value.
#[verifier::external_body]
pub(crate) fn pretty_text(v: &serde_json::Value) -> (r: Option<String>)
    requires
        is_plain(json_tree(*v), 127),
    ensures
        match r {
            Some(s) => {
                &&& s@ == json_pretty(json_tree(*v))
                &&& reads_as(s@, json_tree(*v))
            },
            None => false,
        },
{
    serde_json::to_string_pretty(v).ok()
}

/// An object with one field.
pub open spec fn single(name: Seq<char>, value: Json) -> Json {
    Json::Object(seq![(name, value)])
}

/// An object with one field.
pub(crate) fn single_value(name: &str, value: serde_json::Value) -> (r: serde_json::Value)
    ensures
        json_tree(r) == single(name@, json_tree(value)),
{
    let mut f: Vec<(String, serde_json::Value)> = Vec::new();
    f.push((name.to_owned(), value));
    assert(field_trees(f@) == seq![(name@, json_tree(value))]);
    object_value(f)
}

/// A list of plain values is plain.
pub proof fn lemma_plain_list(l: Seq<Json>, depth: nat)
    requires
        depth > 0,
        forall|i: int| 0 <= i < l.len() ==> is_plain(#[trigger] l[i], (depth - 1) as nat),
    ensures
        is_plain(Json::List(l), depth),
{
}

/// An object with one plain value is plain.
pub proof fn lemma_plain_single(name: Seq<char>, value: Json, depth: nat)
    requires
        depth > 0,
        is_plain(value, (depth - 1) as nat),
    ensures
        is_plain(single(name, value), depth),
{
    let f = seq![(name, value)];
    assert(distinct_names(f));
    assert forall|i: int| 0 <= i < f.len() implies is_plain(
        (#[trigger] f[i]).1,
        (depth - 1) as nat,
    ) by {
        assert(f[i] == (name, value));
    }
}

/// A list with one value.
pub(crate) fn singleton_value(value: serde_json::Value) -> (r: serde_json::Value)
    ensures
        json_tree(r) == Json::List(seq![json_tree(value)]),
{
    let mut l: Vec<serde_json::Value> = Vec::new();
    l.push(value);
    assert(trees(l@) == seq![json_tree(value)]);
    list_value(l)
}

// ---------------------------------------------------------------------------
// Reading
// ---------------------------------------------------------------------------
/// A value as it is read from a text.
#[derive(Debug, PartialEq, Eq)]
pub enum Node {
    Null,
    Number(u64),
    Text(String),
    List(Vec<Node>),
    Object(Vec<(String, Node)>),
    /// Anything else, or a value that is not looked into.
    Other,
}

impl Node {
    /// What the value holds.
    pub open spec fn tree(&self) -> Json
        decreases self,
    {
        match self {
            Node::Null => Json::Null,
            Node::Number(n) => Json::Number(*n),
            Node::Text(s) => Json::Text(s@),
            Node::List(l) => Json::List(
                Seq::new(
                    l@.len(),
                    |i: int|
                        if 0 <= i < l@.len() {
                            l@[i].tree()
                        } else {
                            Json::Other
                        },
                ),
            ),
            Node::Object(f) => Json::Object(
                Seq::new(
                    f@.len(),
                    |i: int|
                        if 0 <= i < f@.len() {
                            (f@[i].0@, f@[i].1.tree())
                        } else {
                            (Seq::empty(), Json::Other)
                        },
                ),
            ),
            Node::Other => Json::Other,
        }
    }
}

impl View for Node {
    type V = Json;

    open spec fn view(&self) -> Json {
        self.tree()
    }
}

/// What the values of a list hold.
pub open spec fn nodes(list: Seq<Node>) -> Seq<Json> {
    list.map_values(|n: Node| n@)
}

/// What named values hold.
pub open spec fn named_nodes(list: Seq<(String, Node)>) -> Seq<(Seq<char>, Json)> {
    list.map_values(|f: (String, Node)| (f.0@, f.1@))
}

/// A list holds what its values hold, and an object what its fields hold.
pub proof fn lemma_inside(n: Node)
    ensures
        n matches Node::List(l) ==> n@ == Json::List(nodes(l@)),
        n matches Node::Object(f) ==> n@ == Json::Object(named_nodes(f@)),
{
    match n {
        Node::List(l) => {
            assert(n@->List_0 == nodes(l@));
        },
        Node::Object(f) => {
            assert(n@->Object_0 == named_nodes(f@));
        },
        _ => {},
    }
}

/// The strings of pairs.
pub open spec fn pairs(list: Seq<(String, String)>) -> Seq<(Seq<char>, Seq<char>)> {
    list.map_values(|p: (String, String)| (p.0@, p.1@))
}

/// `serde_json::from_str` into a `String`: the string of a text, none if the
/// text denotes something else.
#[verifier::external_body]
fn read_string(s: &str) -> (r: Option<String>)
    ensures
        match r {
            Some(t) => text_read(s@) == Some(t@),
            None => text_read(s@) is None,
        },
{
    serde_json::from_str(s).ok()
}

/// `serde_json::from_str` into a `u64`: the number of a text, none if the text
/// denotes something else.
#[verifier::external_body]
fn read_number(s: &str) -> (r: Option<u64>)
    ensures
        r == number_read(s@),
{
    serde_json::from_str(s).ok()
}

/// `serde_json::from_str` into `()`: whether a text denotes null.
#[verifier::external_body]
fn read_null(s: &str) -> (r: bool)
    ensures
        r == null_read(s@),
{
    serde_json::from_str::<()>(s).is_ok()
}

/// `serde_json::from_str` into a list of `RawValue`: the texts of the values
/// in the list, none if the text denotes something else. What the values are
/// is not looked into.
#[verifier::external_body]
fn read_list(s: &str) -> (r: Option<Vec<String>>)
    ensures
        match r {
            Some(l) => list_read(s@) == Some(text::views(l@)),
            None => list_read(s@) is None,
        },
{
    let read: Option<Vec<Box<serde_json::value::RawValue>>> = serde_json::from_str(s).ok();
    read.map(|l| l.into_iter().map(|v| v.get().to_string()).collect())
}

/// `serde_json::Deserializer::from_str`, `into_iter` over `RawValue` and
/// `StreamDeserializer::next` and `byte_offset`: the text of the value at the
/// start of a text, and what stands behind it. What the value is is not
/// looked into. Something is taken off the text.
#[verifier::external_body]
fn read_head(s: &str) -> (r: Option<(String, String)>)
    ensures
        match r {
            Some((v, rest)) => head_read(s@) == Some((v@, rest@)) && rest@.len() < s@.len(),
            None => head_read(s@) is None,
        },
{
    let mut values =
        serde_json::Deserializer::from_str(s).into_iter::<Box<serde_json::value::RawValue>>();
    match values.next() {
        Some(Ok(v)) => Some((v.get().to_string(), s[values.byte_offset()..].to_string())),
        Some(Err(_)) => None,
        None => None,
    }
}

proof fn lemma_unspaced(t: Seq<char>)
    ensures
        unspaced(t).len() <= t.len(),
    decreases t.len(),
{
    if t.len() > 0 && is_blank(t[0]) {
        lemma_unspaced(t.skip(1));
    }
}

/// A text without blanks at its start.
fn skip_blanks(t: &str) -> (r: Vec<char>)
    ensures
        r@ == unspaced(t@),
{
    let cs = text::to_chars(t);
    let mut i: usize = 0;
    assert(cs@.skip(0) == cs@);
    while i < cs.len() && (cs[i] == ' ' || cs[i] == '\n' || cs[i] == '\t' || cs[i] == '\r')
        invariant
            i <= cs@.len(),
            unspaced(cs@.skip(i as int)) == unspaced(cs@),
        decreases cs@.len() - i,
    {
        assert(cs@.skip(i as int).skip(1) == cs@.skip(i + 1));
        i = i + 1;
    }
    text::to_chars(text::from_range(&cs, i, cs.len()).as_str())
}

/// The text behind the first character.
fn behind_first(t: &Vec<char>) -> (r: String)
    requires
        t@.len() > 0,
    ensures
        r@ == t@.skip(1),
{
    let r = text::from_range(t, 1, t.len());
    assert(r@ == t@.skip(1));
    r
}

/// The field that a text begins with, and what stands behind it.
fn read_field(t: &str) -> (r: Option<((String, String), Vec<char>)>)
    ensures
        match r {
            Some((f, rest)) => {
                &&& head_field(t@) == Some(((f.0@, f.1@), rest@))
                &&& rest@.len() < t@.len()
            },
            None => head_field(t@) is None,
        },
{
    let (key, rest) = read_head(t)?;
    let name = read_string(key.as_str())?;
    proof {
        lemma_unspaced(rest@);
    }
    let rest = skip_blanks(rest.as_str());
    if rest.len() == 0 || rest[0] != ':' {
        return None;
    }
    let (value, more) = read_head(behind_first(&rest).as_str())?;
    proof {
        lemma_unspaced(more@);
    }
    Some(((name, value), skip_blanks(more.as_str())))
}

/// Steps through the fields of an object, since neither a map nor a `Value`
/// keeps a field that is given twice.
fn read_object(t: &str) -> (r: Option<Vec<(String, String)>>)
    ensures
        match r {
            Some(f) => object_read(t@) == Some(pairs(f@)),
            None => object_read(t@) is None,
        },
{
    let body = skip_blanks(t);
    if body.len() == 0 || body[0] != '{' {
        return None;
    }
    let inner = skip_blanks(behind_first(&body).as_str());
    let mut fields: Vec<(String, String)> = Vec::new();
    assert(pairs(fields@) == Seq::<(Seq<char>, Seq<char>)>::empty());
    if inner.len() > 0 && inner[0] == '}' {
        return if skip_blanks(behind_first(&inner).as_str()).len() == 0 {
            Some(fields)
        } else {
            None
        };
    }
    let mut left = text::from_chars(&inner);
    loop
        invariant
            object_read(t@) == match more_fields(left@) {
                Some(l) => Some(pairs(fields@) + l),
                None => None,
            },
        decreases left@.len(),
    {
        let ghost before = pairs(fields@);
        let (f, rest) = read_field(left.as_str())?;
        fields.push(f);
        assert(pairs(fields@) == before.push((f.0@, f.1@)));
        if rest.len() > 0 && rest[0] == ',' {
            left = behind_first(&rest);
            assert(forall|l: Seq<(Seq<char>, Seq<char>)>|
                #[trigger] (before + (seq![(f.0@, f.1@)] + l)) == pairs(fields@) + l);
        } else if rest.len() > 0 && rest[0] == '}' && skip_blanks(
            behind_first(&rest).as_str(),
        ).len() == 0 {
            assert(before + seq![(f.0@, f.1@)] == pairs(fields@));
            return Some(fields);
        } else {
            return None;
        }
    }
}

/// The value that a text denotes, looked into for as many levels of lists and
/// objects as `depth` says.
pub open spec fn read_tree(t: Seq<char>, depth: nat) -> Json
    decreases depth,
{
    if text_read(t) is Some {
        Json::Text(text_read(t)->0)
    } else if number_read(t) is Some {
        Json::Number(number_read(t)->0)
    } else if null_read(t) {
        Json::Null
    } else if depth == 0 {
        Json::Other
    } else if list_read(t) is Some {
        Json::List(
            list_read(t)->0.map_values(|s: Seq<char>| read_tree(s, (depth - 1) as nat)),
        )
    } else if object_read(t) is Some {
        Json::Object(
            object_read(t)->0.map_values(
                |p: (Seq<char>, Seq<char>)| (p.0, read_tree(p.1, (depth - 1) as nat)),
            ),
        )
    } else {
        Json::Other
    }
}

proof fn lemma_read_list(t: Seq<char>, depth: nat)
    requires
        is_no_leaf(t),
        list_read(t) is Some,
        depth > 0,
    ensures
        read_tree(t, depth) == Json::List(
            list_read(t)->0.map_values(|s: Seq<char>| read_tree(s, (depth - 1) as nat)),
        ),
{
    let l = list_read(t)->0.map_values(|s: Seq<char>| read_tree(s, (depth - 1) as nat));
    assert(read_tree(t, depth)->List_0 =~= l);
}

proof fn lemma_read_object(t: Seq<char>, depth: nat)
    requires
        is_no_leaf(t),
        list_read(t) is None,
        object_read(t) is Some,
        depth > 0,
    ensures
        read_tree(t, depth) == Json::Object(
            object_read(t)->0.map_values(
                |p: (Seq<char>, Seq<char>)| (p.0, read_tree(p.1, (depth - 1) as nat)),
            ),
        ),
{
    let f = object_read(t)->0.map_values(
        |p: (Seq<char>, Seq<char>)| (p.0, read_tree(p.1, (depth - 1) as nat)),
    );
    assert(read_tree(t, depth)->Object_0 =~= f);
}

/// The value that a text denotes, looked into for `depth` levels.
fn read_node(t: &str, depth: usize) -> (r: Node)
    ensures
        r@ == read_tree(t@, depth as nat),
    decreases depth,
{
    if let Some(s) = read_string(t) {
        return Node::Text(s);
    }
    if let Some(n) = read_number(t) {
        return Node::Number(n);
    }
    if read_null(t) {
        return Node::Null;
    }
    if depth == 0 {
        return Node::Other;
    }
    if let Some(l) = read_list(t) {
        let ghost want = text::views(l@).map_values(
            |s: Seq<char>| read_tree(s, (depth - 1) as nat),
        );
        let mut out: Vec<Node> = Vec::new();
        for i in 0..l.len()
            invariant
                depth > 0,
                want == text::views(l@).map_values(
                    |s: Seq<char>| read_tree(s, (depth - 1) as nat),
                ),
                nodes(out@) == want.take(i as int),
        {
            let ghost before = nodes(out@);
            let n = read_node(l[i].as_str(), depth - 1);
            assert(n@ == want[i as int]);
            out.push(n);
            assert(nodes(out@) == before.push(want[i as int]));
            assert(want.take(i + 1) == want.take(i as int).push(want[i as int]));
        }
        assert(want.take(want.len() as int) == want);
        let r = Node::List(out);
        proof {
            lemma_inside(r);
            lemma_read_list(t@, depth as nat);
        }
        return r;
    }
    if let Some(f) = read_object(t) {
        let ghost want = pairs(f@).map_values(
            |p: (Seq<char>, Seq<char>)| (p.0, read_tree(p.1, (depth - 1) as nat)),
        );
        let mut out: Vec<(String, Node)> = Vec::new();
        for i in 0..f.len()
            invariant
                depth > 0,
                want == pairs(f@).map_values(
                    |p: (Seq<char>, Seq<char>)| (p.0, read_tree(p.1, (depth - 1) as nat)),
                ),
                named_nodes(out@) == want.take(i as int),
        {
            let ghost before = named_nodes(out@);
            let n = read_node(f[i].1.as_str(), depth - 1);
            assert((f@[i as int].0@, n@) == want[i as int]);
            out.push((f[i].0.clone(), n));
            assert(named_nodes(out@) == before.push(want[i as int]));
            assert(want.take(i + 1) == want.take(i as int).push(want[i as int]));
        }
        assert(want.take(want.len() as int) == want);
        let r = Node::Object(out);
        proof {
            lemma_inside(r);
            lemma_read_object(t@, depth as nat);
        }
        return r;
    }
    Node::Other
}

/// How many levels of lists and objects are looked into.
pub const LEVELS: usize = 5;

/// The value that a text denotes, as far as it is looked into.
pub open spec fn json_read(t: Seq<char>) -> Json {
    read_tree(t, LEVELS as nat)
}

/// The value that a text denotes, as far as it is looked into.
pub(crate) fn read_text(t: &str) -> (r: Node)
    ensures
        r@ == json_read(t@),
{
    read_node(t, LEVELS)
}

/// Whether a name occurs more than once.
pub open spec fn given_twice(fields: Seq<(Seq<char>, Json)>, name: Seq<char>) -> bool {
    exists|i: int, j: int|
        0 <= i < j < fields.len() && (#[trigger] fields[i]).0 == name && (#[trigger] fields[j]).0
            == name
}

/// Whether a name occurs more than once.
pub(crate) fn repeats(fields: &Vec<(String, Node)>, name: &str) -> (r: bool)
    ensures
        r == given_twice(named_nodes(fields@), name@),
{
    let ghost all = named_nodes(fields@);
    let mut first: Option<usize> = None;
    for i in 0..fields.len()
        invariant
            all == named_nodes(fields@),
            match first {
                Some(k) => {
                    &&& k < i
                    &&& all[k as int].0 == name@
                    &&& forall|j: int| 0 <= j < i && j != k ==> (#[trigger] all[j]).0 != name@
                },
                None => forall|j: int| 0 <= j < i ==> (#[trigger] all[j]).0 != name@,
            },
    {
        assert(all[i as int].0 == fields@[i as int].0@);
        if text::same(fields[i].0.as_str(), name) {
            if let Some(k) = first {
                assert(all[k as int].0 == name@ && all[i as int].0 == name@);
                return true;
            }
            first = Some(i);
        }
    }
    false
}

/// Takes what stands under `name` out of a list of fields. The other fields
/// stay.
pub(crate) fn take_field(fields: &mut Vec<(String, Node)>, name: &str) -> (r: Option<Node>)
    ensures
        match r {
            Some(v) => field(named_nodes(old(fields)@), name@) == Some(v@),
            None => field(named_nodes(old(fields)@), name@) is None,
        },
        forall|other: Seq<char>|
            other != name@ ==> #[trigger] field(named_nodes(final(fields)@), other) == field(
                named_nodes(old(fields)@),
                other,
            ),
{
    let ghost all = named_nodes(fields@);
    let mut i: usize = fields.len();
    assert(all.take(i as int) == all);
    while i > 0
        invariant
            i <= fields@.len(),
            all == named_nodes(fields@),
            fields@ == old(fields)@,
            field(all, name@) == field(all.take(i as int), name@),
        decreases i,
    {
        i = i - 1;
        assert(all.take(i + 1).drop_last() == all.take(i as int));
        if text::same(fields[i].0.as_str(), name) {
            let (key, value) = fields.remove(i);
            let ghost rest = named_nodes(fields@);
            assert(rest == all.remove(i as int));
            proof {
                assert forall|other: Seq<char>| other != name@ implies #[trigger] field(rest, other)
                    == field(all, other) by {
                    lemma_field_without(all, i as int, other);
                }
            }
            return Some(value);
        }
    }
    None
}

proof fn lemma_field_without(fields: Seq<(Seq<char>, Json)>, i: int, name: Seq<char>)
    requires
        0 <= i < fields.len(),
        fields[i].0 != name,
    ensures
        field(fields.remove(i), name) == field(fields, name),
    decreases fields.len(),
{
    if i == fields.len() - 1 {
        assert(fields.remove(i) == fields.drop_last());
    } else {
        lemma_field_without(fields.drop_last(), i, name);
        assert(fields.remove(i).drop_last() == fields.drop_last().remove(i));
        assert(fields.remove(i).last() == fields.last());
    }
}

// ---------------------------------------------------------------------------
// Reading what was written
// ---------------------------------------------------------------------------
/// Whether a value can be read in full when `depth` levels are looked into.
pub open spec fn is_readable(j: Json, depth: nat) -> bool
    decreases j,
{
    match j {
        Json::List(l) => depth > 0 && forall|i: int|
            0 <= i < l.len() ==> is_readable(#[trigger] l[i], (depth - 1) as nat),
        Json::Object(f) => depth > 0 && distinct_names(f) && forall|i: int|
            0 <= i < f.len() ==> is_readable((#[trigger] f[i]).1, (depth - 1) as nat),
        Json::Bool(_) => false,
        Json::Other => false,
        _ => true,
    }
}

/// What can be read in full is plain.
pub proof fn lemma_readable_plain(j: Json, depth: nat, more: nat)
    requires
        is_readable(j, depth),
        depth <= more,
    ensures
        is_plain(j, more),
    decreases j,
{
    match j {
        Json::List(l) => {
            assert forall|i: int| 0 <= i < l.len() implies is_plain(
                #[trigger] l[i],
                (more - 1) as nat,
            ) by {
                lemma_readable_plain(l[i], (depth - 1) as nat, (more - 1) as nat);
            }
        },
        Json::Object(f) => {
            assert forall|i: int| 0 <= i < f.len() implies is_plain(
                (#[trigger] f[i]).1,
                (more - 1) as nat,
            ) by {
                lemma_readable_plain(f[i].1, (depth - 1) as nat, (more - 1) as nat);
            }
        },
        _ => {},
    }
}

/// A field is found by its name where no name occurs twice.
pub proof fn lemma_field_at(fields: Seq<(Seq<char>, Json)>, i: int)
    requires
        distinct_names(fields),
        0 <= i < fields.len(),
    ensures
        field(fields, fields[i].0) == Some(fields[i].1),
        !given_twice(fields, fields[i].0),
    decreases fields.len(),
{
    if i < fields.len() - 1 {
        assert(fields.last() == fields[fields.len() - 1]);
        lemma_field_at(fields.drop_last(), i);
    }
}

/// A text that reads as a value, level by level, is read as that value.
pub proof fn read_what_was_written(t: Seq<char>, j: Json, depth: nat)
    requires
        reads_as(t, j),
        is_readable(j, depth),
    ensures
        read_tree(t, depth) == j,
    decreases j,
{
    match j {
        Json::List(l) => {
            let texts = list_read(t)->0;
            lemma_read_list(t, depth);
            assert forall|i: int| 0 <= i < l.len() implies read_tree(t, depth)->List_0[i] == (
            #[trigger] l[i]) by {
                read_what_was_written(texts[i], l[i], (depth - 1) as nat);
            }
            assert(read_tree(t, depth)->List_0 =~= l);
        },
        Json::Object(f) => {
            let raw = object_read(t)->0;
            lemma_read_object(t, depth);
            assert forall|i: int| 0 <= i < f.len() implies read_tree(t, depth)->Object_0[i] == (
            #[trigger] f[i]) by {
                read_what_was_written(raw[i].1, f[i].1, (depth - 1) as nat);
            }
            assert(read_tree(t, depth)->Object_0 =~= f);
        },
        _ => {},
    }
}

} // verus!
