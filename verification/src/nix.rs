//! Literal bindings of a Nix source file.
//!
//! The syntax tree comes from `rnix`; nothing is evaluated. The tree is
//! walked through the handles that `rnix` gives out, and `NixExpr` says what
//! those handles hold.
use crate::text;
use crate::words;
use rnix::ast;
use rnix::ast::HasEntry;
use rowan::ast::AstNode;
use vstd::prelude::*;
use vstd::string::*;
use vstd::utf8::*;

verus! {

// ---------------------------------------------------------------------------
// What a syntax tree holds
// ---------------------------------------------------------------------------
/// An expression, as far as declarations are concerned.
pub enum NixExpr {
    /// `{ … }`, with its `path = value;` bindings in source order.
    Attrs(Seq<NixEntry>),
    /// A function, with its body.
    Lambda(Option<Box<NixExpr>>),
    /// A `with`, with its body.
    With(Option<Box<NixExpr>>),
    /// A `let … in`, with its body.
    LetIn(Option<Box<NixExpr>>),
    /// A quoted string.
    Quoted(NixStr),
    /// An integer literal, none if it does not fit in 64 bits.
    Integer(Option<i64>),
    /// A float or a URI.
    OtherLiteral,
    /// An identifier with its name, none if the source breaks off there.
    Name(Option<Seq<char>>),
    /// Anything else.
    Other,
}

/// One `path = value;` binding.
pub struct NixEntry {
    pub path: Option<Seq<NixKey>>,
    pub value: Option<NixExpr>,
}

/// One part of an attribute path.
pub enum NixKey {
    Name(Option<Seq<char>>),
    Quoted(NixStr),
    Dynamic,
}

/// A quoted string.
pub struct NixStr {
    /// What it consists of, quotes included.
    pub elements: Seq<StrElement>,
    /// The text of its first token, which opens it.
    pub quote: Option<Seq<char>>,
    /// How many bytes of the source it takes up.
    pub size: nat,
    /// The pieces of text in order, none for an interpolation.
    pub parts: Seq<Option<Seq<char>>>,
}

/// One element of a quoted string.
#[derive(Debug, Clone, Copy, PartialEq, Eq, Structural)]
pub enum StrElement {
    Start,
    Content,
    Interpolation,
    End,
    /// Anything else, as it may be left behind by a syntax error.
    Stray,
}

/// Whether a string consists of quotes, text and interpolations alone, and, if
/// it is an indented one, is not so long that its indentation cannot be
/// counted.
pub open spec fn is_sound(s: NixStr) -> bool {
    &&& !s.elements.contains(StrElement::Stray)
    &&& s.quote == Some("''"@) ==> s.size <= i32::MAX
}

/// An expression handle of `rnix`.
#[verifier::external_type_specification]
#[verifier::external_body]
pub struct ExExpr(rnix::ast::Expr);

/// An attribute set handle of `rnix`.
#[verifier::external_type_specification]
#[verifier::external_body]
pub struct ExAttrSet(rnix::ast::AttrSet);

/// A string handle of `rnix`.
#[verifier::external_type_specification]
#[verifier::external_body]
pub struct ExStr(rnix::ast::Str);

/// A binding handle of `rnix`.
#[verifier::external_type_specification]
#[verifier::external_body]
pub struct ExAttrpathValue(rnix::ast::AttrpathValue);

/// A handle of `rnix` to one part of an attribute path.
#[verifier::external_type_specification]
#[verifier::external_body]
pub struct ExAttr(rnix::ast::Attr);

/// The expression that `rnix` reads from a source text, if any.
pub uninterp spec fn source_tree(src: Seq<char>) -> Option<NixExpr>;

/// What an expression handle holds.
pub uninterp spec fn expr_tree(e: rnix::ast::Expr) -> NixExpr;

/// What an attribute set handle holds.
pub uninterp spec fn set_tree(s: rnix::ast::AttrSet) -> Seq<NixEntry>;

/// What a string handle holds.
pub uninterp spec fn str_tree(s: rnix::ast::Str) -> NixStr;

/// What a binding handle holds.
pub uninterp spec fn entry_tree(e: rnix::ast::AttrpathValue) -> NixEntry;

/// What a handle to a part of an attribute path holds.
pub uninterp spec fn attr_tree(a: rnix::ast::Attr) -> NixKey;

/// An expression taken apart.
pub enum ExprParts {
    Attrs(rnix::ast::AttrSet),
    Lambda(Option<rnix::ast::Expr>),
    With(Option<rnix::ast::Expr>),
    LetIn(Option<rnix::ast::Expr>),
    Quoted(rnix::ast::Str),
    Integer(Option<i64>),
    OtherLiteral,
    Name(Option<String>),
    Other,
}

/// What a body holds, if there is one.
pub open spec fn body_tree(e: Option<rnix::ast::Expr>) -> Option<Box<NixExpr>> {
    match e {
        Some(b) => Some(Box::new(expr_tree(b))),
        None => None,
    }
}

/// Whether `p` is what an expression that holds `tree` consists of.
pub open spec fn is_taken_apart(p: ExprParts, tree: NixExpr) -> bool {
    match p {
        ExprParts::Attrs(s) => tree == NixExpr::Attrs(set_tree(s)),
        ExprParts::Lambda(b) => tree == NixExpr::Lambda(body_tree(b)),
        ExprParts::With(b) => tree == NixExpr::With(body_tree(b)),
        ExprParts::LetIn(b) => tree == NixExpr::LetIn(body_tree(b)),
        ExprParts::Quoted(s) => tree == NixExpr::Quoted(str_tree(s)),
        ExprParts::Integer(n) => tree == NixExpr::Integer(n),
        ExprParts::OtherLiteral => tree == NixExpr::OtherLiteral,
        ExprParts::Name(Some(t)) => tree == NixExpr::Name(Some(t@)),
        ExprParts::Name(None) => tree == NixExpr::Name(None),
        ExprParts::Other => tree == NixExpr::Other,
    }
}

/// A part of an attribute path taken apart.
pub enum KeyParts {
    Name(Option<String>),
    Quoted(rnix::ast::Str),
    Dynamic,
}

/// `rnix::Root::parse`, `Parse::tree` and `Root::expr`: the expression of a
/// source text, if there is one. Text is counted in 32 bits there, so longer
/// sources stay out.
#[verifier::external_body]
fn parse_source(src: &str) -> (r: Option<rnix::ast::Expr>)
    requires
        src.spec_bytes().len() <= u32::MAX,
    ensures
        match r {
            Some(e) => source_tree(src@) == Some(expr_tree(e)),
            None => source_tree(src@) is None,
        },
{
    rnix::Root::parse(src).tree().expr()
}

/// The variants of `rnix::ast::Expr` told apart, with `Lambda::body`,
/// `With::body`, `LetIn::body`, `Literal::kind`, `Integer::value` and
/// `Ident::ident_token` for what stands in them.
#[verifier::external_body]
fn open_expr(e: rnix::ast::Expr) -> (r: ExprParts)
    ensures
        is_taken_apart(r, expr_tree(e)),
{
    match e {
        ast::Expr::AttrSet(s) => ExprParts::Attrs(s),
        ast::Expr::Lambda(l) => ExprParts::Lambda(l.body()),
        ast::Expr::With(w) => ExprParts::With(w.body()),
        ast::Expr::LetIn(l) => ExprParts::LetIn(l.body()),
        ast::Expr::Str(s) => ExprParts::Quoted(s),
        ast::Expr::Literal(l) => match l.kind() {
            ast::LiteralKind::Integer(i) => ExprParts::Integer(i.value().ok()),
            _ => ExprParts::OtherLiteral,
        },
        ast::Expr::Ident(i) => ExprParts::Name(i.ident_token().map(|t| t.text().to_string())),
        _ => ExprParts::Other,
    }
}

/// `HasEntry::attrpath_values`: the bindings of an attribute set.
#[verifier::external_body]
fn set_entries(s: &rnix::ast::AttrSet) -> (r: Vec<rnix::ast::AttrpathValue>)
    ensures
        r@.len() == set_tree(*s).len(),
        forall|i: int| 0 <= i < r@.len() ==> entry_tree(#[trigger] r@[i]) == set_tree(*s)[i],
{
    s.attrpath_values().collect()
}

/// `AttrpathValue::attrpath` and `Attrpath::attrs`: the parts of the path of
/// a binding, if it has one.
#[verifier::external_body]
fn entry_path(e: &rnix::ast::AttrpathValue) -> (r: Option<Vec<rnix::ast::Attr>>)
    ensures
        match (r, entry_tree(*e).path) {
            (Some(v), Some(p)) => {
                &&& v@.len() == p.len()
                &&& forall|i: int| 0 <= i < p.len() ==> attr_tree(#[trigger] v@[i]) == p[i]
            },
            (None, None) => true,
            _ => false,
        },
{
    e.attrpath().map(|p| p.attrs().collect())
}

/// `AttrpathValue::value`: the value of a binding, if it has one.
#[verifier::external_body]
fn entry_value(e: &rnix::ast::AttrpathValue) -> (r: Option<rnix::ast::Expr>)
    ensures
        match r {
            Some(v) => entry_tree(*e).value == Some(expr_tree(v)),
            None => entry_tree(*e).value is None,
        },
{
    e.value()
}

/// The variants of `rnix::ast::Attr` told apart, with `Ident::ident_token`
/// for the name.
#[verifier::external_body]
fn open_attr(a: &rnix::ast::Attr) -> (r: KeyParts)
    ensures
        match r {
            KeyParts::Name(Some(t)) => attr_tree(*a) == NixKey::Name(Some(t@)),
            KeyParts::Name(None) => attr_tree(*a) == NixKey::Name(None),
            KeyParts::Quoted(s) => attr_tree(*a) == NixKey::Quoted(str_tree(s)),
            KeyParts::Dynamic => attr_tree(*a) == NixKey::Dynamic,
        },
{
    match a {
        rnix::ast::Attr::Ident(i) => KeyParts::Name(i.ident_token().map(|t| t.text().to_string())),
        rnix::ast::Attr::Str(s) => KeyParts::Quoted(s.clone()),
        rnix::ast::Attr::Dynamic(_) => KeyParts::Dynamic,
    }
}

/// `rowan::SyntaxNode::children_with_tokens` of a string, told apart by kind.
#[verifier::external_body]
fn string_elements(s: &rnix::ast::Str) -> (r: Vec<StrElement>)
    ensures
        r@ == str_tree(*s).elements,
{
    let elements = s.syntax().children_with_tokens();
    elements
        .map(|e| match e.kind() {
            rnix::SyntaxKind::TOKEN_STRING_START => StrElement::Start,
            rnix::SyntaxKind::TOKEN_STRING_CONTENT => StrElement::Content,
            rnix::SyntaxKind::NODE_INTERPOL => StrElement::Interpolation,
            rnix::SyntaxKind::TOKEN_STRING_END => StrElement::End,
            _ => StrElement::Stray,
        })
        .collect()
}

/// `rowan::SyntaxNode::children_with_tokens` of a string: the text of the first
/// token among them.
#[verifier::external_body]
fn string_quote(s: &rnix::ast::Str) -> (r: Option<String>)
    ensures
        match r {
            Some(q) => str_tree(*s).quote == Some(q@),
            None => str_tree(*s).quote is None,
        },
{
    let mut elements = s.syntax().children_with_tokens();
    elements.find_map(|e| e.into_token()).map(|t| t.text().to_string())
}

/// `rowan::SyntaxNode::text_range` of a string: how many bytes it takes up.
#[verifier::external_body]
fn string_size(s: &rnix::ast::Str) -> (r: u32)
    ensures
        r == str_tree(*s).size,
{
    s.syntax().text_range().len().into()
}

/// `Str::normalized_parts`: the pieces of a string with escapes and
/// indentation resolved. It panics on an element that is no quote, text or
/// interpolation, and counts the indentation of a string in `''` in 31 bits.
#[verifier::external_body]
fn string_parts(s: &rnix::ast::Str) -> (r: Vec<Option<String>>)
    requires
        is_sound(str_tree(*s)),
    ensures
        r@.len() == str_tree(*s).parts.len(),
        forall|i: int|
            0 <= i < r@.len() ==> match #[trigger] r@[i] {
                Some(t) => str_tree(*s).parts[i] == Some(t@),
                None => str_tree(*s).parts[i] is None,
            },
{
    let parts = s.normalized_parts().into_iter();
    parts
        .map(|p| match p {
            rnix::ast::InterpolPart::Literal(t) => Some(t),
            rnix::ast::InterpolPart::Interpolation(_) => None,
        })
        .collect()
}

// ---------------------------------------------------------------------------
// Literals
// ---------------------------------------------------------------------------
/// A literal value.
#[derive(Debug, Clone, PartialEq, Eq)]
pub enum NixLit {
    Str(String),
    Int(i64),
    Bool(bool),
}

/// What a literal stands for.
pub enum Lit {
    Str(Seq<char>),
    Int(i64),
    Bool(bool),
}

impl View for NixLit {
    type V = Lit;

    open spec fn view(&self) -> Lit {
        match self {
            NixLit::Str(s) => Lit::Str(s@),
            NixLit::Int(n) => Lit::Int(*n),
            NixLit::Bool(b) => Lit::Bool(*b),
        }
    }
}

/// An attribute path with the literal bound to it.
#[derive(Debug, Clone, PartialEq, Eq)]
pub struct Binding {
    pub path: Vec<String>,
    pub value: NixLit,
}

/// What a binding says.
pub struct Bound {
    pub path: Seq<Seq<char>>,
    pub value: Lit,
}

impl View for Binding {
    type V = Bound;

    open spec fn view(&self) -> Bound {
        Bound { path: text::views(self.path@), value: self.value@ }
    }
}

/// What a list of bindings says.
pub open spec fn bounds(list: Seq<Binding>) -> Seq<Bound> {
    list.map_values(|b: Binding| b@)
}

/// A literal as it is shown in messages.
pub open spec fn lit_debug(v: Lit) -> Seq<char> {
    match v {
        Lit::Str(s) => "Str("@ + text::debug_quoted(s) + ")"@,
        Lit::Int(n) => "Int("@ + text::signed_decimal(n as int) + ")"@,
        Lit::Bool(true) => "Bool(true)"@,
        Lit::Bool(false) => "Bool(false)"@,
    }
}

impl NixLit {
    /// The literal as it is shown in messages.
    pub fn debug_text(&self) -> (r: String)
        ensures
            r@ == lit_debug(self@),
    {
        match self {
            NixLit::Str(s) => "Str(".to_owned().concat(text::debug_string(s.as_str()).as_str()).concat(
                ")",
            ),
            NixLit::Int(n) => "Int(".to_owned().concat(text::signed_text(*n).as_str()).concat(")"),
            NixLit::Bool(b) => if *b {
                "Bool(true)".to_owned()
            } else {
                "Bool(false)".to_owned()
            },
        }
    }

    /// A copy of the literal.
    pub fn copied(&self) -> (r: NixLit)
        ensures
            r@ == self@,
    {
        match self {
            NixLit::Str(s) => NixLit::Str(s.clone()),
            NixLit::Int(n) => NixLit::Int(*n),
            NixLit::Bool(b) => NixLit::Bool(*b),
        }
    }
}

/// The text of a sound string without interpolations: its pieces one behind
/// the other. None for any other string.
pub open spec fn literal_text(s: NixStr) -> Option<Seq<char>> {
    if !is_sound(s) || s.parts.contains(None) {
        None
    } else {
        Some(s.parts.fold_left(Seq::empty(), |acc: Seq<char>, p: Option<Seq<char>>| acc + p->0))
    }
}

fn literal_string(s: &rnix::ast::Str) -> (r: Option<String>)
    ensures
        match r {
            Some(t) => literal_text(str_tree(*s)) == Some(t@),
            None => literal_text(str_tree(*s)) is None,
        },
{
    let ghost tree = str_tree(*s);
    let elements = string_elements(s);
    for i in 0..elements.len()
        invariant
            elements@ == tree.elements,
            tree == str_tree(*s),
            forall|j: int| 0 <= j < i ==> elements@[j] != StrElement::Stray,
    {
        if elements[i] == StrElement::Stray {
            assert(tree.elements[i as int] == StrElement::Stray);
            return None;
        }
    }
    if let Some(quote) = string_quote(s) {
        if text::same(quote.as_str(), "''") && string_size(s) > 0x7fff_ffff {
            return None;
        }
    }
    let parts = string_parts(s);
    let mut out = String::new();
    let ghost glue = |acc: Seq<char>, p: Option<Seq<char>>| acc + p->0;
    assert(tree.parts.take(0) == Seq::<Option<Seq<char>>>::empty());
    for i in 0..parts.len()
        invariant
            parts@.len() == tree.parts.len(),
            forall|j: int|
                0 <= j < parts@.len() ==> match #[trigger] parts@[j] {
                    Some(t) => tree.parts[j] == Some(t@),
                    None => tree.parts[j] is None,
                },
            tree == str_tree(*s),
            glue == (|acc: Seq<char>, p: Option<Seq<char>>| acc + p->0),
            forall|j: int| 0 <= j < i ==> tree.parts[j] is Some,
            out@ == tree.parts.take(i as int).fold_left(Seq::empty(), glue),
    {
        match &parts[i] {
            Some(t) => {
                assert(tree.parts.take(i + 1).drop_last() == tree.parts.take(i as int));
                out.append(t.as_str());
            },
            None => {
                assert(tree.parts[i as int] is None);
                return None;
            },
        }
    }
    assert(tree.parts.take(tree.parts.len() as int) == tree.parts);
    Some(out)
}

// ---------------------------------------------------------------------------
// Attribute paths
// ---------------------------------------------------------------------------
/// The name that one part of a path spells out.
pub open spec fn key_name(k: NixKey) -> Option<Seq<char>> {
    match k {
        NixKey::Name(n) => n,
        NixKey::Quoted(s) => literal_text(s),
        NixKey::Dynamic => None,
    }
}

/// The names of a path, none if some part does not spell one out.
pub open spec fn path_names(p: Seq<NixKey>) -> Option<Seq<Seq<char>>> {
    if exists|i: int| 0 <= i < p.len() && key_name(#[trigger] p[i]) is None {
        None
    } else {
        Some(p.map_values(|k: NixKey| key_name(k)->0))
    }
}

fn attr_path_idents(attrs: &Vec<rnix::ast::Attr>, Ghost(p): Ghost<Seq<NixKey>>) -> (r: Option<
    Vec<String>,
>)
    requires
        attrs@.len() == p.len(),
        forall|i: int| 0 <= i < p.len() ==> attr_tree(#[trigger] attrs@[i]) == p[i],
    ensures
        match r {
            Some(v) => path_names(p) == Some(text::views(v@)),
            None => path_names(p) is None,
        },
{
    let mut parts: Vec<String> = Vec::new();
    for i in 0..attrs.len()
        invariant
            attrs@.len() == p.len(),
            forall|j: int| 0 <= j < p.len() ==> attr_tree(#[trigger] attrs@[j]) == p[j],
            parts@.len() == i,
            forall|j: int| 0 <= j < i ==> key_name(#[trigger] p[j]) == Some(parts@[j]@),
    {
        assert(attr_tree(attrs@[i as int]) == p[i as int]);
        let part: Option<String> = match open_attr(&attrs[i]) {
            KeyParts::Name(n) => n,
            KeyParts::Quoted(s) => literal_string(&s),
            KeyParts::Dynamic => None,
        };
        match part {
            Some(t) => parts.push(t),
            None => {
                assert(key_name(p[i as int]) is None);
                return None;
            },
        }
    }
    assert(text::views(parts@) == p.map_values(|k: NixKey| key_name(k)->0));
    Some(parts)
}

// ---------------------------------------------------------------------------
// Bindings
// ---------------------------------------------------------------------------
/// What was found at one path: a literal, or the reason why the value there
/// is refused.
pub struct Found {
    pub path: Seq<Seq<char>>,
    pub what: Result<Lit, Seq<char>>,
}

/// Paths at which nothing but a literal is accepted.
pub open spec fn needs_literal(path: Seq<Seq<char>>) -> bool {
    &&& path.len() >= 3
    &&& path[0] == "neals"@
    &&& path[1] == "route"@ || path[1] == "services"@ || path[1] == "name"@
}

fn requires_literal(path: &Vec<String>) -> (r: bool)
    ensures
        r == needs_literal(text::views(path@)),
{
    path.len() >= 3 && text::same(path[0].as_str(), "neals") && (text::same(
        path[1].as_str(),
        "route",
    ) || text::same(path[1].as_str(), "services") || text::same(path[1].as_str(), "name"))
}

/// A path as it is shown in messages.
pub open spec fn dotted(path: Seq<Seq<char>>) -> Seq<char> {
    words::joined(path, "."@)
}

/// A path in backquotes with text in front and behind.
pub open spec fn about_path(before: Seq<char>, path: Seq<Seq<char>>, after: Seq<char>) -> Seq<
    char,
> {
    before + "`"@ + dotted(path) + "`"@ + after
}

fn path_message(before: &str, path: &Vec<String>, after: &str) -> (r: String)
    ensures
        r@ == about_path(before@, text::views(path@), after@),
{
    before.to_owned().concat("`").concat(words::join(path, ".").as_str()).concat("`").concat(after)
}

/// What a value that is no attribute set gives at `path`: nothing, a literal,
/// or a refusal.
pub open spec fn value_found(path: Seq<Seq<char>>, value: NixExpr) -> Option<Result<Lit, Seq<char>>> {
    match value {
        NixExpr::Quoted(s) => match literal_text(s) {
            Some(t) => Some(Ok(Lit::Str(t))),
            None => if needs_literal(path) {
                Some(
                    Err(about_path(""@, path, " must be a string literal (no interpolation)"@)),
                )
            } else {
                None
            },
        },
        NixExpr::Integer(Some(n)) => Some(Ok(Lit::Int(n))),
        NixExpr::Integer(None) => Some(
            Err(
                about_path(
                    "invalid integer at "@,
                    path,
                    ": number too large to fit in target type"@,
                ),
            ),
        ),
        NixExpr::OtherLiteral => if needs_literal(path) {
            Some(Err(about_path(""@, path, " must be a supported literal"@)))
        } else {
            None
        },
        NixExpr::Name(None) => None,
        NixExpr::Name(Some(n)) => if n == "true"@ {
            Some(Ok(Lit::Bool(true)))
        } else if n == "false"@ {
            Some(Ok(Lit::Bool(false)))
        } else if needs_literal(path) {
            Some(Err(about_path(""@, path, " must be a literal"@)))
        } else {
            None
        },
        _ => if needs_literal(path) {
            Some(Err(about_path(""@, path, " must be a literal"@)))
        } else {
            None
        },
    }
}

/// What one binding below `prefix` gives, attribute sets opened up.
pub open spec fn entry_found(e: NixEntry, prefix: Seq<Seq<char>>) -> Seq<Found>
    decreases e,
{
    match (e.path, e.value) {
        (Some(keys), Some(value)) => match path_names(keys) {
            Some(names) => match value {
                NixExpr::Attrs(inner) => all_found(inner, prefix + names),
                _ => match value_found(prefix + names, value) {
                    Some(what) => seq![Found { path: prefix + names, what }],
                    None => Seq::empty(),
                },
            },
            None => Seq::empty(),
        },
        _ => Seq::empty(),
    }
}

/// What the bindings of an attribute set below `prefix` give, in source order.
pub open spec fn all_found(entries: Seq<NixEntry>, prefix: Seq<Seq<char>>) -> Seq<Found>
    decreases entries,
{
    if entries.len() == 0 {
        Seq::empty()
    } else {
        all_found(entries.subrange(0, entries.len() - 1), prefix) + entry_found(
            entries[entries.len() - 1],
            prefix,
        )
    }
}

/// The literal bound to `path`, if there is one.
pub open spec fn value_at(list: Seq<Bound>, path: Seq<Seq<char>>) -> Option<Lit>
    decreases list.len(),
{
    if list.len() == 0 {
        None
    } else if list.last().path == path {
        Some(list.last().value)
    } else {
        value_at(list.drop_last(), path)
    }
}

/// The literal bound to `path`, if there is one.
pub fn find_value<'a>(list: &'a Vec<Binding>, path: &Vec<String>) -> (r: Option<&'a NixLit>)
    ensures
        match r {
            Some(v) => value_at(bounds(list@), text::views(path@)) == Some(v@),
            None => value_at(bounds(list@), text::views(path@)) is None,
        },
{
    let mut i: usize = list.len();
    let ghost all = bounds(list@);
    assert(all.take(i as int) == all);
    while i > 0
        invariant
            i <= list.len(),
            all == bounds(list@),
            value_at(all, text::views(path@)) == value_at(all.take(i as int), text::views(path@)),
        decreases i,
    {
        i = i - 1;
        assert(all.take(i + 1).drop_last() == all.take(i as int));
        if text::same_list(&list[i].path, path) {
            return Some(&list[i].value);
        }
    }
    None
}

/// No path is bound twice.
pub open spec fn distinct_paths(list: Seq<Bound>) -> bool {
    forall|i: int, j: int|
        0 <= i < j < list.len() ==> (#[trigger] list[i]).path != (#[trigger] list[j]).path
}

/// What `value_at` gives is bound to that path, and what is not bound to it
/// it does not give.
pub proof fn lemma_value_at(list: Seq<Bound>, path: Seq<Seq<char>>)
    ensures
        match value_at(list, path) {
            Some(v) => exists|i: int|
                0 <= i < list.len() && (#[trigger] list[i]).path == path && list[i].value == v,
            None => forall|i: int| 0 <= i < list.len() ==> (#[trigger] list[i]).path != path,
        },
    decreases list.len(),
{
    if list.len() > 0 {
        let front = list.drop_last();
        lemma_value_at(front, path);
        assert(list.last() == list[list.len() - 1]);
        assert(forall|i: int| 0 <= i < front.len() ==> front[i] == list[i]);
    }
}

/// Where no path is bound twice, each binding is found by its path.
pub proof fn lemma_found_by_path(list: Seq<Bound>, i: int)
    requires
        distinct_paths(list),
        0 <= i < list.len(),
    ensures
        value_at(list, list[i].path) == Some(list[i].value),
{
    lemma_value_at(list, list[i].path);
    assert(list[i].path == list[i].path);
}

/// The message on a path that is bound twice.
pub open spec fn bound_twice(path: Seq<Seq<char>>, previous: Lit) -> Seq<char> {
    about_path("duplicate Nix attr "@, path, " (previous value "@ + lit_debug(previous) + ")"@)
}

/// The literals of what was found, in order, or the first reason against it:
/// a refused value or a path that is bound a second time.
pub open spec fn literals(found: Seq<Found>) -> Result<Seq<Bound>, Seq<char>>
    decreases found.len(),
{
    if found.len() == 0 {
        Ok(Seq::empty())
    } else {
        match literals(found.drop_last()) {
            Err(e) => Err(e),
            Ok(list) => match found.last().what {
                Err(e) => Err(e),
                Ok(value) => match value_at(list, found.last().path) {
                    Some(previous) => Err(bound_twice(found.last().path, previous)),
                    None => Ok(list.push(Bound { path: found.last().path, value })),
                },
            },
        }
    }
}

/// A reason against the front part is the reason against the whole.
proof fn lemma_first_reason(a: Seq<Found>, b: Seq<Found>)
    requires
        literals(a) is Err,
    ensures
        literals(a + b) == literals(a),
    decreases b.len(),
{
    if b.len() == 0 {
        assert(a + b == a);
    } else {
        lemma_first_reason(a, b.drop_last());
        assert((a + b).drop_last() == a + b.drop_last());
    }
}

proof fn lemma_found_step(entries: Seq<NixEntry>, prefix: Seq<Seq<char>>, i: int)
    requires
        0 <= i < entries.len(),
    ensures
        all_found(entries.take(i + 1), prefix) == all_found(entries.take(i), prefix) + entry_found(
            entries[i],
            prefix,
        ),
{
    assert(entries.take(i + 1).subrange(0, i) == entries.take(i));
}

proof fn lemma_found_split(entries: Seq<NixEntry>, prefix: Seq<Seq<char>>, i: int)
    requires
        0 <= i <= entries.len(),
    ensures
        exists|rest: Seq<Found>|
            all_found(entries, prefix) == #[trigger] (all_found(entries.take(i), prefix) + rest),
    decreases entries.len() - i,
{
    if i == entries.len() {
        assert(entries.take(i) == entries);
        assert(all_found(entries, prefix) == all_found(entries.take(i), prefix) + Seq::<
            Found,
        >::empty());
    } else {
        lemma_found_split(entries, prefix, i + 1);
        lemma_found_step(entries, prefix, i);
        let rest = choose|rest: Seq<Found>|
            all_found(entries, prefix) == #[trigger] (all_found(entries.take(i + 1), prefix)
                + rest);
        assert(all_found(entries, prefix) == all_found(entries.take(i), prefix) + (entry_found(
            entries[i],
            prefix,
        ) + rest));
    }
}

/// A reason met while walking the first bindings of a set is the reason
/// against the whole set.
proof fn lemma_refused(pre: Seq<Found>, entries: Seq<NixEntry>, prefix: Seq<Seq<char>>, i: int)
    requires
        0 <= i <= entries.len(),
        literals(pre + all_found(entries.take(i), prefix)) is Err,
    ensures
        literals(pre + all_found(entries, prefix)) == literals(
            pre + all_found(entries.take(i), prefix),
        ),
{
    lemma_found_split(entries, prefix, i);
    let rest = choose|rest: Seq<Found>|
        all_found(entries, prefix) == #[trigger] (all_found(entries.take(i), prefix) + rest);
    lemma_first_reason(pre + all_found(entries.take(i), prefix), rest);
    assert(pre + all_found(entries, prefix) == (pre + all_found(entries.take(i), prefix)) + rest);
}

/// Adds a literal, unless its path is bound already.
fn insert_lit(out: &mut Vec<Binding>, path: Vec<String>, value: NixLit) -> (r: Result<(), String>)
    ensures
        match (value_at(bounds(old(out)@), text::views(path@)), r) {
            (Some(previous), Err(e)) => {
                &&& e@ == bound_twice(text::views(path@), previous)
                &&& bounds(final(out)@) == bounds(old(out)@)
            },
            (None, Ok(_)) => bounds(final(out)@) == bounds(old(out)@).push(
                Bound { path: text::views(path@), value: value@ },
            ),
            _ => false,
        },
{
    match find_value(out, &path) {
        Some(previous) => {
            let tail = " (previous value ".to_owned().concat(previous.debug_text().as_str()).concat(
                ")",
            );
            Err(path_message("duplicate Nix attr ", &path, tail.as_str()))
        },
        None => {
            out.push(Binding { path, value });
            assert(bounds(out@) == bounds(old(out)@).push(
                Bound { path: text::views(path@), value: value@ },
            ));
            Ok(())
        },
    }
}

/// What a value that is no attribute set gives at `path`.
fn read_value(path: &Vec<String>, value: ExprParts, Ghost(tree): Ghost<NixExpr>) -> (r: Option<
    Result<NixLit, String>,
>)
    requires
        is_taken_apart(value, tree),
        !(value is Attrs),
    ensures
        match (r, value_found(text::views(path@), tree)) {
            (Some(Ok(a)), Some(Ok(b))) => a@ == b,
            (Some(Err(a)), Some(Err(b))) => a@ == b,
            (None, None) => true,
            _ => false,
        },
{
    match value {
        ExprParts::Quoted(s) => match literal_string(&s) {
            Some(t) => Some(Ok(NixLit::Str(t))),
            None => if requires_literal(path) {
                Some(Err(path_message("", path, " must be a string literal (no interpolation)")))
            } else {
                None
            },
        },
        ExprParts::Integer(Some(n)) => Some(Ok(NixLit::Int(n))),
        ExprParts::Integer(None) => Some(
            Err(
                path_message(
                    "invalid integer at ",
                    path,
                    ": number too large to fit in target type",
                ),
            ),
        ),
        ExprParts::OtherLiteral => if requires_literal(path) {
            Some(Err(path_message("", path, " must be a supported literal")))
        } else {
            None
        },
        ExprParts::Name(None) => None,
        ExprParts::Name(Some(n)) => if text::same(n.as_str(), "true") {
            Some(Ok(NixLit::Bool(true)))
        } else if text::same(n.as_str(), "false") {
            Some(Ok(NixLit::Bool(false)))
        } else if requires_literal(path) {
            Some(Err(path_message("", path, " must be a literal")))
        } else {
            None
        },
        _ => if requires_literal(path) {
            Some(Err(path_message("", path, " must be a literal")))
        } else {
            None
        },
    }
}

/// The names and the value of a binding that has both.
fn open_entry(e: &rnix::ast::AttrpathValue) -> (r: Option<(Vec<String>, rnix::ast::Expr)>)
    ensures
        match (entry_tree(*e).path, entry_tree(*e).value) {
            (Some(keys), Some(value)) => match (path_names(keys), r) {
                (Some(names), Some((v, x))) => text::views(v@) == names && expr_tree(x) == value,
                (None, None) => true,
                _ => false,
            },
            _ => r is None,
        },
{
    let attrs = entry_path(e)?;
    let names = attr_path_idents(&attrs, Ghost(entry_tree(*e).path->0))?;
    let value = entry_value(e)?;
    Some((names, value))
}

/// Adds the literals below `prefix` to `out`, which holds those of `pre`.
fn walk_attrset(
    set: &rnix::ast::AttrSet,
    prefix: &Vec<String>,
    out: &mut Vec<Binding>,
    Ghost(pre): Ghost<Seq<Found>>,
) -> (r: Result<(), String>)
    requires
        literals(pre) == Ok::<Seq<Bound>, Seq<char>>(bounds(old(out)@)),
    ensures
        match (r, literals(pre + all_found(set_tree(*set), text::views(prefix@)))) {
            (Ok(_), Ok(list)) => bounds(final(out)@) == list,
            (Err(a), Err(b)) => a@ == b,
            _ => false,
        },
    decreases set_tree(*set),
{
    let ghost tree = set_tree(*set);
    let ghost at = text::views(prefix@);
    let entries = set_entries(set);
    assert(pre + all_found(tree.take(0), at) == pre);
    for i in 0..entries.len()
        invariant
            tree == set_tree(*set),
            at == text::views(prefix@),
            entries@.len() == tree.len(),
            forall|j: int|
                0 <= j < entries@.len() ==> entry_tree(#[trigger] entries@[j]) == tree[j],
            literals(pre + all_found(tree.take(i as int), at)) == Ok::<Seq<Bound>, Seq<char>>(
                bounds(out@),
            ),
    {
        let ghost so_far = pre + all_found(tree.take(i as int), at);
        let ghost next = pre + all_found(tree.take(i + 1), at);
        let ghost e = tree[i as int];
        proof {
            lemma_found_step(tree, at, i as int);
        }
        assert(next == so_far + entry_found(e, at));
        assert(entry_tree(entries@[i as int]) == e);
        assert(entry_found(e, at).len() == 0 ==> next == so_far);
        if let Some((mut names, value)) = open_entry(&entries[i]) {
            let ghost given = text::views(names@);
            let mut full = text::copy_all(prefix);
            full.append(&mut names);
            assert(text::views(full@) == at + given);
            let ghost value_tree = e.value->0;
            match open_expr(value) {
                ExprParts::Attrs(inner) => {
                    assert(entry_found(e, at) == all_found(set_tree(inner), at + given));
                    assert(decreases_to!(tree => tree[i as int]));
                    assert(decreases_to!(e => e.value->0));
                    if let Err(m) = walk_attrset(&inner, &full, out, Ghost(so_far)) {
                        proof {
                            lemma_refused(pre, tree, at, i + 1);
                        }
                        return Err(m);
                    }
                },
                parts => {
                    match read_value(&full, parts, Ghost(value_tree)) {
                        None => {},
                        Some(Err(m)) => {
                            assert(next.drop_last() == so_far);
                            proof {
                                lemma_refused(pre, tree, at, i + 1);
                            }
                            return Err(m);
                        },
                        Some(Ok(lit)) => {
                            assert(next.drop_last() == so_far);
                            if let Err(m) = insert_lit(out, full, lit) {
                                proof {
                                    lemma_refused(pre, tree, at, i + 1);
                                }
                                return Err(m);
                            }
                        },
                    }
                },
            }
        }
    }
    assert(tree.take(tree.len() as int) == tree);
    Ok(())
}

/// The outermost attribute set, below lambdas, `with` and `let … in`.
pub open spec fn top_set(e: NixExpr) -> Option<Seq<NixEntry>>
    decreases e,
{
    match e {
        NixExpr::Attrs(s) => Some(s),
        NixExpr::Lambda(Some(b)) => top_set(*b),
        NixExpr::With(Some(b)) => top_set(*b),
        NixExpr::LetIn(Some(b)) => top_set(*b),
        _ => None,
    }
}

fn top_level_attrset(e: rnix::ast::Expr) -> (r: Option<rnix::ast::AttrSet>)
    ensures
        match r {
            Some(s) => top_set(expr_tree(e)) == Some(set_tree(s)),
            None => top_set(expr_tree(e)) is None,
        },
    decreases expr_tree(e),
{
    match open_expr(e) {
        ExprParts::Attrs(s) => Some(s),
        ExprParts::Lambda(Some(b)) => top_level_attrset(b),
        ExprParts::With(Some(b)) => top_level_attrset(b),
        ExprParts::LetIn(Some(b)) => top_level_attrset(b),
        _ => None,
    }
}

/// The bindings of a list whose path starts with `neals`, without that name.
pub open spec fn under_neals(list: Seq<Bound>) -> Seq<Bound>
    decreases list.len(),
{
    if list.len() == 0 {
        Seq::empty()
    } else {
        let rest = under_neals(list.drop_last());
        let last = list.last();
        if last.path.len() > 0 && last.path[0] == "neals"@ {
            rest.push(Bound { path: last.path.skip(1), value: last.value })
        } else {
            rest
        }
    }
}

/// The literals below `neals` in an expression, in source order, or the first
/// reason against the expression.
pub open spec fn neals_literals(e: Option<NixExpr>) -> Result<Seq<Bound>, Seq<char>> {
    match e {
        None => Ok(Seq::empty()),
        Some(expr) => match top_set(expr) {
            None => Ok(Seq::empty()),
            Some(set) => match literals(all_found(set, Seq::empty())) {
                Err(m) => Err(m),
                Ok(list) => Ok(under_neals(list)),
            },
        },
    }
}

fn keep_under_neals(list: &Vec<Binding>) -> (r: Vec<Binding>)
    ensures
        bounds(r@) == under_neals(bounds(list@)),
{
    let ghost all = bounds(list@);
    let mut r: Vec<Binding> = Vec::new();
    for i in 0..list.len()
        invariant
            all == bounds(list@),
            bounds(r@) == under_neals(all.take(i as int)),
    {
        assert(all.take(i + 1).drop_last() == all.take(i as int));
        let b = &list[i];
        if b.path.len() > 0 && text::same(b.path[0].as_str(), "neals") {
            let mut path: Vec<String> = Vec::new();
            let ghost given = b@.path;
            for j in 1..b.path.len()
                invariant
                    b.path.len() >= 1,
                    given == text::views(b.path@),
                    text::views(path@) == given.subrange(1, j as int),
            {
                let ghost before = text::views(path@);
                path.push(b.path[j].clone());
                assert(text::views(path@) == before.push(given[j as int]));
                assert(given.subrange(1, j + 1) == given.subrange(1, j as int).push(
                    given[j as int],
                ));
            }
            assert(text::views(path@) == given.skip(1));
            let ghost before = bounds(r@);
            let kept = Binding { path, value: b.value.copied() };
            r.push(kept);
            assert(bounds(r@) == before.push(kept@));
        }
    }
    assert(all.take(all.len() as int) == all);
    r
}

proof fn lemma_literals_distinct(found: Seq<Found>)
    ensures
        literals(found) matches Ok(list) ==> distinct_paths(list),
    decreases found.len(),
{
    if found.len() > 0 {
        lemma_literals_distinct(found.drop_last());
        if let Ok(list) = literals(found.drop_last()) {
            lemma_value_at(list, found.last().path);
        }
    }
}

proof fn lemma_under_neals(list: Seq<Bound>)
    requires
        distinct_paths(list),
    ensures
        distinct_paths(under_neals(list)),
        forall|k: int|
            0 <= k < under_neals(list).len() ==> exists|i: int|
                0 <= i < list.len() && (#[trigger] list[i]).path == seq!["neals"@] + (
                #[trigger] under_neals(list)[k]).path,
    decreases list.len(),
{
    if list.len() > 0 {
        let front = list.drop_last();
        let last = list.last();
        assert(forall|i: int| 0 <= i < front.len() ==> front[i] == list[i]);
        assert(list[list.len() - 1] == last);
        lemma_under_neals(front);
        let r = under_neals(list);
        if last.path.len() > 0 && last.path[0] == "neals"@ {
            assert(last.path == seq!["neals"@] + last.path.skip(1));
            assert forall|k: int| 0 <= k < r.len() implies exists|i: int|
                0 <= i < list.len() && (#[trigger] list[i]).path == seq!["neals"@] + (
                #[trigger] r[k]).path by {
                if k < r.len() - 1 {
                    assert(r[k] == under_neals(front)[k]);
                    let i = choose|i: int|
                        0 <= i < front.len() && (#[trigger] front[i]).path == seq!["neals"@]
                            + under_neals(front)[k].path;
                    assert(list[i].path == seq!["neals"@] + r[k].path);
                }
            }
            assert forall|a: int, b: int| 0 <= a < b < r.len() implies (#[trigger] r[a]).path != (
            #[trigger] r[b]).path by {
                assert(r[a] == under_neals(front)[a]);
                if b < r.len() - 1 {
                    assert(r[b] == under_neals(front)[b]);
                }
            }
        } else {
            assert forall|k: int| 0 <= k < r.len() implies exists|i: int|
                0 <= i < list.len() && (#[trigger] list[i]).path == seq!["neals"@] + (
                #[trigger] r[k]).path by {
                let i = choose|i: int|
                    0 <= i < front.len() && (#[trigger] front[i]).path == seq!["neals"@] + r[k].path;
                assert(list[i].path == seq!["neals"@] + r[k].path);
            }
        }
    }
}

/// No path occurs twice among the literals of an expression.
pub proof fn neals_literals_distinct(e: Option<NixExpr>)
    ensures
        neals_literals(e) matches Ok(list) ==> distinct_paths(list),
{
    if let Some(expr) = e {
        if let Some(set) = top_set(expr) {
            lemma_literals_distinct(all_found(set, Seq::empty()));
            if let Ok(list) = literals(all_found(set, Seq::empty())) {
                lemma_under_neals(list);
            }
        }
    }
}

/// The reason against a source that is longer than the parser can count.
pub open spec fn too_long() -> Seq<char> {
    "source is too long"@
}

/// The literals below `neals` in a source text, in source order, or the first
/// reason against the text.
pub open spec fn source_literals(src: Seq<char>) -> Result<Seq<Bound>, Seq<char>> {
    if encode_utf8(src).len() <= u32::MAX {
        neals_literals(source_tree(src))
    } else {
        Err(too_long())
    }
}

/// Reads the literals below `neals` from a source text: attribute paths
/// without the leading `neals`, each at most once, in source order.
pub fn collect_neals_literals(src: &str) -> (r: Result<Vec<Binding>, String>)
    ensures
        match r {
            Ok(list) => {
                &&& source_literals(src@) == Ok::<Seq<Bound>, Seq<char>>(bounds(list@))
                &&& distinct_paths(bounds(list@))
            },
            Err(m) => source_literals(src@) == Err::<Seq<Bound>, Seq<char>>(m@),
        },
{
    if src.as_bytes().len() > 0xffff_ffff {
        return Err("source is too long".to_owned());
    }
    proof {
        neals_literals_distinct(source_tree(src@));
    }
    let mut out: Vec<Binding> = Vec::new();
    let ghost none = Seq::<Found>::empty();
    assert(bounds(out@) == Seq::<Bound>::empty());
    let Some(expr) = parse_source(src) else {
        return Ok(out);
    };
    let Some(set) = top_level_attrset(expr) else {
        return Ok(out);
    };
    let prefix: Vec<String> = Vec::new();
    assert(text::views(prefix@) == Seq::<Seq<char>>::empty());
    assert(none + all_found(set_tree(set), Seq::empty()) == all_found(set_tree(set), Seq::empty()));
    match walk_attrset(&set, &prefix, &mut out, Ghost(none)) {
        Ok(_) => Ok(keep_under_neals(&out)),
        Err(m) => Err(m),
    }
}

} // verus!
