//! The two grammar front-ends. Each parses a build script with its
//! tree-sitter grammar into a `SyntaxTree` and walks it into the statement
//! list that `dsl::extract` reads. The walks are stated as spec functions
//! over the tree's view and the executable walks are proved equal to them.
use vstd::prelude::*;
use crate::dsl::{
    extract, extraction_result, literal_value, run, string_literal_value, stmt_view, stmts_view, args_view,
    arg_view, dsl_view, ArgView, CallArg, DslView, Extraction, Stmt, StmtView, state_view,
};
use crate::gradle::{AllayDsl, opt_string};
use crate::text::{ends_with, same_text, str_ends_with};

verus! {

/// One node of a syntax tree: its grammar kind, the source text it spans,
/// and the positions of its children in the tree's node list.
#[derive(Debug)]
pub struct SyntaxNode {
    pub kind: String,
    pub text: String,
    pub children: Vec<usize>,
}

/// A syntax tree as a node list; the root is the first node.
#[derive(Debug)]
pub struct SyntaxTree {
    pub nodes: Vec<SyntaxNode>,
}

pub type NodeView = (Seq<char>, Seq<char>, Seq<int>);

pub open spec fn node_view(n: SyntaxNode) -> NodeView {
    (n.kind@, n.text@, n.children@.map_values(|c: usize| c as int))
}

pub open spec fn tree_view(t: SyntaxTree) -> Seq<NodeView> {
    t.nodes@.map_values(|n: SyntaxNode| node_view(n))
}

/// The syntax tree tree-sitter's Kotlin grammar gives for a text, as a node
/// list in breadth-first order.
pub uninterp spec fn kotlin_tree_of(content: Seq<char>) -> Option<Seq<NodeView>>;

/// The syntax tree tree-sitter's Groovy grammar gives for a text, as a node
/// list in breadth-first order.
pub uninterp spec fn groovy_tree_of(content: Seq<char>) -> Option<Seq<NodeView>>;

pub open spec fn opt_tree(t: Option<SyntaxTree>) -> Option<Seq<NodeView>> {
    match t {
        Some(t) => Some(tree_view(t)),
        None => None,
    }
}

/// Relies on `tree_sitter::Parser::set_language` and `Parser::parse` with the
/// Kotlin grammar, and `Node::kind`, `Node::byte_range` and `Node::children`:
/// the parsed tree, node by node in breadth-first order.
#[verifier::external_body]
fn kotlin_tree(content: &str) -> (r: Option<SyntaxTree>)
    ensures
        opt_tree(r) == kotlin_tree_of(content@),
{
    let mut parser = tree_sitter::Parser::new();
    parser.set_language(&tree_sitter_kotlin_ng::LANGUAGE.into()).ok()?;
    let tree = parser.parse(content, None)?;
    let (mut queue, mut nodes, mut i) = (vec![tree.root_node()], Vec::new(), 0);
    while i < queue.len() {
        let (n, first) = (queue[i], queue.len());
        queue.extend(n.children(&mut n.walk()));
        let text = content.get(n.byte_range()).unwrap_or("").to_string();
        nodes.push(SyntaxNode { kind: n.kind().to_string(), text, children: (first..queue.len()).collect() });
        i += 1;
    }
    Some(SyntaxTree { nodes })
}

/// Relies on `tree_sitter::Parser::set_language` and `Parser::parse` with the
/// Groovy grammar, and `Node::kind`, `Node::byte_range` and `Node::children`:
/// the parsed tree, node by node in breadth-first order.
#[verifier::external_body]
fn groovy_tree(content: &str) -> (r: Option<SyntaxTree>)
    ensures
        opt_tree(r) == groovy_tree_of(content@),
{
    let mut parser = tree_sitter::Parser::new();
    parser.set_language(&tree_sitter_groovy::LANGUAGE.into()).ok()?;
    let tree = parser.parse(content, None)?;
    let (mut queue, mut nodes, mut i) = (vec![tree.root_node()], Vec::new(), 0);
    while i < queue.len() {
        let (n, first) = (queue[i], queue.len());
        queue.extend(n.children(&mut n.walk()));
        let text = content.get(n.byte_range()).unwrap_or("").to_string();
        nodes.push(SyntaxNode { kind: n.kind().to_string(), text, children: (first..queue.len()).collect() });
        i += 1;
    }
    Some(SyntaxTree { nodes })
}

/// How deep a walk descends into a syntax tree.
pub const MAX_DEPTH: u32 = 256;

// ---------------------------------------------------------------- access

pub open spec fn kind_at(t: Seq<NodeView>, n: int) -> Seq<char> {
    if 0 <= n < t.len() { t[n].0 } else { Seq::empty() }
}

pub open spec fn text_at(t: Seq<NodeView>, n: int) -> Seq<char> {
    if 0 <= n < t.len() { t[n].1 } else { Seq::empty() }
}

pub open spec fn kids_at(t: Seq<NodeView>, n: int) -> Seq<int> {
    if 0 <= n < t.len() { t[n].2 } else { Seq::empty() }
}

fn kind_exec(t: &SyntaxTree, n: usize) -> (r: String)
    ensures
        r@ == kind_at(tree_view(*t), n as int),
{
    if n < t.nodes.len() {
        t.nodes[n].kind.clone()
    } else {
        let e = String::new();
        assert(e@ =~= Seq::<char>::empty());
        e
    }
}

fn text_exec(t: &SyntaxTree, n: usize) -> (r: String)
    ensures
        r@ == text_at(tree_view(*t), n as int),
{
    if n < t.nodes.len() {
        t.nodes[n].text.clone()
    } else {
        let e = String::new();
        assert(e@ =~= Seq::<char>::empty());
        e
    }
}

fn kid_count(t: &SyntaxTree, n: usize) -> (r: usize)
    ensures
        r == kids_at(tree_view(*t), n as int).len(),
{
    if n < t.nodes.len() {
        t.nodes[n].children.len()
    } else {
        0
    }
}

fn kid(t: &SyntaxTree, n: usize, i: usize) -> (r: usize)
    requires
        i < kids_at(tree_view(*t), n as int).len(),
    ensures
        r as int == kids_at(tree_view(*t), n as int)[i as int],
{
    t.nodes[n].children[i]
}

fn is_kind(t: &SyntaxTree, n: usize, k: &str) -> (r: bool)
    ensures
        r == (kind_at(tree_view(*t), n as int) == k@),
{
    let s = kind_exec(t, n);
    same_text(s.as_str(), k)
}

/// Kotlin (`kotlin`) or Groovy identifiers.
pub open spec fn is_id(kotlin: bool, k: Seq<char>) -> bool {
    k == "identifier"@ || (kotlin && k == "simple_identifier"@)
}

/// String literal kinds of the grammar.
pub open spec fn is_string(kotlin: bool, k: Seq<char>) -> bool {
    if kotlin {
        k == "string_literal"@ || k == "line_string_literal"@ || k == "multiline_string_literal"@
    } else {
        k == "string_literal"@ || k == "character_literal"@
    }
}

fn is_id_exec(kotlin: bool, k: &str) -> (r: bool)
    ensures
        r == is_id(kotlin, k@),
{
    same_text(k, "identifier") || (kotlin && same_text(k, "simple_identifier"))
}

fn is_string_exec(kotlin: bool, k: &str) -> (r: bool)
    ensures
        r == is_string(kotlin, k@),
{
    if kotlin {
        same_text(k, "string_literal") || same_text(k, "line_string_literal") || same_text(k, "multiline_string_literal")
    } else {
        same_text(k, "string_literal") || same_text(k, "character_literal")
    }
}

// ---------------------------------------------------------------- dotted paths

/// The identifiers under node `n`, depth first.
pub open spec fn id_parts(kotlin: bool, t: Seq<NodeView>, n: int, fuel: nat) -> Seq<Seq<char>>
    decreases fuel, 0int, 0int,
{
    if fuel == 0 { Seq::empty() } else { id_parts_from(kotlin, t, n, 0, (fuel - 1) as nat) }
}

pub open spec fn id_parts_from(kotlin: bool, t: Seq<NodeView>, p: int, i: int, fuel: nat) -> Seq<Seq<char>>
    decreases fuel, 1int, kids_at(t, p).len() - i,
{
    if i < 0 || i >= kids_at(t, p).len() {
        Seq::empty()
    } else {
        let c = kids_at(t, p)[i];
        (if is_id(kotlin, kind_at(t, c)) {
            seq![text_at(t, c)]
        } else {
            id_parts(kotlin, t, c, fuel)
        }) + id_parts_from(kotlin, t, p, i + 1, fuel)
    }
}

fn id_parts_exec(kotlin: bool, t: &SyntaxTree, n: usize, fuel: u32) -> (r: Vec<String>)
    ensures
        r.deep_view() == id_parts(kotlin, tree_view(*t), n as int, fuel as nat),
    decreases fuel, 0int, 0int,
{
    if fuel == 0 {
        let r: Vec<String> = Vec::new();
        assert(r.deep_view() =~= Seq::<Seq<char>>::empty());
        r
    } else {
        id_parts_from_exec(kotlin, t, n, 0, fuel - 1)
    }
}

fn id_parts_from_exec(kotlin: bool, t: &SyntaxTree, p: usize, i: usize, fuel: u32) -> (r: Vec<String>)
    ensures
        r.deep_view() == id_parts_from(kotlin, tree_view(*t), p as int, i as int, fuel as nat),
    decreases fuel, 1int, kids_at(tree_view(*t), p as int).len() - i,
{
    if i >= kid_count(t, p) {
        let r: Vec<String> = Vec::new();
        assert(r.deep_view() =~= Seq::<Seq<char>>::empty());
        return r;
    }
    let c = kid(t, p, i);
    let k = kind_exec(t, c);
    let mut head: Vec<String> = if is_id_exec(kotlin, k.as_str()) {
        let mut h: Vec<String> = Vec::new();
        h.push(text_exec(t, c));
        assert(h.deep_view() =~= seq![text_at(tree_view(*t), c as int)]);
        h
    } else {
        id_parts_exec(kotlin, t, c, fuel)
    };
    let mut rest = id_parts_from_exec(kotlin, t, p, i + 1, fuel);
    let ghost h0 = head.deep_view();
    let ghost r0 = rest.deep_view();
    head.append(&mut rest);
    assert(head.deep_view() =~= h0 + r0);
    head
}

/// Path segments joined by dots.
pub open spec fn join_dots(parts: Seq<Seq<char>>) -> Seq<char>
    decreases parts.len(),
{
    if parts.len() == 0 {
        Seq::empty()
    } else if parts.len() == 1 {
        parts[0]
    } else {
        join_dots(parts.drop_last()) + "."@ + parts.last()
    }
}

fn join_dots_exec(parts: &Vec<String>) -> (r: String)
    ensures
        r@ == join_dots(parts.deep_view()),
{
    let mut out = String::new();
    let mut i: usize = 0;
    assert(out@ =~= join_dots(parts.deep_view().subrange(0, 0)));
    while i < parts.len()
        invariant
            i <= parts@.len(),
            out@ == join_dots(parts.deep_view().subrange(0, i as int)),
        decreases parts@.len() - i,
    {
        let ghost pre = parts.deep_view().subrange(0, i + 1);
        assert(pre.drop_last() =~= parts.deep_view().subrange(0, i as int));
        if i > 0 {
            out.append(".");
        }
        out.append(parts[i].as_str());
        proof {
            if i == 0 {
                assert(out@ =~= pre[0]);
            }
        }
        i = i + 1;
    }
    assert(parts.deep_view().subrange(0, parts@.len() as int) =~= parts.deep_view());
    out
}

/// A dotted path: the node's own text when it is an identifier, else its
/// identifiers joined by dots.
pub open spec fn dotted(kotlin: bool, t: Seq<NodeView>, n: int) -> Seq<char> {
    if is_id(kotlin, kind_at(t, n)) {
        text_at(t, n)
    } else {
        join_dots(id_parts(kotlin, t, n, MAX_DEPTH as nat))
    }
}

fn dotted_exec(kotlin: bool, t: &SyntaxTree, n: usize) -> (r: String)
    ensures
        r@ == dotted(kotlin, tree_view(*t), n as int),
{
    let k = kind_exec(t, n);
    if is_id_exec(kotlin, k.as_str()) {
        text_exec(t, n)
    } else {
        let parts = id_parts_exec(kotlin, t, n, MAX_DEPTH);
        join_dots_exec(&parts)
    }
}

// ---------------------------------------------------------------- values

/// A scalar value under a node: a string, number or boolean, depth first.
pub open spec fn scalar(kotlin: bool, t: Seq<NodeView>, n: int, fuel: nat) -> Option<Seq<char>>
    decreases fuel, 0int, 0int,
{
    let k = kind_at(t, n);
    if fuel == 0 {
        None
    } else if is_string(kotlin, k) {
        literal_value(text_at(t, n))
    } else if (kotlin && (k == "boolean_literal"@ || k == "integer_literal"@ || k == "real_literal"@)) || (!kotlin
        && (k == "decimal_integer_literal"@ || k == "decimal_floating_point_literal"@)) {
        Some(text_at(t, n))
    } else if !kotlin && (k == "true"@ || k == "false"@) {
        Some(k)
    } else if is_id(kotlin, k) {
        if text_at(t, n) == "true"@ || text_at(t, n) == "false"@ { Some(text_at(t, n)) } else { None }
    } else {
        scalar_from(kotlin, t, n, 0, (fuel - 1) as nat)
    }
}

/// The first scalar among the children of `p` from position `i` on.
pub open spec fn scalar_from(kotlin: bool, t: Seq<NodeView>, p: int, i: int, fuel: nat) -> Option<Seq<char>>
    decreases fuel, 1int, kids_at(t, p).len() - i,
{
    if i < 0 || i >= kids_at(t, p).len() {
        None
    } else {
        match scalar(kotlin, t, kids_at(t, p)[i], fuel) {
            Some(v) => Some(v),
            None => scalar_from(kotlin, t, p, i + 1, fuel),
        }
    }
}

fn scalar_exec(kotlin: bool, t: &SyntaxTree, n: usize, fuel: u32) -> (r: Option<String>)
    ensures
        opt_string(r) == scalar(kotlin, tree_view(*t), n as int, fuel as nat),
    decreases fuel, 0int, 0int,
{
    if fuel == 0 {
        return None;
    }
    let k = kind_exec(t, n);
    let ks = k.as_str();
    if is_string_exec(kotlin, ks) {
        let txt = text_exec(t, n);
        string_literal_value(txt.as_str())
    } else if (kotlin && (same_text(ks, "boolean_literal") || same_text(ks, "integer_literal") || same_text(
        ks,
        "real_literal",
    ))) || (!kotlin && (same_text(ks, "decimal_integer_literal") || same_text(ks, "decimal_floating_point_literal"))) {
        Some(text_exec(t, n))
    } else if !kotlin && (same_text(ks, "true") || same_text(ks, "false")) {
        Some(k)
    } else if is_id_exec(kotlin, ks) {
        let txt = text_exec(t, n);
        if same_text(txt.as_str(), "true") || same_text(txt.as_str(), "false") {
            Some(txt)
        } else {
            None
        }
    } else {
        scalar_from_exec(kotlin, t, n, 0, fuel - 1)
    }
}

fn scalar_from_exec(kotlin: bool, t: &SyntaxTree, p: usize, i: usize, fuel: u32) -> (r: Option<String>)
    ensures
        opt_string(r) == scalar_from(kotlin, tree_view(*t), p as int, i as int, fuel as nat),
    decreases fuel, 1int, kids_at(tree_view(*t), p as int).len() - i,
{
    if i >= kid_count(t, p) {
        return None;
    }
    let c = kid(t, p, i);
    match scalar_exec(kotlin, t, c, fuel) {
        Some(v) => Some(v),
        None => scalar_from_exec(kotlin, t, p, i + 1, fuel),
    }
}

/// The values of the string literals under a node, depth first.
pub open spec fn strings(kotlin: bool, t: Seq<NodeView>, n: int, fuel: nat) -> Seq<Seq<char>>
    decreases fuel, 0int, 0int,
{
    if fuel == 0 {
        Seq::empty()
    } else if is_string(kotlin, kind_at(t, n)) {
        match literal_value(text_at(t, n)) {
            Some(v) => seq![v],
            None => Seq::empty(),
        }
    } else {
        strings_from(kotlin, t, n, 0, (fuel - 1) as nat)
    }
}

pub open spec fn strings_from(kotlin: bool, t: Seq<NodeView>, p: int, i: int, fuel: nat) -> Seq<Seq<char>>
    decreases fuel, 1int, kids_at(t, p).len() - i,
{
    if i < 0 || i >= kids_at(t, p).len() {
        Seq::empty()
    } else {
        strings(kotlin, t, kids_at(t, p)[i], fuel) + strings_from(kotlin, t, p, i + 1, fuel)
    }
}

fn strings_exec(kotlin: bool, t: &SyntaxTree, n: usize, fuel: u32) -> (r: Vec<String>)
    ensures
        r.deep_view() == strings(kotlin, tree_view(*t), n as int, fuel as nat),
    decreases fuel, 0int, 0int,
{
    let mut r: Vec<String> = Vec::new();
    if fuel == 0 {
        assert(r.deep_view() =~= Seq::<Seq<char>>::empty());
        return r;
    }
    let k = kind_exec(t, n);
    if is_string_exec(kotlin, k.as_str()) {
        let txt = text_exec(t, n);
        match string_literal_value(txt.as_str()) {
            Some(v) => {
                r.push(v);
                assert(r.deep_view() =~= seq![r@[0]@]);
            },
            None => {
                assert(r.deep_view() =~= Seq::<Seq<char>>::empty());
            },
        }
        r
    } else {
        strings_from_exec(kotlin, t, n, 0, fuel - 1)
    }
}

fn strings_from_exec(kotlin: bool, t: &SyntaxTree, p: usize, i: usize, fuel: u32) -> (r: Vec<String>)
    ensures
        r.deep_view() == strings_from(kotlin, tree_view(*t), p as int, i as int, fuel as nat),
    decreases fuel, 1int, kids_at(tree_view(*t), p as int).len() - i,
{
    if i >= kid_count(t, p) {
        let r: Vec<String> = Vec::new();
        assert(r.deep_view() =~= Seq::<Seq<char>>::empty());
        return r;
    }
    let c = kid(t, p, i);
    let mut head = strings_exec(kotlin, t, c, fuel);
    let mut rest = strings_from_exec(kotlin, t, p, i + 1, fuel);
    let ghost h0 = head.deep_view();
    let ghost r0 = rest.deep_view();
    head.append(&mut rest);
    assert(head.deep_view() =~= h0 + r0);
    head
}

/// The position of the first child of `p` from `i` on whose kind is `a` or
/// `b`, or -1.
pub open spec fn first_kind(t: Seq<NodeView>, p: int, i: int, a: Seq<char>, b: Seq<char>) -> int
    decreases kids_at(t, p).len() - i,
{
    if i < 0 || i >= kids_at(t, p).len() {
        -1
    } else if kind_at(t, kids_at(t, p)[i]) == a || kind_at(t, kids_at(t, p)[i]) == b {
        i
    } else {
        first_kind(t, p, i + 1, a, b)
    }
}

fn first_kind_exec(t: &SyntaxTree, p: usize, i: usize, a: &str, b: &str) -> (r: Option<usize>)
    ensures
        match r {
            Some(j) => first_kind(tree_view(*t), p as int, i as int, a@, b@) == j as int && j < kids_at(tree_view(*t), p as int).len(),
            None => first_kind(tree_view(*t), p as int, i as int, a@, b@) == -1,
        },
    decreases kids_at(tree_view(*t), p as int).len() - i,
{
    if i >= kid_count(t, p) {
        return None;
    }
    let c = kid(t, p, i);
    if is_kind(t, c, a) || is_kind(t, c, b) {
        Some(i)
    } else {
        first_kind_exec(t, p, i + 1, a, b)
    }
}

// ---------------------------------------------------------------- calls

fn single_arg(a: CallArg) -> (r: Vec<CallArg>)
    ensures
        args_view(r@) == seq![arg_view(a)],
{
    let mut r: Vec<CallArg> = Vec::new();
    r.push(a);
    assert(args_view(r@) =~= seq![arg_view(a)]);
    r
}

fn no_args() -> (r: Vec<CallArg>)
    ensures
        args_view(r@) == Seq::<ArgView>::empty(),
{
    let r: Vec<CallArg> = Vec::new();
    assert(args_view(r@) =~= Seq::<ArgView>::empty());
    r
}

fn join_args(mut a: Vec<CallArg>, mut b: Vec<CallArg>) -> (r: Vec<CallArg>)
    ensures
        args_view(r@) == args_view(a@) + args_view(b@),
{
    let ghost a0 = args_view(a@);
    let ghost b0 = args_view(b@);
    a.append(&mut b);
    assert(args_view(a@) =~= a0 + b0);
    a
}

/// One value argument of a Kotlin call.
pub open spec fn kt_value_argument(t: Seq<NodeView>, n: int) -> Option<ArgView> {
    let eq = first_kind(t, n, 0, "="@, "="@);
    if eq > 0 {
        match scalar_from(true, t, n, eq + 1, MAX_DEPTH as nat) {
            Some(v) => Some(ArgView::Named(text_at(t, kids_at(t, n)[0]), v)),
            None => None,
        }
    } else {
        let nav = first_kind(t, n, 0, "navigation_expression"@, "navigation_expression"@);
        if nav >= 0 {
            Some(ArgView::Ref(dotted(true, t, kids_at(t, n)[nav])))
        } else {
            match scalar_from(true, t, n, 0, MAX_DEPTH as nat) {
                Some(v) => Some(ArgView::Positional(v)),
                None => {
                    let ce = first_kind(t, n, 0, "call_expression"@, "call_expression"@);
                    if ce >= 0 {
                        Some(ArgView::Ref(text_at(t, kids_at(t, n)[ce])))
                    } else {
                        None
                    }
                },
            }
        }
    }
}

fn kt_value_argument_exec(t: &SyntaxTree, n: usize) -> (r: Option<CallArg>)
    ensures
        match r {
            Some(a) => kt_value_argument(tree_view(*t), n as int) == Some(arg_view(a)),
            None => kt_value_argument(tree_view(*t), n as int) is None,
        },
{
    let cnt = kid_count(t, n);
    let eq = first_kind_exec(t, n, 0, "=", "=");
    if let Some(e) = eq {
        if e > 0 {
            let name = text_exec(t, kid(t, n, 0));
            return match scalar_from_exec(true, t, n, e + 1, MAX_DEPTH) {
                Some(v) => Some(CallArg::Named(name, v)),
                None => None,
            };
        }
    }
    if let Some(j) = first_kind_exec(t, n, 0, "navigation_expression", "navigation_expression") {
        return Some(CallArg::PositionalRef(dotted_exec(true, t, kid(t, n, j))));
    }
    match scalar_from_exec(true, t, n, 0, MAX_DEPTH) {
        Some(v) => Some(CallArg::Positional(v)),
        None => match first_kind_exec(t, n, 0, "call_expression", "call_expression") {
            Some(j) => Some(CallArg::PositionalRef(text_exec(t, kid(t, n, j)))),
            None => None,
        },
    }
}

/// The arguments of a Kotlin call.
pub open spec fn kt_args(t: Seq<NodeView>, n: int, fuel: nat) -> Seq<ArgView>
    decreases fuel, 0int, 0int,
{
    if fuel == 0 { Seq::empty() } else { kt_args_from(t, n, 0, (fuel - 1) as nat) }
}

pub open spec fn kt_args_from(t: Seq<NodeView>, p: int, i: int, fuel: nat) -> Seq<ArgView>
    decreases fuel, 1int, kids_at(t, p).len() - i,
{
    if i < 0 || i >= kids_at(t, p).len() {
        Seq::empty()
    } else {
        let c = kids_at(t, p)[i];
        let k = kind_at(t, c);
        (if k == "call_suffix"@ || k == "value_arguments"@ {
            kt_args(t, c, fuel)
        } else if k == "value_argument"@ {
            match kt_value_argument(t, c) {
                Some(a) => seq![a],
                None => Seq::empty(),
            }
        } else {
            Seq::empty()
        }) + kt_args_from(t, p, i + 1, fuel)
    }
}

fn kt_args_exec(t: &SyntaxTree, n: usize, fuel: u32) -> (r: Vec<CallArg>)
    ensures
        args_view(r@) == kt_args(tree_view(*t), n as int, fuel as nat),
    decreases fuel, 0int, 0int,
{
    if fuel == 0 {
        no_args()
    } else {
        kt_args_from_exec(t, n, 0, fuel - 1)
    }
}

fn kt_args_from_exec(t: &SyntaxTree, p: usize, i: usize, fuel: u32) -> (r: Vec<CallArg>)
    ensures
        args_view(r@) == kt_args_from(tree_view(*t), p as int, i as int, fuel as nat),
    decreases fuel, 1int, kids_at(tree_view(*t), p as int).len() - i,
{
    if i >= kid_count(t, p) {
        return no_args();
    }
    let c = kid(t, p, i);
    let k = kind_exec(t, c);
    let head = if same_text(k.as_str(), "call_suffix") || same_text(k.as_str(), "value_arguments") {
        kt_args_exec(t, c, fuel)
    } else if same_text(k.as_str(), "value_argument") {
        match kt_value_argument_exec(t, c) {
            Some(a) => single_arg(a),
            None => no_args(),
        }
    } else {
        no_args()
    };
    let rest = kt_args_from_exec(t, p, i + 1, fuel);
    join_args(head, rest)
}

/// The position of the first child of `p` from `i` on that names a Kotlin
/// callee, or -1.
pub open spec fn kt_callee_at(t: Seq<NodeView>, p: int, i: int) -> int
    decreases kids_at(t, p).len() - i,
{
    if i < 0 || i >= kids_at(t, p).len() {
        -1
    } else if is_id(true, kind_at(t, kids_at(t, p)[i])) || kind_at(t, kids_at(t, p)[i]) == "navigation_expression"@ {
        i
    } else {
        kt_callee_at(t, p, i + 1)
    }
}

fn kt_callee_at_exec(t: &SyntaxTree, p: usize, i: usize) -> (r: Option<usize>)
    ensures
        match r {
            Some(j) => kt_callee_at(tree_view(*t), p as int, i as int) == j as int && j < kids_at(tree_view(*t), p as int).len(),
            None => kt_callee_at(tree_view(*t), p as int, i as int) == -1,
        },
    decreases kids_at(tree_view(*t), p as int).len() - i,
{
    if i >= kid_count(t, p) {
        return None;
    }
    let c = kid(t, p, i);
    let k = kind_exec(t, c);
    if is_id_exec(true, k.as_str()) || same_text(k.as_str(), "navigation_expression") {
        Some(i)
    } else {
        kt_callee_at_exec(t, p, i + 1)
    }
}

/// The callee path of a Kotlin call.
pub open spec fn kt_call_path(t: Seq<NodeView>, n: int) -> Seq<char> {
    let j = kt_callee_at(t, n, 0);
    if j >= 0 { dotted(true, t, kids_at(t, n)[j]) } else { Seq::empty() }
}

fn kt_call_path_exec(t: &SyntaxTree, n: usize) -> (r: String)
    ensures
        r@ == kt_call_path(tree_view(*t), n as int),
{
    match kt_callee_at_exec(t, n, 0) {
        Some(j) => dotted_exec(true, t, kid(t, n, j)),
        None => {
            let e = String::new();
            assert(e@ =~= Seq::<char>::empty());
            e
        },
    }
}

/// The lambda block of a Kotlin call, or -1.
pub open spec fn kt_lambda(t: Seq<NodeView>, n: int, fuel: nat) -> int
    decreases fuel, 0int, 0int,
{
    if fuel == 0 { -1 } else { kt_lambda_from(t, n, 0, (fuel - 1) as nat) }
}

pub open spec fn kt_lambda_from(t: Seq<NodeView>, p: int, i: int, fuel: nat) -> int
    decreases fuel, 1int, kids_at(t, p).len() - i,
{
    if i < 0 || i >= kids_at(t, p).len() {
        -1
    } else {
        let c = kids_at(t, p)[i];
        let k = kind_at(t, c);
        if k == "lambda_literal"@ {
            c
        } else if (k == "call_suffix"@ || k == "annotated_lambda"@) && kt_lambda(t, c, fuel) >= 0 {
            kt_lambda(t, c, fuel)
        } else {
            kt_lambda_from(t, p, i + 1, fuel)
        }
    }
}

fn kt_lambda_exec(t: &SyntaxTree, n: usize, fuel: u32) -> (r: Option<usize>)
    ensures
        match r {
            Some(l) => kt_lambda(tree_view(*t), n as int, fuel as nat) == l as int,
            None => kt_lambda(tree_view(*t), n as int, fuel as nat) < 0,
        },
    decreases fuel, 0int, 0int,
{
    if fuel == 0 {
        None
    } else {
        kt_lambda_from_exec(t, n, 0, fuel - 1)
    }
}

fn kt_lambda_from_exec(t: &SyntaxTree, p: usize, i: usize, fuel: u32) -> (r: Option<usize>)
    ensures
        match r {
            Some(l) => kt_lambda_from(tree_view(*t), p as int, i as int, fuel as nat) == l as int,
            None => kt_lambda_from(tree_view(*t), p as int, i as int, fuel as nat) < 0,
        },
    decreases fuel, 1int, kids_at(tree_view(*t), p as int).len() - i,
{
    if i >= kid_count(t, p) {
        return None;
    }
    let c = kid(t, p, i);
    let k = kind_exec(t, c);
    if same_text(k.as_str(), "lambda_literal") {
        return Some(c);
    }
    if same_text(k.as_str(), "call_suffix") || same_text(k.as_str(), "annotated_lambda") {
        if let Some(l) = kt_lambda_exec(t, c, fuel) {
            return Some(l);
        }
    }
    kt_lambda_from_exec(t, p, i + 1, fuel)
}

/// The arguments of a Groovy call.
pub open spec fn gv_args(t: Seq<NodeView>, n: int, fuel: nat) -> Seq<ArgView>
    decreases fuel, 0int, 0int,
{
    if fuel == 0 { Seq::empty() } else { gv_args_from(t, n, 0, (fuel - 1) as nat) }
}

pub open spec fn gv_arg_item(t: Seq<NodeView>, c: int) -> Seq<ArgView> {
    let k = kind_at(t, c);
    if k == "map_item"@ {
        if kids_at(t, c).len() > 0 {
            match scalar_from(false, t, c, 1, MAX_DEPTH as nat) {
                Some(v) => seq![ArgView::Named(text_at(t, kids_at(t, c)[0]), v)],
                None => Seq::empty(),
            }
        } else {
            Seq::empty()
        }
    } else if k == "field_access"@ {
        seq![ArgView::Ref(dotted(false, t, c))]
    } else if k == "string_literal"@ || k == "character_literal"@ || k == "decimal_integer_literal"@ || k == "true"@
        || k == "false"@ {
        match scalar(false, t, c, MAX_DEPTH as nat) {
            Some(v) => seq![ArgView::Positional(v)],
            None => Seq::empty(),
        }
    } else {
        Seq::empty()
    }
}

pub open spec fn gv_args_from(t: Seq<NodeView>, p: int, i: int, fuel: nat) -> Seq<ArgView>
    decreases fuel, 1int, kids_at(t, p).len() - i,
{
    if i < 0 || i >= kids_at(t, p).len() {
        Seq::empty()
    } else {
        let c = kids_at(t, p)[i];
        (if kind_at(t, c) == "argument_list"@ {
            gv_args(t, c, fuel)
        } else {
            gv_arg_item(t, c)
        }) + gv_args_from(t, p, i + 1, fuel)
    }
}

fn gv_arg_item_exec(t: &SyntaxTree, c: usize) -> (r: Vec<CallArg>)
    ensures
        args_view(r@) == gv_arg_item(tree_view(*t), c as int),
{
    let k = kind_exec(t, c);
    let ks = k.as_str();
    if same_text(ks, "map_item") {
        if kid_count(t, c) > 0 {
            match scalar_from_exec(false, t, c, 1, MAX_DEPTH) {
                Some(v) => single_arg(CallArg::Named(text_exec(t, kid(t, c, 0)), v)),
                None => no_args(),
            }
        } else {
            no_args()
        }
    } else if same_text(ks, "field_access") {
        single_arg(CallArg::PositionalRef(dotted_exec(false, t, c)))
    } else if same_text(ks, "string_literal") || same_text(ks, "character_literal") || same_text(
        ks,
        "decimal_integer_literal",
    ) || same_text(ks, "true") || same_text(ks, "false") {
        match scalar_exec(false, t, c, MAX_DEPTH) {
            Some(v) => single_arg(CallArg::Positional(v)),
            None => no_args(),
        }
    } else {
        no_args()
    }
}

fn gv_args_exec(t: &SyntaxTree, n: usize, fuel: u32) -> (r: Vec<CallArg>)
    ensures
        args_view(r@) == gv_args(tree_view(*t), n as int, fuel as nat),
    decreases fuel, 0int, 0int,
{
    if fuel == 0 {
        no_args()
    } else {
        gv_args_from_exec(t, n, 0, fuel - 1)
    }
}

fn gv_args_from_exec(t: &SyntaxTree, p: usize, i: usize, fuel: u32) -> (r: Vec<CallArg>)
    ensures
        args_view(r@) == gv_args_from(tree_view(*t), p as int, i as int, fuel as nat),
    decreases fuel, 1int, kids_at(tree_view(*t), p as int).len() - i,
{
    if i >= kid_count(t, p) {
        return no_args();
    }
    let c = kid(t, p, i);
    let head = if is_kind(t, c, "argument_list") {
        gv_args_exec(t, c, fuel)
    } else {
        gv_arg_item_exec(t, c)
    };
    let rest = gv_args_from_exec(t, p, i + 1, fuel);
    join_args(head, rest)
}

/// The leading names of a Groovy call, before its arguments or closure.
pub open spec fn gv_path_parts(t: Seq<NodeView>, p: int, i: int) -> Seq<Seq<char>>
    decreases kids_at(t, p).len() - i,
{
    if i < 0 || i >= kids_at(t, p).len() {
        Seq::empty()
    } else {
        let c = kids_at(t, p)[i];
        let k = kind_at(t, c);
        if k == "argument_list"@ || k == "closure"@ {
            Seq::empty()
        } else if k == "identifier"@ || k == "field_access"@ {
            seq![dotted(false, t, c)] + gv_path_parts(t, p, i + 1)
        } else {
            gv_path_parts(t, p, i + 1)
        }
    }
}

fn gv_path_parts_exec(t: &SyntaxTree, p: usize, i: usize) -> (r: Vec<String>)
    ensures
        r.deep_view() == gv_path_parts(tree_view(*t), p as int, i as int),
    decreases kids_at(tree_view(*t), p as int).len() - i,
{
    if i >= kid_count(t, p) {
        let r: Vec<String> = Vec::new();
        assert(r.deep_view() =~= Seq::<Seq<char>>::empty());
        return r;
    }
    let c = kid(t, p, i);
    let k = kind_exec(t, c);
    if same_text(k.as_str(), "argument_list") || same_text(k.as_str(), "closure") {
        let r: Vec<String> = Vec::new();
        assert(r.deep_view() =~= Seq::<Seq<char>>::empty());
        r
    } else if same_text(k.as_str(), "identifier") || same_text(k.as_str(), "field_access") {
        let mut head: Vec<String> = Vec::new();
        head.push(dotted_exec(false, t, c));
        let mut rest = gv_path_parts_exec(t, p, i + 1);
        let ghost h0 = head.deep_view();
        let ghost r0 = rest.deep_view();
        head.append(&mut rest);
        assert(head.deep_view() =~= h0 + r0);
        head
    } else {
        gv_path_parts_exec(t, p, i + 1)
    }
}

// ---------------------------------------------------------------- statements

fn no_stmts() -> (r: Vec<Stmt>)
    ensures
        stmts_view(r@) == Seq::<StmtView>::empty(),
{
    let r: Vec<Stmt> = Vec::new();
    assert(stmts_view(r@) =~= Seq::<StmtView>::empty());
    r
}

fn one_stmt(s: Stmt) -> (r: Vec<Stmt>)
    ensures
        stmts_view(r@) == seq![stmt_view(s)],
{
    let mut r: Vec<Stmt> = Vec::new();
    r.push(s);
    assert(stmts_view(r@) =~= seq![stmt_view(s)]);
    r
}

fn join_stmts(mut a: Vec<Stmt>, mut b: Vec<Stmt>) -> (r: Vec<Stmt>)
    ensures
        stmts_view(r@) == stmts_view(a@) + stmts_view(b@),
{
    let ghost a0 = stmts_view(a@);
    let ghost b0 = stmts_view(b@);
    a.append(&mut b);
    assert(stmts_view(a@) =~= a0 + b0);
    a
}

/// An assignment or compound assignment: `=` gives the scalar value and the
/// string items of the right side; `+=` to the dependency list reports the
/// calls inside it, `+=` to anything else appends the string items.
pub open spec fn assignment(kotlin: bool, t: Seq<NodeView>, c: int, fuel: nat) -> Seq<StmtView>
    decreases fuel, 1int, 0int,
{
    let parts = kids_at(t, c);
    let op = first_kind(t, c, 0, "="@, "+="@);
    if parts.len() == 0 || op < 0 {
        Seq::empty()
    } else {
        let lhs = dotted(kotlin, t, parts[0]);
        let items = strings_from(kotlin, t, c, op + 1, MAX_DEPTH as nat);
        if kind_at(t, parts[op]) == "="@ {
            seq![StmtView::Assign(lhs, scalar_from(kotlin, t, c, op + 1, MAX_DEPTH as nat), items)]
        } else if ends_with(lhs, "dependencies"@) {
            walk(kotlin, t, c, fuel)
        } else {
            seq![StmtView::Append(lhs, items)]
        }
    }
}

/// The value of the first string child of `p` from `i` on that has one.
pub open spec fn first_literal(t: Seq<NodeView>, p: int, i: int) -> Option<Seq<char>>
    decreases kids_at(t, p).len() - i,
{
    if i < 0 || i >= kids_at(t, p).len() {
        None
    } else {
        let c = kids_at(t, p)[i];
        if is_string(true, kind_at(t, c)) && literal_value(text_at(t, c)) is Some {
            literal_value(text_at(t, c))
        } else {
            first_literal(t, p, i + 1)
        }
    }
}

/// A Kotlin property declaration with a string value.
pub open spec fn kt_property(t: Seq<NodeView>, c: int) -> Seq<StmtView> {
    let name_at = first_kind(t, c, 0, "variable_declaration"@, "variable_declaration"@);
    if name_at >= 0 && first_literal(t, c, 0) is Some {
        seq![StmtView::Assign(dotted(true, t, kids_at(t, c)[name_at]), first_literal(t, c, 0), Seq::empty())]
    } else {
        Seq::empty()
    }
}

/// The value of the first argument list of `p` from `i` on that holds a
/// scalar.
pub open spec fn juxt_value(t: Seq<NodeView>, p: int, i: int) -> Option<Seq<char>>
    decreases kids_at(t, p).len() - i,
{
    if i < 0 || i >= kids_at(t, p).len() {
        None
    } else {
        let c = kids_at(t, p)[i];
        if kind_at(t, c) == "argument_list"@ && scalar(false, t, c, MAX_DEPTH as nat) is Some {
            scalar(false, t, c, MAX_DEPTH as nat)
        } else {
            juxt_value(t, p, i + 1)
        }
    }
}

/// A call: the call itself, then (Kotlin) the calls among its arguments,
/// then its block. A Groovy juxtaposed call with a value is also an
/// assignment of that value.
pub open spec fn call(kotlin: bool, t: Seq<NodeView>, c: int, fuel: nat) -> Seq<StmtView>
    decreases fuel, 1int, 0int,
{
    let path = if kotlin { kt_call_path(t, c) } else { join_dots(gv_path_parts(t, c, 0)) };
    let args = if kotlin { kt_args(t, c, MAX_DEPTH as nat) } else { gv_args(t, c, MAX_DEPTH as nat) };
    let juxt = if !kotlin && kind_at(t, c) == "juxt_function_call"@ && juxt_value(t, c, 0) is Some {
        seq![StmtView::Assign(path, juxt_value(t, c, 0), Seq::empty())]
    } else {
        Seq::empty()
    };
    let nested = if kotlin { walk_arguments(t, c, fuel) } else { Seq::empty() };
    let block = if kotlin { kt_lambda(t, c, MAX_DEPTH as nat) } else {
        let cl = first_kind(t, c, 0, "closure"@, "closure"@);
        if cl >= 0 { kids_at(t, c)[cl] } else { -1 }
    };
    juxt + seq![StmtView::Call(path, args)] + nested + if block >= 0 {
        seq![StmtView::Open(path)] + walk(kotlin, t, block, fuel) + seq![StmtView::Close]
    } else {
        Seq::empty()
    }
}

/// The statement a child node stands for.
pub open spec fn item(kotlin: bool, t: Seq<NodeView>, c: int, fuel: nat) -> Seq<StmtView>
    decreases fuel, 2int, 0int,
{
    let k = kind_at(t, c);
    if (kotlin && k == "call_expression"@) || (!kotlin && (k == "method_invocation"@ || k == "juxt_function_call"@)) {
        call(kotlin, t, c, fuel)
    } else if (kotlin && k == "assignment"@) || (!kotlin && k == "assignment_expression"@) {
        assignment(kotlin, t, c, fuel)
    } else if kotlin && k == "property_declaration"@ {
        kt_property(t, c)
    } else {
        walk(kotlin, t, c, fuel)
    }
}

/// The statements under a node, in source order.
pub open spec fn walk(kotlin: bool, t: Seq<NodeView>, n: int, fuel: nat) -> Seq<StmtView>
    decreases fuel, 0int, 0int,
{
    if fuel == 0 { Seq::empty() } else { walk_from(kotlin, t, n, 0, (fuel - 1) as nat) }
}

pub open spec fn walk_from(kotlin: bool, t: Seq<NodeView>, p: int, i: int, fuel: nat) -> Seq<StmtView>
    decreases fuel, 3int, kids_at(t, p).len() - i,
{
    if i < 0 || i >= kids_at(t, p).len() {
        Seq::empty()
    } else {
        item(kotlin, t, kids_at(t, p)[i], fuel) + walk_from(kotlin, t, p, i + 1, fuel)
    }
}

/// The calls nested in a Kotlin call's value arguments.
pub open spec fn walk_arguments(t: Seq<NodeView>, n: int, fuel: nat) -> Seq<StmtView>
    decreases fuel, 0int, 0int,
{
    if fuel == 0 { Seq::empty() } else { walk_arguments_from(t, n, 0, (fuel - 1) as nat) }
}

pub open spec fn walk_arguments_from(t: Seq<NodeView>, p: int, i: int, fuel: nat) -> Seq<StmtView>
    decreases fuel, 3int, kids_at(t, p).len() - i,
{
    if i < 0 || i >= kids_at(t, p).len() {
        Seq::empty()
    } else {
        let c = kids_at(t, p)[i];
        (if kind_at(t, c) == "value_arguments"@ {
            walk(true, t, c, fuel)
        } else if kind_at(t, c) == "call_suffix"@ {
            walk_arguments(t, c, fuel)
        } else {
            Seq::empty()
        }) + walk_arguments_from(t, p, i + 1, fuel)
    }
}

fn assignment_exec(kotlin: bool, t: &SyntaxTree, c: usize, fuel: u32) -> (r: Vec<Stmt>)
    ensures
        stmts_view(r@) == assignment(kotlin, tree_view(*t), c as int, fuel as nat),
    decreases fuel, 1int, 0int,
{
    let cnt = kid_count(t, c);
    let op = match first_kind_exec(t, c, 0, "=", "+=") {
        Some(op) => op,
        None => return no_stmts(),
    };
    if cnt == 0 {
        return no_stmts();
    }
    let lhs = dotted_exec(kotlin, t, kid(t, c, 0));
    let items = strings_from_exec(kotlin, t, c, op + 1, MAX_DEPTH);
    assert(crate::dsl::strings_view(items@) =~= items.deep_view());
    if is_kind(t, kid(t, c, op), "=") {
        let value = scalar_from_exec(kotlin, t, c, op + 1, MAX_DEPTH);
        one_stmt(Stmt::Assign(lhs, value, items))
    } else if str_ends_with(lhs.as_str(), "dependencies") {
        walk_exec(kotlin, t, c, fuel)
    } else {
        one_stmt(Stmt::Append(lhs, items))
    }
}

fn first_literal_exec(t: &SyntaxTree, p: usize, i: usize) -> (r: Option<String>)
    ensures
        opt_string(r) == first_literal(tree_view(*t), p as int, i as int),
    decreases kids_at(tree_view(*t), p as int).len() - i,
{
    if i >= kid_count(t, p) {
        return None;
    }
    let c = kid(t, p, i);
    let k = kind_exec(t, c);
    if is_string_exec(true, k.as_str()) {
        let txt = text_exec(t, c);
        if let Some(v) = string_literal_value(txt.as_str()) {
            return Some(v);
        }
    }
    first_literal_exec(t, p, i + 1)
}

fn kt_property_exec(t: &SyntaxTree, c: usize) -> (r: Vec<Stmt>)
    ensures
        stmts_view(r@) == kt_property(tree_view(*t), c as int),
{
    let name_at = first_kind_exec(t, c, 0, "variable_declaration", "variable_declaration");
    let value = first_literal_exec(t, c, 0);
    match (name_at, value) {
        (Some(j), Some(v)) => {
            let name = dotted_exec(true, t, kid(t, c, j));
            let empty: Vec<String> = Vec::new();
            assert(crate::dsl::strings_view(empty@) =~= Seq::<Seq<char>>::empty());
            one_stmt(Stmt::Assign(name, Some(v), empty))
        },
        _ => no_stmts(),
    }
}

fn juxt_value_exec(t: &SyntaxTree, p: usize, i: usize) -> (r: Option<String>)
    ensures
        opt_string(r) == juxt_value(tree_view(*t), p as int, i as int),
    decreases kids_at(tree_view(*t), p as int).len() - i,
{
    if i >= kid_count(t, p) {
        return None;
    }
    let c = kid(t, p, i);
    if is_kind(t, c, "argument_list") {
        if let Some(v) = scalar_exec(false, t, c, MAX_DEPTH) {
            return Some(v);
        }
    }
    juxt_value_exec(t, p, i + 1)
}

fn call_exec(kotlin: bool, t: &SyntaxTree, c: usize, fuel: u32) -> (r: Vec<Stmt>)
    ensures
        stmts_view(r@) == call(kotlin, tree_view(*t), c as int, fuel as nat),
    decreases fuel, 1int, 0int,
{
    let path = if kotlin {
        kt_call_path_exec(t, c)
    } else {
        let parts = gv_path_parts_exec(t, c, 0);
        join_dots_exec(&parts)
    };
    let args = if kotlin {
        kt_args_exec(t, c, MAX_DEPTH)
    } else {
        gv_args_exec(t, c, MAX_DEPTH)
    };
    let juxt = if !kotlin && is_kind(t, c, "juxt_function_call") {
        match juxt_value_exec(t, c, 0) {
            Some(v) => {
                let empty: Vec<String> = Vec::new();
                assert(crate::dsl::strings_view(empty@) =~= Seq::<Seq<char>>::empty());
                one_stmt(Stmt::Assign(path.clone(), Some(v), empty))
            },
            None => no_stmts(),
        }
    } else {
        no_stmts()
    };
    let the_call = one_stmt(Stmt::Call(path.clone(), args));
    let nested = if kotlin {
        walk_arguments_exec(t, c, fuel)
    } else {
        no_stmts()
    };
    let block: Option<usize> = if kotlin {
        kt_lambda_exec(t, c, MAX_DEPTH)
    } else {
        match first_kind_exec(t, c, 0, "closure", "closure") {
            Some(j) => Some(kid(t, c, j)),
            None => None,
        }
    };
    let tail = match block {
        Some(b) => {
            let open = one_stmt(Stmt::Open(path));
            let inner = walk_exec(kotlin, t, b, fuel);
            let close = one_stmt(Stmt::Close);
            join_stmts(join_stmts(open, inner), close)
        },
        None => no_stmts(),
    };
    join_stmts(join_stmts(join_stmts(juxt, the_call), nested), tail)
}

fn item_exec(kotlin: bool, t: &SyntaxTree, c: usize, fuel: u32) -> (r: Vec<Stmt>)
    ensures
        stmts_view(r@) == item(kotlin, tree_view(*t), c as int, fuel as nat),
    decreases fuel, 2int, 0int,
{
    let k = kind_exec(t, c);
    let ks = k.as_str();
    if (kotlin && same_text(ks, "call_expression")) || (!kotlin && (same_text(ks, "method_invocation") || same_text(
        ks,
        "juxt_function_call",
    ))) {
        call_exec(kotlin, t, c, fuel)
    } else if (kotlin && same_text(ks, "assignment")) || (!kotlin && same_text(ks, "assignment_expression")) {
        assignment_exec(kotlin, t, c, fuel)
    } else if kotlin && same_text(ks, "property_declaration") {
        kt_property_exec(t, c)
    } else {
        walk_exec(kotlin, t, c, fuel)
    }
}

fn walk_exec(kotlin: bool, t: &SyntaxTree, n: usize, fuel: u32) -> (r: Vec<Stmt>)
    ensures
        stmts_view(r@) == walk(kotlin, tree_view(*t), n as int, fuel as nat),
    decreases fuel, 0int, 0int,
{
    if fuel == 0 {
        no_stmts()
    } else {
        walk_from_exec(kotlin, t, n, 0, fuel - 1)
    }
}

fn walk_from_exec(kotlin: bool, t: &SyntaxTree, p: usize, i: usize, fuel: u32) -> (r: Vec<Stmt>)
    ensures
        stmts_view(r@) == walk_from(kotlin, tree_view(*t), p as int, i as int, fuel as nat),
    decreases fuel, 3int, kids_at(tree_view(*t), p as int).len() - i,
{
    if i >= kid_count(t, p) {
        return no_stmts();
    }
    let c = kid(t, p, i);
    let head = item_exec(kotlin, t, c, fuel);
    let rest = walk_from_exec(kotlin, t, p, i + 1, fuel);
    join_stmts(head, rest)
}

fn walk_arguments_exec(t: &SyntaxTree, n: usize, fuel: u32) -> (r: Vec<Stmt>)
    ensures
        stmts_view(r@) == walk_arguments(tree_view(*t), n as int, fuel as nat),
    decreases fuel, 0int, 0int,
{
    if fuel == 0 {
        no_stmts()
    } else {
        walk_arguments_from_exec(t, n, 0, fuel - 1)
    }
}

fn walk_arguments_from_exec(t: &SyntaxTree, p: usize, i: usize, fuel: u32) -> (r: Vec<Stmt>)
    ensures
        stmts_view(r@) == walk_arguments_from(tree_view(*t), p as int, i as int, fuel as nat),
    decreases fuel, 3int, kids_at(tree_view(*t), p as int).len() - i,
{
    if i >= kid_count(t, p) {
        return no_stmts();
    }
    let c = kid(t, p, i);
    let head = if is_kind(t, c, "value_arguments") {
        walk_exec(true, t, c, fuel)
    } else if is_kind(t, c, "call_suffix") {
        walk_arguments_exec(t, c, fuel)
    } else {
        no_stmts()
    };
    let rest = walk_arguments_from_exec(t, p, i + 1, fuel);
    join_stmts(head, rest)
}

// ---------------------------------------------------------------- entry points

/// The statements of a parsed script, from its root.
pub open spec fn script_statements(kotlin: bool, t: Seq<NodeView>) -> Seq<StmtView> {
    walk(kotlin, t, 0, MAX_DEPTH as nat)
}

/// The statements of a Kotlin build script, when it parses.
pub fn statements_kts(content: &str) -> (r: Option<Vec<Stmt>>)
    ensures
        match kotlin_tree_of(content@) {
            Some(tv) => r matches Some(v) && stmts_view(v@) == script_statements(true, tv),
            None => r is None,
        },
{
    let tree = kotlin_tree(content)?;
    Some(walk_exec(true, &tree, 0, MAX_DEPTH))
}

/// The statements of a Groovy build script, when it parses.
pub fn statements_groovy(content: &str) -> (r: Option<Vec<Stmt>>)
    ensures
        match groovy_tree_of(content@) {
            Some(tv) => r matches Some(v) && stmts_view(v@) == script_statements(false, tv),
            None => r is None,
        },
{
    let tree = groovy_tree(content)?;
    Some(walk_exec(false, &tree, 0, MAX_DEPTH))
}

/// The extraction result of a parsed script.
pub open spec fn script_result(kotlin: bool, tree: Option<Seq<NodeView>>) -> Option<DslView> {
    match tree {
        Some(tv) => extraction_result(run(script_statements(kotlin, tv)).dsl),
        None => None,
    }
}

pub open spec fn opt_dsl(r: Option<AllayDsl>) -> Option<DslView> {
    match r {
        Some(d) => Some(dsl_view(d)),
        None => None,
    }
}

/// The extraction result of a Kotlin build script: none when it does not
/// parse or declares neither the platform dependency, an API version nor a
/// manifest.
pub fn parse_build_gradle_kts(content: &str) -> (r: Option<AllayDsl>)
    ensures
        opt_dsl(r) == script_result(true, kotlin_tree_of(content@)),
{
    let stmts = statements_kts(content)?;
    extract(stmts.as_slice())
}

/// The extraction result of a Groovy build script, as for Kotlin scripts.
pub fn parse_build_gradle(content: &str) -> (r: Option<AllayDsl>)
    ensures
        opt_dsl(r) == script_result(false, groovy_tree_of(content@)),
{
    let stmts = statements_groovy(content)?;
    extract(stmts.as_slice())
}

/// The grammar of a build file, by its path.
pub open spec fn is_kotlin_script(path: Seq<char>) -> bool {
    ends_with(path, ".kts"@)
}

/// The extraction result of a build file, by its dialect.
pub fn parse_build_file(path: &str, content: &str) -> (r: Option<AllayDsl>)
    ensures
        opt_dsl(r) == if is_kotlin_script(path@) {
            script_result(true, kotlin_tree_of(content@))
        } else {
            script_result(false, groovy_tree_of(content@))
        },
{
    if str_ends_with(path, ".kts") {
        parse_build_gradle_kts(content)
    } else {
        parse_build_gradle(content)
    }
}

/// Project metadata of a settings file, whether or not it declares anything
/// of the platform: the state after its statements, empty when it does not
/// parse.
pub fn parse_gradle_settings(path: &str, content: &str) -> (r: AllayDsl)
    ensures
        dsl_view(r) == match (if is_kotlin_script(path@) { kotlin_tree_of(content@) } else { groovy_tree_of(content@) }) {
            Some(tv) => run(script_statements(is_kotlin_script(path@), tv)).dsl,
            None => crate::dsl::empty_dsl(),
        },
{
    let kotlin = str_ends_with(path, ".kts");
    let stmts = if kotlin {
        statements_kts(content)
    } else {
        statements_groovy(content)
    };
    let mut e = Extraction::new();
    if let Some(list) = stmts {
        let ghost sv = stmts_view(list@);
        let mut i: usize = 0;
        assert(sv.subrange(0, 0) =~= Seq::<StmtView>::empty());
        while i < list.len()
            invariant
                i <= list@.len(),
                sv == stmts_view(list@),
                state_view(e) == run(sv.subrange(0, i as int)),
            decreases list@.len() - i,
        {
            e.step(&list[i]);
            assert(sv.subrange(0, i + 1).drop_last() =~= sv.subrange(0, i as int));
            i = i + 1;
        }
        assert(sv.subrange(0, list@.len() as int) =~= sv);
    }
    e.dsl
}

} // verus!
