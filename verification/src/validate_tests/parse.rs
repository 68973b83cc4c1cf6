//! Reads Rust source text into a tree of plain nodes, by way of `syn`.
//!
//! `syn` parses the text; its syntax tree is then taken apart type by type and put
//! together again as [`Node`]s, children in the order in which `syn::visit` goes
//! through them. What a piece of `syn`'s tree holds is named by [`tree_of`]; each
//! function that takes a piece apart states the tree of the piece by those of its
//! parts.

use proc_macro2::{Span, TokenStream, TokenTree};
use quote::ToTokens;
use std::iter::once;
use syn::parse::Parser;
use syn::punctuated::Punctuated;
use syn::spanned::Spanned;
use syn::{
    Expr, FnArg, ForeignItem, GenericArgument, GenericParam, ImplItem, Item, Lit, Meta, Pat,
    PathArguments, ReturnType, Stmt, TraitItem, Type, TypeParamBound, UseTree, WherePredicate,
};
use vstd::prelude::*;

use super::model::{after, Position, SourceSpan};
use super::syntax::{Kind, Node, Tree};
use crate::copies::option_view;
use crate::seqs::{take_all, views};

verus! {

broadcast use {
    vstd::std_specs::vec::group_vec_axioms,
    crate::seqs::group_views,
    crate::validate_tests::syntax::Node::tree_parts,
};

/// `syn::File`, which only `syn`'s own functions look into.
#[verifier::external_type_specification]
#[verifier::external_body]
pub struct ExFile(syn::File);

/// `syn::Expr`, which only `syn`'s own functions look into.
#[verifier::external_type_specification]
#[verifier::external_body]
pub struct ExExpr(syn::Expr);

/// `syn::Lit`, which only `syn`'s own functions look into.
#[verifier::external_type_specification]
#[verifier::external_body]
pub struct ExLit(syn::Lit);

/// `syn::Pat`, which only `syn`'s own functions look into.
#[verifier::external_type_specification]
#[verifier::external_body]
pub struct ExPat(syn::Pat);

/// `syn::Type`, which only `syn`'s own functions look into.
#[verifier::external_type_specification]
#[verifier::external_body]
pub struct ExType(syn::Type);

/// `syn::Item`, which only `syn`'s own functions look into.
#[verifier::external_type_specification]
#[verifier::external_body]
pub struct ExItem(syn::Item);

/// `syn::Stmt`, which only `syn`'s own functions look into.
#[verifier::external_type_specification]
#[verifier::external_body]
pub struct ExStmt(syn::Stmt);

/// `syn::Block`, which only `syn`'s own functions look into.
#[verifier::external_type_specification]
#[verifier::external_body]
pub struct ExBlock(syn::Block);

/// `syn::Local`, which only `syn`'s own functions look into.
#[verifier::external_type_specification]
#[verifier::external_body]
pub struct ExLocal(syn::Local);

/// `syn::Arm`, which only `syn`'s own functions look into.
#[verifier::external_type_specification]
#[verifier::external_body]
pub struct ExArm(syn::Arm);

/// `syn::Macro`, which only `syn`'s own functions look into.
#[verifier::external_type_specification]
#[verifier::external_body]
pub struct ExMacro(syn::Macro);

/// `syn::Attribute`, which only `syn`'s own functions look into.
#[verifier::external_type_specification]
#[verifier::external_body]
pub struct ExAttribute(syn::Attribute);

/// `syn::Path`, which only `syn`'s own functions look into.
#[verifier::external_type_specification]
#[verifier::external_body]
pub struct ExPath(syn::Path);

/// `syn::PathSegment`, which only `syn`'s own functions look into.
#[verifier::external_type_specification]
#[verifier::external_body]
pub struct ExPathSegment(syn::PathSegment);

/// `syn::FieldValue`, which only `syn`'s own functions look into.
#[verifier::external_type_specification]
#[verifier::external_body]
pub struct ExFieldValue(syn::FieldValue);

/// `syn::FieldPat`, which only `syn`'s own functions look into.
#[verifier::external_type_specification]
#[verifier::external_body]
pub struct ExFieldPat(syn::FieldPat);

/// `syn::Signature`, which only `syn`'s own functions look into.
#[verifier::external_type_specification]
#[verifier::external_body]
pub struct ExSignature(syn::Signature);

/// `syn::FnArg`, which only `syn`'s own functions look into.
#[verifier::external_type_specification]
#[verifier::external_body]
pub struct ExFnArg(syn::FnArg);

/// `syn::Variadic`, which only `syn`'s own functions look into.
#[verifier::external_type_specification]
#[verifier::external_body]
pub struct ExVariadic(syn::Variadic);

/// `syn::BareFnArg`, which only `syn`'s own functions look into.
#[verifier::external_type_specification]
#[verifier::external_body]
pub struct ExBareFnArg(syn::BareFnArg);

/// `syn::Generics`, which only `syn`'s own functions look into.
#[verifier::external_type_specification]
#[verifier::external_body]
pub struct ExGenerics(syn::Generics);

/// `syn::GenericParam`, which only `syn`'s own functions look into.
#[verifier::external_type_specification]
#[verifier::external_body]
pub struct ExGenericParam(syn::GenericParam);

/// `syn::WherePredicate`, which only `syn`'s own functions look into.
#[verifier::external_type_specification]
#[verifier::external_body]
pub struct ExWherePredicate(syn::WherePredicate);

/// `syn::TypeParamBound`, which only `syn`'s own functions look into.
#[verifier::external_type_specification]
#[verifier::external_body]
pub struct ExTypeParamBound(syn::TypeParamBound);

/// `syn::GenericArgument`, which only `syn`'s own functions look into.
#[verifier::external_type_specification]
#[verifier::external_body]
pub struct ExGenericArgument(syn::GenericArgument);

/// `syn::ImplItem`, which only `syn`'s own functions look into.
#[verifier::external_type_specification]
#[verifier::external_body]
pub struct ExImplItem(syn::ImplItem);

/// `syn::TraitItem`, which only `syn`'s own functions look into.
#[verifier::external_type_specification]
#[verifier::external_body]
pub struct ExTraitItem(syn::TraitItem);

/// `syn::ForeignItem`, which only `syn`'s own functions look into.
#[verifier::external_type_specification]
#[verifier::external_body]
pub struct ExForeignItem(syn::ForeignItem);

/// `syn::Field`, which only `syn`'s own functions look into.
#[verifier::external_type_specification]
#[verifier::external_body]
pub struct ExField(syn::Field);

/// `syn::Variant`, which only `syn`'s own functions look into.
#[verifier::external_type_specification]
#[verifier::external_body]
pub struct ExVariant(syn::Variant);

/// `syn::UseTree`, which only `syn`'s own functions look into.
#[verifier::external_type_specification]
#[verifier::external_body]
pub struct ExUseTree(syn::UseTree);

/// `proc_macro2::TokenStream`, which only `proc_macro2`'s own functions look into.
#[verifier::external_type_specification]
#[verifier::external_body]
pub struct ExTokenStream(proc_macro2::TokenStream);

/// `proc_macro2::Span`, which only `proc_macro2`'s own functions look into.
#[verifier::external_type_specification]
#[verifier::external_body]
pub struct ExSpan(proc_macro2::Span);

/// A piece of `syn`'s syntax tree, or several of them taken as one.
pub enum Syntax<'a> {
    Expr(&'a syn::Expr),
    Pat(&'a syn::Pat),
    Type(&'a syn::Type),
    Item(&'a syn::Item),
    Stmt(&'a syn::Stmt),
    Block(&'a syn::Block),
    Local(&'a syn::Local),
    Arm(&'a syn::Arm),
    Macro(&'a syn::Macro),
    Attribute(&'a syn::Attribute),
    Path(&'a syn::Path),
    Segment(&'a syn::PathSegment),
    FieldValue(&'a syn::FieldValue),
    FieldPat(&'a syn::FieldPat),
    Signature(&'a syn::Signature),
    FnArg(&'a syn::FnArg),
    Variadic(&'a syn::Variadic),
    BareFnArg(&'a syn::BareFnArg),
    Generics(&'a syn::Generics),
    GenericParam(&'a syn::GenericParam),
    WherePredicate(&'a syn::WherePredicate),
    Bound(&'a syn::TypeParamBound),
    GenericArgument(&'a syn::GenericArgument),
    ImplItem(&'a syn::ImplItem),
    TraitItem(&'a syn::TraitItem),
    ForeignItem(&'a syn::ForeignItem),
    Field(&'a syn::Field),
    Variant(&'a syn::Variant),
    UseTree(&'a syn::UseTree),
    Tokens(&'a proc_macro2::TokenStream),
    Parts(Vec<Syntax<'a>>),
}

/// The attributes of a piece of `syn`'s syntax tree.
pub type Attributes = Vec<syn::Attribute>;

/// What a piece of `syn`'s syntax tree holds.
pub uninterp spec fn tree_of(piece: Syntax<'_>) -> Tree;

/// What a source file holds, or why it cannot be parsed.
pub uninterp spec fn parsed(source: Seq<char>) -> Result<Tree, Seq<char>>;

/// What a parsed file holds.
pub uninterp spec fn file_tree(file: syn::File) -> Tree;

/// The line and the column of the start and of the end of a span; lines count from
/// one, columns from zero.
pub uninterp spec fn span_range(span: proc_macro2::Span) -> (usize, usize, usize, usize);

/// A span with columns that count from one.
pub open spec fn located(span: proc_macro2::Span) -> SourceSpan {
    let (start_line, start_column, end_line, end_column) = span_range(span);
    SourceSpan {
        start: Position { line: start_line, column: after(start_column as int) },
        end: Position { line: end_line, column: after(end_column as int) },
    }
}

/// The place of a node whose place does not matter.
pub open spec fn nowhere() -> SourceSpan {
    SourceSpan { start: Position { line: 0, column: 0 }, end: Position { line: 0, column: 0 } }
}

/// A tree with nothing but attributes and children.
pub open spec fn bare(kind: Kind, attributes: Seq<Tree>, children: Seq<Tree>) -> Tree {
    Tree {
        kind,
        words: seq![],
        value: None,
        flag: false,
        second: false,
        inputs: 0,
        span: nowhere(),
        marks: seq![],
        text: seq![],
        attributes,
        children,
        arguments: None,
        tokens: seq![],
    }
}

/// The tree of a piece; that of several pieces taken as one has them as children.
pub open spec fn full(piece: Syntax<'_>) -> Tree
    decreases piece,
{
    match piece {
        Syntax::Parts(pieces) => bare(
            Kind::Other,
            seq![],
            Seq::new(
                pieces@.len(),
                |i: int|
                    if 0 <= i < pieces@.len() {
                        full(pieces@[i])
                    } else {
                        arbitrary()
                    },
            ),
        ),
        _ => tree_of(piece),
    }
}

/// The trees of some pieces.
pub open spec fn trees(pieces: Seq<Syntax<'_>>) -> Seq<Tree> {
    Seq::new(pieces.len(), |i: int| full(pieces[i]))
}

pub open spec fn attribute_trees(attributes: Seq<syn::Attribute>) -> Seq<Tree> {
    Seq::new(attributes.len(), |i: int| tree_of(Syntax::Attribute(&attributes[i])))
}

/// Whether a tree is this one, its place and its text aside.
pub open spec fn shaped(tree: Tree, shape: Tree) -> bool {
    Tree { span: shape.span, text: shape.text, ..tree } == shape
}

/// `proc_macro2::Span::start` and `end`: the range depends on the span alone.
#[verifier::external_body]
fn range(span: proc_macro2::Span) -> (r: (usize, usize, usize, usize))
    ensures
        r == span_range(span),
{
    let (start, end) = (span.start(), span.end());
    (start.line, start.column, end.line, end.column)
}

fn locate(span: proc_macro2::Span) -> (r: SourceSpan)
    ensures
        r == located(span),
{
    let (start_line, start_column, end_line, end_column) = range(span);
    SourceSpan {
        start: Position::new(start_line, start_column.saturating_add(1)),
        end: Position::new(end_line, end_column.saturating_add(1)),
    }
}

/// `syn::parse_file`: whether the text parses, the file it gives and the message of the
/// error depend on the text alone.
#[verifier::external_body]
fn parse_file(source: &str) -> (r: Result<syn::File, String>)
    ensures
        match r {
            Ok(file) => parsed(source@) == Ok::<Tree, Seq<char>>(file_tree(file)),
            Err(message) => parsed(source@) == Err::<Tree, Seq<char>>(message@),
        },
{
    syn::parse_file(source).map_err(|error| error.to_string())
}

/// The items of a `syn::File`: they are what the file's tree has as children.
#[verifier::external_body]
fn file_items<'a>(file: &'a syn::File) -> (r: Vec<Syntax<'a>>)
    ensures
        file_tree(*file).children == trees(r@),
{
    file.items.iter().map(Syntax::Item).collect()
}

/// Kinds of expressions that have nothing but parts.
pub open spec fn expr_kinds_a(kind: Kind) -> bool {
    kind == Kind::Array || kind == Kind::Assign || kind == Kind::Async || kind == Kind::Await
        || kind == Kind::BlockExpr
}

/// Kinds of expressions that have nothing but parts.
pub open spec fn expr_kinds_b(kind: Kind) -> bool {
    kind == Kind::Break || kind == Kind::Call || kind == Kind::Cast || kind == Kind::ConstBlock
}

/// Kinds of expressions that have nothing but parts.
pub open spec fn expr_kinds_c(kind: Kind) -> bool {
    kind == Kind::Field || kind == Kind::Group || kind == Kind::If || kind == Kind::Index
}

/// Kinds of expressions that have nothing but parts.
pub open spec fn expr_kinds_d(kind: Kind) -> bool {
    kind == Kind::Infer || kind == Kind::Let || kind == Kind::Loop || kind == Kind::MacroExpr
        || kind == Kind::Match
}

/// Kinds of expressions that have nothing but parts.
pub open spec fn expr_kinds_e(kind: Kind) -> bool {
    kind == Kind::Paren || kind == Kind::Range || kind == Kind::RawAddr || kind == Kind::Repeat
}

/// Kinds of expressions that have nothing but parts.
pub open spec fn expr_kinds_f(kind: Kind) -> bool {
    kind == Kind::Try || kind == Kind::TryBlock || kind == Kind::Tuple || kind == Kind::Unsafe
        || kind == Kind::Yield
}

/// Kinds of expressions that have nothing but parts.
pub open spec fn expr_kinds_g(kind: Kind) -> bool {
    kind == Kind::Continue || kind == Kind::ForLoop || kind == Kind::Return || kind == Kind::While
}

/// Takes a `syn::Expr` apart by its variant: arrays, assignments and blocks that run
/// later or at once.
#[verifier::external_body]
fn expr_parts_a<'a>(node: &'a syn::Expr) -> (r: Option<(Kind, &'a Attributes, Vec<Syntax<'a>>)>)
    ensures
        match r {
            Some((kind, attributes, children)) => expr_kinds_a(kind) && shaped(
                tree_of(Syntax::Expr(node)),
                bare(kind, attribute_trees(attributes@), trees(children@)),
            ),
            None => !expr_kinds_a(tree_of(Syntax::Expr(node)).kind),
        },
{
    Some(
        match node {
            Expr::Array(x) => (Kind::Array, &x.attrs, x.elems.iter().map(Syntax::Expr).collect()),
            Expr::Assign(x) => (Kind::Assign, &x.attrs, vec![Syntax::Expr(&x.left), Syntax::Expr(&x.right)]),
            Expr::Async(x) => (Kind::Async, &x.attrs, vec![Syntax::Block(&x.block)]),
            Expr::Await(x) => (Kind::Await, &x.attrs, vec![Syntax::Expr(&x.base)]),
            Expr::Block(x) => (Kind::BlockExpr, &x.attrs, vec![Syntax::Block(&x.block)]),
            _ => return None,
        },
    )
}

/// Takes a `syn::Expr` apart by its variant: calls, casts, constants and `break`.
#[verifier::external_body]
fn expr_parts_b<'a>(node: &'a syn::Expr) -> (r: Option<(Kind, &'a Attributes, Vec<Syntax<'a>>)>)
    ensures
        match r {
            Some((kind, attributes, children)) => expr_kinds_b(kind) && shaped(
                tree_of(Syntax::Expr(node)),
                bare(kind, attribute_trees(attributes@), trees(children@)),
            ),
            None => !expr_kinds_b(tree_of(Syntax::Expr(node)).kind),
        },
{
    Some(
        match node {
            Expr::Break(x) => (Kind::Break, &x.attrs, x.expr.iter().map(|e| Syntax::Expr(e)).collect()),
            Expr::Call(x) => (Kind::Call, &x.attrs, once(Syntax::Expr(&x.func)).chain(x.args.iter().map(Syntax::Expr)).collect()),
            Expr::Cast(x) => (Kind::Cast, &x.attrs, vec![Syntax::Expr(&x.expr), Syntax::Type(&x.ty)]),
            Expr::Const(x) => (Kind::ConstBlock, &x.attrs, vec![Syntax::Block(&x.block)]),
            _ => return None,
        },
    )
}

/// Takes a `syn::Expr` apart by its variant: fields, groups, indices and `if`.
#[verifier::external_body]
fn expr_parts_c<'a>(node: &'a syn::Expr) -> (r: Option<(Kind, &'a Attributes, Vec<Syntax<'a>>)>)
    ensures
        match r {
            Some((kind, attributes, children)) => expr_kinds_c(kind) && shaped(
                tree_of(Syntax::Expr(node)),
                bare(kind, attribute_trees(attributes@), trees(children@)),
            ),
            None => !expr_kinds_c(tree_of(Syntax::Expr(node)).kind),
        },
{
    Some(
        match node {
            Expr::Field(x) => (Kind::Field, &x.attrs, vec![Syntax::Expr(&x.base)]),
            Expr::Group(x) => (Kind::Group, &x.attrs, vec![Syntax::Expr(&x.expr)]),
            Expr::If(x) => (Kind::If, &x.attrs, once(Syntax::Expr(&x.cond)).chain(once(Syntax::Block(&x.then_branch))).chain(x.else_branch.iter().map(|b| Syntax::Expr(&b.1))).collect()),
            Expr::Index(x) => (Kind::Index, &x.attrs, vec![Syntax::Expr(&x.expr), Syntax::Expr(&x.index)]),
            _ => return None,
        },
    )
}

/// Takes a `syn::Expr` apart by its variant: `let` conditions, loops, macros and `match`.
#[verifier::external_body]
fn expr_parts_d<'a>(node: &'a syn::Expr) -> (r: Option<(Kind, &'a Attributes, Vec<Syntax<'a>>)>)
    ensures
        match r {
            Some((kind, attributes, children)) => expr_kinds_d(kind) && shaped(
                tree_of(Syntax::Expr(node)),
                bare(kind, attribute_trees(attributes@), trees(children@)),
            ),
            None => !expr_kinds_d(tree_of(Syntax::Expr(node)).kind),
        },
{
    Some(
        match node {
            Expr::Infer(x) => (Kind::Infer, &x.attrs, vec![]),
            Expr::Let(x) => (Kind::Let, &x.attrs, vec![Syntax::Pat(&x.pat), Syntax::Expr(&x.expr)]),
            Expr::Loop(x) => (Kind::Loop, &x.attrs, vec![Syntax::Block(&x.body)]),
            Expr::Macro(x) => (Kind::MacroExpr, &x.attrs, vec![Syntax::Macro(&x.mac)]),
            Expr::Match(x) => (Kind::Match, &x.attrs, once(Syntax::Expr(&x.expr)).chain(x.arms.iter().map(Syntax::Arm)).collect()),
            _ => return None,
        },
    )
}

/// Takes a `syn::Expr` apart by its variant: parentheses, ranges, addresses and repeated
/// elements.
#[verifier::external_body]
fn expr_parts_e<'a>(node: &'a syn::Expr) -> (r: Option<(Kind, &'a Attributes, Vec<Syntax<'a>>)>)
    ensures
        match r {
            Some((kind, attributes, children)) => expr_kinds_e(kind) && shaped(
                tree_of(Syntax::Expr(node)),
                bare(kind, attribute_trees(attributes@), trees(children@)),
            ),
            None => !expr_kinds_e(tree_of(Syntax::Expr(node)).kind),
        },
{
    Some(
        match node {
            Expr::Paren(x) => (Kind::Paren, &x.attrs, vec![Syntax::Expr(&x.expr)]),
            Expr::Range(x) => (Kind::Range, &x.attrs, x.start.iter().chain(x.end.iter()).map(|e| Syntax::Expr(e)).collect()),
            Expr::RawAddr(x) => (Kind::RawAddr, &x.attrs, vec![Syntax::Expr(&x.expr)]),
            Expr::Repeat(x) => (Kind::Repeat, &x.attrs, vec![Syntax::Expr(&x.expr), Syntax::Expr(&x.len)]),
            _ => return None,
        },
    )
}

/// Takes a `syn::Expr` apart by its variant: `?`, tuples, `unsafe` and `yield`.
#[verifier::external_body]
fn expr_parts_f<'a>(node: &'a syn::Expr) -> (r: Option<(Kind, &'a Attributes, Vec<Syntax<'a>>)>)
    ensures
        match r {
            Some((kind, attributes, children)) => expr_kinds_f(kind) && shaped(
                tree_of(Syntax::Expr(node)),
                bare(kind, attribute_trees(attributes@), trees(children@)),
            ),
            None => !expr_kinds_f(tree_of(Syntax::Expr(node)).kind),
        },
{
    Some(
        match node {
            Expr::Try(x) => (Kind::Try, &x.attrs, vec![Syntax::Expr(&x.expr)]),
            Expr::TryBlock(x) => (Kind::TryBlock, &x.attrs, vec![Syntax::Block(&x.block)]),
            Expr::Tuple(x) => (Kind::Tuple, &x.attrs, x.elems.iter().map(Syntax::Expr).collect()),
            Expr::Unsafe(x) => (Kind::Unsafe, &x.attrs, vec![Syntax::Block(&x.block)]),
            Expr::Yield(x) => (Kind::Yield, &x.attrs, x.expr.iter().map(|e| Syntax::Expr(e)).collect()),
            _ => return None,
        },
    )
}

/// Takes a `syn::Expr` apart by its variant: `for` and `while`, `continue` and `return`.
#[verifier::external_body]
fn expr_parts_g<'a>(node: &'a syn::Expr) -> (r: Option<(Kind, &'a Attributes, Vec<Syntax<'a>>)>)
    ensures
        match r {
            Some((kind, attributes, children)) => expr_kinds_g(kind) && shaped(
                tree_of(Syntax::Expr(node)),
                bare(kind, attribute_trees(attributes@), trees(children@)),
            ),
            None => !expr_kinds_g(tree_of(Syntax::Expr(node)).kind),
        },
{
    Some(
        match node {
            Expr::Continue(x) => (Kind::Continue, &x.attrs, vec![]),
            Expr::ForLoop(x) => (Kind::ForLoop, &x.attrs, vec![Syntax::Pat(&x.pat), Syntax::Expr(&x.expr), Syntax::Block(&x.body)]),
            Expr::Return(x) => (Kind::Return, &x.attrs, x.expr.iter().map(|e| Syntax::Expr(e)).collect()),
            Expr::While(x) => (Kind::While, &x.attrs, vec![Syntax::Expr(&x.cond), Syntax::Block(&x.body)]),
            _ => return None,
        },
    )
}

/// `quote::ToTokens` and `TokenStream::to_string`: the tokens of a `syn::Expr` as text
/// are the text of its tree.
#[verifier::external_body]
fn expr_text(node: &syn::Expr) -> (r: String)
    ensures
        tree_of(Syntax::Expr(node)).text == r@,
{
    node.to_token_stream().to_string()
}

/// `syn::spanned::Spanned::span` of a `syn::Expr`: the place of its tree.
#[verifier::external_body]
fn expr_span(node: &syn::Expr) -> (r: proc_macro2::Span)
    ensures
        tree_of(Syntax::Expr(node)).span == located(r),
{
    node.span()
}

/// Takes a `syn::Expr::Binary` or `Unary` apart: the text of the operator and the
/// operands.
#[verifier::external_body]
fn expr_operator<'a>(node: &'a syn::Expr) -> (r: Option<
    (Kind, &'a Attributes, String, Vec<Syntax<'a>>),
>)
    ensures
        match r {
            Some((kind, attributes, operator, operands)) => (kind == Kind::Binary || kind
                == Kind::Unary) && shaped(
                tree_of(Syntax::Expr(node)),
                Tree {
                    words: seq![operator@],
                    ..bare(kind, attribute_trees(attributes@), trees(operands@))
                },
            ),
            None => tree_of(Syntax::Expr(node)).kind != Kind::Binary && tree_of(
                Syntax::Expr(node),
            ).kind != Kind::Unary,
        },
{
    let (kind, attrs, operator, operands) = match node {
        Expr::Binary(x) => (
            Kind::Binary,
            &x.attrs,
            x.op.to_token_stream(),
            vec![Syntax::Expr(&x.left), Syntax::Expr(&x.right)],
        ),
        Expr::Unary(x) => (Kind::Unary, &x.attrs, x.op.to_token_stream(), vec![Syntax::Expr(&x.expr)]),
        _ => return None,
    };
    Some((kind, attrs, operator.to_string(), operands))
}

/// Takes a `syn::Expr::Closure` apart: the bound lifetimes as one, the inputs, the type
/// of the result and the body, and how many inputs there are.
#[verifier::external_body]
fn expr_closure<'a>(node: &'a syn::Expr) -> (r: Option<(&'a Attributes, Vec<Syntax<'a>>, usize)>)
    ensures
        match r {
            Some((attributes, children, inputs)) => shaped(
                tree_of(Syntax::Expr(node)),
                Tree {
                    inputs,
                    ..bare(Kind::Closure, attribute_trees(attributes@), trees(children@))
                },
            ),
            None => tree_of(Syntax::Expr(node)).kind != Kind::Closure,
        },
{
    let Expr::Closure(x) = node else { return None };
    let lifetimes = x.lifetimes.iter().flat_map(|l| &l.lifetimes).map(Syntax::GenericParam).collect();
    let output = match &x.output {
        ReturnType::Type(_, t) => Some(Syntax::Type(t)),
        ReturnType::Default => None,
    };
    let start = once(Syntax::Parts(lifetimes)).chain(x.inputs.iter().map(Syntax::Pat));
    let children = start.chain(output).chain(once(Syntax::Expr(&x.body))).collect();
    Some((&x.attrs, children, x.inputs.len()))
}

/// Takes a `syn::Expr::MethodCall` apart: the method's name, and the receiver, the
/// generic arguments as one and the arguments.
#[verifier::external_body]
fn expr_method<'a>(node: &'a syn::Expr) -> (r: Option<(&'a Attributes, String, Vec<Syntax<'a>>)>)
    ensures
        match r {
            Some((attributes, method, children)) => shaped(
                tree_of(Syntax::Expr(node)),
                Tree {
                    words: seq![method@],
                    ..bare(Kind::MethodCall, attribute_trees(attributes@), trees(children@))
                },
            ),
            None => tree_of(Syntax::Expr(node)).kind != Kind::MethodCall,
        },
{
    let Expr::MethodCall(x) = node else { return None };
    let generics = x.turbofish.iter().flat_map(|t| &t.args).map(Syntax::GenericArgument).collect();
    let start = once(Syntax::Expr(&x.receiver)).chain(once(Syntax::Parts(generics)));
    Some((&x.attrs, x.method.to_string(), start.chain(x.args.iter().map(Syntax::Expr)).collect()))
}

/// Takes a `syn::Expr::Reference` apart: whether it is mutable, and the expression.
#[verifier::external_body]
fn expr_reference<'a>(node: &'a syn::Expr) -> (r: Option<(&'a Attributes, bool, Vec<Syntax<'a>>)>)
    ensures
        match r {
            Some((attributes, mutable, children)) => shaped(
                tree_of(Syntax::Expr(node)),
                Tree {
                    flag: mutable,
                    ..bare(Kind::Reference, attribute_trees(attributes@), trees(children@))
                },
            ),
            None => tree_of(Syntax::Expr(node)).kind != Kind::Reference,
        },
{
    let Expr::Reference(x) = node else { return None };
    Some((&x.attrs, x.mutability.is_some(), vec![Syntax::Expr(&x.expr)]))
}

/// Takes a `syn::Expr::Struct` apart: the path with its self type as one, the fields
/// and the base.
#[verifier::external_body]
fn expr_struct<'a>(node: &'a syn::Expr) -> (r: Option<(&'a Attributes, Vec<Syntax<'a>>)>)
    ensures
        match r {
            Some((attributes, children)) => shaped(
                tree_of(Syntax::Expr(node)),
                bare(Kind::StructLiteral, attribute_trees(attributes@), trees(children@)),
            ),
            None => tree_of(Syntax::Expr(node)).kind != Kind::StructLiteral,
        },
{
    let Expr::Struct(x) = node else { return None };
    let own = x.qself.iter().map(|q| Syntax::Type(&q.ty)).chain(once(Syntax::Path(&x.path)));
    let start = once(Syntax::Parts(own.collect())).chain(x.fields.iter().map(Syntax::FieldValue));
    Some((&x.attrs, start.chain(x.rest.iter().map(|e| Syntax::Expr(e))).collect()))
}

/// The trees of a path and of the self type before it.
pub open spec fn path_trees(own: Option<&syn::Type>, path: &syn::Path) -> Seq<Tree> {
    match own {
        Some(own) => seq![tree_of(Syntax::Type(own)), tree_of(Syntax::Path(path))],
        None => seq![tree_of(Syntax::Path(path))],
    }
}

/// A tree that a path makes: its words and its flag are those of the path.
pub open spec fn path_shape(
    kind: Kind,
    attributes: Seq<Tree>,
    own: Option<&syn::Type>,
    path: &syn::Path,
) -> Tree {
    Tree {
        words: tree_of(Syntax::Path(path)).words,
        flag: tree_of(Syntax::Path(path)).flag,
        second: own is Some,
        ..bare(kind, attributes, path_trees(own, path))
    }
}

/// Takes a `syn::Expr::Path` apart: the self type and the path.
#[verifier::external_body]
fn expr_path<'a>(node: &'a syn::Expr) -> (r: Option<
    (&'a Attributes, Option<&'a syn::Type>, &'a syn::Path),
>)
    ensures
        match r {
            Some((attributes, own, path)) => shaped(
                tree_of(Syntax::Expr(node)),
                path_shape(Kind::Path, attribute_trees(attributes@), own, path),
            ),
            None => tree_of(Syntax::Expr(node)).kind != Kind::Path,
        },
{
    let Expr::Path(x) = node else { return None };
    Some((&x.attrs, x.qself.as_ref().map(|q| &*q.ty), &x.path))
}

pub open spec fn literal_kind(kind: Kind) -> bool {
    kind == Kind::StrLiteral || kind == Kind::IntLiteral || kind == Kind::BoolLiteral || kind
        == Kind::OtherLiteral
}

/// What kind of literal a `syn::Lit` is, the value of a string and that of a Boolean.
pub uninterp spec fn literal_of(literal: syn::Lit) -> (Kind, Option<Seq<char>>, bool);

/// Takes a `syn::Lit` apart: `syn::LitStr::value` and `syn::LitBool::value`, and which
/// of the variants it is.
#[verifier::external_body]
fn literal_parts(node: &syn::Lit) -> (r: (Kind, Option<String>, bool))
    ensures
        literal_of(*node) == (r.0, option_view(r.1), r.2),
        literal_kind(r.0),
{
    match node {
        Lit::Str(x) => (Kind::StrLiteral, Some(x.value()), false),
        Lit::Int(_) => (Kind::IntLiteral, None, false),
        Lit::Bool(x) => (Kind::BoolLiteral, None, x.value),
        _ => (Kind::OtherLiteral, None, false),
    }
}

/// A tree that a literal makes.
pub open spec fn literal_shape(attributes: Seq<Tree>, literal: syn::Lit) -> Tree {
    let (kind, value, flag) = literal_of(literal);
    Tree { value, flag, ..bare(kind, attributes, seq![]) }
}

/// Takes a `syn::Expr::Lit` apart: the literal. What is neither this nor any of the
/// variants above is the one that `syn` leaves unread, which has no parts.
#[verifier::external_body]
fn expr_literal<'a>(node: &'a syn::Expr) -> (r: Option<(&'a Attributes, &'a syn::Lit)>)
    ensures
        match r {
            Some((attributes, literal)) => shaped(
                tree_of(Syntax::Expr(node)),
                literal_shape(attribute_trees(attributes@), *literal),
            ),
            None => expr_kinds(tree_of(Syntax::Expr(node)).kind) || shaped(
                tree_of(Syntax::Expr(node)),
                bare(Kind::Other, seq![], seq![]),
            ),
        },
{
    match node {
        Expr::Lit(x) => Some((&x.attrs, &x.lit)),
        _ => None,
    }
}

/// Kinds of expressions that are no literals.
pub open spec fn expr_kinds(kind: Kind) -> bool {
    expr_kinds_a(kind) || expr_kinds_b(kind) || expr_kinds_c(kind) || expr_kinds_d(kind)
        || expr_kinds_e(kind) || expr_kinds_f(kind) || expr_kinds_g(kind)
        || kind == Kind::Binary || kind == Kind::Unary
        || kind == Kind::Closure || kind == Kind::MethodCall || kind == Kind::Reference || kind
        == Kind::StructLiteral || kind == Kind::Path
}

/// Kinds of patterns that have nothing but parts.
pub open spec fn pat_kinds_a(kind: Kind) -> bool {
    kind == Kind::ConstBlock || kind == Kind::MacroExpr || kind == Kind::PatParen
        || kind == Kind::Range || kind == Kind::PatReference
}

/// Kinds of patterns that have nothing but parts.
pub open spec fn pat_kinds_b(kind: Kind) -> bool {
    kind == Kind::PatSlice || kind == Kind::PatTuple || kind == Kind::PatType
        || kind == Kind::PatWild
}

/// Takes a `syn::Pat` apart by its variant: constants, macros, parentheses, ranges and references.
#[verifier::external_body]
fn pat_parts_a<'a>(node: &'a syn::Pat) -> (r: Option<(Kind, &'a Attributes, Vec<Syntax<'a>>)>)
    ensures
        match r {
            Some((kind, attributes, children)) => pat_kinds_a(kind) && shaped(
                tree_of(Syntax::Pat(node)),
                bare(kind, attribute_trees(attributes@), trees(children@)),
            ),
            None => !pat_kinds_a(tree_of(Syntax::Pat(node)).kind),
        },
{
    Some(
        match node {
            Pat::Const(x) => (Kind::ConstBlock, &x.attrs, vec![Syntax::Block(&x.block)]),
            Pat::Macro(x) => (Kind::MacroExpr, &x.attrs, vec![Syntax::Macro(&x.mac)]),
            Pat::Paren(x) => (Kind::PatParen, &x.attrs, vec![Syntax::Pat(&x.pat)]),
            Pat::Range(x) => (Kind::Range, &x.attrs, x.start.iter().chain(x.end.iter()).map(|e| Syntax::Expr(e)).collect()),
            Pat::Reference(x) => (Kind::PatReference, &x.attrs, vec![Syntax::Pat(&x.pat)]),
            _ => return None,
        },
    )
}

/// Takes a `syn::Pat` apart by its variant: slices, tuples, patterns with a type and the wildcard.
#[verifier::external_body]
fn pat_parts_b<'a>(node: &'a syn::Pat) -> (r: Option<(Kind, &'a Attributes, Vec<Syntax<'a>>)>)
    ensures
        match r {
            Some((kind, attributes, children)) => pat_kinds_b(kind) && shaped(
                tree_of(Syntax::Pat(node)),
                bare(kind, attribute_trees(attributes@), trees(children@)),
            ),
            None => !pat_kinds_b(tree_of(Syntax::Pat(node)).kind),
        },
{
    Some(
        match node {
            Pat::Slice(x) => (Kind::PatSlice, &x.attrs, x.elems.iter().map(Syntax::Pat).collect()),
            Pat::Tuple(x) => (Kind::PatTuple, &x.attrs, x.elems.iter().map(Syntax::Pat).collect()),
            Pat::Type(x) => (Kind::PatType, &x.attrs, vec![Syntax::Pat(&x.pat), Syntax::Type(&x.ty)]),
            Pat::Wild(x) => (Kind::PatWild, &x.attrs, vec![]),
            _ => return None,
        },
    )
}

/// `syn::spanned::Spanned::span` of a `syn::Pat`: the place of its tree, which has no
/// text.
#[verifier::external_body]
fn pat_span(node: &syn::Pat) -> (r: proc_macro2::Span)
    ensures
        (tree_of(Syntax::Pat(node)).span, tree_of(Syntax::Pat(node)).text) == (
            located(r),
            Seq::<char>::empty(),
        ),
{
    node.span()
}

/// Takes a `syn::Pat::Ident` apart: the name and the subpattern.
#[verifier::external_body]
fn pat_ident<'a>(node: &'a syn::Pat) -> (r: Option<(&'a Attributes, String, Vec<Syntax<'a>>)>)
    ensures
        match r {
            Some((attributes, name, children)) => shaped(
                tree_of(Syntax::Pat(node)),
                Tree {
                    words: seq![name@],
                    ..bare(Kind::PatIdent, attribute_trees(attributes@), trees(children@))
                },
            ),
            None => tree_of(Syntax::Pat(node)).kind != Kind::PatIdent,
        },
{
    let Pat::Ident(x) = node else { return None };
    let children = x.subpat.iter().map(|s| Syntax::Pat(&s.1)).collect();
    Some((&x.attrs, x.ident.to_string(), children))
}

/// Takes a `syn::Pat::Path` apart: the self type and the path.
#[verifier::external_body]
fn pat_path<'a>(node: &'a syn::Pat) -> (r: Option<
    (&'a Attributes, Option<&'a syn::Type>, &'a syn::Path),
>)
    ensures
        match r {
            Some((attributes, own, path)) => shaped(
                tree_of(Syntax::Pat(node)),
                path_shape(Kind::Path, attribute_trees(attributes@), own, path),
            ),
            None => tree_of(Syntax::Pat(node)).kind != Kind::Path,
        },
{
    let Pat::Path(x) = node else { return None };
    Some((&x.attrs, x.qself.as_ref().map(|q| &*q.ty), &x.path))
}

/// Takes a `syn::Pat::Struct` apart: the path with its self type as one, the fields and
/// what stands for the rest, of which only the attributes have parts.
#[verifier::external_body]
fn pat_struct<'a>(node: &'a syn::Pat) -> (r: Option<(&'a Attributes, Vec<Syntax<'a>>)>)
    ensures
        match r {
            Some((attributes, children)) => shaped(
                tree_of(Syntax::Pat(node)),
                bare(Kind::PatStruct, attribute_trees(attributes@), trees(children@)),
            ),
            None => tree_of(Syntax::Pat(node)).kind != Kind::PatStruct,
        },
{
    let Pat::Struct(x) = node else { return None };
    let own = x.qself.iter().map(|q| Syntax::Type(&q.ty)).chain(once(Syntax::Path(&x.path)));
    let start = once(Syntax::Parts(own.collect())).chain(x.fields.iter().map(Syntax::FieldPat));
    let rest = x.rest.iter().flat_map(|rest| &rest.attrs).map(Syntax::Attribute);
    Some((&x.attrs, start.chain(rest).collect()))
}

/// Takes a `syn::Pat::TupleStruct` apart: the self type, the path and the elements.
#[verifier::external_body]
fn pat_tuple_struct<'a>(node: &'a syn::Pat) -> (r: Option<
    (&'a Attributes, Option<&'a syn::Type>, &'a syn::Path, Vec<Syntax<'a>>),
>)
    ensures
        match r {
            Some((attributes, own, path, elements)) => shaped(
                tree_of(Syntax::Pat(node)),
                Tree {
                    words: tree_of(Syntax::Path(path)).words,
                    ..bare(
                        Kind::PatTupleStruct,
                        attribute_trees(attributes@),
                        seq![bare(Kind::Other, seq![], path_trees(own, path))] + trees(elements@),
                    )
                },
            ),
            None => tree_of(Syntax::Pat(node)).kind != Kind::PatTupleStruct,
        },
{
    let Pat::TupleStruct(x) = node else { return None };
    let elements = x.elems.iter().map(Syntax::Pat).collect();
    Some((&x.attrs, x.qself.as_ref().map(|q| &*q.ty), &x.path, elements))
}

/// Takes a `syn::Pat::Lit` apart: the literal.
#[verifier::external_body]
fn pat_literal<'a>(node: &'a syn::Pat) -> (r: Option<(&'a Attributes, &'a syn::Lit)>)
    ensures
        match r {
            Some((attributes, literal)) => shaped(
                tree_of(Syntax::Pat(node)),
                literal_shape(attribute_trees(attributes@), *literal),
            ),
            None => !literal_kind(tree_of(Syntax::Pat(node)).kind),
        },
{
    match node {
        Pat::Lit(x) => Some((&x.attrs, &x.lit)),
        _ => None,
    }
}

/// Takes a `syn::Pat::Or` or `Rest` apart: the alternatives. What is neither this nor
/// any of the variants above is the one that `syn` leaves unread, which has no parts.
#[verifier::external_body]
fn pat_other<'a>(node: &'a syn::Pat) -> (r: Option<(&'a Attributes, Vec<Syntax<'a>>)>)
    ensures
        match r {
            Some((attributes, children)) => shaped(
                tree_of(Syntax::Pat(node)),
                bare(Kind::Other, attribute_trees(attributes@), trees(children@)),
            ),
            None => pat_kinds(tree_of(Syntax::Pat(node)).kind) || shaped(
                tree_of(Syntax::Pat(node)),
                bare(Kind::Other, seq![], seq![]),
            ),
        },
{
    match node {
        Pat::Or(x) => Some((&x.attrs, x.cases.iter().map(Syntax::Pat).collect())),
        Pat::Rest(x) => Some((&x.attrs, vec![])),
        _ => None,
    }
}

/// Kinds of patterns that are no alternatives.
pub open spec fn pat_kinds(kind: Kind) -> bool {
    pat_kinds_a(kind) || pat_kinds_b(kind) || kind == Kind::PatIdent || kind == Kind::Path || kind
        == Kind::PatStruct || kind == Kind::PatTupleStruct || literal_kind(kind)
}

/// The trees of attributes where a piece can have them.
pub open spec fn optional_trees(attributes: Option<&Attributes>) -> Seq<Tree> {
    match attributes {
        Some(attributes) => attribute_trees(attributes@),
        None => seq![],
    }
}

/// Takes a `syn::Type::Path` apart: the self type and the path.
#[verifier::external_body]
fn type_path<'a>(node: &'a syn::Type) -> (r: Option<(Option<&'a syn::Type>, &'a syn::Path)>)
    ensures
        match r {
            Some((own, path)) => tree_of(Syntax::Type(node)) == path_shape(
                Kind::TypePath,
                seq![],
                own,
                path,
            ),
            None => tree_of(Syntax::Type(node)).kind != Kind::TypePath,
        },
{
    let Type::Path(x) = node else { return None };
    Some((x.qself.as_ref().map(|q| &*q.ty), &x.path))
}

/// Takes a `syn::Type::BareFn` apart: the bound lifetimes, the inputs, the attributes of
/// what stands for more of them, and the type of the result.
#[verifier::external_body]
fn type_function<'a>(node: &'a syn::Type) -> (r: Option<Vec<Syntax<'a>>>)
    ensures
        match r {
            Some(children) => tree_of(Syntax::Type(node)) == bare(
                Kind::TypeFunction,
                seq![],
                trees(children@),
            ),
            None => tree_of(Syntax::Type(node)).kind != Kind::TypeFunction,
        },
{
    let Type::BareFn(x) = node else { return None };
    let lifetimes = x.lifetimes.iter().flat_map(|l| &l.lifetimes).map(Syntax::GenericParam);
    let rest = x.variadic.iter().flat_map(|v| &v.attrs).map(Syntax::Attribute);
    let output = match &x.output {
        ReturnType::Type(_, t) => Some(Syntax::Type(t)),
        ReturnType::Default => None,
    };
    let inputs = x.inputs.iter().map(Syntax::BareFnArg);
    Some(lifetimes.chain(inputs).chain(rest).chain(output).collect())
}

/// Takes a `syn::Type` apart by its variant: types made of one type, arrays and
/// tuples.
#[verifier::external_body]
fn type_parts<'a>(node: &'a syn::Type) -> (r: Option<(Kind, Vec<Syntax<'a>>)>)
    ensures
        match r {
            Some((kind, children)) => (kind == Kind::TypeInner || kind == Kind::TypeTuple)
                && tree_of(Syntax::Type(node)) == bare(kind, seq![], trees(children@)),
            None => tree_of(Syntax::Type(node)).kind != Kind::TypeInner && tree_of(
                Syntax::Type(node),
            ).kind != Kind::TypeTuple,
        },
{
    let inner = match node {
        Type::Array(x) => {
            return Some((Kind::TypeInner, vec![Syntax::Type(&x.elem), Syntax::Expr(&x.len)]));
        },
        Type::Group(x) => &x.elem,
        Type::Paren(x) => &x.elem,
        Type::Ptr(x) => &x.elem,
        Type::Reference(x) => &x.elem,
        Type::Slice(x) => &x.elem,
        Type::Tuple(x) => return Some((Kind::TypeTuple, x.elems.iter().map(Syntax::Type).collect())),
        _ => return None,
    };
    Some((Kind::TypeInner, vec![Syntax::Type(inner)]))
}

/// Takes a `syn::Type` apart by its variant: types made of bounds, and macros. What is
/// none of these and none of the variants above has no parts.
#[verifier::external_body]
fn type_other<'a>(node: &'a syn::Type) -> (r: Option<(Kind, Vec<Syntax<'a>>)>)
    ensures
        match r {
            Some((kind, children)) => tree_of(Syntax::Type(node)) == bare(
                kind,
                seq![],
                trees(children@),
            ),
            None => type_kinds(tree_of(Syntax::Type(node)).kind) || tree_of(Syntax::Type(node))
                == bare(Kind::Other, seq![], seq![]),
        },
{
    Some(match node {
        Type::ImplTrait(x) => (Kind::TypeBounds, x.bounds.iter().map(Syntax::Bound).collect()),
        Type::TraitObject(x) => (Kind::TypeBounds, x.bounds.iter().map(Syntax::Bound).collect()),
        Type::Macro(x) => (Kind::TypeMacro, vec![Syntax::Macro(&x.mac)]),
        _ => return None,
    })
}

/// Kinds of types that have parts and are made of neither bounds nor a macro.
pub open spec fn type_kinds(kind: Kind) -> bool {
    kind == Kind::TypePath || kind == Kind::TypeFunction || kind == Kind::TypeInner || kind
        == Kind::TypeTuple
}

/// Takes a `syn::Item` apart by its variant: constants, statics and type aliases, with the name.
#[verifier::external_body]
fn item_constant<'a>(node: &'a syn::Item) -> (r: Option<
    (Kind, &'a Attributes, String, Vec<Syntax<'a>>),
>)
    ensures
        match r {
            Some((kind, attributes, name, children)) => {
                &&& kind == Kind::Constant || kind == Kind::TypeAlias
                &&& tree_of(Syntax::Item(node)) == (Tree {
                    words: seq![name@],
                    ..bare(kind, attribute_trees(attributes@), trees(children@))
                })
            },
            None => {
                &&& tree_of(Syntax::Item(node)).kind != Kind::Constant
                &&& tree_of(Syntax::Item(node)).kind != Kind::TypeAlias
            },
        },
{
    let (kind, attrs, name, children) = match node {
        Item::Const(x) => (Kind::Constant, &x.attrs, &x.ident, vec![Syntax::Generics(&x.generics), Syntax::Type(&x.ty), Syntax::Expr(&x.expr)]),
        Item::Static(x) => (Kind::Constant, &x.attrs, &x.ident, vec![Syntax::Type(&x.ty), Syntax::Expr(&x.expr)]),
        Item::Type(x) => (Kind::TypeAlias, &x.attrs, &x.ident, vec![Syntax::Generics(&x.generics), Syntax::Type(&x.ty)]),
        _ => return None,
    };
    Some((kind, attrs, name.to_string(), children))
}

/// Takes a `syn::Item` apart by its variant: enumerations, structures and unions, with the name.
#[verifier::external_body]
fn item_data<'a>(node: &'a syn::Item) -> (r: Option<
    (Kind, &'a Attributes, String, Vec<Syntax<'a>>),
>)
    ensures
        match r {
            Some((kind, attributes, name, children)) => {
                &&& kind == Kind::Data
                &&& tree_of(Syntax::Item(node)) == (Tree {
                    words: seq![name@],
                    ..bare(kind, attribute_trees(attributes@), trees(children@))
                })
            },
            None => tree_of(Syntax::Item(node)).kind != Kind::Data,
        },
{
    let (attrs, name, generics, parts): (_, _, _, Vec<Syntax>) = match node {
        Item::Enum(x) => (&x.attrs, &x.ident, &x.generics, x.variants.iter().map(Syntax::Variant).collect()),
        Item::Struct(x) => (&x.attrs, &x.ident, &x.generics, x.fields.iter().map(Syntax::Field).collect()),
        Item::Union(x) => (&x.attrs, &x.ident, &x.generics, x.fields.named.iter().map(Syntax::Field).collect()),
        _ => return None,
    };
    Some((Kind::Data, attrs, name.to_string(), once(Syntax::Generics(generics)).chain(parts).collect()))
}

/// Takes a `syn::Item` apart by its variant: traits and their aliases, with the name.
#[verifier::external_body]
fn item_trait<'a>(node: &'a syn::Item) -> (r: Option<
    (Kind, &'a Attributes, String, Vec<Syntax<'a>>),
>)
    ensures
        match r {
            Some((kind, attributes, name, children)) => {
                &&& kind == Kind::Trait
                &&& tree_of(Syntax::Item(node)) == (Tree {
                    words: seq![name@],
                    ..bare(kind, attribute_trees(attributes@), trees(children@))
                })
            },
            None => tree_of(Syntax::Item(node)).kind != Kind::Trait,
        },
{
    let (kind, attrs, name, children) = match node {
        Item::Trait(x) => (Kind::Trait, &x.attrs, &x.ident, once(Syntax::Generics(&x.generics)).chain(x.supertraits.iter().map(Syntax::Bound)).chain(x.items.iter().map(Syntax::TraitItem)).collect()),
        Item::TraitAlias(x) => (Kind::Trait, &x.attrs, &x.ident, once(Syntax::Generics(&x.generics)).chain(x.bounds.iter().map(Syntax::Bound)).collect()),
        _ => return None,
    };
    Some((kind, attrs, name.to_string(), children))
}

/// Takes a `syn::Item` apart by its variant: imported crates and modules, with the name.
#[verifier::external_body]
fn item_scope<'a>(node: &'a syn::Item) -> (r: Option<
    (Kind, &'a Attributes, String, Vec<Syntax<'a>>),
>)
    ensures
        match r {
            Some((kind, attributes, name, children)) => {
                &&& kind == Kind::CrateImport || kind == Kind::Module
                &&& tree_of(Syntax::Item(node)) == (Tree {
                    words: seq![name@],
                    ..bare(kind, attribute_trees(attributes@), trees(children@))
                })
            },
            None => {
                &&& tree_of(Syntax::Item(node)).kind != Kind::CrateImport
                &&& tree_of(Syntax::Item(node)).kind != Kind::Module
            },
        },
{
    let (kind, attrs, name, children) = match node {
        Item::ExternCrate(x) => (Kind::CrateImport, &x.attrs, &x.ident, vec![]),
        Item::Mod(x) => (Kind::Module, &x.attrs, &x.ident, x.content.iter().flat_map(|c| &c.1).map(Syntax::Item).collect()),
        _ => return None,
    };
    Some((kind, attrs, name.to_string(), children))
}

/// Takes a `syn::Item::Macro` apart: the name that it defines and the macro.
#[verifier::external_body]
fn item_macro<'a>(node: &'a syn::Item) -> (r: Option<
    (&'a Attributes, Vec<String>, Vec<Syntax<'a>>),
>)
    ensures
        match r {
            Some((attributes, names, children)) => tree_of(Syntax::Item(node)) == (Tree {
                words: views(names@),
                ..bare(Kind::MacroItem, attribute_trees(attributes@), trees(children@))
            }),
            None => tree_of(Syntax::Item(node)).kind != Kind::MacroItem,
        },
{
    let Item::Macro(x) = node else { return None };
    let names = x.ident.iter().map(|name| name.to_string()).collect();
    Some((&x.attrs, names, vec![Syntax::Macro(&x.mac)]))
}

/// Takes a `syn::Item::Fn` apart: the name, the signature and the block, and the places
/// of `fn`, of the name and of the closing brace.
#[verifier::external_body]
fn item_function<'a>(node: &'a syn::Item) -> (r: Option<
    (&'a Attributes, String, Vec<Syntax<'a>>, Vec<proc_macro2::Span>),
>)
    ensures
        match r {
            Some((attributes, name, children, places)) => tree_of(Syntax::Item(node)) == (Tree {
                words: seq![name@],
                marks: Seq::new(places@.len(), |i: int| located(places@[i])),
                ..bare(Kind::Function, attribute_trees(attributes@), trees(children@))
            }),
            None => tree_of(Syntax::Item(node)).kind != Kind::Function,
        },
{
    let Item::Fn(x) = node else { return None };
    let children = vec![Syntax::Signature(&x.sig), Syntax::Block(&x.block)];
    let close = x.block.brace_token.span.close();
    let places = vec![x.sig.fn_token.span, x.sig.ident.span(), close];
    Some((&x.attrs, x.sig.ident.to_string(), children, places))
}

/// Takes a `syn::Item` apart by its variant: imports, implementations and items of
/// another language. What is none of these and none of the variants above has no parts.
#[verifier::external_body]
fn item_other<'a>(node: &'a syn::Item) -> (r: Option<(Kind, &'a Attributes, Vec<Syntax<'a>>)>)
    ensures
        match r {
            Some((kind, attributes, children)) => tree_of(Syntax::Item(node)) == bare(
                kind,
                attribute_trees(attributes@),
                trees(children@),
            ),
            None => item_kinds(tree_of(Syntax::Item(node)).kind) || tree_of(Syntax::Item(node))
                == bare(Kind::Other, seq![], seq![]),
        },
{
    Some(match node {
        Item::Use(x) => (Kind::Use, &x.attrs, vec![Syntax::UseTree(&x.tree)]),
        Item::ForeignMod(x) => (Kind::Other, &x.attrs, x.items.iter().map(Syntax::ForeignItem).collect()),
        Item::Impl(x) => {
            let start = once(Syntax::Generics(&x.generics)).chain(x.trait_.iter().map(|t| Syntax::Path(&t.1)));
            let own = start.chain(once(Syntax::Type(&x.self_ty)));
            (Kind::Other, &x.attrs, own.chain(x.items.iter().map(Syntax::ImplItem)).collect())
        },
        _ => return None,
    })
}

/// Kinds of items with a name.
pub open spec fn item_kinds(kind: Kind) -> bool {
    kind == Kind::Constant || kind == Kind::TypeAlias || kind == Kind::Data || kind == Kind::Trait
        || kind == Kind::CrateImport || kind == Kind::Module || kind == Kind::MacroItem || kind
        == Kind::Function
}

/// Takes a `syn::Stmt` apart: its attributes, whether it is an expression without a
/// semicolon, and the one thing it consists of.
#[verifier::external_body]
fn stmt_parts<'a>(node: &'a syn::Stmt) -> (r: (Option<&'a Attributes>, bool, Vec<Syntax<'a>>))
    ensures
        shaped(
            tree_of(Syntax::Stmt(node)),
            Tree { flag: r.1, ..bare(Kind::Statement, optional_trees(r.0), trees(r.2@)) },
        ),
{
    match node {
        Stmt::Local(x) => (None, false, vec![Syntax::Local(x)]),
        Stmt::Item(x) => (None, false, vec![Syntax::Item(x)]),
        Stmt::Expr(x, semicolon) => (None, semicolon.is_none(), vec![Syntax::Expr(x)]),
        Stmt::Macro(x) => (Some(&x.attrs), false, vec![Syntax::Macro(&x.mac)]),
    }
}

/// `syn::spanned::Spanned::span` of a `syn::Stmt`: the place of its tree, which has no
/// text.
#[verifier::external_body]
fn stmt_span(node: &syn::Stmt) -> (r: proc_macro2::Span)
    ensures
        (tree_of(Syntax::Stmt(node)).span, tree_of(Syntax::Stmt(node)).text) == (
            located(r),
            Seq::<char>::empty(),
        ),
{
    node.span()
}

/// Takes a `syn::Local` apart: the pattern, the value and the other branch, and whether
/// there is a value.
#[verifier::external_body]
fn local_parts<'a>(node: &'a syn::Local) -> (r: (&'a Attributes, bool, Vec<Syntax<'a>>))
    ensures
        shaped(
            tree_of(Syntax::Local(node)),
            Tree { flag: r.1, ..bare(Kind::Local, attribute_trees(r.0@), trees(r.2@)) },
        ),
{
    let value = node.init.iter().map(|init| Syntax::Expr(&init.expr));
    let other = node.init.iter().flat_map(|init| &init.diverge).map(|d| Syntax::Expr(&d.1));
    let children = once(Syntax::Pat(&node.pat)).chain(value).chain(other).collect();
    (&node.attrs, node.init.is_some(), children)
}

/// `syn::spanned::Spanned::span` of a `syn::Local`: the place of its tree, which has no
/// text.
#[verifier::external_body]
fn local_span(node: &syn::Local) -> (r: proc_macro2::Span)
    ensures
        (tree_of(Syntax::Local(node)).span, tree_of(Syntax::Local(node)).text) == (
            located(r),
            Seq::<char>::empty(),
        ),
{
    node.span()
}

/// Takes a `syn::Arm` apart: the pattern, the guard and the body, and whether there is a
/// guard.
#[verifier::external_body]
fn arm_parts<'a>(node: &'a syn::Arm) -> (r: (&'a Attributes, bool, Vec<Syntax<'a>>))
    ensures
        tree_of(Syntax::Arm(node)) == (Tree {
            flag: r.1,
            ..bare(Kind::Arm, attribute_trees(r.0@), trees(r.2@))
        }),
{
    let guard = node.guard.iter().map(|guard| Syntax::Expr(&guard.1));
    let children = once(Syntax::Pat(&node.pat)).chain(guard).chain(once(Syntax::Expr(&node.body)));
    (&node.attrs, node.guard.is_some(), children.collect())
}

/// Takes a `syn::Macro` apart: the path and the tokens.
#[verifier::external_body]
fn macro_parts<'a>(node: &'a syn::Macro) -> (r: (&'a syn::Path, &'a proc_macro2::TokenStream))
    ensures
        ({
            let tree = tree_of(Syntax::Macro(node));
            let path = tree_of(Syntax::Path(r.0));
            tree == (Tree {
                words: path.words,
                span: tree.span,
                text: tree.text,
                arguments: tree.arguments,
                tokens: tree_of(Syntax::Tokens(r.1)).children,
                ..bare(Kind::Macro, seq![], seq![path])
            })
        }),
{
    (&node.path, &node.tokens)
}

/// `Punctuated::parse_terminated` on the tokens of a `syn::Macro`: the expressions that
/// they make when read as a list separated by commas, if they can be read so.
#[verifier::external_body]
fn macro_arguments(node: &syn::Macro) -> (r: Option<Vec<syn::Expr>>)
    ensures
        tree_of(Syntax::Macro(node)).arguments == (match r {
            Some(list) => Some(expr_trees(list@)),
            None => None,
        }),
{
    let parser = Punctuated::<syn::Expr, syn::token::Comma>::parse_terminated;
    parser.parse2(node.tokens.clone()).ok().map(|list| list.into_iter().collect())
}

pub open spec fn expr_trees(list: Seq<syn::Expr>) -> Seq<Tree> {
    Seq::new(list.len(), |i: int| tree_of(Syntax::Expr(&list[i])))
}

/// `quote::ToTokens` and `TokenStream::to_string`: the tokens of a `syn::Macro` as text
/// are the text of its tree.
#[verifier::external_body]
fn macro_text(node: &syn::Macro) -> (r: String)
    ensures
        tree_of(Syntax::Macro(node)).text == r@,
{
    node.to_token_stream().to_string()
}

/// `syn::spanned::Spanned::span` of a `syn::Macro`: the place of its tree.
#[verifier::external_body]
fn macro_span(node: &syn::Macro) -> (r: proc_macro2::Span)
    ensures
        tree_of(Syntax::Macro(node)).span == located(r),
{
    node.span()
}

/// A token, or the tokens of a group.
pub enum Token {
    Ident(String),
    Group(proc_macro2::TokenStream),
    Other,
}

pub open spec fn token_tree(token: Token) -> Tree {
    match token {
        Token::Ident(name) => Tree {
            words: seq![name@],
            ..bare(Kind::TokenIdent, seq![], seq![])
        },
        Token::Group(tokens) => tree_of(Syntax::Tokens(&tokens)),
        Token::Other => bare(Kind::Other, seq![], seq![]),
    }
}

pub open spec fn token_trees(tokens: Seq<Token>) -> Seq<Tree> {
    Seq::new(tokens.len(), |i: int| token_tree(tokens[i]))
}

/// Takes a `proc_macro2::TokenStream` apart: its tokens in order.
#[verifier::external_body]
fn token_parts(node: &proc_macro2::TokenStream) -> (r: Vec<Token>)
    ensures
        tree_of(Syntax::Tokens(node)) == bare(Kind::TokenGroup, seq![], token_trees(r@)),
{
    let tokens = node.clone().into_iter().map(|token| match token {
        TokenTree::Ident(name) => Token::Ident(name.to_string()),
        TokenTree::Group(group) => Token::Group(group.stream()),
        TokenTree::Punct(_) | TokenTree::Literal(_) => Token::Other,
    });
    tokens.collect()
}

/// Takes a `syn::Attribute` apart: whether it has the form with a list, and the path
/// and the value.
#[verifier::external_body]
fn attribute_parts<'a>(node: &'a syn::Attribute) -> (r: (bool, Vec<Syntax<'a>>))
    ensures
        ({
            let tree = tree_of(Syntax::Attribute(node));
            tree == (Tree {
                flag: r.0,
                span: tree.span,
                arguments: tree.arguments,
                ..bare(Kind::Attribute, seq![], trees(r.1@))
            })
        }),
{
    match &node.meta {
        Meta::Path(path) => (false, vec![Syntax::Path(path)]),
        Meta::List(list) => (true, vec![Syntax::Path(&list.path)]),
        Meta::NameValue(x) => (false, vec![Syntax::Path(&x.path), Syntax::Expr(&x.value)]),
    }
}

/// An entry in the list of an attribute: the path; where `=` follows it, the literal that
/// comes next, if one does; and the expression that comes next, if one does.
pub type Entry = (syn::Path, Option<Option<syn::Lit>>, Option<syn::Expr>);

/// The tree of an entry in the list of an attribute: the path and the expression. The flag
/// is set where `=` follows the path, and the argument is the literal.
pub open spec fn entry_tree(entry: Entry) -> Tree {
    Tree {
        flag: entry.1 is Some,
        arguments: Some(
            match entry.1 {
                Some(Some(literal)) => seq![literal_shape(seq![], literal)],
                _ => seq![],
            },
        ),
        ..bare(
            Kind::Entry,
            seq![],
            seq![tree_of(Syntax::Path(&entry.0))] + (match entry.2 {
                Some(value) => seq![tree_of(Syntax::Expr(&value))],
                None => seq![],
            }),
        )
    }
}

pub open spec fn entry_trees(entries: Seq<Entry>) -> Seq<Tree> {
    Seq::new(entries.len(), |i: int| entry_tree(entries[i]))
}

/// `syn::Attribute::parse_nested_meta`: the entries in the list of a `syn::Attribute`, in
/// order, as far as the list can be read; none where there is no list. What follows `=` is
/// read as a `syn::Lit` and as a `syn::Expr`, each from the same place; the list goes on
/// behind the expression, and ends with an entry that has none.
#[verifier::external_body]
fn attribute_entries(node: &syn::Attribute) -> (r: Vec<Entry>)
    ensures
        tree_of(Syntax::Attribute(node)).arguments == Some(entry_trees(r@)),
{
    let mut entries = Vec::new();
    let _ = node.parse_nested_meta(|meta| {
        if !meta.input.peek(syn::token::Eq) {
            return Ok(entries.push((meta.path, None, None)));
        }
        let input = meta.value()?;
        let literal = input.fork().parse().ok();
        let (value, read) = match input.parse() {
            Ok(value) => (Some(value), Ok(())),
            Err(error) => (None, Err(error)),
        };
        entries.push((meta.path, Some(literal), value));
        read
    });
    entries
}

/// `syn::spanned::Spanned::span` of a `syn::Attribute`: the place of its tree.
#[verifier::external_body]
fn attribute_span(node: &syn::Attribute) -> (r: proc_macro2::Span)
    ensures
        tree_of(Syntax::Attribute(node)).span == located(r),
{
    node.span()
}

/// Takes a `syn::Path` apart: the names of its segments, whether it begins with `::`,
/// and the segments.
#[verifier::external_body]
fn path_parts<'a>(node: &'a syn::Path) -> (r: (Vec<String>, bool, Vec<Syntax<'a>>))
    ensures
        tree_of(Syntax::Path(node)) == (Tree {
            words: views(r.0@),
            flag: r.1,
            ..bare(Kind::Segments, seq![], trees(r.2@))
        }),
{
    let names = node.segments.iter().map(|segment| segment.ident.to_string()).collect();
    (names, node.leading_colon.is_some(), node.segments.iter().map(Syntax::Segment).collect())
}

/// Takes a `syn::PathSegment` apart: its generic arguments.
#[verifier::external_body]
fn segment_parts<'a>(node: &'a syn::PathSegment) -> (r: Vec<Syntax<'a>>)
    ensures
        tree_of(Syntax::Segment(node)) == bare(Kind::Other, seq![], trees(r@)),
{
    match &node.arguments {
        PathArguments::None => vec![],
        PathArguments::AngleBracketed(x) => x.args.iter().map(Syntax::GenericArgument).collect(),
        PathArguments::Parenthesized(x) => {
            let output = match &x.output {
                ReturnType::Type(_, t) => Some(Syntax::Type(t)),
                ReturnType::Default => None,
            };
            x.inputs.iter().map(Syntax::Type).chain(output).collect()
        },
    }
}

/// Takes a `syn::GenericArgument` apart: the types, expressions, arguments and bounds
/// that it holds.
#[verifier::external_body]
fn argument_parts<'a>(node: &'a syn::GenericArgument) -> (r: Vec<Syntax<'a>>)
    ensures
        tree_of(Syntax::GenericArgument(node)) == bare(Kind::Other, seq![], trees(r@)),
{
    let (generics, rest): (_, Vec<Syntax>) = match node {
        GenericArgument::Type(x) => return vec![Syntax::Type(x)],
        GenericArgument::Const(x) => return vec![Syntax::Expr(x)],
        GenericArgument::AssocType(x) => (&x.generics, vec![Syntax::Type(&x.ty)]),
        GenericArgument::AssocConst(x) => (&x.generics, vec![Syntax::Expr(&x.value)]),
        GenericArgument::Constraint(x) => (&x.generics, x.bounds.iter().map(Syntax::Bound).collect()),
        _ => return vec![],
    };
    let own = generics.iter().flat_map(|g| &g.args).map(Syntax::GenericArgument);
    own.chain(rest).collect()
}

/// Takes `syn::Generics` apart: the parameters and the predicates.
#[verifier::external_body]
fn generics_parts<'a>(node: &'a syn::Generics) -> (r: Vec<Syntax<'a>>)
    ensures
        tree_of(Syntax::Generics(node)) == bare(Kind::Other, seq![], trees(r@)),
{
    let predicates = node.where_clause.iter().flat_map(|w| &w.predicates);
    let parameters = node.params.iter().map(Syntax::GenericParam);
    parameters.chain(predicates.map(Syntax::WherePredicate)).collect()
}

/// Takes a `syn::GenericParam` apart: its bounds and its default, or its type and its
/// default.
#[verifier::external_body]
fn parameter_parts<'a>(node: &'a syn::GenericParam) -> (r: (&'a Attributes, Vec<Syntax<'a>>))
    ensures
        tree_of(Syntax::GenericParam(node)) == bare(
            Kind::Other,
            attribute_trees(r.0@),
            trees(r.1@),
        ),
{
    match node {
        GenericParam::Lifetime(x) => (&x.attrs, vec![]),
        GenericParam::Type(x) => {
            let bounds = x.bounds.iter().map(Syntax::Bound);
            (&x.attrs, bounds.chain(x.default.iter().map(Syntax::Type)).collect())
        },
        GenericParam::Const(x) => {
            let own = once(Syntax::Type(&x.ty));
            (&x.attrs, own.chain(x.default.iter().map(Syntax::Expr)).collect())
        },
    }
}

/// Takes a `syn::WherePredicate` apart: the bound lifetimes, the type and the bounds.
#[verifier::external_body]
fn predicate_parts<'a>(node: &'a syn::WherePredicate) -> (r: Vec<Syntax<'a>>)
    ensures
        tree_of(Syntax::WherePredicate(node)) == bare(Kind::Other, seq![], trees(r@)),
{
    let WherePredicate::Type(x) = node else { return vec![] };
    let lifetimes = x.lifetimes.iter().flat_map(|l| &l.lifetimes).map(Syntax::GenericParam);
    let own = lifetimes.chain(once(Syntax::Type(&x.bounded_ty)));
    own.chain(x.bounds.iter().map(Syntax::Bound)).collect()
}

/// Takes a `syn::TypeParamBound` apart: the bound lifetimes and the path of a trait.
#[verifier::external_body]
fn bound_parts<'a>(node: &'a syn::TypeParamBound) -> (r: Vec<Syntax<'a>>)
    ensures
        tree_of(Syntax::Bound(node)) == bare(Kind::Other, seq![], trees(r@)),
{
    let TypeParamBound::Trait(x) = node else { return vec![] };
    let lifetimes = x.lifetimes.iter().flat_map(|l| &l.lifetimes).map(Syntax::GenericParam);
    lifetimes.chain(once(Syntax::Path(&x.path))).collect()
}

/// Takes a `syn::Signature` apart: the generic parameters, the inputs, what stands for
/// more of them and the type of the result, and whether there is one.
#[verifier::external_body]
fn signature_parts<'a>(node: &'a syn::Signature) -> (r: (bool, Vec<Syntax<'a>>))
    ensures
        tree_of(Syntax::Signature(node)) == (Tree {
            flag: r.0,
            ..bare(Kind::Signature, seq![], trees(r.1@))
        }),
{
    let output = match &node.output {
        ReturnType::Type(_, t) => Some(Syntax::Type(t)),
        ReturnType::Default => None,
    };
    let has_output = output.is_some();
    let start = once(Syntax::Generics(&node.generics)).chain(node.inputs.iter().map(Syntax::FnArg));
    let more = node.variadic.iter().map(Syntax::Variadic);
    (has_output, start.chain(more).chain(output).collect())
}

/// Takes a `syn::FnArg` apart: the type of a receiver, or a pattern and its type.
#[verifier::external_body]
fn input_parts<'a>(node: &'a syn::FnArg) -> (r: (Kind, &'a Attributes, Vec<Syntax<'a>>))
    ensures
        tree_of(Syntax::FnArg(node)) == bare(r.0, attribute_trees(r.1@), trees(r.2@)),
{
    match node {
        FnArg::Receiver(x) => (Kind::Other, &x.attrs, vec![Syntax::Type(&x.ty)]),
        FnArg::Typed(x) => (Kind::PatType, &x.attrs, vec![Syntax::Pat(&x.pat), Syntax::Type(&x.ty)]),
    }
}

/// Takes a `syn::UseTree` apart: the names in it and the inner trees.
#[verifier::external_body]
fn use_parts<'a>(node: &'a syn::UseTree) -> (r: (Kind, Vec<String>, Vec<Syntax<'a>>))
    ensures
        tree_of(Syntax::UseTree(node)) == (Tree {
            words: views(r.1@),
            ..bare(r.0, seq![], trees(r.2@))
        }),
{
    match node {
        UseTree::Path(x) => (Kind::UsePath, vec![x.ident.to_string()], vec![Syntax::UseTree(&x.tree)]),
        UseTree::Name(x) => (Kind::UseName, vec![x.ident.to_string()], vec![]),
        UseTree::Rename(x) => (Kind::UseRename, vec![x.ident.to_string(), x.rename.to_string()], vec![]),
        UseTree::Glob(_) => (Kind::UseGlob, vec![], vec![]),
        UseTree::Group(x) => (Kind::UseGroup, vec![], x.items.iter().map(Syntax::UseTree).collect()),
    }
}

/// Takes a `syn::Block` apart: its statements.
#[verifier::external_body]
fn block_parts<'a>(node: &'a syn::Block) -> (r: (Option<&'a Attributes>, Vec<Syntax<'a>>))
    ensures
        tree_of(Syntax::Block(node)) == bare(Kind::Block, optional_trees(r.0), trees(r.1@)),
{
    (None, node.stmts.iter().map(Syntax::Stmt).collect())
}

/// Takes a `syn::Variadic` apart: its pattern.
#[verifier::external_body]
fn variadic_parts<'a>(node: &'a syn::Variadic) -> (r: (Option<&'a Attributes>, Vec<Syntax<'a>>))
    ensures
        tree_of(Syntax::Variadic(node)) == bare(Kind::Other, optional_trees(r.0), trees(r.1@)),
{
    (Some(&node.attrs), node.pat.iter().map(|pat| Syntax::Pat(&pat.0)).collect())
}

/// Takes a `syn::BareFnArg` apart: its type.
#[verifier::external_body]
fn bare_input_parts<'a>(node: &'a syn::BareFnArg) -> (r: (Option<&'a Attributes>, Vec<Syntax<'a>>))
    ensures
        tree_of(Syntax::BareFnArg(node)) == bare(Kind::Other, optional_trees(r.0), trees(r.1@)),
{
    (Some(&node.attrs), vec![Syntax::Type(&node.ty)])
}

/// Takes a `syn::FieldValue` apart: its expression.
#[verifier::external_body]
fn field_value_parts<'a>(node: &'a syn::FieldValue) -> (r: (Option<&'a Attributes>, Vec<Syntax<'a>>))
    ensures
        tree_of(Syntax::FieldValue(node)) == bare(Kind::Other, optional_trees(r.0), trees(r.1@)),
{
    (Some(&node.attrs), vec![Syntax::Expr(&node.expr)])
}

/// Takes a `syn::FieldPat` apart: its pattern.
#[verifier::external_body]
fn field_pat_parts<'a>(node: &'a syn::FieldPat) -> (r: (Option<&'a Attributes>, Vec<Syntax<'a>>))
    ensures
        tree_of(Syntax::FieldPat(node)) == bare(Kind::PatField, optional_trees(r.0), trees(r.1@)),
{
    (Some(&node.attrs), vec![Syntax::Pat(&node.pat)])
}

/// Takes a `syn::Field` apart: its type.
#[verifier::external_body]
fn field_parts<'a>(node: &'a syn::Field) -> (r: (Option<&'a Attributes>, Vec<Syntax<'a>>))
    ensures
        tree_of(Syntax::Field(node)) == bare(Kind::Other, optional_trees(r.0), trees(r.1@)),
{
    (Some(&node.attrs), vec![Syntax::Type(&node.ty)])
}

/// Takes a `syn::Variant` apart: its fields and its discriminant.
#[verifier::external_body]
fn variant_parts<'a>(node: &'a syn::Variant) -> (r: (Option<&'a Attributes>, Vec<Syntax<'a>>))
    ensures
        tree_of(Syntax::Variant(node)) == bare(Kind::Other, optional_trees(r.0), trees(r.1@)),
{
    let value = node.discriminant.iter().map(|d| Syntax::Expr(&d.1));
    (Some(&node.attrs), node.fields.iter().map(Syntax::Field).chain(value).collect())
}

/// Takes a `syn::ImplItem` apart by its variant; what `syn` leaves unread has no parts.
#[verifier::external_body]
fn impl_item_parts<'a>(node: &'a syn::ImplItem) -> (r: (Option<&'a Attributes>, Vec<Syntax<'a>>))
    ensures
        tree_of(Syntax::ImplItem(node)) == bare(Kind::Other, optional_trees(r.0), trees(r.1@)),
{
    let (attrs, children) = match node {
        ImplItem::Const(x) => (&x.attrs, vec![Syntax::Generics(&x.generics), Syntax::Type(&x.ty), Syntax::Expr(&x.expr)]),
        ImplItem::Fn(x) => (&x.attrs, vec![Syntax::Signature(&x.sig), Syntax::Block(&x.block)]),
        ImplItem::Type(x) => (&x.attrs, vec![Syntax::Generics(&x.generics), Syntax::Type(&x.ty)]),
        ImplItem::Macro(x) => (&x.attrs, vec![Syntax::Macro(&x.mac)]),
        _ => return (None, vec![]),
    };
    (Some(attrs), children)
}

/// Takes a `syn::TraitItem` apart by its variant: constants and types.
#[verifier::external_body]
fn trait_value_parts<'a>(node: &'a syn::TraitItem) -> (r: Option<(&'a Attributes, Vec<Syntax<'a>>)>)
    ensures
        match r {
            Some((attributes, children)) => tree_of(Syntax::TraitItem(node)) == bare(
                Kind::TraitValue,
                attribute_trees(attributes@),
                trees(children@),
            ),
            None => tree_of(Syntax::TraitItem(node)).kind != Kind::TraitValue,
        },
{
    let (attrs, generics, rest): (_, _, Vec<Syntax>) = match node {
        TraitItem::Const(x) => {
            let value = x.default.iter().map(|d| Syntax::Expr(&d.1));
            (&x.attrs, &x.generics, once(Syntax::Type(&x.ty)).chain(value).collect())
        },
        TraitItem::Type(x) => {
            let value = x.default.iter().map(|d| Syntax::Type(&d.1));
            (&x.attrs, &x.generics, x.bounds.iter().map(Syntax::Bound).chain(value).collect())
        },
        _ => return None,
    };
    Some((attrs, once(Syntax::Generics(generics)).chain(rest).collect()))
}

/// Takes a `syn::TraitItem` apart by its variant: functions and macros; what `syn` leaves
/// unread has no parts.
#[verifier::external_body]
fn trait_item_parts<'a>(node: &'a syn::TraitItem) -> (r: (Option<&'a Attributes>, Vec<Syntax<'a>>))
    ensures
        tree_of(Syntax::TraitItem(node)).kind == Kind::TraitValue || tree_of(
            Syntax::TraitItem(node),
        ) == bare(Kind::Other, optional_trees(r.0), trees(r.1@)),
{
    match node {
        TraitItem::Fn(x) => {
            let start = once(Syntax::Signature(&x.sig));
            (Some(&x.attrs), start.chain(x.default.iter().map(Syntax::Block)).collect())
        },
        TraitItem::Macro(x) => (Some(&x.attrs), vec![Syntax::Macro(&x.mac)]),
        _ => (None, vec![]),
    }
}

/// Takes a `syn::ForeignItem` apart by its variant; what `syn` leaves unread has no parts.
#[verifier::external_body]
fn foreign_item_parts<'a>(node: &'a syn::ForeignItem) -> (r: (Option<&'a Attributes>, Vec<Syntax<'a>>))
    ensures
        tree_of(Syntax::ForeignItem(node)) == bare(Kind::Other, optional_trees(r.0), trees(r.1@)),
{
    let (attrs, child) = match node {
        ForeignItem::Fn(x) => (&x.attrs, Syntax::Signature(&x.sig)),
        ForeignItem::Static(x) => (&x.attrs, Syntax::Type(&x.ty)),
        ForeignItem::Type(x) => (&x.attrs, Syntax::Generics(&x.generics)),
        ForeignItem::Macro(x) => (&x.attrs, Syntax::Macro(&x.mac)),
        _ => return (None, vec![]),
    };
    (Some(attrs), vec![child])
}

/// A node with nothing but attributes and children.
fn built(kind: Kind, attributes: Vec<Node>, children: Vec<Node>) -> (r: Node)
    ensures
        r@ == bare(kind, views(attributes@), views(children@)),
{
    let r = Node {
        kind,
        words: Vec::new(),
        value: None,
        flag: false,
        second: false,
        inputs: 0,
        span: SourceSpan { start: Position::new(0, 0), end: Position::new(0, 0) },
        marks: Vec::new(),
        text: String::new(),
        attributes,
        children,
        arguments: None,
        tokens: Vec::new(),
    };
    assert(r@ =~= bare(kind, views(attributes@), views(children@)));
    r
}

fn with_words(node: Node, words: Vec<String>) -> (r: Node)
    ensures
        r@ == (Tree { words: views(words@), ..node@ }),
{
    let r = Node { words, ..node };
    assert(r@ =~= (Tree { words: views(words@), ..node@ }));
    r
}

fn with_word(node: Node, word: String) -> (r: Node)
    ensures
        r@ == (Tree { words: seq![word@], ..node@ }),
{
    let ghost only = word@;
    let mut words: Vec<String> = Vec::new();
    words.push(word);
    assert(views(words@) =~= seq![only]);
    with_words(node, words)
}

fn with_flags(node: Node, flag: bool, second: bool) -> (r: Node)
    ensures
        r@ == (Tree { flag, second, ..node@ }),
{
    let r = Node { flag, second, ..node };
    assert(r@ =~= (Tree { flag, second, ..node@ }));
    r
}

fn with_value(node: Node, value: Option<String>) -> (r: Node)
    ensures
        r@ == (Tree { value: option_view(value), ..node@ }),
{
    let r = Node { value, ..node };
    assert(r@ =~= (Tree { value: option_view(value), ..node@ }));
    r
}

fn with_inputs(node: Node, inputs: usize) -> (r: Node)
    ensures
        r@ == (Tree { inputs, ..node@ }),
{
    let r = Node { inputs, ..node };
    assert(r@ =~= (Tree { inputs, ..node@ }));
    r
}

fn with_marks(node: Node, marks: Vec<SourceSpan>) -> (r: Node)
    ensures
        r@ == (Tree { marks: marks@, ..node@ }),
{
    let r = Node { marks, ..node };
    assert(r@ =~= (Tree { marks: marks@, ..node@ }));
    r
}

fn with_place(node: Node, span: SourceSpan, text: String) -> (r: Node)
    ensures
        r@ == (Tree { span, text: text@, ..node@ }),
{
    let r = Node { span, text, ..node };
    assert(r@ =~= (Tree { span, text: text@, ..node@ }));
    r
}

fn with_tokens(node: Node, arguments: Option<Vec<Node>>, tokens: Vec<Node>) -> (r: Node)
    ensures
        r@ == (Tree {
            arguments: match arguments {
                Some(list) => Some(views(list@)),
                None => None,
            },
            tokens: views(tokens@),
            ..node@
        }),
{
    let r = Node { arguments, tokens, ..node };
    assert(r@ =~= (Tree {
        arguments: match arguments {
            Some(list) => Some(views(list@)),
            None => None,
        },
        tokens: views(tokens@),
        ..node@
    }));
    r
}

/// The parts of a tree are smaller than the tree.
proof fn smaller(t: Tree)
    ensures
        decreases_to!(t => t.children),
        decreases_to!(t => t.attributes),
        decreases_to!(t => t.tokens),
        t.arguments matches Some(list) ==> decreases_to!(t => list),
{
}

fn lower_all(pieces: &Vec<Syntax>) -> (r: Vec<Node>)
    ensures
        views(r@) == trees(pieces@),
    decreases trees(pieces@), 4nat,
{
    let ghost all = trees(pieces@);
    let mut out: Vec<Node> = Vec::new();
    let mut i: usize = 0;
    while i < pieces.len()
        invariant
            all == trees(pieces@),
            i <= pieces@.len(),
            views(out@) == all.take(i as int),
        decreases pieces@.len() - i,
    {
        assert(all[i as int] == full(pieces@[i as int]));
        out.push(lower(&pieces[i]));
        i += 1;
        assert(views(out@) =~= all.take(i as int));
    }
    proof {
        take_all(all);
    }
    out
}

fn lower_attributes(attributes: &Attributes) -> (r: Vec<Node>)
    ensures
        views(r@) == attribute_trees(attributes@),
    decreases attribute_trees(attributes@), 4nat,
{
    let ghost all = attribute_trees(attributes@);
    let mut out: Vec<Node> = Vec::new();
    let mut i: usize = 0;
    while i < attributes.len()
        invariant
            all == attribute_trees(attributes@),
            i <= attributes@.len(),
            views(out@) == all.take(i as int),
        decreases attributes@.len() - i,
    {
        assert(all[i as int] == tree_of(Syntax::Attribute(&attributes@[i as int])));
        out.push(lower_attribute(&attributes[i]));
        i += 1;
        assert(views(out@) =~= all.take(i as int));
    }
    proof {
        take_all(all);
    }
    out
}

fn lower_optional(attributes: Option<&Attributes>) -> (r: Vec<Node>)
    ensures
        views(r@) == optional_trees(attributes),
    decreases optional_trees(attributes), 5nat,
{
    match attributes {
        Some(attributes) => lower_attributes(attributes),
        None => {
            let none: Vec<Node> = Vec::new();
            assert(views(none@) =~= seq![]);
            none
        },
    }
}

fn lower_exprs(list: &Vec<syn::Expr>) -> (r: Vec<Node>)
    ensures
        views(r@) == expr_trees(list@),
    decreases expr_trees(list@), 4nat,
{
    let ghost all = expr_trees(list@);
    let mut out: Vec<Node> = Vec::new();
    let mut i: usize = 0;
    while i < list.len()
        invariant
            all == expr_trees(list@),
            i <= list@.len(),
            views(out@) == all.take(i as int),
        decreases list@.len() - i,
    {
        assert(all[i as int] == tree_of(Syntax::Expr(&list@[i as int])));
        out.push(lower_expr(&list[i]));
        i += 1;
        assert(views(out@) =~= all.take(i as int));
    }
    proof {
        take_all(all);
    }
    out
}

fn lower_tokens(tokens: &Vec<Token>) -> (r: Vec<Node>)
    ensures
        views(r@) == token_trees(tokens@),
    decreases token_trees(tokens@), 4nat,
{
    let ghost all = token_trees(tokens@);
    let mut out: Vec<Node> = Vec::new();
    let mut i: usize = 0;
    while i < tokens.len()
        invariant
            all == token_trees(tokens@),
            i <= tokens@.len(),
            views(out@) == all.take(i as int),
        decreases tokens@.len() - i,
    {
        assert(all[i as int] == token_tree(tokens@[i as int]));
        let node = match &tokens[i] {
            Token::Ident(name) => {
                let leaf = built(Kind::TokenIdent, Vec::new(), Vec::new());
                with_word(leaf, name.clone())
            },
            Token::Group(stream) => lower_stream(stream),
            Token::Other => {
                built(Kind::Other, Vec::new(), Vec::new())
            },
        };
        out.push(node);
        i += 1;
        assert(views(out@) =~= all.take(i as int));
    }
    proof {
        take_all(all);
    }
    out
}

fn lower_stream(tokens: &proc_macro2::TokenStream) -> (r: Node)
    ensures
        r@ == tree_of(Syntax::Tokens(tokens)),
    decreases tree_of(Syntax::Tokens(tokens)), 0nat,
{
    proof {
        smaller(tree_of(Syntax::Tokens(tokens)));
    }
    let parts = token_parts(tokens);
    let children = lower_tokens(&parts);
    built(Kind::TokenGroup, Vec::new(), children)
}

fn lower_attribute(node: &syn::Attribute) -> (r: Node)
    ensures
        r@ == tree_of(Syntax::Attribute(node)),
    decreases tree_of(Syntax::Attribute(node)), 0nat,
{
    proof {
        smaller(tree_of(Syntax::Attribute(node)));
    }
    let (list, parts) = attribute_parts(node);
    let children = lower_all(&parts);
    let base = built(Kind::Attribute, Vec::new(), children);
    let flagged = with_flags(base, list, false);
    let entries = lower_entries(&attribute_entries(node));
    let whole = with_tokens(flagged, Some(entries), Vec::new());
    with_place(whole, locate(attribute_span(node)), String::new())
}

fn lower_entry(entry: &Entry) -> (r: Node)
    ensures
        r@ == entry_tree(*entry),
    decreases entry_tree(*entry), 2nat,
{
    let ghost t = entry_tree(*entry);
    proof {
        smaller(t);
    }
    assert(t.children[0] == tree_of(Syntax::Path(&entry.0)));
    let mut children: Vec<Node> = Vec::new();
    children.push(lower_path(&entry.0));
    if let Some(value) = &entry.2 {
        assert(t.children[1] == tree_of(Syntax::Expr(value)));
        children.push(lower_expr(value));
    }
    assert(views(children@) =~= t.children);
    let mut literals: Vec<Node> = Vec::new();
    if let Some(Some(literal)) = &entry.1 {
        literals.push(literal_node(Vec::new(), literal));
    }
    assert(views(literals@) =~= t.arguments->0);
    let base = with_flags(built(Kind::Entry, Vec::new(), children), entry.1.is_some(), false);
    with_tokens(base, Some(literals), Vec::new())
}

fn lower_entries(entries: &Vec<Entry>) -> (r: Vec<Node>)
    ensures
        views(r@) == entry_trees(entries@),
    decreases entry_trees(entries@), 4nat,
{
    let ghost all = entry_trees(entries@);
    let mut out: Vec<Node> = Vec::new();
    let mut i: usize = 0;
    while i < entries.len()
        invariant
            all == entry_trees(entries@),
            i <= entries@.len(),
            views(out@) == all.take(i as int),
        decreases entries@.len() - i,
    {
        assert(all[i as int] == entry_tree(entries@[i as int]));
        out.push(lower_entry(&entries[i]));
        i += 1;
        assert(views(out@) =~= all.take(i as int));
    }
    proof {
        take_all(all);
    }
    out
}

fn lower_path(node: &syn::Path) -> (r: Node)
    ensures
        r@ == tree_of(Syntax::Path(node)),
    decreases tree_of(Syntax::Path(node)), 0nat,
{
    proof {
        smaller(tree_of(Syntax::Path(node)));
    }
    let (names, leading, segments) = path_parts(node);
    let base = built(Kind::Segments, Vec::new(), lower_all(&segments));
    with_flags(with_words(base, names), leading, false)
}

/// The nodes of a path and of the self type before it.
fn lower_typed_path(own: Option<&syn::Type>, path: &syn::Path) -> (r: Vec<Node>)
    ensures
        views(r@) == path_trees(own, path),
    decreases path_trees(own, path), 4nat,
{
    let mut out: Vec<Node> = Vec::new();
    assert(path_trees(own, path)[0] == path_trees(own, path)[0]);
    if let Some(own) = own {
        assert(path_trees(Some(own), path)[1] == tree_of(Syntax::Path(path)));
        out.push(lower_type(own));
    }
    out.push(lower_path(path));
    assert(views(out@) =~= path_trees(own, path));
    out
}

/// A node that a path makes.
fn path_node(
    kind: Kind,
    attributes: Vec<Node>,
    own: Option<&syn::Type>,
    path: &syn::Path,
) -> (r: Node)
    ensures
        r@ == path_shape(kind, views(attributes@), own, path),
    decreases path_trees(own, path), 5nat,
{
    let children = lower_typed_path(own, path);
    let (names, leading, segments) = path_parts(path);
    let base = built(kind, attributes, children);
    with_flags(with_words(base, names), leading, own.is_some())
}

fn literal_node(attributes: Vec<Node>, literal: &syn::Lit) -> (r: Node)
    ensures
        r@ == literal_shape(views(attributes@), *literal),
{
    let (kind, value, flag) = literal_parts(literal);
    let base = built(kind, attributes, Vec::new());
    with_value(with_flags(base, flag, false), value)
}

/// The node of an expression that has nothing but parts.
fn lower_plain_expr(node: &syn::Expr) -> (r: Option<Node>)
    ensures
        match r {
            Some(found) => shaped(tree_of(Syntax::Expr(node)), found@) && found@.span == nowhere()
                && found@.text == Seq::<char>::empty(),
            None => {
                let kind = tree_of(Syntax::Expr(node)).kind;
                !expr_kinds_a(kind) && !expr_kinds_b(kind) && !expr_kinds_c(kind) && !expr_kinds_d(
                    kind,
                ) && !expr_kinds_e(kind) && !expr_kinds_f(kind) && !expr_kinds_g(kind)
            },
        },
    decreases tree_of(Syntax::Expr(node)), 0nat,
{
    let parts = match expr_parts_a(node) {
        Some(parts) => Some(parts),
        None => match expr_parts_b(node) {
            Some(parts) => Some(parts),
            None => match expr_parts_c(node) {
                Some(parts) => Some(parts),
                None => match expr_parts_d(node) {
                    Some(parts) => Some(parts),
                    None => match expr_parts_e(node) {
                        Some(parts) => Some(parts),
                        None => match expr_parts_f(node) {
                            Some(parts) => Some(parts),
                            None => expr_parts_g(node),
                        },
                    },
                },
            },
        },
    };
    match parts {
        Some((kind, attributes, children)) => {
            Some(built(kind, lower_attributes(attributes), lower_all(&children)))
        },
        None => None,
    }
}

/// The node of an expression that says more than its parts.
fn lower_special_expr(node: &syn::Expr) -> (r: Node)
    requires
        ({
            let kind = tree_of(Syntax::Expr(node)).kind;
            !expr_kinds_a(kind) && !expr_kinds_b(kind) && !expr_kinds_c(kind) && !expr_kinds_d(kind)
                && !expr_kinds_e(kind) && !expr_kinds_f(kind) && !expr_kinds_g(kind)
        }),
    ensures
        shaped(tree_of(Syntax::Expr(node)), r@),
        r@.span == nowhere(),
        r@.text == Seq::<char>::empty(),
    decreases tree_of(Syntax::Expr(node)), 0nat,
{
    if let Some((kind, attributes, operator, operands)) = expr_operator(node) {
        let base = built(kind, lower_attributes(attributes), lower_all(&operands));
        return with_word(base, operator);
    }
    if let Some((attributes, children, inputs)) = expr_closure(node) {
        let base = built(Kind::Closure, lower_attributes(attributes), lower_all(&children));
        return with_inputs(base, inputs);
    }
    if let Some((attributes, method, children)) = expr_method(node) {
        let base = built(Kind::MethodCall, lower_attributes(attributes), lower_all(&children));
        return with_word(base, method);
    }
    if let Some((attributes, mutable, children)) = expr_reference(node) {
        let base = built(Kind::Reference, lower_attributes(attributes), lower_all(&children));
        return with_flags(base, mutable, false);
    }
    if let Some((attributes, children)) = expr_struct(node) {
        return built(Kind::StructLiteral, lower_attributes(attributes), lower_all(&children));
    }
    if let Some((attributes, own, path)) = expr_path(node) {
        assert(tree_of(Syntax::Expr(node)).children == path_trees(own, path));
        return path_node(Kind::Path, lower_attributes(attributes), own, path);
    }
    if let Some((attributes, literal)) = expr_literal(node) {
        return literal_node(lower_attributes(attributes), literal);
    }
    built(Kind::Other, Vec::new(), Vec::new())
}

fn lower_expr(node: &syn::Expr) -> (r: Node)
    ensures
        r@ == tree_of(Syntax::Expr(node)),
    decreases tree_of(Syntax::Expr(node)), 1nat,
{
    let base = match lower_plain_expr(node) {
        Some(base) => base,
        None => lower_special_expr(node),
    };
    with_place(base, locate(expr_span(node)), expr_text(node))
}

fn lower_pat_base(node: &syn::Pat) -> (r: Node)
    ensures
        shaped(tree_of(Syntax::Pat(node)), r@),
        r@.span == nowhere(),
        r@.text == Seq::<char>::empty(),
    decreases tree_of(Syntax::Pat(node)), 1nat,
{
    if let Some((kind, attributes, children)) = pat_parts_a(node) {
        return built(kind, lower_attributes(attributes), lower_all(&children));
    }
    if let Some((kind, attributes, children)) = pat_parts_b(node) {
        return built(kind, lower_attributes(attributes), lower_all(&children));
    }
    if let Some((attributes, name, children)) = pat_ident(node) {
        let base = built(Kind::PatIdent, lower_attributes(attributes), lower_all(&children));
        return with_word(base, name);
    }
    if let Some((attributes, own, path)) = pat_path(node) {
        assert(tree_of(Syntax::Pat(node)).children == path_trees(own, path));
        return path_node(Kind::Path, lower_attributes(attributes), own, path);
    }
    if let Some((attributes, children)) = pat_struct(node) {
        return built(Kind::PatStruct, lower_attributes(attributes), lower_all(&children));
    }
    if let Some((attributes, own, path, elements)) = pat_tuple_struct(node) {
        return lower_tuple_struct(node, attributes, own, path, &elements);
    }
    if let Some((attributes, literal)) = pat_literal(node) {
        return literal_node(lower_attributes(attributes), literal);
    }
    if let Some((attributes, children)) = pat_other(node) {
        return built(Kind::Other, lower_attributes(attributes), lower_all(&children));
    }
    built(Kind::Other, Vec::new(), Vec::new())
}

fn lower_tuple_struct(
    node: &syn::Pat,
    attributes: &Attributes,
    own: Option<&syn::Type>,
    path: &syn::Path,
    elements: &Vec<Syntax>,
) -> (r: Node)
    requires
        shaped(
            tree_of(Syntax::Pat(node)),
            Tree {
                words: tree_of(Syntax::Path(path)).words,
                ..bare(
                    Kind::PatTupleStruct,
                    attribute_trees(attributes@),
                    seq![bare(Kind::Other, seq![], path_trees(own, path))] + trees(elements@),
                )
            },
        ),
    ensures
        shaped(tree_of(Syntax::Pat(node)), r@),
        r@.span == nowhere(),
        r@.text == Seq::<char>::empty(),
    decreases tree_of(Syntax::Pat(node)), 0nat,
{
    let ghost t = tree_of(Syntax::Pat(node));
    assert(t.children[0] == bare(Kind::Other, seq![], path_trees(own, path)));
    assert(t.children[0].children == path_trees(own, path));
    assert(t.children.subrange(1, t.children.len() as int) =~= trees(elements@));
    let front = built(Kind::Other, Vec::new(), lower_typed_path(own, path));
    let mut rest = lower_all(elements);
    let (names, leading, segments) = path_parts(path);
    let mut children: Vec<Node> = Vec::new();
    children.push(front);
    children.append(&mut rest);
    assert(views(children@) =~= t.children);
    with_words(built(Kind::PatTupleStruct, lower_attributes(attributes), children), names)
}

fn lower_pat(node: &syn::Pat) -> (r: Node)
    ensures
        r@ == tree_of(Syntax::Pat(node)),
    decreases tree_of(Syntax::Pat(node)), 2nat,
{
    let base = lower_pat_base(node);
    with_place(base, locate(pat_span(node)), String::new())
}

fn lower_type(node: &syn::Type) -> (r: Node)
    ensures
        r@ == tree_of(Syntax::Type(node)),
    decreases tree_of(Syntax::Type(node)), 0nat,
{
    proof {
        smaller(tree_of(Syntax::Type(node)));
    }
    if let Some((own, path)) = type_path(node) {
        assert(tree_of(Syntax::Type(node)).children == path_trees(own, path));
        return path_node(Kind::TypePath, Vec::new(), own, path);
    }
    if let Some(children) = type_function(node) {
        return built(Kind::TypeFunction, Vec::new(), lower_all(&children));
    }
    if let Some((kind, children)) = type_parts(node) {
        return built(kind, Vec::new(), lower_all(&children));
    }
    if let Some((kind, children)) = type_other(node) {
        return built(kind, Vec::new(), lower_all(&children));
    }
    built(Kind::Other, Vec::new(), Vec::new())
}

fn lower_named_item(node: &syn::Item) -> (r: Option<Node>)
    ensures
        match r {
            Some(found) => found@ == tree_of(Syntax::Item(node)),
            None => {
                let kind = tree_of(Syntax::Item(node)).kind;
                kind != Kind::Constant && kind != Kind::TypeAlias && kind != Kind::Data && kind
                    != Kind::Trait && kind != Kind::CrateImport && kind != Kind::Module
            },
        },
    decreases tree_of(Syntax::Item(node)), 0nat,
{
    proof {
        smaller(tree_of(Syntax::Item(node)));
    }
    let parts = match item_constant(node) {
        Some(parts) => Some(parts),
        None => match item_data(node) {
            Some(parts) => Some(parts),
            None => match item_trait(node) {
                Some(parts) => Some(parts),
                None => item_scope(node),
            },
        },
    };
    match parts {
        Some((kind, attributes, name, children)) => {
            let base = built(kind, lower_attributes(attributes), lower_all(&children));
            Some(with_word(base, name))
        },
        None => None,
    }
}

fn locate_all(spans: &Vec<proc_macro2::Span>) -> (r: Vec<SourceSpan>)
    ensures
        r@ == Seq::new(spans@.len(), |i: int| located(spans@[i])),
{
    let mut out: Vec<SourceSpan> = Vec::new();
    let mut i: usize = 0;
    while i < spans.len()
        invariant
            i <= spans@.len(),
            out@.len() == i,
            forall|j: int| 0 <= j < i ==> #[trigger] out@[j] == located(spans@[j]),
        decreases spans@.len() - i,
    {
        out.push(locate(spans[i]));
        i += 1;
    }
    assert(out@ =~= Seq::new(spans@.len(), |i: int| located(spans@[i])));
    out
}

fn lower_item(node: &syn::Item) -> (r: Node)
    ensures
        r@ == tree_of(Syntax::Item(node)),
    decreases tree_of(Syntax::Item(node)), 1nat,
{
    proof {
        smaller(tree_of(Syntax::Item(node)));
    }
    if let Some(found) = lower_named_item(node) {
        return found;
    }
    if let Some((attributes, names, children)) = item_macro(node) {
        let base = built(Kind::MacroItem, lower_attributes(attributes), lower_all(&children));
        return with_words(base, names);
    }
    if let Some((attributes, name, children, places)) = item_function(node) {
        let base = built(Kind::Function, lower_attributes(attributes), lower_all(&children));
        return with_marks(with_word(base, name), locate_all(&places));
    }
    if let Some((kind, attributes, children)) = item_other(node) {
        return built(kind, lower_attributes(attributes), lower_all(&children));
    }
    built(Kind::Other, Vec::new(), Vec::new())
}

fn lower_macro(node: &syn::Macro) -> (r: Node)
    ensures
        r@ == tree_of(Syntax::Macro(node)),
    decreases tree_of(Syntax::Macro(node)), 0nat,
{
    proof {
        smaller(tree_of(Syntax::Macro(node)));
    }
    let ghost t = tree_of(Syntax::Macro(node));
    let (path, stream) = macro_parts(node);
    assert(t.children[0] == tree_of(Syntax::Path(path)));
    let mut children: Vec<Node> = Vec::new();
    children.push(lower_path(path));
    assert(views(children@) =~= t.children);
    let (names, leading, segments) = path_parts(path);
    let base = with_words(built(Kind::Macro, Vec::new(), children), names);
    let arguments = match macro_arguments(node) {
        Some(list) => Some(lower_exprs(&list)),
        None => None,
    };
    let parts = token_parts(stream);
    assert(t.tokens == token_trees(parts@));
    let tokens = lower_tokens(&parts);
    with_place(with_tokens(base, arguments, tokens), locate(macro_span(node)), macro_text(node))
}

fn lower_statement(node: &syn::Stmt) -> (r: Node)
    ensures
        r@ == tree_of(Syntax::Stmt(node)),
    decreases tree_of(Syntax::Stmt(node)), 0nat,
{
    let (attributes, tail, children) = stmt_parts(node);
    let base = built(Kind::Statement, lower_optional(attributes), lower_all(&children));
    with_place(with_flags(base, tail, false), locate(stmt_span(node)), String::new())
}

fn lower_local(node: &syn::Local) -> (r: Node)
    ensures
        r@ == tree_of(Syntax::Local(node)),
    decreases tree_of(Syntax::Local(node)), 0nat,
{
    let (attributes, valued, children) = local_parts(node);
    let base = built(Kind::Local, lower_attributes(attributes), lower_all(&children));
    with_place(with_flags(base, valued, false), locate(local_span(node)), String::new())
}

/// The node of a piece that is neither an expression nor a pattern, a type, an item, a
/// statement, a macro, an attribute or a path.
fn lower_small(piece: &Syntax) -> (r: Option<Node>)
    ensures
        r matches Some(found) ==> found@ == full(*piece),
        r is None ==> !(piece is Arm || piece is Segment || piece is Signature || piece is FnArg
            || piece is Generics || piece is GenericParam || piece is WherePredicate
            || piece is Bound || piece is GenericArgument || piece is UseTree || piece is Block
            || piece is Variadic || piece is BareFnArg || piece is FieldValue || piece is FieldPat
            || piece is Field || piece is Variant || piece is ImplItem || piece is TraitItem
            || piece is ForeignItem),
    decreases full(*piece), 2nat,
{
    proof {
        smaller(full(*piece));
    }
    let (attributes, children) = match piece {
        Syntax::Arm(node) => {
            let (attributes, guarded, children) = arm_parts(*node);
            let base = built(Kind::Arm, lower_attributes(attributes), lower_all(&children));
            return Some(with_flags(base, guarded, false));
        },
        Syntax::Segment(node) => {
            return Some(built(Kind::Other, Vec::new(), lower_all(&segment_parts(*node))));
        },
        Syntax::Signature(node) => {
            let (output, children) = signature_parts(*node);
            let base = built(Kind::Signature, Vec::new(), lower_all(&children));
            return Some(with_flags(base, output, false));
        },
        Syntax::FnArg(node) => {
            let (kind, attributes, children) = input_parts(*node);
            return Some(built(kind, lower_attributes(attributes), lower_all(&children)));
        },
        Syntax::Generics(node) => {
            return Some(built(Kind::Other, Vec::new(), lower_all(&generics_parts(*node))));
        },
        Syntax::GenericParam(node) => {
            let (attributes, children) = parameter_parts(*node);
            return Some(built(Kind::Other, lower_attributes(attributes), lower_all(&children)));
        },
        Syntax::WherePredicate(node) => {
            return Some(built(Kind::Other, Vec::new(), lower_all(&predicate_parts(*node))));
        },
        Syntax::Bound(node) => {
            return Some(built(Kind::Other, Vec::new(), lower_all(&bound_parts(*node))));
        },
        Syntax::GenericArgument(node) => {
            return Some(built(Kind::Other, Vec::new(), lower_all(&argument_parts(*node))));
        },
        Syntax::UseTree(node) => {
            let (kind, names, children) = use_parts(*node);
            return Some(with_words(built(kind, Vec::new(), lower_all(&children)), names));
        },
        Syntax::Block(node) => {
            let (attributes, children) = block_parts(*node);
            return Some(
                built(Kind::Block, lower_optional(attributes), lower_all(&children)),
            );
        },
        Syntax::FieldPat(node) => {
            let (attributes, children) = field_pat_parts(*node);
            return Some(
                built(Kind::PatField, lower_optional(attributes), lower_all(&children)),
            );
        },
        Syntax::Variadic(node) => variadic_parts(*node),
        Syntax::BareFnArg(node) => bare_input_parts(*node),
        Syntax::FieldValue(node) => field_value_parts(*node),
        Syntax::Field(node) => field_parts(*node),
        Syntax::Variant(node) => variant_parts(*node),
        Syntax::ImplItem(node) => impl_item_parts(*node),
        Syntax::TraitItem(node) => match trait_value_parts(*node) {
            Some((attributes, children)) => {
                return Some(
                    built(Kind::TraitValue, lower_attributes(attributes), lower_all(&children)),
                );
            },
            None => trait_item_parts(*node),
        },
        Syntax::ForeignItem(node) => foreign_item_parts(*node),
        _ => {
            return None;
        },
    };
    Some(built(Kind::Other, lower_optional(attributes), lower_all(&children)))
}

/// The node of a piece of syntax.
fn lower(piece: &Syntax) -> (r: Node)
    ensures
        r@ == full(*piece),
    decreases full(*piece), 3nat,
{
    match piece {
        Syntax::Expr(node) => lower_expr(*node),
        Syntax::Pat(node) => lower_pat(*node),
        Syntax::Type(node) => lower_type(*node),
        Syntax::Item(node) => lower_item(*node),
        Syntax::Stmt(node) => lower_statement(*node),
        Syntax::Local(node) => lower_local(*node),
        Syntax::Macro(node) => lower_macro(*node),
        Syntax::Attribute(node) => lower_attribute(*node),
        Syntax::Path(node) => lower_path(*node),
        Syntax::Tokens(node) => lower_stream(*node),
        Syntax::Parts(pieces) => {
            assert(full(*piece).children =~= trees(pieces@));
            built(Kind::Other, Vec::new(), lower_all(pieces))
        },
        _ => match lower_small(piece) {
            Some(found) => found,
            None => {
                assert(false);
                built(Kind::Other, Vec::new(), Vec::new())
            },
        },
    }
}

/// Reads a source file: the nodes of its items, or why it cannot be parsed.
pub fn parse_items(source: &str) -> (r: Result<Vec<Node>, String>)
    ensures
        match r {
            Ok(items) => parsed(source@) is Ok && views(items@) == parsed(source@)->Ok_0.children,
            Err(message) => parsed(source@) == Err::<Tree, Seq<char>>(message@),
        },
{
    match parse_file(source) {
        Ok(file) => {
            let items = file_items(&file);
            Ok(lower_all(&items))
        },
        Err(message) => Err(message),
    }
}

} // verus!
