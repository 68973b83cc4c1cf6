//! The syntax of a Rust source file as a tree of plain nodes.

use vstd::prelude::*;

use super::model::SourceSpan;
use crate::copies::option_view;
use crate::seqs::views;

verus! {

broadcast use {vstd::std_specs::vec::group_vec_axioms, crate::seqs::group_views};

/// What a node is. The comments say what its children are, in source order, and
/// what its words and its flag hold where they hold something.
#[derive(Debug, Clone, Copy, PartialEq, Eq, Structural)]
pub enum Kind {
    /// The elements.
    Array,
    /// The left and the right side.
    Assign,
    /// The block.
    Async,
    /// The awaited expression.
    Await,
    /// The left and the right side. The word is the operator.
    Binary,
    /// The block.
    BlockExpr,
    /// The value, if any.
    Break,
    /// The called expression, then the arguments.
    Call,
    /// The expression and the type.
    Cast,
    /// The bound lifetimes as one node, the inputs, the result type if there is one,
    /// and the body. `inputs` counts the inputs.
    Closure,
    /// The block.
    ConstBlock,
    Continue,
    /// The expression that has the field.
    Field,
    /// The pattern, the iterated expression and the body.
    ForLoop,
    /// The grouped expression.
    Group,
    /// The condition, the block and the other branch, if any.
    If,
    /// The indexed expression and the index.
    Index,
    Infer,
    /// The pattern and the expression.
    Let,
    /// `value` is the string.
    StrLiteral,
    IntLiteral,
    /// The flag is the value.
    BoolLiteral,
    OtherLiteral,
    /// The block.
    Loop,
    /// The macro.
    MacroExpr,
    /// The matched expression, then the arms.
    Match,
    /// The receiver, the generic arguments as one node, then the arguments. The word
    /// is the method.
    MethodCall,
    /// The inner expression.
    Paren,
    /// The self type if there is one, and the path. The words are the segments, the
    /// flag is a leading `::`.
    Path,
    /// The bounds that are given.
    Range,
    /// The expression.
    RawAddr,
    /// The expression. The flag is `mut`.
    Reference,
    /// The element and the length.
    Repeat,
    /// The value, if any.
    Return,
    /// The path as one node, the fields and the base, if any.
    StructLiteral,
    /// The expression.
    Try,
    /// The block.
    TryBlock,
    /// The elements.
    Tuple,
    /// The operand. The word is the operator.
    Unary,
    /// The block.
    Unsafe,
    /// The condition and the body.
    While,
    /// The value, if any.
    Yield,
    /// The path. The words are the segments of the path; `arguments` holds the
    /// tokens read as a list of expressions, `tokens` the tokens themselves.
    Macro,
    /// The subpattern, if any. The word is the name.
    PatIdent,
    /// The elements.
    PatTuple,
    /// The path as one node, then the elements. The words are the segments.
    PatTupleStruct,
    /// The path as one node, the fields and the rest pattern, if any.
    PatStruct,
    /// The pattern of the field.
    PatField,
    /// The inner pattern.
    PatReference,
    /// The elements.
    PatSlice,
    /// The pattern and the type.
    PatType,
    /// The inner pattern.
    PatParen,
    PatWild,
    /// The statements.
    Block,
    /// The one thing it consists of. The flag is set for an expression without a
    /// semicolon.
    Statement,
    /// The pattern, the value and the other branch, as far as given. The flag is set
    /// where there is a value.
    Local,
    /// The pattern, the guard if there is one, and the body. The flag is set where
    /// there is a guard.
    Arm,
    /// The signature and the body. The word is the name; `marks` are the places of
    /// `fn`, of the name and of the closing brace.
    Function,
    /// The generic parameters as one node, the inputs, and the result type if there is
    /// one. The flag is set where there is a result type.
    Signature,
    /// The items. The word is the name.
    Module,
    /// The tree of imports.
    Use,
    /// The inner tree. The word is the segment.
    UsePath,
    /// The word is the name.
    UseName,
    /// The words are the name and the new name.
    UseRename,
    /// The inner trees.
    UseGroup,
    UseGlob,
    /// The generic parameters as one node and the type. The word is the name.
    TypeAlias,
    /// The generic parameters as one node where there are any, the type and the value of
    /// a constant or a static. The word is the name.
    Constant,
    /// The generic parameters as one node, then the variants or the fields of an
    /// enumeration, a structure or a union. The word is the name.
    Data,
    /// The generic parameters as one node, the bounds and the items of a trait. The word
    /// is the name.
    Trait,
    /// The word is the name of the crate.
    CrateImport,
    /// The macro. The word is the name that it defines, if it defines one.
    MacroItem,
    /// The path and, for `name = value`, the value. The flag is set for the form with a
    /// list, whose entries are the arguments.
    Attribute,
    /// An entry in the list of an attribute: the path and the expression that follows `=`,
    /// if one does. The flag is set where `=` follows the path; the argument is the literal
    /// that follows `=`, if one does.
    Entry,
    /// A path by itself: the generic arguments. The words are the segments, the flag is
    /// a leading `::`.
    Segments,
    /// The self type if there is one, and the path. The words are the segments.
    TypePath,
    /// The elements.
    TypeTuple,
    /// The inner type and, for an array, the length.
    TypeInner,
    /// The bound lifetimes, the inputs and the result type of a function pointer.
    TypeFunction,
    /// The bounds.
    TypeBounds,
    /// The macro.
    TypeMacro,
    /// An identifier among tokens, which is the word.
    TokenIdent,
    /// A constant or a type of a trait.
    TraitValue,
    /// The tokens of a group.
    TokenGroup,
    Other,
}

/// A node of the syntax of a source file.
pub struct Node {
    pub kind: Kind,
    pub words: Vec<String>,
    pub value: Option<String>,
    pub flag: bool,
    /// For a path, that it has a self type.
    pub second: bool,
    pub inputs: usize,
    pub span: SourceSpan,
    pub marks: Vec<SourceSpan>,
    /// The tokens of an expression or a macro, as text.
    pub text: String,
    pub attributes: Vec<Node>,
    pub children: Vec<Node>,
    pub arguments: Option<Vec<Node>>,
    pub tokens: Vec<Node>,
}

/// What a node holds.
#[verifier::ext_equal]
pub struct Tree {
    pub kind: Kind,
    pub words: Seq<Seq<char>>,
    pub value: Option<Seq<char>>,
    pub flag: bool,
    pub second: bool,
    pub inputs: usize,
    pub span: SourceSpan,
    pub marks: Seq<SourceSpan>,
    pub text: Seq<char>,
    pub attributes: Seq<Tree>,
    pub children: Seq<Tree>,
    pub arguments: Option<Seq<Tree>>,
    pub tokens: Seq<Tree>,
}

impl Node {
    pub open spec fn tree(self) -> Tree
        decreases self,
    {
        Tree {
            kind: self.kind,
            words: views(self.words@),
            value: option_view(self.value),
            flag: self.flag,
            second: self.second,
            inputs: self.inputs,
            span: self.span,
            marks: self.marks@,
            text: self.text@,
            attributes: Seq::new(
                self.attributes@.len(),
                |i: int|
                    if 0 <= i < self.attributes@.len() {
                        self.attributes@[i].tree()
                    } else {
                        arbitrary()
                    },
            ),
            children: Seq::new(
                self.children@.len(),
                |i: int|
                    if 0 <= i < self.children@.len() {
                        self.children@[i].tree()
                    } else {
                        arbitrary()
                    },
            ),
            arguments: match self.arguments {
                Some(list) => Some(
                    Seq::new(
                        list@.len(),
                        |i: int|
                            if 0 <= i < list@.len() {
                                list@[i].tree()
                            } else {
                                arbitrary()
                            },
                    ),
                ),
                None => None,
            },
            tokens: Seq::new(
                self.tokens@.len(),
                |i: int|
                    if 0 <= i < self.tokens@.len() {
                        self.tokens@[i].tree()
                    } else {
                        arbitrary()
                    },
            ),
        }
    }

    /// The parts of a node's tree are the trees of its parts.
    pub broadcast proof fn tree_parts(self)
        ensures
            #![trigger self.tree()]
            self.tree().kind == self.kind,
            self.tree().words == views(self.words@),
            self.tree().attributes == views(self.attributes@),
            self.tree().children == views(self.children@),
            self.tree().tokens == views(self.tokens@),
            self.tree().arguments == match self.arguments {
                Some(list) => Some(views(list@)),
                None => None,
            },
    {
        assert(self.tree().attributes =~= views(self.attributes@));
        assert(self.tree().children =~= views(self.children@));
        assert(self.tree().tokens =~= views(self.tokens@));
        if let Some(list) = self.arguments {
            assert(self.tree().arguments->0 =~= views(list@));
        }
    }
}

impl View for Node {
    type V = Tree;

    open spec fn view(&self) -> Tree {
        self.tree()
    }
}

} // verus!
