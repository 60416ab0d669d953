use vstd::prelude::*;
use crate::token::{Token, TokenMatch, Lexeme};
use crate::error::PangError;
use crate::grammar::{Rule, check_tree, grammar};
use crate::text::{is_integer_text, is_decimal_text, numeral_value, parse_integer, is_decimal};

verus! {

/// Nodes of the syntax tree. A float is kept as its decimal text.
#[derive(Debug)]
pub enum Node {
    Literal(String, usize),
    Int(i64, usize),
    Float(String, usize),
    Token(Token, usize),
    Statement { variant: Box<Node>, context: Box<Node>, child: Option<Box<Node>> },
    Shell { outside: Box<Node>, inside: Vec<Box<Node>> },
}

/// The model of a [`Node`].
pub enum Ast {
    Literal(Seq<char>, usize),
    Int(i64, usize),
    Float(Seq<char>, usize),
    Token(Token, usize),
    Statement { variant: Box<Ast>, context: Box<Ast>, child: Option<Box<Ast>> },
    Shell { outside: Box<Ast>, inside: Seq<Ast> },
}

pub open spec fn view_node(n: Node) -> Ast
    decreases n,
{
    match n {
        Node::Literal(s, p) => Ast::Literal(s@, p),
        Node::Int(i, p) => Ast::Int(i, p),
        Node::Float(s, p) => Ast::Float(s@, p),
        Node::Token(t, p) => Ast::Token(t, p),
        Node::Statement { variant, context, child } => Ast::Statement {
            variant: Box::new(view_node(*variant)),
            context: Box::new(view_node(*context)),
            child: match child {
                Some(c) => Some(Box::new(view_node(*c))),
                None => None,
            },
        },
        Node::Shell { outside, inside } => Ast::Shell {
            outside: Box::new(view_node(*outside)),
            inside: view_nodes(inside@),
        },
    }
}

/// The models of a sequence of boxed nodes, in order.
pub open spec fn view_nodes(s: Seq<Box<Node>>) -> Seq<Ast>
    decreases s,
{
    if s.len() == 0 {
        Seq::empty()
    } else {
        view_nodes(s.subrange(0, s.len() - 1)).push(view_node(*s[s.len() - 1]))
    }
}

/// The token that a node stands for: its own for a leaf, else that of its
/// leading clause.
pub open spec fn token_of(a: Ast) -> Token
    decreases a,
{
    match a {
        Ast::Literal(_, _) => Token::Literal,
        Ast::Int(_, _) => Token::Integer,
        Ast::Float(_, _) => Token::Float,
        Ast::Token(t, _) => t,
        Ast::Statement { variant, .. } => token_of(*variant),
        Ast::Shell { outside, .. } => token_of(*outside),
    }
}

/// The source offset of a node: its own for a leaf, else that of its leading
/// clause.
pub open spec fn position_of(a: Ast) -> usize
    decreases a,
{
    match a {
        Ast::Literal(_, p) => p,
        Ast::Int(_, p) => p,
        Ast::Float(_, p) => p,
        Ast::Token(_, p) => p,
        Ast::Statement { variant, .. } => position_of(*variant),
        Ast::Shell { outside, .. } => position_of(*outside),
    }
}

/// The models of a sequence of nodes, in order.
pub open spec fn view_nodes_plain(s: Seq<Node>) -> Seq<Ast> {
    s.map_values(|n: Node| view_node(n))
}

/// The model of a sequence of nodes is taken node by node.
pub proof fn lemma_view_nodes(s: Seq<Box<Node>>)
    ensures
        view_nodes(s).len() == s.len(),
        forall|i: int| 0 <= i < s.len() ==> #[trigger] view_nodes(s)[i] == view_node(*s[i]),
    decreases s.len(),
{
    if s.len() > 0 {
        lemma_view_nodes(s.subrange(0, s.len() - 1));
    }
}

/// The leaf that one token becomes: a literal, an integer (its text must be
/// digits whose value fits an `i64`), a float (its text must be digits, a
/// point, digits) or a keyword token; else a syntax error at the token.
pub open spec fn leaf_model(l: Lexeme) -> Result<Ast, PangError> {
    match l.token {
        Token::Literal => Ok(Ast::Literal(l.value, l.start)),
        Token::Integer => if is_integer_text(l.value) {
            Ok(Ast::Int(numeral_value(l.value) as i64, l.start))
        } else {
            Err(PangError::SyntaxError(l.start))
        },
        Token::Float => if is_decimal_text(l.value) {
            Ok(Ast::Float(l.value, l.start))
        } else {
            Err(PangError::SyntaxError(l.start))
        },
        t => Ok(Ast::Token(t, l.start)),
    }
}

/// The statement that two tokens make, with an optional child.
pub open spec fn pair_model(a: Lexeme, b: Lexeme, child: Option<Box<Ast>>) -> Result<Ast, PangError> {
    match leaf_model(a) {
        Err(e) => Err(e),
        Ok(v) => match leaf_model(b) {
            Err(e) => Err(e),
            Ok(c) => Ok(Ast::Statement { variant: Box::new(v), context: Box::new(c), child }),
        },
    }
}

/// The node that one line makes: two tokens give a statement, four give a
/// statement whose child is made of the last two; any other count is a
/// syntax error at the first token (at 0 for an empty line).
pub open spec fn line_model(ls: Seq<Lexeme>) -> Result<Ast, PangError> {
    if ls.len() == 2 {
        pair_model(ls[0], ls[1], None)
    } else if ls.len() == 4 {
        match leaf_model(ls[0]) {
            Err(e) => Err(e),
            Ok(_) => match leaf_model(ls[1]) {
                Err(e) => Err(e),
                Ok(_) => match pair_model(ls[2], ls[3], None) {
                    Err(e) => Err(e),
                    Ok(ch) => pair_model(ls[0], ls[1], Some(Box::new(ch))),
                },
            },
        }
    } else {
        Err(PangError::SyntaxError(if ls.len() > 0 { ls[0].start } else { 0 }))
    }
}

/// A statement led by SELECT, TEMPLATE or END opens or closes a block.
pub open spec fn opens_block(a: Ast) -> bool {
    match a {
        Ast::Statement { variant, .. } => match *variant {
            Ast::Token(t, _) => t == Token::Select || t == Token::Template || t == Token::End,
            _ => false,
        },
        _ => false,
    }
}

/// One step of block assembly: with a block open, an opening or closing line
/// closes it (that line is not kept) and any other line joins it; with none
/// open, an opening line opens one and any other line is a branch.
pub open spec fn assemble_step(
    ast: Seq<Ast>,
    open: Option<(Ast, Seq<Ast>)>,
    n: Ast,
) -> (Seq<Ast>, Option<(Ast, Seq<Ast>)>) {
    match open {
        Some((o, inside)) => if opens_block(n) {
            (ast.push(Ast::Shell { outside: Box::new(o), inside }), None)
        } else {
            (ast, Some((o, inside.push(n))))
        },
        None => if opens_block(n) {
            (ast, Some((n, Seq::empty())))
        } else {
            (ast.push(n), None)
        },
    }
}

/// The branches and the open block after the given lines; the first line
/// that makes no node ends it with that error.
pub open spec fn assemble(lines: Seq<Seq<Lexeme>>) -> Result<
    (Seq<Ast>, Option<(Ast, Seq<Ast>)>),
    PangError,
>
    decreases lines.len(),
{
    if lines.len() == 0 {
        Ok((Seq::empty(), None))
    } else {
        match assemble(lines.drop_last()) {
            Err(e) => Err(e),
            Ok((ast, open)) => match line_model(lines.last()) {
                Err(e) => Err(e),
                Ok(n) => Ok(assemble_step(ast, open, n)),
            },
        }
    }
}

/// The tree built from the lines and checked against the grammar; a block
/// still open at the end is dropped.
pub open spec fn parse_model(lines: Seq<Seq<Lexeme>>) -> Result<Seq<Ast>, PangError> {
    match assemble(lines) {
        Err(e) => Err(e),
        Ok((ast, _)) => match check_tree(ast, grammar()) {
            Err(e) => Err(e),
            Ok(_) => Ok(ast),
        },
    }
}

pub open spec fn line_view(l: Vec<TokenMatch>) -> Seq<Lexeme> {
    l@.map_values(|t: TokenMatch| t@)
}

pub open spec fn lines_view(lines: Seq<Vec<TokenMatch>>) -> Seq<Seq<Lexeme>> {
    lines.map_values(|l: Vec<TokenMatch>| line_view(l))
}

pub open spec fn open_view(open: Option<(Node, Vec<Box<Node>>)>) -> Option<(Ast, Seq<Ast>)> {
    match open {
        Some((o, inside)) => Some((view_node(o), view_nodes(inside@))),
        None => None,
    }
}

fn leaf(tm: &TokenMatch) -> (r: Result<Node, PangError>)
    ensures
        match leaf_model(tm@) {
            Ok(a) => r is Ok && view_node(r->Ok_0) == a,
            Err(e) => r == Err::<Node, PangError>(e),
        },
{
    match tm.token {
        Token::Literal => Ok(Node::Literal(tm.value.clone(), tm.start)),
        Token::Integer => match parse_integer(tm.value.as_str()) {
            Some(v) => Ok(Node::Int(v, tm.start)),
            None => Err(PangError::SyntaxError(tm.start)),
        },
        Token::Float => if is_decimal(tm.value.as_str()) {
            Ok(Node::Float(tm.value.clone(), tm.start))
        } else {
            Err(PangError::SyntaxError(tm.start))
        },
        t => Ok(Node::Token(t, tm.start)),
    }
}

fn pair(a: &TokenMatch, b: &TokenMatch, child: Option<Box<Node>>) -> (r: Result<Node, PangError>)
    ensures
        match pair_model(
            a@,
            b@,
            match child {
                Some(c) => Some(Box::new(view_node(*c))),
                None => None,
            },
        ) {
            Ok(n) => r is Ok && view_node(r->Ok_0) == n,
            Err(e) => r == Err::<Node, PangError>(e),
        },
{
    let variant = match leaf(a) {
        Ok(v) => v,
        Err(e) => return Err(e),
    };
    let context = match leaf(b) {
        Ok(c) => c,
        Err(e) => return Err(e),
    };
    Ok(Node::Statement { variant: Box::new(variant), context: Box::new(context), child })
}

/// Builds the node of a single line.
pub fn parse_node(tms: &Vec<TokenMatch>) -> (r: Result<Node, PangError>)
    ensures
        match line_model(line_view(*tms)) {
            Ok(n) => r is Ok && view_node(r->Ok_0) == n,
            Err(e) => r == Err::<Node, PangError>(e),
        },
{
    if tms.len() == 2 {
        pair(&tms[0], &tms[1], None)
    } else if tms.len() == 4 {
        match leaf(&tms[0]) {
            Err(e) => return Err(e),
            Ok(_) => {},
        }
        match leaf(&tms[1]) {
            Err(e) => return Err(e),
            Ok(_) => {},
        }
        let child = match pair(&tms[2], &tms[3], None) {
            Ok(c) => c,
            Err(e) => return Err(e),
        };
        pair(&tms[0], &tms[1], Some(Box::new(child)))
    } else if tms.len() > 0 {
        Err(PangError::SyntaxError(tms[0].start))
    } else {
        Err(PangError::SyntaxError(0))
    }
}

/// Whether the node is a statement led by SELECT, TEMPLATE or END.
pub fn is_shell_or_end(node: &Node) -> (b: bool)
    ensures
        b == opens_block(view_node(*node)),
{
    proof {
        reveal_with_fuel(view_node, 2);
    }
    match node {
        Node::Statement { variant, .. } => match &**variant {
            Node::Token(t, _) => match t {
                Token::Select => true,
                Token::Template => true,
                Token::End => true,
                _ => false,
            },
            _ => false,
        },
        _ => false,
    }
}

/// Builds the tree of the given lines and checks it against the grammar.
pub fn parse(lines: Vec<Vec<TokenMatch>>) -> (r: Result<Vec<Node>, PangError>)
    ensures
        match parse_model(lines_view(lines@)) {
            Ok(a) => r is Ok && view_nodes_plain(r->Ok_0@) == a,
            Err(e) => r == Err::<Vec<Node>, PangError>(e),
        },
{
    let ghost all = lines_view(lines@);
    let mut ast: Vec<Node> = Vec::new();
    let mut open: Option<(Node, Vec<Box<Node>>)> = None;
    let mut i: usize = 0;
    assert(all.take(0) =~= Seq::<Seq<Lexeme>>::empty());
    assert(view_nodes_plain(ast@) =~= Seq::<Ast>::empty());
    while i < lines.len()
        invariant
            all == lines_view(lines@),
            i <= lines.len(),
            assemble(all.take(i as int)) == Ok::<(Seq<Ast>, Option<(Ast, Seq<Ast>)>), PangError>(
                (view_nodes_plain(ast@), open_view(open)),
            ),
        decreases lines.len() - i,
    {
        assert(all.take(i + 1).drop_last() =~= all.take(i as int));
        assert(all.take(i + 1).last() == line_view(lines@[i as int]));
        let node = match parse_node(&lines[i]) {
            Ok(n) => n,
            Err(e) => {
                proof {
                    lemma_assemble_error(all, i as int + 1, e);
                    assert(all.take(all.len() as int) =~= all);
                }
                return Err(e);
            },
        };
        let shell_or_end = is_shell_or_end(&node);
        let ghost before = ast@;
        match open {
            Some((outside, inside)) => {
                if shell_or_end {
                    ast.push(Node::Shell { outside: Box::new(outside), inside });
                    open = None;
                    assert(view_nodes_plain(ast@) =~= view_nodes_plain(before).push(
                        view_node(ast@[ast@.len() - 1]),
                    ));
                } else {
                    let mut inside = inside;
                    let ghost prior = inside@;
                    inside.push(Box::new(node));
                    assert(inside@.subrange(0, inside@.len() - 1) =~= prior);
                    open = Some((outside, inside));
                }
            },
            None => {
                if shell_or_end {
                    open = Some((node, Vec::new()));
                    assert(view_nodes(Seq::<Box<Node>>::empty()) =~= Seq::<Ast>::empty());
                } else {
                    ast.push(node);
                    assert(view_nodes_plain(ast@) =~= view_nodes_plain(before).push(
                        view_node(ast@[ast@.len() - 1]),
                    ));
                }
            },
        }
        i = i + 1;
    }
    assert(all.take(lines.len() as int) =~= all);
    let rule = Rule::new();
    match rule.check(&ast) {
        Err(e) => Err(e),
        Ok(_) => Ok(ast),
    }
}

/// An error in a line ends the assembly of every longer prefix.
proof fn lemma_assemble_error(all: Seq<Seq<Lexeme>>, i: int, e: PangError)
    requires
        0 < i <= all.len(),
        assemble(all.take(i)) == Err::<(Seq<Ast>, Option<(Ast, Seq<Ast>)>), PangError>(e),
    ensures
        assemble(all.take(all.len() as int)) == Err::<(Seq<Ast>, Option<(Ast, Seq<Ast>)>), PangError>(e),
    decreases all.len() - i,
{
    if i < all.len() {
        assert(all.take(i + 1).drop_last() =~= all.take(i));
        lemma_assemble_error(all, i + 1, e);
    }
}

} // verus!
