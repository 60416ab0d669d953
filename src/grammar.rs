use vstd::prelude::*;
use crate::ast::{Ast, Node, view_node, view_nodes, token_of, position_of, lemma_view_nodes, view_nodes_plain};
use crate::error::PangError;
use crate::token::Token;

verus! {

/// A grammar rule, or one slot of a rule. A rule is tagged `Statement` (a
/// plain statement), `Expandable` (the opening clause of a block) or `Inner`
/// (a clause inside a block) and holds its slots; a slot is `Defined` (exactly
/// this token) or `Tuple` (one of these tokens).
#[derive(Debug)]
pub enum RuleSnippet {
    Expandable(Vec<RuleSnippet>),
    Inner(Vec<RuleSnippet>),
    Statement(Vec<RuleSnippet>),
    Defined(Token),
    Tuple(Vec<Token>),
}

/// How a rule may be used; `Bare` for a snippet that is a slot, not a rule.
#[derive(PartialEq, Eq, Structural)]
pub enum RuleKind {
    Statement,
    Expandable,
    Inner,
    Bare,
}

/// The model of a rule: its kind and, for each slot, the tokens it admits.
pub struct RuleModel {
    pub kind: RuleKind,
    pub slots: Seq<Seq<Token>>,
}

/// The tokens a slot admits; a tagged snippet used as a slot admits none.
pub open spec fn admits(s: RuleSnippet) -> Seq<Token> {
    match s {
        RuleSnippet::Defined(t) => seq![t],
        RuleSnippet::Tuple(ts) => ts@,
        _ => Seq::empty(),
    }
}

pub open spec fn slots_of(v: Vec<RuleSnippet>) -> Seq<Seq<Token>> {
    v@.map_values(|s: RuleSnippet| admits(s))
}

pub open spec fn model_of(r: RuleSnippet) -> RuleModel {
    match r {
        RuleSnippet::Statement(v) => RuleModel { kind: RuleKind::Statement, slots: slots_of(v) },
        RuleSnippet::Expandable(v) => RuleModel { kind: RuleKind::Expandable, slots: slots_of(v) },
        RuleSnippet::Inner(v) => RuleModel { kind: RuleKind::Inner, slots: slots_of(v) },
        _ => RuleModel { kind: RuleKind::Bare, slots: Seq::empty() },
    }
}

pub open spec fn models_of(rules: Seq<RuleSnippet>) -> Seq<RuleModel> {
    rules.map_values(|r: RuleSnippet| model_of(r))
}

/// Rule `r` admits token `t` in slot `d`.
pub open spec fn fits(r: RuleModel, d: int, t: Token) -> bool {
    &&& r.kind != RuleKind::Bare
    &&& 0 <= d < r.slots.len()
    &&& r.slots[d].contains(t)
}

/// The rules of `alive` (indices into `table`) that admit `t` in slot `d`.
pub open spec fn narrowed(table: Seq<RuleModel>, alive: Set<int>, d: int, t: Token) -> Set<int> {
    alive.filter(|i: int| fits(table[i], d, t))
}

pub open spec fn of_kind(table: Seq<RuleModel>, alive: Set<int>, k: RuleKind) -> Set<int> {
    alive.filter(|i: int| table[i].kind == k)
}

pub open spec fn longer_than(table: Seq<RuleModel>, alive: Set<int>, n: int) -> Set<int> {
    alive.filter(|i: int| table[i].slots.len() > n)
}

pub open spec fn inhabited(s: Set<int>) -> bool {
    exists|i: int| s.contains(i)
}

/// All indices of a table of `n` rules.
pub open spec fn all_rules(n: int) -> Set<int> {
    Set::new(|i: int| 0 <= i < n)
}

/// Checks one branch against the candidate rules `alive`, whose first `d`
/// slots are already consumed. A statement keeps the rules whose next two
/// slots admit its variant and its context (else the error stands at the
/// token that no rule admits); without a child it is done if a rule ends
/// there, with a child the child goes on against the rules that go on. A
/// block checks its opening clause against the expandable rules and each
/// inner clause against the inner rules. A leaf is never a branch.
pub open spec fn check_node(n: Ast, table: Seq<RuleModel>, alive: Set<int>, d: int) -> Result<
    (),
    PangError,
>
    decreases n,
{
    match n {
        Ast::Statement { variant, context, child } => {
            let s1 = narrowed(table, alive, d, token_of(*variant));
            let s2 = narrowed(table, s1, d + 1, token_of(*context));
            if !inhabited(s1) {
                Err(PangError::SyntaxError(position_of(*variant)))
            } else if !inhabited(s2) {
                Err(PangError::SyntaxError(position_of(*context)))
            } else {
                match child {
                    None => if exists|i: int| s2.contains(i) && table[i].slots.len() == d + 2 {
                        Ok(())
                    } else {
                        Err(PangError::SyntaxError(position_of(*context)))
                    },
                    Some(c) => check_node(*c, table, longer_than(table, s2, d + 2), d + 2),
                }
            }
        },
        Ast::Shell { outside, inside } => match check_node(
            *outside,
            table,
            of_kind(table, alive, RuleKind::Expandable),
            d,
        ) {
            Err(e) => Err(e),
            Ok(_) => check_nodes(inside, table, of_kind(table, alive, RuleKind::Inner), d),
        },
        Ast::Literal(_, p) => Err(PangError::SyntaxError(p)),
        Ast::Int(_, p) => Err(PangError::SyntaxError(p)),
        Ast::Float(_, p) => Err(PangError::SyntaxError(p)),
        Ast::Token(_, p) => Err(PangError::SyntaxError(p)),
    }
}

/// Checks each node in turn against the same rules; the first error wins.
pub open spec fn check_nodes(ns: Seq<Ast>, table: Seq<RuleModel>, alive: Set<int>, d: int) -> Result<
    (),
    PangError,
>
    decreases ns,
{
    if ns.len() == 0 {
        Ok(())
    } else {
        match check_node(ns[0], table, alive, d) {
            Err(e) => Err(e),
            Ok(_) => check_nodes(ns.subrange(1, ns.len() as int), table, alive, d),
        }
    }
}

/// Checks a whole tree: each branch against every rule of the table.
pub open spec fn check_tree(ns: Seq<Ast>, table: Seq<RuleModel>) -> Result<(), PangError> {
    check_nodes(ns, table, all_rules(table.len() as int), 0)
}

/// The language's grammar, in the order the rules are declared.
pub open spec fn grammar() -> Seq<RuleModel> {
    let kinds = seq![Token::StringType, Token::IntegerType, Token::FloatType];
    let values = seq![Token::Literal, Token::Integer, Token::Float];
    let lit = seq![Token::Literal];
    let sources = seq![Token::Template, Token::Instance];
    seq![
        RuleModel {
            kind: RuleKind::Statement,
            slots: seq![seq![Token::Query], seq![Token::Literal, Token::Template], seq![Token::From], sources],
        },
        RuleModel {
            kind: RuleKind::Statement,
            slots: seq![seq![Token::Create], lit, sources, lit],
        },
        RuleModel { kind: RuleKind::Expandable, slots: seq![seq![Token::Template], lit] },
        RuleModel { kind: RuleKind::Inner, slots: seq![kinds, lit, seq![Token::Value], values] },
        RuleModel { kind: RuleKind::Inner, slots: seq![kinds, lit] },
        RuleModel { kind: RuleKind::Expandable, slots: seq![seq![Token::Select], lit] },
        RuleModel {
            kind: RuleKind::Inner,
            slots: seq![seq![Token::SetField], lit, seq![Token::Value], values],
        },
        RuleModel { kind: RuleKind::Inner, slots: seq![seq![Token::End], lit] },
        RuleModel {
            kind: RuleKind::Statement,
            slots: seq![seq![Token::Delete], lit, seq![Token::From], sources],
        },
    ]
}

/// The indices whose flag is set.
pub open spec fn set_of(flags: Seq<bool>) -> Set<int> {
    Set::new(|i: int| 0 <= i < flags.len() && flags[i])
}

/// Tags a sequence of slots as a rule: expandable, else inner, else a plain
/// statement.
pub fn grammar_rule(slots: Vec<RuleSnippet>, expandable: bool, inner: bool) -> (r: RuleSnippet)
    ensures
        model_of(r) == (RuleModel {
            kind: if expandable {
                RuleKind::Expandable
            } else if inner {
                RuleKind::Inner
            } else {
                RuleKind::Statement
            },
            slots: slots_of(slots),
        }),
{
    if expandable {
        RuleSnippet::Expandable(slots)
    } else if inner {
        RuleSnippet::Inner(slots)
    } else {
        RuleSnippet::Statement(slots)
    }
}

fn slot_admits(s: &RuleSnippet, t: Token) -> (b: bool)
    ensures
        b == admits(*s).contains(t),
{
    match s {
        RuleSnippet::Defined(x) => {
            proof {
                assert(admits(*s)[0] == *x);
            }
            *x == t
        },
        RuleSnippet::Tuple(ts) => {
            assert(admits(*s) == ts@);
            let mut i: usize = 0;
            while i < ts.len()
                invariant
                    0 <= i <= ts.len(),
                    admits(*s) == ts@,
                    forall|j: int| 0 <= j < i ==> ts@[j] != t,
                decreases ts.len() - i,
            {
                if ts[i] == t {
                    assert(ts@[i as int] == t);
                    assert(admits(*s)[i as int] == t);
                    return true;
                }
                i = i + 1;
            }
            false
        },
        _ => false,
    }
}

fn rule_fits(r: &RuleSnippet, d: usize, t: Token) -> (b: bool)
    ensures
        b == fits(model_of(*r), d as int, t),
        b ==> d < usize::MAX,
{
    match r {
        RuleSnippet::Statement(v) | RuleSnippet::Expandable(v) | RuleSnippet::Inner(v) => {
            if d < v.len() {
                slot_admits(&v[d], t)
            } else {
                false
            }
        },
        _ => false,
    }
}

fn rule_len(r: &RuleSnippet) -> (n: usize)
    ensures
        n == model_of(*r).slots.len(),
{
    match r {
        RuleSnippet::Statement(v) | RuleSnippet::Expandable(v) | RuleSnippet::Inner(v) => v.len(),
        _ => 0,
    }
}

fn rule_kind(r: &RuleSnippet) -> (k: RuleKind)
    ensures
        k == model_of(*r).kind,
{
    match r {
        RuleSnippet::Statement(_) => RuleKind::Statement,
        RuleSnippet::Expandable(_) => RuleKind::Expandable,
        RuleSnippet::Inner(_) => RuleKind::Inner,
        _ => RuleKind::Bare,
    }
}

/// The token of a node, as [`token_of`] gives it.
fn node_to_token(node: &Node) -> (t: Token)
    ensures
        t == token_of(view_node(*node)),
    decreases node,
{
    match node {
        Node::Literal(_, _) => Token::Literal,
        Node::Int(_, _) => Token::Integer,
        Node::Float(_, _) => Token::Float,
        Node::Token(t, _) => *t,
        Node::Statement { variant, .. } => node_to_token(variant),
        Node::Shell { outside, .. } => node_to_token(outside),
    }
}

/// The position of a node, as [`position_of`] gives it.
fn get_node_position(node: &Node) -> (p: usize)
    ensures
        p == position_of(view_node(*node)),
    decreases node,
{
    match node {
        Node::Literal(_, p) => *p,
        Node::Int(_, p) => *p,
        Node::Float(_, p) => *p,
        Node::Token(_, p) => *p,
        Node::Statement { variant, .. } => get_node_position(variant),
        Node::Shell { outside, .. } => get_node_position(outside),
    }
}

/// The table of grammar rules that every statement is checked against.
pub struct Rule {
    snippets: Vec<RuleSnippet>,
}

impl View for Rule {
    type V = Seq<RuleModel>;

    closed spec fn view(&self) -> Seq<RuleModel> {
        models_of(self.snippets@)
    }
}

impl Rule {
    /// The table of the language's grammar.
    pub fn new() -> (r: Self)
        ensures
            r@ == grammar(),
    {
        let snippets = Self::init_rules();
        Self { snippets }
    }

    fn init_rules() -> (rules: Vec<RuleSnippet>)
        ensures
            models_of(rules@) == grammar(),
    {
        let mut rules: Vec<RuleSnippet> = Vec::new();
        let r = grammar_rule(vec![
            RuleSnippet::Defined(Token::Query),
            RuleSnippet::Tuple(vec![Token::Literal, Token::Template]),
            RuleSnippet::Defined(Token::From),
            RuleSnippet::Tuple(vec![Token::Template, Token::Instance]),
        ], false, false);
        assert(model_of(r).slots =~= grammar()[0].slots);
        rules.push(r);
        let r = grammar_rule(vec![
            RuleSnippet::Defined(Token::Create),
            RuleSnippet::Defined(Token::Literal),
            RuleSnippet::Tuple(vec![Token::Template, Token::Instance]),
            RuleSnippet::Defined(Token::Literal),
        ], false, false);
        assert(model_of(r).slots =~= grammar()[1].slots);
        rules.push(r);
        let r = grammar_rule(vec![
            RuleSnippet::Defined(Token::Template),
            RuleSnippet::Defined(Token::Literal),
        ], true, false);
        assert(model_of(r).slots =~= grammar()[2].slots);
        rules.push(r);
        let r = grammar_rule(vec![
            RuleSnippet::Tuple(vec![Token::StringType, Token::IntegerType, Token::FloatType]),
            RuleSnippet::Defined(Token::Literal),
            RuleSnippet::Defined(Token::Value),
            RuleSnippet::Tuple(vec![Token::Literal, Token::Integer, Token::Float]),
        ], false, true);
        assert(model_of(r).slots =~= grammar()[3].slots);
        rules.push(r);
        let r = grammar_rule(vec![
            RuleSnippet::Tuple(vec![Token::StringType, Token::IntegerType, Token::FloatType]),
            RuleSnippet::Defined(Token::Literal),
        ], false, true);
        assert(model_of(r).slots =~= grammar()[4].slots);
        rules.push(r);
        let r = grammar_rule(vec![
            RuleSnippet::Defined(Token::Select),
            RuleSnippet::Defined(Token::Literal),
        ], true, false);
        assert(model_of(r).slots =~= grammar()[5].slots);
        rules.push(r);
        let r = grammar_rule(vec![
            RuleSnippet::Defined(Token::SetField),
            RuleSnippet::Defined(Token::Literal),
            RuleSnippet::Defined(Token::Value),
            RuleSnippet::Tuple(vec![Token::Literal, Token::Integer, Token::Float]),
        ], false, true);
        assert(model_of(r).slots =~= grammar()[6].slots);
        rules.push(r);
        let r = grammar_rule(vec![
            RuleSnippet::Defined(Token::End),
            RuleSnippet::Defined(Token::Literal),
        ], false, true);
        assert(model_of(r).slots =~= grammar()[7].slots);
        rules.push(r);
        let r = grammar_rule(vec![
            RuleSnippet::Defined(Token::Delete),
            RuleSnippet::Defined(Token::Literal),
            RuleSnippet::Defined(Token::From),
            RuleSnippet::Tuple(vec![Token::Template, Token::Instance]),
        ], false, false);
        assert(model_of(r).slots =~= grammar()[8].slots);
        rules.push(r);
        assert(models_of(rules@) =~= grammar());
        rules
    }
}

impl Rule {
    /// The rules of `alive` whose slot `d` admits `t`, and whether there are any.
    fn narrow(&self, alive: &Vec<bool>, d: usize, t: Token) -> (r: (Vec<bool>, bool))
        requires
            alive.len() == self@.len(),
        ensures
            r.0.len() == alive.len(),
            set_of(r.0@) == narrowed(self@, set_of(alive@), d as int, t),
            r.1 == inhabited(set_of(r.0@)),
            r.1 ==> d < usize::MAX,
    {
        let mut out: Vec<bool> = Vec::new();
        let mut any = false;
        let mut i: usize = 0;
        while i < alive.len()
            invariant
                alive.len() == self@.len(),
                self@.len() == self.snippets.len(),
                i <= alive.len(),
                out.len() == i,
                forall|j: int|
                    0 <= j < i ==> (#[trigger] out@[j] == (alive@[j] && fits(self@[j], d as int, t))),
                any == (exists|j: int| 0 <= j < i && out@[j]),
                any ==> d < usize::MAX,
            decreases alive.len() - i,
        {
            let keep = alive[i] && rule_fits(&self.snippets[i], d, t);
            let ghost prev = out@;
            out.push(keep);
            proof {
                if any {
                    let j = choose|j: int| 0 <= j < i && prev[j];
                    assert(out@[j]);
                }
                if keep {
                    assert(out@[i as int]);
                }
            }
            any = any || keep;
            i = i + 1;
        }
        assert(set_of(out@) =~= narrowed(self@, set_of(alive@), d as int, t));
        if any {
            let ghost j = choose|j: int| 0 <= j < i && out@[j];
            assert(set_of(out@).contains(j));
        }
        (out, any)
    }

    /// The rules of `alive` of kind `k`.
    fn keep_kind(&self, alive: &Vec<bool>, k: RuleKind) -> (r: Vec<bool>)
        requires
            alive.len() == self@.len(),
        ensures
            r.len() == alive.len(),
            set_of(r@) == of_kind(self@, set_of(alive@), k),
    {
        let mut out: Vec<bool> = Vec::new();
        let mut i: usize = 0;
        while i < alive.len()
            invariant
                alive.len() == self@.len(),
                self@.len() == self.snippets.len(),
                i <= alive.len(),
                out.len() == i,
                forall|j: int|
                    0 <= j < i ==> (#[trigger] out@[j] == (alive@[j] && self@[j].kind == k)),
            decreases alive.len() - i,
        {
            let keep = alive[i] && rule_kind(&self.snippets[i]) == k;
            out.push(keep);
            i = i + 1;
        }
        assert(set_of(out@) =~= of_kind(self@, set_of(alive@), k));
        out
    }

    /// The rules of `alive` with more than `n` slots.
    fn keep_longer(&self, alive: &Vec<bool>, n: usize) -> (r: Vec<bool>)
        requires
            alive.len() == self@.len(),
        ensures
            r.len() == alive.len(),
            set_of(r@) == longer_than(self@, set_of(alive@), n as int),
    {
        let mut out: Vec<bool> = Vec::new();
        let mut i: usize = 0;
        while i < alive.len()
            invariant
                alive.len() == self@.len(),
                self@.len() == self.snippets.len(),
                i <= alive.len(),
                out.len() == i,
                forall|j: int|
                    0 <= j < i ==> (#[trigger] out@[j] == (alive@[j] && self@[j].slots.len() > n)),
            decreases alive.len() - i,
        {
            let keep = alive[i] && rule_len(&self.snippets[i]) > n;
            out.push(keep);
            i = i + 1;
        }
        assert(set_of(out@) =~= longer_than(self@, set_of(alive@), n as int));
        out
    }

    /// Whether a rule of `alive` has exactly `n` slots.
    fn any_ending(&self, alive: &Vec<bool>, n: usize) -> (b: bool)
        requires
            alive.len() == self@.len(),
        ensures
            b == exists|i: int| set_of(alive@).contains(i) && self@[i].slots.len() == n,
    {
        let mut i: usize = 0;
        while i < alive.len()
            invariant
                alive.len() == self@.len(),
                self@.len() == self.snippets.len(),
                i <= alive.len(),
                forall|j: int| 0 <= j < i ==> !(alive@[j] && self@[j].slots.len() == n),
            decreases alive.len() - i,
        {
            if alive[i] && rule_len(&self.snippets[i]) == n {
                assert(set_of(alive@).contains(i as int));
                return true;
            }
            i = i + 1;
        }
        false
    }

    /// Checks the whole tree: each branch against every rule.
    pub fn check(&self, ast: &Vec<Node>) -> (r: Result<(), PangError>)
        ensures
            r == check_tree(view_nodes_plain(ast@), self@),
    {
        let mut all: Vec<bool> = Vec::new();
        let mut k: usize = 0;
        while k < self.snippets.len()
            invariant
                self@.len() == self.snippets.len(),
                k <= self.snippets.len(),
                all.len() == k,
                forall|j: int| 0 <= j < k ==> #[trigger] all@[j],
            decreases self.snippets.len() - k,
        {
            all.push(true);
            k = k + 1;
        }
        assert(set_of(all@) =~= all_rules(self@.len() as int));
        let ghost whole = view_nodes_plain(ast@);
        assert(whole.subrange(0, whole.len() as int) =~= whole);
        let mut i: usize = 0;
        while i < ast.len()
            invariant
                all.len() == self@.len(),
                set_of(all@) == all_rules(self@.len() as int),
                whole == view_nodes_plain(ast@),
                whole.len() == ast.len(),
                forall|j: int| 0 <= j < ast.len() ==> #[trigger] whole[j] == view_node(ast@[j]),
                i <= ast.len(),
                check_tree(whole, self@) == check_nodes(
                    whole.subrange(i as int, whole.len() as int),
                    self@,
                    set_of(all@),
                    0,
                ),
            decreases ast.len() - i,
        {
            let ghost rest = whole.subrange(i as int, whole.len() as int);
            assert(rest[0] == whole[i as int]);
            assert(rest.subrange(1, rest.len() as int) =~= whole.subrange(
                i + 1,
                whole.len() as int,
            ));
            match self.check_branch(&ast[i], &all, 0) {
                Err(e) => return Err(e),
                Ok(_) => {},
            }
            i = i + 1;
        }
        Ok(())
    }

    fn check_branch(&self, branch: &Node, alive: &Vec<bool>, d: usize) -> (r: Result<
        (),
        PangError,
    >)
        requires
            alive.len() == self@.len(),
        ensures
            r == check_node(view_node(*branch), self@, set_of(alive@), d as int),
        decreases branch,
    {
        match branch {
            Node::Literal(_, loc) => Err(PangError::SyntaxError(*loc)),
            Node::Int(_, loc) => Err(PangError::SyntaxError(*loc)),
            Node::Float(_, loc) => Err(PangError::SyntaxError(*loc)),
            Node::Token(_, loc) => Err(PangError::SyntaxError(*loc)),
            Node::Statement { variant, context, child } => {
                let (s1, any1) = self.narrow(alive, d, node_to_token(variant));
                if !any1 {
                    return Err(PangError::SyntaxError(get_node_position(variant)));
                }
                let (s2, any2) = self.narrow(&s1, d + 1, node_to_token(context));
                if !any2 {
                    return Err(PangError::SyntaxError(get_node_position(context)));
                }
                match child {
                    None => {
                        if self.any_ending(&s2, d + 2) {
                            Ok(())
                        } else {
                            Err(PangError::SyntaxError(get_node_position(context)))
                        }
                    },
                    Some(c) => {
                        let s3 = self.keep_longer(&s2, d + 2);
                        self.check_branch(c, &s3, d + 2)
                    },
                }
            },
            Node::Shell { outside, inside } => {
                let outer = self.keep_kind(alive, RuleKind::Expandable);
                match self.check_branch(outside, &outer, d) {
                    Err(e) => return Err(e),
                    Ok(_) => {},
                }
                let inner = self.keep_kind(alive, RuleKind::Inner);
                let ghost whole = view_nodes(inside@);
                proof {
                    lemma_view_nodes(inside@);
                }
                assert(whole.subrange(0, whole.len() as int) =~= whole);
                assert(decreases_to!(*branch => *inside));
                assert forall|k: int| 0 <= k < inside.len() implies decreases_to!(*branch => inside[k]) by {
                    vstd::std_specs::vec::axiom_vec_index_decreases(*inside, k);
                }
                assert(check_node(view_node(*branch), self@, set_of(alive@), d as int) == check_nodes(
                    whole,
                    self@,
                    set_of(inner@),
                    d as int,
                ));
                let mut i: usize = 0;
                while i < inside.len()
                    invariant
                        inner.len() == self@.len(),
                        forall|k: int| 0 <= k < inside.len() ==> decreases_to!(*branch => inside[k]),
                        check_node(view_node(*branch), self@, set_of(alive@), d as int)
                            == check_nodes(whole, self@, set_of(inner@), d as int),
                        whole == view_nodes(inside@),
                        whole.len() == inside.len(),
                        forall|j: int|
                            0 <= j < inside.len() ==> #[trigger] whole[j] == view_node(*inside@[j]),
                        i <= inside.len(),
                        check_nodes(whole, self@, set_of(inner@), d as int) == check_nodes(
                            whole.subrange(i as int, whole.len() as int),
                            self@,
                            set_of(inner@),
                            d as int,
                        ),
                    decreases inside.len() - i,
                {
                    let ghost rest = whole.subrange(i as int, whole.len() as int);
                    assert(rest[0] == whole[i as int]);
                    assert(rest.subrange(1, rest.len() as int) =~= whole.subrange(
                        i + 1,
                        whole.len() as int,
                    ));
                    match self.check_branch(&inside[i], &inner, d) {
                        Err(e) => {
                            assert(check_nodes(rest, self@, set_of(inner@), d as int) == Err::<(), PangError>(e));
                            return Err(e);
                        },
                        Ok(_) => {},
                    }
                    i = i + 1;
                }
                assert(whole.subrange(0, whole.len() as int) =~= whole);
                Ok(())
            },
        }
    }
}

} // verus!
