use vstd::prelude::*;
use crate::ast::{Ast, assemble, line_model, opens_block, assemble_step};
use crate::data::{Value, lookup, TemplateModel, InstanceModel};
use crate::error::ErrorModel;
use crate::query::{branch_model, exec_model, Record, apply_sets, select_shell_model};
use crate::store::{
    StoreModel, push_template_model, push_instance_model, template_names, instance_names,
    first_index, occurrences, no_repeats, lemma_first_index, remove_instance_model,
    remove_template_model,
};
use crate::token::{Token, Lexeme};
use crate::lexer::{
    lex, lex_state, scan, match_end, literal_end, keyword, pattern, unclaimed, claim,
    place, free, tokens_upto, split_lines, lexeme_at, PATTERNS,
};
use crate::text::is_digit;
use crate::ast::token_of;
use crate::grammar::{
    RuleModel, RuleKind, grammar, check_node, check_nodes, check_tree, narrowed, longer_than,
    of_kind, all_rules, fits,
};
use crate::ast::position_of;

verus! {

/// In a sequence without repeats, a value occurs once if it is there and
/// never otherwise.
pub proof fn lemma_occurrences<A>(s: Seq<A>, x: A)
    requires
        no_repeats(s),
    ensures
        occurrences(s, x) == (if s.contains(x) { 1nat } else { 0nat }),
    decreases s.len(),
{
    reveal(Seq::filter);
    if s.len() > 0 {
        let init = s.drop_last();
        assert(no_repeats(init)) by {
            assert forall|i: int, j: int| 0 <= i < init.len() && 0 <= j < init.len() && i != j implies init[i] != init[j] by {
                assert(init[i] == s[i] && init[j] == s[j]);
            }
        }
        lemma_occurrences(init, x);
        assert(s.filter(|y: A| y == x) == if s.last() == x {
            init.filter(|y: A| y == x).push(s.last())
        } else {
            init.filter(|y: A| y == x)
        });
        if s.last() == x {
            if init.contains(x) {
                let i = choose|i: int| 0 <= i < init.len() && init[i] == x;
                assert(s[i] == s[s.len() - 1]);
            }
            assert(s.contains(x)) by {
                assert(s[s.len() - 1] == x);
            }
        } else {
            if s.contains(x) {
                let i = choose|i: int| 0 <= i < s.len() && s[i] == x;
                assert(init[i] == x);
            }
            if init.contains(x) {
                let i = choose|i: int| 0 <= i < init.len() && init[i] == x;
                assert(s[i] == x);
            }
        }
    }
}

/// Adding a name that is not there keeps names unique.
proof fn lemma_push_unique(names: Seq<Seq<char>>, n: Seq<char>)
    requires
        no_repeats(names),
        first_index(names, n) == -1,
    ensures
        no_repeats(names.push(n)),
{
    lemma_first_index(names, n);
    let s = names.push(n);
    assert forall|i: int, j: int| 0 <= i < s.len() && 0 <= j < s.len() && i != j implies s[i] != s[j] by {
        if i < names.len() && j < names.len() {
            assert(s[i] == names[i] && s[j] == names[j]);
        } else if i < names.len() {
            assert(s[i] == names[i]);
        } else {
            assert(s[j] == names[j]);
        }
    }
}

/// Uniqueness of template names: adding two templates of the same name one
/// after the other refuses the second as a duplicate, and afterwards the
/// store holds exactly one template of that name.
pub proof fn lemma_push_template_twice(
    s: StoreModel,
    a: TemplateModel,
    b: TemplateModel,
    loc_a: usize,
    loc_b: usize,
)
    requires
        s.wf(),
        a.name == b.name,
    ensures
        ({
            let s1 = match push_template_model(s, a, loc_a) {
                Ok(x) => x,
                Err(_) => s,
            };
            &&& push_template_model(s1, b, loc_b) == Err::<StoreModel, ErrorModel>(
                ErrorModel::TemplateAlreadyExists(b.name, loc_b),
            )
            &&& occurrences(template_names(s1.templates), b.name) == 1
        }),
{
    let names = template_names(s.templates);
    lemma_first_index(names, a.name);
    let s1 = match push_template_model(s, a, loc_a) {
        Ok(x) => x,
        Err(_) => s,
    };
    let names1 = template_names(s1.templates);
    if first_index(names, a.name) == -1 {
        assert(names1 =~= names.push(a.name));
        lemma_push_unique(names, a.name);
        assert(names1[names.len() as int] == a.name);
    } else {
        assert(names1 == names);
    }
    lemma_first_index(names1, b.name);
    assert(names1.contains(b.name)) by {
        if first_index(names, a.name) == -1 {
            assert(names1[names.len() as int] == b.name);
        } else {
            assert(names1[first_index(names, a.name)] == b.name);
        }
    }
    let k = choose|k: int| 0 <= k < names1.len() && names1[k] == b.name;
    lemma_occurrences(names1, b.name);
}

/// Uniqueness of instance names: adding two instances of the same name one
/// after the other refuses the second as a duplicate, and afterwards the
/// store holds exactly one instance of that name.
pub proof fn lemma_push_instance_twice(
    s: StoreModel,
    a: InstanceModel,
    b: InstanceModel,
    loc_a: usize,
    loc_b: usize,
)
    requires
        s.wf(),
        a.name == b.name,
    ensures
        ({
            let s1 = match push_instance_model(s, a, loc_a) {
                Ok(x) => x,
                Err(_) => s,
            };
            &&& push_instance_model(s1, b, loc_b) == Err::<StoreModel, ErrorModel>(
                ErrorModel::InstanceAlreadyExists(b.name, loc_b),
            )
            &&& occurrences(instance_names(s1.instances), b.name) == 1
        }),
{
    let names = instance_names(s.instances);
    lemma_first_index(names, a.name);
    let s1 = match push_instance_model(s, a, loc_a) {
        Ok(x) => x,
        Err(_) => s,
    };
    let names1 = instance_names(s1.instances);
    if first_index(names, a.name) == -1 {
        assert(names1 =~= names.push(a.name));
        lemma_push_unique(names, a.name);
        assert(names1[names.len() as int] == a.name);
    } else {
        assert(names1 == names);
    }
    lemma_first_index(names1, b.name);
    assert(names1.contains(b.name)) by {
        if first_index(names, a.name) == -1 {
            assert(names1[names.len() as int] == b.name);
        } else {
            assert(names1[first_index(names, a.name)] == b.name);
        }
    }
    lemma_occurrences(names1, b.name);
}

/// Idempotent query: querying all templates twice in a row returns the same
/// records both times, and leaves the store as it was.
pub proof fn lemma_query_all_templates_twice(s: StoreModel, l0: usize, l1: usize, child: Option<Box<Ast>>)
    ensures
        ({
            let q = Ast::Statement {
                variant: Box::new(Ast::Token(Token::Query, l0)),
                context: Box::new(Ast::Token(Token::Template, l1)),
                child,
            };
            let (s1, r1) = exec_model(s, seq![q]);
            let (s2, r2) = exec_model(s1, seq![q]);
            &&& s1 == s
            &&& s2 == s
            &&& r1 == r2
            &&& r1 == Ok::<Seq<Record>, ErrorModel>(
                s.templates.map_values(|t: TemplateModel| Record::Template(t)),
            )
        }),
{
    let q = Ast::Statement {
        variant: Box::new(Ast::Token(Token::Query, l0)),
        context: Box::new(Ast::Token(Token::Template, l1)),
        child,
    };
    assert(seq![q].drop_last() =~= Seq::<Ast>::empty());
    assert(exec_model(s, Seq::<Ast>::empty()) == (s, Ok::<Seq<Record>, ErrorModel>(Seq::empty())));
    assert(Seq::<Record>::empty() + s.templates.map_values(|t: TemplateModel| Record::Template(t))
        =~= s.templates.map_values(|t: TemplateModel| Record::Template(t)));
}

/// In a store with unique names, the name at index `k` is found at `k`.
proof fn lemma_index_of_unique(names: Seq<Seq<char>>, k: int)
    requires
        no_repeats(names),
        0 <= k < names.len(),
    ensures
        first_index(names, names[k]) == k,
{
    lemma_first_index(names, names[k]);
}

/// Cascading delete: deleting a template removes it and every instance made
/// from it, and querying such an instance afterwards reports that it does
/// not exist.
pub proof fn lemma_delete_template_cascades(
    s: StoreModel,
    ti: int,
    ii: int,
    locs: (usize, usize, usize, usize),
    qlocs: (usize, usize, usize, usize),
)
    requires
        s.wf(),
        0 <= ti < s.templates.len(),
        0 <= ii < s.instances.len(),
        s.instances[ii].template == s.templates[ti],
    ensures
        ({
            let t = s.templates[ti];
            let i = s.instances[ii];
            let del = Ast::Statement {
                variant: Box::new(Ast::Token(Token::Delete, locs.0)),
                context: Box::new(Ast::Literal(t.name, locs.1)),
                child: Some(
                    Box::new(
                        Ast::Statement {
                            variant: Box::new(Ast::Token(Token::From, locs.2)),
                            context: Box::new(Ast::Token(Token::Template, locs.3)),
                            child: None,
                        },
                    ),
                ),
            };
            let query = Ast::Statement {
                variant: Box::new(Ast::Token(Token::Query, qlocs.0)),
                context: Box::new(Ast::Literal(i.name, qlocs.1)),
                child: Some(
                    Box::new(
                        Ast::Statement {
                            variant: Box::new(Ast::Token(Token::From, qlocs.2)),
                            context: Box::new(Ast::Token(Token::Instance, qlocs.3)),
                            child: None,
                        },
                    ),
                ),
            };
            match branch_model(s, del) {
                Ok((s2, recs)) => {
                    &&& recs == seq![Record::Template(t)]
                    &&& first_index(template_names(s2.templates), t.name) == -1
                    &&& first_index(instance_names(s2.instances), i.name) == -1
                    &&& branch_model(s2, query) == Err::<(StoreModel, Seq<Record>), ErrorModel>(
                        ErrorModel::InstanceNonExistent(i.name, qlocs.3),
                    )
                },
                Err(_) => false,
            }
        }),
{
    let t = s.templates[ti];
    let i = s.instances[ii];
    let tnames = template_names(s.templates);
    let inames = instance_names(s.instances);
    assert(tnames[ti] == t.name);
    lemma_index_of_unique(tnames, ti);
    let keep = |x: InstanceModel| x.template != t;
    let kept = s.instances.filter(keep);
    let t2 = s.templates.remove(ti);
    let tn2 = template_names(t2);
    let in2 = instance_names(kept);
    lemma_first_index(tn2, t.name);
    lemma_first_index(in2, i.name);
    assert forall|j: int| 0 <= j < tn2.len() implies tn2[j] != t.name by {
        if j < ti {
            assert(tn2[j] == tnames[j]);
        } else {
            assert(tn2[j] == tnames[j + 1]);
        }
    }
    assert forall|j: int| 0 <= j < in2.len() implies in2[j] != i.name by {
        let x = kept[j];
        assert(kept.contains(x));
        s.instances.lemma_filter_contains_rev(keep, x);
        let m = choose|m: int| 0 <= m < s.instances.len() && s.instances[m] == x;
        s.instances.lemma_filter_pred(keep, j);
        assert(inames[m] == x.name);
        assert(inames[ii] == i.name);
        if x.name == i.name {
            assert(m != ii);
        }
    }
}

/// Type enforcement: inside a SELECT block, assigning a string to a field
/// that holds an integer fails with a type mismatch at the value, and the
/// store, the field's value included, is left as it was.
pub proof fn lemma_select_type_mismatch(
    s: StoreModel,
    ii: int,
    field: Seq<char>,
    n: i64,
    text: Seq<char>,
    locs: (usize, usize, usize, usize, usize, usize),
)
    requires
        s.wf(),
        0 <= ii < s.instances.len(),
        lookup(s.instances[ii].data, field) == Some(Value::Int(n)),
    ensures
        ({
            let block = Ast::Shell {
                outside: Box::new(
                    Ast::Statement {
                        variant: Box::new(Ast::Token(Token::Select, locs.0)),
                        context: Box::new(Ast::Literal(s.instances[ii].name, locs.1)),
                        child: None,
                    },
                ),
                inside: seq![
                    Ast::Statement {
                        variant: Box::new(Ast::Token(Token::SetField, locs.2)),
                        context: Box::new(Ast::Literal(field, locs.3)),
                        child: Some(
                            Box::new(
                                Ast::Statement {
                                    variant: Box::new(Ast::Token(Token::Value, locs.4)),
                                    context: Box::new(Ast::Literal(text, locs.5)),
                                    child: None,
                                },
                            ),
                        ),
                    },
                ],
            };
            exec_model(s, seq![block]) == (s, Err::<Seq<Record>, ErrorModel>(
                ErrorModel::TypeMismatch(locs.5),
            ))
        }),
{
    let inames = instance_names(s.instances);
    assert(inames[ii] == s.instances[ii].name);
    lemma_index_of_unique(inames, ii);
    let block = Ast::Shell {
        outside: Box::new(
            Ast::Statement {
                variant: Box::new(Ast::Token(Token::Select, locs.0)),
                context: Box::new(Ast::Literal(s.instances[ii].name, locs.1)),
                child: None,
            },
        ),
        inside: seq![
            Ast::Statement {
                variant: Box::new(Ast::Token(Token::SetField, locs.2)),
                context: Box::new(Ast::Literal(field, locs.3)),
                child: Some(
                    Box::new(
                        Ast::Statement {
                            variant: Box::new(Ast::Token(Token::Value, locs.4)),
                            context: Box::new(Ast::Literal(text, locs.5)),
                            child: None,
                        },
                    ),
                ),
            },
        ],
    };
    let ins = block->inside;
    let inst = s.instances[ii];
    assert(ins.drop_last() =~= Seq::<Ast>::empty());
    assert(crate::query::apply_sets(inst, ins.drop_last()) == Ok::<InstanceModel, ErrorModel>(inst));
    assert(crate::query::select_prop_model(ins.last()) == Ok::<(Seq<char>, Value, usize), ErrorModel>(
        (field, Value::Str(text), locs.5),
    ));
    assert(crate::data::overwrite_model(inst, field, Value::Str(text), locs.5) == Err::<InstanceModel, ErrorModel>(
        ErrorModel::TypeMismatch(locs.5),
    ));
    assert(crate::query::apply_sets(inst, ins) == Err::<InstanceModel, ErrorModel>(
        ErrorModel::TypeMismatch(locs.5),
    ));
    assert(branch_model(s, block) == Err::<(StoreModel, Seq<Record>), ErrorModel>(
        ErrorModel::TypeMismatch(locs.5),
    ));
    assert(seq![block].drop_last() =~= Seq::<Ast>::empty());
    assert(seq![block].last() == block);
    assert(exec_model(s, Seq::<Ast>::empty()) == (s, Ok::<Seq<Record>, ErrorModel>(Seq::empty())));
}

/// No statement that opens or closes a block ever sits inside a block, in
/// the finished branches or in the block still open.
pub open spec fn blocks_hold_no_openers(ast: Seq<Ast>, open: Option<(Ast, Seq<Ast>)>) -> bool {
    &&& forall|i: int, j: int|
        0 <= i < ast.len() && ast[i] is Shell && 0 <= j < ast[i]->Shell_inside.len() ==> !opens_block(
            #[trigger] ast[i]->Shell_inside[j],
        )
    &&& match open {
        Some((_, inside)) => forall|j: int| 0 <= j < inside.len() ==> !opens_block(#[trigger] inside[j]),
        None => true,
    }
}

/// Block boundary: whatever the lines, the line that closes a block (an END
/// line, or the next SELECT or TEMPLATE line) is never kept inside a block.
pub proof fn lemma_closing_line_not_inside(lines: Seq<Seq<Lexeme>>)
    ensures
        match assemble(lines) {
            Ok((ast, open)) => blocks_hold_no_openers(ast, open),
            Err(_) => true,
        },
    decreases lines.len(),
{
    if lines.len() > 0 {
        lemma_closing_line_not_inside(lines.drop_last());
        match assemble(lines.drop_last()) {
            Ok((ast, open)) => match line_model(lines.last()) {
                Ok(n) => {
                    let (ast2, open2) = assemble_step(ast, open, n);
                    match open {
                        Some((o, inside)) => {
                            if opens_block(n) {
                                let sh = Ast::Shell { outside: Box::new(o), inside };
                                assert forall|i: int, j: int|
                                    0 <= i < ast2.len() && ast2[i] is Shell && 0 <= j
                                        < ast2[i]->Shell_inside.len() implies !opens_block(
                                    #[trigger] ast2[i]->Shell_inside[j],
                                ) by {
                                    if i < ast.len() {
                                        assert(ast2[i] == ast[i]);
                                    } else {
                                        assert(ast2[i] == sh);
                                    }
                                }
                            } else {
                                let ins2 = inside.push(n);
                                assert forall|j: int| 0 <= j < ins2.len() implies !opens_block(#[trigger] ins2[j]) by {
                                    if j < inside.len() {
                                        assert(ins2[j] == inside[j]);
                                    }
                                }
                            }
                        },
                        None => {
                            if !opens_block(n) {
                                assert forall|i: int, j: int|
                                    0 <= i < ast2.len() && ast2[i] is Shell && 0 <= j
                                        < ast2[i]->Shell_inside.len() implies !opens_block(
                                    #[trigger] ast2[i]->Shell_inside[j],
                                ) by {
                                    if i < ast.len() {
                                        assert(ast2[i] == ast[i]);
                                    } else {
                                        assert(ast2[i] == n);
                                    }
                                }
                            }
                        },
                    }
                },
                Err(_) => {},
            },
            Err(_) => {},
        }
    }
}

/// Block boundary, on the block `TEMPLATE x; <TYPE> f; END x;`: the three
/// lines make exactly one block, with the field declaration as its only
/// inner statement and no block left open.
pub proof fn lemma_template_block(a: Lexeme, b: Lexeme, c: Lexeme, d: Lexeme, e: Lexeme, g: Lexeme)
    requires
        a.token == Token::Template,
        b.token == Token::Literal,
        c.token == Token::StringType || c.token == Token::IntegerType || c.token == Token::FloatType,
        d.token == Token::Literal,
        e.token == Token::End,
        g.token == Token::Literal,
    ensures
        assemble(seq![seq![a, b], seq![c, d], seq![e, g]]) == Ok::<
            (Seq<Ast>, Option<(Ast, Seq<Ast>)>),
            crate::error::PangError,
        >(
            (
                seq![
                    Ast::Shell {
                        outside: Box::new(
                            Ast::Statement {
                                variant: Box::new(Ast::Token(Token::Template, a.start)),
                                context: Box::new(Ast::Literal(b.value, b.start)),
                                child: None,
                            },
                        ),
                        inside: seq![
                            Ast::Statement {
                                variant: Box::new(Ast::Token(c.token, c.start)),
                                context: Box::new(Ast::Literal(d.value, d.start)),
                                child: None,
                            },
                        ],
                    },
                ],
                None,
            ),
        ),
{
    let lines = seq![seq![a, b], seq![c, d], seq![e, g]];
    let l2 = lines.drop_last();
    let l1 = l2.drop_last();
    assert(l1.drop_last() =~= Seq::<Seq<Lexeme>>::empty());
    assert(l1.last() =~= seq![a, b]);
    assert(l2.last() =~= seq![c, d]);
    assert(lines.last() =~= seq![e, g]);
    let inner = Ast::Statement {
        variant: Box::new(Ast::Token(c.token, c.start)),
        context: Box::new(Ast::Literal(d.value, d.start)),
        child: None,
    };
    let outside = Ast::Statement {
        variant: Box::new(Ast::Token(Token::Template, a.start)),
        context: Box::new(Ast::Literal(b.value, b.start)),
        child: None,
    };
    assert(line_model(seq![a, b]) == Ok::<Ast, crate::error::PangError>(outside));
    assert(line_model(seq![c, d]) == Ok::<Ast, crate::error::PangError>(inner));
    assert(!opens_block(inner));
    assert(opens_block(line_model(seq![e, g])->Ok_0));
    assert(assemble(l1.drop_last()) == Ok::<(Seq<Ast>, Option<(Ast, Seq<Ast>)>), crate::error::PangError>(
        (Seq::empty(), None),
    ));
    assert(assemble(l1) == Ok::<(Seq<Ast>, Option<(Ast, Seq<Ast>)>), crate::error::PangError>(
        (Seq::empty(), Some((outside, Seq::empty()))),
    ));
    assert(Seq::<Ast>::empty().push(inner) =~= seq![inner]);
    assert(assemble(l2) == Ok::<(Seq<Ast>, Option<(Ast, Seq<Ast>)>), crate::error::PangError>(
        (Seq::empty(), Some((outside, seq![inner]))),
    ));
    let sh = Ast::Shell { outside: Box::new(outside), inside: seq![inner] };
    assert(Seq::<Ast>::empty().push(sh) =~= seq![sh]);
}

/// The text `"body";`.
pub open spec fn quoted_line(body: Seq<char>) -> Seq<char> {
    seq!['"'] + body + seq!['"', ';']
}

/// The body of a literal, read from `i`: a backslash escapes the next
/// character (which is not a newline), and no quote stands unescaped.
pub open spec fn body_from(body: Seq<char>, i: int) -> bool
    decreases body.len() - i,
{
    if i < 0 || i >= body.len() {
        i == body.len()
    } else if body[i] == '"' {
        false
    } else if body[i] == '\\' {
        i + 1 < body.len() && body[i + 1] != '\n' && body_from(body, i + 2)
    } else {
        body_from(body, i + 1)
    }
}

/// A valid literal body.
pub open spec fn literal_body(body: Seq<char>) -> bool {
    body_from(body, 0)
}

proof fn lemma_literal_closes(body: Seq<char>, j: int)
    requires
        body_from(body, j),
        0 <= j <= body.len(),
    ensures
        literal_end(quoted_line(body), j + 1) == body.len() as int + 2,
    decreases body.len() - j,
{
    let c = quoted_line(body);
    if j < body.len() {
        assert(c[j + 1] == body[j]);
        if body[j] == '\\' {
            assert(c[j + 2] == body[j + 1]);
            lemma_literal_closes(body, j + 2);
        } else {
            lemma_literal_closes(body, j + 1);
        }
    } else {
        assert(c[j + 1] == '"');
    }
}

/// A match of a number or keyword pattern starts at neither a quote nor
/// the terminator.
proof fn lemma_match_start(t: Token, c: Seq<char>, p: int)
    requires
        t != Token::Literal,
        t != Token::ENDL,
        0 <= p < c.len(),
        p < match_end(t, c, p),
    ensures
        c[p] != '"',
        c[p] != ';',
{
    match t {
        Token::Float => {
            assert(is_digit(c[p]));
        },
        Token::Integer => {
            assert(is_digit(c[p]));
        },
        _ => {
            let w = keyword(t);
            assert(c.subrange(p, p + w.len())[0] == c[p]);
            assert(w[0] != '"' && w[0] != ';');
        },
    }
}

proof fn lemma_single_filter(x: (int, int), pred: spec_fn((int, int)) -> bool)
    ensures
        seq![x].filter(pred) == (if pred(x) { seq![x] } else { Seq::empty() }),
{
    reveal(Seq::filter);
    assert(seq![x].drop_last() =~= Seq::<(int, int)>::empty());
    assert(Seq::<(int, int)>::empty().filter(pred) =~= Seq::<(int, int)>::empty());
    assert(Seq::<(int, int)>::empty().push(x) =~= seq![x]);
}

/// Numbers and keywords find nothing free in `"body";` once the body is
/// claimed.
proof fn lemma_nothing_free(body: Seq<char>, t: Token, cl: Seq<bool>, p: int)
    requires
        t != Token::Literal,
        t != Token::ENDL,
        cl.len() == body.len() as int + 3,
        forall|i: int| 1 <= i <= body.len() ==> cl[i],
        0 <= p,
    ensures
        unclaimed(cl, scan(t, quoted_line(body), p)) == Seq::<(int, int)>::empty(),
    decreases quoted_line(body).len() - p,
{
    let c = quoted_line(body);
    let pred = |sp: (int, int)| free(cl, sp.0, sp.1);
    if p < c.len() {
        let e = match_end(t, c, p);
        if p < e <= c.len() {
            lemma_match_start(t, c, p);
            assert(c[0] == '"' && c[body.len() as int + 1] == '"' && c[body.len() as int + 2] == ';');
            assert(cl[p]);
            assert(!pred((p, e)));
            lemma_nothing_free(body, t, cl, e);
            Seq::filter_distributes_over_add(seq![(p, e)], scan(t, c, e), pred);
            lemma_single_filter((p, e), pred);
            assert(Seq::<(int, int)>::empty() + Seq::<(int, int)>::empty() =~= Seq::<(int, int)>::empty());
        } else {
            lemma_nothing_free(body, t, cl, p + 1);
        }
    }
}

/// The terminator after the closing quote is the only one left free.
proof fn lemma_terminator_free(body: Seq<char>, cl: Seq<bool>, p: int)
    requires
        cl.len() == body.len() as int + 3,
        forall|i: int| 0 <= i < cl.len() ==> cl[i] == (i < body.len() as int + 2),
        0 <= p <= body.len() as int + 2,
    ensures
        unclaimed(cl, scan(Token::ENDL, quoted_line(body), p)) == seq![
            (body.len() as int + 2, body.len() as int + 3),
        ],
    decreases body.len() as int + 2 - p,
{
    let c = quoted_line(body);
    let pred = |sp: (int, int)| free(cl, sp.0, sp.1);
    let e = match_end(Token::ENDL, c, p);
    let last = body.len() as int + 2;
    if p == last {
        assert(c.subrange(p, p + 1) =~= seq![';']);
        assert(e == p + 1);
        assert(scan(Token::ENDL, c, p + 1) == Seq::<(int, int)>::empty());
        assert(pred((p, p + 1)));
        Seq::filter_distributes_over_add(seq![(p, p + 1)], Seq::<(int, int)>::empty(), pred);
        lemma_single_filter((p, p + 1), pred);
        assert(seq![(p, p + 1)] + Seq::<(int, int)>::empty() =~= seq![(p, p + 1)]);
        assert(Seq::<(int, int)>::empty().filter(pred) =~= Seq::<(int, int)>::empty()) by {
            reveal(Seq::filter);
        }
        assert(seq![(p, p + 1)] + Seq::<(int, int)>::empty() =~= seq![(p, p + 1)]);
    } else {
        lemma_terminator_free(body, cl, p + 1);
        if p < e <= c.len() {
            assert(c.subrange(p, p + 1) == seq![';']);
            assert(e == p + 1);
            assert(cl[p]);
            assert(!pred((p, e)));
            Seq::filter_distributes_over_add(seq![(p, e)], scan(Token::ENDL, c, e), pred);
            lemma_single_filter((p, e), pred);
            assert(Seq::<(int, int)>::empty() + seq![(last, last + 1)] =~= seq![(last, last + 1)]);
        }
    }
}

proof fn lemma_patterns_after_terminator(body: Seq<char>, k: nat)
    requires
        literal_body(body),
        4 <= k <= PATTERNS,
    ensures
        ({
            let c = quoted_line(body);
            let n = body.len() as int + 3;
            let l = body.len() as int + 2;
            lex_state(c, k) == (
                Seq::new(n as nat, |i: int| true),
                Seq::new(n as nat, |i: int| None::<(Token, int)>).update(0, Some((Token::Literal, l))).update(
                    l,
                    Some((Token::ENDL, n)),
                ),
            )
        }),
    decreases k,
{
    let c = quoted_line(body);
    let n = body.len() as int + 3;
    let l = body.len() as int + 2;
    if k == 4 {
        lemma_patterns_before_terminator(body, 3);
        let cl1 = Seq::new(n as nat, |i: int| i < l);
        lemma_terminator_free(body, cl1, 0);
        let kept = seq![(l, n)];
        assert(kept.drop_last() =~= Seq::<(int, int)>::empty());
        assert(claim(cl1, kept.drop_last()) == cl1);
        assert(claim(cl1, kept) =~= Seq::new(n as nat, |i: int| true));
        assert(place(lex_state(c, 3).1, kept.drop_last(), Token::ENDL) == lex_state(c, 3).1);
    } else {
        lemma_patterns_after_terminator(body, (k - 1) as nat);
        let cl2 = Seq::new(n as nat, |i: int| true);
        let t = pattern(k - 1);
        assert(t != Token::Literal && t != Token::ENDL);
        lemma_nothing_free(body, t, cl2, 0);
        let sl2 = lex_state(c, (k - 1) as nat).1;
        assert(claim(cl2, Seq::<(int, int)>::empty()) == cl2);
        assert(place(sl2, Seq::<(int, int)>::empty(), t) == sl2);
    }
}

proof fn lemma_patterns_before_terminator(body: Seq<char>, k: nat)
    requires
        literal_body(body),
        1 <= k <= 3,
    ensures
        ({
            let c = quoted_line(body);
            let n = body.len() as int + 3;
            let l = body.len() as int + 2;
            lex_state(c, k) == (
                Seq::new(n as nat, |i: int| i < l),
                Seq::new(n as nat, |i: int| None::<(Token, int)>).update(0, Some((Token::Literal, l))),
            )
        }),
    decreases k,
{
    let c = quoted_line(body);
    let n = body.len() as int + 3;
    let l = body.len() as int + 2;
    if k == 1 {
        lemma_literal_closes(body, 0);
        assert(match_end(Token::Literal, c, 0) == l);
        assert(match_end(Token::Literal, c, l) == -1);
        assert(scan(Token::Literal, c, l + 1) == Seq::<(int, int)>::empty());
        assert(scan(Token::Literal, c, l) == Seq::<(int, int)>::empty());
        assert(seq![(0int, l)] + Seq::<(int, int)>::empty() =~= seq![(0int, l)]);
        let cl0 = Seq::new(n as nat, |i: int| false);
        let pred = |sp: (int, int)| free(cl0, sp.0, sp.1);
        lemma_single_filter((0, l), pred);
        let kept = seq![(0int, l)];
        assert(kept.drop_last() =~= Seq::<(int, int)>::empty());
        assert(claim(cl0, kept.drop_last()) == cl0);
        assert(claim(cl0, kept) =~= Seq::new(n as nat, |i: int| i < l));
        assert(pred((0, l)));
        assert(unclaimed(cl0, scan(Token::Literal, c, 0)) == kept);
        let sl0 = Seq::new(n as nat, |i: int| None::<(Token, int)>);
        assert(place(sl0, kept.drop_last(), Token::Literal) == sl0);
        assert(lex_state(c, 0) == (cl0, sl0));
        assert(pattern(0) == Token::Literal);
    } else {
        lemma_patterns_before_terminator(body, (k - 1) as nat);
        let cl1 = Seq::new(n as nat, |i: int| i < l);
        let t = pattern(k - 1);
        assert(t != Token::Literal && t != Token::ENDL);
        lemma_nothing_free(body, t, cl1, 0);
        let sl1 = lex_state(c, (k - 1) as nat).1;
        assert(claim(cl1, Seq::<(int, int)>::empty()) == cl1);
        assert(place(sl1, Seq::<(int, int)>::empty(), t) == sl1);
    }
}

proof fn lemma_round_trip_tokens(body: Seq<char>, slots: Seq<Option<(Token, int)>>, p: int)
    requires
        slots == Seq::new((body.len() as int + 3) as nat, |i: int| None::<(Token, int)>).update(
            0,
            Some((Token::Literal, body.len() as int + 2)),
        ).update(body.len() as int + 2, Some((Token::ENDL, body.len() as int + 3))),
        1 <= p <= body.len() as int + 2,
    ensures
        tokens_upto(quoted_line(body), slots, p) == seq![
            lexeme_at(quoted_line(body), Token::Literal, 0, body.len() as int + 2),
        ],
    decreases p,
{
    if p > 1 {
        lemma_round_trip_tokens(body, slots, p - 1);
    } else {
        assert(tokens_upto(quoted_line(body), slots, 0) == Seq::<Lexeme>::empty());
        assert(Seq::<Lexeme>::empty().push(
            lexeme_at(quoted_line(body), Token::Literal, 0, body.len() as int + 2),
        ) =~= seq![lexeme_at(quoted_line(body), Token::Literal, 0, body.len() as int + 2)]);
    }
}

/// Round trip of a literal: lexing `"body";`, for every valid literal body,
/// gives one line holding one literal token whose value is the body again
/// (escapes kept as written), spanning both quotes.
pub proof fn lemma_literal_round_trip(body: Seq<char>)
    requires
        literal_body(body),
    ensures
        lex(quoted_line(body)) == seq![
            seq![
                Lexeme {
                    token: Token::Literal,
                    value: body,
                    start: 0,
                    end: (body.len() as int + 2) as usize,
                    priority: 1,
                },
            ],
        ],
{
    let c = quoted_line(body);
    let n = body.len() as int + 3;
    let l = body.len() as int + 2;
    lemma_patterns_after_terminator(body, PATTERNS as nat);
    let slots = lex_state(c, PATTERNS as nat).1;
    lemma_round_trip_tokens(body, slots, l);
    let lit = lexeme_at(c, Token::Literal, 0, l);
    let endl = lexeme_at(c, Token::ENDL, l, n);
    assert(tokens_upto(c, slots, n) == seq![lit].push(endl));
    let ts = seq![lit, endl];
    assert(seq![lit].push(endl) =~= ts);
    assert(ts.drop_last() =~= seq![lit]);
    assert(seq![lit].drop_last() =~= Seq::<Lexeme>::empty());
    assert(split_lines(Seq::<Lexeme>::empty()) == seq![Seq::<Lexeme>::empty()]);
    assert(split_lines(seq![lit]) =~= seq![seq![lit]]);
    assert(split_lines(ts) =~= seq![seq![lit], Seq::<Lexeme>::empty()]);
    assert(c.subrange(1, l - 1) =~= body);
    assert(seq![seq![lit], Seq::<Lexeme>::empty()].drop_last() =~= seq![seq![lit]]);
}

proof fn lemma_remove_unique<A>(names: Seq<A>, k: int)
    requires
        no_repeats(names),
        0 <= k < names.len(),
    ensures
        no_repeats(names.remove(k)),
{
    let r = names.remove(k);
    assert forall|i: int, j: int| 0 <= i < r.len() && 0 <= j < r.len() && i != j implies r[i] != r[j] by {
        let a = if i < k { i } else { i + 1 };
        let b = if j < k { j } else { j + 1 };
        assert(r[i] == names[a] && r[j] == names[b]);
    }
}

proof fn lemma_filter_unique(is: Seq<InstanceModel>, p: spec_fn(InstanceModel) -> bool)
    requires
        no_repeats(instance_names(is)),
    ensures
        no_repeats(instance_names(is.filter(p))),
    decreases is.len(),
{
    reveal(Seq::filter);
    if is.len() > 0 {
        let init = is.drop_last();
        assert(instance_names(init) =~= instance_names(is).drop_last());
        assert(no_repeats(instance_names(init))) by {
            let names = instance_names(is);
            let ni = instance_names(init);
            assert forall|i: int, j: int| 0 <= i < ni.len() && 0 <= j < ni.len() && i != j implies ni[i] != ni[j] by {
                assert(ni[i] == names[i] && ni[j] == names[j]);
            }
        }
        lemma_filter_unique(init, p);
        if p(is.last()) {
            let f = init.filter(p);
            let nf = instance_names(f);
            let out = instance_names(f.push(is.last()));
            assert forall|i: int, j: int| 0 <= i < out.len() && 0 <= j < out.len() && i != j implies out[i] != out[j] by {
                if i < nf.len() && j < nf.len() {
                    assert(out[i] == nf[i] && out[j] == nf[j]);
                } else {
                    let m = if i < nf.len() { i } else { j };
                    assert(f.contains(f[m]));
                    init.lemma_filter_contains_rev(p, f[m]);
                    let q = choose|q: int| 0 <= q < init.len() && init[q] == f[m];
                    assert(instance_names(is)[q] == init[q].name);
                    assert(instance_names(is)[is.len() - 1] == is.last().name);
                }
            }
        }
    }
}

proof fn lemma_apply_sets_keeps_name(i: InstanceModel, ps: Seq<Ast>)
    ensures
        apply_sets(i, ps) is Ok ==> apply_sets(i, ps)->Ok_0.name == i.name,
    decreases ps.len(),
{
    if ps.len() > 0 {
        lemma_apply_sets_keeps_name(i, ps.drop_last());
    }
}

/// The store operations that succeed keep names unique.
proof fn lemma_operations_keep_names_unique(s: StoreModel)
    requires
        s.wf(),
    ensures
        forall|t: TemplateModel, l: usize| #[trigger] push_template_model(s, t, l) is Ok
            ==> push_template_model(s, t, l)->Ok_0.wf(),
        forall|i: InstanceModel, l: usize| #[trigger] push_instance_model(s, i, l) is Ok
            ==> push_instance_model(s, i, l)->Ok_0.wf(),
        forall|n: Seq<char>, l: usize| #[trigger] remove_instance_model(s, n, l) is Ok
            ==> remove_instance_model(s, n, l)->Ok_0.0.wf(),
        forall|n: Seq<char>, l: usize| #[trigger] remove_template_model(s, n, l) is Ok
            ==> remove_template_model(s, n, l)->Ok_0.0.wf(),
        forall|n: Seq<char>, ps: Seq<Ast>, l: usize| #[trigger] select_shell_model(s, n, ps, l) is Ok
            ==> select_shell_model(s, n, ps, l)->Ok_0.wf(),
{
    let tn = template_names(s.templates);
    let inn = instance_names(s.instances);
    assert forall|t: TemplateModel, l: usize| #[trigger] push_template_model(s, t, l) is Ok
        implies push_template_model(s, t, l)->Ok_0.wf() by {
        assert(template_names(s.templates.push(t)) =~= tn.push(t.name));
        lemma_push_unique(tn, t.name);
    }
    assert forall|i: InstanceModel, l: usize| #[trigger] push_instance_model(s, i, l) is Ok
        implies push_instance_model(s, i, l)->Ok_0.wf() by {
        assert(instance_names(s.instances.push(i)) =~= inn.push(i.name));
        lemma_push_unique(inn, i.name);
    }
    assert forall|n: Seq<char>, l: usize| #[trigger] remove_instance_model(s, n, l) is Ok
        implies remove_instance_model(s, n, l)->Ok_0.0.wf() by {
        let k = first_index(inn, n);
        lemma_first_index(inn, n);
        assert(instance_names(s.instances.remove(k)) =~= inn.remove(k));
        lemma_remove_unique(inn, k);
    }
    assert forall|n: Seq<char>, l: usize| #[trigger] remove_template_model(s, n, l) is Ok
        implies remove_template_model(s, n, l)->Ok_0.0.wf() by {
        let k = first_index(tn, n);
        lemma_first_index(tn, n);
        let t = s.templates[k];
        assert(template_names(s.templates.remove(k)) =~= tn.remove(k));
        lemma_remove_unique(tn, k);
        lemma_filter_unique(s.instances, |x: InstanceModel| x.template != t);
    }
    assert forall|n: Seq<char>, ps: Seq<Ast>, l: usize| #[trigger] select_shell_model(s, n, ps, l) is Ok
        implies select_shell_model(s, n, ps, l)->Ok_0.wf() by {
        let k = first_index(inn, n);
        lemma_first_index(inn, n);
        let prior = s.instances[k];
        lemma_apply_sets_keeps_name(prior, ps);
        let upd = apply_sets(prior, ps)->Ok_0;
        let rest = s.instances.remove(k);
        assert(instance_names(rest) =~= inn.remove(k));
        lemma_remove_unique(inn, k);
        assert(instance_names(rest.push(upd)) =~= inn.remove(k).push(n));
        assert forall|j: int| 0 <= j < inn.remove(k).len() implies inn.remove(k)[j] != n by {
            let m = if j < k { j } else { j + 1 };
            assert(inn.remove(k)[j] == inn[m]);
        }
        lemma_first_index(inn.remove(k), n);
        lemma_push_unique(inn.remove(k), n);
    }
}

/// Unique names: every statement that succeeds on a store whose template
/// names and instance names are unique leaves them unique.
pub proof fn lemma_branch_keeps_names_unique(s: StoreModel, b: Ast)
    requires
        s.wf(),
        branch_model(s, b) is Ok,
    ensures
        branch_model(s, b)->Ok_0.0.wf(),
{
    lemma_operations_keep_names_unique(s);
}

/// Unique names over a run: whatever the statements, and whether or not one
/// fails, the store they leave has unique names if the store they started
/// from had.
pub proof fn lemma_exec_keeps_names_unique(s: StoreModel, ast: Seq<Ast>)
    requires
        s.wf(),
    ensures
        exec_model(s, ast).0.wf(),
    decreases ast.len(),
{
    if ast.len() > 0 {
        lemma_exec_keeps_names_unique(s, ast.drop_last());
        let s1 = exec_model(s, ast.drop_last()).0;
        if branch_model(s1, ast.last()) is Ok {
            lemma_branch_keeps_names_unique(s1, ast.last());
        }
    }
}

/// Statement `n` fills rule `r` slot by slot: two tokens for a two-slot
/// rule, or two tokens and a child of two more for a four-slot rule.
pub open spec fn fills(n: Ast, r: RuleModel) -> bool {
    match n {
        Ast::Statement { variant, context, child } => match child {
            None => r.slots.len() == 2 && r.slots[0].contains(token_of(*variant)) && r.slots[1].contains(
                token_of(*context),
            ),
            Some(ch) => match *ch {
                Ast::Statement { variant: v2, context: c2, child: None } => r.slots.len() == 4
                    && r.slots[0].contains(token_of(*variant)) && r.slots[1].contains(token_of(*context))
                    && r.slots[2].contains(token_of(*v2)) && r.slots[3].contains(token_of(*c2)),
                _ => false,
            },
        },
        _ => false,
    }
}

/// A branch that the grammar describes: a statement that fills one of its
/// rules, or a block whose opening clause fills an expandable rule and whose
/// inner clauses each fill an inner rule.
pub open spec fn well_formed_branch(n: Ast) -> bool {
    match n {
        Ast::Shell { outside, inside } => {
            &&& exists|r: int|
                0 <= r < grammar().len() && grammar()[r].kind == RuleKind::Expandable && fills(
                    *outside,
                    grammar()[r],
                )
            &&& forall|k: int|
                0 <= k < inside.len() ==> exists|r: int|
                    0 <= r < grammar().len() && grammar()[r].kind == RuleKind::Inner && fills(
                        #[trigger] inside[k],
                        grammar()[r],
                    )
        },
        _ => exists|r: int| 0 <= r < grammar().len() && fills(n, grammar()[r]),
    }
}

proof fn lemma_pair_checks(a: Ast, b: Ast, t: Seq<RuleModel>, alive: Set<int>, ri: int, d: int)
    requires
        alive.contains(ri),
        0 <= ri < t.len(),
        0 <= d,
        t[ri].kind != RuleKind::Bare,
        t[ri].slots.len() == d + 2,
        t[ri].slots[d].contains(token_of(a)),
        t[ri].slots[d + 1].contains(token_of(b)),
    ensures
        check_node(
            Ast::Statement { variant: Box::new(a), context: Box::new(b), child: None },
            t,
            alive,
            d,
        ) == Ok::<(), crate::error::PangError>(()),
{
    let s1 = narrowed(t, alive, d, token_of(a));
    let s2 = narrowed(t, s1, d + 1, token_of(b));
    assert(s1.contains(ri));
    assert(s2.contains(ri));
}

proof fn lemma_statement_checks(n: Ast, t: Seq<RuleModel>, alive: Set<int>, ri: int)
    requires
        alive.contains(ri),
        0 <= ri < t.len(),
        t[ri].kind != RuleKind::Bare,
        fills(n, t[ri]),
    ensures
        check_node(n, t, alive, 0) == Ok::<(), crate::error::PangError>(()),
{
    match n {
        Ast::Statement { variant, context, child } => match child {
            None => {
                lemma_pair_checks(*variant, *context, t, alive, ri, 0);
                assert(n == Ast::Statement { variant: Box::new(*variant), context: Box::new(*context), child: None });
            },
            Some(ch) => {
                let s1 = narrowed(t, alive, 0, token_of(*variant));
                let s2 = narrowed(t, s1, 1, token_of(*context));
                assert(s1.contains(ri));
                assert(s2.contains(ri));
                let s3 = longer_than(t, s2, 2);
                assert(s3.contains(ri));
                match *ch {
                    Ast::Statement { variant: v2, context: c2, child: None } => {
                        lemma_pair_checks(*v2, *c2, t, s3, ri, 2);
                        assert(*ch == Ast::Statement { variant: Box::new(*v2), context: Box::new(*c2), child: None });
                    },
                    _ => {},
                }
            },
        },
        _ => {},
    }
}

proof fn lemma_rules_are_tagged()
    ensures
        forall|r: int| 0 <= r < grammar().len() ==> #[trigger] grammar()[r].kind != RuleKind::Bare,
{
    assert forall|r: int| 0 <= r < grammar().len() implies #[trigger] grammar()[r].kind != RuleKind::Bare by {
        assert(0 <= r < 9);
        if r == 0 {} else if r == 1 {} else if r == 2 {} else if r == 3 {} else if r == 4 {}
        else if r == 5 {} else if r == 6 {} else if r == 7 {} else {}
    }
}

proof fn lemma_inner_clauses_check(ns: Seq<Ast>, alive: Set<int>)
    requires
        alive == of_kind(grammar(), all_rules(grammar().len() as int), RuleKind::Inner),
        forall|k: int|
            0 <= k < ns.len() ==> exists|r: int|
                0 <= r < grammar().len() && grammar()[r].kind == RuleKind::Inner && fills(
                    #[trigger] ns[k],
                    grammar()[r],
                ),
    ensures
        check_nodes(ns, grammar(), alive, 0) == Ok::<(), crate::error::PangError>(()),
    decreases ns.len(),
{
    if ns.len() > 0 {
        let r = choose|r: int|
            0 <= r < grammar().len() && grammar()[r].kind == RuleKind::Inner && fills(ns[0], grammar()[r]);
        assert(alive.contains(r));
        lemma_statement_checks(ns[0], grammar(), alive, r);
        let rest = ns.subrange(1, ns.len() as int);
        assert forall|k: int| 0 <= k < rest.len() implies exists|r: int|
            0 <= r < grammar().len() && grammar()[r].kind == RuleKind::Inner && fills(
                #[trigger] rest[k],
                grammar()[r],
            ) by {
            assert(rest[k] == ns[k + 1]);
        }
        lemma_inner_clauses_check(rest, alive);
    }
}

/// Grammar completeness: a tree whose every branch the grammar describes (a
/// statement filling a rule slot by slot, or a block opened by an expandable
/// rule with inner clauses that fill inner rules) passes the check.
pub proof fn lemma_grammar_complete(ast: Seq<Ast>)
    requires
        forall|k: int| 0 <= k < ast.len() ==> well_formed_branch(#[trigger] ast[k]),
    ensures
        check_tree(ast, grammar()) == Ok::<(), crate::error::PangError>(()),
    decreases ast.len(),
{
    let all = all_rules(grammar().len() as int);
    lemma_rules_are_tagged();
    if ast.len() > 0 {
        let n = ast[0];
        assert(well_formed_branch(n));
        match n {
            Ast::Shell { outside, inside } => {
                let ro = choose|r: int|
                    0 <= r < grammar().len() && grammar()[r].kind == RuleKind::Expandable && fills(
                        *outside,
                        grammar()[r],
                    );
                let outer = of_kind(grammar(), all, RuleKind::Expandable);
                assert(outer.contains(ro));
                lemma_statement_checks(*outside, grammar(), outer, ro);
                lemma_inner_clauses_check(inside, of_kind(grammar(), all, RuleKind::Inner));
                assert(check_node(n, grammar(), all, 0) == Ok::<(), crate::error::PangError>(()));
            },
            _ => {
                let r = choose|r: int| 0 <= r < grammar().len() && fills(n, grammar()[r]);
                assert(all.contains(r));
                lemma_statement_checks(n, grammar(), all, r);
            },
        }
        let rest = ast.subrange(1, ast.len() as int);
        assert forall|k: int| 0 <= k < rest.len() implies well_formed_branch(#[trigger] rest[k]) by {
            assert(rest[k] == ast[k + 1]);
        }
        lemma_grammar_complete(rest);
        assert(check_node(ast[0], grammar(), all, 0) == Ok::<(), crate::error::PangError>(()));
        assert(check_nodes(rest, grammar(), all, 0) == Ok::<(), crate::error::PangError>(()));
    }
}

/// Rule `r` admits the first `j` tokens, each in its slot.
pub open spec fn admits_prefix(r: RuleModel, toks: Seq<Token>, j: int) -> bool {
    forall|m: int| 0 <= m < j ==> fits(r, m, #[trigger] toks[m])
}

/// The four-token statement `a b c e`, as lines of four tokens build it.
pub open spec fn four_tokens(a: Ast, b: Ast, c: Ast, e: Ast) -> Ast {
    Ast::Statement {
        variant: Box::new(a),
        context: Box::new(b),
        child: Some(
            Box::new(Ast::Statement { variant: Box::new(c), context: Box::new(e), child: None }),
        ),
    }
}

/// Rejection at the faulty token: in a four-token statement whose first `j`
/// tokens some rule admits, a token at slot `j` that none of those rules
/// admits there is reported, at its own position.
pub proof fn lemma_rejected_at_faulty_token(a: Ast, b: Ast, c: Ast, e: Ast, j: int)
    requires
        0 <= j < 4,
        exists|r: int|
            0 <= r < grammar().len() && admits_prefix(
                grammar()[r],
                seq![token_of(a), token_of(b), token_of(c), token_of(e)],
                j,
            ),
        forall|r: int|
            0 <= r < grammar().len() && admits_prefix(
                grammar()[r],
                seq![token_of(a), token_of(b), token_of(c), token_of(e)],
                j,
            ) ==> !fits(
                grammar()[r],
                j,
                seq![token_of(a), token_of(b), token_of(c), token_of(e)][j],
            ),
    ensures
        check_node(four_tokens(a, b, c, e), grammar(), all_rules(grammar().len() as int), 0) == Err::<
            (),
            crate::error::PangError,
        >(crate::error::PangError::SyntaxError(position_of(seq![a, b, c, e][j]))),
{
    let g = grammar();
    let toks = seq![token_of(a), token_of(b), token_of(c), token_of(e)];
    let all = all_rules(g.len() as int);
    let s1 = narrowed(g, all, 0, token_of(a));
    let s2 = narrowed(g, s1, 1, token_of(b));
    let s3 = longer_than(g, s2, 2);
    let t1 = narrowed(g, s3, 2, token_of(c));
    let t2 = narrowed(g, t1, 3, token_of(e));
    let w = choose|r: int| 0 <= r < g.len() && admits_prefix(g[r], toks, j);
    assert(toks[0] == token_of(a) && toks[1] == token_of(b) && toks[2] == token_of(c) && toks[3] == token_of(e));
    if j == 0 {
        assert forall|i: int| !s1.contains(i) by {
            if s1.contains(i) {
                assert(admits_prefix(g[i], toks, 0));
            }
        }
    } else if j == 1 {
        assert(fits(g[w], 0, toks[0]));
        assert(s1.contains(w));
        assert forall|i: int| !s2.contains(i) by {
            if s2.contains(i) {
                assert(admits_prefix(g[i], toks, 1));
            }
        }
    } else if j == 2 {
        assert(fits(g[w], 0, toks[0]) && fits(g[w], 1, toks[1]));
        assert(s1.contains(w));
        assert(s2.contains(w));
        assert forall|i: int| !t1.contains(i) by {
            if t1.contains(i) {
                assert(admits_prefix(g[i], toks, 2));
            }
        }
        let child = Ast::Statement { variant: Box::new(c), context: Box::new(e), child: None };
        assert(check_node(child, g, s3, 2) == Err::<(), crate::error::PangError>(
            crate::error::PangError::SyntaxError(position_of(c)),
        ));
    } else {
        assert(fits(g[w], 0, toks[0]) && fits(g[w], 1, toks[1]) && fits(g[w], 2, toks[2]));
        assert(s1.contains(w));
        assert(s2.contains(w));
        assert(s3.contains(w));
        assert(t1.contains(w));
        assert forall|i: int| !t2.contains(i) by {
            if t2.contains(i) {
                assert(admits_prefix(g[i], toks, 3)) by {
                    assert(fits(g[i], 0, toks[0]) && fits(g[i], 1, toks[1]) && fits(g[i], 2, toks[2]));
                }
            }
        }
        let child = Ast::Statement { variant: Box::new(c), context: Box::new(e), child: None };
        assert(check_node(child, g, s3, 2) == Err::<(), crate::error::PangError>(
            crate::error::PangError::SyntaxError(position_of(e)),
        ));
    }
}

} // verus!
