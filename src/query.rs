use vstd::prelude::*;
use crate::ast::{Ast, Node, view_node, view_nodes, view_nodes_plain, lemma_view_nodes, parse, parse_model, lines_view};
use crate::token::TokenMatch;
use crate::data::{
    Data, DataType, Value, type_of, Template, TemplateModel, Instance, InstanceModel, instance_of,
    overwrite_model, put,
};
use crate::error::{PangError, ErrorModel};
use crate::store::{
    Store, StoreModel, push_template, push_instance, remove_instance, remove_template,
    copy_instance, copy_template, copy_templates, copy_instances, push_template_model,
    push_instance_model, remove_instance_model, remove_template_model, copy_instance_model,
    copy_template_model, first_index, instance_names, lemma_first_index,
};
use crate::token::Token;
use vstd::string::*;

verus! {

/// One record returned by a statement.
#[derive(Debug)]
pub enum QueryResult {
    Template(Template),
    Instance(Instance),
}

/// The model of a [`QueryResult`].
pub enum Record {
    Template(TemplateModel),
    Instance(InstanceModel),
}

impl View for QueryResult {
    type V = Record;

    open spec fn view(&self) -> Record {
        match self {
            QueryResult::Template(t) => Record::Template(t@),
            QueryResult::Instance(i) => Record::Instance(i@),
        }
    }
}

pub open spec fn records_of(v: Seq<QueryResult>) -> Seq<Record> {
    v.map_values(|q: QueryResult| q@)
}

pub open spec fn literal_of(a: Ast) -> Option<Seq<char>> {
    match a {
        Ast::Literal(s, _) => Some(s),
        _ => None,
    }
}

/// The value a literal, integer or float node stands for, with its position.
pub open spec fn value_of(a: Ast) -> Option<(Value, usize)> {
    match a {
        Ast::Literal(s, p) => Some((Value::Str(s), p)),
        Ast::Int(i, p) => Some((Value::Int(i), p)),
        Ast::Float(s, p) => Some((Value::Float(s), p)),
        _ => None,
    }
}

/// The type a field declaration keyword declares.
pub open spec fn declared_type(t: Token) -> Option<DataType> {
    match t {
        Token::StringType => Some(DataType::STRING),
        Token::IntegerType => Some(DataType::INTEGER),
        Token::FloatType => Some(DataType::FLOAT),
        _ => None,
    }
}

/// The default of a field declared without a value.
pub open spec fn default_of(t: DataType) -> Value {
    match t {
        DataType::STRING => Value::Str(Seq::empty()),
        DataType::INTEGER => Value::Int(0),
        DataType::FLOAT => Value::Float(seq!['0', '.', '0']),
    }
}

/// A field declaration inside a TEMPLATE block: `<TYPE> name [VALUE v]`; the
/// value must have the declared type.
pub open spec fn template_prop_model(p: Ast) -> Result<(Seq<char>, Value), ErrorModel>
    decreases p,
{
    match p {
        Ast::Statement { variant, context, child } => match *variant {
            Ast::Token(t, loc) => match declared_type(t) {
                None => Err(ErrorModel::SyntaxError(loc)),
                Some(ty) => match literal_of(*context) {
                    None => Err(ErrorModel::ExecutionError),
                    Some(name) => match child {
                        None => Ok((name, default_of(ty))),
                        Some(c) => match *c {
                            Ast::Statement { variant: v2, context: c2, child: ch2 } => match *v2 {
                                Ast::Token(Token::Value, _) => match ch2 {
                                    Some(g) => template_prop_model(*g),
                                    None => match value_of(*c2) {
                                        None => Err(ErrorModel::ExecutionError),
                                        Some((v, vloc)) => if type_of(v) != ty {
                                            Err(ErrorModel::TypeMismatch(vloc))
                                        } else {
                                            Ok((name, v))
                                        },
                                    },
                                },
                                Ast::Token(_, l) => Err(ErrorModel::SyntaxError(l)),
                                _ => Err(ErrorModel::ExecutionError),
                            },
                            _ => Err(ErrorModel::ExecutionError),
                        },
                    },
                },
            },
            _ => Err(ErrorModel::ExecutionError),
        },
        _ => Err(ErrorModel::ExecutionError),
    }
}

/// Where a SET without a value is reported: just past `loc`, the name and
/// three more characters.
pub open spec fn past_name(loc: usize, name: Seq<char>) -> usize {
    if loc + name.len() + 3 <= usize::MAX {
        (loc + name.len() + 3) as usize
    } else {
        usize::MAX
    }
}

/// An assignment inside a SELECT block: `SET name VALUE v`, giving the field,
/// the value and the value's position.
pub open spec fn select_prop_model(p: Ast) -> Result<(Seq<char>, Value, usize), ErrorModel>
    decreases p,
{
    match p {
        Ast::Statement { variant, context, child } => match *variant {
            Ast::Token(Token::SetField, _) => match *context {
                Ast::Literal(name, loc) => match child {
                    None => Err(ErrorModel::SyntaxError(past_name(loc, name))),
                    Some(c) => match *c {
                        Ast::Statement { variant: v2, context: c2, child: ch2 } => match *v2 {
                            Ast::Token(Token::Value, _) => match ch2 {
                                Some(g) => select_prop_model(*g),
                                None => match value_of(*c2) {
                                    None => Err(ErrorModel::ExecutionError),
                                    Some((v, vloc)) => Ok((name, v, vloc)),
                                },
                            },
                            Ast::Token(_, l) => Err(ErrorModel::SyntaxError(l)),
                            _ => Err(ErrorModel::ExecutionError),
                        },
                        _ => Err(ErrorModel::ExecutionError),
                    },
                },
                _ => Err(ErrorModel::ExecutionError),
            },
            Ast::Token(_, l) => Err(ErrorModel::SyntaxError(l)),
            _ => Err(ErrorModel::ExecutionError),
        },
        _ => Err(ErrorModel::ExecutionError),
    }
}

/// The fields of a TEMPLATE block, declared in order; the first bad
/// declaration is the error.
pub open spec fn template_fields(ps: Seq<Ast>) -> Result<Seq<(Seq<char>, Value)>, ErrorModel>
    decreases ps.len(),
{
    if ps.len() == 0 {
        Ok(Seq::empty())
    } else {
        match template_fields(ps.drop_last()) {
            Err(e) => Err(e),
            Ok(fs) => match template_prop_model(ps.last()) {
                Err(e) => Err(e),
                Ok((n, v)) => Ok(put(fs, n, v)),
            },
        }
    }
}

/// The instance after the assignments of a SELECT block, in order; the first
/// bad assignment is the error.
pub open spec fn apply_sets(i: InstanceModel, ps: Seq<Ast>) -> Result<InstanceModel, ErrorModel>
    decreases ps.len(),
{
    if ps.len() == 0 {
        Ok(i)
    } else {
        match apply_sets(i, ps.drop_last()) {
            Err(e) => Err(e),
            Ok(j) => match select_prop_model(ps.last()) {
                Err(e) => Err(e),
                Ok((f, v, vloc)) => overwrite_model(j, f, v, vloc),
            },
        }
    }
}

/// A TEMPLATE block adds a template with the declared fields.
pub open spec fn template_shell_model(s: StoreModel, name: Seq<char>, ps: Seq<Ast>, loc: usize) -> Result<
    StoreModel,
    ErrorModel,
> {
    match template_fields(ps) {
        Err(e) => Err(e),
        Ok(fs) => push_template_model(s, TemplateModel { name, data: fs }, loc),
    }
}

/// A SELECT block applies its assignments to the named instance, which then
/// moves last; on any error the store is left as it was.
pub open spec fn select_shell_model(s: StoreModel, name: Seq<char>, ps: Seq<Ast>, loc: usize) -> Result<
    StoreModel,
    ErrorModel,
> {
    let k = first_index(instance_names(s.instances), name);
    if k < 0 {
        Err(ErrorModel::InstanceNonExistent(name, loc))
    } else {
        match apply_sets(s.instances[k], ps) {
            Err(e) => Err(e),
            Ok(i) => Ok(StoreModel { instances: s.instances.remove(k).push(i), ..s }),
        }
    }
}

/// QUERY: all templates, all instances, or one record named by a literal
/// and looked up by the kind that the child names.
pub open spec fn query_model(s: StoreModel, context: Ast, child: Option<Box<Ast>>) -> Result<
    Seq<Record>,
    ErrorModel,
> {
    match context {
        Ast::Literal(name, _) => match child {
            Some(c) => match *c {
                Ast::Statement { context: c2, .. } => match *c2 {
                    Ast::Token(Token::Template, loc) => match copy_template_model(s, name, loc) {
                        Ok(t) => Ok(seq![Record::Template(t)]),
                        Err(e) => Err(e),
                    },
                    Ast::Token(Token::Instance, loc) => match copy_instance_model(s, name, loc) {
                        Ok(i) => Ok(seq![Record::Instance(i)]),
                        Err(e) => Err(e),
                    },
                    _ => Err(ErrorModel::ExecutionError),
                },
                _ => Err(ErrorModel::ExecutionError),
            },
            None => Err(ErrorModel::ExecutionError),
        },
        Ast::Token(Token::Instance, _) => Ok(s.instances.map_values(|i: InstanceModel| Record::Instance(i))),
        Ast::Token(Token::Template, _) => Ok(s.templates.map_values(|t: TemplateModel| Record::Template(t))),
        _ => Err(ErrorModel::ExecutionError),
    }
}

/// CREATE: a new instance named by the context, made from the template or
/// copied from the instance that the child names.
pub open spec fn create_model(s: StoreModel, context: Ast, child: Option<Box<Ast>>, loc: usize) -> Result<
    StoreModel,
    ErrorModel,
> {
    match literal_of(context) {
        None => Err(ErrorModel::ExecutionError),
        Some(name) => match child {
            Some(c) => match *c {
                Ast::Statement { variant: v2, context: c2, .. } => match literal_of(*c2) {
                    None => Err(ErrorModel::ExecutionError),
                    Some(src) => match *v2 {
                        Ast::Token(Token::Template, _) => match copy_template_model(s, src, loc) {
                            Err(e) => Err(e),
                            Ok(t) => push_instance_model(s, instance_of(name, t), loc),
                        },
                        Ast::Token(Token::Instance, _) => match copy_instance_model(s, src, loc) {
                            Err(e) => Err(e),
                            Ok(o) => push_instance_model(
                                s,
                                InstanceModel { name, template: o.template, data: o.data },
                                loc,
                            ),
                        },
                        _ => Err(ErrorModel::ExecutionError),
                    },
                },
                _ => Err(ErrorModel::ExecutionError),
            },
            None => Err(ErrorModel::ExecutionError),
        },
    }
}

/// DELETE: removes the template or instance named by the context and
/// returns it; a template takes its instances with it.
pub open spec fn delete_model(s: StoreModel, context: Ast, child: Option<Box<Ast>>, loc: usize) -> Result<
    (StoreModel, Seq<Record>),
    ErrorModel,
> {
    match literal_of(context) {
        None => Err(ErrorModel::ExecutionError),
        Some(name) => match child {
            Some(c) => match *c {
                Ast::Statement { context: c2, .. } => match *c2 {
                    Ast::Token(Token::Template, _) => match remove_template_model(s, name, loc) {
                        Err(e) => Err(e),
                        Ok((s2, t)) => Ok((s2, seq![Record::Template(t)])),
                    },
                    Ast::Token(Token::Instance, _) => match remove_instance_model(s, name, loc) {
                        Err(e) => Err(e),
                        Ok((s2, i)) => Ok((s2, seq![Record::Instance(i)])),
                    },
                    _ => Err(ErrorModel::ExecutionError),
                },
                _ => Err(ErrorModel::ExecutionError),
            },
            None => Err(ErrorModel::ExecutionError),
        },
    }
}

/// One branch applied to the store: the store after it and the records it
/// returns. A failing branch leaves the store as it was.
pub open spec fn branch_model(s: StoreModel, b: Ast) -> Result<(StoreModel, Seq<Record>), ErrorModel> {
    match b {
        Ast::Statement { variant, context, child } => match *variant {
            Ast::Token(Token::Query, _) => match query_model(s, *context, child) {
                Err(e) => Err(e),
                Ok(rs) => Ok((s, rs)),
            },
            Ast::Token(Token::Create, loc) => match create_model(s, *context, child, loc) {
                Err(e) => Err(e),
                Ok(s2) => Ok((s2, Seq::empty())),
            },
            Ast::Token(Token::Delete, loc) => delete_model(s, *context, child, loc),
            _ => Err(ErrorModel::ExecutionError),
        },
        Ast::Shell { outside, inside } => match *outside {
            Ast::Statement { variant, context, .. } => match (*variant, *context) {
                (Ast::Token(Token::Select, loc), Ast::Literal(name, _)) => match select_shell_model(
                    s,
                    name,
                    inside,
                    loc,
                ) {
                    Err(e) => Err(e),
                    Ok(s2) => Ok((s2, Seq::empty())),
                },
                (Ast::Token(Token::Template, loc), Ast::Literal(name, _)) => match template_shell_model(
                    s,
                    name,
                    inside,
                    loc,
                ) {
                    Err(e) => Err(e),
                    Ok(s2) => Ok((s2, Seq::empty())),
                },
                _ => Err(ErrorModel::ExecutionError),
            },
            _ => Err(ErrorModel::ExecutionError),
        },
        _ => Err(ErrorModel::ExecutionError),
    }
}

/// The branches applied in order: the store after them and all returned
/// records, or the first error with the store as the earlier branches left
/// it.
pub open spec fn exec_model(s: StoreModel, ast: Seq<Ast>) -> (StoreModel, Result<Seq<Record>, ErrorModel>)
    decreases ast.len(),
{
    if ast.len() == 0 {
        (s, Ok(Seq::empty()))
    } else {
        let (s1, r1) = exec_model(s, ast.drop_last());
        match r1 {
            Err(e) => (s1, Err(e)),
            Ok(rs) => match branch_model(s1, ast.last()) {
                Err(e) => (s1, Err(e)),
                Ok((s2, more)) => (s2, Ok(rs + more)),
            },
        }
    }
}

fn literal_text(n: &Node) -> (r: Option<String>)
    ensures
        match literal_of(view_node(*n)) {
            Some(t) => r is Some && r->Some_0@ == t,
            None => r is None,
        },
{
    match n {
        Node::Literal(s, _) => Some(s.clone()),
        _ => None,
    }
}

fn value_data(n: &Node) -> (r: Option<(Data, usize)>)
    ensures
        match value_of(view_node(*n)) {
            Some((v, p)) => r is Some && r->Some_0.0@ == v && r->Some_0.1 == p,
            None => r is None,
        },
{
    match n {
        Node::Literal(s, p) => Some((Data::Str(s.clone()), *p)),
        Node::Int(i, p) => Some((Data::Int(*i), *p)),
        Node::Float(s, p) => Some((Data::Float(s.clone()), *p)),
        _ => None,
    }
}

fn default_data(t: DataType) -> (d: Data)
    ensures
        d@ == default_of(t),
{
    match t {
        DataType::STRING => Data::Str(String::new()),
        DataType::INTEGER => Data::Int(0),
        DataType::FLOAT => {
            let s = String::from_str("0.0");
            proof {
                reveal_strlit("0.0");
            }
            assert(s@ =~= seq!['0', '.', '0']);
            Data::Float(s)
        },
    }
}

/// Reads one field declaration of a TEMPLATE block.
pub fn create_template_prop(prop: &Node) -> (r: Result<(String, Data), PangError>)
    ensures
        match template_prop_model(view_node(*prop)) {
            Ok((n, v)) => r is Ok && r->Ok_0.0@ == n && r->Ok_0.1@ == v,
            Err(e) => r is Err && r->Err_0@ == e,
        },
    decreases prop,
{
    proof {
        reveal_with_fuel(view_node, 3);
    }
    match prop {
        Node::Statement { variant, context, child } => {
            let ty = match &**variant {
                Node::Token(t, loc) => match t {
                    Token::StringType => DataType::STRING,
                    Token::IntegerType => DataType::INTEGER,
                    Token::FloatType => DataType::FLOAT,
                    _ => return Err(PangError::SyntaxError(*loc)),
                },
                _ => return Err(PangError::ExecutionError),
            };
            let name = match literal_text(context) {
                Some(n) => n,
                None => return Err(PangError::ExecutionError),
            };
            match child {
                None => Ok((name, default_data(ty))),
                Some(c) => match &**c {
                    Node::Statement { variant: v2, context: c2, child: ch2 } => {
                        match &**v2 {
                            Node::Token(Token::Value, _) => {},
                            Node::Token(_, l) => return Err(PangError::SyntaxError(*l)),
                            _ => return Err(PangError::ExecutionError),
                        }
                        match ch2 {
                            Some(g) => return create_template_prop(g),
                            None => {},
                        }
                        let (d, l) = match value_data(c2) {
                            Some(x) => x,
                            None => return Err(PangError::ExecutionError),
                        };
                        if d.data_type() != ty {
                            Err(PangError::TypeMismatch(l))
                        } else {
                            Ok((name, d))
                        }
                    },
                    _ => Err(PangError::ExecutionError),
                },
            }
        },
        _ => Err(PangError::ExecutionError),
    }
}

/// Reads one assignment of a SELECT block: the field, the value and the
/// value's position.
pub fn create_select_prop(prop: &Node) -> (r: Result<(String, (Data, usize)), PangError>)
    ensures
        match select_prop_model(view_node(*prop)) {
            Ok((n, v, p)) => r is Ok && r->Ok_0.0@ == n && r->Ok_0.1.0@ == v && r->Ok_0.1.1 == p,
            Err(e) => r is Err && r->Err_0@ == e,
        },
    decreases prop,
{
    proof {
        reveal_with_fuel(view_node, 3);
    }
    match prop {
        Node::Statement { variant, context, child } => {
            match &**variant {
                Node::Token(Token::SetField, _) => {},
                Node::Token(_, l) => return Err(PangError::SyntaxError(*l)),
                _ => return Err(PangError::ExecutionError),
            }
            let (name, loc) = match &**context {
                Node::Literal(s, l) => (s.clone(), *l),
                _ => return Err(PangError::ExecutionError),
            };
            match child {
                None => {
                    let len = name.as_str().unicode_len();
                    let at = loc.saturating_add(len).saturating_add(3);
                    Err(PangError::SyntaxError(at))
                },
                Some(c) => match &**c {
                    Node::Statement { variant: v2, context: c2, child: ch2 } => {
                        match &**v2 {
                            Node::Token(Token::Value, _) => {},
                            Node::Token(_, l) => return Err(PangError::SyntaxError(*l)),
                            _ => return Err(PangError::ExecutionError),
                        }
                        match ch2 {
                            Some(g) => return create_select_prop(g),
                            None => {},
                        }
                        match value_data(c2) {
                            Some((d, l)) => Ok((name, (d, l))),
                            None => Err(PangError::ExecutionError),
                        }
                    },
                    _ => Err(PangError::ExecutionError),
                },
            }
        },
        _ => Err(PangError::ExecutionError),
    }
}

/// Builds a template from the declarations of a TEMPLATE block and adds it.
fn create_template(name: &String, props: &Vec<Box<Node>>, loc: usize, store: &mut Store) -> (r: Result<(), PangError>)
    ensures
        match template_shell_model(old(store)@, name@, view_nodes(props@), loc) {
            Ok(s) => r is Ok && final(store)@ == s,
            Err(e) => r is Err && r->Err_0@ == e && final(store)@ == old(store)@,
        },
{
    let ghost ps = view_nodes(props@);
    proof {
        lemma_view_nodes(props@);
    }
    let mut template = Template::new(name.clone());
    let mut i: usize = 0;
    while i < props.len()
        invariant
            ps == view_nodes(props@),
            ps.len() == props.len(),
            forall|j: int| 0 <= j < props.len() ==> #[trigger] ps[j] == view_node(*props@[j]),
            i <= props.len(),
            template@.name == name@,
            template_fields(ps.take(i as int)) == Ok::<Seq<(Seq<char>, Value)>, ErrorModel>(template@.data),
        decreases props.len() - i,
    {
        assert(ps.take(i + 1).drop_last() =~= ps.take(i as int));
        let (field, data) = match create_template_prop(&props[i]) {
            Ok(x) => x,
            Err(e) => {
                proof {
                    lemma_fields_error(ps, i as int + 1, e@);
                    assert(ps.take(ps.len() as int) =~= ps);
                }
                return Err(e);
            },
        };
        template = template.add_data(field, data);
        i = i + 1;
    }
    assert(ps.take(ps.len() as int) =~= ps);
    push_template(store, template.build(), loc)
}

proof fn lemma_fields_error(ps: Seq<Ast>, i: int, e: ErrorModel)
    requires
        0 < i <= ps.len(),
        template_fields(ps.take(i)) == Err::<Seq<(Seq<char>, Value)>, ErrorModel>(e),
    ensures
        template_fields(ps.take(ps.len() as int)) == Err::<Seq<(Seq<char>, Value)>, ErrorModel>(e),
    decreases ps.len() - i,
{
    if i < ps.len() {
        assert(ps.take(i + 1).drop_last() =~= ps.take(i));
        lemma_fields_error(ps, i + 1, e);
    }
}

proof fn lemma_sets_error(inst: InstanceModel, ps: Seq<Ast>, i: int, e: ErrorModel)
    requires
        0 < i <= ps.len(),
        apply_sets(inst, ps.take(i)) == Err::<InstanceModel, ErrorModel>(e),
    ensures
        apply_sets(inst, ps.take(ps.len() as int)) == Err::<InstanceModel, ErrorModel>(e),
    decreases ps.len() - i,
{
    if i < ps.len() {
        assert(ps.take(i + 1).drop_last() =~= ps.take(i));
        lemma_sets_error(inst, ps, i + 1, e);
    }
}

/// Applies the assignments of a SELECT block to the named instance, which
/// then moves last; on any error the store is left as it was.
fn make_selection(name: &String, props: &Vec<Box<Node>>, loc: usize, store: &mut Store) -> (r: Result<(), PangError>)
    ensures
        match select_shell_model(old(store)@, name@, view_nodes(props@), loc) {
            Ok(s) => r is Ok && final(store)@ == s,
            Err(e) => r is Err && r->Err_0@ == e && final(store)@ == old(store)@,
        },
{
    let ghost ps = view_nodes(props@);
    proof {
        lemma_view_nodes(props@);
        lemma_first_index(instance_names(store@.instances), name@);
    }
    let k = match store.find_instance(name) {
        Some(k) => k,
        None => return Err(PangError::InstanceNonExistent(name.clone(), loc)),
    };
    let mut instance = store.instances[k].copy();
    let ghost start = instance@;
    let mut i: usize = 0;
    while i < props.len()
        invariant
            ps == view_nodes(props@),
            ps.len() == props.len(),
            forall|j: int| 0 <= j < props.len() ==> #[trigger] ps[j] == view_node(*props@[j]),
            i <= props.len(),
            apply_sets(start, ps.take(i as int)) == Ok::<InstanceModel, ErrorModel>(instance@),
            store@ == old(store)@,
            k == first_index(instance_names(store@.instances), name@),
            k < store.instances.len(),
            start == store@.instances[k as int],
        decreases props.len() - i,
    {
        assert(ps.take(i + 1).drop_last() =~= ps.take(i as int));
        let (field, (data, at)) = match create_select_prop(&props[i]) {
            Ok(x) => x,
            Err(e) => {
                proof {
                    lemma_sets_error(start, ps, i as int + 1, e@);
                    assert(ps.take(ps.len() as int) =~= ps);
                }
                return Err(e);
            },
        };
        match instance.overwrite(field, data, at) {
            Ok(_) => {},
            Err(e) => {
                proof {
                    lemma_sets_error(start, ps, i as int + 1, e@);
                    assert(ps.take(ps.len() as int) =~= ps);
                }
                return Err(e);
            },
        }
        i = i + 1;
    }
    assert(ps.take(ps.len() as int) =~= ps);
    let ghost before = store@;
    store.instances.remove(k);
    store.instances.push(instance);
    assert(store@.instances =~= before.instances.remove(k as int).push(instance@));
    Ok(())
}

pub open spec fn child_view(c: Option<Box<Node>>) -> Option<Box<Ast>> {
    match c {
        Some(b) => Some(Box::new(view_node(*b))),
        None => None,
    }
}

fn wrap_templates(ts: Vec<Template>) -> (r: Vec<QueryResult>)
    ensures
        records_of(r@) == ts@.map_values(|t: Template| t@).map_values(|t: TemplateModel| Record::Template(t)),
{
    let ghost want = ts@.map_values(|t: Template| t@).map_values(|t: TemplateModel| Record::Template(t));
    let mut out: Vec<QueryResult> = Vec::new();
    let mut rest = ts;
    let ghost all = rest@;
    while rest.len() > 0
        invariant
            want == all.map_values(|t: Template| t@).map_values(|t: TemplateModel| Record::Template(t)),
            records_of(out@) == want.take(out@.len() as int),
            out@.len() + rest@.len() == all.len(),
            forall|j: int| 0 <= j < rest@.len() ==> #[trigger] rest@[j]@ == all[out@.len() + j]@,
        decreases rest.len(),
    {
        let t = rest.remove(0);
        let ghost n = out@.len() as int;
        assert(t@ == all[n]@);
        out.push(QueryResult::Template(t));
        assert(records_of(out@) =~= want.take(n + 1));
    }
    assert(want.take(out@.len() as int) =~= want);
    out
}

fn wrap_instances(is: Vec<Instance>) -> (r: Vec<QueryResult>)
    ensures
        records_of(r@) == is@.map_values(|i: Instance| i@).map_values(|i: InstanceModel| Record::Instance(i)),
{
    let ghost want = is@.map_values(|i: Instance| i@).map_values(|i: InstanceModel| Record::Instance(i));
    let mut out: Vec<QueryResult> = Vec::new();
    let mut rest = is;
    let ghost all = rest@;
    while rest.len() > 0
        invariant
            want == all.map_values(|i: Instance| i@).map_values(|i: InstanceModel| Record::Instance(i)),
            records_of(out@) == want.take(out@.len() as int),
            out@.len() + rest@.len() == all.len(),
            forall|j: int| 0 <= j < rest@.len() ==> #[trigger] rest@[j]@ == all[out@.len() + j]@,
        decreases rest.len(),
    {
        let x = rest.remove(0);
        let ghost n = out@.len() as int;
        assert(x@ == all[n]@);
        out.push(QueryResult::Instance(x));
        assert(records_of(out@) =~= want.take(n + 1));
    }
    assert(want.take(out@.len() as int) =~= want);
    out
}

/// Answers a QUERY statement from the store.
fn query_statement(context: &Node, child: &Option<Box<Node>>, store: &Store) -> (r: Result<Vec<QueryResult>, PangError>)
    ensures
        match query_model(store@, view_node(*context), child_view(*child)) {
            Ok(rs) => r is Ok && records_of(r->Ok_0@) == rs,
            Err(e) => r is Err && r->Err_0@ == e,
        },
{
    proof {
        reveal_with_fuel(view_node, 2);
    }
    let name = match context {
        Node::Literal(name, _) => name.clone(),
        Node::Token(Token::Instance, _) => return Ok(wrap_instances(copy_instances(store))),
        Node::Token(Token::Template, _) => return Ok(wrap_templates(copy_templates(store))),
        _ => return Err(PangError::ExecutionError),
    };
    match child {
        Some(c) => match &**c {
            Node::Statement { context: c2, .. } => match &**c2 {
                Node::Token(Token::Template, loc) => match copy_template(store, name, *loc) {
                    Ok(t) => {
                        let r = vec![QueryResult::Template(t)];
                        assert(records_of(r@) =~= seq![Record::Template(r@[0]->Template_0@)]);
                        Ok(r)
                    },
                    Err(e) => Err(e),
                },
                Node::Token(Token::Instance, loc) => match copy_instance(store, name, *loc) {
                    Ok(i) => {
                        let r = vec![QueryResult::Instance(i)];
                        assert(records_of(r@) =~= seq![Record::Instance(r@[0]->Instance_0@)]);
                        Ok(r)
                    },
                    Err(e) => Err(e),
                },
                _ => Err(PangError::ExecutionError),
            },
            _ => Err(PangError::ExecutionError),
        },
        None => Err(PangError::ExecutionError),
    }
}

/// Carries out a CREATE statement.
fn create_statement(context: &Node, child: &Option<Box<Node>>, loc: usize, store: &mut Store) -> (r: Result<(), PangError>)
    ensures
        match create_model(old(store)@, view_node(*context), child_view(*child), loc) {
            Ok(s) => r is Ok && final(store)@ == s,
            Err(e) => r is Err && r->Err_0@ == e && final(store)@ == old(store)@,
        },
{
    proof {
        reveal_with_fuel(view_node, 2);
    }
    let name = match literal_text(context) {
        Some(n) => n,
        None => return Err(PangError::ExecutionError),
    };
    match child {
        Some(c) => match &**c {
            Node::Statement { variant: v2, context: c2, .. } => {
                let src = match literal_text(c2) {
                    Some(n) => n,
                    None => return Err(PangError::ExecutionError),
                };
                match &**v2 {
                    Node::Token(Token::Template, _) => {
                        let template = match copy_template(store, src, loc) {
                            Ok(t) => t,
                            Err(e) => return Err(e),
                        };
                        push_instance(store, Instance::new(name, template), loc)
                    },
                    Node::Token(Token::Instance, _) => {
                        let origin = match copy_instance(store, src, loc) {
                            Ok(i) => i,
                            Err(e) => return Err(e),
                        };
                        let instance = Instance { name, template: origin.template, data: origin.data };
                        push_instance(store, instance, loc)
                    },
                    _ => Err(PangError::ExecutionError),
                }
            },
            _ => Err(PangError::ExecutionError),
        },
        None => Err(PangError::ExecutionError),
    }
}

/// Carries out a DELETE statement and returns the removed record.
fn delete_statement(context: &Node, child: &Option<Box<Node>>, loc: usize, store: &mut Store) -> (r: Result<Vec<QueryResult>, PangError>)
    ensures
        match delete_model(old(store)@, view_node(*context), child_view(*child), loc) {
            Ok((s, rs)) => r is Ok && records_of(r->Ok_0@) == rs && final(store)@ == s,
            Err(e) => r is Err && r->Err_0@ == e && final(store)@ == old(store)@,
        },
{
    proof {
        reveal_with_fuel(view_node, 2);
    }
    let name = match literal_text(context) {
        Some(n) => n,
        None => return Err(PangError::ExecutionError),
    };
    match child {
        Some(c) => match &**c {
            Node::Statement { context: c2, .. } => match &**c2 {
                Node::Token(Token::Template, _) => match remove_template(store, name, loc) {
                    Ok(t) => {
                        let r = vec![QueryResult::Template(t)];
                        assert(records_of(r@) =~= seq![Record::Template(r@[0]->Template_0@)]);
                        Ok(r)
                    },
                    Err(e) => Err(e),
                },
                Node::Token(Token::Instance, _) => match remove_instance(store, name, loc) {
                    Ok(i) => {
                        let r = vec![QueryResult::Instance(i)];
                        assert(records_of(r@) =~= seq![Record::Instance(r@[0]->Instance_0@)]);
                        Ok(r)
                    },
                    Err(e) => Err(e),
                },
                _ => Err(PangError::ExecutionError),
            },
            _ => Err(PangError::ExecutionError),
        },
        None => Err(PangError::ExecutionError),
    }
}

/// Applies one branch of the tree to the store.
fn exec_branch(branch: &Node, store: &mut Store) -> (r: Result<Vec<QueryResult>, PangError>)
    ensures
        match branch_model(old(store)@, view_node(*branch)) {
            Ok((s, rs)) => r is Ok && records_of(r->Ok_0@) == rs && final(store)@ == s,
            Err(e) => r is Err && r->Err_0@ == e && final(store)@ == old(store)@,
        },
{
    proof {
        reveal_with_fuel(view_node, 3);
    }
    match branch {
        Node::Statement { variant, context, child } => match &**variant {
            Node::Token(token, loc) => match token {
                Token::Query => query_statement(context, child, store),
                Token::Create => match create_statement(context, child, *loc, store) {
                    Ok(_) => {
                        let r: Vec<QueryResult> = Vec::new();
                        assert(records_of(r@) =~= Seq::<Record>::empty());
                        Ok(r)
                    },
                    Err(e) => Err(e),
                },
                Token::Delete => delete_statement(context, child, *loc, store),
                _ => Err(PangError::ExecutionError),
            },
            _ => Err(PangError::ExecutionError),
        },
        Node::Shell { outside, inside } => {
            let (token, name, loc) = match &**outside {
                Node::Statement { variant, context, .. } => {
                    let (token, loc) = match &**variant {
                        Node::Token(token, loc) => (*token, *loc),
                        _ => return Err(PangError::ExecutionError),
                    };
                    let name = match &**context {
                        Node::Literal(name, _) => name,
                        _ => return Err(PangError::ExecutionError),
                    };
                    (token, name, loc)
                },
                _ => return Err(PangError::ExecutionError),
            };
            let done = match token {
                Token::Select => make_selection(name, inside, loc, store),
                Token::Template => create_template(name, inside, loc, store),
                _ => return Err(PangError::ExecutionError),
            };
            match done {
                Ok(_) => {
                    let r: Vec<QueryResult> = Vec::new();
                    assert(records_of(r@) =~= Seq::<Record>::empty());
                    Ok(r)
                },
                Err(e) => Err(e),
            }
        },
        _ => Err(PangError::ExecutionError),
    }
}

/// Applies the branches of a checked tree to the store in order and
/// collects the records they return; the first error ends the run.
pub fn exec(ast: &Vec<Node>, store: &mut Store) -> (r: Result<Vec<QueryResult>, PangError>)
    ensures
        ({
            let (s, res) = exec_model(old(store)@, view_nodes_plain(ast@));
            final(store)@ == s && match res {
                Ok(rs) => r is Ok && records_of(r->Ok_0@) == rs,
                Err(e) => r is Err && r->Err_0@ == e,
            }
        }),
{
    let ghost all = view_nodes_plain(ast@);
    let mut res: Vec<QueryResult> = Vec::new();
    let mut i: usize = 0;
    assert(all.take(0) =~= Seq::<Ast>::empty());
    assert(records_of(res@) =~= Seq::<Record>::empty());
    while i < ast.len()
        invariant
            all == view_nodes_plain(ast@),
            i <= ast.len(),
            exec_model(old(store)@, all.take(i as int)) == (store@, Ok::<Seq<Record>, ErrorModel>(records_of(res@))),
        decreases ast.len() - i,
    {
        assert(all.take(i + 1).drop_last() =~= all.take(i as int));
        assert(all.take(i + 1).last() == view_node(ast@[i as int]));
        match exec_branch(&ast[i], store) {
            Ok(more) => {
                let ghost prev = res@;
                let ghost more_seen = more@;
                let mut more = more;
                res.append(&mut more);
                assert(records_of(res@) =~= records_of(prev) + records_of(more_seen));
            },
            Err(e) => {
                proof {
                    lemma_exec_error(old(store)@, all, i as int + 1);
                    assert(all.take(all.len() as int) =~= all);
                }
                return Err(e);
            },
        }
        i = i + 1;
    }
    assert(all.take(all.len() as int) =~= all);
    Ok(res)
}

/// Once a prefix of the branches fails, every longer prefix fails the same
/// way with the same store.
proof fn lemma_exec_error(s: StoreModel, all: Seq<Ast>, i: int)
    requires
        0 < i <= all.len(),
        exec_model(s, all.take(i)).1 is Err,
    ensures
        exec_model(s, all.take(all.len() as int)) == exec_model(s, all.take(i)),
    decreases all.len() - i,
{
    if i < all.len() {
        assert(all.take(i + 1).drop_last() =~= all.take(i));
        lemma_exec_error(s, all, i + 1);
    }
}

/// The whole pipeline on lexed lines: the tree is built and checked, then
/// applied to the store. A tree that fails to build or check leaves the
/// store as it was.
pub open spec fn data_model(s: StoreModel, lines: Seq<Seq<crate::token::Lexeme>>) -> (StoreModel, Result<Seq<Record>, ErrorModel>) {
    match parse_model(lines) {
        Err(e) => (s, Err(e@)),
        Ok(ast) => exec_model(s, ast),
    }
}

/// Builds, checks and runs the statements of the lexed lines against the
/// store, and returns the records they produce.
pub fn data(lines: Vec<Vec<TokenMatch>>, store: &mut Store) -> (r: Result<Vec<QueryResult>, PangError>)
    ensures
        ({
            let (s, res) = data_model(old(store)@, lines_view(lines@));
            final(store)@ == s && match res {
                Ok(rs) => r is Ok && records_of(r->Ok_0@) == rs,
                Err(e) => r is Err && r->Err_0@ == e,
            }
        }),
{
    let ast = match parse(lines) {
        Ok(a) => a,
        Err(e) => return Err(e),
    };
    exec(&ast, store)
}

} // verus!
