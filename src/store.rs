use vstd::prelude::*;
use crate::data::{Template, TemplateModel, Instance, InstanceModel};
use crate::error::{PangError, ErrorModel};

verus! {

/// The in-memory store: the templates and the instances, each collection
/// with unique names.
pub struct Store {
    pub templates: Vec<Template>,
    pub instances: Vec<Instance>,
}

/// The model of a [`Store`].
pub struct StoreModel {
    pub templates: Seq<TemplateModel>,
    pub instances: Seq<InstanceModel>,
}

impl View for Store {
    type V = StoreModel;

    open spec fn view(&self) -> StoreModel {
        StoreModel {
            templates: self.templates@.map_values(|t: Template| t@),
            instances: self.instances@.map_values(|i: Instance| i@),
        }
    }
}

pub open spec fn template_names(ts: Seq<TemplateModel>) -> Seq<Seq<char>> {
    ts.map_values(|t: TemplateModel| t.name)
}

pub open spec fn instance_names(is: Seq<InstanceModel>) -> Seq<Seq<char>> {
    is.map_values(|i: InstanceModel| i.name)
}

/// The index of the first occurrence of `x` in `s`, or -1.
pub open spec fn first_index<A>(s: Seq<A>, x: A) -> int
    decreases s.len(),
{
    if s.len() == 0 {
        -1
    } else if s[0] == x {
        0
    } else {
        let r = first_index(s.drop_first(), x);
        if r < 0 {
            -1
        } else {
            r + 1
        }
    }
}

pub open spec fn no_repeats<A>(s: Seq<A>) -> bool {
    forall|i: int, j: int| 0 <= i < s.len() && 0 <= j < s.len() && i != j ==> s[i] != s[j]
}

/// How many times `x` occurs in `s`.
pub open spec fn occurrences<A>(s: Seq<A>, x: A) -> nat {
    s.filter(|y: A| y == x).len()
}

impl StoreModel {
    /// Names are unique within each collection.
    pub open spec fn wf(self) -> bool {
        no_repeats(template_names(self.templates)) && no_repeats(instance_names(self.instances))
    }
}

pub open spec fn push_template_model(s: StoreModel, t: TemplateModel, loc: usize) -> Result<
    StoreModel,
    ErrorModel,
> {
    if first_index(template_names(s.templates), t.name) >= 0 {
        Err(ErrorModel::TemplateAlreadyExists(t.name, loc))
    } else {
        Ok(StoreModel { templates: s.templates.push(t), ..s })
    }
}

pub open spec fn push_instance_model(s: StoreModel, i: InstanceModel, loc: usize) -> Result<
    StoreModel,
    ErrorModel,
> {
    if first_index(instance_names(s.instances), i.name) >= 0 {
        Err(ErrorModel::InstanceAlreadyExists(i.name, loc))
    } else {
        Ok(StoreModel { instances: s.instances.push(i), ..s })
    }
}

/// Removing an instance by name; the removed record is returned.
pub open spec fn remove_instance_model(s: StoreModel, name: Seq<char>, loc: usize) -> Result<
    (StoreModel, InstanceModel),
    ErrorModel,
> {
    let k = first_index(instance_names(s.instances), name);
    if k < 0 {
        Err(ErrorModel::InstanceNonExistent(name, loc))
    } else {
        Ok((StoreModel { instances: s.instances.remove(k), ..s }, s.instances[k]))
    }
}

/// Removing a template by name, and with it every instance made from it.
pub open spec fn remove_template_model(s: StoreModel, name: Seq<char>, loc: usize) -> Result<
    (StoreModel, TemplateModel),
    ErrorModel,
> {
    let k = first_index(template_names(s.templates), name);
    if k < 0 {
        Err(ErrorModel::TemplateNonExistent(name, loc))
    } else {
        let t = s.templates[k];
        Ok((
            StoreModel {
                templates: s.templates.remove(k),
                instances: s.instances.filter(|i: InstanceModel| i.template != t),
            },
            t,
        ))
    }
}

pub open spec fn copy_instance_model(s: StoreModel, name: Seq<char>, loc: usize) -> Result<
    InstanceModel,
    ErrorModel,
> {
    let k = first_index(instance_names(s.instances), name);
    if k < 0 {
        Err(ErrorModel::InstanceNonExistent(name, loc))
    } else {
        Ok(s.instances[k])
    }
}

pub open spec fn copy_template_model(s: StoreModel, name: Seq<char>, loc: usize) -> Result<
    TemplateModel,
    ErrorModel,
> {
    let k = first_index(template_names(s.templates), name);
    if k < 0 {
        Err(ErrorModel::TemplateNonExistent(name, loc))
    } else {
        Ok(s.templates[k])
    }
}

/// `first_index` finds the first occurrence, and -1 means there is none.
pub proof fn lemma_first_index<A>(s: Seq<A>, x: A)
    ensures
        -1 <= first_index(s, x) < s.len(),
        first_index(s, x) == -1 <==> forall|j: int| 0 <= j < s.len() ==> s[j] != x,
        first_index(s, x) >= 0 ==> s[first_index(s, x)] == x && forall|j: int|
            0 <= j < first_index(s, x) ==> s[j] != x,
    decreases s.len(),
{
    if s.len() > 0 {
        lemma_first_index(s.drop_first(), x);
        if s[0] != x {
            assert forall|j: int| 0 < j < s.len() implies s[j] == s.drop_first()[j - 1] by {}
            if first_index(s.drop_first(), x) == -1 {
                assert forall|j: int| 0 <= j < s.len() implies s[j] != x by {
                    if j > 0 {
                        assert(s[j] == s.drop_first()[j - 1]);
                    }
                }
            }
        }
    }
}

impl Store {
    /// An empty store.
    pub fn new() -> (s: Store)
        ensures
            s@.templates.len() == 0,
            s@.instances.len() == 0,
    {
        Store { templates: Vec::new(), instances: Vec::new() }
    }

    pub(crate) fn find_template(&self, name: &String) -> (r: Option<usize>)
        ensures
            match r {
                Some(k) => k == first_index(template_names(self@.templates), name@) && k < self.templates.len(),
                None => first_index(template_names(self@.templates), name@) == -1,
            },
    {
        let ghost names = template_names(self@.templates);
        proof {
            lemma_first_index(names, name@);
        }
        let mut i: usize = 0;
        while i < self.templates.len()
            invariant
                names == template_names(self@.templates),
                names.len() == self.templates.len(),
                -1 <= first_index(names, name@) < names.len(),
                first_index(names, name@) == -1 <==> forall|j: int| 0 <= j < names.len() ==> names[j] != name@,
                first_index(names, name@) >= 0 ==> names[first_index(names, name@)] == name@ && forall|j: int|
                    0 <= j < first_index(names, name@) ==> names[j] != name@,
                i <= self.templates.len(),
                forall|j: int| 0 <= j < i ==> names[j] != name@,
            decreases self.templates.len() - i,
        {
            assert(names[i as int] == self.templates@[i as int].name@);
            if self.templates[i].name == *name {
                return Some(i);
            }
            i = i + 1;
        }
        None
    }

    pub(crate) fn find_instance(&self, name: &String) -> (r: Option<usize>)
        ensures
            match r {
                Some(k) => k == first_index(instance_names(self@.instances), name@) && k < self.instances.len(),
                None => first_index(instance_names(self@.instances), name@) == -1,
            },
    {
        let ghost names = instance_names(self@.instances);
        proof {
            lemma_first_index(names, name@);
        }
        let mut i: usize = 0;
        while i < self.instances.len()
            invariant
                names == instance_names(self@.instances),
                names.len() == self.instances.len(),
                -1 <= first_index(names, name@) < names.len(),
                first_index(names, name@) == -1 <==> forall|j: int| 0 <= j < names.len() ==> names[j] != name@,
                first_index(names, name@) >= 0 ==> names[first_index(names, name@)] == name@ && forall|j: int|
                    0 <= j < first_index(names, name@) ==> names[j] != name@,
                i <= self.instances.len(),
                forall|j: int| 0 <= j < i ==> names[j] != name@,
            decreases self.instances.len() - i,
        {
            assert(names[i as int] == self.instances@[i as int].name@);
            if self.instances[i].name == *name {
                return Some(i);
            }
            i = i + 1;
        }
        None
    }
}

/// Adds a template; its name must not be taken.
pub fn push_template(store: &mut Store, template: Template, loc: usize) -> (r: Result<(), PangError>)
    ensures
        match push_template_model(old(store)@, template@, loc) {
            Ok(s) => r is Ok && final(store)@ == s,
            Err(e) => r is Err && r->Err_0@ == e && final(store)@ == old(store)@,
        },
{
    match store.find_template(&template.name) {
        Some(_) => Err(PangError::TemplateAlreadyExists(template.name, loc)),
        None => {
            let ghost before = store@;
            store.templates.push(template);
            assert(store@.templates =~= before.templates.push(template@));
            Ok(())
        },
    }
}

/// Adds an instance; its name must not be taken.
pub fn push_instance(store: &mut Store, instance: Instance, loc: usize) -> (r: Result<(), PangError>)
    ensures
        match push_instance_model(old(store)@, instance@, loc) {
            Ok(s) => r is Ok && final(store)@ == s,
            Err(e) => r is Err && r->Err_0@ == e && final(store)@ == old(store)@,
        },
{
    match store.find_instance(&instance.name) {
        Some(_) => Err(PangError::InstanceAlreadyExists(instance.name, loc)),
        None => {
            let ghost before = store@;
            store.instances.push(instance);
            assert(store@.instances =~= before.instances.push(instance@));
            Ok(())
        },
    }
}

/// Removes the instance named `name` and returns it.
pub fn remove_instance(store: &mut Store, name: String, loc: usize) -> (r: Result<Instance, PangError>)
    ensures
        match remove_instance_model(old(store)@, name@, loc) {
            Ok((s, i)) => r is Ok && r->Ok_0@ == i && final(store)@ == s,
            Err(e) => r is Err && r->Err_0@ == e && final(store)@ == old(store)@,
        },
{
    match store.find_instance(&name) {
        None => Err(PangError::InstanceNonExistent(name, loc)),
        Some(k) => {
            let ghost before = store@;
            let removed = store.instances.remove(k);
            assert(store@.instances =~= before.instances.remove(k as int));
            Ok(removed)
        },
    }
}

/// Removes the template named `name`, and every instance made from it, and
/// returns the template.
pub fn remove_template(store: &mut Store, name: String, loc: usize) -> (r: Result<Template, PangError>)
    ensures
        match remove_template_model(old(store)@, name@, loc) {
            Ok((s, t)) => r is Ok && r->Ok_0@ == t && final(store)@ == s,
            Err(e) => r is Err && r->Err_0@ == e && final(store)@ == old(store)@,
        },
{
    match store.find_template(&name) {
        None => Err(PangError::TemplateNonExistent(name, loc)),
        Some(k) => {
            let ghost before = store@;
            let removed = store.templates.remove(k);
            assert(store@.templates =~= before.templates.remove(k as int));
            let ghost t = removed@;
            let ghost keep = |x: InstanceModel| x.template != t;
            let mut kept: Vec<Instance> = Vec::new();
            let ghost all = before.instances;
            let mut i: usize = 0;
            while i < store.instances.len()
                invariant
                    all == before.instances,
                    all == store@.instances,
                    removed@ == t,
                    keep == (|x: InstanceModel| x.template != t),
                    i <= store.instances.len(),
                    kept@.map_values(|x: Instance| x@) == all.take(i as int).filter(keep),
                decreases store.instances.len() - i,
            {
                proof {
                    all.take(i as int).lemma_filter_push(all[i as int], keep);
                    assert(all.take(i + 1) =~= all.take(i as int).push(all[i as int]));
                }
                let ghost prev = kept@;
                assert(store.instances@[i as int]@ == all[i as int]);
                let same = store.instances[i].template.same_as(&removed);
                assert(store.instances@[i as int].template@ == all[i as int].template);
                assert(same == (all[i as int].template == t));
                assert(keep(all[i as int]) == (all[i as int].template != t));
                if !same {
                    let c = store.instances[i].copy();
                    kept.push(c);
                    assert(kept@.map_values(|x: Instance| x@) =~= prev.map_values(|x: Instance| x@).push(all[i as int]));
                } else {
                    assert(all.take(i + 1).filter(keep) == all.take(i as int).filter(keep));
                }
                i = i + 1;
            }
            assert(all.take(all.len() as int) =~= all);
            store.instances = kept;
            Ok(removed)
        },
    }
}

/// A copy of the instance named `name`.
pub fn copy_instance(store: &Store, name: String, loc: usize) -> (r: Result<Instance, PangError>)
    ensures
        match copy_instance_model(store@, name@, loc) {
            Ok(i) => r is Ok && r->Ok_0@ == i,
            Err(e) => r is Err && r->Err_0@ == e,
        },
{
    match store.find_instance(&name) {
        None => Err(PangError::InstanceNonExistent(name, loc)),
        Some(k) => Ok(store.instances[k].copy()),
    }
}

/// A copy of the template named `name`.
pub fn copy_template(store: &Store, name: String, loc: usize) -> (r: Result<Template, PangError>)
    ensures
        match copy_template_model(store@, name@, loc) {
            Ok(t) => r is Ok && r->Ok_0@ == t,
            Err(e) => r is Err && r->Err_0@ == e,
        },
{
    match store.find_template(&name) {
        None => Err(PangError::TemplateNonExistent(name, loc)),
        Some(k) => Ok(store.templates[k].copy()),
    }
}

/// Copies of all templates, in order.
pub fn copy_templates(store: &Store) -> (r: Vec<Template>)
    ensures
        r@.map_values(|t: Template| t@) == store@.templates,
{
    let mut out: Vec<Template> = Vec::new();
    let mut i: usize = 0;
    while i < store.templates.len()
        invariant
            i <= store.templates.len(),
            out@.map_values(|t: Template| t@) == store@.templates.take(i as int),
        decreases store.templates.len() - i,
    {
        let ghost prev = out@;
        out.push(store.templates[i].copy());
        assert(out@.map_values(|t: Template| t@) =~= prev.map_values(|t: Template| t@).push(store@.templates[i as int]));
        assert(store@.templates.take(i + 1) =~= store@.templates.take(i as int).push(store@.templates[i as int]));
        i = i + 1;
    }
    assert(store@.templates.take(i as int) =~= store@.templates);
    out
}

/// Copies of all instances, in order.
pub fn copy_instances(store: &Store) -> (r: Vec<Instance>)
    ensures
        r@.map_values(|i: Instance| i@) == store@.instances,
{
    let mut out: Vec<Instance> = Vec::new();
    let mut i: usize = 0;
    while i < store.instances.len()
        invariant
            i <= store.instances.len(),
            out@.map_values(|x: Instance| x@) == store@.instances.take(i as int),
        decreases store.instances.len() - i,
    {
        let ghost prev = out@;
        out.push(store.instances[i].copy());
        assert(out@.map_values(|x: Instance| x@) =~= prev.map_values(|x: Instance| x@).push(store@.instances[i as int]));
        assert(store@.instances.take(i + 1) =~= store@.instances.take(i as int).push(store@.instances[i as int]));
        i = i + 1;
    }
    assert(store@.instances.take(i as int) =~= store@.instances);
    out
}

} // verus!
