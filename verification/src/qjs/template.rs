//! Templates: what functions and objects are to look like that are made of them.

use crate::handle_map::HandleMap;
use crate::qjs::isolate::NULL;
use vstd::prelude::*;

verus! {

/// A property of a template.
#[derive(Clone, Copy, PartialEq, Eq, Structural, Debug)]
pub struct Property {
    pub key: usize,
    pub value: usize,
    pub attributes: u32,
}

/// An accessor of a template: its functions are made of templates.
#[derive(Clone, Copy, PartialEq, Eq, Structural, Debug)]
pub struct Accessor {
    pub key: usize,
    pub getter: usize,
    pub setter: usize,
    pub attributes: u32,
}

/// What a function is to look like.
pub struct FunctionTemplate {
    pub callback: usize,
    pub data: usize,
    pub length: i32,
    pub class_name: Option<String>,
    /// The template of its `prototype`.
    pub proto: usize,
    /// The template of the objects that it makes.
    pub instance: usize,
    /// The template that it inherits from.
    pub parent: usize,
    pub properties: Vec<Property>,
    /// The `prototype` object, once it has been made.
    pub cached_proto: usize,
}

/// What an object is to look like.
pub struct ObjectTemplate {
    pub internal_field_count: i32,
    pub properties: Vec<Property>,
    pub accessors: Vec<Accessor>,
    /// The function template whose objects these are.
    pub parent_fn: usize,
}

/// The kinds of templates.
#[derive(Clone, Copy, PartialEq, Eq, Structural, Debug)]
pub enum TemplateKind {
    Function,
    Object,
}

/// All templates.
pub struct Templates {
    pub kinds: HandleMap<TemplateKind>,
    pub functions: HandleMap<FunctionTemplate>,
    pub objects: HandleMap<ObjectTemplate>,
}

/// An object template that says nothing, of this function template's objects.
pub open spec fn blank(t: ObjectTemplate, parent_fn: usize) -> bool {
    &&& t.internal_field_count == 0
    &&& t.properties@.len() == 0
    &&& t.accessors@.len() == 0
    &&& t.parent_fn == parent_fn
}

fn blank_object(parent_fn: usize) -> (r: ObjectTemplate)
    ensures
        blank(r, parent_fn),
{
    ObjectTemplate {
        internal_field_count: 0,
        properties: Vec::new(),
        accessors: Vec::new(),
        parent_fn,
    }
}

/// The function templates whose `prototype` is wanted for that of `t`: from `t` up to the first that has
/// one, which is not among them. `None` where `n` steps do not lead that far.
pub open spec fn prototype_chain(functions: Map<usize, FunctionTemplate>, t: usize, n: nat) -> Option<
    Seq<usize>,
>
    decreases n,
{
    if t == NULL || !functions.dom().contains(t) || functions[t].cached_proto != NULL {
        Some(seq![])
    } else if n == 0 {
        None
    } else {
        match prototype_chain(functions, functions[t].parent, (n - 1) as nat) {
            Some(rest) => Some(seq![t] + rest),
            None => None,
        }
    }
}

impl Templates {
    /// There is no template.
    pub fn new() -> (r: Templates)
        ensures
            r.kinds@ == Map::<usize, TemplateKind>::empty(),
            r.functions@ == Map::<usize, FunctionTemplate>::empty(),
            r.objects@ == Map::<usize, ObjectTemplate>::empty(),
    {
        Templates {
            kinds: HandleMap::new(),
            functions: HandleMap::new(),
            objects: HandleMap::new(),
        }
    }

    /// Notes that this is a template.
    pub fn register_template(&mut self, p: usize, kind: TemplateKind)
        ensures
            final(self).kinds@ == old(self).kinds@.insert(p, kind),
            *final(self) == (Templates { kinds: final(self).kinds, ..*old(self) }),
    {
        self.kinds.insert(p, kind);
    }

    /// Whether this is a template rather than a value.
    pub fn is_template_ptr(&self, p: usize) -> (r: bool)
        ensures
            r == (p != NULL && self.kinds@.dom().contains(p)),
    {
        p != NULL && self.kinds.contains(p)
    }

    /// What is to be made of a property's value before it is set: a function or an object of a template.
    pub fn template_kind(&self, p: usize) -> (r: Option<TemplateKind>)
        ensures
            r == if self.kinds@.dom().contains(p) {
                Some(self.kinds@[p])
            } else {
                None
            },
    {
        match self.kinds.get(p) {
            Some(kind) => Some(*kind),
            None => None,
        }
    }

    /// Gives a template a property. What is no template is passed over.
    pub fn set(&mut self, this: usize, property: Property)
        ensures
            final(self).kinds == old(self).kinds,
            ({
                let kind = old(self).kinds@[this];
                let found = this != NULL && old(self).kinds@.dom().contains(this);
                let f = found && kind == TemplateKind::Function && old(
                    self,
                ).functions@.dom().contains(this);
                let o = found && kind == TemplateKind::Object && old(self).objects@.dom().contains(
                    this,
                );
                &&& !f ==> final(self).functions == old(self).functions
                &&& !o ==> final(self).objects == old(self).objects
                &&& f ==> {
                    let a = old(self).functions@[this];
                    let b = final(self).functions@[this];
                    &&& b == (FunctionTemplate { properties: b.properties, ..a })
                    &&& b.properties@ == a.properties@.push(property)
                    &&& final(self).functions@ == old(self).functions@.insert(this, b)
                }
                &&& o ==> {
                    let a = old(self).objects@[this];
                    let b = final(self).objects@[this];
                    &&& b == (ObjectTemplate { properties: b.properties, ..a })
                    &&& b.properties@ == a.properties@.push(property)
                    &&& final(self).objects@ == old(self).objects@.insert(this, b)
                }
            }),
    {
        if this == NULL {
            return;
        }
        match self.template_kind(this) {
            Some(TemplateKind::Function) => {
                if let Some(t) = self.functions.get_mut(this) {
                    t.properties.push(property);
                }
            },
            Some(TemplateKind::Object) => {
                if let Some(t) = self.objects.get_mut(this) {
                    t.properties.push(property);
                }
            },
            None => {},
        }
    }

    /// Takes up a function template, with templates for its `prototype` and its objects.
    pub fn function_template_new(
        &mut self,
        this: usize,
        proto: usize,
        instance: usize,
        callback: usize,
        data: usize,
        length: i32,
    )
        requires
            proto != instance,
        ensures
            final(self).kinds@ == old(self).kinds@.insert(proto, TemplateKind::Object).insert(
                instance,
                TemplateKind::Object,
            ).insert(this, TemplateKind::Function),
            final(self).objects@ == old(self).objects@.insert(
                proto,
                final(self).objects@[proto],
            ).insert(instance, final(self).objects@[instance]),
            blank(final(self).objects@[proto], NULL),
            blank(final(self).objects@[instance], this),
            final(self).functions@ == old(self).functions@.insert(
                this,
                final(self).functions@[this],
            ),
            ({
                let t = final(self).functions@[this];
                &&& t == (FunctionTemplate {
                    callback,
                    data,
                    length,
                    class_name: None,
                    proto,
                    instance,
                    parent: NULL,
                    properties: t.properties,
                    cached_proto: NULL,
                })
                &&& t.properties@.len() == 0
            }),
    {
        self.objects.insert(proto, blank_object(NULL));
        self.objects.insert(instance, blank_object(this));
        self.register_template(proto, TemplateKind::Object);
        self.register_template(instance, TemplateKind::Object);
        self.functions.insert(
            this,
            FunctionTemplate {
                callback,
                data,
                length,
                class_name: None,
                proto,
                instance,
                parent: NULL,
                properties: Vec::new(),
                cached_proto: NULL,
            },
        );
        self.register_template(this, TemplateKind::Function);
    }

    /// Takes up an object template.
    pub fn object_template_new(&mut self, this: usize)
        ensures
            final(self).kinds@ == old(self).kinds@.insert(this, TemplateKind::Object),
            final(self).objects@ == old(self).objects@.insert(this, final(self).objects@[this]),
            blank(final(self).objects@[this], NULL),
            final(self).functions == old(self).functions,
    {
        self.objects.insert(this, blank_object(NULL));
        self.register_template(this, TemplateKind::Object);
    }

    /// Lets a function template inherit from another.
    pub fn inherit(&mut self, this: usize, parent: usize)
        ensures
            *final(self) == (Templates { functions: final(self).functions, ..*old(self) }),
            final(self).functions@ == if old(self).functions@.dom().contains(this) {
                old(self).functions@.insert(
                    this,
                    FunctionTemplate { parent, ..old(self).functions@[this] },
                )
            } else {
                old(self).functions@
            },
    {
        if let Some(t) = self.functions.get_mut(this) {
            t.parent = parent;
        }
    }

    /// Gives a function template a class name.
    pub fn set_class_name(&mut self, this: usize, name: String)
        ensures
            *final(self) == (Templates { functions: final(self).functions, ..*old(self) }),
            final(self).functions@ == if old(self).functions@.dom().contains(this) {
                old(self).functions@.insert(
                    this,
                    FunctionTemplate { class_name: Some(name), ..old(self).functions@[this] },
                )
            } else {
                old(self).functions@
            },
    {
        if let Some(t) = self.functions.get_mut(this) {
            t.class_name = Some(name);
        }
    }

    /// The template of a function template's `prototype`.
    pub fn prototype_template(&self, this: usize) -> (r: usize)
        ensures
            r == if self.functions@.dom().contains(this) {
                self.functions@[this].proto
            } else {
                NULL
            },
    {
        match self.functions.get(this) {
            Some(t) => t.proto,
            None => NULL,
        }
    }

    /// The template of a function template's objects.
    pub fn instance_template(&self, this: usize) -> (r: usize)
        ensures
            r == if self.functions@.dom().contains(this) {
                self.functions@[this].instance
            } else {
                NULL
            },
    {
        match self.functions.get(this) {
            Some(t) => t.instance,
            None => NULL,
        }
    }

    /// Gives an object template an accessor.
    pub fn set_accessor_property(&mut self, this: usize, accessor: Accessor)
        ensures
            *final(self) == (Templates { objects: final(self).objects, ..*old(self) }),
            !old(self).objects@.dom().contains(this) ==> final(self).objects == old(self).objects,
            old(self).objects@.dom().contains(this) ==> {
                let a = old(self).objects@[this];
                let b = final(self).objects@[this];
                &&& b == (ObjectTemplate { accessors: b.accessors, ..a })
                &&& b.accessors@ == a.accessors@.push(accessor)
                &&& final(self).objects@ == old(self).objects@.insert(this, b)
            },
    {
        if let Some(t) = self.objects.get_mut(this) {
            t.accessors.push(accessor);
        }
    }

    /// Gives the objects of a template so many internal fields.
    pub fn set_internal_field_count(&mut self, this: usize, value: i32)
        ensures
            *final(self) == (Templates { objects: final(self).objects, ..*old(self) }),
            final(self).objects@ == if old(self).objects@.dom().contains(this) {
                old(self).objects@.insert(
                    this,
                    ObjectTemplate { internal_field_count: value, ..old(self).objects@[this] },
                )
            } else {
                old(self).objects@
            },
    {
        if let Some(t) = self.objects.get_mut(this) {
            t.internal_field_count = value;
        }
    }

    /// The function templates whose `prototype` is to be made for that of `this`, beginning with it: each
    /// has the next one's as its own prototype, and the last one that of its parent, which is there.
    pub fn prototypes_to_build(&self, this: usize) -> (r: Vec<usize>)
        requires
            exists|n: nat| prototype_chain(self.functions@, this, n) is Some,
        ensures
            forall|n: nat|
                (#[trigger] prototype_chain(self.functions@, this, n)) matches Some(c) ==> r@ == c,
    {
        let ghost n = choose|n: nat| prototype_chain(self.functions@, this, n) is Some;
        let ghost whole = prototype_chain(self.functions@, this, n)->0;
        let mut r: Vec<usize> = Vec::new();
        let mut t: usize = this;
        let ghost mut left = n;
        assert(r@ + whole =~= whole);
        loop
            invariant
                prototype_chain(self.functions@, t, left) is Some,
                r@ + prototype_chain(self.functions@, t, left)->0 =~= whole,
            ensures
                r@ =~= whole,
            decreases left,
        {
            if t == NULL {
                break;
            }
            match self.functions.get(t) {
                None => {
                    break;
                },
                Some(f) => {
                    if f.cached_proto != NULL {
                        break;
                    }
                    r.push(t);
                    t = f.parent;
                    proof {
                        left = (left - 1) as nat;
                    }
                },
            }
        }
        proof {
            assert forall|m: nat|
                (#[trigger] prototype_chain(self.functions@, this, m)) matches Some(c) ==> r@ == c by {
                if prototype_chain(self.functions@, this, m) is Some {
                    lemma_chain_unique(self.functions@, this, m, n);
                }
            }
        }
        r
    }

    /// Notes the `prototype` object of a function template, which is made once.
    pub fn prototype_built(&mut self, this: usize, object: usize)
        ensures
            *final(self) == (Templates { functions: final(self).functions, ..*old(self) }),
            final(self).functions@ == if old(self).functions@.dom().contains(this) {
                old(self).functions@.insert(
                    this,
                    FunctionTemplate { cached_proto: object, ..old(self).functions@[this] },
                )
            } else {
                old(self).functions@
            },
    {
        if let Some(t) = self.functions.get_mut(this) {
            t.cached_proto = object;
        }
    }
}

/// The number of steps does not matter once they lead far enough.
proof fn lemma_chain_unique(functions: Map<usize, FunctionTemplate>, t: usize, m: nat, n: nat)
    requires
        prototype_chain(functions, t, m) is Some,
        prototype_chain(functions, t, n) is Some,
    ensures
        prototype_chain(functions, t, m) == prototype_chain(functions, t, n),
    decreases m,
{
    if !(t == NULL || !functions.dom().contains(t) || functions[t].cached_proto != NULL) {
        lemma_chain_unique(functions, functions[t].parent, (m - 1) as nat, (n - 1) as nat);
    }
}

/// A `prototype` object that was made is used again: nothing is made for it any more.
pub proof fn law_prototype_is_made_once(
    functions: Map<usize, FunctionTemplate>,
    t: usize,
    object: usize,
    n: nat,
)
    requires
        functions.dom().contains(t),
        object != NULL,
    ensures
        prototype_chain(
            functions.insert(t, FunctionTemplate { cached_proto: object, ..functions[t] }),
            t,
            n,
        ) == Some(Seq::<usize>::empty()),
{
}

/// The properties that are set: those with a key.
pub open spec fn with_keys(properties: Seq<Property>) -> Seq<Property>
    decreases properties.len(),
{
    if properties.len() == 0 {
        seq![]
    } else if properties.last().key == NULL {
        with_keys(properties.drop_last())
    } else {
        with_keys(properties.drop_last()).push(properties.last())
    }
}

/// The properties that are set.
pub fn properties_to_set(properties: &Vec<Property>) -> (r: Vec<Property>)
    ensures
        r@ == with_keys(properties@),
{
    let mut r: Vec<Property> = Vec::new();
    let mut i: usize = 0;
    while i < properties.len()
        invariant
            i <= properties.len(),
            r@ == with_keys(properties@.take(i as int)),
        decreases properties.len() - i,
    {
        assert(properties@.take(i + 1).drop_last() =~= properties@.take(i as int));
        assert(properties@.take(i + 1).last() == properties@[i as int]);
        if properties[i].key != NULL {
            r.push(properties[i]);
        }
        i += 1;
    }
    assert(properties@.take(i as int) =~= properties@);
    r
}

/// The attribute that hides a property from enumeration.
pub const DONT_ENUM: u32 = 2;

/// The attribute that keeps a property from being deleted.
pub const DONT_DELETE: u32 = 4;

/// What an accessor is defined with.
#[derive(Clone, Copy, PartialEq, Eq, Structural, Debug)]
pub struct Descriptor {
    pub key: usize,
    /// The template of the getter, if there is one.
    pub getter: usize,
    /// The template of the setter, if there is one.
    pub setter: usize,
    pub enumerable: bool,
    pub configurable: bool,
}

/// The descriptor of an accessor.
pub open spec fn descriptor(a: Accessor) -> Descriptor {
    Descriptor {
        key: a.key,
        getter: a.getter,
        setter: a.setter,
        enumerable: a.attributes & DONT_ENUM == 0,
        configurable: a.attributes & DONT_DELETE == 0,
    }
}

/// The descriptors of the accessors that are defined: those with a key.
pub open spec fn descriptors(accessors: Seq<Accessor>) -> Seq<Descriptor>
    decreases accessors.len(),
{
    if accessors.len() == 0 {
        seq![]
    } else if accessors.last().key == NULL {
        descriptors(accessors.drop_last())
    } else {
        descriptors(accessors.drop_last()).push(descriptor(accessors.last()))
    }
}

/// The descriptors of the accessors that are defined.
pub fn accessors_to_define(accessors: &Vec<Accessor>) -> (r: Vec<Descriptor>)
    ensures
        r@ == descriptors(accessors@),
{
    let mut r: Vec<Descriptor> = Vec::new();
    let mut i: usize = 0;
    while i < accessors.len()
        invariant
            i <= accessors.len(),
            r@ == descriptors(accessors@.take(i as int)),
        decreases accessors.len() - i,
    {
        assert(accessors@.take(i + 1).drop_last() =~= accessors@.take(i as int));
        assert(accessors@.take(i + 1).last() == accessors@[i as int]);
        let a = &accessors[i];
        if a.key != NULL {
            r.push(
                Descriptor {
                    key: a.key,
                    getter: a.getter,
                    setter: a.setter,
                    enumerable: a.attributes & DONT_ENUM == 0,
                    configurable: a.attributes & DONT_DELETE == 0,
                },
            );
        }
        i += 1;
    }
    assert(accessors@.take(i as int) =~= accessors@);
    r
}

/// An accessor is enumerable unless bit 2 is set and configurable unless bit 4 is; its functions stay.
pub proof fn law_descriptor_of_an_accessor(a: Accessor)
    ensures
        descriptor(a).enumerable <==> a.attributes & 2 == 0,
        descriptor(a).configurable <==> a.attributes & 4 == 0,
        descriptor(a).key == a.key && descriptor(a).getter == a.getter && descriptor(a).setter
            == a.setter,
{
}

/// Properties and accessors are set in order; those without a key are left out.
pub proof fn law_members_in_order(ps: Seq<Property>, p: Property, accs: Seq<Accessor>, a: Accessor)
    ensures
        p.key == 0 ==> with_keys(ps.push(p)) == with_keys(ps),
        p.key != 0 ==> with_keys(ps.push(p)) == with_keys(ps).push(p),
        with_keys(seq![]).len() == 0,
        a.key == 0 ==> descriptors(accs.push(a)) == descriptors(accs),
        a.key != 0 ==> descriptors(accs.push(a)) == descriptors(accs).push(descriptor(a)),
        descriptors(seq![]).len() == 0,
{
    assert(ps.push(p).drop_last() =~= ps);
    assert(accs.push(a).drop_last() =~= accs);
}

/// The prototypes that are to be made are those of the template and of its ancestors, up to the first that
/// has one.
pub proof fn law_prototypes_to_make(functions: Map<usize, FunctionTemplate>, t: usize, n: nat)
    ensures
        prototype_chain(functions, 0, n) == Some(Seq::<usize>::empty()),
        !functions.dom().contains(t) ==> prototype_chain(functions, t, n) == Some(
            Seq::<usize>::empty(),
        ),
        t != 0 && functions.dom().contains(t) && functions[t].cached_proto == 0 && prototype_chain(
            functions,
            functions[t].parent,
            n,
        ) is Some ==> prototype_chain(functions, t, n + 1) == Some(
            seq![t] + prototype_chain(functions, functions[t].parent, n)->0,
        ),
{
}

/// A blank template has no fields, no properties and no accessors.
pub proof fn law_blank_templates(t: ObjectTemplate, parent: usize)
    ensures
        blank(t, parent) <==> t.internal_field_count == 0 && t.properties@.len() == 0
            && t.accessors@.len() == 0 && t.parent_fn == parent,
{
}

/// A property that was set on a template of functions stands behind those set before.
pub proof fn law_properties_of_function_templates(a: Templates, b: Templates, this: usize, p: Property)
    requires
        this != 0,
        a.kinds@.dom().contains(this) && a.kinds@[this] == TemplateKind::Function,
        a.functions@.dom().contains(this),
        exists|m: &mut Templates|
            *m == a && *final(m) == b && #[trigger] call_ensures(Templates::set, (m, this, p), ()),
    ensures
        b.functions@[this].properties@ == a.functions@[this].properties@.push(p),
        b.functions@[this].callback == a.functions@[this].callback,
        b.objects == a.objects,
{
}

/// And so does one that was set on a template of objects.
pub proof fn law_properties_of_object_templates(a: Templates, b: Templates, this: usize, p: Property)
    requires
        this != 0,
        a.kinds@.dom().contains(this) && a.kinds@[this] == TemplateKind::Object,
        a.objects@.dom().contains(this),
        exists|m: &mut Templates|
            *m == a && *final(m) == b && #[trigger] call_ensures(Templates::set, (m, this, p), ()),
    ensures
        b.objects@[this].properties@ == a.objects@[this].properties@.push(p),
        b.objects@[this].accessors == a.objects@[this].accessors,
        b.functions == a.functions,
{
}

/// A new template of functions has no parent, no name, no properties and no prototype yet; its instances and
/// its prototype have blank templates.
pub proof fn law_new_function_templates(
    a: Templates,
    b: Templates,
    this: usize,
    proto: usize,
    instance: usize,
    callback: usize,
    data: usize,
    length: i32,
)
    requires
        proto != instance && proto != this && instance != this,
        exists|m: &mut Templates|
            *m == a && *final(m) == b && #[trigger] call_ensures(Templates::function_template_new, (m, this, proto, instance, callback, data, length), ()),
    ensures
        ({
            let t = b.functions@[this];
            &&& t.callback == callback && t.data == data && t.length == length
            &&& t.proto == proto && t.instance == instance && t.parent == 0 && t.cached_proto == 0
            &&& t.class_name is None && t.properties@.len() == 0
        }),
        b.kinds@[this] == TemplateKind::Function,
        b.kinds@[proto] == TemplateKind::Object && b.kinds@[instance] == TemplateKind::Object,
        b.objects@[proto].properties@.len() == 0 && b.objects@[proto].parent_fn == 0,
        b.objects@[instance].properties@.len() == 0 && b.objects@[instance].parent_fn == this,
{
}

/// A template inherits from the parent that it was given last, and keeps all else.
pub proof fn law_parents_and_names(a: Templates, b: Templates, c: Templates, this: usize, parent: usize, name: String)
    requires
        a.functions@.dom().contains(this),
        exists|m: &mut Templates|
            *m == a && *final(m) == b && #[trigger] call_ensures(Templates::inherit, (m, this, parent), ()),
        exists|m: &mut Templates|
            *m == b && *final(m) == c && #[trigger] call_ensures(Templates::set_class_name, (m, this, name), ()),
    ensures
        c.functions@[this].parent == parent,
        c.functions@[this].class_name == Some(name),
        c.functions@[this].callback == a.functions@[this].callback,
        c.functions@[this].properties == a.functions@[this].properties,
        c.objects == a.objects && c.kinds == a.kinds,
{
}

/// A prototype that was built is not built again.
pub proof fn law_built_prototype_is_kept(a: Templates, b: Templates, this: usize, object: usize, n: nat)
    requires
        a.functions@.dom().contains(this),
        object != 0,
        exists|m: &mut Templates|
            *m == a && *final(m) == b && #[trigger] call_ensures(Templates::prototype_built, (m, this, object), ()),
    ensures
        b.functions@[this].cached_proto == object,
        prototype_chain(b.functions@, this, n) == Some(Seq::<usize>::empty()),
{
    law_prototype_is_made_once(a.functions@, this, object, n);
}

/// Accessors and the number of internal fields are kept with the template of objects.
pub proof fn law_accessors_and_fields(a: Templates, b: Templates, c: Templates, this: usize, accessor: Accessor, n: i32)
    requires
        a.objects@.dom().contains(this),
        exists|m: &mut Templates|
            *m == a && *final(m) == b && #[trigger] call_ensures(Templates::set_accessor_property, (m, this, accessor), ()),
        exists|m: &mut Templates|
            *m == b && *final(m) == c && #[trigger] call_ensures(Templates::set_internal_field_count, (m, this, n), ()),
    ensures
        c.objects@[this].accessors@ == a.objects@[this].accessors@.push(accessor),
        c.objects@[this].internal_field_count == n,
        c.objects@[this].properties == a.objects@[this].properties,
        c.functions == a.functions,
{
}

} // verus!
