use vstd::prelude::*;

use crate::environment::{undefined_property_message, values_map, RuntimeError};
use crate::text::{append_str, str_to_chars, str_to_string};
use crate::token::Token;

verus! {

/// A class of a running program: its name, its superclass and its methods
/// (of whatever kind the interpreter gives them).
pub struct Class<M> {
    name: String,
    superclass: Option<Box<Class<M>>>,
    methods: Vec<(Vec<char>, M)>,
}

impl<M> Class<M> {
    /// The methods that the class itself declares.
    pub closed spec fn own_methods(&self) -> Map<Seq<char>, M> {
        values_map(self.methods@)
    }

    pub closed spec fn name_view(&self) -> Seq<char> {
        self.name@
    }

    pub closed spec fn superclass_view(&self) -> Option<Box<Class<M>>> {
        self.superclass
    }

    /// The name of the class.
    pub fn name(&self) -> (r: &str)
        ensures
            r@ == self.name_view(),
    {
        self.name.as_str()
    }
}

/// The method `name` of a class: its own, else its superclass's.
pub closed spec fn method_of<M>(c: Class<M>, name: Seq<char>) -> Option<M>
    decreases c,
{
    if c.own_methods().contains_key(name) {
        Some(c.own_methods()[name])
    } else {
        match c.superclass {
            Some(sc) => method_of(*sc, name),
            None => None,
        }
    }
}

/// The method `name` of a class is the one the class itself declares under
/// that name, where it declares one; otherwise it is its superclass's method
/// `name`, and there is none where the class has no superclass. So a subclass's
/// method overrides its superclass's method of the same name.
pub proof fn lemma_method_of<M>(c: Class<M>, name: Seq<char>)
    ensures
        method_of(c, name) == (if c.own_methods().contains_key(name) {
            Some(c.own_methods()[name])
        } else {
            match c.superclass_view() {
                Some(sc) => method_of(*sc, name),
                None => None,
            }
        }),
{
}

/// Looks `name` up in a list of named entries (the last entry for a name
/// counts).
fn lookup_entry<'a, M>(entries: &'a Vec<(Vec<char>, M)>, name: &[char]) -> (r: Option<&'a M>)
    ensures
        match r {
            Some(m) => values_map(entries@).contains_key(name@) && values_map(entries@)[name@] == *m,
            None => !values_map(entries@).contains_key(name@),
        },
{
    match crate::environment::find_entry(entries, name) {
        Some(j) => Some(&entries[j].1),
        None => None,
    }
}

/// Methods by name, from a list of named methods (a later one of the same
/// name counts).
pub open spec fn named_map<M>(methods: Seq<(String, M)>) -> Map<Seq<char>, M>
    decreases methods.len(),
{
    if methods.len() == 0 {
        Map::empty()
    } else {
        named_map(methods.drop_last()).insert(methods.last().0@, methods.last().1)
    }
}

proof fn lemma_named_clone<M: Clone>(a: Seq<(String, M)>, b: Seq<(Vec<char>, M)>)
    requires
        a.len() == b.len(),
        forall|j: int| 0 <= j < a.len() ==> (#[trigger] b[j]).0@ == a[j].0@ && cloned(a[j].1, b[j].1),
    ensures
        values_map(b).dom() == named_map(a).dom(),
        forall|k: Seq<char>| #[trigger] values_map(b).contains_key(k) ==> cloned(named_map(a)[k], values_map(b)[k]),
    decreases a.len(),
{
    if a.len() > 0 {
        let (da, db) = (a.drop_last(), b.drop_last());
        assert forall|j: int| 0 <= j < da.len() implies (#[trigger] db[j]).0@ == da[j].0@ && cloned(da[j].1, db[j].1) by {
            assert(db[j] == b[j]);
            assert(da[j] == a[j]);
        }
        lemma_named_clone(da, db);
        assert(values_map(b).dom() =~= named_map(a).dom());
    }
}

impl<M: Clone> Class<M> {
    /// A class with the given name, superclass and methods; a later method
    /// of the same name replaces an earlier one.
    pub fn new(name: String, superclass: Option<Box<Class<M>>>, methods: Vec<(String, M)>) -> (c: Class<M>)
        ensures
            c.name_view() == name@,
            c.superclass_view() == superclass,
            c.own_methods().dom() == named_map(methods@).dom(),
            forall|k: Seq<char>| #[trigger] c.own_methods().contains_key(k) ==> cloned(named_map(methods@)[k], c.own_methods()[k]),
    {
        let mut entries: Vec<(Vec<char>, M)> = Vec::new();
        let mut i: usize = 0;
        while i < methods.len()
            invariant
                i <= methods@.len(),
                entries@.len() == i,
                forall|j: int| 0 <= j < i ==> (#[trigger] entries@[j]).0@ == methods@[j].0@ && cloned(
                    methods@[j].1,
                    entries@[j].1,
                ),
            decreases methods@.len() - i,
        {
            let m = methods[i].1.clone();
            entries.push((str_to_chars(methods[i].0.as_str()), m));
            i = i + 1;
        }
        proof {
            lemma_named_clone(methods@, entries@);
        }
        Class { name, superclass, methods: entries }
    }

    /// The method `name` of the class: its own, else its superclass's
    /// (`lemma_method_of` states the lookup order).
    pub fn find_method(&self, name: &str) -> (r: Option<M>)
        ensures
            match r {
                Some(m) => method_of(*self, name@) matches Some(w) && cloned(w, m),
                None => method_of(*self, name@) is None,
            },
        decreases self,
    {
        let key = str_to_chars(name);
        match lookup_entry(&self.methods, key.as_slice()) {
            Some(m) => Some(m.clone()),
            None => match &self.superclass {
                Some(sc) => sc.find_method(name),
                None => None,
            },
        }
    }

    /// How the class prints: "<class NAME>".
    pub fn to_string(&self) -> (r: String)
        ensures
            r@ == "<class "@ + self.name_view() + ">"@,
    {
        let mut r = str_to_string("<class ");
        append_str(&mut r, self.name.as_str());
        append_str(&mut r, ">");
        r
    }
}

/// `b` is a copy of class `a`: the same name, copies of the same methods,
/// and a copy of the same superclass.
pub closed spec fn copy_of<M: Clone>(a: Class<M>, b: Class<M>) -> bool
    decreases a,
{
    &&& b.name@ == a.name@
    &&& b.own_methods().dom() == a.own_methods().dom()
    &&& forall|k: Seq<char>| #[trigger] b.own_methods().contains_key(k) ==> cloned(a.own_methods()[k], b.own_methods()[k])
    &&& match (a.superclass, b.superclass) {
        (Some(x), Some(y)) => copy_of(*x, *y),
        (None, None) => true,
        _ => false,
    }
}

fn clone_methods<M: Clone>(methods: &Vec<(Vec<char>, M)>) -> (r: Vec<(Vec<char>, M)>)
    ensures
        values_map(r@).dom() == values_map(methods@).dom(),
        forall|k: Seq<char>| #[trigger] values_map(r@).contains_key(k) ==> cloned(values_map(methods@)[k], values_map(r@)[k]),
{
    let mut r: Vec<(Vec<char>, M)> = Vec::new();
    let mut i: usize = 0;
    while i < methods.len()
        invariant
            i <= methods@.len(),
            r@.len() == i,
            forall|j: int| 0 <= j < i ==> (#[trigger] r@[j]).0@ == methods@[j].0@ && cloned(methods@[j].1, r@[j].1),
        decreases methods@.len() - i,
    {
        let name = methods[i].0.clone();
        let m = methods[i].1.clone();
        r.push((name, m));
        i = i + 1;
    }
    proof {
        lemma_clone_map(methods@, r@);
    }
    r
}

fn clone_class<M: Clone>(c: &Class<M>) -> (r: Class<M>)
    ensures
        copy_of(*c, r),
    decreases c,
{
    let superclass = match &c.superclass {
        Some(sc) => Some(Box::new(clone_class(sc))),
        None => None,
    };
    Class { name: c.name.clone(), superclass, methods: clone_methods(&c.methods) }
}

impl<M: Clone> Clone for Class<M> {
    fn clone(&self) -> (r: Class<M>)
        ensures
            copy_of(*self, r),
    {
        clone_class(self)
    }
}

/// What a property read finds on an instance: a field's value, or a method
/// for the caller to bind to the instance.
pub enum Property<M, V> {
    Field(V),
    Method(M),
}

/// An instance of a class: the name of its class, the methods it was made
/// with, and its fields.
pub struct Instance<M, V> {
    class: String,
    methods: Vec<(Vec<char>, M)>,
    fields: Vec<(Vec<char>, V)>,
}

impl<M, V> Instance<M, V> {
    pub closed spec fn class_name(&self) -> Seq<char> {
        self.class@
    }

    pub closed spec fn methods_view(&self) -> Map<Seq<char>, M> {
        values_map(self.methods@)
    }

    pub closed spec fn fields_view(&self) -> Map<Seq<char>, V> {
        values_map(self.fields@)
    }

    /// A new instance of the class, with the class's own methods and no
    /// fields.
    pub fn new(class: &Class<M>) -> (r: Instance<M, V>)
        where
            M: Clone,
        ensures
            r.class_name() == class.name_view(),
            r.methods_view().dom() == class.own_methods().dom(),
            forall|k: Seq<char>| #[trigger] r.methods_view().contains_key(k) ==> cloned(class.own_methods()[k], r.methods_view()[k]),
            r.fields_view() == Map::<Seq<char>, V>::empty(),
    {
        let mut methods: Vec<(Vec<char>, M)> = Vec::new();
        let mut i: usize = 0;
        while i < class.methods.len()
            invariant
                i <= class.methods@.len(),
                methods@.len() == i,
                forall|j: int| 0 <= j < i ==> (#[trigger] methods@[j]).0@ == class.methods@[j].0@ && cloned(
                    class.methods@[j].1,
                    methods@[j].1,
                ),
            decreases class.methods@.len() - i,
        {
            let name = class.methods[i].0.clone();
            let m = class.methods[i].1.clone();
            methods.push((name, m));
            i = i + 1;
        }
        proof {
            lemma_clone_map(class.methods@, methods@);
        }
        let r = Instance { class: class.name.clone(), methods, fields: Vec::new() };
        assert(r.fields_view() =~= Map::<Seq<char>, V>::empty());
        r
    }

    /// Sets the field `name`.
    pub fn set(&mut self, name: &Token, value: V)
        ensures
            final(self).fields_view() == old(self).fields_view().insert(name@.lexeme, value),
            final(self).methods_view() == old(self).methods_view(),
            final(self).class_name() == old(self).class_name(),
    {
        let ghost before = self.fields@;
        self.fields.push((str_to_chars(name.lexeme()), value));
        assert(self.fields@.drop_last() =~= before);
    }

    /// How the instance prints: "NAME instance".
    pub fn to_string(&self) -> (r: String)
        ensures
            r@ == self.class_name() + " instance"@,
    {
        let mut r = self.class.clone();
        append_str(&mut r, " instance");
        r
    }
}

proof fn lemma_clone_map<M: Clone>(a: Seq<(Vec<char>, M)>, b: Seq<(Vec<char>, M)>)
    requires
        a.len() == b.len(),
        forall|j: int| 0 <= j < a.len() ==> (#[trigger] b[j]).0@ == a[j].0@ && cloned(a[j].1, b[j].1),
    ensures
        values_map(b).dom() == values_map(a).dom(),
        forall|k: Seq<char>| #[trigger] values_map(b).contains_key(k) ==> cloned(values_map(a)[k], values_map(b)[k]),
    decreases a.len(),
{
    if a.len() > 0 {
        let (da, db) = (a.drop_last(), b.drop_last());
        assert forall|j: int| 0 <= j < da.len() implies (#[trigger] db[j]).0@ == da[j].0@ && cloned(da[j].1, db[j].1) by {
            assert(db[j] == b[j]);
            assert(da[j] == a[j]);
        }
        lemma_clone_map(da, db);
        assert(values_map(b).dom() =~= values_map(a).dom());
    }
}

impl<M: Clone, V: Clone> Instance<M, V> {
    /// Reads the property `name`: a field if the instance has one, else a
    /// method; "Undefined property 'NAME'." otherwise.
    pub fn get(&self, name: &Token) -> (r: Result<Property<M, V>, RuntimeError>)
        ensures
            match r {
                Ok(Property::Field(v)) => self.fields_view().contains_key(name@.lexeme) && cloned(
                    self.fields_view()[name@.lexeme],
                    v,
                ),
                Ok(Property::Method(m)) => !self.fields_view().contains_key(name@.lexeme)
                    && self.methods_view().contains_key(name@.lexeme) && cloned(self.methods_view()[name@.lexeme], m),
                Err(e) => !self.fields_view().contains_key(name@.lexeme) && !self.methods_view().contains_key(
                    name@.lexeme,
                ) && e.token@ == name@ && e.message@ == undefined_property_message(name@.lexeme),
            },
    {
        let key = str_to_chars(name.lexeme());
        match crate::environment::find_entry(&self.fields, key.as_slice()) {
            Some(j) => Ok(Property::Field(self.fields[j].1.clone())),
            None => match lookup_entry(&self.methods, key.as_slice()) {
                Some(m) => Ok(Property::Method(m.clone())),
                None => {
                    let mut message = str_to_string("Undefined property '");
                    append_str(&mut message, name.lexeme());
                    append_str(&mut message, "'.");
                    Err(RuntimeError { token: name.clone(), message })
                },
            },
        }
    }
}

} // verus!
