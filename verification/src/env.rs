//! The lexically nested binding store, with namespaces and aliases.
use vstd::prelude::*;
use crate::text::{
    chars_of, find_char, first_index, has_item, join2, join3, lemma_first_index_is, owned,
    string_from, Text,
};
use crate::value::{
    copy_text_pairs, copy_texts, entries, lemma_entries_push, lemma_scope_data, lemma_texts_push,
    some_form, text_pairs, texts, Env, ErrorKind, EvalError, Fault, Form, Scope, Value,
};

verus! {

/// The keys of a list of entries, in order.
pub open spec fn names<V>(data: Seq<(Text, V)>) -> Seq<Text> {
    Seq::new(data.len(), |i: int| data[i].0)
}

/// Whether no key occurs twice.
pub open spec fn distinct(keys: Seq<Text>) -> bool {
    forall|i: int, j: int| 0 <= i < j < keys.len() ==> keys[i] != keys[j]
}

/// The value bound to `name` by the first entry that has it.
pub open spec fn lookup<V>(data: Seq<(Text, V)>, name: Text) -> Option<V> {
    let i = first_index(names(data), name);
    if i < data.len() {
        Some(data[i].1)
    } else {
        None
    }
}

/// `data` with `name` bound to `v`: in place where `name` has an entry, at
/// the end otherwise.
pub open spec fn assign<V>(data: Seq<(Text, V)>, name: Text, v: V) -> Seq<(Text, V)> {
    let i = first_index(names(data), name);
    if i < data.len() {
        data.update(i, (name, v))
    } else {
        data.push((name, v))
    }
}

/// `ns`, a slash, `name`.
pub open spec fn qualified(ns: Text, name: Text) -> Text {
    ns + seq!['/'] + name
}

/// The entries of `data` whose key begins with `prefix`, in order.
pub open spec fn with_prefix(data: Seq<(Text, Form)>, prefix: Text) -> Seq<(Text, Form)>
    decreases data.len(),
{
    if data.len() == 0 {
        Seq::empty()
    } else {
        let rest = with_prefix(data.drop_last(), prefix);
        if prefix.is_prefix_of(data.last().0) {
            rest.push(data.last())
        } else {
            rest
        }
    }
}

impl Scope {
    /// A root frame: no bindings, namespace `user`, nothing loaded, no alias.
    pub open spec fn root() -> Scope {
        Scope {
            parent: None,
            data: Seq::empty(),
            current_namespace: "user"@,
            loaded_namespaces: Seq::empty(),
            namespace_aliases: Seq::empty(),
        }
    }

    /// An empty frame over `self` that inherits its namespace state.
    pub open spec fn child(self) -> Scope {
        Scope {
            parent: Some(Box::new(self)),
            data: Seq::empty(),
            current_namespace: self.current_namespace,
            loaded_namespaces: self.loaded_namespaces,
            namespace_aliases: self.namespace_aliases,
        }
    }

    /// `self` with `name` bound to `v` in this frame.
    pub open spec fn set(self, name: Text, v: Form) -> Scope {
        Scope { data: assign(self.data, name, v), ..self }
    }

    /// The binding of `name` in the nearest frame that has one.
    pub open spec fn get(self, name: Text) -> Option<Form>
        decreases self,
    {
        match lookup(self.data, name) {
            Some(v) => Some(v),
            None => match self.parent {
                Some(p) => p.get(name),
                None => None,
            },
        }
    }

    /// Whether some frame binds `name`.
    pub open spec fn binds(self, name: Text) -> bool {
        self.get(name) is Some
    }

    /// `self` with `name` rebound in the nearest frame that has it.
    pub open spec fn update(self, name: Text, v: Form) -> Scope
        recommends
            self.binds(name),
        decreases self,
    {
        if lookup(self.data, name) is Some {
            self.set(name, v)
        } else {
            match self.parent {
                Some(p) => Scope { parent: Some(Box::new(p.update(name, v))), ..self },
                None => self,
            }
        }
    }

    /// `self` with `ns` as the current namespace.
    pub open spec fn set_namespace(self, ns: Text) -> Scope {
        Scope { current_namespace: ns, ..self }
    }

    /// Whether `ns` is recorded as loaded.
    pub open spec fn is_namespace_loaded(self, ns: Text) -> bool {
        has_item(self.loaded_namespaces, ns)
    }

    /// `self` with `ns` recorded as loaded.
    pub open spec fn add_loaded_namespace(self, ns: Text) -> Scope {
        if self.is_namespace_loaded(ns) {
            self
        } else {
            Scope { loaded_namespaces: self.loaded_namespaces.push(ns), ..self }
        }
    }

    /// The key under which `set_namespaced` stores `name`.
    pub open spec fn qualify(self, name: Text) -> Text {
        if has_item(name, '/') {
            name
        } else {
            qualified(self.current_namespace, name)
        }
    }

    /// `self` with `name`, qualified, bound to `v` in this frame.
    pub open spec fn set_namespaced(self, name: Text, v: Form) -> Scope {
        self.set(self.qualify(name), v)
    }

    /// Lookup with namespace resolution: a qualified name directly; a bare
    /// one in the current namespace, then `core`, then `user`, then bare.
    pub open spec fn get_with_namespaces(self, name: Text) -> Option<Form> {
        if has_item(name, '/') {
            self.get(name)
        } else if self.get(qualified(self.current_namespace, name)) is Some {
            self.get(qualified(self.current_namespace, name))
        } else if self.get(qualified("core"@, name)) is Some {
            self.get(qualified("core"@, name))
        } else if self.get(qualified("user"@, name)) is Some {
            self.get(qualified("user"@, name))
        } else {
            self.get(name)
        }
    }

    /// `self` with `alias` standing for the namespace `ns` in this frame.
    pub open spec fn add_alias(self, alias: Text, ns: Text) -> Scope {
        Scope { namespace_aliases: assign(self.namespace_aliases, alias, ns), ..self }
    }

    /// The namespace that `alias` stands for in the nearest frame that knows it.
    pub open spec fn resolve_alias(self, alias: Text) -> Option<Text>
        decreases self,
    {
        match lookup(self.namespace_aliases, alias) {
            Some(ns) => Some(ns),
            None => match self.parent {
                Some(p) => p.resolve_alias(alias),
                None => None,
            },
        }
    }

    /// Lookup that first rewrites an aliased prefix: where `name` has a slash
    /// and what stands before the first one is an alias, the name qualified
    /// by the aliased namespace is looked up directly.
    pub open spec fn get_with_aliases(self, name: Text) -> Option<Form> {
        let slash = first_index(name, '/');
        if slash < name.len() && self.resolve_alias(name.subrange(0, slash)) is Some {
            self.get(
                qualified(
                    self.resolve_alias(name.subrange(0, slash))->0,
                    name.subrange(slash + 1, name.len() as int),
                ),
            )
        } else {
            self.get_with_namespaces(name)
        }
    }

    /// What evaluating the symbol `name` finds: a plain lookup, then one
    /// with aliases and namespaces.
    pub open spec fn resolve(self, name: Text) -> Option<Form> {
        if self.get(name) is Some {
            self.get(name)
        } else {
            self.get_with_aliases(name)
        }
    }

    /// The bindings whose key begins with `namespace` and a slash, this
    /// frame's first, then the parents'.
    pub open spec fn namespace_functions(self, namespace: Text) -> Seq<(Text, Form)>
        decreases self,
    {
        let own = with_prefix(self.data, namespace + seq!['/']);
        match self.parent {
            Some(p) => own + p.namespace_functions(namespace),
            None => own,
        }
    }
}

/// The position of the first entry of `data` with key `name`, or
/// `data.len()`.
pub fn find_entry(data: &Vec<(String, Value)>, name: &str) -> (i: usize)
    ensures
        i == first_index(names(entries(data@)), name@),
        i <= data@.len(),
{
    let mut i: usize = 0;
    while i < data.len() && !data[i].0.as_str().eq(name)
        invariant
            i <= data.len(),
            forall|j: int| 0 <= j < i ==> data@[j].0@ != name@,
        decreases data.len() - i,
    {
        i += 1;
    }
    proof {
        lemma_first_index_is(names(entries(data@)), name@, i as int);
    }
    i
}

/// The position of the first pair of `data` with key `name`, or
/// `data.len()`.
pub fn find_pair(data: &Vec<(String, String)>, name: &str) -> (i: usize)
    ensures
        i == first_index(names(text_pairs(data@)), name@),
        i <= data@.len(),
{
    let mut i: usize = 0;
    while i < data.len() && !data[i].0.as_str().eq(name)
        invariant
            i <= data.len(),
            forall|j: int| 0 <= j < i ==> data@[j].0@ != name@,
        decreases data.len() - i,
    {
        i += 1;
    }
    proof {
        lemma_first_index_is(names(text_pairs(data@)), name@, i as int);
    }
    i
}

/// The position of the first string of `data` equal to `name`, or
/// `data.len()`.
pub fn find_text(data: &Vec<String>, name: &str) -> (i: usize)
    ensures
        i == first_index(texts(data@), name@),
        i <= data@.len(),
{
    let mut i: usize = 0;
    while i < data.len() && !data[i].as_str().eq(name)
        invariant
            i <= data.len(),
            forall|j: int| 0 <= j < i ==> data@[j]@ != name@,
        decreases data.len() - i,
    {
        i += 1;
    }
    proof {
        lemma_first_index_is(texts(data@), name@, i as int);
    }
    i
}

/// Binds `name` to `val` in `data`: in place where `name` has an entry, at
/// the end otherwise.
pub fn put_entry(data: &mut Vec<(String, Value)>, name: String, val: Value)
    ensures
        entries(final(data)@) == assign(entries(old(data)@), name@, val@),
{
    let i = find_entry(data, name.as_str());
    if i < data.len() {
        data[i] = (name, val);
        assert(entries(data@) =~= assign(entries(old(data)@), name@, val@));
    } else {
        data.push((name, val));
        assert(entries(data@) =~= assign(entries(old(data)@), name@, val@));
    }
}

/// `ns/name`.
pub fn qualify_name(ns: &str, name: &str) -> (r: String)
    ensures
        r@ == qualified(ns@, name@),
{
    proof {
        reveal_strlit("/");
        assert("/"@ =~= seq!['/']);
    }
    join3(ns, "/", name)
}

/// Whether `name` holds a slash.
pub fn has_slash(name: &str) -> (b: bool)
    ensures
        b == has_item(name@, '/'),
{
    let chars = chars_of(name);
    find_char(&chars, '/') < chars.len()
}

impl Env {
    /// A root frame: no bindings, namespace `user`, nothing loaded, no alias.
    pub fn new() -> (r: Env)
        ensures
            r@ == Scope::root(),
    {
        let r = Env {
            parent: None,
            data: Vec::new(),
            current_namespace: owned("user"),
            loaded_namespaces: Vec::new(),
            namespace_aliases: Vec::new(),
        };
        proof {
            lemma_scope_data(r);
            assert(r@.data =~= Seq::empty());
            assert(r@.loaded_namespaces =~= Seq::empty());
            assert(r@.namespace_aliases =~= Seq::empty());
        }
        r
    }

    /// An empty frame over `parent` that inherits its namespace state.
    pub fn with_parent(parent: Env) -> (r: Env)
        ensures
            r@ == parent@.child(),
    {
        let current_namespace = parent.current_namespace.clone();
        let loaded_namespaces = copy_texts(&parent.loaded_namespaces);
        let namespace_aliases = copy_text_pairs(&parent.namespace_aliases);
        proof {
            lemma_scope_data(parent);
        }
        let r = Env {
            parent: Some(Box::new(parent)),
            data: Vec::new(),
            current_namespace,
            loaded_namespaces,
            namespace_aliases,
        };
        proof {
            lemma_scope_data(r);
            assert(r@.data =~= Seq::empty());
        }
        r
    }

    /// Binds `name` to `val` in this frame.
    pub fn set(&mut self, name: String, val: Value)
        ensures
            final(self)@ == old(self)@.set(name@, val@),
    {
        proof {
            lemma_scope_data(*self);
        }
        put_entry(&mut self.data, name, val);
        proof {
            lemma_scope_data(*self);
        }
    }

    /// The binding of `name` in the nearest frame that has one.
    pub fn get(&self, name: &str) -> (r: Option<Value>)
        ensures
            some_form(r) == self@.get(name@),
        decreases self,
    {
        proof {
            lemma_scope_data(*self);
        }
        let i = find_entry(&self.data, name);
        if i < self.data.len() {
            Some(self.data[i].1.clone())
        } else {
            match &self.parent {
                Some(p) => p.get(name),
                None => None,
            }
        }
    }

    /// Rebinds `name` in the nearest frame that has it; fails, and changes
    /// nothing, when no frame has it.
    pub fn update(&mut self, name: &str, val: Value) -> (r: Result<(), EvalError>)
        ensures
            old(self)@.binds(name@) ==> r is Ok && final(self)@ == old(self)@.update(name@, val@),
            !old(self)@.binds(name@) ==> final(self)@ == old(self)@ && r is Err && r->Err_0@
                == (Fault {
                kind: ErrorKind::UndefinedSymbol,
                message: "Variable "@ + name@ + " not found for update"@,
            }),
        decreases old(self)@,
    {
        proof {
            lemma_scope_data(*self);
        }
        let i = find_entry(&self.data, name);
        if i < self.data.len() {
            self.data[i] = (owned(name), val);
            proof {
                lemma_scope_data(*self);
                assert(self@.data =~= assign(old(self)@.data, name@, val@));
            }
            Ok(())
        } else {
            match &mut self.parent {
                Some(p) => {
                    let r = p.update(name, val);
                    proof {
                        lemma_scope_data(*self);
                    }
                    r
                },
                None => Err(
                    EvalError {
                        kind: ErrorKind::UndefinedSymbol,
                        message: join3("Variable ", name, " not found for update"),
                    },
                ),
            }
        }
    }

    /// Makes `ns` the current namespace.
    pub fn set_namespace(&mut self, ns: String)
        ensures
            final(self)@ == old(self)@.set_namespace(ns@),
    {
        proof {
            lemma_scope_data(*self);
        }
        self.current_namespace = ns;
        proof {
            lemma_scope_data(*self);
        }
    }

    /// The current namespace.
    pub fn get_namespace(&self) -> (r: &str)
        ensures
            r@ == self@.current_namespace,
    {
        self.current_namespace.as_str()
    }

    /// Records `ns` as loaded.
    pub fn add_loaded_namespace(&mut self, ns: String)
        ensures
            final(self)@ == old(self)@.add_loaded_namespace(ns@),
    {
        proof {
            lemma_scope_data(*self);
        }
        let i = find_text(&self.loaded_namespaces, ns.as_str());
        if i >= self.loaded_namespaces.len() {
            proof {
                lemma_texts_push(self.loaded_namespaces@, ns);
            }
            self.loaded_namespaces.push(ns);
        }
        proof {
            lemma_scope_data(*self);
        }
    }

    /// Whether `ns` is recorded as loaded.
    pub fn is_namespace_loaded(&self, ns: &str) -> (b: bool)
        ensures
            b == self@.is_namespace_loaded(ns@),
    {
        find_text(&self.loaded_namespaces, ns) < self.loaded_namespaces.len()
    }

    /// Binds `name` in this frame: as it is where it holds a slash,
    /// qualified by the current namespace otherwise.
    pub fn set_namespaced(&mut self, name: String, val: Value)
        ensures
            final(self)@ == old(self)@.set_namespaced(name@, val@),
    {
        let key = if has_slash(name.as_str()) {
            name
        } else {
            qualify_name(self.current_namespace.as_str(), name.as_str())
        };
        self.set(key, val);
    }

    /// Lookup with namespace resolution.
    pub fn get_with_namespaces(&self, name: &str) -> (r: Option<Value>)
        ensures
            some_form(r) == self@.get_with_namespaces(name@),
    {
        if has_slash(name) {
            return self.get(name);
        }
        let own = qualify_name(self.current_namespace.as_str(), name);
        let r = self.get(own.as_str());
        if r.is_some() {
            return r;
        }
        let core = qualify_name("core", name);
        let r = self.get(core.as_str());
        if r.is_some() {
            return r;
        }
        let user = qualify_name("user", name);
        let r = self.get(user.as_str());
        if r.is_some() {
            return r;
        }
        self.get(name)
    }

    /// Lets `alias` stand for `namespace` in this frame.
    pub fn add_alias(&mut self, alias: String, namespace: String)
        ensures
            final(self)@ == old(self)@.add_alias(alias@, namespace@),
    {
        proof {
            lemma_scope_data(*self);
        }
        let i = find_pair(&self.namespace_aliases, alias.as_str());
        if i < self.namespace_aliases.len() {
            self.namespace_aliases[i] = (alias, namespace);
        } else {
            self.namespace_aliases.push((alias, namespace));
        }
        proof {
            lemma_scope_data(*self);
            assert(self@.namespace_aliases =~= assign(
                old(self)@.namespace_aliases,
                alias@,
                namespace@,
            ));
        }
    }

    /// The namespace that `alias` stands for in the nearest frame that knows it.
    pub fn resolve_alias(&self, alias: &str) -> (r: Option<&String>)
        ensures
            match r {
                Some(ns) => self@.resolve_alias(alias@) == Some(ns@),
                None => self@.resolve_alias(alias@) is None,
            },
        decreases self,
    {
        proof {
            lemma_scope_data(*self);
        }
        let i = find_pair(&self.namespace_aliases, alias);
        if i < self.namespace_aliases.len() {
            Some(&self.namespace_aliases[i].1)
        } else {
            match &self.parent {
                Some(p) => p.resolve_alias(alias),
                None => None,
            }
        }
    }

    /// Lookup that first rewrites an aliased prefix.
    pub fn get_with_aliases(&self, name: &str) -> (r: Option<Value>)
        ensures
            some_form(r) == self@.get_with_aliases(name@),
    {
        let chars = chars_of(name);
        let slash = find_char(&chars, '/');
        if slash < chars.len() {
            let prefix = string_from(&chars, 0, slash);
            match self.resolve_alias(prefix.as_str()) {
                Some(ns) => {
                    let suffix = string_from(&chars, slash + 1, chars.len());
                    let key = qualify_name(ns.as_str(), suffix.as_str());
                    return self.get(key.as_str());
                },
                None => {},
            }
        }
        self.get_with_namespaces(name)
    }

    /// What evaluating the symbol `name` finds.
    pub fn resolve(&self, name: &str) -> (r: Option<Value>)
        ensures
            some_form(r) == self@.resolve(name@),
    {
        let r = self.get(name);
        if r.is_some() {
            r
        } else {
            self.get_with_aliases(name)
        }
    }

    /// The bindings whose key begins with `namespace` and a slash, this
    /// frame's first, then the parents'.
    pub fn get_namespace_functions(&self, namespace: &str) -> (r: Vec<(String, Value)>)
        ensures
            entries(r@) == self@.namespace_functions(namespace@),
        decreases self,
    {
        proof {
            lemma_scope_data(*self);
            reveal_strlit("/");
            assert("/"@ =~= seq!['/']);
        }
        let prefix = chars_of(join2(namespace, "/").as_str());
        let mut out: Vec<(String, Value)> = Vec::new();
        let mut i: usize = 0;
        assert(self.data@.take(0) =~= Seq::empty());
        assert(entries(Seq::<(String, Value)>::empty()) =~= Seq::empty());
        while i < self.data.len()
            invariant
                i <= self.data.len(),
                prefix@ == namespace@ + seq!['/'],
                entries(out@) == with_prefix(entries(self.data@.take(i as int)), prefix@),
            decreases self.data.len() - i,
        {
            let key = chars_of(self.data[i].0.as_str());
            proof {
                let before = entries(self.data@.take(i as int));
                let now = entries(self.data@.take(i + 1));
                assert(now.drop_last() =~= before);
                assert(now.last() == (self.data@[i as int].0@, self.data@[i as int].1@));
            }
            if starts_with(&key, &prefix) {
                let item = (self.data[i].0.clone(), self.data[i].1.clone());
                proof {
                    lemma_entries_push(out@, item);
                }
                out.push(item);
            }
            i += 1;
        }
        assert(self.data@.take(self.data@.len() as int) =~= self.data@);
        match &self.parent {
            Some(p) => {
                let mut rest = p.get_namespace_functions(namespace);
                let ghost own = out@;
                let ghost tail = rest@;
                out.append(&mut rest);
                assert(entries(out@) =~= entries(own) + entries(tail));
            },
            None => {},
        }
        out
    }
}

/// Whether `s` begins with `prefix`.
pub fn starts_with(s: &Vec<char>, prefix: &Vec<char>) -> (b: bool)
    ensures
        b == prefix@.is_prefix_of(s@),
{
    if prefix.len() > s.len() {
        return false;
    }
    let mut i: usize = 0;
    while i < prefix.len()
        invariant
            i <= prefix.len() <= s.len(),
            forall|j: int| 0 <= j < i ==> s@[j] == prefix@[j],
        decreases prefix.len() - i,
    {
        if s[i] != prefix[i] {
            assert(!(prefix@ =~= s@.subrange(0, prefix@.len() as int)));
            return false;
        }
        i += 1;
    }
    assert(prefix@ =~= s@.subrange(0, prefix@.len() as int));
    true
}

} // verus!
