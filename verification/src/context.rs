//! Binding contexts: the named slices handed to a template.

use vstd::prelude::*;
use crate::buffer::{NumericSeq, Values};

verus! {

/// One named slice.
#[derive(Clone, Debug, PartialEq, Eq)]
pub struct Binding {
    pub key: String,
    pub values: Values,
}

/// A binding as mathematics: the characters of its key and its numbers.
pub struct BindingView {
    pub key: Seq<char>,
    pub values: NumericSeq,
}

impl View for Binding {
    type V = BindingView;

    open spec fn view(&self) -> BindingView {
        BindingView { key: self.key@, values: self.values@ }
    }
}

/// The bindings of one tensor, in the order in which they were made. Where a
/// key occurs more than once, the binding made last is the one that counts.
#[derive(Clone, Debug, PartialEq, Eq)]
pub struct BindingContext {
    pub bindings: Vec<Binding>,
}

impl View for BindingContext {
    type V = Seq<BindingView>;

    open spec fn view(&self) -> Seq<BindingView> {
        Seq::new(self.bindings@.len(), |i: int| self.bindings@[i]@)
    }
}

/// The position of the binding that counts for `key`: the last one with that
/// key, if there is one.
pub open spec fn position_of(bindings: Seq<BindingView>, key: Seq<char>) -> Option<int>
    decreases bindings.len(),
{
    if bindings.len() == 0 {
        None
    } else if bindings.last().key == key {
        Some(bindings.len() - 1)
    } else {
        position_of(bindings.drop_last(), key)
    }
}

/// The context read as a mapping from keys to slices.
pub open spec fn as_mapping(bindings: Seq<BindingView>) -> Map<Seq<char>, NumericSeq>
    decreases bindings.len(),
{
    if bindings.len() == 0 {
        Map::empty()
    } else {
        as_mapping(bindings.drop_last()).insert(bindings.last().key, bindings.last().values)
    }
}

impl BindingContext {
    /// The context without bindings.
    pub fn new() -> (context: BindingContext)
        ensures
            context@ == Seq::<BindingView>::empty(),
    {
        let context = BindingContext { bindings: Vec::new() };
        assert(context@ =~= Seq::<BindingView>::empty());
        context
    }

    /// Adds a binding. It takes the place of an earlier one with the same
    /// key.
    pub fn insert(&mut self, key: String, values: Values)
        ensures
            final(self)@ == old(self)@.push(BindingView { key: key@, values: values@ }),
    {
        self.bindings.push(Binding { key, values });
        assert(self@ =~= old(self)@.push(BindingView { key: key@, values: values@ }));
    }

    /// The number of bindings made.
    pub fn len(&self) -> (n: usize)
        ensures
            n == self@.len(),
    {
        self.bindings.len()
    }

    /// Whether no binding was made.
    pub fn is_empty(&self) -> (empty: bool)
        ensures
            empty == (self@.len() == 0),
    {
        self.bindings.len() == 0
    }

    /// The slice bound to `key`, if any.
    pub fn get(&self, key: &str) -> (found: Option<&Values>)
        ensures
            match found {
                Some(values) => as_mapping(self@).contains_key(key@) && values@ == as_mapping(
                    self@,
                )[key@],
                None => !as_mapping(self@).contains_key(key@),
            },
    {
        let wanted = key.to_owned();
        let mut at: usize = self.bindings.len();
        assert(self@.take(at as int) =~= self@);
        while at > 0
            invariant
                at <= self.bindings@.len(),
                wanted@ == key@,
                position_of(self@, key@) == position_of(self@.take(at as int), key@),
            decreases at,
        {
            at = at - 1;
            proof {
                let upto = self@.take(at as int + 1);
                assert(upto.last() == self@[at as int]);
                assert(upto.drop_last() =~= self@.take(at as int));
            }
            if self.bindings[at].key == wanted {
                proof {
                    lemma_position_of(self@, key@);
                }
                return Some(&self.bindings[at].values);
            }
        }
        proof {
            assert(self@.take(0) =~= Seq::<BindingView>::empty());
            lemma_position_of(self@, key@);
        }
        None
    }
}

/// The mapping holds a key exactly when a binding has it, and then holds the
/// slice of the last such binding.
pub proof fn lemma_position_of(bindings: Seq<BindingView>, key: Seq<char>)
    ensures
        match position_of(bindings, key) {
            Some(at) => 0 <= at < bindings.len() && bindings[at].key == key && as_mapping(
                bindings,
            ).contains_key(key) && as_mapping(bindings)[key] == bindings[at].values,
            None => !as_mapping(bindings).contains_key(key),
        },
    decreases bindings.len(),
{
    if bindings.len() > 0 {
        lemma_position_of(bindings.drop_last(), key);
    }
}

/// The bindings of one tensor under the outer path that sets them apart from
/// those of other tensors.
#[derive(Clone, Debug, PartialEq, Eq)]
pub struct Namespace {
    pub path: String,
    pub bindings: BindingContext,
}

/// A namespace as mathematics: the characters of its path and its bindings.
pub struct NamespaceView {
    pub path: Seq<char>,
    pub bindings: Seq<BindingView>,
}

impl View for Namespace {
    type V = NamespaceView;

    open spec fn view(&self) -> NamespaceView {
        NamespaceView { path: self.path@, bindings: self.bindings@ }
    }
}

/// All that a template is rendered against: the namespaces of the tensors,
/// in the order in which they came. Where a path occurs more than once, the
/// namespace that came last is the one that counts.
#[derive(Clone, Debug, PartialEq, Eq)]
pub struct TemplateContext {
    pub namespaces: Vec<Namespace>,
}

impl View for TemplateContext {
    type V = Seq<NamespaceView>;

    open spec fn view(&self) -> Seq<NamespaceView> {
        Seq::new(self.namespaces@.len(), |i: int| self.namespaces@[i]@)
    }
}

/// The context read as a mapping from outer paths to mappings from keys to
/// slices.
pub open spec fn as_tree(namespaces: Seq<NamespaceView>) -> Map<
    Seq<char>,
    Map<Seq<char>, NumericSeq>,
>
    decreases namespaces.len(),
{
    if namespaces.len() == 0 {
        Map::empty()
    } else {
        as_tree(namespaces.drop_last()).insert(
            namespaces.last().path,
            as_mapping(namespaces.last().bindings),
        )
    }
}

impl TemplateContext {
    /// The context without namespaces.
    pub fn new() -> (context: TemplateContext)
        ensures
            context@ == Seq::<NamespaceView>::empty(),
    {
        let context = TemplateContext { namespaces: Vec::new() };
        assert(context@ =~= Seq::<NamespaceView>::empty());
        context
    }

    /// Adds the bindings of one tensor under `path`. They take the place of
    /// what an earlier tensor put under the same path.
    pub fn insert(&mut self, path: String, bindings: BindingContext)
        ensures
            final(self)@ == old(self)@.push(NamespaceView { path: path@, bindings: bindings@ }),
    {
        self.namespaces.push(Namespace { path, bindings });
        assert(self@ =~= old(self)@.push(NamespaceView { path: path@, bindings: bindings@ }));
    }

    /// The number of namespaces added.
    pub fn len(&self) -> (n: usize)
        ensures
            n == self@.len(),
    {
        self.namespaces.len()
    }

    /// The bindings under `path`, if any.
    pub fn get(&self, path: &str) -> (found: Option<&BindingContext>)
        ensures
            match found {
                Some(bindings) => as_tree(self@).contains_key(path@) && as_mapping(bindings@)
                    == as_tree(self@)[path@],
                None => !as_tree(self@).contains_key(path@),
            },
    {
        let wanted = path.to_owned();
        let mut at: usize = self.namespaces.len();
        assert(self@.take(at as int) =~= self@);
        while at > 0
            invariant
                at <= self.namespaces@.len(),
                wanted@ == path@,
                namespace_of(self@, path@) == namespace_of(self@.take(at as int), path@),
            decreases at,
        {
            at = at - 1;
            proof {
                let upto = self@.take(at as int + 1);
                assert(upto.last() == self@[at as int]);
                assert(upto.drop_last() =~= self@.take(at as int));
            }
            if self.namespaces[at].path == wanted {
                proof {
                    lemma_namespace_of(self@, path@);
                }
                return Some(&self.namespaces[at].bindings);
            }
        }
        proof {
            assert(self@.take(0) =~= Seq::<NamespaceView>::empty());
            lemma_namespace_of(self@, path@);
        }
        None
    }
}

/// The position of the namespace that counts for `path`: the last one with
/// that path, if there is one.
pub open spec fn namespace_of(namespaces: Seq<NamespaceView>, path: Seq<char>) -> Option<int>
    decreases namespaces.len(),
{
    if namespaces.len() == 0 {
        None
    } else if namespaces.last().path == path {
        Some(namespaces.len() - 1)
    } else {
        namespace_of(namespaces.drop_last(), path)
    }
}

/// The tree holds a path exactly when a namespace has it, and then holds the
/// bindings of the last such namespace.
pub proof fn lemma_namespace_of(namespaces: Seq<NamespaceView>, path: Seq<char>)
    ensures
        match namespace_of(namespaces, path) {
            Some(at) => 0 <= at < namespaces.len() && namespaces[at].path == path && as_tree(
                namespaces,
            ).contains_key(path) && as_tree(namespaces)[path] == as_mapping(
                namespaces[at].bindings,
            ),
            None => !as_tree(namespaces).contains_key(path),
        },
    decreases namespaces.len(),
{
    if namespaces.len() > 0 {
        lemma_namespace_of(namespaces.drop_last(), path);
    }
}

} // verus!
