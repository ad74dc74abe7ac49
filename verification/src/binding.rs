//! The cloneable, path-named read handle into one node of a session's tree.
//!
//! A binding holds no alias into the tree: it is a path, a composed name, a
//! session token, and the generation it was derived at.  Reads go through
//! the [`Root`] it was derived from.  Two bindings are equal exactly when
//! their names are equal and both are still valid — derived at the current
//! generation of the current session; any observable mutation therefore
//! makes every older binding compare unequal until the next render pass
//! derives fresh ones.

use vstd::prelude::*;
use vstd::string::StringExecFns;
use crate::model::{Model, StateNode};
use crate::modifier::Modifier;
use crate::root::{Root, RootView};
use crate::state_model::{clone_path, Mapping, Seg};
use crate::text::{dec_chars, str_eq, u64_to_text};

verus! {

/// The mathematical content of a [`Binding`].
pub ghost struct BindingView {
    pub path: Seq<Seg>,
    pub name: Seq<char>,
    pub valid_generation: u64,
    pub session: u64,
}

/// A named read handle on one node of a session's tree.
#[derive(Debug)]
pub struct Binding {
    path: Vec<Seg>,
    name: String,
    valid_generation: u64,
    session: u64,
}

impl View for Binding {
    type V = BindingView;

    closed spec fn view(&self) -> BindingView {
        BindingView {
            path: self.path@,
            name: self.name@,
            valid_generation: self.valid_generation,
            session: self.session,
        }
    }
}

/// The equality contract: names equal, both bindings from the root's
/// session, and both derived at the root's current generation (that is,
/// nothing observable has changed since either was derived).
pub open spec fn spec_equals(a: BindingView, b: BindingView, r: RootView) -> bool {
    &&& a.name == b.name
    &&& a.session == r.session
    &&& b.session == r.session
    &&& r.generation <= a.valid_generation
    &&& r.generation <= b.valid_generation
}

impl Binding {
    /// The binding for a session's root value, under the given root name.
    pub fn root_binding(root: &Root, name: String) -> (r: Binding)
        ensures
            r@ == (BindingView {
                path: Seq::empty(),
                name: name@,
                valid_generation: root@.generation,
                session: root@.session,
            }),
    {
        let path: Vec<Seg> = Vec::new();
        Binding {
            path,
            name,
            valid_generation: root.generation(),
            session: root.session(),
        }
    }

    /// The dot/bracket path name of this binding.
    pub fn name(&self) -> (r: &String)
        ensures
            r@ == self@.name,
    {
        &self.name
    }

    /// A copy of this binding under a new name, which becomes the root of
    /// names derived from it.
    pub fn name_reset(&self, name: String) -> (r: Binding)
        ensures
            r@ == (BindingView { name: name@, ..self@ }),
    {
        Binding {
            path: clone_path(&self.path),
            name,
            valid_generation: self.valid_generation,
            session: self.session,
        }
    }

    /// The binding for the record field the mapping describes; its name is
    /// this binding's name, a dot, and the field's name.
    pub fn map(&self, mapping: Mapping) -> (r: Binding)
        ensures
            r@ == (BindingView {
                path: self@.path.push(Seg::Child(mapping.index)),
                name: self@.name + "."@ + mapping.name@,
                ..self@
            }),
    {
        let mut path = clone_path(&self.path);
        path.push(Seg::Child(mapping.index));
        let mut name = String::from_str(self.name.as_str());
        name.append(".");
        name.append(mapping.name);
        Binding { path, name, valid_generation: self.valid_generation, session: self.session }
    }

    /// The binding for an optional's inner value; the name is unchanged,
    /// since an optional introduces no path segment.
    pub fn map_option(&self) -> (r: Binding)
        ensures
            r@ == (BindingView { path: self@.path.push(Seg::Inner), ..self@ }),
    {
        let mut path = clone_path(&self.path);
        path.push(Seg::Inner);
        Binding {
            path,
            name: String::from_str(self.name.as_str()),
            valid_generation: self.valid_generation,
            session: self.session,
        }
    }

    /// The binding for the list element at `index`; the name is this
    /// binding's name with `[index]` appended.
    pub fn map_item(&self, index: usize) -> (r: Binding)
        ensures
            r@ == (BindingView {
                path: self@.path.push(Seg::Item(index)),
                name: self@.name + "["@ + dec_chars(index as nat) + "]"@,
                ..self@
            }),
    {
        let mut path = clone_path(&self.path);
        path.push(Seg::Item(index));
        let mut name = String::from_str(self.name.as_str());
        name.append("[");
        name.append(u64_to_text(index as u64).as_str());
        name.append("]");
        Binding { path, name, valid_generation: self.valid_generation, session: self.session }
    }

    /// Reads the model value this binding addresses.
    pub fn model<'a>(&self, root: &'a Root) -> (r: Option<&'a Model>)
        ensures
            r is Some <==> crate::state_model::model_at(root@.model, self@.path, 0) is Some,
            r is Some ==> r->0@ == crate::state_model::model_at(root@.model, self@.path, 0)->0,
    {
        root.model_at(&self.path)
    }

    /// Reads the state this binding addresses.
    pub fn state<'a>(&self, root: &'a Root) -> (r: Option<&'a StateNode>)
        ensures
            r is Some <==> crate::state_model::state_at(root@.model, root@.state, self@.path, 0)
                is Some,
            r is Some ==> r->0@ == crate::state_model::state_at(
                root@.model,
                root@.state,
                self@.path,
                0,
            )->0,
    {
        root.state_at(&self.path)
    }

    /// The write handle for the node this binding addresses.
    pub fn modifier(&self) -> (r: Modifier)
        ensures
            r@.path == self@.path,
            r@.session == self@.session,
    {
        Modifier::new(clone_path(&self.path), self.session)
    }

    /// Compares this binding against another one, against the session that
    /// produced them, per [`spec_equals`].
    pub fn equals(&self, other: &Binding, root: &Root) -> (r: bool)
        ensures
            r == spec_equals(self@, other@, root@),
    {
        str_eq(self.name.as_str(), other.name.as_str()) && self.session == root.session()
            && other.session == root.session() && root.generation() <= self.valid_generation
            && root.generation() <= other.valid_generation
    }
}

impl Clone for Binding {
    /// A clone carries the same path, name, validity and session.
    fn clone(&self) -> (r: Self)
        ensures
            r@ == self@,
    {
        Binding {
            path: clone_path(&self.path),
            name: String::from_str(self.name.as_str()),
            valid_generation: self.valid_generation,
            session: self.session,
        }
    }
}


/// A mutation that changes observable state strictly increases the
/// session's generation, and an old binding (derived before the mutation)
/// compares unequal to a binding of the same name derived after it.
pub proof fn lemma_mutation_invalidates(
    r: RootView,
    path: Seq<Seg>,
    op: crate::modifier::OpView,
    old_b: BindingView,
    new_b: BindingView,
)
    requires
        crate::root::root_wf(r),
        crate::modifier::op_wf(op),
        old_b.valid_generation <= r.generation,
        new_b.name == old_b.name,
        new_b.session == r.session,
        ({
            let (r2, ok, _taken) = crate::root::spec_root_apply(r, path, op);
            ok && r2.generation != r.generation && new_b.valid_generation == r2.generation
        }),
    ensures
        ({
            let (r2, _ok, _taken) = crate::root::spec_root_apply(r, path, op);
            r2.generation > r.generation && !spec_equals(old_b, new_b, r2) && !spec_equals(
                new_b,
                old_b,
                r2,
            )
        }),
{
    crate::modifier::lemma_apply_at_wf(r.model, r.state, path, 0, op, r.generation);
}

/// Two bindings of the same name, both derived from the same session at its
/// current generation, compare equal: a fresh render pass re-derives equal
/// bindings from unchanged state.
pub proof fn lemma_fresh_bindings_equal(a: BindingView, b: BindingView, r: RootView)
    requires
        a.name == b.name,
        a.session == r.session,
        b.session == r.session,
        a.valid_generation == r.generation,
        b.valid_generation == r.generation,
    ensures
        spec_equals(a, b, r),
{
}

/// Bindings of two different sessions never compare equal against either
/// session, whatever their names and content: each session owns its own
/// token.
pub proof fn lemma_sessions_never_equal(a: BindingView, b: BindingView, r: RootView)
    requires
        a.session != b.session,
    ensures
        !spec_equals(a, b, r),
{
}

} // verus!
