//! The root session: the one cell that owns a model tree, its shadow state
//! tree, the session's generation counter and the re-render request count.
//!
//! The host keeps one `Root` per logical session and threads it, by
//! reference, through every read and write.  Exclusive access is therefore
//! enforced at compile time; no runtime borrow flags are needed.  A host
//! re-render signal is modelled as a counter of update requests: every
//! observable state change increases it, and the host maps an increase to
//! its own scheduling primitive.

use vstd::prelude::*;
use crate::field::bump;
use crate::model::{Model, ModelView, StateNode, StateView, model_wf, spec_state_create, state_ok,
    state_create, state_inv, lemma_create_wf};
use crate::modifier::{MutOp, OpView, op_wf, opt_model_view, spec_apply_at, apply_at,
    lemma_apply_at_wf};
use crate::state_model::Seg;

verus! {

/// The mathematical content of a [`Root`].
pub ghost struct RootView {
    pub session: u64,
    pub model: ModelView,
    pub state: StateView,
    pub generation: u64,
    pub update_requests: u64,
}

/// One session's shared cell: the model, its state, and the counters.
pub struct Root {
    session: u64,
    model: Model,
    state: StateNode,
    generation: u64,
    update_requests: u64,
}

impl View for Root {
    type V = RootView;

    closed spec fn view(&self) -> RootView {
        RootView {
            session: self.session,
            model: self.model@,
            state: self.state@,
            generation: self.generation,
            update_requests: self.update_requests,
        }
    }
}

/// The root invariant: the model is well formed (absent optionals hold
/// their transient defaults) and the state tree keeps the shape and
/// list-length laws for the model.
pub open spec fn root_wf(r: RootView) -> bool {
    &&& model_wf(r.model)
    &&& state_ok(r.model, r.state)
    &&& state_inv(r.state)
}

/// What applying one operation does to a whole session: the tree changes
/// per [`spec_apply_at`], and every observable change requests a host
/// update.
pub open spec fn spec_root_apply(r: RootView, path: Seq<Seg>, op: OpView) -> (
    RootView,
    bool,
    Option<ModelView>,
) {
    let out = spec_apply_at(r.model, r.state, path, 0, op, r.generation);
    let fired = out.ok && out.c != r.generation;
    (
        RootView {
            model: out.m,
            state: out.s,
            generation: out.c,
            update_requests: if fired {
                bump(r.update_requests)
            } else {
                r.update_requests
            },
            ..r
        },
        out.ok,
        out.taken,
    )
}

impl Root {
    /// Opens a session over `model`: the state snapshot is taken with
    /// initial tracking, and both counters start at zero.  The `session`
    /// token tells this session's bindings apart from any other session's;
    /// the host passes a fresh token per session.
    pub fn new(session: u64, model: Model) -> (r: Root)
        requires
            model_wf(model@),
        ensures
            r@ == (RootView {
                session,
                model: model@,
                state: spec_state_create(model@, true, 0),
                generation: 0,
                update_requests: 0,
            }),
            root_wf(r@),
    {
        let state = state_create(&model, true, 0);
        proof {
            lemma_create_wf(model@, true, 0);
        }
        Root { session, model, state, generation: 0, update_requests: 0 }
    }

    /// Re-initialises the session with a new model (the host does this when
    /// its dependency key changes): the generation is increased so that all
    /// older bindings compare unequal, a fresh tracked state snapshot is
    /// taken, and a host update is requested.
    pub fn reinit(&mut self, model: Model)
        requires
            model_wf(model@),
        ensures
            final(self)@ == (RootView {
                model: model@,
                state: spec_state_create(model@, true, bump(old(self)@.generation)),
                generation: bump(old(self)@.generation),
                update_requests: bump(old(self)@.update_requests),
                ..old(self)@
            }),
            root_wf(final(self)@),
    {
        if self.generation < u64::MAX {
            self.generation = self.generation + 1;
        }
        if self.update_requests < u64::MAX {
            self.update_requests = self.update_requests + 1;
        }
        let state = state_create(&model, true, self.generation);
        proof {
            lemma_create_wf(model@, true, self.generation);
        }
        self.model = model;
        self.state = state;
    }

    /// The session token this root was opened with.
    pub fn session(&self) -> (r: u64)
        ensures
            r == self@.session,
    {
        self.session
    }

    /// The session's generation counter: the stamp of the last observable
    /// change.
    pub fn generation(&self) -> (r: u64)
        ensures
            r == self@.generation,
    {
        self.generation
    }

    /// How many host updates have been requested so far; the host re-renders
    /// whenever this grows.
    pub fn update_requests(&self) -> (r: u64)
        ensures
            r == self@.update_requests,
    {
        self.update_requests
    }

    /// The whole model tree.
    pub fn model(&self) -> (r: &Model)
        ensures
            r@ == self@.model,
    {
        &self.model
    }

    /// The whole state tree.
    pub fn state(&self) -> (r: &StateNode)
        ensures
            r@ == self@.state,
    {
        &self.state
    }

    /// Reads the model subtree at `path`.
    pub fn model_at<'a>(&'a self, path: &Vec<Seg>) -> (r: Option<&'a Model>)
        ensures
            r is Some <==> crate::state_model::model_at(self@.model, path@, 0) is Some,
            r is Some ==> r->0@ == crate::state_model::model_at(self@.model, path@, 0)->0,
    {
        crate::state_model::model_at_ref(&self.model, path, 0)
    }

    /// Reads the state subtree at `path`.
    pub fn state_at<'a>(&'a self, path: &Vec<Seg>) -> (r: Option<&'a StateNode>)
        ensures
            r is Some <==> crate::state_model::state_at(self@.model, self@.state, path@, 0)
                is Some,
            r is Some ==> r->0@ == crate::state_model::state_at(
                self@.model,
                self@.state,
                path@,
                0,
            )->0,
    {
        crate::state_model::state_at_ref(&self.model, &self.state, path, 0)
    }

    /// Applies one operation at `path`, per [`spec_root_apply`]: the walker
    /// keeps model and state in step, stamps every changed leaf, and a
    /// change requests a host update.  The session invariant is preserved.
    pub fn apply(&mut self, path: &Vec<Seg>, op: MutOp) -> (r: (bool, Option<Model>))
        requires
            root_wf(old(self)@),
            op_wf(op@),
        ensures
            ({
                let (r2, ok, taken) = spec_root_apply(old(self)@, path@, op@);
                final(self)@ == r2 && r.0 == ok && opt_model_view(r.1) == taken
            }),
            root_wf(final(self)@),
    {
        proof {
            lemma_apply_at_wf(self@.model, self@.state, path@, 0, op@, self@.generation);
        }
        let mut model = Model::Bool(false);
        let mut state = StateNode::Leaf(crate::field::Field::create(String::new(), false, 0));
        core::mem::swap(&mut model, &mut self.model);
        core::mem::swap(&mut state, &mut self.state);
        let g0 = self.generation;
        let mut counter = self.generation;
        let (m2, s2, ok, taken) = apply_at(model, state, path, 0, op, &mut counter);
        self.model = m2;
        self.state = s2;
        self.generation = counter;
        if ok && counter != g0 {
            if self.update_requests < u64::MAX {
                self.update_requests = self.update_requests + 1;
            }
        }
        (ok, taken)
    }
}

} // verus!
