//! Mapped access into the tree: the navigation steps a binding is made of,
//! the read-side navigation over model and state, and the per-field mapping
//! descriptor the code-generation layer supplies.
//!
//! A [`Seg`] is one step from a parent to a child: into a record field (by
//! position), into a list element (by index), or through an optional into
//! its inner value.  Stepping through an optional reads the inner value
//! whether or not it is present: for an absent optional that inner value is
//! the transient default the engine maintains there.

use vstd::prelude::*;
use crate::model::{Model, ModelView, StateNode, StateView};

verus! {

/// The stateless descriptor for one record field: its name (one path
/// segment of a binding's composed name) and its position in the record.
/// Descriptors are produced mechanically, one per field, by the consumer's
/// code-generation layer; the engine only navigates by them.
#[derive(Clone, Copy, Debug)]
pub struct Mapping {
    pub name: &'static str,
    pub index: usize,
}

/// One navigation step from a parent value to one of its children.
#[derive(Clone, Copy, Debug)]
pub enum Seg {
    /// Into the record field at this position.
    Child(usize),
    /// Into the list element at this index.
    Item(usize),
    /// Through an optional, into its inner value.
    Inner,
}

/// The model subtree that `path[k..]` leads to, if the path fits the tree.
pub open spec fn model_at(m: ModelView, path: Seq<Seg>, k: int) -> Option<ModelView>
    decreases path.len() - k,
{
    if k < 0 || k >= path.len() {
        Option::Some(m)
    } else {
        match path[k] {
            Seg::Child(i) => {
                if m is Record && i < m->Record_0.len() {
                    model_at(m->Record_0[i as int].value, path, k + 1)
                } else {
                    Option::None
                }
            },
            Seg::Item(i) => {
                if m is List && i < m->List_0.len() {
                    model_at(m->List_0[i as int], path, k + 1)
                } else {
                    Option::None
                }
            },
            Seg::Inner => {
                if m is Optional {
                    model_at(*m->Optional_1, path, k + 1)
                } else {
                    Option::None
                }
            },
        }
    }
}

/// The state subtree that `path[k..]` leads to.  The model is walked along
/// to bound list indices by the model's length; an optional's state is the
/// inner value's state, so `Inner` does not move in the state tree.
pub open spec fn state_at(m: ModelView, s: StateView, path: Seq<Seg>, k: int) -> Option<StateView>
    decreases path.len() - k,
{
    if k < 0 || k >= path.len() {
        Option::Some(s)
    } else {
        match path[k] {
            Seg::Child(i) => {
                if m is Record && s is Record && i < m->Record_0.len() && i
                    < s->Record_0.len() {
                    state_at(m->Record_0[i as int].value, s->Record_0[i as int], path, k + 1)
                } else {
                    Option::None
                }
            },
            Seg::Item(i) => {
                if m is List && s is List && i < m->List_0.len() && i
                    < s->List_0.current.len() {
                    state_at(m->List_0[i as int], s->List_0.current[i as int], path, k + 1)
                } else {
                    Option::None
                }
            },
            Seg::Inner => {
                if m is Optional {
                    state_at(*m->Optional_1, s, path, k + 1)
                } else {
                    Option::None
                }
            },
        }
    }
}

/// Reads the model subtree at `path[k..]`.
pub fn model_at_ref<'a>(m: &'a Model, path: &Vec<Seg>, k: usize) -> (r: Option<&'a Model>)
    requires
        k <= path@.len(),
    ensures
        r is Some <==> model_at(m@, path@, k as int) is Some,
        r is Some ==> r->0@ == model_at(m@, path@, k as int)->0,
    decreases path@.len() - k,
{
    if k == path.len() {
        return Option::Some(m);
    }
    match path[k] {
        Seg::Child(i) => {
            match m {
                Model::Record(es) => {
                    proof {
                        crate::model::lemma_entries_view_len(es@, 0);
                    }
                    if i < es.len() {
                        model_at_ref(&es[i].value, path, k + 1)
                    } else {
                        Option::None
                    }
                },
                _ => Option::None,
            }
        },
        Seg::Item(i) => {
            match m {
                Model::List(items) => {
                    proof {
                        crate::model::lemma_models_view_len(items@, 0);
                    }
                    if i < items.len() {
                        model_at_ref(&items[i], path, k + 1)
                    } else {
                        Option::None
                    }
                },
                _ => Option::None,
            }
        },
        Seg::Inner => {
            match m {
                Model::Optional(_, inner) => model_at_ref(inner, path, k + 1),
                _ => Option::None,
            }
        },
    }
}

/// Reads the state subtree at `path[k..]`, walking the model along.
pub fn state_at_ref<'a>(m: &'a Model, s: &'a StateNode, path: &Vec<Seg>, k: usize) -> (r: Option<
    &'a StateNode,
>)
    requires
        k <= path@.len(),
    ensures
        r is Some <==> state_at(m@, s@, path@, k as int) is Some,
        r is Some ==> r->0@ == state_at(m@, s@, path@, k as int)->0,
    decreases path@.len() - k,
{
    if k == path.len() {
        return Option::Some(s);
    }
    match path[k] {
        Seg::Child(i) => {
            match (m, s) {
                (Model::Record(es), StateNode::Record(ch)) => {
                    proof {
                        crate::model::lemma_entries_view_len(es@, 0);
                        crate::model::lemma_states_view_points(ch@, 0);
                    }
                    if i < es.len() && i < ch.len() {
                        state_at_ref(&es[i].value, &ch[i], path, k + 1)
                    } else {
                        Option::None
                    }
                },
                _ => Option::None,
            }
        },
        Seg::Item(i) => {
            match (m, s) {
                (Model::List(items), StateNode::List(vs)) => {
                    proof {
                        crate::model::lemma_models_view_len(items@, 0);
                        crate::model::lemma_states_view_points(vs.current@, 0);
                    }
                    if i < items.len() && i < vs.current.len() {
                        state_at_ref(&items[i], &vs.current[i], path, k + 1)
                    } else {
                        Option::None
                    }
                },
                _ => Option::None,
            }
        },
        Seg::Inner => {
            match m {
                Model::Optional(_, inner) => state_at_ref(inner, s, path, k + 1),
                _ => Option::None,
            }
        },
    }
}


/// Copies a path segment by segment.
pub fn clone_path(path: &Vec<Seg>) -> (r: Vec<Seg>)
    ensures
        r@ == path@,
{
    let mut r: Vec<Seg> = Vec::new();
    let mut k: usize = 0;
    while k < path.len()
        invariant
            k <= path@.len(),
            r@ == path@.take(k as int),
        decreases path@.len() - k,
    {
        r.push(path[k]);
        proof {
            assert(r@ =~= path@.take(k as int + 1));
        }
        k += 1;
    }
    proof {
        assert(path@.take(path@.len() as int) =~= path@);
    }
    r
}


/// Navigation is total on well-formed trees: a path leads to a model
/// subtree exactly when it leads to a state subtree, and the two fit each
/// other (the state-length laws make every model-valid list index
/// state-valid).
pub proof fn lemma_nav_total(m: ModelView, s: StateView, path: Seq<Seg>, k: int)
    requires
        0 <= k <= path.len(),
        crate::model::state_ok(m, s),
    ensures
        model_at(m, path, k) is Some <==> state_at(m, s, path, k) is Some,
        state_at(m, s, path, k) is Some ==> crate::model::state_ok(
            model_at(m, path, k)->0,
            state_at(m, s, path, k)->0,
        ),
    decreases path.len() - k,
{
    if k < path.len() {
        match path[k] {
            Seg::Child(i) => {
                if m is Record && i < m->Record_0.len() {
                    crate::model::lemma_entries_ok_at(m->Record_0, s->Record_0, 0, i as int);
                    lemma_nav_total(
                        m->Record_0[i as int].value,
                        s->Record_0[i as int],
                        path,
                        k + 1,
                    );
                }
            },
            Seg::Item(i) => {
                if m is List && i < m->List_0.len() {
                    crate::model::lemma_models_ok_at(
                        m->List_0,
                        s->List_0.current,
                        0,
                        i as int,
                    );
                    lemma_nav_total(m->List_0[i as int], s->List_0.current[i as int], path, k + 1);
                }
            },
            Seg::Inner => {
                if m is Optional {
                    lemma_nav_total(*m->Optional_1, s, path, k + 1);
                }
            },
        }
    }
}

} // verus!
