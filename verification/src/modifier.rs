//! Write access to the tree: the mutation operations a modifier can apply
//! at the end of a path, their exact specification, and the walker that
//! carries one operation from the root to its target while keeping model
//! and state in step.
//!
//! Walking through an optional for a mutation inserts a present value on
//! demand (get-or-insert): the inner value is already the transient default,
//! so the walker only flips the presence flag.

use vstd::prelude::*;
use vstd::string::StringExecFns;
use crate::field::{Dirty, Field, FieldView, opt_text_view, spec_field_set_error, spec_field_set_message,
    spec_field_set_value};
use crate::model::{Entry, EntryView, Model, ModelView, StateNode, StateView, VecState,
    VecStateView, is_scalar, lemma_entries_view_len, lemma_entries_view_update,
    lemma_models_view_len, lemma_models_view_push, lemma_models_view_remove,
    lemma_models_view_update, lemma_states_view_points, model_view, scalar_text, scalar_to_text, entries_view_from,
    states_view_from, models_view_from,
    spec_default_like, spec_state_update, state_update, default_like, model_wf,
    entries_wf, models_wf, default_entries_from, entries_ok, models_ok, state_ok, state_inv,
    lemma_all_inv_iff, state_dirty};
use crate::state_model::Seg;
use crate::text::str_eq;
use crate::text::{bool_chars, is_i64_text, is_u64_text, digits_val, i64_text_val, parse_bool,
    parse_char, parse_i64, parse_u64};

verus! {

/// One mutation, to be applied at the end of a path.
pub enum MutOp {
    /// Parse raw text against the leaf's scalar kind; on success write the
    /// parsed value and the text, on failure record a parse error.
    SetText(String),
    /// Write a scalar value directly and resync the leaf's text.
    SetScalar(Model),
    /// Remove and return an optional's value, resetting it to absent.
    OptTake,
    /// Install an optional's value, returning the previous one.
    OptReplace(Model),
    /// Append a value to a list.
    ListPush(Model),
    /// Remove the list element at this index.
    ListRemove(usize),
    /// Store a validation message on a leaf (a no-op elsewhere).
    SetMessage(Option<String>),
    /// Replace a leaf's initial snapshot (a no-op elsewhere).
    SetInitial(Option<String>),
    /// Replace the whole subtree's model and resynchronise its state.
    ReplaceModel(Model),
}

/// The mathematical content of a [`MutOp`].
pub ghost enum OpView {
    SetText(Seq<char>),
    SetScalar(ModelView),
    OptTake,
    OptReplace(ModelView),
    ListPush(ModelView),
    ListRemove(usize),
    SetMessage(Option<Seq<char>>),
    SetInitial(Option<Seq<char>>),
    ReplaceModel(ModelView),
}

impl View for MutOp {
    type V = OpView;

    open spec fn view(&self) -> OpView {
        match *self {
            MutOp::SetText(t) => OpView::SetText(t@),
            MutOp::SetScalar(v) => OpView::SetScalar(v@),
            MutOp::OptTake => OpView::OptTake,
            MutOp::OptReplace(v) => OpView::OptReplace(v@),
            MutOp::ListPush(v) => OpView::ListPush(v@),
            MutOp::ListRemove(i) => OpView::ListRemove(i),
            MutOp::SetMessage(t) => OpView::SetMessage(opt_text_view(t)),
            MutOp::SetInitial(t) => OpView::SetInitial(opt_text_view(t)),
            MutOp::ReplaceModel(v) => OpView::ReplaceModel(v@),
        }
    }
}

/// Whether two scalar leaves are of the same kind.
pub open spec fn same_kind(a: ModelView, b: ModelView) -> bool {
    ||| (a is Bool && b is Bool)
    ||| (a is Uint && b is Uint)
    ||| (a is Int && b is Int)
    ||| (a is Text && b is Text)
    ||| (a is Char && b is Char)
}

/// The name of a scalar leaf's kind, as used in parse-error messages.
pub open spec fn kind_text(m: ModelView) -> Seq<char> {
    match m {
        ModelView::Bool(_) => "bool"@,
        ModelView::Uint(_) => "u64"@,
        ModelView::Int(_) => "i64"@,
        ModelView::Text(_) => "text"@,
        ModelView::Char(_) => "char"@,
        _ => Seq::empty(),
    }
}

/// The parse-error message for a text that does not denote a value of the
/// leaf's kind: it names the offending text and the target kind.
pub open spec fn invalid_value_text(t: Seq<char>, kind: Seq<char>) -> Seq<char> {
    "Invalid value '"@ + t + "' for type "@ + kind
}

/// What parsing `t` against the kind of scalar `m` yields: a scalar of the
/// same kind, or nothing when the text does not denote one.
pub open spec fn parse_scalar(m: ModelView, t: Seq<char>) -> Option<ModelView> {
    match m {
        ModelView::Bool(_) => {
            if t == bool_chars(true) {
                Option::Some(ModelView::Bool(true))
            } else if t == bool_chars(false) {
                Option::Some(ModelView::Bool(false))
            } else {
                Option::None
            }
        },
        ModelView::Uint(_) => {
            if is_u64_text(t) {
                Option::Some(ModelView::Uint(digits_val(t) as u64))
            } else {
                Option::None
            }
        },
        ModelView::Int(_) => {
            if is_i64_text(t) {
                Option::Some(ModelView::Int(i64_text_val(t) as i64))
            } else {
                Option::None
            }
        },
        ModelView::Text(_) => Option::Some(ModelView::Text(t)),
        ModelView::Char(_) => {
            if t.len() == 1 {
                Option::Some(ModelView::Char(t[0]))
            } else {
                Option::None
            }
        },
        _ => Option::None,
    }
}

/// Parses `t` against the kind of the scalar leaf `m`.
pub fn parse_scalar_exec(m: &Model, t: &str) -> (r: Option<Model>)
    requires
        is_scalar(m@),
    ensures
        r is Some <==> parse_scalar(m@, t@) is Some,
        r is Some ==> r->0@ == parse_scalar(m@, t@)->0,
{
    match m {
        Model::Bool(_) => {
            match parse_bool(t) {
                Option::Some(b) => {
                    proof {
                        if b {
                            assert(t@ == bool_chars(true));
                        } else {
                            assert(t@ == bool_chars(false));
                        }
                    }
                    let r = Model::Bool(b);
                    proof {
                        assert(r@ == parse_scalar(m@, t@)->0);
                    }
                    Option::Some(r)
                },
                Option::None => Option::None,
            }
        },
        Model::Uint(_) => {
            match parse_u64(t) {
                Option::Some(n) => {
                    let r = Model::Uint(n);
                    proof {
                        assert(r@ == parse_scalar(m@, t@)->0);
                    }
                    Option::Some(r)
                },
                Option::None => Option::None,
            }
        },
        Model::Int(_) => {
            match parse_i64(t) {
                Option::Some(n) => {
                    let r = Model::Int(n);
                    proof {
                        assert(r@ == parse_scalar(m@, t@)->0);
                    }
                    Option::Some(r)
                },
                Option::None => Option::None,
            }
        },
        Model::Text(_) => {
            let r = Model::Text(String::from_str(t));
            proof {
                assert(r@ == parse_scalar(m@, t@)->0);
            }
            Option::Some(r)
        },
        Model::Char(_) => {
            let len = t.unicode_len();
            if len == 1 {
                let c = t.get_char(0);
                let r = Model::Char(c);
                proof {
                    assert(r@ == ModelView::Char(c));
                    assert(r@ == parse_scalar(m@, t@)->0);
                }
                Option::Some(r)
            } else {
                Option::None
            }
        },
        _ => {
            proof {
                assert(false);
            }
            Option::None
        },
    }
}

fn kind_text_exec(m: &Model) -> (r: &'static str)
    requires
        is_scalar(m@),
    ensures
        r@ == kind_text(m@),
{
    match m {
        Model::Bool(_) => "bool",
        Model::Uint(_) => "u64",
        Model::Int(_) => "i64",
        Model::Text(_) => "text",
        Model::Char(_) => "char",
        _ => {
            proof {
                assert(false);
            }
            ""
        },
    }
}

fn invalid_value_exec(t: &str, kind: &'static str) -> (r: String)
    ensures
        r@ == invalid_value_text(t@, kind@),
{
    let mut s = String::from_str("Invalid value '");
    s.append(t);
    s.append("' for type ");
    s.append(kind);
    s
}

/// The outcome of one mutation: the new model and state subtrees, the new
/// counter, whether the target fit the operation, and a taken value.
pub ghost struct ApplyOut {
    pub m: ModelView,
    pub s: StateView,
    pub c: u64,
    pub ok: bool,
    pub taken: Option<ModelView>,
}

/// What one operation does at its target node.  When the target's shape
/// does not fit the operation, nothing changes and `ok` is false.
pub open spec fn spec_apply_op(m: ModelView, s: StateView, op: OpView, c: u64) -> ApplyOut {
    let unchanged = ApplyOut { m, s, c, ok: false, taken: Option::None };
    match op {
        OpView::SetText(t) => {
            if is_scalar(m) && s is Leaf {
                match parse_scalar(m, t) {
                    Option::Some(v) => {
                        let (f1, c1) = spec_field_set_value(s->Leaf_0, t, c);
                        let (f2, c2) = spec_field_set_error(f1, Option::None, c1);
                        ApplyOut {
                            m: v,
                            s: StateView::Leaf(f2),
                            c: c2,
                            ok: true,
                            taken: Option::None,
                        }
                    },
                    Option::None => {
                        let msg = invalid_value_text(t, kind_text(m));
                        let (f1, c1) = spec_field_set_error(s->Leaf_0, Option::Some(msg), c);
                        ApplyOut {
                            m,
                            s: StateView::Leaf(f1),
                            c: c1,
                            ok: true,
                            taken: Option::None,
                        }
                    },
                }
            } else {
                unchanged
            }
        },
        OpView::SetScalar(v) => {
            if is_scalar(m) && s is Leaf && same_kind(m, v) {
                let (f1, c1) = spec_field_set_value(s->Leaf_0, scalar_text(v), c);
                ApplyOut { m: v, s: StateView::Leaf(f1), c: c1, ok: true, taken: Option::None }
            } else {
                unchanged
            }
        },
        OpView::OptTake => {
            if m is Optional {
                let taken = if m->Optional_0 {
                    Option::Some(*m->Optional_1)
                } else {
                    Option::None
                };
                let m2 = ModelView::Optional(false, Box::new(spec_default_like(*m->Optional_1)));
                let (s2, c2) = spec_state_update(s, m2, c);
                ApplyOut { m: m2, s: s2, c: c2, ok: true, taken }
            } else {
                unchanged
            }
        },
        OpView::OptReplace(v) => {
            if m is Optional {
                let taken = if m->Optional_0 {
                    Option::Some(*m->Optional_1)
                } else {
                    Option::None
                };
                let m2 = ModelView::Optional(true, Box::new(v));
                let (s2, c2) = spec_state_update(s, m2, c);
                ApplyOut { m: m2, s: s2, c: c2, ok: true, taken }
            } else {
                unchanged
            }
        },
        OpView::ListPush(v) => {
            if m is List {
                let m2 = ModelView::List(m->List_0.push(v));
                let (s2, c2) = spec_state_update(s, m2, c);
                ApplyOut { m: m2, s: s2, c: c2, ok: true, taken: Option::None }
            } else {
                unchanged
            }
        },
        OpView::ListRemove(i) => {
            if m is List && i < m->List_0.len() {
                let m2 = ModelView::List(m->List_0.remove(i as int));
                let (s2, c2) = spec_state_update(s, m2, c);
                ApplyOut { m: m2, s: s2, c: c2, ok: true, taken: Option::None }
            } else {
                unchanged
            }
        },
        OpView::SetMessage(t) => {
            if s is Leaf {
                let (f1, c1) = spec_field_set_message(s->Leaf_0, t, c);
                ApplyOut { m, s: StateView::Leaf(f1), c: c1, ok: true, taken: Option::None }
            } else {
                ApplyOut { m, s, c, ok: true, taken: Option::None }
            }
        },
        OpView::SetInitial(t) => {
            if s is Leaf {
                let f1 = FieldView { initial: t, ..s->Leaf_0 };
                ApplyOut { m, s: StateView::Leaf(f1), c, ok: true, taken: Option::None }
            } else {
                ApplyOut { m, s, c, ok: true, taken: Option::None }
            }
        },
        OpView::ReplaceModel(v) => {
            let (s2, c2) = spec_state_update(s, v, c);
            ApplyOut { m: v, s: s2, c: c2, ok: true, taken: Option::None }
        },
    }
}

/// Carries one operation down `path[k..]` and applies it at the target: on
/// the way back the touched child is written into its parent, and walking
/// through an optional makes it present.  When the path does not fit the
/// tree, nothing changes and `ok` is false.
pub open spec fn spec_apply_at(
    m: ModelView,
    s: StateView,
    path: Seq<Seg>,
    k: int,
    op: OpView,
    c: u64,
) -> ApplyOut
    decreases path.len() - k,
{
    let unchanged = ApplyOut { m, s, c, ok: false, taken: Option::None };
    if k < 0 || k >= path.len() {
        spec_apply_op(m, s, op, c)
    } else {
        match path[k] {
            Seg::Child(i) => {
                if m is Record && s is Record && i < m->Record_0.len() && i
                    < s->Record_0.len() {
                    let es = m->Record_0;
                    let ch = s->Record_0;
                    let r = spec_apply_at(es[i as int].value, ch[i as int], path, k + 1, op, c);
                    if r.ok {
                        ApplyOut {
                            m: ModelView::Record(
                                es.update(
                                    i as int,
                                    EntryView { name: es[i as int].name, value: r.m },
                                ),
                            ),
                            s: StateView::Record(ch.update(i as int, r.s)),
                            c: r.c,
                            ok: true,
                            taken: r.taken,
                        }
                    } else {
                        unchanged
                    }
                } else {
                    unchanged
                }
            },
            Seg::Item(i) => {
                if m is List && s is List && i < m->List_0.len() && i
                    < s->List_0.current.len() {
                    let items = m->List_0;
                    let vs = s->List_0;
                    let r = spec_apply_at(items[i as int], vs.current[i as int], path, k + 1, op, c);
                    if r.ok {
                        ApplyOut {
                            m: ModelView::List(items.update(i as int, r.m)),
                            s: StateView::List(
                                VecStateView { current: vs.current.update(i as int, r.s), ..vs },
                            ),
                            c: r.c,
                            ok: true,
                            taken: r.taken,
                        }
                    } else {
                        unchanged
                    }
                } else {
                    unchanged
                }
            },
            Seg::Inner => {
                if m is Optional {
                    let r = spec_apply_at(*m->Optional_1, s, path, k + 1, op, c);
                    if r.ok {
                        ApplyOut {
                            m: ModelView::Optional(true, Box::new(r.m)),
                            s: r.s,
                            c: r.c,
                            ok: true,
                            taken: r.taken,
                        }
                    } else {
                        unchanged
                    }
                } else {
                    unchanged
                }
            },
        }
    }
}

/// The view of an optional taken value.
pub open spec fn opt_model_view(o: Option<Model>) -> Option<ModelView> {
    match o {
        Option::Some(v) => Option::Some(model_view(v)),
        Option::None => Option::None,
    }
}

/// Applies one operation at this node, per [`spec_apply_op`].
fn apply_op(m: Model, s: StateNode, op: MutOp, counter: &mut u64) -> (r: (
    Model,
    StateNode,
    bool,
    Option<Model>,
))
    ensures
        ({
            let out = spec_apply_op(m@, s@, op@, *old(counter));
            r.0@ == out.m && r.1@ == out.s && *final(counter) == out.c && r.2 == out.ok
                && opt_model_view(r.3) == out.taken
        }),
{
    match op {
        MutOp::SetText(t) => {
            match s {
                StateNode::Leaf(f) => {
                    if is_scalar_exec(&m) {
                        let mut f = f;
                        match parse_scalar_exec(&m, t.as_str()) {
                            Option::Some(v) => {
                                f.set_value(t, counter);
                                f.set_error(Option::None, counter);
                                (v, StateNode::Leaf(f), true, Option::None)
                            },
                            Option::None => {
                                let kind = kind_text_exec(&m);
                                let msg = invalid_value_exec(t.as_str(), kind);
                                f.set_error(Option::Some(msg), counter);
                                (m, StateNode::Leaf(f), true, Option::None)
                            },
                        }
                    } else {
                        (m, StateNode::Leaf(f), false, Option::None)
                    }
                },
                other => (m, other, false, Option::None),
            }
        },
        MutOp::SetScalar(v) => {
            match s {
                StateNode::Leaf(f) => {
                    if is_scalar_exec(&m) && is_scalar_exec(&v) && same_kind_exec(&m, &v) {
                        let mut f = f;
                        f.set_value(scalar_to_text(&v), counter);
                        (v, StateNode::Leaf(f), true, Option::None)
                    } else {
                        (m, StateNode::Leaf(f), false, Option::None)
                    }
                },
                other => (m, other, false, Option::None),
            }
        },
        MutOp::OptTake => {
            match m {
                Model::Optional(present, inner) => {
                    let d = default_like(&*inner);
                    let taken = if present {
                        Option::Some(*inner)
                    } else {
                        Option::None
                    };
                    let m2 = Model::Optional(false, Box::new(d));
                    let s2 = state_update(s, &m2, counter);
                    (m2, s2, true, taken)
                },
                other => (other, s, false, Option::None),
            }
        },
        MutOp::OptReplace(v) => {
            match m {
                Model::Optional(present, inner) => {
                    let taken = if present {
                        Option::Some(*inner)
                    } else {
                        Option::None
                    };
                    let m2 = Model::Optional(true, Box::new(v));
                    let s2 = state_update(s, &m2, counter);
                    (m2, s2, true, taken)
                },
                other => (other, s, false, Option::None),
            }
        },
        MutOp::ListPush(v) => {
            match m {
                Model::List(items) => {
                    let mut items = items;
                    let ghost items0 = items@;
                    items.push(v);
                    proof {
                        lemma_models_view_push(items0, items@.last());
                    }
                    let m2 = Model::List(items);
                    let s2 = state_update(s, &m2, counter);
                    (m2, s2, true, Option::None)
                },
                other => (other, s, false, Option::None),
            }
        },
        MutOp::ListRemove(i) => {
            match m {
                Model::List(items) => {
                    proof {
                        lemma_models_view_len(items@, 0);
                    }
                    if i < items.len() {
                        let mut items = items;
                        let ghost items0 = items@;
                        let _removed = items.remove(i);
                        proof {
                            lemma_models_view_remove(items0, i as int);
                        }
                        let m2 = Model::List(items);
                        let s2 = state_update(s, &m2, counter);
                        (m2, s2, true, Option::None)
                    } else {
                        (Model::List(items), s, false, Option::None)
                    }
                },
                other => (other, s, false, Option::None),
            }
        },
        MutOp::SetMessage(t) => {
            match s {
                StateNode::Leaf(f) => {
                    let mut f = f;
                    f.set_message(t, counter);
                    (m, StateNode::Leaf(f), true, Option::None)
                },
                other => (m, other, true, Option::None),
            }
        },
        MutOp::SetInitial(t) => {
            match s {
                StateNode::Leaf(f) => {
                    let mut f = f;
                    f.set_initial(t);
                    (m, StateNode::Leaf(f), true, Option::None)
                },
                other => (m, other, true, Option::None),
            }
        },
        MutOp::ReplaceModel(v) => {
            let s2 = state_update(s, &v, counter);
            (v, s2, true, Option::None)
        },
    }
}

/// Whether two scalar leaves are of the same kind.
pub fn same_kind_exec(a: &Model, b: &Model) -> (r: bool)
    ensures
        r == same_kind(a@, b@),
{
    match (a, b) {
        (Model::Bool(_), Model::Bool(_)) => true,
        (Model::Uint(_), Model::Uint(_)) => true,
        (Model::Int(_), Model::Int(_)) => true,
        (Model::Text(_), Model::Text(_)) => true,
        (Model::Char(_), Model::Char(_)) => true,
        _ => false,
    }
}

/// Whether a model value is a scalar leaf.
pub fn is_scalar_exec(m: &Model) -> (r: bool)
    ensures
        r == is_scalar(m@),
{
    match m {
        Model::Bool(_) => true,
        Model::Uint(_) => true,
        Model::Int(_) => true,
        Model::Text(_) => true,
        Model::Char(_) => true,
        _ => false,
    }
}

/// Carries one operation down `path[k..]` and applies it at the target, per
/// [`spec_apply_at`].
#[verifier::rlimit(100)]
pub fn apply_at(m: Model, s: StateNode, path: &Vec<Seg>, k: usize, op: MutOp, counter: &mut u64)
    -> (r: (Model, StateNode, bool, Option<Model>))
    requires
        k <= path@.len(),
    ensures
        ({
            let out = spec_apply_at(
                m@,
                s@,
                path@,
                k as int,
                op@,
                *old(counter),
            );
            r.0@ == out.m && r.1@ == out.s && *final(counter) == out.c && r.2 == out.ok
                && opt_model_view(r.3) == out.taken
        }),
    decreases path@.len() - k,
{
    let ghost c0 = *counter;
    let ghost m0 = m@;
    let ghost s0 = s@;
    let ghost out = spec_apply_at(m@, s@, path@, k as int, op@, *counter);
    if k == path.len() {
        return apply_op(m, s, op, counter);
    }
    match path[k] {
        Seg::Child(i) => {
            match (m, s) {
                (Model::Record(es), StateNode::Record(ch)) => {
                    proof {
                        lemma_entries_view_len(es@, 0);
                        lemma_states_view_points(ch@, 0);
                    }
                    if i < es.len() && i < ch.len() {
                        let mut es = es;
                        let mut ch = ch;
                        let ghost es0 = es@;
                        let ghost ch0 = ch@;
                        let entry = es.remove(i);
                        let child_state = ch.remove(i);
                        let name = entry.name;
                        let (m2, s2, ok, taken) = apply_at(
                            entry.value,
                            child_state,
                            path,
                            k + 1,
                            op,
                            counter,
                        );
                        es.insert(i, Entry { name, value: m2 });
                        ch.insert(i, s2);
                        proof {
                            assert(es@ =~= es0.update(i as int, es@[i as int]));
                            assert(ch@ =~= ch0.update(i as int, ch@[i as int]));
                            lemma_entries_view_update(es0, i as int, es@[i as int]);
                            crate::model::lemma_states_view_update(ch0, i as int, ch@[i as int]);
                            assert(m0 == ModelView::Record(entries_view_from(es0, 0)));
                            assert(s0 == StateView::Record(states_view_from(ch0, 0)));
                            let rsub = spec_apply_at(
                                entries_view_from(es0, 0)[i as int].value,
                                states_view_from(ch0, 0)[i as int],
                                path@,
                                k as int + 1,
                                op@,
                                c0,
                            );
                            if rsub.ok {
                                assert(out.m == ModelView::Record(
                                    entries_view_from(es0, 0).update(
                                        i as int,
                                        EntryView {
                                            name: entries_view_from(es0, 0)[i as int].name,
                                            value: rsub.m,
                                        },
                                    ),
                                ));
                            } else {
                                assert(entries_view_from(es0, 0).update(
                                    i as int,
                                    EntryView {
                                        name: entries_view_from(es0, 0)[i as int].name,
                                        value: rsub.m,
                                    },
                                ) =~= entries_view_from(es0, 0));
                                assert(states_view_from(ch0, 0).update(i as int, rsub.s)
                                    =~= states_view_from(ch0, 0));
                            }
                        }
                        (Model::Record(es), StateNode::Record(ch), ok, taken)
                    } else {
                        (Model::Record(es), StateNode::Record(ch), false, Option::None)
                    }
                },
                (m_other, s_other) => (m_other, s_other, false, Option::None),
            }
        },
        Seg::Item(i) => {
            match (m, s) {
                (Model::List(items), StateNode::List(vs)) => {
                    proof {
                        lemma_models_view_len(items@, 0);
                        lemma_states_view_points(vs.current@, 0);
                    }
                    if i < items.len() && i < vs.current.len() {
                        let mut items = items;
                        let mut vs = vs;
                        let ghost items0 = items@;
                        let ghost cur0 = vs.current@;
                        let item = items.remove(i);
                        let child_state = vs.current.remove(i);
                        let (m2, s2, ok, taken) = apply_at(
                            item,
                            child_state,
                            path,
                            k + 1,
                            op,
                            counter,
                        );
                        items.insert(i, m2);
                        vs.current.insert(i, s2);
                        proof {
                            assert(items@ =~= items0.update(i as int, items@[i as int]));
                            assert(vs.current@ =~= cur0.update(i as int, vs.current@[i as int]));
                            lemma_models_view_update(items0, i as int, items@[i as int]);
                            crate::model::lemma_states_view_update(
                                cur0,
                                i as int,
                                vs.current@[i as int],
                            );
                            let rsub = spec_apply_at(
                                models_view_from(items0, 0)[i as int],
                                states_view_from(cur0, 0)[i as int],
                                path@,
                                k as int + 1,
                                op@,
                                c0,
                            );
                            if !rsub.ok {
                                assert(models_view_from(items0, 0).update(i as int, rsub.m)
                                    =~= models_view_from(items0, 0));
                                assert(states_view_from(cur0, 0).update(i as int, rsub.s)
                                    =~= states_view_from(cur0, 0));
                            }
                        }
                        (Model::List(items), StateNode::List(vs), ok, taken)
                    } else {
                        (Model::List(items), StateNode::List(vs), false, Option::None)
                    }
                },
                (m_other, s_other) => (m_other, s_other, false, Option::None),
            }
        },
        Seg::Inner => {
            match m {
                Model::Optional(present, inner) => {
                    let (m2, s2, ok, taken) = apply_at(*inner, s, path, k + 1, op, counter);
                    if ok {
                        (Model::Optional(true, Box::new(m2)), s2, true, taken)
                    } else {
                        (Model::Optional(present, Box::new(m2)), s2, false, taken)
                    }
                },
                m_other => (m_other, s, false, Option::None),
            }
        },
    }
}

/// Whether an operation's payload values are themselves well formed.
pub open spec fn op_wf(op: OpView) -> bool {
    match op {
        OpView::SetScalar(v) => model_wf(v),
        OpView::OptReplace(v) => model_wf(v),
        OpView::ListPush(v) => model_wf(v),
        OpView::ReplaceModel(v) => model_wf(v),
        _ => true,
    }
}

proof fn lemma_default_entries_wf(es: Seq<EntryView>, k: int)
    requires
        0 <= k <= es.len(),
    ensures
        entries_wf(default_entries_from(es, 0), k),
        default_entries_from(default_entries_from(es, 0), 0) =~= default_entries_from(es, 0),
    decreases es, es.len() - k,
{
    crate::model::lemma_default_entries_points(es, 0);
    let des = default_entries_from(es, 0);
    crate::model::lemma_default_entries_points(des, 0);
    if k < es.len() {
        assert(decreases_to!(es => es[k].value));
        lemma_default_wf(es[k].value);
        lemma_default_entries_wf(es, k + 1);
    } else {
        assert forall|j: int| 0 <= j < es.len() implies default_entries_from(des, 0)[j]
            == des[j] by {
            assert(decreases_to!(es => es[j].value));
            lemma_default_wf(es[j].value);
        }
    }
}

/// The default instance of any shape is well formed, and is its own default.
pub proof fn lemma_default_wf(m: ModelView)
    ensures
        model_wf(spec_default_like(m)),
        spec_default_like(spec_default_like(m)) == spec_default_like(m),
    decreases m, 1int,
{
    match m {
        ModelView::Record(es) => {
            lemma_default_entries_wf(es, 0);
        },
        ModelView::Optional(_, inner) => {
            lemma_default_wf(*inner);
        },
        ModelView::List(_) => {
            assert(models_wf(Seq::<ModelView>::empty(), 0));
        },
        _ => {},
    }
}

proof fn lemma_entries_wf_update(es: Seq<EntryView>, k: int, i: int, e2: EntryView)
    requires
        0 <= i < es.len(),
        0 <= k <= es.len(),
        entries_wf(es, k),
        model_wf(e2.value),
    ensures
        entries_wf(es.update(i, e2), k),
    decreases es.len() - k,
{
    if k < es.len() {
        lemma_entries_wf_update(es, k + 1, i, e2);
        assert(es.update(i, e2)[k] == if k == i {
            e2
        } else {
            es[k]
        });
        assert(entries_wf(es.update(i, e2), k + 1) ==> model_wf(es.update(i, e2)[k].value)
            ==> entries_wf(es.update(i, e2), k));
    }
}

proof fn lemma_models_wf_update(items: Seq<ModelView>, k: int, i: int, v2: ModelView)
    requires
        0 <= i < items.len(),
        0 <= k <= items.len(),
        models_wf(items, k),
        model_wf(v2),
    ensures
        models_wf(items.update(i, v2), k),
    decreases items.len() - k,
{
    if k < items.len() {
        lemma_models_wf_update(items, k + 1, i, v2);
        assert(items.update(i, v2)[k] == if k == i {
            v2
        } else {
            items[k]
        });
    }
}

proof fn lemma_models_wf_push(items: Seq<ModelView>, k: int, v: ModelView)
    requires
        0 <= k <= items.len(),
        models_wf(items, k),
        model_wf(v),
    ensures
        models_wf(items.push(v), k),
    decreases items.len() - k,
{
    if k < items.len() {
        lemma_models_wf_push(items, k + 1, v);
        assert(items.push(v)[k] == items[k]);
    } else {
        if k == items.len() {
            assert(items.push(v)[k] == v);
            assert(models_wf(items.push(v), k + 1));
        }
    }
}

proof fn lemma_models_wf_remove(items: Seq<ModelView>, k: int, i: int)
    requires
        0 <= i < items.len(),
        0 <= k <= items.len() - 1,
        models_wf(items, 0),
    ensures
        models_wf(items.remove(i), k),
    decreases items.len() - k,
{
    lemma_models_wf_elems(items, 0);
    if k < items.len() - 1 {
        lemma_models_wf_remove(items, k + 1, i);
        if k < i {
            assert(items.remove(i)[k] == items[k]);
        } else {
            assert(items.remove(i)[k] == items[k + 1]);
        }
    }
}

proof fn lemma_models_wf_elems(items: Seq<ModelView>, k: int)
    requires
        0 <= k <= items.len(),
        models_wf(items, k),
    ensures
        forall|j: int| k <= j < items.len() ==> model_wf(#[trigger] items[j]),
    decreases items.len() - k,
{
    if k < items.len() {
        lemma_models_wf_elems(items, k + 1);
    }
}

proof fn lemma_entries_ok_update(
    es: Seq<EntryView>,
    children: Seq<StateView>,
    k: int,
    i: int,
    e2: EntryView,
    s2: StateView,
)
    requires
        0 <= i < es.len(),
        i < children.len(),
        0 <= k <= es.len(),
        entries_ok(es, children, k),
        state_ok(e2.value, s2),
    ensures
        entries_ok(es.update(i, e2), children.update(i, s2), k),
    decreases es.len() - k,
{
    if k < es.len() {
        lemma_entries_ok_update(es, children, k + 1, i, e2, s2);
        assert(es.update(i, e2)[k] == if k == i {
            e2
        } else {
            es[k]
        });
        assert(children.update(i, s2)[k] == if k == i {
            s2
        } else {
            children[k]
        });
    }
}

proof fn lemma_models_ok_update(
    items: Seq<ModelView>,
    children: Seq<StateView>,
    k: int,
    i: int,
    v2: ModelView,
    s2: StateView,
)
    requires
        0 <= i < items.len(),
        i < children.len(),
        0 <= k <= items.len(),
        models_ok(items, children, k),
        state_ok(v2, s2),
    ensures
        models_ok(items.update(i, v2), children.update(i, s2), k),
    decreases items.len() - k,
{
    if k < items.len() {
        lemma_models_ok_update(items, children, k + 1, i, v2, s2);
        assert(items.update(i, v2)[k] == if k == i {
            v2
        } else {
            items[k]
        });
        assert(children.update(i, s2)[k] == if k == i {
            s2
        } else {
            children[k]
        });
    }
}

/// Shape-wellformedness of a leaf state does not depend on the field's
/// content, through any chain of optionals.
proof fn lemma_state_ok_leaf(m: ModelView, f1: FieldView, f2: FieldView)
    requires
        state_ok(m, StateView::Leaf(f1)),
    ensures
        state_ok(m, StateView::Leaf(f2)),
    decreases m,
{
    match m {
        ModelView::Optional(_, inner) => {
            lemma_state_ok_leaf(*inner, f1, f2);
        },
        _ => {},
    }
}

proof fn lemma_apply_op_wf(m: ModelView, s: StateView, op: OpView, c: u64)
    requires
        model_wf(m),
        state_ok(m, s),
        state_inv(s),
        op_wf(op),
    ensures
        ({
            let out = spec_apply_op(m, s, op, c);
            &&& model_wf(out.m)
            &&& state_ok(out.m, out.s)
            &&& state_inv(out.s)
            &&& c <= out.c
        }),
{
    let out = spec_apply_op(m, s, op, c);
    match op {
        OpView::OptTake => {
            if m is Optional {
                lemma_default_wf(*m->Optional_1);
                let m2 = ModelView::Optional(false, Box::new(spec_default_like(*m->Optional_1)));
                crate::model::lemma_update_wf(s, m2, c);
                assert(out.m == m2);
                assert(state_ok(out.m, out.s));
            }
        },
        OpView::OptReplace(v) => {
            if m is Optional {
                let m2 = ModelView::Optional(true, Box::new(v));
                crate::model::lemma_update_wf(s, m2, c);
                assert(out.m == m2);
                assert(state_ok(out.m, out.s));
            }
        },
        OpView::ListPush(v) => {
            if m is List {
                lemma_models_wf_push(m->List_0, 0, v);
                let m2 = ModelView::List(m->List_0.push(v));
                crate::model::lemma_update_wf(s, m2, c);
            }
        },
        OpView::ListRemove(i) => {
            if m is List && i < m->List_0.len() {
                lemma_models_wf_remove(m->List_0, 0, i as int);
                let m2 = ModelView::List(m->List_0.remove(i as int));
                crate::model::lemma_update_wf(s, m2, c);
            }
        },
        OpView::ReplaceModel(v) => {
            crate::model::lemma_update_wf(s, v, c);
        },
        OpView::SetMessage(t) => {
            if s is Leaf {
                lemma_state_ok_leaf(m, s->Leaf_0, out.s->Leaf_0);
            }
        },
        OpView::SetInitial(t) => {
            if s is Leaf {
                lemma_state_ok_leaf(m, s->Leaf_0, out.s->Leaf_0);
            }
        },
        _ => {},
    }
}

/// Applying any operation at any path keeps the tree well formed: the model
/// stays well formed, the state keeps the shape and list-length laws for
/// the new model, and the generation counter never decreases.
pub proof fn lemma_apply_at_wf(
    m: ModelView,
    s: StateView,
    path: Seq<Seg>,
    k: int,
    op: OpView,
    c: u64,
)
    requires
        model_wf(m),
        state_ok(m, s),
        state_inv(s),
        op_wf(op),
    ensures
        ({
            let out = spec_apply_at(m, s, path, k, op, c);
            &&& model_wf(out.m)
            &&& state_ok(out.m, out.s)
            &&& state_inv(out.s)
            &&& c <= out.c
        }),
    decreases path.len() - k,
{
    if k < 0 || k >= path.len() {
        lemma_apply_op_wf(m, s, op, c);
    } else {
        match path[k] {
            Seg::Child(i) => {
                if m is Record && s is Record && i < m->Record_0.len() && i
                    < s->Record_0.len() {
                    let es = m->Record_0;
                    let ch = s->Record_0;
                    crate::model::lemma_entries_ok_at(es, ch, 0, i as int);
                    crate::model::lemma_all_inv_at(ch, 0, i as int);
                    lemma_entries_wf_elems(es, 0);
                    lemma_apply_at_wf(es[i as int].value, ch[i as int], path, k + 1, op, c);
                    let r = spec_apply_at(es[i as int].value, ch[i as int], path, k + 1, op, c);
                    if r.ok {
                        let e2 = EntryView { name: es[i as int].name, value: r.m };
                        lemma_entries_wf_update(es, 0, i as int, e2);
                        lemma_entries_ok_update(es, ch, 0, i as int, e2, r.s);
                        crate::model::lemma_all_inv_update(ch, 0, i as int, r.s);
                    }
                }
            },
            Seg::Item(i) => {
                if m is List && s is List && i < m->List_0.len() && i
                    < s->List_0.current.len() {
                    let items = m->List_0;
                    let vs = s->List_0;
                    crate::model::lemma_models_ok_at(items, vs.current, 0, i as int);
                    crate::model::lemma_all_inv_at(vs.current, 0, i as int);
                    lemma_models_wf_elems(items, 0);
                    lemma_apply_at_wf(items[i as int], vs.current[i as int], path, k + 1, op, c);
                    let r = spec_apply_at(items[i as int], vs.current[i as int], path, k + 1, op, c);
                    if r.ok {
                        lemma_models_wf_update(items, 0, i as int, r.m);
                        lemma_models_ok_update(items, vs.current, 0, i as int, r.m, r.s);
                        crate::model::lemma_all_inv_update(vs.current, 0, i as int, r.s);
                    }
                }
            },
            Seg::Inner => {
                if m is Optional {
                    lemma_apply_at_wf(*m->Optional_1, s, path, k + 1, op, c);
                }
            },
        }
    }
}

proof fn lemma_entries_wf_elems(es: Seq<EntryView>, k: int)
    requires
        0 <= k <= es.len(),
        entries_wf(es, k),
    ensures
        forall|j: int| k <= j < es.len() ==> model_wf((#[trigger] es[j]).value),
    decreases es.len() - k,
{
    if k < es.len() {
        lemma_entries_wf_elems(es, k + 1);
    }
}

/// The mathematical content of a [`Modifier`].
pub ghost struct ModifierView {
    pub path: Seq<Seg>,
    pub session: u64,
}

/// The write handle for one node of a session's tree: a path plus the
/// session token of the binding it came from.  Every write goes through the
/// session's [`Root`](crate::root::Root); a modifier whose session does not
/// match the root leaves the root untouched.
#[derive(Debug)]
pub struct Modifier {
    path: Vec<Seg>,
    session: u64,
}

impl View for Modifier {
    type V = ModifierView;

    closed spec fn view(&self) -> ModifierView {
        ModifierView { path: self.path@, session: self.session }
    }
}

impl Modifier {
    /// Makes the write handle for a path in a session.
    pub fn new(path: Vec<Seg>, session: u64) -> (r: Modifier)
        ensures
            r@.path == path@,
            r@.session == session,
    {
        Modifier { path, session }
    }

    /// The write handle for the record field the mapping describes.
    pub fn map(&self, mapping: crate::state_model::Mapping) -> (r: Modifier)
        ensures
            r@.path == self@.path.push(Seg::Child(mapping.index)),
            r@.session == self@.session,
    {
        let mut path = crate::state_model::clone_path(&self.path);
        path.push(Seg::Child(mapping.index));
        Modifier { path, session: self.session }
    }

    /// The write handle for the list element at `index`.
    pub fn item_modifier(&self, index: usize) -> (r: Modifier)
        ensures
            r@.path == self@.path.push(Seg::Item(index)),
            r@.session == self@.session,
    {
        let mut path = crate::state_model::clone_path(&self.path);
        path.push(Seg::Item(index));
        Modifier { path, session: self.session }
    }

    /// The write handle for an optional's inner value.
    pub fn map_option(&self) -> (r: Modifier)
        ensures
            r@.path == self@.path.push(Seg::Inner),
            r@.session == self@.session,
    {
        let mut path = crate::state_model::clone_path(&self.path);
        path.push(Seg::Inner);
        Modifier { path, session: self.session }
    }

    /// Applies `op` at this modifier's path when it belongs to the root's
    /// session; a foreign modifier changes nothing.
    pub fn apply(&self, root: &mut crate::root::Root, op: MutOp) -> (r: (bool, Option<Model>))
        requires
            crate::root::root_wf(old(root)@),
            op_wf(op@),
        ensures
            crate::root::root_wf(final(root)@),
            self@.session == old(root)@.session ==> ({
                let (r2, ok, taken) = crate::root::spec_root_apply(old(root)@, self@.path, op@);
                final(root)@ == r2 && r.0 == ok && opt_model_view(r.1) == taken
            }),
            self@.session != old(root)@.session ==> final(root)@ == old(root)@ && r.0 == false
                && r.1 is None,
    {
        if self.session == root.session() {
            root.apply(&self.path, op)
        } else {
            (false, Option::None)
        }
    }

    /// Parses raw text against the leaf's kind: on success the parsed value
    /// is written to the model and the text to the state, clearing any
    /// stale parse error; on failure the model is untouched and a parse
    /// error naming the text and the kind is recorded.
    pub fn set(&self, root: &mut crate::root::Root, text: String) -> (r: bool)
        requires
            crate::root::root_wf(old(root)@),
        ensures
            crate::root::root_wf(final(root)@),
            self@.session == old(root)@.session ==> ({
                let (r2, ok, _taken) = crate::root::spec_root_apply(
                    old(root)@,
                    self@.path,
                    OpView::SetText(text@),
                );
                final(root)@ == r2 && r == ok
            }),
            self@.session != old(root)@.session ==> final(root)@ == old(root)@ && r == false,
    {
        let (ok, _taken) = self.apply(root, MutOp::SetText(text));
        ok
    }

    /// Writes a scalar value directly and resyncs the leaf's text.
    pub fn set_value(&self, root: &mut crate::root::Root, value: Model) -> (r: bool)
        requires
            crate::root::root_wf(old(root)@),
            model_wf(value@),
        ensures
            crate::root::root_wf(final(root)@),
            self@.session == old(root)@.session ==> ({
                let (r2, ok, _taken) = crate::root::spec_root_apply(
                    old(root)@,
                    self@.path,
                    OpView::SetScalar(value@),
                );
                final(root)@ == r2 && r == ok
            }),
            self@.session != old(root)@.session ==> final(root)@ == old(root)@ && r == false,
    {
        let (ok, _taken) = self.apply(root, MutOp::SetScalar(value));
        ok
    }

    /// Removes and returns an optional's value, resetting the slot to
    /// absent and its state to the transient default.
    pub fn take(&self, root: &mut crate::root::Root) -> (r: Option<Model>)
        requires
            crate::root::root_wf(old(root)@),
        ensures
            crate::root::root_wf(final(root)@),
            self@.session == old(root)@.session ==> ({
                let (r2, _ok, taken) = crate::root::spec_root_apply(
                    old(root)@,
                    self@.path,
                    OpView::OptTake,
                );
                final(root)@ == r2 && opt_model_view(r) == taken
            }),
            self@.session != old(root)@.session ==> final(root)@ == old(root)@ && r is None,
    {
        let (_ok, taken) = self.apply(root, MutOp::OptTake);
        taken
    }

    /// Installs an optional's value, returning the previous one if any.
    pub fn replace(&self, root: &mut crate::root::Root, value: Model) -> (r: Option<Model>)
        requires
            crate::root::root_wf(old(root)@),
            model_wf(value@),
        ensures
            crate::root::root_wf(final(root)@),
            self@.session == old(root)@.session ==> ({
                let (r2, _ok, taken) = crate::root::spec_root_apply(
                    old(root)@,
                    self@.path,
                    OpView::OptReplace(value@),
                );
                final(root)@ == r2 && opt_model_view(r) == taken
            }),
            self@.session != old(root)@.session ==> final(root)@ == old(root)@ && r is None,
    {
        let (_ok, taken) = self.apply(root, MutOp::OptReplace(value));
        taken
    }

    /// Replaces a leaf's initial snapshot (the explicit choice whether a
    /// freshly materialised optional counts as pristine or as fresh input).
    pub fn set_initial(&self, root: &mut crate::root::Root, initial: Option<String>) -> (r: bool)
        requires
            crate::root::root_wf(old(root)@),
        ensures
            crate::root::root_wf(final(root)@),
            self@.session == old(root)@.session ==> ({
                let (r2, ok, _taken) = crate::root::spec_root_apply(
                    old(root)@,
                    self@.path,
                    OpView::SetInitial(opt_text_view(initial)),
                );
                final(root)@ == r2 && r == ok
            }),
            self@.session != old(root)@.session ==> final(root)@ == old(root)@ && r == false,
    {
        let (ok, _taken) = self.apply(root, MutOp::SetInitial(initial));
        ok
    }

    /// Appends a value to a list and resynchronises the list state.
    pub fn push(&self, root: &mut crate::root::Root, value: Model) -> (r: bool)
        requires
            crate::root::root_wf(old(root)@),
            model_wf(value@),
        ensures
            crate::root::root_wf(final(root)@),
            self@.session == old(root)@.session ==> ({
                let (r2, ok, _taken) = crate::root::spec_root_apply(
                    old(root)@,
                    self@.path,
                    OpView::ListPush(value@),
                );
                final(root)@ == r2 && r == ok
            }),
            self@.session != old(root)@.session ==> final(root)@ == old(root)@ && r == false,
    {
        let (ok, _taken) = self.apply(root, MutOp::ListPush(value));
        ok
    }

    /// Removes the list element at `index` and resynchronises the list
    /// state (retained states keep their snapshots per the retention law).
    pub fn remove(&self, root: &mut crate::root::Root, index: usize) -> (r: bool)
        requires
            crate::root::root_wf(old(root)@),
        ensures
            crate::root::root_wf(final(root)@),
            self@.session == old(root)@.session ==> ({
                let (r2, ok, _taken) = crate::root::spec_root_apply(
                    old(root)@,
                    self@.path,
                    OpView::ListRemove(index),
                );
                final(root)@ == r2 && r == ok
            }),
            self@.session != old(root)@.session ==> final(root)@ == old(root)@ && r == false,
    {
        let (ok, _taken) = self.apply(root, MutOp::ListRemove(index));
        ok
    }

    /// Stores a validation message on a leaf (a no-op elsewhere).
    pub fn set_message(&self, root: &mut crate::root::Root, message: Option<String>) -> (r: bool)
        requires
            crate::root::root_wf(old(root)@),
        ensures
            crate::root::root_wf(final(root)@),
            self@.session == old(root)@.session ==> ({
                let (r2, ok, _taken) = crate::root::spec_root_apply(
                    old(root)@,
                    self@.path,
                    OpView::SetMessage(opt_text_view(message)),
                );
                final(root)@ == r2 && r == ok
            }),
            self@.session != old(root)@.session ==> final(root)@ == old(root)@ && r == false,
    {
        let (ok, _taken) = self.apply(root, MutOp::SetMessage(message));
        ok
    }

    /// Replaces the whole subtree's model and resynchronises its state;
    /// snapshots of retained fields survive, so values written back to
    /// their initial text read as clean.
    pub fn replace_model(&self, root: &mut crate::root::Root, value: Model) -> (r: bool)
        requires
            crate::root::root_wf(old(root)@),
            model_wf(value@),
        ensures
            crate::root::root_wf(final(root)@),
            self@.session == old(root)@.session ==> ({
                let (r2, ok, _taken) = crate::root::spec_root_apply(
                    old(root)@,
                    self@.path,
                    OpView::ReplaceModel(value@),
                );
                final(root)@ == r2 && r == ok
            }),
            self@.session != old(root)@.session ==> final(root)@ == old(root)@ && r == false,
    {
        let (ok, _taken) = self.apply(root, MutOp::ReplaceModel(value));
        ok
    }

    /// Whether the state this modifier addresses is dirty.
    pub fn dirty(&self, root: &crate::root::Root) -> (r: bool)
        ensures
            r == ({
                let s = crate::state_model::state_at(root@.model, root@.state, self@.path, 0);
                s is Some && state_dirty(s->0)
            }),
    {
        match crate::state_model::state_at_ref(root.model(), root.state(), &self.path, 0) {
            Option::Some(s) => s.dirty(),
            Option::None => false,
        }
    }

    /// Reads the state this modifier addresses.
    pub fn state<'a>(&self, root: &'a crate::root::Root) -> (r: Option<&'a StateNode>)
        ensures
            r is Some <==> crate::state_model::state_at(root@.model, root@.state, self@.path, 0)
                is Some,
            r is Some ==> r->0@ == crate::state_model::state_at(
                root@.model,
                root@.state,
                self@.path,
                0,
            )->0,
    {
        crate::state_model::state_at_ref(root.model(), root.state(), &self.path, 0)
    }

    /// Reads the model value this modifier addresses.
    pub fn model<'a>(&self, root: &'a crate::root::Root) -> (r: Option<&'a Model>)
        ensures
            r is Some <==> crate::state_model::model_at(root@.model, self@.path, 0) is Some,
            r is Some ==> r->0@ == crate::state_model::model_at(root@.model, self@.path, 0)->0,
    {
        crate::state_model::model_at_ref(root.model(), &self.path, 0)
    }
}

/// One entry of a validation outcome: a field name and the human-readable
/// message for it.  The validation collaborator hands the engine a list of
/// these for the whole record; no entry for a field means the field passed.
pub struct FieldError {
    pub field: String,
    pub message: String,
}

/// The first message for `name` in `errors[k..]`, if any: when several
/// errors target the same field, the first one wins.
pub open spec fn first_error_for(errors: Seq<FieldError>, name: Seq<char>, k: int) -> Option<
    Seq<char>,
>
    decreases errors.len() - k,
{
    if k < 0 || k >= errors.len() {
        Option::None
    } else if errors[k].field@ == name {
        Option::Some(errors[k].message@)
    } else {
        first_error_for(errors, name, k + 1)
    }
}

/// The clearing pass of a validation commit: every scalar field of the
/// record at `p` gets its message cleared, in field order.
pub open spec fn spec_clear_pass(
    r: crate::root::RootView,
    p: Seq<Seg>,
    n: int,
    i: int,
) -> crate::root::RootView
    decreases n - i,
{
    if i < 0 || i >= n {
        r
    } else {
        let m = crate::state_model::model_at(r.model, p, 0);
        let r2 = if m is Some && m->0 is Record && i < m->0->Record_0.len() && is_scalar(
            m->0->Record_0[i].value,
        ) {
            crate::root::spec_root_apply(
                r,
                p.push(Seg::Child(i as usize)),
                OpView::SetMessage(Option::None),
            ).0
        } else {
            r
        };
        spec_clear_pass(r2, p, n, i + 1)
    }
}

/// The message pass of a validation commit: every scalar field of the
/// record at `p` that is dirty and named in the failure list gets the first
/// message for its name, in field order.
pub open spec fn spec_message_pass(
    r: crate::root::RootView,
    p: Seq<Seg>,
    errors: Seq<FieldError>,
    n: int,
    i: int,
) -> crate::root::RootView
    decreases n - i,
{
    if i < 0 || i >= n {
        r
    } else {
        let m = crate::state_model::model_at(r.model, p, 0);
        let r2 = if m is Some && m->0 is Record && i < m->0->Record_0.len() && is_scalar(
            m->0->Record_0[i].value,
        ) {
            let child = p.push(Seg::Child(i as usize));
            let s = crate::state_model::state_at(r.model, r.state, child, 0);
            if s is Some && state_dirty(s->0) {
                match first_error_for(errors, m->0->Record_0[i].name, 0) {
                    Option::Some(msg) => crate::root::spec_root_apply(
                        r,
                        child,
                        OpView::SetMessage(Option::Some(msg)),
                    ).0,
                    Option::None => r,
                }
            } else {
                r
            }
        } else {
            r
        };
        spec_message_pass(r2, p, errors, n, i + 1)
    }
}

/// What a validation commit does to a session, for a record at `p`: first
/// every scalar field's message is cleared, then each dirty scalar field
/// named in the failure list gets the first message for its name.  At a
/// path that does not lead to a record, nothing changes.
pub open spec fn spec_apply_validation(
    r: crate::root::RootView,
    p: Seq<Seg>,
    errors: Seq<FieldError>,
) -> crate::root::RootView {
    let m = crate::state_model::model_at(r.model, p, 0);
    if m is Some && m->0 is Record {
        let n = m->0->Record_0.len() as int;
        spec_message_pass(spec_clear_pass(r, p, n, 0), p, errors, n, 0)
    } else {
        r
    }
}

fn find_first_error(errors: &Vec<FieldError>, name: &str) -> (r: Option<String>)
    ensures
        opt_text_view(r) == first_error_for(errors@, name@, 0),
{
    let mut k: usize = 0;
    while k < errors.len()
        invariant
            k <= errors@.len(),
            first_error_for(errors@, name@, 0) == first_error_for(errors@, name@, k as int),
        decreases errors@.len() - k,
    {
        if str_eq(errors[k].field.as_str(), name) {
            proof {
                assert(first_error_for(errors@, name@, k as int) == Option::Some(
                    errors@[k as int].message@,
                ));
            }
            return Option::Some(String::from_str(errors[k].message.as_str()));
        }
        proof {
            assert(first_error_for(errors@, name@, k as int) == first_error_for(
                errors@,
                name@,
                k as int + 1,
            ));
        }
        k += 1;
    }
    Option::None
}

impl Modifier {
    /// Runs a validation commit on the record this modifier addresses, per
    /// [`spec_apply_validation`]: messages are cleared on every scalar
    /// field, then each dirty scalar field named in `errors` gets the first
    /// message for its name.  A modifier of another session, or one that
    /// does not address a record, changes nothing.
    #[verifier::loop_isolation(false)]
    pub fn apply_validation(
        &self,
        root: &mut crate::root::Root,
        errors: &Vec<FieldError>,
    ) -> (applied: bool)
        requires
            crate::root::root_wf(old(root)@),
        ensures
            crate::root::root_wf(final(root)@),
            self@.session == old(root)@.session ==> final(root)@ == spec_apply_validation(
                old(root)@,
                self@.path,
                errors@,
            ),
            self@.session != old(root)@.session ==> final(root)@ == old(root)@ && !applied,
    {
        if self.session != root.session() {
            return false;
        }
        let n: usize = match crate::state_model::model_at_ref(root.model(), &self.path, 0) {
            Option::Some(m) => {
                match m {
                    Model::Record(es) => {
                        proof {
                            lemma_entries_view_len(es@, 0);
                        }
                        es.len()
                    },
                    _ => {
                        return false;
                    },
                }
            },
            Option::None => {
                return false;
            },
        };
        let ghost r0 = root@;
        let ghost p = self@.path;
        let mut i: usize = 0;
        while i < n
            invariant
                i <= n,
                crate::root::root_wf(root@),
                root@.session == r0.session,
                spec_clear_pass(r0, p, n as int, 0) == spec_clear_pass(
                    root@,
                    p,
                    n as int,
                    i as int,
                ),
            decreases n - i,
        {
            let ghost r_pre = root@;
            let scalar = {
                match crate::state_model::model_at_ref(root.model(), &self.path, 0) {
                    Option::Some(m) => {
                        match m {
                            Model::Record(es) => {
                                proof {
                                    lemma_entries_view_len(es@, 0);
                                }
                                if i < es.len() {
                                    is_scalar_exec(&es[i].value)
                                } else {
                                    false
                                }
                            },
                            _ => false,
                        }
                    },
                    Option::None => false,
                }
            };
            if scalar {
                let mut child = crate::state_model::clone_path(&self.path);
                child.push(Seg::Child(i));
                root.apply(&child, MutOp::SetMessage(Option::None));
            }
            proof {
                assert(spec_clear_pass(r_pre, p, n as int, i as int) == spec_clear_pass(
                    root@,
                    p,
                    n as int,
                    i as int + 1,
                ));
            }
            i += 1;
        }
        let ghost r1 = root@;
        let mut i: usize = 0;
        while i < n
            invariant
                i <= n,
                crate::root::root_wf(root@),
                root@.session == r0.session,
                spec_message_pass(r1, p, errors@, n as int, 0) == spec_message_pass(
                    root@,
                    p,
                    errors@,
                    n as int,
                    i as int,
                ),
            decreases n - i,
        {
            let ghost r_pre = root@;
            let mut field_name: Option<String> = Option::None;
            let scalar = {
                match crate::state_model::model_at_ref(root.model(), &self.path, 0) {
                    Option::Some(m) => {
                        match m {
                            Model::Record(es) => {
                                proof {
                                    lemma_entries_view_len(es@, 0);
                                }
                                if i < es.len() {
                                    if is_scalar_exec(&es[i].value) {
                                        field_name = Option::Some(
                                            String::from_str(es[i].name.as_str()),
                                        );
                                        true
                                    } else {
                                        false
                                    }
                                } else {
                                    false
                                }
                            },
                            _ => false,
                        }
                    },
                    Option::None => false,
                }
            };
            if scalar {
                let mut child = crate::state_model::clone_path(&self.path);
                child.push(Seg::Child(i));
                let is_dirty = {
                    match crate::state_model::state_at_ref(
                        root.model(),
                        root.state(),
                        &child,
                        0,
                    ) {
                        Option::Some(s) => s.dirty(),
                        Option::None => false,
                    }
                };
                if is_dirty {
                    let name = match field_name {
                        Option::Some(nm) => nm,
                        Option::None => String::new(),
                    };
                    match find_first_error(errors, name.as_str()) {
                        Option::Some(msg) => {
                            root.apply(&child, MutOp::SetMessage(Option::Some(msg)));
                        },
                        Option::None => {},
                    }
                }
            }
            proof {
                assert(spec_message_pass(r_pre, p, errors@, n as int, i as int)
                    == spec_message_pass(root@, p, errors@, n as int, i as int + 1));
            }
            i += 1;
        }
        true
    }
}

/// Whether a path contains no step through an optional (only those steps
/// can make a write touch the model on a failed parse, by materialising the
/// optional's default).
pub open spec fn no_inner(path: Seq<Seg>, k: int) -> bool {
    forall|j: int| k <= j < path.len() ==> !((#[trigger] path[j]) is Inner)
}

proof fn lemma_settext_fail_frame(
    m: ModelView,
    s: StateView,
    path: Seq<Seg>,
    k: int,
    t: Seq<char>,
    c: u64,
)
    requires
        0 <= k <= path.len(),
        ({
            let mv = crate::state_model::model_at(m, path, k);
            mv is Some && is_scalar(mv->0) && parse_scalar(mv->0, t) is None
        }),
        ({
            let sv = crate::state_model::state_at(m, s, path, k);
            sv is Some && sv->0 is Leaf
        }),
    ensures
        ({
            let out = spec_apply_at(m, s, path, k, OpView::SetText(t), c);
            let target = crate::state_model::model_at(m, path, k)->0;
            let leaf = crate::state_model::state_at(m, s, path, k)->0->Leaf_0;
            let msg = invalid_value_text(t, kind_text(target));
            let (f1, c1) = spec_field_set_error(leaf, Option::Some(msg), c);
            &&& out.ok
            &&& crate::state_model::model_at(out.m, path, k) == crate::state_model::model_at(
                m,
                path,
                k,
            )
            &&& crate::state_model::state_at(out.m, out.s, path, k) == Option::Some(
                StateView::Leaf(f1),
            )
            &&& out.c == c1
            &&& (no_inner(path, k) ==> out.m == m)
        }),
    decreases path.len() - k,
{
    if k >= path.len() {
    } else {
        match path[k] {
            Seg::Child(i) => {
                let es = m->Record_0;
                let ch = s->Record_0;
                lemma_settext_fail_frame(es[i as int].value, ch[i as int], path, k + 1, t, c);
                let r = spec_apply_at(
                    es[i as int].value,
                    ch[i as int],
                    path,
                    k + 1,
                    OpView::SetText(t),
                    c,
                );
                if no_inner(path, k) {
                    assert(no_inner(path, k + 1));
                    assert(es[i as int] == (EntryView {
                        name: es[i as int].name,
                        value: es[i as int].value,
                    }));
                    assert(es.update(
                        i as int,
                        EntryView { name: es[i as int].name, value: r.m },
                    ) =~= es);
                }
            },
            Seg::Item(i) => {
                let items = m->List_0;
                let vs = s->List_0;
                lemma_settext_fail_frame(items[i as int], vs.current[i as int], path, k + 1, t, c);
                let r = spec_apply_at(
                    items[i as int],
                    vs.current[i as int],
                    path,
                    k + 1,
                    OpView::SetText(t),
                    c,
                );
                if no_inner(path, k) {
                    assert(no_inner(path, k + 1));
                    assert(items.update(i as int, r.m) =~= items);
                }
            },
            Seg::Inner => {
                lemma_settext_fail_frame(*m->Optional_1, s, path, k + 1, t, c);
            },
        }
    }
}

/// Parse-failure isolation: writing unparsable text to a scalar leaf leaves
/// the leaf's model value (and, absent optional steps in the path, the
/// whole model) unchanged, records a non-empty parse error naming the text
/// and the kind, and neither touches the leaf's validation message nor its
/// displayed value.
pub proof fn lemma_parse_failure_isolated(r: crate::root::RootView, path: Seq<Seg>, t: Seq<char>)
    requires
        crate::root::root_wf(r),
        ({
            let mv = crate::state_model::model_at(r.model, path, 0);
            mv is Some && is_scalar(mv->0) && parse_scalar(mv->0, t) is None
        }),
        ({
            let sv = crate::state_model::state_at(r.model, r.state, path, 0);
            sv is Some && sv->0 is Leaf
        }),
    ensures
        ({
            let (r2, ok, _taken) = crate::root::spec_root_apply(r, path, OpView::SetText(t));
            let target = crate::state_model::model_at(r.model, path, 0)->0;
            let leaf = crate::state_model::state_at(r.model, r.state, path, 0)->0->Leaf_0;
            let sv2 = crate::state_model::state_at(r2.model, r2.state, path, 0);
            &&& ok
            &&& crate::state_model::model_at(r2.model, path, 0) == crate::state_model::model_at(
                r.model,
                path,
                0,
            )
            &&& (no_inner(path, 0) ==> r2.model == r.model)
            &&& sv2 is Some && sv2->0 is Leaf
            &&& sv2->0->Leaf_0.error == Option::Some(
                invalid_value_text(t, kind_text(target)),
            )
            &&& invalid_value_text(t, kind_text(target)).len() > 0
            &&& sv2->0->Leaf_0.message == leaf.message
            &&& sv2->0->Leaf_0.value == leaf.value
            &&& sv2->0->Leaf_0.initial == leaf.initial
        }),
{
    lemma_settext_fail_frame(r.model, r.state, path, 0, t, r.generation);
    reveal_strlit("Invalid value '");
}

proof fn lemma_message_pass_empty(
    r: crate::root::RootView,
    p: Seq<Seg>,
    n: int,
    i: int,
)
    ensures
        spec_message_pass(r, p, Seq::empty(), n, i) == r,
    decreases n - i,
{
    if 0 <= i < n {
        let m = crate::state_model::model_at(r.model, p, 0);
        if m is Some && m->0 is Record && i < m->0->Record_0.len() && is_scalar(
            m->0->Record_0[i].value,
        ) {
            let child = p.push(Seg::Child(i as usize));
            let s = crate::state_model::state_at(r.model, r.state, child, 0);
            if s is Some && state_dirty(s->0) {
                assert(first_error_for(Seq::empty(), m->0->Record_0[i].name, 0) is None);
            }
        }
        lemma_message_pass_empty(r, p, n, i + 1);
    }
}

proof fn lemma_clear_pass_root(r: crate::root::RootView, n: int, i: int)
    requires
        crate::root::root_wf(r),
        r.model is Record,
        n == r.model->Record_0.len(),
        n <= usize::MAX,
        0 <= i <= n,
    ensures
        ({
            let r2 = spec_clear_pass(r, Seq::empty(), n, i);
            let es = r.model->Record_0;
            let ch = r.state->Record_0;
            let ch2 = r2.state->Record_0;
            &&& crate::root::root_wf(r2)
            &&& r2.model == r.model
            &&& r2.session == r.session
            &&& r2.state is Record
            &&& ch2.len() == ch.len()
            &&& (forall|j: int|
                i <= j < n && is_scalar((#[trigger] es[j]).value) ==> ch2[j] is Leaf
                    && ch2[j]->Leaf_0.message is None)
            &&& (forall|j: int|
                0 <= j < ch.len() && !(i <= j < n && is_scalar((#[trigger] es[j]).value))
                    ==> ch2[j] == ch[j])
        }),
    decreases n - i,
{
    let es = r.model->Record_0;
    let ch = r.state->Record_0;
    if i < n {
        if is_scalar(es[i].value) {
            let child = Seq::empty().push(Seg::Child(i as usize));
            let (r1, ok, _taken) = crate::root::spec_root_apply(
                r,
                child,
                OpView::SetMessage(Option::None),
            );
            crate::modifier::lemma_apply_at_wf(
                r.model,
                r.state,
                child,
                0,
                OpView::SetMessage(Option::None),
                r.generation,
            );
            crate::model::lemma_entries_ok_at(es, ch, 0, i);
            let out = spec_apply_at(
                r.model,
                r.state,
                child,
                0,
                OpView::SetMessage(Option::None),
                r.generation,
            );
            assert(child[0] == Seg::Child(i as usize));
            assert(child.len() == 1);
            let inner_out = spec_apply_at(
                es[i].value,
                ch[i],
                child,
                1,
                OpView::SetMessage(Option::None),
                r.generation,
            );
            assert(inner_out == spec_apply_op(
                es[i].value,
                ch[i],
                OpView::SetMessage(Option::None),
                r.generation,
            ));
            assert(ch[i] is Leaf);
            assert(inner_out.m == es[i].value && inner_out.ok);
            assert(out.m == ModelView::Record(
                es.update(i, EntryView { name: es[i].name, value: es[i].value }),
            ));
            assert(es.update(i, EntryView { name: es[i].name, value: es[i].value }) =~= es);
            assert(out.m == r.model);
            assert(r1.model == r.model);
            lemma_clear_pass_root(r1, n, i + 1);
            assert(spec_clear_pass(r, Seq::empty(), n, i) == spec_clear_pass(
                r1,
                Seq::empty(),
                n,
                i + 1,
            ));
        } else {
            lemma_clear_pass_root(r, n, i + 1);
            assert(spec_clear_pass(r, Seq::empty(), n, i) == spec_clear_pass(
                r,
                Seq::empty(),
                n,
                i + 1,
            ));
        }
    }
}

/// A validation commit with an empty failure list leaves no message on any
/// scalar field of a root-level record: validation success clears every
/// field's message.
pub proof fn lemma_validation_success_clears(r: crate::root::RootView)
    requires
        crate::root::root_wf(r),
        r.model is Record,
        r.model->Record_0.len() <= usize::MAX,
    ensures
        ({
            let r2 = spec_apply_validation(r, Seq::empty(), Seq::empty());
            let es = r.model->Record_0;
            &&& r2.model == r.model
            &&& r2.state is Record
            &&& (forall|j: int|
                0 <= j < es.len() && is_scalar((#[trigger] es[j]).value)
                    ==> r2.state->Record_0[j] is Leaf
                    && r2.state->Record_0[j]->Leaf_0.message is None)
        }),
{
    let n = r.model->Record_0.len() as int;
    assert(crate::state_model::model_at(r.model, Seq::<Seg>::empty(), 0) == Option::Some(
        r.model,
    ));
    lemma_clear_pass_root(r, n, 0);
    lemma_message_pass_empty(spec_clear_pass(r, Seq::empty(), n, 0), Seq::empty(), n, 0);
}

} // verus!
