//! The scope and symbol-table engine.
//!
//! Names live in three independent namespaces: command declarations,
//! environment bindings, and variables (the latter addressed by id, not
//! name). Scope frames stack one per block activation; resolution walks
//! them innermost first, so a nearer binding shadows an identically named
//! one further out. Hiding suppresses one concrete binding (not the
//! name): the hide marker lives in the frame that recorded it, applies to
//! every lookup while that frame is alive, and is discarded when the
//! frame is popped. The committed declaration and module tables grow only
//! through an atomic working-set merge.

use vstd::prelude::*;

use crate::error::ShellError;
use crate::span::Span;
use crate::value::{vmodel, ValModel, Value};

verus! {

broadcast use vstd::std_specs::vec::group_vec_axioms;

/// A committed command declaration. The evaluation of its body lives
/// outside this table; resolution only turns names into ids.
pub struct Decl {
    pub name: Vec<u8>,
}

/// A module: a named set of exported command and environment bindings.
/// A module may export a command and an environment binding under the
/// same name; a single-name import takes both.
pub struct Module {
    pub name: Vec<u8>,
    pub decl_exports: Vec<(Vec<u8>, usize)>,
    pub env_exports: Vec<(Vec<u8>, usize)>,
}

/// One lexical block's contribution to the symbol table.
pub struct ScopeFrame {
    /// command bindings created in this frame: name to declaration id
    pub decls: Vec<(Vec<u8>, usize)>,
    /// environment bindings created in this frame: name to value id
    pub envs: Vec<(Vec<u8>, usize)>,
    /// the visibility log for declaration ids: hide operations append a
    /// `false` entry, imports a `true` entry; the last entry wins
    pub vis_decls: Vec<(usize, bool)>,
    /// the visibility log for environment value ids
    pub vis_envs: Vec<(usize, bool)>,
    /// variable bindings created in this frame
    pub vars: Vec<(usize, Value)>,
}

/// The ghost image of a module.
#[verifier::ext_equal]
pub ghost struct ModModel {
    pub name: Seq<u8>,
    pub decl_exports: Seq<(Seq<u8>, usize)>,
    pub env_exports: Seq<(Seq<u8>, usize)>,
}

/// The ghost image of a scope frame.
#[verifier::ext_equal]
pub ghost struct FrameModel {
    pub decls: Seq<(Seq<u8>, usize)>,
    pub envs: Seq<(Seq<u8>, usize)>,
    pub vis_decls: Seq<(usize, bool)>,
    pub vis_envs: Seq<(usize, bool)>,
    pub vars: Seq<(usize, ValModel)>,
}

/// The views of a name-to-id binding list.
pub open spec fn pairs_view(s: Seq<(Vec<u8>, usize)>) -> Seq<(Seq<u8>, usize)> {
    Seq::new(s.len(), |i: int| (s[i].0@, s[i].1))
}

/// The images of a variable binding list.
pub open spec fn vars_view(s: Seq<(usize, Value)>) -> Seq<(usize, ValModel)> {
    Seq::new(s.len(), |i: int| (s[i].0, vmodel(s[i].1)))
}

/// The ghost image of a frame.
pub open spec fn frame_model(f: ScopeFrame) -> FrameModel {
    FrameModel {
        decls: pairs_view(f.decls@),
        envs: pairs_view(f.envs@),
        vis_decls: f.vis_decls@,
        vis_envs: f.vis_envs@,
        vars: vars_view(f.vars@),
    }
}

impl View for ScopeFrame {
    type V = FrameModel;

    open spec fn view(&self) -> FrameModel {
        frame_model(*self)
    }
}

/// The ghost image of a module.
pub open spec fn module_model(m: Module) -> ModModel {
    ModModel {
        name: m.name@,
        decl_exports: pairs_view(m.decl_exports@),
        env_exports: pairs_view(m.env_exports@),
    }
}

impl View for Module {
    type V = ModModel;

    open spec fn view(&self) -> ModModel {
        module_model(*self)
    }
}

/// The whole symbol machinery: the committed declaration and module
/// tables, the environment value store, and the live scope frames
/// (index 0 is the outermost, the last frame the innermost).
pub struct EngineState {
    pub decls: Vec<Decl>,
    pub modules: Vec<Module>,
    pub env_vals: Vec<Value>,
    pub frames: Vec<ScopeFrame>,
}

/// The ghost image of the whole state.
#[verifier::ext_equal]
pub ghost struct StateModel {
    pub decls: Seq<Seq<u8>>,
    pub modules: Seq<ModModel>,
    pub env_vals: Seq<ValModel>,
    pub frames: Seq<FrameModel>,
}

impl View for EngineState {
    type V = StateModel;

    open spec fn view(&self) -> StateModel {
        StateModel {
            decls: Seq::new(self.decls@.len(), |i: int| self.decls@[i].name@),
            modules: Seq::new(self.modules@.len(), |i: int| module_model(self.modules@[i])),
            env_vals: Seq::new(self.env_vals@.len(), |i: int| vmodel(self.env_vals@[i])),
            frames: Seq::new(self.frames@.len(), |i: int| frame_model(self.frames@[i])),
        }
    }
}

/// The first binding of `name` in one frame's list, scanning from the
/// front; frames keep at most one binding per name, so the first is the
/// only one.
pub open spec fn assoc(s: Seq<(Seq<u8>, usize)>, name: Seq<u8>, i: int) -> Option<usize>
    decreases s.len() - i,
{
    if i < 0 || i >= s.len() {
        Option::None
    } else if s[i].0 == name {
        Option::Some(s[i].1)
    } else {
        assoc(s, name, i + 1)
    }
}

/// The first variable binding of `id` in one frame.
pub open spec fn var_assoc(s: Seq<(usize, ValModel)>, id: usize, i: int) -> Option<ValModel>
    decreases s.len() - i,
{
    if i < 0 || i >= s.len() {
        Option::None
    } else if s[i].0 == id {
        Option::Some(s[i].1)
    } else {
        var_assoc(s, id, i + 1)
    }
}

/// The last verdict one frame's visibility log records for `id`.
pub open spec fn frame_vis(log: Seq<(usize, bool)>, id: usize) -> Option<bool>
    decreases log.len(),
{
    if log.len() == 0 {
        Option::None
    } else if log.last().0 == id {
        Option::Some(log.last().1)
    } else {
        frame_vis(log.drop_last(), id)
    }
}

/// The last verdict the logs of `frames[0..i]` record for a declaration
/// id, inner frames overriding outer ones.
pub open spec fn decl_vis_upto(frames: Seq<FrameModel>, id: usize, i: int) -> Option<bool>
    decreases i,
{
    if i <= 0 || i > frames.len() {
        Option::None
    } else {
        match frame_vis(frames[i - 1].vis_decls, id) {
            Option::Some(b) => Option::Some(b),
            Option::None => decl_vis_upto(frames, id, i - 1),
        }
    }
}

/// The environment twin of `decl_vis_upto`.
pub open spec fn env_vis_upto(frames: Seq<FrameModel>, id: usize, i: int) -> Option<bool>
    decreases i,
{
    if i <= 0 || i > frames.len() {
        Option::None
    } else {
        match frame_vis(frames[i - 1].vis_envs, id) {
            Option::Some(b) => Option::Some(b),
            Option::None => env_vis_upto(frames, id, i - 1),
        }
    }
}

/// Whether the live hide markers suppress declaration id `id`: the last
/// verdict any log records is a hide, and no later import re-enabled it.
/// An id no log mentions is visible.
pub open spec fn decl_hidden(frames: Seq<FrameModel>, id: usize) -> bool {
    decl_vis_upto(frames, id, frames.len() as int) == Option::Some(false)
}

/// The environment twin of `decl_hidden`.
pub open spec fn env_hidden(frames: Seq<FrameModel>, id: usize) -> bool {
    env_vis_upto(frames, id, frames.len() as int) == Option::Some(false)
}

/// Command resolution over `frames[0..i]`, innermost (highest index)
/// first: the nearest binding whose id no live frame hides. A hidden
/// binding does not stop the walk; an outer binding of the same name can
/// still answer.
pub open spec fn resolve_decl_upto(frames: Seq<FrameModel>, name: Seq<u8>, i: int) -> Option<usize>
    decreases i,
{
    if i <= 0 || i > frames.len() {
        Option::None
    } else {
        match assoc(frames[i - 1].decls, name, 0) {
            Option::Some(id) => if !decl_hidden(frames, id) {
                Option::Some(id)
            } else {
                resolve_decl_upto(frames, name, i - 1)
            },
            Option::None => resolve_decl_upto(frames, name, i - 1),
        }
    }
}

/// Command resolution over the whole chain.
pub open spec fn resolve_decl_m(frames: Seq<FrameModel>, name: Seq<u8>) -> Option<usize> {
    resolve_decl_upto(frames, name, frames.len() as int)
}

/// Environment resolution over `frames[0..i]`, innermost first.
pub open spec fn resolve_env_upto(frames: Seq<FrameModel>, name: Seq<u8>, i: int) -> Option<usize>
    decreases i,
{
    if i <= 0 || i > frames.len() {
        Option::None
    } else {
        match assoc(frames[i - 1].envs, name, 0) {
            Option::Some(id) => if !env_hidden(frames, id) {
                Option::Some(id)
            } else {
                resolve_env_upto(frames, name, i - 1)
            },
            Option::None => resolve_env_upto(frames, name, i - 1),
        }
    }
}

/// Environment resolution over the whole chain.
pub open spec fn resolve_env_m(frames: Seq<FrameModel>, name: Seq<u8>) -> Option<usize> {
    resolve_env_upto(frames, name, frames.len() as int)
}

/// Variable resolution over `frames[0..i]`, innermost first. Variables
/// cannot be hidden; captures are copied into the frame at block entry,
/// so resolution never reaches across a closure boundary.
pub open spec fn resolve_var_upto(frames: Seq<FrameModel>, id: usize, i: int) -> Option<ValModel>
    decreases i,
{
    if i <= 0 || i > frames.len() {
        Option::None
    } else {
        match var_assoc(frames[i - 1].vars, id, 0) {
            Option::Some(v) => Option::Some(v),
            Option::None => resolve_var_upto(frames, id, i - 1),
        }
    }
}

/// Variable resolution over the whole chain.
pub open spec fn resolve_var_m(frames: Seq<FrameModel>, id: usize) -> Option<ValModel> {
    resolve_var_upto(frames, id, frames.len() as int)
}

/// The engine invariant of the whole state: every id bound or hidden in
/// a frame points into the committed tables, every module export does,
/// and there is at least one (global) frame.
pub open spec fn state_wf(m: StateModel) -> bool {
    &&& m.frames.len() >= 1
    &&& forall|k: int|
        0 <= k < m.frames.len() ==> frame_bounded(
            #[trigger] m.frames[k],
            m.decls.len() as int,
            m.env_vals.len() as int,
        )
    &&& forall|k: int|
        0 <= k < m.modules.len() ==> module_bounded(
            #[trigger] m.modules[k],
            m.decls.len() as int,
            m.env_vals.len() as int,
        )
}

/// Every id a frame binds or hides points below the table bounds.
pub open spec fn frame_bounded(f: FrameModel, nd: int, ne: int) -> bool {
    &&& forall|t: int| 0 <= t < f.decls.len() ==> #[trigger] f.decls[t].1 < nd
    &&& forall|t: int| 0 <= t < f.envs.len() ==> #[trigger] f.envs[t].1 < ne
    &&& forall|t: int| 0 <= t < f.vis_decls.len() ==> #[trigger] f.vis_decls[t].0 < nd
    &&& forall|t: int| 0 <= t < f.vis_envs.len() ==> #[trigger] f.vis_envs[t].0 < ne
}

/// Every id a module exports points below the table bounds, and export
/// names are unique within each namespace.
pub open spec fn module_bounded(m: ModModel, nd: int, ne: int) -> bool {
    &&& forall|t: int| 0 <= t < m.decl_exports.len() ==> #[trigger] m.decl_exports[t].1 < nd
    &&& forall|t: int| 0 <= t < m.env_exports.len() ==> #[trigger] m.env_exports[t].1 < ne
    &&& forall|t1: int, t2: int|
        0 <= t1 < t2 < m.decl_exports.len() ==> (#[trigger] m.decl_exports[t1]).0 != (
        #[trigger] m.decl_exports[t2]).0
    &&& forall|t1: int, t2: int|
        0 <= t1 < t2 < m.env_exports.len() ==> (#[trigger] m.env_exports[t1]).0 != (
        #[trigger] m.env_exports[t2]).0
}

/// Finds the first binding of `name` in a binding list.
pub fn assoc_find(s: &Vec<(Vec<u8>, usize)>, name: &Vec<u8>) -> (r: Option<usize>)
    ensures
        (match r {
            Option::Some(id) => Option::Some(id),
            Option::None => Option::None,
        }) == assoc(pairs_view(s@), name@, 0),
{
    let ghost sv = pairs_view(s@);
    let mut i: usize = 0;
    while i < s.len()
        invariant
            0 <= i <= s@.len(),
            sv == pairs_view(s@),
            sv.len() == s@.len(),
            assoc(sv, name@, 0) == assoc(sv, name@, i as int),
        decreases s@.len() - i,
    {
        if crate::value::bytes_eq(&s[i].0, name) {
            proof {
                assert(sv[i as int].0 == name@);
            }
            return Option::Some(s[i].1);
        }
        proof {
            assert(sv[i as int].0 != name@);
        }
        i = i + 1;
    }
    Option::None
}

/// The last verdict a visibility log records for `id`.
pub fn log_last(s: &Vec<(usize, bool)>, id: usize) -> (r: Option<bool>)
    ensures
        r == frame_vis(s@, id),
{
    let mut i: usize = s.len();
    proof {
        assert(s@.take(s@.len() as int) =~= s@);
    }
    while i > 0
        invariant
            0 <= i <= s@.len(),
            frame_vis(s@, id) == frame_vis(s@.take(i as int), id),
        decreases i,
    {
        if s[i - 1].0 == id {
            proof {
                assert(s@.take(i as int).last() == s@[i - 1]);
            }
            return Option::Some(s[i - 1].1);
        }
        proof {
            assert(s@.take(i as int).drop_last() =~= s@.take(i as int - 1));
            assert(s@.take(i as int).last() == s@[i - 1]);
        }
        i = i - 1;
    }
    proof {
        assert(s@.take(0).len() == 0);
    }
    Option::None
}

impl EngineState {
    /// A fresh state: empty tables and the single global frame.
    pub fn new() -> (r: EngineState)
        ensures
            r@.decls.len() == 0,
            r@.modules.len() == 0,
            r@.env_vals.len() == 0,
            r@.frames.len() == 1,
            r@.frames[0] == empty_frame(),
            state_wf(r@),
    {
        let mut frames: Vec<ScopeFrame> = Vec::new();
        frames.push(
            ScopeFrame {
                decls: Vec::new(),
                envs: Vec::new(),
                vis_decls: Vec::new(),
                vis_envs: Vec::new(),
                vars: Vec::new(),
            },
        );
        let r = EngineState { decls: Vec::new(), modules: Vec::new(), env_vals: Vec::new(), frames };
        proof {
            assert(r@.frames[0] =~= empty_frame());
            assert(r@.decls =~= Seq::<Seq<u8>>::empty());
            assert(r@.modules =~= Seq::<ModModel>::empty());
            assert(r@.env_vals =~= Seq::<ValModel>::empty());
        }
        r
    }

    /// Whether the live hide markers suppress declaration id `id`.
    pub fn is_decl_hidden(&self, id: usize) -> (r: bool)
        ensures
            r == decl_hidden(self@.frames, id),
    {
        let ghost fm = self@.frames;
        let mut k: usize = self.frames.len();
        while k > 0
            invariant
                0 <= k <= self.frames@.len(),
                fm == self@.frames,
                fm.len() == self.frames@.len(),
                decl_vis_upto(fm, id, fm.len() as int) == decl_vis_upto(fm, id, k as int),
            decreases k,
        {
            match log_last(&self.frames[k - 1].vis_decls, id) {
                Option::Some(b) => {
                    return !b;
                },
                Option::None => {},
            }
            k = k - 1;
        }
        false
    }

    /// Whether the live hide markers suppress environment id `id`.
    pub fn is_env_hidden(&self, id: usize) -> (r: bool)
        ensures
            r == env_hidden(self@.frames, id),
    {
        let ghost fm = self@.frames;
        let mut k: usize = self.frames.len();
        while k > 0
            invariant
                0 <= k <= self.frames@.len(),
                fm == self@.frames,
                fm.len() == self.frames@.len(),
                env_vis_upto(fm, id, fm.len() as int) == env_vis_upto(fm, id, k as int),
            decreases k,
        {
            match log_last(&self.frames[k - 1].vis_envs, id) {
                Option::Some(b) => {
                    return !b;
                },
                Option::None => {},
            }
            k = k - 1;
        }
        false
    }

    /// Resolves a command name to the nearest visible declaration id.
    pub fn resolve_command(&self, name: &Vec<u8>) -> (r: Option<usize>)
        ensures
            r == resolve_decl_m(self@.frames, name@),
    {
        let ghost fm = self@.frames;
        let mut i: usize = self.frames.len();
        while i > 0
            invariant
                0 <= i <= self.frames@.len(),
                fm == self@.frames,
                fm.len() == self.frames@.len(),
                resolve_decl_m(fm, name@) == resolve_decl_upto(fm, name@, i as int),
            decreases i,
        {
            match assoc_find(&self.frames[i - 1].decls, name) {
                Option::Some(id) => {
                    if !self.is_decl_hidden(id) {
                        return Option::Some(id);
                    }
                },
                Option::None => {},
            }
            i = i - 1;
        }
        Option::None
    }

    /// Resolves an environment name to the nearest visible value.
    /// Commands and environment bindings are independent namespaces:
    /// hiding one never hides the other.
    pub fn resolve_env(&self, name: &Vec<u8>) -> (r: Option<Value>)
        requires
            state_wf(self@),
        ensures
            (match r {
                Option::Some(v) => Option::Some(v@),
                Option::None => Option::None::<ValModel>,
            }) == (match resolve_env_m(self@.frames, name@) {
                Option::Some(id) => Option::Some(self@.env_vals[id as int]),
                Option::None => Option::None::<ValModel>,
            }),
    {
        let ghost fm = self@.frames;
        let mut i: usize = self.frames.len();
        while i > 0
            invariant
                0 <= i <= self.frames@.len(),
                fm == self@.frames,
                fm.len() == self.frames@.len(),
                state_wf(self@),
                resolve_env_m(fm, name@) == resolve_env_upto(fm, name@, i as int),
            decreases i,
        {
            match assoc_find(&self.frames[i - 1].envs, name) {
                Option::Some(id) => {
                    if !self.is_env_hidden(id) {
                        proof {
                            assert(fm[i - 1].envs == pairs_view(self.frames@[i - 1].envs@));
                            crate::scope::lemma_assoc_bound(
                                fm[i - 1].envs,
                                name@,
                                0,
                                self@.env_vals.len() as int,
                            );
                        }
                        return Option::Some(self.env_vals[id].clone());
                    }
                },
                Option::None => {},
            }
            i = i - 1;
        }
        Option::None
    }

    /// Resolves a variable id to the nearest binding's value.
    pub fn resolve_variable(&self, var_id: usize) -> (r: Option<Value>)
        ensures
            (match r {
                Option::Some(v) => Option::Some(v@),
                Option::None => Option::None::<ValModel>,
            }) == resolve_var_m(self@.frames, var_id),
    {
        let ghost fm = self@.frames;
        let mut i: usize = self.frames.len();
        while i > 0
            invariant
                0 <= i <= self.frames@.len(),
                fm == self@.frames,
                fm.len() == self.frames@.len(),
                resolve_var_m(fm, var_id) == resolve_var_upto(fm, var_id, i as int),
            decreases i,
        {
            match var_find(&self.frames[i - 1].vars, var_id) {
                Option::Some(v) => {
                    return Option::Some(v);
                },
                Option::None => {},
            }
            i = i - 1;
        }
        Option::None
    }
}

/// Finds the first binding of a variable id and hands its value out.
fn var_find(s: &Vec<(usize, Value)>, id: usize) -> (r: Option<Value>)
    ensures
        (match r {
            Option::Some(v) => Option::Some(v@),
            Option::None => Option::None::<ValModel>,
        }) == var_assoc(vars_view(s@), id, 0),
{
    let ghost sv = vars_view(s@);
    let mut i: usize = 0;
    while i < s.len()
        invariant
            0 <= i <= s@.len(),
            sv == vars_view(s@),
            sv.len() == s@.len(),
            var_assoc(sv, id, 0) == var_assoc(sv, id, i as int),
        decreases s@.len() - i,
    {
        if s[i].0 == id {
            proof {
                assert(sv[i as int].0 == id);
            }
            return Option::Some(s[i].1.clone());
        }
        proof {
            assert(sv[i as int].0 != id);
        }
        i = i + 1;
    }
    Option::None
}

/// A binding found by `assoc` in a list whose ids are bounded is bounded.
pub proof fn lemma_assoc_bound(s: Seq<(Seq<u8>, usize)>, name: Seq<u8>, i: int, bound: int)
    requires
        forall|t: int| 0 <= t < s.len() ==> #[trigger] s[t].1 < bound,
    ensures
        assoc(s, name, i) matches Option::Some(id) ==> id < bound,
    decreases s.len() - i,
{
    if 0 <= i < s.len() && s[i].0 != name {
        lemma_assoc_bound(s, name, i + 1, bound);
    }
}

/// Hiding a command and then re-declaring its name makes the name
/// resolvable again, and it answers with the new declaration only: a
/// fresh id bound in the innermost frame wins the innermost-first walk,
/// and no walk ever answers with a hidden id (`lemma_resolved_is_visible`),
/// so the hidden declaration cannot come back under this name.
pub proof fn lemma_redeclare_after_hide(frames: Seq<FrameModel>, name: Seq<u8>, id: usize)
    requires
        frames.len() >= 1,
        !decl_hidden(frames, id),
        assoc(frames.last().decls, name, 0) == Option::Some(id),
    ensures
        resolve_decl_m(frames, name) == Option::Some(id),
{
    assert(resolve_decl_upto(frames, name, frames.len() as int) == Option::Some(id));
}

/// A binding created inside a block never leaks out of it: whatever a
/// block's frame held, resolution after the frame is popped is exactly
/// resolution as it stood before the block was entered. This holds for
/// variables, commands and environment bindings alike, because the
/// popped frame carried its bindings and its hide markers away with it.
pub proof fn lemma_block_bindings_discarded(
    frames: Seq<FrameModel>,
    inner: FrameModel,
    var_id: usize,
    name: Seq<u8>,
)
    ensures
        resolve_var_m(frames.push(inner).drop_last(), var_id) == resolve_var_m(frames, var_id),
        resolve_decl_m(frames.push(inner).drop_last(), name) == resolve_decl_m(frames, name),
        resolve_env_m(frames.push(inner).drop_last(), name) == resolve_env_m(frames, name),
{
    assert(frames.push(inner).drop_last() =~= frames);
}

/// A name no frame binds never resolves, whatever the visibility logs
/// say: importing other names cannot conjure a binding for this one.
pub proof fn lemma_unbound_never_resolves(frames: Seq<FrameModel>, name: Seq<u8>, i: int)
    requires
        forall|k: int| 0 <= k < frames.len() ==> assoc(#[trigger] frames[k].decls, name, 0) is None,
    ensures
        resolve_decl_upto(frames, name, i) is None,
    decreases i,
{
    if 0 < i <= frames.len() {
        lemma_unbound_never_resolves(frames, name, i - 1);
    }
}

/// The frame a newly entered block starts with.
pub open spec fn empty_frame() -> FrameModel {
    FrameModel {
        decls: Seq::empty(),
        envs: Seq::empty(),
        vis_decls: Seq::empty(),
        vis_envs: Seq::empty(),
        vars: Seq::empty(),
    }
}

/// The index of the first binding of `name`, scanning from the front.
pub open spec fn assoc_idx(s: Seq<(Seq<u8>, usize)>, name: Seq<u8>, i: int) -> Option<int>
    decreases s.len() - i,
{
    if i < 0 || i >= s.len() {
        Option::None
    } else if s[i].0 == name {
        Option::Some(i)
    } else {
        assoc_idx(s, name, i + 1)
    }
}

/// A binding list after `name` is bound to `id`: the first existing
/// binding of the name is replaced, or a new one appended.
pub open spec fn assoc_set(s: Seq<(Seq<u8>, usize)>, name: Seq<u8>, id: usize) -> Seq<
    (Seq<u8>, usize),
> {
    match assoc_idx(s, name, 0) {
        Option::Some(k) => s.update(k, (name, id)),
        Option::None => s.push((name, id)),
    }
}

/// After binding, the name answers with the new id.
pub proof fn lemma_assoc_set_same(s: Seq<(Seq<u8>, usize)>, name: Seq<u8>, id: usize)
    ensures
        assoc(assoc_set(s, name, id), name, 0) == Option::Some(id),
{
    lemma_assoc_set_same_at(s, name, id, 0);
}

proof fn lemma_assoc_set_same_at(s: Seq<(Seq<u8>, usize)>, name: Seq<u8>, id: usize, i: int)
    requires
        0 <= i <= s.len(),
        forall|t: int| 0 <= t < i ==> s[t].0 != name,
    ensures
        assoc(assoc_set(s, name, id), name, i) == Option::Some(id),
    decreases s.len() - i,
{
    lemma_assoc_idx(s, name, 0);
    if i < s.len() && s[i].0 != name {
        lemma_assoc_set_same_at(s, name, id, i + 1);
    }
}

/// Binding one name leaves every other name's binding unchanged.
pub proof fn lemma_assoc_set_other(s: Seq<(Seq<u8>, usize)>, name: Seq<u8>, id: usize, n2: Seq<u8>)
    requires
        n2 != name,
    ensures
        assoc(assoc_set(s, name, id), n2, 0) == assoc(s, n2, 0),
{
    lemma_assoc_set_other_at(s, name, id, n2, 0);
}

proof fn lemma_assoc_set_other_at(
    s: Seq<(Seq<u8>, usize)>,
    name: Seq<u8>,
    id: usize,
    n2: Seq<u8>,
    i: int,
)
    requires
        n2 != name,
        0 <= i,
    ensures
        assoc(assoc_set(s, name, id), n2, i) == assoc(s, n2, i),
    decreases s.len() - i,
{
    lemma_assoc_idx(s, name, 0);
    if i < s.len() {
        lemma_assoc_set_other_at(s, name, id, n2, i + 1);
    }
}

/// Where `assoc_idx` points, and what it means when it points nowhere.
pub proof fn lemma_assoc_idx(s: Seq<(Seq<u8>, usize)>, name: Seq<u8>, i: int)
    requires
        0 <= i,
    ensures
        assoc_idx(s, name, i) matches Option::Some(k) ==> i <= k < s.len() && s[k].0 == name && (
        forall|t: int| i <= t < k ==> s[t].0 != name),
        assoc_idx(s, name, i) is None ==> forall|t: int| i <= t < s.len() ==> s[t].0 != name,
    decreases s.len() - i,
{
    if i < s.len() && s[i].0 != name {
        lemma_assoc_idx(s, name, i + 1);
    }
}

/// Binds `name` to `id` in a binding list: replaces the first existing
/// binding of the name, or appends a new one.
fn bind_pair(s: &mut Vec<(Vec<u8>, usize)>, name: Vec<u8>, id: usize)
    ensures
        pairs_view(final(s)@) == assoc_set(pairs_view(old(s)@), name@, id),
{
    let ghost sv = pairs_view(old(s)@);
    proof {
        lemma_assoc_idx(sv, name@, 0);
    }
    let mut i: usize = 0;
    while i < s.len()
        invariant
            0 <= i <= s@.len(),
            s@ == old(s)@,
            sv == pairs_view(s@),
            sv.len() == s@.len(),
            forall|t: int| 0 <= t < i ==> sv[t].0 != name@,
        decreases s@.len() - i,
    {
        if crate::value::bytes_eq(&s[i].0, &name) {
            proof {
                assert(sv[i as int].0 == name@);
                assert(assoc_idx(sv, name@, 0) == Option::Some(i as int)) by {
                    lemma_assoc_idx_exact(sv, name@, i as int);
                }
            }
            s.set(i, (name, id));
            proof {
                assert(pairs_view(s@) =~= assoc_set(sv, name@, id));
            }
            return ;
        }
        proof {
            assert(sv[i as int].0 != name@);
        }
        i = i + 1;
    }
    s.push((name, id));
    proof {
        assert(assoc_idx(sv, name@, 0) is None) by {
            lemma_assoc_idx_none(sv, name@, 0);
        }
        assert(pairs_view(s@) =~= assoc_set(sv, name@, id));
    }
}

proof fn lemma_assoc_idx_exact(s: Seq<(Seq<u8>, usize)>, name: Seq<u8>, k: int)
    requires
        0 <= k < s.len(),
        s[k].0 == name,
        forall|t: int| 0 <= t < k ==> s[t].0 != name,
    ensures
        assoc_idx(s, name, 0) == Option::Some(k),
{
    lemma_assoc_idx_exact_at(s, name, k, 0);
}

proof fn lemma_assoc_idx_exact_at(s: Seq<(Seq<u8>, usize)>, name: Seq<u8>, k: int, i: int)
    requires
        0 <= i <= k < s.len(),
        s[k].0 == name,
        forall|t: int| i <= t < k ==> s[t].0 != name,
    ensures
        assoc_idx(s, name, i) == Option::Some(k),
    decreases k - i,
{
    if i < k {
        lemma_assoc_idx_exact_at(s, name, k, i + 1);
    }
}

proof fn lemma_assoc_idx_none(s: Seq<(Seq<u8>, usize)>, name: Seq<u8>, i: int)
    requires
        0 <= i,
        forall|t: int| i <= t < s.len() ==> s[t].0 != name,
    ensures
        assoc_idx(s, name, i) is None,
    decreases s.len() - i,
{
    if i < s.len() {
        lemma_assoc_idx_none(s, name, i + 1);
    }
}

/// Resolution only reads the frames it walks: chains equal below `i`
/// with the same hide markers overall resolve alike.
pub proof fn lemma_resolve_decl_agree(
    f1: Seq<FrameModel>,
    f2: Seq<FrameModel>,
    name: Seq<u8>,
    i: int,
)
    requires
        i <= f1.len(),
        i <= f2.len(),
        forall|k: int|
            0 <= k < i ==> #[trigger] assoc(f1[k].decls, name, 0) == assoc(f2[k].decls, name, 0),
        forall|id: usize| decl_hidden(f1, id) == decl_hidden(f2, id),
    ensures
        resolve_decl_upto(f1, name, i) == resolve_decl_upto(f2, name, i),
    decreases i,
{
    if 0 < i {
        lemma_resolve_decl_agree(f1, f2, name, i - 1);
    }
}

/// The environment twin of `lemma_resolve_decl_agree`.
pub proof fn lemma_resolve_env_agree(
    f1: Seq<FrameModel>,
    f2: Seq<FrameModel>,
    name: Seq<u8>,
    i: int,
)
    requires
        i <= f1.len(),
        i <= f2.len(),
        forall|k: int|
            0 <= k < i ==> #[trigger] assoc(f1[k].envs, name, 0) == assoc(f2[k].envs, name, 0),
        forall|id: usize| env_hidden(f1, id) == env_hidden(f2, id),
    ensures
        resolve_env_upto(f1, name, i) == resolve_env_upto(f2, name, i),
    decreases i,
{
    if 0 < i {
        lemma_resolve_env_agree(f1, f2, name, i - 1);
    }
}

/// The variable twin: only the walked frames matter.
pub proof fn lemma_resolve_var_agree(f1: Seq<FrameModel>, f2: Seq<FrameModel>, id: usize, i: int)
    requires
        i <= f1.len(),
        i <= f2.len(),
        forall|k: int|
            0 <= k < i ==> #[trigger] var_assoc(f1[k].vars, id, 0) == var_assoc(f2[k].vars, id, 0),
    ensures
        resolve_var_upto(f1, id, i) == resolve_var_upto(f2, id, i),
    decreases i,
{
    if 0 < i {
        lemma_resolve_var_agree(f1, f2, id, i - 1);
    }
}

/// Chains whose frames record the same visibility logs hide the same
/// ids.
pub proof fn lemma_hidden_same(f1: Seq<FrameModel>, f2: Seq<FrameModel>)
    requires
        f1.len() == f2.len(),
        forall|k: int| 0 <= k < f1.len() ==> #[trigger] f1[k].vis_decls == f2[k].vis_decls,
        forall|k: int| 0 <= k < f1.len() ==> #[trigger] f1[k].vis_envs == f2[k].vis_envs,
    ensures
        forall|id: usize| decl_hidden(f1, id) == decl_hidden(f2, id),
        forall|id: usize| env_hidden(f1, id) == env_hidden(f2, id),
{
    assert forall|id: usize| decl_hidden(f1, id) == decl_hidden(f2, id) by {
        lemma_decl_vis_agree(f1, f2, id, f1.len() as int);
    }
    assert forall|id: usize| env_hidden(f1, id) == env_hidden(f2, id) by {
        lemma_env_vis_agree(f1, f2, id, f1.len() as int);
    }
}

/// Chains whose walked frames record the same declaration logs agree.
pub proof fn lemma_decl_vis_agree(f1: Seq<FrameModel>, f2: Seq<FrameModel>, id: usize, i: int)
    requires
        i <= f1.len(),
        i <= f2.len(),
        forall|k: int| 0 <= k < i ==> #[trigger] f1[k].vis_decls == f2[k].vis_decls,
    ensures
        decl_vis_upto(f1, id, i) == decl_vis_upto(f2, id, i),
    decreases i,
{
    if 0 < i {
        lemma_decl_vis_agree(f1, f2, id, i - 1);
    }
}

/// The environment twin of `lemma_decl_vis_agree`.
pub proof fn lemma_env_vis_agree(f1: Seq<FrameModel>, f2: Seq<FrameModel>, id: usize, i: int)
    requires
        i <= f1.len(),
        i <= f2.len(),
        forall|k: int| 0 <= k < i ==> #[trigger] f1[k].vis_envs == f2[k].vis_envs,
    ensures
        env_vis_upto(f1, id, i) == env_vis_upto(f2, id, i),
    decreases i,
{
    if 0 < i {
        lemma_env_vis_agree(f1, f2, id, i - 1);
    }
}

/// An id no log mentions gets no verdict.
pub proof fn lemma_vis_unmentioned(log: Seq<(usize, bool)>, id: usize)
    requires
        forall|t: int| 0 <= t < log.len() ==> #[trigger] log[t].0 != id,
    ensures
        frame_vis(log, id) is None,
    decreases log.len(),
{
    if log.len() > 0 {
        assert(log.drop_last() =~= log.take(log.len() - 1));
        assert forall|t: int| 0 <= t < log.drop_last().len() implies #[trigger] log.drop_last()[t].0
            != id by {
            assert(log.drop_last()[t] == log[t]);
        }
        lemma_vis_unmentioned(log.drop_last(), id);
    }
}

/// An id at or past every frame's bound appears in no log, so it is
/// hidden nowhere.
pub proof fn lemma_fresh_decl_not_hidden(m: StateModel, id: usize)
    requires
        state_wf(m),
        id >= m.decls.len(),
    ensures
        !decl_hidden(m.frames, id),
{
    lemma_fresh_decl_vis(m, id, m.frames.len() as int);
}

proof fn lemma_fresh_decl_vis(m: StateModel, id: usize, i: int)
    requires
        state_wf(m),
        id >= m.decls.len(),
        i <= m.frames.len(),
    ensures
        decl_vis_upto(m.frames, id, i) is None,
    decreases i,
{
    if 0 < i {
        assert(frame_bounded(m.frames[i - 1], m.decls.len() as int, m.env_vals.len() as int));
        lemma_vis_unmentioned(m.frames[i - 1].vis_decls, id);
        lemma_fresh_decl_vis(m, id, i - 1);
    }
}

/// The environment twin of `lemma_fresh_decl_not_hidden`.
pub proof fn lemma_fresh_env_not_hidden(m: StateModel, id: usize)
    requires
        state_wf(m),
        id >= m.env_vals.len(),
    ensures
        !env_hidden(m.frames, id),
{
    lemma_fresh_env_vis(m, id, m.frames.len() as int);
}

proof fn lemma_fresh_env_vis(m: StateModel, id: usize, i: int)
    requires
        state_wf(m),
        id >= m.env_vals.len(),
        i <= m.frames.len(),
    ensures
        env_vis_upto(m.frames, id, i) is None,
    decreases i,
{
    if 0 < i {
        assert(frame_bounded(m.frames[i - 1], m.decls.len() as int, m.env_vals.len() as int));
        lemma_vis_unmentioned(m.frames[i - 1].vis_envs, id);
        lemma_fresh_env_vis(m, id, i - 1);
    }
}

impl EngineState {
    /// Opens a fresh scope frame for a block activation.
    pub fn enter_scope(&mut self)
        ensures
            final(self)@.decls == old(self)@.decls,
            final(self)@.modules == old(self)@.modules,
            final(self)@.env_vals == old(self)@.env_vals,
            final(self)@.frames == old(self)@.frames.push(empty_frame()),
            state_wf(old(self)@) ==> state_wf(final(self)@),
    {
        let ghost oldm = self@;
        self.frames.push(
            ScopeFrame {
                decls: Vec::new(),
                envs: Vec::new(),
                vis_decls: Vec::new(),
                vis_envs: Vec::new(),
                vars: Vec::new(),
            },
        );
        proof {
            assert(self@.frames =~= oldm.frames.push(empty_frame())) by {
                assert(frame_model(self.frames@.last()) =~= empty_frame());
            }
            if state_wf(oldm) {
                let m2 = self@;
                assert(m2.modules == oldm.modules);
                assert(m2.decls == oldm.decls);
                assert(m2.env_vals == oldm.env_vals);
                assert forall|k: int|
                    0 <= k < m2.frames.len() implies frame_bounded(
                    #[trigger] m2.frames[k],
                    m2.decls.len() as int,
                    m2.env_vals.len() as int,
                ) by {
                    if k < oldm.frames.len() {
                        assert(m2.frames[k] == oldm.frames[k]);
                    } else {
                        assert(m2.frames[k] == empty_frame());
                    }
                }
                assert(state_wf(m2));
            }
        }
    }

    /// Closes the innermost frame: every binding and hide marker it
    /// held is discarded, and the enclosing scope stands as it was.
    pub fn exit_scope(&mut self)
        requires
            old(self)@.frames.len() > 1,
        ensures
            final(self)@.decls == old(self)@.decls,
            final(self)@.modules == old(self)@.modules,
            final(self)@.env_vals == old(self)@.env_vals,
            final(self)@.frames == old(self)@.frames.drop_last(),
            state_wf(old(self)@) ==> state_wf(final(self)@),
    {
        let ghost oldm = self@;
        let _ = self.frames.pop();
        proof {
            assert(self@.frames =~= oldm.frames.drop_last());
            if state_wf(oldm) {
                let m2 = self@;
                assert(m2.modules == oldm.modules);
                assert(m2.decls == oldm.decls);
                assert(m2.env_vals == oldm.env_vals);
                assert forall|k: int|
                    0 <= k < m2.frames.len() implies frame_bounded(
                    #[trigger] m2.frames[k],
                    m2.decls.len() as int,
                    m2.env_vals.len() as int,
                ) by {
                    assert(m2.frames[k] == oldm.frames[k]);
                }
                assert(state_wf(m2));
            }
        }
    }

    /// Binds a variable id to a value in the innermost frame, replacing
    /// any binding of the same id this frame already holds. Afterwards
    /// the id resolves to this value; every other id resolves as before.
    pub fn add_var(&mut self, var_id: usize, value: Value)
        requires
            old(self)@.frames.len() >= 1,
        ensures
            final(self)@.decls == old(self)@.decls,
            final(self)@.modules == old(self)@.modules,
            final(self)@.env_vals == old(self)@.env_vals,
            final(self)@.frames.len() == old(self)@.frames.len(),
            forall|k: int|
                0 <= k < old(self)@.frames.len() - 1 ==> final(self)@.frames[k] == old(
                    self,
                )@.frames[k],
            final(self)@.frames.last().decls == old(self)@.frames.last().decls,
            final(self)@.frames.last().envs == old(self)@.frames.last().envs,
            final(self)@.frames.last().vis_decls == old(self)@.frames.last().vis_decls,
            final(self)@.frames.last().vis_envs == old(self)@.frames.last().vis_envs,
            resolve_var_m(final(self)@.frames, var_id) == Option::Some(value@),
            forall|id2: usize|
                id2 != var_id ==> resolve_var_m(final(self)@.frames, id2) == resolve_var_m(
                    old(self)@.frames,
                    id2,
                ),
            state_wf(old(self)@) ==> state_wf(final(self)@),
    {
        let ghost oldm = self@;
        let mut top = match self.frames.pop() {
            Option::Some(f) => f,
            Option::None => {
                proof {
                    assert(false);
                }
                ScopeFrame {
                    decls: Vec::new(),
                    envs: Vec::new(),
                    vis_decls: Vec::new(),
                    vis_envs: Vec::new(),
                    vars: Vec::new(),
                }
            },
        };
        let ghost oldtop = frame_model(top);
        var_bind(&mut top.vars, var_id, value);
        let ghost newtop = frame_model(top);
        self.frames.push(top);
        proof {
            let lastk = oldm.frames.len() - 1;
            assert(self@.frames =~= oldm.frames.update(lastk, newtop));
            lemma_var_assoc_set_same(oldtop.vars, var_id, value@);
            lemma_var_assoc_set_other(oldtop.vars, var_id, value@);
            assert(resolve_var_upto(self@.frames, var_id, lastk + 1) == Option::Some(value@));
            assert forall|id2: usize|
                id2 != var_id implies resolve_var_m(self@.frames, id2) == resolve_var_m(
                oldm.frames,
                id2,
            ) by {
                lemma_resolve_var_agree(self@.frames, oldm.frames, id2, lastk + 1);
            }
            if state_wf(oldm) {
                let m2 = self@;
                assert(m2.modules == oldm.modules);
                assert(m2.decls == oldm.decls);
                assert(m2.env_vals == oldm.env_vals);
                assert forall|k: int|
                    0 <= k < m2.frames.len() implies frame_bounded(
                    #[trigger] m2.frames[k],
                    m2.decls.len() as int,
                    m2.env_vals.len() as int,
                ) by {
                    if k < lastk {
                        assert(m2.frames[k] == oldm.frames[k]);
                    } else {
                        assert(m2.frames[k].decls == oldm.frames[lastk].decls);
                        assert(m2.frames[k].envs == oldm.frames[lastk].envs);
                        assert(m2.frames[k].vis_decls == oldm.frames[lastk].vis_decls);
                        assert(m2.frames[k].vis_envs == oldm.frames[lastk].vis_envs);
                        assert(frame_bounded(oldm.frames[lastk], m2.decls.len() as int, m2.env_vals.len() as int));
                    }
                }
                assert(state_wf(m2));
            }
        }
    }
}

/// A pending batch of declarations and modules from one parse pass.
/// Nothing in it is visible until `merge_delta` commits the whole batch
/// at once.
pub struct StateDelta {
    pub decls: Vec<Decl>,
    pub modules: Vec<Module>,
}

impl EngineState {
    /// Declares a command under `name` in the innermost frame. Where the
    /// frame already holds a visible binding of the name this is a
    /// duplicate declaration and fails; a binding the name only had
    /// through a now-hidden declaration does not count, so a name can be
    /// re-declared after a hide, and then resolves to the new declaration
    /// only.
    pub fn add_decl(&mut self, name: Vec<u8>, span: Span) -> (r: Result<usize, ShellError>)
        requires
            state_wf(old(self)@),
        ensures
            state_wf(final(self)@),
            (r is Err) <==> (match assoc(old(self)@.frames.last().decls, name@, 0) {
                Option::Some(id) => !decl_hidden(old(self)@.frames, id),
                Option::None => false,
            }),
            r matches Err(e) ==> final(self)@ == old(self)@ && e@ == crate::error::err_model(
                ShellError::DuplicateDeclaration(name, span),
            ),
            r matches Ok(id) ==> {
                &&& id == old(self)@.decls.len()
                &&& final(self)@.decls == old(self)@.decls.push(name@)
                &&& final(self)@.modules == old(self)@.modules
                &&& final(self)@.env_vals == old(self)@.env_vals
                &&& final(self)@.frames.len() == old(self)@.frames.len()
                &&& resolve_decl_m(final(self)@.frames, name@) == Option::Some(id)
                &&& forall|n2: Seq<u8>|
                    n2 != name@ ==> resolve_decl_m(final(self)@.frames, n2) == resolve_decl_m(
                        old(self)@.frames,
                        n2,
                    )
                &&& forall|n2: Seq<u8>|
                    resolve_env_m(final(self)@.frames, n2) == resolve_env_m(old(self)@.frames, n2)
            },
    {
        let ghost oldm = self@;
        let ghost namev = name@;
        let n = self.frames.len();
        match assoc_find(&self.frames[n - 1].decls, &name) {
            Option::Some(id) => {
                if !self.is_decl_hidden(id) {
                    return Result::Err(ShellError::DuplicateDeclaration(name, span));
                }
            },
            Option::None => {},
        }
        let id = self.decls.len();
        self.decls.push(Decl { name: crate::value::bytes_clone(&name) });
        let mut top = match self.frames.pop() {
            Option::Some(f) => f,
            Option::None => {
                proof {
                    assert(false);
                }
                ScopeFrame {
                    decls: Vec::new(),
                    envs: Vec::new(),
                    vis_decls: Vec::new(),
                    vis_envs: Vec::new(),
                    vars: Vec::new(),
                }
            },
        };
        let ghost oldtop = frame_model(top);
        bind_pair(&mut top.decls, name, id);
        let ghost newtop = frame_model(top);
        self.frames.push(top);
        proof {
            let m2 = self@;
            let lastk = oldm.frames.len() - 1;
            assert(m2.decls =~= oldm.decls.push(namev));
            assert(m2.modules =~= oldm.modules);
            assert(m2.env_vals =~= oldm.env_vals);
            assert(m2.frames =~= oldm.frames.update(lastk, newtop));
            assert(newtop.decls == assoc_set(oldtop.decls, namev, id));
            assert forall|k: int| 0 <= k < m2.frames.len() implies #[trigger] m2.frames[k].vis_decls
                == oldm.frames[k].vis_decls && m2.frames[k].vis_envs
                == oldm.frames[k].vis_envs by {
                if k != lastk {
                    assert(m2.frames[k] == oldm.frames[k]);
                }
            }
            lemma_hidden_same(m2.frames, oldm.frames);
            lemma_fresh_decl_not_hidden(oldm, id);
            lemma_assoc_set_same(oldtop.decls, namev, id);
            assert(assoc(m2.frames[lastk].decls, namev, 0) == Option::Some(id));
            assert(!decl_hidden(m2.frames, id));
            assert(resolve_decl_upto(m2.frames, namev, lastk + 1) == Option::Some(id));
            assert forall|n2: Seq<u8>|
                n2 != namev implies resolve_decl_m(m2.frames, n2) == resolve_decl_m(
                oldm.frames,
                n2,
            ) by {
                assert forall|k: int|
                    0 <= k < lastk + 1 implies #[trigger] assoc(m2.frames[k].decls, n2, 0) == assoc(
                    oldm.frames[k].decls,
                    n2,
                    0,
                ) by {
                    if k != lastk {
                        assert(m2.frames[k] == oldm.frames[k]);
                    } else {
                        lemma_assoc_set_other(oldtop.decls, namev, id, n2);
                    }
                }
                lemma_resolve_decl_agree(m2.frames, oldm.frames, n2, lastk + 1);
            }
            assert forall|n2: Seq<u8>|
                resolve_env_m(m2.frames, n2) == resolve_env_m(oldm.frames, n2) by {
                assert forall|k: int|
                    0 <= k < lastk + 1 implies #[trigger] assoc(m2.frames[k].envs, n2, 0) == assoc(
                    oldm.frames[k].envs,
                    n2,
                    0,
                ) by {
                    if k != lastk {
                        assert(m2.frames[k] == oldm.frames[k]);
                    } else {
                        assert(m2.frames[k].envs == oldm.frames[k].envs);
                    }
                }
                lemma_resolve_env_agree(m2.frames, oldm.frames, n2, lastk + 1);
            }
            assert(m2.modules == oldm.modules);
            assert forall|k: int|
                0 <= k < m2.frames.len() implies frame_bounded(
                #[trigger] m2.frames[k],
                m2.decls.len() as int,
                m2.env_vals.len() as int,
            ) by {
                if k != lastk {
                    assert(m2.frames[k] == oldm.frames[k]);
                    assert(frame_bounded(oldm.frames[k], oldm.decls.len() as int, oldm.env_vals.len() as int));
                } else {
                    assert(frame_bounded(oldtop, oldm.decls.len() as int, oldm.env_vals.len() as int));
                    lemma_assoc_set_bounded(oldtop.decls, namev, id, m2.decls.len() as int);
                    assert(m2.frames[k].envs == oldtop.envs);
                    assert(m2.frames[k].vis_decls == oldtop.vis_decls);
                    assert(m2.frames[k].vis_envs == oldtop.vis_envs);
                }
            }
            assert forall|k: int|
                0 <= k < m2.modules.len() implies module_bounded(
                #[trigger] m2.modules[k],
                m2.decls.len() as int,
                m2.env_vals.len() as int,
            ) by {
                assert(m2.modules[k] == oldm.modules[k]);
                assert(module_bounded(oldm.modules[k], oldm.decls.len() as int, oldm.env_vals.len() as int));
            }
            assert(state_wf(m2));
        }
        Result::Ok(id)
    }
}

/// Binding a bounded id into a bounded list keeps the list bounded.
pub proof fn lemma_assoc_set_bounded(s: Seq<(Seq<u8>, usize)>, name: Seq<u8>, id: usize, nd: int)
    requires
        forall|t: int| 0 <= t < s.len() ==> #[trigger] s[t].1 < nd,
        id < nd,
    ensures
        forall|t: int|
            0 <= t < assoc_set(s, name, id).len() ==> #[trigger] assoc_set(s, name, id)[t].1 < nd,
{
    lemma_assoc_idx(s, name, 0);
}

impl EngineState {
    /// Binds an environment name to a value in the innermost frame,
    /// replacing a binding of the same name this frame already holds.
    /// Unlike command declarations, re-binding an environment name is
    /// always allowed; afterwards the name resolves to the new value and
    /// every other name resolves as before. Command resolution is
    /// untouched: the namespaces are independent.
    pub fn add_env_var(&mut self, name: Vec<u8>, value: Value) -> (r: usize)
        requires
            state_wf(old(self)@),
        ensures
            state_wf(final(self)@),
            r == old(self)@.env_vals.len(),
            final(self)@.decls == old(self)@.decls,
            final(self)@.modules == old(self)@.modules,
            final(self)@.env_vals == old(self)@.env_vals.push(value@),
            final(self)@.frames.len() == old(self)@.frames.len(),
            resolve_env_m(final(self)@.frames, name@) == Option::Some(r),
            final(self)@.env_vals[r as int] == value@,
            forall|n2: Seq<u8>|
                n2 != name@ ==> resolve_env_m(final(self)@.frames, n2) == resolve_env_m(
                    old(self)@.frames,
                    n2,
                ),
            forall|n2: Seq<u8>|
                resolve_decl_m(final(self)@.frames, n2) == resolve_decl_m(old(self)@.frames, n2),
    {
        let ghost oldm = self@;
        let ghost namev = name@;
        let id = self.env_vals.len();
        self.env_vals.push(value);
        let mut top = match self.frames.pop() {
            Option::Some(f) => f,
            Option::None => {
                proof {
                    assert(false);
                }
                ScopeFrame {
                    decls: Vec::new(),
                    envs: Vec::new(),
                    vis_decls: Vec::new(),
                    vis_envs: Vec::new(),
                    vars: Vec::new(),
                }
            },
        };
        let ghost oldtop = frame_model(top);
        bind_pair(&mut top.envs, name, id);
        let ghost newtop = frame_model(top);
        self.frames.push(top);
        proof {
            let m2 = self@;
            let lastk = oldm.frames.len() - 1;
            assert(m2.decls =~= oldm.decls);
            assert(m2.modules =~= oldm.modules);
            assert(m2.env_vals =~= oldm.env_vals.push(m2.env_vals[id as int]));
            assert(m2.frames =~= oldm.frames.update(lastk, newtop));
            assert(newtop.envs == assoc_set(oldtop.envs, namev, id));
            assert forall|k: int| 0 <= k < m2.frames.len() implies #[trigger] m2.frames[k].vis_decls
                == oldm.frames[k].vis_decls && m2.frames[k].vis_envs
                == oldm.frames[k].vis_envs by {
                if k != lastk {
                    assert(m2.frames[k] == oldm.frames[k]);
                }
            }
            lemma_hidden_same(m2.frames, oldm.frames);
            lemma_fresh_env_not_hidden(oldm, id);
            lemma_assoc_set_same(oldtop.envs, namev, id);
            assert(assoc(m2.frames[lastk].envs, namev, 0) == Option::Some(id));
            assert(!env_hidden(m2.frames, id));
            assert(resolve_env_upto(m2.frames, namev, lastk + 1) == Option::Some(id));
            assert forall|n2: Seq<u8>|
                n2 != namev implies resolve_env_m(m2.frames, n2) == resolve_env_m(
                oldm.frames,
                n2,
            ) by {
                assert forall|k: int|
                    0 <= k < lastk + 1 implies #[trigger] assoc(m2.frames[k].envs, n2, 0) == assoc(
                    oldm.frames[k].envs,
                    n2,
                    0,
                ) by {
                    if k != lastk {
                        assert(m2.frames[k] == oldm.frames[k]);
                    } else {
                        lemma_assoc_set_other(oldtop.envs, namev, id, n2);
                    }
                }
                lemma_resolve_env_agree(m2.frames, oldm.frames, n2, lastk + 1);
            }
            assert forall|n2: Seq<u8>|
                resolve_decl_m(m2.frames, n2) == resolve_decl_m(oldm.frames, n2) by {
                assert forall|k: int|
                    0 <= k < lastk + 1 implies #[trigger] assoc(m2.frames[k].decls, n2, 0) == assoc(
                    oldm.frames[k].decls,
                    n2,
                    0,
                ) by {
                    if k != lastk {
                        assert(m2.frames[k] == oldm.frames[k]);
                    } else {
                        assert(m2.frames[k].decls == oldm.frames[k].decls);
                    }
                }
                lemma_resolve_decl_agree(m2.frames, oldm.frames, n2, lastk + 1);
            }
            assert forall|k: int|
                0 <= k < m2.frames.len() implies frame_bounded(
                #[trigger] m2.frames[k],
                m2.decls.len() as int,
                m2.env_vals.len() as int,
            ) by {
                if k != lastk {
                    assert(m2.frames[k] == oldm.frames[k]);
                    assert(frame_bounded(oldm.frames[k], oldm.decls.len() as int, oldm.env_vals.len() as int));
                } else {
                    assert(oldtop == oldm.frames[lastk]);
                    assert(frame_bounded(oldtop, oldm.decls.len() as int, oldm.env_vals.len() as int));
                    lemma_assoc_set_bounded(oldtop.envs, namev, id, m2.env_vals.len() as int);
                    assert(m2.frames[k].decls == oldtop.decls);
                    assert(m2.frames[k].vis_decls == oldtop.vis_decls);
                    assert(m2.frames[k].vis_envs == oldtop.vis_envs);
                }
            }
            assert forall|k: int|
                0 <= k < m2.modules.len() implies module_bounded(
                #[trigger] m2.modules[k],
                m2.decls.len() as int,
                m2.env_vals.len() as int,
            ) by {
                assert(m2.modules[k] == oldm.modules[k]);
                assert(module_bounded(oldm.modules[k], oldm.decls.len() as int, oldm.env_vals.len() as int));
            }
            assert(state_wf(m2));
        }
        id
    }

    /// Registers a module in the committed table and answers its id.
    pub fn register_module(&mut self, module: Module) -> (r: usize)
        requires
            state_wf(old(self)@),
            module_bounded(
                module@,
                old(self)@.decls.len() as int,
                old(self)@.env_vals.len() as int,
            ),
        ensures
            state_wf(final(self)@),
            r == old(self)@.modules.len(),
            final(self)@.decls == old(self)@.decls,
            final(self)@.env_vals == old(self)@.env_vals,
            final(self)@.frames == old(self)@.frames,
            final(self)@.modules == old(self)@.modules.push(module@),
    {
        let ghost oldm = self@;
        let id = self.modules.len();
        self.modules.push(module);
        proof {
            let m2 = self@;
            assert(m2.modules =~= oldm.modules.push(m2.modules[id as int]));
            assert(m2.decls =~= oldm.decls);
            assert(m2.env_vals =~= oldm.env_vals);
            assert(m2.frames =~= oldm.frames);
            assert forall|k: int|
                0 <= k < m2.modules.len() implies module_bounded(
                #[trigger] m2.modules[k],
                m2.decls.len() as int,
                m2.env_vals.len() as int,
            ) by {
                if k < oldm.modules.len() {
                    assert(m2.modules[k] == oldm.modules[k]);
                    assert(module_bounded(oldm.modules[k], oldm.decls.len() as int, oldm.env_vals.len() as int));
                }
            }
            assert(state_wf(m2));
        }
        id
    }

    /// Commits one parse pass's pending declarations and modules in a
    /// single step: afterwards the committed tables hold exactly the old
    /// entries followed by the whole batch, and the scope frames are
    /// untouched. Readers therefore see either none of a batch or all of
    /// it, never a part.
    pub fn merge_delta(&mut self, delta: StateDelta)
        requires
            state_wf(old(self)@),
            forall|k: int|
                0 <= k < delta.modules@.len() ==> module_bounded(
                    #[trigger] delta.modules@[k]@,
                    old(self)@.decls.len() + delta.decls@.len() as int,
                    old(self)@.env_vals.len() as int,
                ),
        ensures
            state_wf(final(self)@),
            final(self)@.decls == old(self)@.decls + Seq::new(
                delta.decls@.len(),
                |i: int| delta.decls@[i].name@,
            ),
            final(self)@.modules == old(self)@.modules + Seq::new(
                delta.modules@.len(),
                |i: int| module_model(delta.modules@[i]),
            ),
            final(self)@.env_vals == old(self)@.env_vals,
            final(self)@.frames == old(self)@.frames,
    {
        let ghost oldm = self@;
        let ghost ddecls = Seq::new(delta.decls@.len(), |i: int| delta.decls@[i].name@);
        let ghost dmods = Seq::new(delta.modules@.len(), |i: int| module_model(delta.modules@[i]));
        let StateDelta { mut decls, mut modules } = delta;
        self.decls.append(&mut decls);
        self.modules.append(&mut modules);
        proof {
            let m2 = self@;
            assert(m2.decls =~= oldm.decls + ddecls);
            assert(m2.modules =~= oldm.modules + dmods);
            assert(m2.env_vals =~= oldm.env_vals);
            assert(m2.frames =~= oldm.frames);
            assert forall|k: int|
                0 <= k < m2.frames.len() implies frame_bounded(
                #[trigger] m2.frames[k],
                m2.decls.len() as int,
                m2.env_vals.len() as int,
            ) by {
                assert(m2.frames[k] == oldm.frames[k]);
                assert(frame_bounded(oldm.frames[k], oldm.decls.len() as int, oldm.env_vals.len() as int));
                lemma_frame_bounded_mono(
                    m2.frames[k],
                    oldm.decls.len() as int,
                    oldm.env_vals.len() as int,
                    m2.decls.len() as int,
                    m2.env_vals.len() as int,
                );
            }
            assert forall|k: int|
                0 <= k < m2.modules.len() implies module_bounded(
                #[trigger] m2.modules[k],
                m2.decls.len() as int,
                m2.env_vals.len() as int,
            ) by {
                if k < oldm.modules.len() {
                    assert(m2.modules[k] == oldm.modules[k]);
                    assert(module_bounded(oldm.modules[k], oldm.decls.len() as int, oldm.env_vals.len() as int));
                    lemma_module_bounded_mono(
                        m2.modules[k],
                        oldm.decls.len() as int,
                        oldm.env_vals.len() as int,
                        m2.decls.len() as int,
                        m2.env_vals.len() as int,
                    );
                } else {
                    assert(m2.modules[k] == dmods[k - oldm.modules.len()]);
                    assert(module_bounded(
                        delta.modules@[k - oldm.modules.len()]@,
                        oldm.decls.len() + ddecls.len() as int,
                        oldm.env_vals.len() as int,
                    ));
                }
            }
            assert(state_wf(m2));
        }
    }
}

/// The skeleton relation every hide or import step preserves: the same
/// tables, the same number of frames, every frame's bindings and
/// variables untouched, and every frame below the innermost untouched
/// entirely; only the innermost frame's visibility logs may have grown.
pub open spec fn only_top_vis_extended(m1: StateModel, m2: StateModel) -> bool {
    &&& m2.decls == m1.decls
    &&& m2.modules == m1.modules
    &&& m2.env_vals == m1.env_vals
    &&& m2.frames.len() == m1.frames.len()
    &&& forall|k: int|
        0 <= k < m1.frames.len() ==> (#[trigger] m2.frames[k]).decls == m1.frames[k].decls
            && m2.frames[k].envs == m1.frames[k].envs && m2.frames[k].vars == m1.frames[k].vars
    &&& forall|k: int| 0 <= k < m1.frames.len() - 1 ==> #[trigger] m2.frames[k] == m1.frames[k]
    &&& m1.frames.last().vis_decls.is_prefix_of(m2.frames.last().vis_decls)
    &&& m1.frames.last().vis_envs.is_prefix_of(m2.frames.last().vis_envs)
}

/// The relation is reflexive and composes.
pub proof fn lemma_only_top_vis_trans(m1: StateModel, m2: StateModel, m3: StateModel)
    requires
        only_top_vis_extended(m1, m2),
        only_top_vis_extended(m2, m3),
    ensures
        only_top_vis_extended(m1, m3),
{
    assert(m1.frames.len() >= 1 ==> m1.frames.last().vis_decls.is_prefix_of(
        m3.frames.last().vis_decls,
    )) by {
        if m1.frames.len() >= 1 {
            let a = m1.frames.last().vis_decls;
            let b = m2.frames.last().vis_decls;
            let c = m3.frames.last().vis_decls;
            assert(a.is_prefix_of(b));
            assert(b.is_prefix_of(c));
            assert(a =~= c.take(a.len() as int));
        }
    }
    assert(m1.frames.len() >= 1 ==> m1.frames.last().vis_envs.is_prefix_of(
        m3.frames.last().vis_envs,
    )) by {
        if m1.frames.len() >= 1 {
            let a = m1.frames.last().vis_envs;
            let b = m2.frames.last().vis_envs;
            let c = m3.frames.last().vis_envs;
            assert(a =~= c.take(a.len() as int));
        }
    }
    assert forall|k: int| 0 <= k < m1.frames.len() - 1 implies #[trigger] m3.frames[k]
        == m1.frames[k] by {
        assert(m2.frames[k] == m1.frames[k]);
    }
    assert forall|k: int|
        0 <= k < m1.frames.len() implies (#[trigger] m3.frames[k]).decls == m1.frames[k].decls
        && m3.frames[k].envs == m1.frames[k].envs && m3.frames[k].vars == m1.frames[k].vars by {
        assert(m2.frames[k].decls == m1.frames[k].decls);
        assert(m2.frames[k].envs == m1.frames[k].envs);
        assert(m2.frames[k].vars == m1.frames[k].vars);
    }
}

impl EngineState {
    /// Appends one visibility verdict for a declaration id to the
    /// innermost frame's log.
    fn push_decl_vis(&mut self, id: usize, vis: bool)
        requires
            state_wf(old(self)@),
            id < old(self)@.decls.len(),
        ensures
            state_wf(final(self)@),
            only_top_vis_extended(old(self)@, final(self)@),
            final(self)@.frames.last().vis_decls == old(self)@.frames.last().vis_decls.push(
                (id, vis),
            ),
            final(self)@.frames.last().vis_envs == old(self)@.frames.last().vis_envs,
            decl_hidden(final(self)@.frames, id) == !vis,
            forall|id2: usize|
                id2 != id ==> decl_hidden(final(self)@.frames, id2) == decl_hidden(
                    old(self)@.frames,
                    id2,
                ),
            forall|id2: usize|
                env_hidden(final(self)@.frames, id2) == env_hidden(old(self)@.frames, id2),
    {
        let ghost oldm = self@;
        let mut top = match self.frames.pop() {
            Option::Some(f) => f,
            Option::None => {
                proof {
                    assert(false);
                }
                ScopeFrame {
                    decls: Vec::new(),
                    envs: Vec::new(),
                    vis_decls: Vec::new(),
                    vis_envs: Vec::new(),
                    vars: Vec::new(),
                }
            },
        };
        let ghost oldtop = frame_model(top);
        top.vis_decls.push((id, vis));
        let ghost newtop = frame_model(top);
        self.frames.push(top);
        proof {
            let m2 = self@;
            let lastk = oldm.frames.len() - 1;
            assert(m2.decls =~= oldm.decls);
            assert(m2.modules =~= oldm.modules);
            assert(m2.env_vals =~= oldm.env_vals);
            assert(m2.frames =~= oldm.frames.update(lastk, newtop));
            assert(newtop.vis_decls =~= oldtop.vis_decls.push((id, vis)));
            assert(oldtop.vis_decls =~= newtop.vis_decls.take(oldtop.vis_decls.len() as int));
            assert(frame_vis(newtop.vis_decls, id) == Option::Some(vis));
            assert(decl_vis_upto(m2.frames, id, lastk + 1) == Option::Some(vis));
            assert forall|id2: usize|
                id2 != id implies decl_hidden(m2.frames, id2) == decl_hidden(
                oldm.frames,
                id2,
            ) by {
                assert(frame_vis(newtop.vis_decls, id2) == frame_vis(oldtop.vis_decls, id2));
                assert forall|k: int|
                    0 <= k < lastk + 1 implies #[trigger] frame_vis(m2.frames[k].vis_decls, id2)
                    == frame_vis(oldm.frames[k].vis_decls, id2) by {
                    if k != lastk {
                        assert(m2.frames[k] == oldm.frames[k]);
                    }
                }
                lemma_decl_vis_agree_pointwise(m2.frames, oldm.frames, id2, lastk + 1);
            }
            assert forall|id2: usize|
                env_hidden(m2.frames, id2) == env_hidden(oldm.frames, id2) by {
                assert forall|k: int|
                    0 <= k < lastk + 1 implies #[trigger] m2.frames[k].vis_envs
                    == oldm.frames[k].vis_envs by {
                    if k != lastk {
                        assert(m2.frames[k] == oldm.frames[k]);
                    }
                }
                lemma_env_vis_agree(m2.frames, oldm.frames, id2, lastk + 1);
            }
            assert forall|k: int|
                0 <= k < m2.frames.len() implies frame_bounded(
                #[trigger] m2.frames[k],
                m2.decls.len() as int,
                m2.env_vals.len() as int,
            ) by {
                if k != lastk {
                    assert(m2.frames[k] == oldm.frames[k]);
                    assert(frame_bounded(
                        oldm.frames[k],
                        oldm.decls.len() as int,
                        oldm.env_vals.len() as int,
                    ));
                } else {
                    assert(oldtop == oldm.frames[lastk]);
                    assert(frame_bounded(
                        oldtop,
                        oldm.decls.len() as int,
                        oldm.env_vals.len() as int,
                    ));
                    assert forall|t: int|
                        0 <= t < newtop.vis_decls.len() implies #[trigger] newtop.vis_decls[t].0
                        < m2.decls.len() by {
                        if t < oldtop.vis_decls.len() {
                            assert(newtop.vis_decls[t] == oldtop.vis_decls[t]);
                        }
                    }
                    assert(newtop.decls == oldtop.decls);
                    assert(newtop.envs == oldtop.envs);
                    assert(newtop.vis_envs == oldtop.vis_envs);
                }
            }
            assert forall|k: int|
                0 <= k < m2.modules.len() implies module_bounded(
                #[trigger] m2.modules[k],
                m2.decls.len() as int,
                m2.env_vals.len() as int,
            ) by {
                assert(m2.modules[k] == oldm.modules[k]);
                assert(module_bounded(
                    oldm.modules[k],
                    oldm.decls.len() as int,
                    oldm.env_vals.len() as int,
                ));
            }
            assert(state_wf(m2));
        }
    }

    /// Appends one visibility verdict for an environment id to the
    /// innermost frame's log.
    fn push_env_vis(&mut self, id: usize, vis: bool)
        requires
            state_wf(old(self)@),
            id < old(self)@.env_vals.len(),
        ensures
            state_wf(final(self)@),
            only_top_vis_extended(old(self)@, final(self)@),
            final(self)@.frames.last().vis_envs == old(self)@.frames.last().vis_envs.push(
                (id, vis),
            ),
            final(self)@.frames.last().vis_decls == old(self)@.frames.last().vis_decls,
            env_hidden(final(self)@.frames, id) == !vis,
            forall|id2: usize|
                id2 != id ==> env_hidden(final(self)@.frames, id2) == env_hidden(
                    old(self)@.frames,
                    id2,
                ),
            forall|id2: usize|
                decl_hidden(final(self)@.frames, id2) == decl_hidden(old(self)@.frames, id2),
    {
        let ghost oldm = self@;
        let mut top = match self.frames.pop() {
            Option::Some(f) => f,
            Option::None => {
                proof {
                    assert(false);
                }
                ScopeFrame {
                    decls: Vec::new(),
                    envs: Vec::new(),
                    vis_decls: Vec::new(),
                    vis_envs: Vec::new(),
                    vars: Vec::new(),
                }
            },
        };
        let ghost oldtop = frame_model(top);
        top.vis_envs.push((id, vis));
        let ghost newtop = frame_model(top);
        self.frames.push(top);
        proof {
            let m2 = self@;
            let lastk = oldm.frames.len() - 1;
            assert(m2.decls =~= oldm.decls);
            assert(m2.modules =~= oldm.modules);
            assert(m2.env_vals =~= oldm.env_vals);
            assert(m2.frames =~= oldm.frames.update(lastk, newtop));
            assert(newtop.vis_envs =~= oldtop.vis_envs.push((id, vis)));
            assert(oldtop.vis_envs =~= newtop.vis_envs.take(oldtop.vis_envs.len() as int));
            assert(frame_vis(newtop.vis_envs, id) == Option::Some(vis));
            assert(env_vis_upto(m2.frames, id, lastk + 1) == Option::Some(vis));
            assert forall|id2: usize|
                id2 != id implies env_hidden(m2.frames, id2) == env_hidden(oldm.frames, id2) by {
                assert(frame_vis(newtop.vis_envs, id2) == frame_vis(oldtop.vis_envs, id2));
                assert forall|k: int|
                    0 <= k < lastk + 1 implies #[trigger] frame_vis(m2.frames[k].vis_envs, id2)
                    == frame_vis(oldm.frames[k].vis_envs, id2) by {
                    if k != lastk {
                        assert(m2.frames[k] == oldm.frames[k]);
                    }
                }
                lemma_env_vis_agree_pointwise(m2.frames, oldm.frames, id2, lastk + 1);
            }
            assert forall|id2: usize|
                decl_hidden(m2.frames, id2) == decl_hidden(oldm.frames, id2) by {
                assert forall|k: int|
                    0 <= k < lastk + 1 implies #[trigger] m2.frames[k].vis_decls
                    == oldm.frames[k].vis_decls by {
                    if k != lastk {
                        assert(m2.frames[k] == oldm.frames[k]);
                    }
                }
                lemma_decl_vis_agree(m2.frames, oldm.frames, id2, lastk + 1);
            }
            assert forall|k: int|
                0 <= k < m2.frames.len() implies frame_bounded(
                #[trigger] m2.frames[k],
                m2.decls.len() as int,
                m2.env_vals.len() as int,
            ) by {
                if k != lastk {
                    assert(m2.frames[k] == oldm.frames[k]);
                    assert(frame_bounded(
                        oldm.frames[k],
                        oldm.decls.len() as int,
                        oldm.env_vals.len() as int,
                    ));
                } else {
                    assert(oldtop == oldm.frames[lastk]);
                    assert(frame_bounded(
                        oldtop,
                        oldm.decls.len() as int,
                        oldm.env_vals.len() as int,
                    ));
                    assert forall|t: int|
                        0 <= t < newtop.vis_envs.len() implies #[trigger] newtop.vis_envs[t].0
                        < m2.env_vals.len() by {
                        if t < oldtop.vis_envs.len() {
                            assert(newtop.vis_envs[t] == oldtop.vis_envs[t]);
                        }
                    }
                    assert(newtop.decls == oldtop.decls);
                    assert(newtop.envs == oldtop.envs);
                    assert(newtop.vis_decls == oldtop.vis_decls);
                }
            }
            assert forall|k: int|
                0 <= k < m2.modules.len() implies module_bounded(
                #[trigger] m2.modules[k],
                m2.decls.len() as int,
                m2.env_vals.len() as int,
            ) by {
                assert(m2.modules[k] == oldm.modules[k]);
                assert(module_bounded(
                    oldm.modules[k],
                    oldm.decls.len() as int,
                    oldm.env_vals.len() as int,
                ));
            }
            assert(state_wf(m2));
        }
    }
}

/// The first module of the given name, scanning the newest first.
pub open spec fn module_idx(mods: Seq<ModModel>, name: Seq<u8>, i: int) -> Option<int>
    decreases i,
{
    if i <= 0 || i > mods.len() {
        Option::None
    } else if mods[i - 1].name == name {
        Option::Some(i - 1)
    } else {
        module_idx(mods, name, i - 1)
    }
}

/// What a found module index means: it is in range and names the module.
pub proof fn lemma_module_idx(mods: Seq<ModModel>, name: Seq<u8>, i: int)
    ensures
        module_idx(mods, name, i) matches Option::Some(j) ==> 0 <= j < i <= mods.len()
            && mods[j].name == name,
    decreases i,
{
    if 0 < i <= mods.len() && mods[i - 1].name != name {
        lemma_module_idx(mods, name, i - 1);
    }
}

impl EngineState {
    /// Finds the newest module of the given name.
    pub fn find_module(&self, name: &Vec<u8>) -> (r: Option<usize>)
        ensures
            (match r {
                Option::Some(j) => Option::Some(j as int),
                Option::None => Option::None::<int>,
            }) == module_idx(self@.modules, name@, self@.modules.len() as int),
    {
        let ghost mm = self@.modules;
        let mut i: usize = self.modules.len();
        while i > 0
            invariant
                0 <= i <= self.modules@.len(),
                mm == self@.modules,
                mm.len() == self.modules@.len(),
                module_idx(mm, name@, mm.len() as int) == module_idx(mm, name@, i as int),
            decreases i,
        {
            if crate::value::bytes_eq(&self.modules[i - 1].name, name) {
                proof {
                    assert(mm[i - 1].name == name@);
                }
                return Option::Some(i - 1);
            }
            proof {
                assert(mm[i - 1].name != name@);
            }
            i = i - 1;
        }
        Option::None
    }

    /// Resolves an environment name to the nearest visible value id.
    pub fn resolve_env_id(&self, name: &Vec<u8>) -> (r: Option<usize>)
        ensures
            r == resolve_env_m(self@.frames, name@),
    {
        let ghost fm = self@.frames;
        let mut i: usize = self.frames.len();
        while i > 0
            invariant
                0 <= i <= self.frames@.len(),
                fm == self@.frames,
                fm.len() == self.frames@.len(),
                resolve_env_m(fm, name@) == resolve_env_upto(fm, name@, i as int),
            decreases i,
        {
            match assoc_find(&self.frames[i - 1].envs, name) {
                Option::Some(id) => {
                    if !self.is_env_hidden(id) {
                        return Option::Some(id);
                    }
                },
                Option::None => {},
            }
            i = i - 1;
        }
        Option::None
    }

    /// Hides whichever binding the bare name reaches at the call site: a
    /// visible command declaration first, else a visible environment
    /// binding. A name with no visible binding of either kind cannot be
    /// hidden, and hiding a name twice in direct succession fails the
    /// same way, because the first hide already took the binding out of
    /// sight.
    pub fn hide_one_name(&mut self, name: &Vec<u8>, span: Span) -> (r: Result<(), ShellError>)
        requires
            state_wf(old(self)@),
        ensures
            state_wf(final(self)@),
            only_top_vis_extended(old(self)@, final(self)@),
            (r is Ok) <==> (resolve_decl_m(old(self)@.frames, name@) is Some || resolve_env_m(
                old(self)@.frames,
                name@,
            ) is Some),
            r matches Err(e) ==> final(self)@ == old(self)@ && e@
                == crate::error::ErrModel::NotFound(span),
            (match resolve_decl_m(old(self)@.frames, name@) {
                Option::Some(id) => {
                    &&& decl_hidden(final(self)@.frames, id)
                    &&& forall|id2: usize|
                        id2 != id ==> decl_hidden(final(self)@.frames, id2) == decl_hidden(
                            old(self)@.frames,
                            id2,
                        )
                    &&& forall|id2: usize|
                        env_hidden(final(self)@.frames, id2) == env_hidden(
                            old(self)@.frames,
                            id2,
                        )
                },
                Option::None => true,
            }),
            (match resolve_env_m(old(self)@.frames, name@) {
                Option::Some(id) => resolve_decl_m(old(self)@.frames, name@) is None ==> {
                    &&& env_hidden(final(self)@.frames, id)
                    &&& forall|id2: usize|
                        id2 != id ==> env_hidden(final(self)@.frames, id2) == env_hidden(
                            old(self)@.frames,
                            id2,
                        )
                    &&& forall|id2: usize|
                        decl_hidden(final(self)@.frames, id2) == decl_hidden(
                            old(self)@.frames,
                            id2,
                        )
                },
                Option::None => true,
            }),
    {
        match self.resolve_command(name) {
            Option::Some(id) => {
                proof {
                    lemma_resolved_is_visible(
                        old(self)@.frames,
                        name@,
                        old(self)@.frames.len() as int,
                    );
                    lemma_resolve_decl_bound(old(self)@, name@, old(self)@.frames.len() as int);
                }
                self.push_decl_vis(id, false);
                Result::Ok(())
            },
            Option::None => {
                match self.resolve_env_id(name) {
                    Option::Some(id) => {
                        proof {
                            lemma_resolve_env_bound(
                                old(self)@,
                                name@,
                                old(self)@.frames.len() as int,
                            );
                        }
                        self.push_env_vis(id, false);
                        Result::Ok(())
                    },
                    Option::None => Result::Err(ShellError::NotFound(span)),
                }
            },
        }
    }
}

/// The qualified name a plain import gives a module's export: the
/// module name, one space, the export name.
pub open spec fn qualified(head: Seq<u8>, n: Seq<u8>) -> Seq<u8> {
    head + seq![32u8] + n
}

/// Builds the qualified name of a module export.
pub fn qualify(head: &Vec<u8>, n: &Vec<u8>) -> (r: Vec<u8>)
    ensures
        r@ == qualified(head@, n@),
{
    let mut out = crate::value::bytes_clone(head);
    out.push(32);
    let mut i: usize = 0;
    while i < n.len()
        invariant
            0 <= i <= n@.len(),
            out@ == head@ + seq![32u8] + n@.take(i as int),
        decreases n@.len() - i,
    {
        out.push(n[i]);
        proof {
            assert(out@ =~= head@ + seq![32u8] + n@.take(i as int + 1));
        }
        i = i + 1;
    }
    proof {
        assert(n@.take(n@.len() as int) =~= n@);
    }
    out
}

impl EngineState {
    /// Binds an imported command: the name is bound to the exported id
    /// in the innermost frame, and a visibility verdict re-enabling the
    /// id is recorded, so a previously hidden declaration imported anew
    /// is reachable again.
    fn bind_decl_import(&mut self, name: Vec<u8>, id: usize)
        requires
            state_wf(old(self)@),
            id < old(self)@.decls.len(),
        ensures
            state_wf(final(self)@),
            final(self)@.decls == old(self)@.decls,
            final(self)@.modules == old(self)@.modules,
            final(self)@.env_vals == old(self)@.env_vals,
            final(self)@.frames.len() == old(self)@.frames.len(),
            forall|k: int|
                0 <= k < old(self)@.frames.len() - 1 ==> #[trigger] final(self)@.frames[k] == old(
                    self,
                )@.frames[k],
            final(self)@.frames.last().envs == old(self)@.frames.last().envs,
            final(self)@.frames.last().vars == old(self)@.frames.last().vars,
            final(self)@.frames.last().vis_envs == old(self)@.frames.last().vis_envs,
            final(self)@.frames.last().decls == assoc_set(
                old(self)@.frames.last().decls,
                name@,
                id,
            ),
            final(self)@.frames.last().vis_decls == old(self)@.frames.last().vis_decls.push(
                (id, true),
            ),
            !decl_hidden(final(self)@.frames, id),
            forall|id2: usize|
                id2 != id ==> decl_hidden(final(self)@.frames, id2) == decl_hidden(
                    old(self)@.frames,
                    id2,
                ),
            forall|id2: usize|
                env_hidden(final(self)@.frames, id2) == env_hidden(old(self)@.frames, id2),
            resolve_decl_m(final(self)@.frames, name@) == Option::Some(id),
            forall|n2: Seq<u8>|
                n2 != name@ ==> assoc(final(self)@.frames.last().decls, n2, 0) == assoc(
                    old(self)@.frames.last().decls,
                    n2,
                    0,
                ),
    {
        let ghost oldm = self@;
        let ghost namev = name@;
        let mut top = match self.frames.pop() {
            Option::Some(f) => f,
            Option::None => {
                proof {
                    assert(false);
                }
                ScopeFrame {
                    decls: Vec::new(),
                    envs: Vec::new(),
                    vis_decls: Vec::new(),
                    vis_envs: Vec::new(),
                    vars: Vec::new(),
                }
            },
        };
        let ghost oldtop = frame_model(top);
        bind_pair(&mut top.decls, name, id);
        top.vis_decls.push((id, true));
        let ghost newtop = frame_model(top);
        self.frames.push(top);
        proof {
            let m2 = self@;
            let lastk = oldm.frames.len() - 1;
            assert(m2.decls =~= oldm.decls);
            assert(m2.modules =~= oldm.modules);
            assert(m2.env_vals =~= oldm.env_vals);
            assert(m2.frames =~= oldm.frames.update(lastk, newtop));
            assert(oldtop == oldm.frames[lastk]);
            assert(newtop.decls == assoc_set(oldtop.decls, namev, id));
            assert(newtop.vis_decls =~= oldtop.vis_decls.push((id, true)));
            assert(frame_vis(newtop.vis_decls, id) == Option::Some(true));
            assert(decl_vis_upto(m2.frames, id, lastk + 1) == Option::Some(true));
            assert forall|id2: usize|
                id2 != id implies decl_hidden(m2.frames, id2) == decl_hidden(
                oldm.frames,
                id2,
            ) by {
                assert(newtop.vis_decls.drop_last() =~= oldtop.vis_decls);
                assert(frame_vis(newtop.vis_decls, id2) == frame_vis(oldtop.vis_decls, id2));
                assert forall|k: int|
                    0 <= k < lastk + 1 implies #[trigger] frame_vis(m2.frames[k].vis_decls, id2)
                    == frame_vis(oldm.frames[k].vis_decls, id2) by {
                    if k != lastk {
                        assert(m2.frames[k] == oldm.frames[k]);
                    }
                }
                lemma_decl_vis_agree_pointwise(m2.frames, oldm.frames, id2, lastk + 1);
            }
            assert forall|id2: usize|
                env_hidden(m2.frames, id2) == env_hidden(oldm.frames, id2) by {
                assert forall|k: int|
                    0 <= k < lastk + 1 implies #[trigger] m2.frames[k].vis_envs
                    == oldm.frames[k].vis_envs by {
                    if k != lastk {
                        assert(m2.frames[k] == oldm.frames[k]);
                    }
                }
                lemma_env_vis_agree(m2.frames, oldm.frames, id2, lastk + 1);
            }
            lemma_assoc_set_same(oldtop.decls, namev, id);
            assert(assoc(m2.frames[lastk].decls, namev, 0) == Option::Some(id));
            assert(resolve_decl_upto(m2.frames, namev, lastk + 1) == Option::Some(id));
            assert forall|n2: Seq<u8>|
                n2 != namev implies assoc(m2.frames.last().decls, n2, 0) == assoc(
                oldm.frames.last().decls,
                n2,
                0,
            ) by {
                lemma_assoc_set_other(oldtop.decls, namev, id, n2);
            }
            assert forall|k: int|
                0 <= k < m2.frames.len() implies frame_bounded(
                #[trigger] m2.frames[k],
                m2.decls.len() as int,
                m2.env_vals.len() as int,
            ) by {
                if k != lastk {
                    assert(m2.frames[k] == oldm.frames[k]);
                    assert(frame_bounded(
                        oldm.frames[k],
                        oldm.decls.len() as int,
                        oldm.env_vals.len() as int,
                    ));
                } else {
                    assert(frame_bounded(
                        oldtop,
                        oldm.decls.len() as int,
                        oldm.env_vals.len() as int,
                    ));
                    lemma_assoc_set_bounded(oldtop.decls, namev, id, m2.decls.len() as int);
                    assert forall|t: int|
                        0 <= t < newtop.vis_decls.len() implies #[trigger] newtop.vis_decls[t].0
                        < m2.decls.len() by {
                        if t < oldtop.vis_decls.len() {
                            assert(newtop.vis_decls[t] == oldtop.vis_decls[t]);
                        }
                    }
                    assert(newtop.envs == oldtop.envs);
                    assert(newtop.vis_envs == oldtop.vis_envs);
                }
            }
            assert forall|k: int|
                0 <= k < m2.modules.len() implies module_bounded(
                #[trigger] m2.modules[k],
                m2.decls.len() as int,
                m2.env_vals.len() as int,
            ) by {
                assert(m2.modules[k] == oldm.modules[k]);
                assert(module_bounded(
                    oldm.modules[k],
                    oldm.decls.len() as int,
                    oldm.env_vals.len() as int,
                ));
            }
            assert(state_wf(m2));
        }
    }

    /// The environment twin of `bind_decl_import`.
    fn bind_env_import(&mut self, name: Vec<u8>, id: usize)
        requires
            state_wf(old(self)@),
            id < old(self)@.env_vals.len(),
        ensures
            state_wf(final(self)@),
            final(self)@.decls == old(self)@.decls,
            final(self)@.modules == old(self)@.modules,
            final(self)@.env_vals == old(self)@.env_vals,
            final(self)@.frames.len() == old(self)@.frames.len(),
            forall|k: int|
                0 <= k < old(self)@.frames.len() - 1 ==> #[trigger] final(self)@.frames[k] == old(
                    self,
                )@.frames[k],
            final(self)@.frames.last().decls == old(self)@.frames.last().decls,
            final(self)@.frames.last().vars == old(self)@.frames.last().vars,
            final(self)@.frames.last().vis_decls == old(self)@.frames.last().vis_decls,
            final(self)@.frames.last().envs == assoc_set(
                old(self)@.frames.last().envs,
                name@,
                id,
            ),
            final(self)@.frames.last().vis_envs == old(self)@.frames.last().vis_envs.push(
                (id, true),
            ),
            !env_hidden(final(self)@.frames, id),
            forall|id2: usize|
                id2 != id ==> env_hidden(final(self)@.frames, id2) == env_hidden(
                    old(self)@.frames,
                    id2,
                ),
            forall|id2: usize|
                decl_hidden(final(self)@.frames, id2) == decl_hidden(old(self)@.frames, id2),
            resolve_env_m(final(self)@.frames, name@) == Option::Some(id),
            forall|n2: Seq<u8>|
                n2 != name@ ==> assoc(final(self)@.frames.last().envs, n2, 0) == assoc(
                    old(self)@.frames.last().envs,
                    n2,
                    0,
                ),
    {
        let ghost oldm = self@;
        let ghost namev = name@;
        let mut top = match self.frames.pop() {
            Option::Some(f) => f,
            Option::None => {
                proof {
                    assert(false);
                }
                ScopeFrame {
                    decls: Vec::new(),
                    envs: Vec::new(),
                    vis_decls: Vec::new(),
                    vis_envs: Vec::new(),
                    vars: Vec::new(),
                }
            },
        };
        let ghost oldtop = frame_model(top);
        bind_pair(&mut top.envs, name, id);
        top.vis_envs.push((id, true));
        let ghost newtop = frame_model(top);
        self.frames.push(top);
        proof {
            let m2 = self@;
            let lastk = oldm.frames.len() - 1;
            assert(m2.decls =~= oldm.decls);
            assert(m2.modules =~= oldm.modules);
            assert(m2.env_vals =~= oldm.env_vals);
            assert(m2.frames =~= oldm.frames.update(lastk, newtop));
            assert(oldtop == oldm.frames[lastk]);
            assert(newtop.envs == assoc_set(oldtop.envs, namev, id));
            assert(newtop.vis_envs =~= oldtop.vis_envs.push((id, true)));
            assert(frame_vis(newtop.vis_envs, id) == Option::Some(true));
            assert(env_vis_upto(m2.frames, id, lastk + 1) == Option::Some(true));
            assert forall|id2: usize|
                id2 != id implies env_hidden(m2.frames, id2) == env_hidden(oldm.frames, id2) by {
                assert(newtop.vis_envs.drop_last() =~= oldtop.vis_envs);
                assert(frame_vis(newtop.vis_envs, id2) == frame_vis(oldtop.vis_envs, id2));
                assert forall|k: int|
                    0 <= k < lastk + 1 implies #[trigger] frame_vis(m2.frames[k].vis_envs, id2)
                    == frame_vis(oldm.frames[k].vis_envs, id2) by {
                    if k != lastk {
                        assert(m2.frames[k] == oldm.frames[k]);
                    }
                }
                lemma_env_vis_agree_pointwise(m2.frames, oldm.frames, id2, lastk + 1);
            }
            assert forall|id2: usize|
                decl_hidden(m2.frames, id2) == decl_hidden(oldm.frames, id2) by {
                assert forall|k: int|
                    0 <= k < lastk + 1 implies #[trigger] m2.frames[k].vis_decls
                    == oldm.frames[k].vis_decls by {
                    if k != lastk {
                        assert(m2.frames[k] == oldm.frames[k]);
                    }
                }
                lemma_decl_vis_agree(m2.frames, oldm.frames, id2, lastk + 1);
            }
            lemma_assoc_set_same(oldtop.envs, namev, id);
            assert(assoc(m2.frames[lastk].envs, namev, 0) == Option::Some(id));
            assert(resolve_env_upto(m2.frames, namev, lastk + 1) == Option::Some(id));
            assert forall|n2: Seq<u8>|
                n2 != namev implies assoc(m2.frames.last().envs, n2, 0) == assoc(
                oldm.frames.last().envs,
                n2,
                0,
            ) by {
                lemma_assoc_set_other(oldtop.envs, namev, id, n2);
            }
            assert forall|k: int|
                0 <= k < m2.frames.len() implies frame_bounded(
                #[trigger] m2.frames[k],
                m2.decls.len() as int,
                m2.env_vals.len() as int,
            ) by {
                if k != lastk {
                    assert(m2.frames[k] == oldm.frames[k]);
                    assert(frame_bounded(
                        oldm.frames[k],
                        oldm.decls.len() as int,
                        oldm.env_vals.len() as int,
                    ));
                } else {
                    assert(frame_bounded(
                        oldtop,
                        oldm.decls.len() as int,
                        oldm.env_vals.len() as int,
                    ));
                    lemma_assoc_set_bounded(oldtop.envs, namev, id, m2.env_vals.len() as int);
                    assert forall|t: int|
                        0 <= t < newtop.vis_envs.len() implies #[trigger] newtop.vis_envs[t].0
                        < m2.env_vals.len() by {
                        if t < oldtop.vis_envs.len() {
                            assert(newtop.vis_envs[t] == oldtop.vis_envs[t]);
                        }
                    }
                    assert(newtop.decls == oldtop.decls);
                    assert(newtop.vis_decls == oldtop.vis_decls);
                }
            }
            assert forall|k: int|
                0 <= k < m2.modules.len() implies module_bounded(
                #[trigger] m2.modules[k],
                m2.decls.len() as int,
                m2.env_vals.len() as int,
            ) by {
                assert(m2.modules[k] == oldm.modules[k]);
                assert(module_bounded(
                    oldm.modules[k],
                    oldm.decls.len() as int,
                    oldm.env_vals.len() as int,
                ));
            }
            assert(state_wf(m2));
        }
    }
}

/// Whatever command resolution answers points into the committed table.
pub proof fn lemma_resolve_decl_bound(m: StateModel, name: Seq<u8>, i: int)
    requires
        state_wf(m),
        i <= m.frames.len(),
    ensures
        resolve_decl_upto(m.frames, name, i) matches Option::Some(id) ==> id < m.decls.len(),
    decreases i,
{
    if 0 < i {
        assert(frame_bounded(m.frames[i - 1], m.decls.len() as int, m.env_vals.len() as int));
        lemma_assoc_bound(m.frames[i - 1].decls, name, 0, m.decls.len() as int);
        lemma_resolve_decl_bound(m, name, i - 1);
    }
}

/// The environment twin of `lemma_resolve_decl_bound`.
pub proof fn lemma_resolve_env_bound(m: StateModel, name: Seq<u8>, i: int)
    requires
        state_wf(m),
        i <= m.frames.len(),
    ensures
        resolve_env_upto(m.frames, name, i) matches Option::Some(id) ==> id < m.env_vals.len(),
    decreases i,
{
    if 0 < i {
        assert(frame_bounded(m.frames[i - 1], m.decls.len() as int, m.env_vals.len() as int));
        lemma_assoc_bound(m.frames[i - 1].envs, name, 0, m.env_vals.len() as int);
        lemma_resolve_env_bound(m, name, i - 1);
    }
}

/// The command bindings an import pattern selects from a module: every
/// export under its qualified name for a plain import, every export
/// under its bare name for a glob, and the named exports for a single
/// name or a list.
pub open spec fn sel_decl_binds(
    md: ModModel,
    head: Seq<u8>,
    members: Seq<crate::import_pattern::IpmModel>,
) -> Seq<(Seq<u8>, usize)> {
    if members.len() == 0 {
        Seq::new(
            md.decl_exports.len(),
            |t: int| (qualified(head, md.decl_exports[t].0), md.decl_exports[t].1),
        )
    } else {
        match members[0] {
            crate::import_pattern::IpmModel::Glob { .. } => md.decl_exports,
            crate::import_pattern::IpmModel::Name { name, .. } => match assoc(
                md.decl_exports,
                name,
                0,
            ) {
                Option::Some(id) => seq![(name, id)],
                Option::None => Seq::empty(),
            },
            crate::import_pattern::IpmModel::List { names } => list_decl_binds(
                md.decl_exports,
                names,
                names.len() as int,
            ),
        }
    }
}

/// The environment twin of `sel_decl_binds`.
pub open spec fn sel_env_binds(
    md: ModModel,
    head: Seq<u8>,
    members: Seq<crate::import_pattern::IpmModel>,
) -> Seq<(Seq<u8>, usize)> {
    if members.len() == 0 {
        Seq::new(
            md.env_exports.len(),
            |t: int| (qualified(head, md.env_exports[t].0), md.env_exports[t].1),
        )
    } else {
        match members[0] {
            crate::import_pattern::IpmModel::Glob { .. } => md.env_exports,
            crate::import_pattern::IpmModel::Name { name, .. } => match assoc(
                md.env_exports,
                name,
                0,
            ) {
                Option::Some(id) => seq![(name, id)],
                Option::None => Seq::empty(),
            },
            crate::import_pattern::IpmModel::List { names } => list_decl_binds(
                md.env_exports,
                names,
                names.len() as int,
            ),
        }
    }
}

/// The bindings an explicit name list selects from one export table, in
/// list order, names the table does not export contributing nothing.
pub open spec fn list_decl_binds(
    exports: Seq<(Seq<u8>, usize)>,
    names: Seq<(Seq<u8>, Span)>,
    n: int,
) -> Seq<(Seq<u8>, usize)>
    decreases n,
{
    if n <= 0 {
        Seq::empty()
    } else {
        let prior = list_decl_binds(exports, names, n - 1);
        match assoc(exports, names[n - 1].0, 0) {
            Option::Some(id) => prior.push((names[n - 1].0, id)),
            Option::None => prior,
        }
    }
}

/// Whether an import pattern can be satisfied against a module: a plain
/// or glob import always can; a named import needs every named symbol
/// exported as a command or an environment binding.
pub open spec fn import_ok(md: ModModel, members: Seq<crate::import_pattern::IpmModel>) -> bool {
    if members.len() == 0 {
        true
    } else {
        match members[0] {
            crate::import_pattern::IpmModel::Glob { .. } => true,
            crate::import_pattern::IpmModel::Name { name, .. } => assoc(md.decl_exports, name, 0)
                is Some || assoc(md.env_exports, name, 0) is Some,
            crate::import_pattern::IpmModel::List { names } => forall|t: int|
                0 <= t < names.len() ==> assoc(md.decl_exports, #[trigger] names[t].0, 0) is Some
                    || assoc(md.env_exports, names[t].0, 0) is Some,
        }
    }
}

/// Qualification never confuses two export names.
pub proof fn lemma_qualified_injective(head: Seq<u8>, a: Seq<u8>, b: Seq<u8>)
    requires
        qualified(head, a) == qualified(head, b),
    ensures
        a == b,
{
    assert(qualified(head, a).len() == head.len() + 1 + a.len()) by {
        assert((head + seq![32u8]).len() == head.len() + 1);
    }
    assert(qualified(head, b).len() == head.len() + 1 + b.len()) by {
        assert((head + seq![32u8]).len() == head.len() + 1);
    }
    assert(a.len() == b.len());
    assert forall|i: int| 0 <= i < a.len() implies a[i] == b[i] by {
        assert(qualified(head, a)[head.len() + 1 + i] == a[i]);
        assert(qualified(head, b)[head.len() + 1 + i] == b[i]);
    }
    assert(a =~= b);
}

/// Every binding an explicit name list selects agrees with the export
/// table.
proof fn lemma_list_binds_assoc(
    exports: Seq<(Seq<u8>, usize)>,
    names: Seq<(Seq<u8>, Span)>,
    n: int,
)
    ensures
        forall|t: int|
            0 <= t < list_decl_binds(exports, names, n).len() ==> assoc(
                exports,
                (#[trigger] list_decl_binds(exports, names, n)[t]).0,
                0,
            ) == Option::Some(list_decl_binds(exports, names, n)[t].1),
    decreases n,
{
    if n > 0 {
        lemma_list_binds_assoc(exports, names, n - 1);
    }
}

/// The selected bindings of an import are functional (one id per name)
/// and point into the committed tables.
proof fn lemma_sel_binds_props(
    md: ModModel,
    head: Seq<u8>,
    members: Seq<crate::import_pattern::IpmModel>,
    nd: int,
    ne: int,
)
    requires
        module_bounded(md, nd, ne),
    ensures
        forall|t: int|
            0 <= t < sel_decl_binds(md, head, members).len() ==> (#[trigger] sel_decl_binds(
                md,
                head,
                members,
            )[t]).1 < nd,
        forall|t1: int, t2: int|
            0 <= t1 < sel_decl_binds(md, head, members).len() && 0 <= t2 < sel_decl_binds(
                md,
                head,
                members,
            ).len() && (#[trigger] sel_decl_binds(md, head, members)[t1]).0 == (
            #[trigger] sel_decl_binds(md, head, members)[t2]).0 ==> sel_decl_binds(
                md,
                head,
                members,
            )[t1].1 == sel_decl_binds(md, head, members)[t2].1,
        forall|t: int|
            0 <= t < sel_env_binds(md, head, members).len() ==> (#[trigger] sel_env_binds(
                md,
                head,
                members,
            )[t]).1 < ne,
        forall|t1: int, t2: int|
            0 <= t1 < sel_env_binds(md, head, members).len() && 0 <= t2 < sel_env_binds(
                md,
                head,
                members,
            ).len() && (#[trigger] sel_env_binds(md, head, members)[t1]).0 == (
            #[trigger] sel_env_binds(md, head, members)[t2]).0 ==> sel_env_binds(
                md,
                head,
                members,
            )[t1].1 == sel_env_binds(md, head, members)[t2].1,
{
    let db = sel_decl_binds(md, head, members);
    let eb = sel_env_binds(md, head, members);
    if members.len() == 0 {
        assert forall|t1: int, t2: int|
            0 <= t1 < db.len() && 0 <= t2 < db.len() && (#[trigger] db[t1]).0 == (
            #[trigger] db[t2]).0 implies db[t1].1 == db[t2].1 by {
            lemma_qualified_injective(head, md.decl_exports[t1].0, md.decl_exports[t2].0);
        }
        assert forall|t1: int, t2: int|
            0 <= t1 < eb.len() && 0 <= t2 < eb.len() && (#[trigger] eb[t1]).0 == (
            #[trigger] eb[t2]).0 implies eb[t1].1 == eb[t2].1 by {
            lemma_qualified_injective(head, md.env_exports[t1].0, md.env_exports[t2].0);
        }
    } else {
        match members[0] {
            crate::import_pattern::IpmModel::Glob { .. } => {},
            crate::import_pattern::IpmModel::Name { name, .. } => {
                lemma_assoc_bound(md.decl_exports, name, 0, nd);
                lemma_assoc_bound(md.env_exports, name, 0, ne);
            },
            crate::import_pattern::IpmModel::List { names } => {
                lemma_list_binds_assoc(md.decl_exports, names, names.len() as int);
                lemma_list_binds_assoc(md.env_exports, names, names.len() as int);
                assert forall|t: int| 0 <= t < db.len() implies (#[trigger] db[t]).1 < nd by {
                    lemma_assoc_bound(md.decl_exports, db[t].0, 0, nd);
                }
                assert forall|t: int| 0 <= t < eb.len() implies (#[trigger] eb[t]).1 < ne by {
                    lemma_assoc_bound(md.env_exports, eb[t].0, 0, ne);
                }
            },
        }
    }
}

impl EngineState {
    /// Imports from a module into the innermost frame. A plain import
    /// binds every export under its module-qualified name; a glob binds
    /// every export under its bare name; a single name or an explicit
    /// list binds exactly the named exports and nothing else, and fails
    /// naming the first symbol the module does not export, changing
    /// nothing. A name exported both as a command and as an environment
    /// binding is imported in both namespaces at once.
    #[verifier::loop_isolation(false)]
    pub fn use_pattern(
        &mut self,
        pattern: &crate::import_pattern::ImportPattern,
    ) -> (r: Result<(), ShellError>)
        requires
            state_wf(old(self)@),
        ensures
            state_wf(final(self)@),
            final(self)@.decls == old(self)@.decls,
            final(self)@.modules == old(self)@.modules,
            final(self)@.env_vals == old(self)@.env_vals,
            final(self)@.frames.len() == old(self)@.frames.len(),
            forall|k: int|
                0 <= k < old(self)@.frames.len() - 1 ==> #[trigger] final(self)@.frames[k] == old(
                    self,
                )@.frames[k],
            final(self)@.frames.last().vars == old(self)@.frames.last().vars,
            r is Err ==> final(self)@ == old(self)@,
            module_idx(
                old(self)@.modules,
                pattern.head.name@,
                old(self)@.modules.len() as int,
            ) is None ==> (r matches Err(e) && e@ == crate::error::ErrModel::ImportSymbolMissing(
                pattern.head.name@,
                pattern.head.span,
            )),
            (match module_idx(
                old(self)@.modules,
                pattern.head.name@,
                old(self)@.modules.len() as int,
            ) {
                Option::Some(mi) => {
                    let md = old(self)@.modules[mi];
                    let db = sel_decl_binds(md, pattern.head.name@, pattern.members.deep_view());
                    let eb = sel_env_binds(md, pattern.head.name@, pattern.members.deep_view());
                    &&& ((r is Ok) <==> import_ok(md, pattern.members.deep_view()))
                    &&& (r is Ok ==> forall|t: int|
                        0 <= t < db.len() ==> resolve_decl_m(
                            final(self)@.frames,
                            (#[trigger] db[t]).0,
                        ) == Option::Some(db[t].1))
                    &&& (r is Ok ==> forall|t: int|
                        0 <= t < eb.len() ==> resolve_env_m(
                            final(self)@.frames,
                            (#[trigger] eb[t]).0,
                        ) == Option::Some(eb[t].1))
                    &&& (r is Ok ==> forall|n2: Seq<u8>|
                        (forall|t: int| 0 <= t < db.len() ==> (#[trigger] db[t]).0 != n2)
                            ==> #[trigger] assoc(final(self)@.frames.last().decls, n2, 0) == assoc(
                            old(self)@.frames.last().decls,
                            n2,
                            0,
                        ))
                    &&& (r is Ok ==> forall|n2: Seq<u8>|
                        (forall|t: int| 0 <= t < eb.len() ==> (#[trigger] eb[t]).0 != n2)
                            ==> #[trigger] assoc(final(self)@.frames.last().envs, n2, 0) == assoc(
                            old(self)@.frames.last().envs,
                            n2,
                            0,
                        ))
                },
                Option::None => true,
            }),
    {
        let ghost oldm = self@;
        let ghost headv = pattern.head.name@;
        let ghost membersv = pattern.members.deep_view();
        let mi = match self.find_module(&pattern.head.name) {
            Option::None => {
                return Result::Err(
                    ShellError::ImportSymbolMissing(
                        crate::value::bytes_clone(&pattern.head.name),
                        pattern.head.span,
                    ),
                );
            },
            Option::Some(mi) => mi,
        };
        let ghost md = oldm.modules[mi as int];
        proof {
            lemma_module_idx(oldm.modules, headv, oldm.modules.len() as int);
            assert(mi < oldm.modules.len());
            assert(module_bounded(md, oldm.decls.len() as int, oldm.env_vals.len() as int));
            lemma_sel_binds_props(
                md,
                headv,
                membersv,
                oldm.decls.len() as int,
                oldm.env_vals.len() as int,
            );
        }
        let ghost db = sel_decl_binds(md, headv, membersv);
        let ghost eb = sel_env_binds(md, headv, membersv);
        let mut dbinds: Vec<(Vec<u8>, usize)> = Vec::new();
        let mut ebinds: Vec<(Vec<u8>, usize)> = Vec::new();
        if pattern.members.len() == 0 {
            let mut t: usize = 0;
            while t < self.modules[mi].decl_exports.len()
                invariant
                    self@ == oldm,
                    state_wf(self@),
                    mi < self.modules@.len(),
                    md == module_model(self.modules@[mi as int]),
                    db == sel_decl_binds(md, headv, membersv),
                    membersv.len() == 0,
                    db.len() == md.decl_exports.len(),
                    0 <= t <= md.decl_exports.len(),
                    self.modules@[mi as int].decl_exports@.len() == md.decl_exports.len(),
                    pairs_view(dbinds@) == db.take(t as int),
                decreases md.decl_exports.len() - t,
            {
                let q = qualify(&pattern.head.name, &self.modules[mi].decl_exports[t].0);
                let idd = self.modules[mi].decl_exports[t].1;
                dbinds.push((q, idd));
                proof {
                    assert(pairs_view(dbinds@) =~= db.take(t as int + 1));
                }
                t = t + 1;
            }
            let mut t2: usize = 0;
            while t2 < self.modules[mi].env_exports.len()
                invariant
                    self@ == oldm,
                    state_wf(self@),
                    mi < self.modules@.len(),
                    md == module_model(self.modules@[mi as int]),
                    eb == sel_env_binds(md, headv, membersv),
                    membersv.len() == 0,
                    eb.len() == md.env_exports.len(),
                    0 <= t2 <= md.env_exports.len(),
                    self.modules@[mi as int].env_exports@.len() == md.env_exports.len(),
                    pairs_view(ebinds@) == eb.take(t2 as int),
                decreases md.env_exports.len() - t2,
            {
                let q = qualify(&pattern.head.name, &self.modules[mi].env_exports[t2].0);
                let ide = self.modules[mi].env_exports[t2].1;
                ebinds.push((q, ide));
                proof {
                    assert(pairs_view(ebinds@) =~= eb.take(t2 as int + 1));
                }
                t2 = t2 + 1;
            }
            proof {
                assert(pairs_view(dbinds@) =~= db);
                assert(pairs_view(ebinds@) =~= eb);
            }
        } else {
            match &pattern.members[0] {
                crate::import_pattern::ImportPatternMember::Glob { .. } => {
                    let mut t: usize = 0;
                    while t < self.modules[mi].decl_exports.len()
                        invariant
                            self@ == oldm,
                            state_wf(self@),
                            mi < self.modules@.len(),
                            md == module_model(self.modules@[mi as int]),
                            0 <= t <= md.decl_exports.len(),
                            self.modules@[mi as int].decl_exports@.len()
                                == md.decl_exports.len(),
                            pairs_view(dbinds@) == md.decl_exports.take(t as int),
                        decreases md.decl_exports.len() - t,
                    {
                        let q = crate::value::bytes_clone(&self.modules[mi].decl_exports[t].0);
                        let idd = self.modules[mi].decl_exports[t].1;
                        dbinds.push((q, idd));
                        proof {
                            assert(pairs_view(dbinds@) =~= md.decl_exports.take(t as int + 1));
                        }
                        t = t + 1;
                    }
                    let mut t2: usize = 0;
                    while t2 < self.modules[mi].env_exports.len()
                        invariant
                            self@ == oldm,
                            state_wf(self@),
                            mi < self.modules@.len(),
                            md == module_model(self.modules@[mi as int]),
                            0 <= t2 <= md.env_exports.len(),
                            self.modules@[mi as int].env_exports@.len() == md.env_exports.len(),
                            pairs_view(ebinds@) == md.env_exports.take(t2 as int),
                        decreases md.env_exports.len() - t2,
                    {
                        let q = crate::value::bytes_clone(&self.modules[mi].env_exports[t2].0);
                        let ide = self.modules[mi].env_exports[t2].1;
                        ebinds.push((q, ide));
                        proof {
                            assert(pairs_view(ebinds@) =~= md.env_exports.take(t2 as int + 1));
                        }
                        t2 = t2 + 1;
                    }
                    proof {
                        assert(pairs_view(dbinds@) =~= db);
                        assert(pairs_view(ebinds@) =~= eb);
                    }
                },
                crate::import_pattern::ImportPatternMember::Name { name, span } => {
                    let dfound = assoc_find(&self.modules[mi].decl_exports, name);
                    let efound = assoc_find(&self.modules[mi].env_exports, name);
                    if dfound.is_none() && efound.is_none() {
                        return Result::Err(
                            ShellError::ImportSymbolMissing(
                                crate::value::bytes_clone(name),
                                *span,
                            ),
                        );
                    }
                    match dfound {
                        Option::Some(idd) => {
                            dbinds.push((crate::value::bytes_clone(name), idd));
                        },
                        Option::None => {},
                    }
                    match efound {
                        Option::Some(ide) => {
                            ebinds.push((crate::value::bytes_clone(name), ide));
                        },
                        Option::None => {},
                    }
                    proof {
                        assert(pairs_view(dbinds@) =~= db);
                        assert(pairs_view(ebinds@) =~= eb);
                    }
                },
                crate::import_pattern::ImportPatternMember::List { names } => {
                    let ghost namesv = Seq::new(
                        names@.len(),
                        |i: int| (names@[i].0@, names@[i].1),
                    );
                    let mut j: usize = 0;
                    while j < names.len()
                        invariant
                            self@ == oldm,
                            state_wf(self@),
                            mi < self.modules@.len(),
                            md == module_model(self.modules@[mi as int]),
                            0 <= j <= names@.len(),
                            namesv.len() == names@.len(),
                            forall|x: int|
                                0 <= x < names@.len() ==> (#[trigger] namesv[x]) == (
                                names@[x].0@,
                                names@[x].1,
                            ),
                            forall|x: int|
                                0 <= x < j ==> assoc(md.decl_exports, (#[trigger] namesv[x]).0, 0)
                                    is Some || assoc(md.env_exports, namesv[x].0, 0) is Some,
                            pairs_view(dbinds@) == list_decl_binds(
                                md.decl_exports,
                                namesv,
                                j as int,
                            ),
                            pairs_view(ebinds@) == list_decl_binds(
                                md.env_exports,
                                namesv,
                                j as int,
                            ),
                        decreases names@.len() - j,
                    {
                        let dfound = assoc_find(&self.modules[mi].decl_exports, &names[j].0);
                        let efound = assoc_find(&self.modules[mi].env_exports, &names[j].0);
                        if dfound.is_none() && efound.is_none() {
                            proof {
                                assert(membersv[0] == pattern.members@[0]@);
                                assert(membersv[0]->List_names =~= namesv);
                                assert(namesv[j as int].0 == names@[j as int].0@);
                                assert(!import_ok(md, membersv));
                            }
                            return Result::Err(
                                ShellError::ImportSymbolMissing(
                                    crate::value::bytes_clone(&names[j].0),
                                    names[j].1,
                                ),
                            );
                        }
                        match dfound {
                            Option::Some(idd) => {
                                dbinds.push((crate::value::bytes_clone(&names[j].0), idd));
                            },
                            Option::None => {},
                        }
                        match efound {
                            Option::Some(ide) => {
                                ebinds.push((crate::value::bytes_clone(&names[j].0), ide));
                            },
                            Option::None => {},
                        }
                        proof {
                            assert(pairs_view(dbinds@) =~= list_decl_binds(
                                md.decl_exports,
                                namesv,
                                j as int + 1,
                            ));
                            assert(pairs_view(ebinds@) =~= list_decl_binds(
                                md.env_exports,
                                namesv,
                                j as int + 1,
                            ));
                        }
                        j = j + 1;
                    }
                    proof {
                        assert(namesv =~= membersv[0]->List_names);
                        assert(pairs_view(dbinds@) =~= db);
                        assert(pairs_view(ebinds@) =~= eb);
                    }
                },
            }
        }
        proof {
            assert(pairs_view(dbinds@) == db);
            assert(pairs_view(ebinds@) == eb);
            assert(import_ok(md, membersv));
        }
        let mut j: usize = 0;
        while j < dbinds.len()
            invariant
                state_wf(self@),
                0 <= j <= dbinds@.len(),
                pairs_view(dbinds@) == db,
                db.len() == dbinds@.len(),
                forall|t: int| 0 <= t < db.len() ==> (#[trigger] db[t]).1 < oldm.decls.len(),
                forall|t1: int, t2: int|
                    0 <= t1 < db.len() && 0 <= t2 < db.len() && (#[trigger] db[t1]).0 == (
                    #[trigger] db[t2]).0 ==> db[t1].1 == db[t2].1,
                self@.decls == oldm.decls,
                self@.modules == oldm.modules,
                self@.env_vals == oldm.env_vals,
                self@.frames.len() == oldm.frames.len(),
                forall|k: int|
                    0 <= k < oldm.frames.len() - 1 ==> #[trigger] self@.frames[k]
                        == oldm.frames[k],
                self@.frames.last().vars == oldm.frames.last().vars,
                self@.frames.last().envs == oldm.frames.last().envs,
                self@.frames.last().vis_envs == oldm.frames.last().vis_envs,
                forall|t: int|
                    0 <= t < j ==> assoc(
                        self@.frames.last().decls,
                        (#[trigger] db[t]).0,
                        0,
                    ) == Option::Some(db[t].1) && !decl_hidden(self@.frames, db[t].1),
                forall|n2: Seq<u8>|
                    (forall|t: int| 0 <= t < db.len() ==> (#[trigger] db[t]).0 != n2)
                        ==> #[trigger] assoc(self@.frames.last().decls, n2, 0) == assoc(
                        oldm.frames.last().decls,
                        n2,
                        0,
                    ),
                forall|id2: usize|
                    env_hidden(self@.frames, id2) == env_hidden(oldm.frames, id2),
            decreases dbinds@.len() - j,
        {
            let ghost pre = self@;
            let nm = crate::value::bytes_clone(&dbinds[j].0);
            let idd = dbinds[j].1;
            proof {
                assert(db[j as int].1 < oldm.decls.len());
            }
            self.bind_decl_import(nm, idd);
            proof {
                lemma_assoc_set_same(pre.frames.last().decls, db[j as int].0, idd);
                assert forall|t: int|
                    0 <= t < j + 1 implies assoc(
                    self@.frames.last().decls,
                    (#[trigger] db[t]).0,
                    0,
                ) == Option::Some(db[t].1) && !decl_hidden(self@.frames, db[t].1) by {
                    if t < j {
                        if db[t].0 == db[j as int].0 {
                            assert(db[t].1 == db[j as int].1);
                        }
                    }
                }
            }
            j = j + 1;
        }
        let mut j2: usize = 0;
        while j2 < ebinds.len()
            invariant
                state_wf(self@),
                0 <= j2 <= ebinds@.len(),
                pairs_view(ebinds@) == eb,
                eb.len() == ebinds@.len(),
                forall|t: int| 0 <= t < eb.len() ==> (#[trigger] eb[t]).1 < oldm.env_vals.len(),
                forall|t1: int, t2: int|
                    0 <= t1 < eb.len() && 0 <= t2 < eb.len() && (#[trigger] eb[t1]).0 == (
                    #[trigger] eb[t2]).0 ==> eb[t1].1 == eb[t2].1,
                self@.decls == oldm.decls,
                self@.modules == oldm.modules,
                self@.env_vals == oldm.env_vals,
                self@.frames.len() == oldm.frames.len(),
                forall|k: int|
                    0 <= k < oldm.frames.len() - 1 ==> #[trigger] self@.frames[k]
                        == oldm.frames[k],
                self@.frames.last().vars == oldm.frames.last().vars,
                forall|t: int|
                    0 <= t < db.len() ==> assoc(
                        self@.frames.last().decls,
                        (#[trigger] db[t]).0,
                        0,
                    ) == Option::Some(db[t].1) && !decl_hidden(self@.frames, db[t].1),
                forall|n2: Seq<u8>|
                    (forall|t: int| 0 <= t < db.len() ==> (#[trigger] db[t]).0 != n2)
                        ==> #[trigger] assoc(self@.frames.last().decls, n2, 0) == assoc(
                        oldm.frames.last().decls,
                        n2,
                        0,
                    ),
                forall|t: int|
                    0 <= t < j2 ==> assoc(
                        self@.frames.last().envs,
                        (#[trigger] eb[t]).0,
                        0,
                    ) == Option::Some(eb[t].1) && !env_hidden(self@.frames, eb[t].1),
                forall|n2: Seq<u8>|
                    (forall|t: int| 0 <= t < eb.len() ==> (#[trigger] eb[t]).0 != n2)
                        ==> #[trigger] assoc(self@.frames.last().envs, n2, 0) == assoc(
                        oldm.frames.last().envs,
                        n2,
                        0,
                    ),
            decreases ebinds@.len() - j2,
        {
            let ghost pre = self@;
            let nm = crate::value::bytes_clone(&ebinds[j2].0);
            let ide = ebinds[j2].1;
            proof {
                assert(eb[j2 as int].1 < oldm.env_vals.len());
            }
            self.bind_env_import(nm, ide);
            proof {
                lemma_assoc_set_same(pre.frames.last().envs, eb[j2 as int].0, ide);
                assert forall|t: int|
                    0 <= t < j2 + 1 implies assoc(
                    self@.frames.last().envs,
                    (#[trigger] eb[t]).0,
                    0,
                ) == Option::Some(eb[t].1) && !env_hidden(self@.frames, eb[t].1) by {
                    if t < j2 {
                        if eb[t].0 == eb[j2 as int].0 {
                            assert(eb[t].1 == eb[j2 as int].1);
                        }
                    }
                }
            }
            j2 = j2 + 1;
        }
        proof {
            let fin = self@;
            let flen = fin.frames.len() as int;
            assert forall|t: int|
                0 <= t < db.len() implies resolve_decl_m(fin.frames, (#[trigger] db[t]).0)
                == Option::Some(db[t].1) by {
                assert(assoc(fin.frames[flen - 1].decls, db[t].0, 0) == Option::Some(db[t].1));
                assert(!decl_hidden(fin.frames, db[t].1));
            }
            assert forall|t: int|
                0 <= t < eb.len() implies resolve_env_m(fin.frames, (#[trigger] eb[t]).0)
                == Option::Some(eb[t].1) by {
                assert(assoc(fin.frames[flen - 1].envs, eb[t].0, 0) == Option::Some(eb[t].1));
                assert(!env_hidden(fin.frames, eb[t].1));
            }
        }
        Result::Ok(())
    }
}

impl EngineState {
    /// Hides what an import-style pattern selects. A bare name (no
    /// members) hides whichever binding is visible at the call site, a
    /// command declaration winning over an environment binding; when no
    /// binding is visible but a module of that name exists, every
    /// binding imported from it under a qualified name is hidden. A
    /// member list or single member hides those exports of the module;
    /// a glob hides them all. Hiding a name with no visible binding
    /// fails with a not-found diagnostic and changes nothing, which is
    /// also why hiding a name twice in direct succession fails.
    #[verifier::loop_isolation(false)]
    pub fn hide_pattern(
        &mut self,
        pattern: &crate::import_pattern::ImportPattern,
    ) -> (r: Result<(), ShellError>)
        requires
            state_wf(old(self)@),
        ensures
            state_wf(final(self)@),
            only_top_vis_extended(old(self)@, final(self)@),
            r is Err ==> final(self)@ == old(self)@,
            (pattern.members@.len() == 0 && module_idx(
                old(self)@.modules,
                pattern.head.name@,
                old(self)@.modules.len() as int,
            ) is None) ==> {
                &&& ((r is Ok) <==> (resolve_decl_m(old(self)@.frames, pattern.head.name@) is Some
                    || resolve_env_m(old(self)@.frames, pattern.head.name@) is Some))
                &&& (r matches Err(e) ==> e@ == crate::error::ErrModel::NotFound(
                    pattern.head.span,
                ))
                &&& (match resolve_decl_m(old(self)@.frames, pattern.head.name@) {
                    Option::Some(id) => {
                        &&& decl_hidden(final(self)@.frames, id)
                        &&& forall|id2: usize|
                            id2 != id ==> decl_hidden(final(self)@.frames, id2) == decl_hidden(
                                old(self)@.frames,
                                id2,
                            )
                        &&& forall|id2: usize|
                            env_hidden(final(self)@.frames, id2) == env_hidden(
                                old(self)@.frames,
                                id2,
                            )
                    },
                    Option::None => true,
                })
                &&& (match resolve_env_m(old(self)@.frames, pattern.head.name@) {
                    Option::Some(id) => resolve_decl_m(old(self)@.frames, pattern.head.name@)
                        is None ==> {
                        &&& env_hidden(final(self)@.frames, id)
                        &&& forall|id2: usize|
                            id2 != id ==> env_hidden(final(self)@.frames, id2) == env_hidden(
                                old(self)@.frames,
                                id2,
                            )
                        &&& forall|id2: usize|
                            decl_hidden(final(self)@.frames, id2) == decl_hidden(
                                old(self)@.frames,
                                id2,
                            )
                    },
                    Option::None => true,
                })
            },
    {
        let ghost oldm = self@;
        let ghost headv = pattern.head.name@;
        if pattern.members.len() == 0 {
            match self.find_module(&pattern.head.name) {
                Option::None => {
                    return self.hide_one_name(&pattern.head.name, pattern.head.span);
                },
                Option::Some(mi) => {
                    proof {
                        lemma_module_idx(oldm.modules, headv, oldm.modules.len() as int);
                    }
                    match self.hide_one_name(&pattern.head.name, pattern.head.span) {
                        Result::Ok(()) => {
                            return Result::Ok(());
                        },
                        Result::Err(_) => {
                            // No bare binding: hide the module's imports,
                            // resolved under their qualified names.
                            let ghost md = oldm.modules[mi as int];
                            let mut t: usize = 0;
                            while t < self.modules[mi].decl_exports.len()
                                invariant
                                    state_wf(self@),
                                    only_top_vis_extended(oldm, self@),
                                    self@.modules == oldm.modules,
                                    self@.decls == oldm.decls,
                                    self@.env_vals == oldm.env_vals,
                                    0 <= t <= md.decl_exports.len(),
                                decreases md.decl_exports.len() - t,
                            {
                                let ghost pre = self@;
                                let q = qualify(
                                    &pattern.head.name,
                                    &self.modules[mi].decl_exports[t].0,
                                );
                                match self.resolve_command(&q) {
                                    Option::Some(id) => {
                                        proof {
                                            lemma_resolve_decl_bound(
                                                pre,
                                                q@,
                                                pre.frames.len() as int,
                                            );
                                        }
                                        self.push_decl_vis(id, false);
                                        proof {
                                            lemma_only_top_vis_trans(oldm, pre, self@);
                                        }
                                    },
                                    Option::None => {},
                                }
                                t = t + 1;
                            }
                            let mut t2: usize = 0;
                            while t2 < self.modules[mi].env_exports.len()
                                invariant
                                    state_wf(self@),
                                    only_top_vis_extended(oldm, self@),
                                    self@.modules == oldm.modules,
                                    self@.decls == oldm.decls,
                                    self@.env_vals == oldm.env_vals,
                                    0 <= t2 <= md.env_exports.len(),
                                decreases md.env_exports.len() - t2,
                            {
                                let ghost pre = self@;
                                let q = qualify(
                                    &pattern.head.name,
                                    &self.modules[mi].env_exports[t2].0,
                                );
                                match self.resolve_env_id(&q) {
                                    Option::Some(id) => {
                                        proof {
                                            lemma_resolve_env_bound(
                                                pre,
                                                q@,
                                                pre.frames.len() as int,
                                            );
                                        }
                                        self.push_env_vis(id, false);
                                        proof {
                                            lemma_only_top_vis_trans(oldm, pre, self@);
                                        }
                                    },
                                    Option::None => {},
                                }
                                t2 = t2 + 1;
                            }
                            return Result::Ok(());
                        },
                    }
                },
            }
        }
        // A member pattern always speaks about a module's exports.
        let mi = match self.find_module(&pattern.head.name) {
            Option::None => {
                return Result::Err(ShellError::NotFound(pattern.head.span));
            },
            Option::Some(mi) => mi,
        };
        proof {
            lemma_module_idx(oldm.modules, headv, oldm.modules.len() as int);
        }
        let ghost md = oldm.modules[mi as int];
        proof {
            assert(module_bounded(md, oldm.decls.len() as int, oldm.env_vals.len() as int));
        }
        // First resolve every selected export to an action, changing
        // nothing; then apply all the hide markers.
        let mut decl_ids: Vec<usize> = Vec::new();
        let mut env_ids: Vec<usize> = Vec::new();
        match &pattern.members[0] {
            crate::import_pattern::ImportPatternMember::Glob { .. } => {
                let mut t: usize = 0;
                while t < self.modules[mi].decl_exports.len()
                    invariant
                        self@ == oldm,
                        0 <= t <= md.decl_exports.len(),
                        forall|x: int|
                            0 <= x < decl_ids@.len() ==> #[trigger] decl_ids@[x]
                                < oldm.decls.len(),
                    decreases md.decl_exports.len() - t,
                {
                    proof {
                        assert(md.decl_exports[t as int].1 == self.modules@[
                            mi as int
                        ].decl_exports@[t as int].1);
                    }
                    decl_ids.push(self.modules[mi].decl_exports[t].1);
                    t = t + 1;
                }
                let mut t2: usize = 0;
                while t2 < self.modules[mi].env_exports.len()
                    invariant
                        self@ == oldm,
                        0 <= t2 <= md.env_exports.len(),
                        forall|x: int|
                            0 <= x < env_ids@.len() ==> #[trigger] env_ids@[x]
                                < oldm.env_vals.len(),
                    decreases md.env_exports.len() - t2,
                {
                    proof {
                        assert(md.env_exports[t2 as int].1 == self.modules@[
                            mi as int
                        ].env_exports@[t2 as int].1);
                    }
                    env_ids.push(self.modules[mi].env_exports[t2].1);
                    t2 = t2 + 1;
                }
            },
            crate::import_pattern::ImportPatternMember::Name { name, span } => {
                let dfound = assoc_find(&self.modules[mi].decl_exports, name);
                let efound = assoc_find(&self.modules[mi].env_exports, name);
                if dfound.is_none() && efound.is_none() {
                    return Result::Err(ShellError::NotFound(*span));
                }
                match dfound {
                    Option::Some(id) => {
                        proof {
                            lemma_assoc_bound(md.decl_exports, name@, 0, oldm.decls.len() as int);
                        }
                        decl_ids.push(id);
                    },
                    Option::None => {},
                }
                match efound {
                    Option::Some(id) => {
                        proof {
                            lemma_assoc_bound(
                                md.env_exports,
                                name@,
                                0,
                                oldm.env_vals.len() as int,
                            );
                        }
                        env_ids.push(id);
                    },
                    Option::None => {},
                }
            },
            crate::import_pattern::ImportPatternMember::List { names } => {
                let mut j: usize = 0;
                while j < names.len()
                    invariant
                        self@ == oldm,
                        0 <= j <= names@.len(),
                        forall|x: int|
                            0 <= x < decl_ids@.len() ==> #[trigger] decl_ids@[x]
                                < oldm.decls.len(),
                        forall|x: int|
                            0 <= x < env_ids@.len() ==> #[trigger] env_ids@[x]
                                < oldm.env_vals.len(),
                    decreases names@.len() - j,
                {
                    let dfound = assoc_find(&self.modules[mi].decl_exports, &names[j].0);
                    let efound = assoc_find(&self.modules[mi].env_exports, &names[j].0);
                    if dfound.is_none() && efound.is_none() {
                        return Result::Err(ShellError::NotFound(names[j].1));
                    }
                    match dfound {
                        Option::Some(id) => {
                            proof {
                                lemma_assoc_bound(
                                    md.decl_exports,
                                    names@[j as int].0@,
                                    0,
                                    oldm.decls.len() as int,
                                );
                            }
                            decl_ids.push(id);
                        },
                        Option::None => {},
                    }
                    match efound {
                        Option::Some(id) => {
                            proof {
                                lemma_assoc_bound(
                                    md.env_exports,
                                    names@[j as int].0@,
                                    0,
                                    oldm.env_vals.len() as int,
                                );
                            }
                            env_ids.push(id);
                        },
                        Option::None => {},
                    }
                    j = j + 1;
                }
            },
        }
        let mut a: usize = 0;
        while a < decl_ids.len()
            invariant
                state_wf(self@),
                only_top_vis_extended(oldm, self@),
                self@.decls == oldm.decls,
                0 <= a <= decl_ids@.len(),
                forall|x: int| 0 <= x < decl_ids@.len() ==> #[trigger] decl_ids@[x]
                    < oldm.decls.len(),
            decreases decl_ids@.len() - a,
        {
            let ghost pre = self@;
            self.push_decl_vis(decl_ids[a], false);
            proof {
                lemma_only_top_vis_trans(oldm, pre, self@);
            }
            a = a + 1;
        }
        let mut b: usize = 0;
        while b < env_ids.len()
            invariant
                state_wf(self@),
                only_top_vis_extended(oldm, self@),
                self@.env_vals == oldm.env_vals,
                0 <= b <= env_ids@.len(),
                forall|x: int| 0 <= x < env_ids@.len() ==> #[trigger] env_ids@[x]
                    < oldm.env_vals.len(),
            decreases env_ids@.len() - b,
        {
            let ghost pre = self@;
            self.push_env_vis(env_ids[b], false);
            proof {
                lemma_only_top_vis_trans(oldm, pre, self@);
            }
            b = b + 1;
        }
        Result::Ok(())
    }
}

/// Declaration visibility agreement from pointwise log verdicts.
pub proof fn lemma_decl_vis_agree_pointwise(
    f1: Seq<FrameModel>,
    f2: Seq<FrameModel>,
    id: usize,
    i: int,
)
    requires
        i <= f1.len(),
        i <= f2.len(),
        forall|k: int|
            0 <= k < i ==> #[trigger] frame_vis(f1[k].vis_decls, id) == frame_vis(
                f2[k].vis_decls,
                id,
            ),
    ensures
        decl_vis_upto(f1, id, i) == decl_vis_upto(f2, id, i),
    decreases i,
{
    if 0 < i {
        lemma_decl_vis_agree_pointwise(f1, f2, id, i - 1);
    }
}

/// The environment twin of `lemma_decl_vis_agree_pointwise`.
pub proof fn lemma_env_vis_agree_pointwise(
    f1: Seq<FrameModel>,
    f2: Seq<FrameModel>,
    id: usize,
    i: int,
)
    requires
        i <= f1.len(),
        i <= f2.len(),
        forall|k: int|
            0 <= k < i ==> #[trigger] frame_vis(f1[k].vis_envs, id) == frame_vis(
                f2[k].vis_envs,
                id,
            ),
    ensures
        env_vis_upto(f1, id, i) == env_vis_upto(f2, id, i),
    decreases i,
{
    if 0 < i {
        lemma_env_vis_agree_pointwise(f1, f2, id, i - 1);
    }
}

/// Bounds only grow when the tables grow.
pub proof fn lemma_frame_bounded_mono(f: FrameModel, nd1: int, ne1: int, nd2: int, ne2: int)
    requires
        frame_bounded(f, nd1, ne1),
        nd1 <= nd2,
        ne1 <= ne2,
    ensures
        frame_bounded(f, nd2, ne2),
{
}

/// The module twin of `lemma_frame_bounded_mono`.
pub proof fn lemma_module_bounded_mono(m: ModModel, nd1: int, ne1: int, nd2: int, ne2: int)
    requires
        module_bounded(m, nd1, ne1),
        nd1 <= nd2,
        ne1 <= ne2,
    ensures
        module_bounded(m, nd2, ne2),
{
}

/// The variable binding list after `id` is bound to `v`.
pub open spec fn var_assoc_idx(s: Seq<(usize, ValModel)>, id: usize, i: int) -> Option<int>
    decreases s.len() - i,
{
    if i < 0 || i >= s.len() {
        Option::None
    } else if s[i].0 == id {
        Option::Some(i)
    } else {
        var_assoc_idx(s, id, i + 1)
    }
}

/// The binding list after the first binding of `id` is replaced by `v`,
/// or a fresh one appended.
pub open spec fn var_assoc_set(s: Seq<(usize, ValModel)>, id: usize, v: ValModel) -> Seq<
    (usize, ValModel),
> {
    match var_assoc_idx(s, id, 0) {
        Option::Some(k) => s.update(k, (id, v)),
        Option::None => s.push((id, v)),
    }
}

proof fn lemma_var_assoc_idx(s: Seq<(usize, ValModel)>, id: usize, i: int)
    requires
        0 <= i,
    ensures
        var_assoc_idx(s, id, i) matches Option::Some(k) ==> i <= k < s.len() && s[k].0 == id && (
        forall|t: int| i <= t < k ==> s[t].0 != id),
        var_assoc_idx(s, id, i) is None ==> forall|t: int| i <= t < s.len() ==> s[t].0 != id,
    decreases s.len() - i,
{
    if i < s.len() && s[i].0 != id {
        lemma_var_assoc_idx(s, id, i + 1);
    }
}

/// After binding, the id answers with the new value.
proof fn lemma_var_assoc_set_same(s: Seq<(usize, ValModel)>, id: usize, v: ValModel)
    ensures
        var_assoc(var_assoc_set(s, id, v), id, 0) == Option::Some(v),
{
    lemma_var_assoc_set_same_at(s, id, v, 0);
}

proof fn lemma_var_assoc_set_same_at(s: Seq<(usize, ValModel)>, id: usize, v: ValModel, i: int)
    requires
        0 <= i <= s.len(),
        forall|t: int| 0 <= t < i ==> s[t].0 != id,
    ensures
        var_assoc(var_assoc_set(s, id, v), id, i) == Option::Some(v),
    decreases s.len() - i,
{
    lemma_var_assoc_idx(s, id, 0);
    if i < s.len() && s[i].0 != id {
        lemma_var_assoc_set_same_at(s, id, v, i + 1);
    }
}

/// Binding one id leaves every other id's binding unchanged.
proof fn lemma_var_assoc_set_other(s: Seq<(usize, ValModel)>, id: usize, v: ValModel)
    ensures
        forall|id2: usize|
            id2 != id ==> var_assoc(var_assoc_set(s, id, v), id2, 0) == var_assoc(s, id2, 0),
{
    assert forall|id2: usize|
        id2 != id implies var_assoc(var_assoc_set(s, id, v), id2, 0) == var_assoc(s, id2, 0) by {
        lemma_var_assoc_set_other_at(s, id, v, id2, 0);
    }
}

proof fn lemma_var_assoc_set_other_at(
    s: Seq<(usize, ValModel)>,
    id: usize,
    v: ValModel,
    id2: usize,
    i: int,
)
    requires
        id2 != id,
        0 <= i,
    ensures
        var_assoc(var_assoc_set(s, id, v), id2, i) == var_assoc(s, id2, i),
    decreases s.len() - i,
{
    lemma_var_assoc_idx(s, id, 0);
    if i < s.len() {
        lemma_var_assoc_set_other_at(s, id, v, id2, i + 1);
    }
}

/// Binds a variable id in a binding list: replaces the first existing
/// binding, or appends a new one.
fn var_bind(s: &mut Vec<(usize, Value)>, id: usize, value: Value)
    ensures
        vars_view(final(s)@) == var_assoc_set(vars_view(old(s)@), id, value@),
{
    let ghost sv = vars_view(old(s)@);
    proof {
        lemma_var_assoc_idx(sv, id, 0);
    }
    let mut i: usize = 0;
    while i < s.len()
        invariant
            0 <= i <= s@.len(),
            s@ == old(s)@,
            sv == vars_view(s@),
            sv.len() == s@.len(),
            forall|t: int| 0 <= t < i ==> sv[t].0 != id,
        decreases s@.len() - i,
    {
        if s[i].0 == id {
            proof {
                assert(sv[i as int].0 == id);
                lemma_var_assoc_idx_exact_at(sv, id, i as int, 0);
            }
            s.set(i, (id, value));
            proof {
                assert(vars_view(s@) =~= var_assoc_set(sv, id, value@));
            }
            return ;
        }
        proof {
            assert(sv[i as int].0 != id);
        }
        i = i + 1;
    }
    s.push((id, value));
    proof {
        lemma_var_assoc_idx_none(sv, id, 0);
        assert(vars_view(s@) =~= var_assoc_set(sv, id, value@));
    }
}

proof fn lemma_var_assoc_idx_exact_at(s: Seq<(usize, ValModel)>, id: usize, k: int, i: int)
    requires
        0 <= i <= k < s.len(),
        s[k].0 == id,
        forall|t: int| i <= t < k ==> s[t].0 != id,
    ensures
        var_assoc_idx(s, id, i) == Option::Some(k),
    decreases k - i,
{
    if i < k {
        lemma_var_assoc_idx_exact_at(s, id, k, i + 1);
    }
}

proof fn lemma_var_assoc_idx_none(s: Seq<(usize, ValModel)>, id: usize, i: int)
    requires
        0 <= i,
        forall|t: int| i <= t < s.len() ==> s[t].0 != id,
    ensures
        var_assoc_idx(s, id, i) is None,
    decreases s.len() - i,
{
    if i < s.len() {
        lemma_var_assoc_idx_none(s, id, i + 1);
    }
}

/// A name the symbol table never resolves to a hidden binding: whatever
/// command resolution answers is visible.
pub proof fn lemma_resolved_is_visible(frames: Seq<FrameModel>, name: Seq<u8>, i: int)
    ensures
        resolve_decl_upto(frames, name, i) matches Option::Some(id) ==> !decl_hidden(frames, id),
    decreases i,
{
    if 0 < i <= frames.len() {
        lemma_resolved_is_visible(frames, name, i - 1);
    }
}

} // verus!
