//! The explicit rendering context: which program is bound, and what every
//! uniform of every registered program currently holds.
//!
//! The driver keeps this state implicitly, bound by call order; this context
//! keeps it explicitly and is the crate's model of it. Its mathematical view
//! is a map from program handle to a map from uniform location to the last
//! value uploaded there. Uploads go through the bound program only, and the
//! central guarantee is the absence of cross-talk: an upload changes the one
//! named uniform of the one named program and nothing else.

use vstd::prelude::*;
use crate::program::Program;
use crate::uniform::Uniform;
use crate::uniform::UniformValue;

verus! {

/// The recorded uniforms of one registered program: each slot pairs a
/// location with the last value uploaded to it.
pub struct ProgramState {
    pub handle: u32,
    pub slots: Vec<(i32, UniformValue)>,
}

/// No two slots record the same location.
pub open spec fn slot_keys_unique(slots: Seq<(i32, UniformValue)>) -> bool {
    forall|i: int, j: int| 0 <= i < j < slots.len() ==> slots[i].0 != slots[j].0
}

/// The slot list read as a map from location to value.
pub open spec fn slot_map(slots: Seq<(i32, UniformValue)>) -> Map<i32, UniformValue>
    decreases slots.len(),
{
    if slots.len() == 0 {
        Map::empty()
    } else {
        slot_map(slots.drop_last()).insert(slots.last().0, slots.last().1)
    }
}

/// Replacing the slot that records `location` changes the map view exactly as
/// an insert does.
proof fn lemma_slot_map_update(slots: Seq<(i32, UniformValue)>, i: int, location: i32, value: UniformValue)
    requires
        slot_keys_unique(slots),
        0 <= i < slots.len(),
        slots[i].0 == location,
    ensures
        slot_map(slots.update(i, (location, value))) == slot_map(slots).insert(location, value),
    decreases slots.len(),
{
    let upd = slots.update(i, (location, value));
    let front = slots.drop_last();
    if i == slots.len() - 1 {
        assert(upd.drop_last() =~= front);
        assert(upd.last() == (location, value));
        assert(slot_map(front).insert(location, slots.last().1).insert(location, value)
            =~= slot_map(front).insert(location, value));
    } else {
        assert(slot_keys_unique(front)) by {
            assert(forall|p: int| 0 <= p < front.len() ==> front[p] == slots[p]);
        }
        assert(front[i] == slots[i]);
        lemma_slot_map_update(front, i, location, value);
        assert(upd.drop_last() =~= front.update(i, (location, value)));
        assert(upd.last() == slots.last());
        assert(slots.last().0 != location);
        assert(slot_map(front).insert(location, value).insert(slots.last().0, slots.last().1)
            =~= slot_map(front).insert(slots.last().0, slots.last().1).insert(location, value));
    }
}

/// A location is in the slot map exactly when some slot records it.
proof fn lemma_slot_map_dom(slots: Seq<(i32, UniformValue)>, location: i32)
    ensures
        slot_map(slots).dom().contains(location) <==> exists|i: int|
            0 <= i < slots.len() && (#[trigger] slots[i]).0 == location,
    decreases slots.len(),
{
    if slots.len() > 0 {
        let front = slots.drop_last();
        lemma_slot_map_dom(front, location);
        assert(forall|i: int| 0 <= i < front.len() ==> front[i] == slots[i]);
        if slots.last().0 == location {
            assert(slots[slots.len() - 1].0 == location);
        } else if exists|i: int| 0 <= i < slots.len() && (#[trigger] slots[i]).0 == location {
            let i = choose|i: int| 0 <= i < slots.len() && (#[trigger] slots[i]).0 == location;
            assert(front[i] == slots[i]);
        }
    }
}

/// With unique locations, the slot map reads each slot's own value at its
/// location.
proof fn lemma_slot_map_at(slots: Seq<(i32, UniformValue)>, i: int)
    requires
        slot_keys_unique(slots),
        0 <= i < slots.len(),
    ensures
        slot_map(slots).dom().contains(slots[i].0),
        slot_map(slots)[slots[i].0] == slots[i].1,
    decreases slots.len(),
{
    let front = slots.drop_last();
    if i < slots.len() - 1 {
        assert(slot_keys_unique(front)) by {
            assert(forall|p: int| 0 <= p < front.len() ==> front[p] == slots[p]);
        }
        assert(front[i] == slots[i]);
        lemma_slot_map_at(front, i);
        assert(slots.last().0 != slots[i].0);
    }
}

impl ProgramState {
    /// A program state is well formed when it names a real program and no
    /// location is recorded twice.
    pub open spec fn wf(self) -> bool {
        self.handle != 0 && slot_keys_unique(self.slots@)
    }

    /// The uniforms of this program, as a map from location to value.
    pub open spec fn map_view(self) -> Map<i32, UniformValue> {
        slot_map(self.slots@)
    }

    /// Record `value` as what `location` now holds, replacing any earlier
    /// record for the same location.
    fn set_slot(&mut self, location: i32, value: UniformValue)
        requires
            old(self).wf(),
        ensures
            final(self).wf(),
            final(self).handle == old(self).handle,
            final(self).map_view() == old(self).map_view().insert(location, value),
    {
        let n = self.slots.len();
        let mut i: usize = 0;
        while i < n
            invariant
                *self == *old(self),
                old(self).wf(),
                n == self.slots@.len(),
                i <= n,
                forall|j: int| 0 <= j < i ==> (#[trigger] self.slots@[j]).0 != location,
            decreases n - i,
        {
            if self.slots[i].0 == location {
                let _ = self.slots.remove(i);
                self.slots.insert(i, (location, value));
                proof {
                    assert(self.slots@ =~= old(self).slots@.update(i as int, (location, value)));
                    lemma_slot_map_update(old(self).slots@, i as int, location, value);
                    assert(slot_keys_unique(self.slots@)) by {
                        assert(forall|p: int|
                            0 <= p < self.slots@.len() && p != i ==> self.slots@[p]
                                == old(self).slots@[p]);
                    }
                }
                return ;
            }
            i += 1;
        }
        self.slots.push((location, value));
        proof {
            assert(self.slots@.drop_last() =~= old(self).slots@);
            assert(slot_keys_unique(self.slots@)) by {
                assert(forall|p: int|
                    0 <= p < old(self).slots@.len() ==> self.slots@[p] == old(self).slots@[p]);
            }
        }
    }

    /// The last value recorded for `location`, when there is one.
    pub fn lookup_slot(&self, location: i32) -> (r: Option<&UniformValue>)
        requires
            self.wf(),
        ensures
            r is Some <==> self.map_view().dom().contains(location),
            r matches Some(v) ==> *v == self.map_view()[location],
    {
        let m = self.slots.len();
        let mut j: usize = 0;
        while j < m
            invariant
                self.wf(),
                m == self.slots@.len(),
                j <= m,
                forall|k: int| 0 <= k < j ==> (#[trigger] self.slots@[k]).0 != location,
            decreases m - j,
        {
            if self.slots[j].0 == location {
                proof {
                    lemma_slot_map_at(self.slots@, j as int);
                }
                return Some(&self.slots[j].1);
            }
            j += 1;
        }
        proof {
            lemma_slot_map_dom(self.slots@, location);
        }
        None
    }
}

/// No two registered programs share a handle.
pub open spec fn handles_unique(programs: Seq<ProgramState>) -> bool {
    forall|i: int, j: int| 0 <= i < j < programs.len() ==> programs[i].handle != programs[j].handle
}

/// The registered programs read as a map from program handle to that
/// program's uniform map.
pub open spec fn ctx_map(programs: Seq<ProgramState>) -> Map<u32, Map<i32, UniformValue>>
    decreases programs.len(),
{
    if programs.len() == 0 {
        Map::empty()
    } else {
        ctx_map(programs.drop_last()).insert(
            programs.last().handle,
            programs.last().map_view(),
        )
    }
}

/// A handle is in the context's map exactly when some registered program
/// carries it.
pub proof fn lemma_ctx_map_dom(programs: Seq<ProgramState>, handle: u32)
    ensures
        ctx_map(programs).dom().contains(handle) <==> exists|i: int|
            0 <= i < programs.len() && (#[trigger] programs[i]).handle == handle,
    decreases programs.len(),
{
    if programs.len() > 0 {
        let front = programs.drop_last();
        lemma_ctx_map_dom(front, handle);
        assert(forall|i: int| 0 <= i < front.len() ==> front[i] == programs[i]);
        if programs.last().handle == handle {
            assert(programs[programs.len() - 1].handle == handle);
        } else if exists|i: int| 0 <= i < programs.len() && (#[trigger] programs[i]).handle
            == handle {
            let i = choose|i: int|
                0 <= i < programs.len() && (#[trigger] programs[i]).handle == handle;
            assert(front[i] == programs[i]);
        }
    }
}

/// With unique handles, the context's map reads each registered program's own
/// uniform map at its handle.
pub proof fn lemma_ctx_map_at(programs: Seq<ProgramState>, i: int)
    requires
        handles_unique(programs),
        0 <= i < programs.len(),
    ensures
        ctx_map(programs).dom().contains(programs[i].handle),
        ctx_map(programs)[programs[i].handle] == programs[i].map_view(),
    decreases programs.len(),
{
    let front = programs.drop_last();
    if i < programs.len() - 1 {
        assert(handles_unique(front)) by {
            assert(forall|p: int| 0 <= p < front.len() ==> front[p] == programs[p]);
        }
        assert(front[i] == programs[i]);
        lemma_ctx_map_at(front, i);
        assert(programs.last().handle != programs[i].handle);
    }
}

/// Replacing the state registered for a handle changes the context's map
/// exactly as an insert does.
proof fn lemma_ctx_map_update(programs: Seq<ProgramState>, i: int, st: ProgramState)
    requires
        handles_unique(programs),
        0 <= i < programs.len(),
        st.handle == programs[i].handle,
    ensures
        ctx_map(programs.update(i, st)) == ctx_map(programs).insert(st.handle, st.map_view()),
        handles_unique(programs.update(i, st)),
    decreases programs.len(),
{
    let upd = programs.update(i, st);
    let front = programs.drop_last();
    assert(handles_unique(upd)) by {
        assert(forall|p: int| 0 <= p < upd.len() && p != i ==> upd[p] == programs[p]);
    }
    if i == programs.len() - 1 {
        assert(upd.drop_last() =~= front);
        assert(upd.last() == st);
        assert(ctx_map(front).insert(st.handle, programs.last().map_view()).insert(
            st.handle,
            st.map_view(),
        ) =~= ctx_map(front).insert(st.handle, st.map_view()));
    } else {
        assert(handles_unique(front)) by {
            assert(forall|p: int| 0 <= p < front.len() ==> front[p] == programs[p]);
        }
        assert(front[i] == programs[i]);
        lemma_ctx_map_update(front, i, st);
        assert(upd.drop_last() =~= front.update(i, st));
        assert(upd.last() == programs.last());
        assert(programs.last().handle != st.handle);
        assert(ctx_map(front).insert(st.handle, st.map_view()).insert(
            programs.last().handle,
            programs.last().map_view(),
        ) =~= ctx_map(front).insert(programs.last().handle, programs.last().map_view()).insert(
            st.handle,
            st.map_view(),
        ));
    }
}

/// A context operation that could not be performed.
#[derive(Clone, Copy, Debug, PartialEq, Eq, Structural)]
pub enum ContextError {
    /// The program's handle is already registered with this context.
    AlreadyRegistered,
    /// The program's handle is not registered with this context.
    NotRegistered,
}

/// An upload that was refused; a refused upload changes nothing.
#[derive(Clone, Copy, Debug, PartialEq, Eq, Structural)]
pub enum UploadError {
    /// The uniform's owning program is not the bound program.
    ProgramNotBound,
    /// The matrix value does not carry exactly sixteen entries.
    MalformedMatrix,
}

/// What an upload does to the context's model: the named program's map gains
/// the value at the named location, and nothing else moves.
pub open spec fn uploaded_model(
    model: Map<u32, Map<i32, UniformValue>>,
    program: u32,
    location: i32,
    value: UniformValue,
) -> Map<u32, Map<i32, UniformValue>> {
    model.insert(program, model[program].insert(location, value))
}

/// The explicit rendering context: the bound program, if any, and the state
/// of every registered program.
pub struct Context {
    pub bound: Option<u32>,
    pub programs: Vec<ProgramState>,
}

impl Context {
    /// A context is well formed when registered handles are unique, every
    /// registered state is well formed, and the bound handle, if any, is
    /// registered.
    pub open spec fn wf(self) -> bool {
        handles_unique(self.programs@) && (forall|i: int|
            0 <= i < self.programs@.len() ==> (#[trigger] self.programs@[i]).wf()) && (
        self.bound matches Some(h) ==> ctx_map(self.programs@).dom().contains(h))
    }

    /// The context's model: program handle -> location -> last uploaded
    /// value.
    pub open spec fn model(self) -> Map<u32, Map<i32, UniformValue>> {
        ctx_map(self.programs@)
    }

    /// A fresh context: nothing registered, nothing bound.
    pub fn new() -> (r: Context)
        ensures
            r.wf(),
            r.bound is None,
            r.model() == Map::<u32, Map<i32, UniformValue>>::empty(),
    {
        Context { bound: None, programs: Vec::new() }
    }

    /// The position of the registered program carrying `handle`.
    fn find_program_index(&self, handle: u32) -> (i: usize)
        requires
            exists|j: int|
                0 <= j < self.programs@.len() && (#[trigger] self.programs@[j]).handle == handle,
        ensures
            i < self.programs@.len(),
            self.programs@[i as int].handle == handle,
    {
        let n = self.programs.len();
        let mut i: usize = 0;
        loop
            invariant
                n == self.programs@.len(),
                i < n,
                forall|j: int| 0 <= j < i ==> (#[trigger] self.programs@[j]).handle != handle,
                exists|j: int|
                    0 <= j < self.programs@.len() && (#[trigger] self.programs@[j]).handle
                        == handle,
            decreases n - i,
        {
            if self.programs[i].handle == handle {
                return i;
            }
            proof {
                let j = choose|j: int|
                    0 <= j < self.programs@.len() && (#[trigger] self.programs@[j]).handle
                        == handle;
                assert(j > i);
            }
            i += 1;
        }
    }

    /// Whether `handle` is registered with this context.
    fn is_registered(&self, handle: u32) -> (b: bool)
        ensures
            b == ctx_map(self.programs@).dom().contains(handle),
    {
        let n = self.programs.len();
        let mut i: usize = 0;
        while i < n
            invariant
                n == self.programs@.len(),
                i <= n,
                forall|j: int| 0 <= j < i ==> (#[trigger] self.programs@[j]).handle != handle,
            decreases n - i,
        {
            if self.programs[i].handle == handle {
                proof {
                    lemma_ctx_map_dom(self.programs@, handle);
                }
                return true;
            }
            i += 1;
        }
        proof {
            lemma_ctx_map_dom(self.programs@, handle);
        }
        false
    }

    /// Make a linked program known to this context, with no uniform values
    /// recorded yet. A handle is registered at most once.
    pub fn register(&mut self, p: &Program) -> (r: Result<(), ContextError>)
        requires
            old(self).wf(),
            p.wf(),
        ensures
            final(self).wf(),
            r is Ok <==> !old(self).model().dom().contains(p.handle),
            r is Ok ==> final(self).bound == old(self).bound && final(self).model() == old(
                self,
            ).model().insert(p.handle, Map::<i32, UniformValue>::empty()),
            r is Err ==> *final(self) == *old(self),
            r matches Err(e) ==> e == ContextError::AlreadyRegistered,
    {
        if self.is_registered(p.handle) {
            return Err(ContextError::AlreadyRegistered);
        }
        proof {
            lemma_ctx_map_dom(self.programs@, p.handle);
        }
        let st = ProgramState { handle: p.handle, slots: Vec::new() };
        self.programs.push(st);
        proof {
            assert(self.programs@.drop_last() =~= old(self).programs@);
            assert(handles_unique(self.programs@)) by {
                assert(forall|q: int|
                    0 <= q < old(self).programs@.len() ==> self.programs@[q] == old(
                        self,
                    ).programs@[q]);
            }
            assert(st.map_view() =~= Map::<i32, UniformValue>::empty());
        }
        Ok(())
    }

    /// Bind `p` for the coming uploads: afterwards, and until the next bind,
    /// uploads go to `p`'s uniforms.
    pub fn use_prog(&mut self, p: &Program) -> (r: Result<(), ContextError>)
        requires
            old(self).wf(),
        ensures
            final(self).wf(),
            r is Ok <==> old(self).model().dom().contains(p.handle),
            r is Ok ==> final(self).bound == Some(p.handle) && final(self).model() == old(
                self,
            ).model(),
            r is Err ==> *final(self) == *old(self),
            r matches Err(e) ==> e == ContextError::NotRegistered,
    {
        if !self.is_registered(p.handle) {
            return Err(ContextError::NotRegistered);
        }
        self.bound = Some(p.handle);
        Ok(())
    }

    /// Read back the last value recorded for `location` of `program`: the
    /// model's entry, when there is one.
    pub fn lookup_value(&self, program: u32, location: i32) -> (r: Option<&UniformValue>)
        requires
            self.wf(),
        ensures
            r is Some <==> self.model().dom().contains(program)
                && self.model()[program].dom().contains(location),
            r matches Some(v) ==> *v == self.model()[program][location],
    {
        let n = self.programs.len();
        let mut i: usize = 0;
        while i < n
            invariant
                self.wf(),
                n == self.programs@.len(),
                i <= n,
                forall|j: int| 0 <= j < i ==> (#[trigger] self.programs@[j]).handle != program,
            decreases n - i,
        {
            if self.programs[i].handle == program {
                proof {
                    lemma_ctx_map_at(self.programs@, i as int);
                }
                return self.programs[i].lookup_slot(location);
            }
            i += 1;
        }
        proof {
            lemma_ctx_map_dom(self.programs@, program);
        }
        None
    }

    /// Record that the uniform `u` of the bound program now holds `value`.
    /// The upload is accepted exactly when `u`'s program is the bound program
    /// and the value is well formed; an accepted upload changes the one named
    /// uniform and nothing else, and a refused upload changes nothing.
    pub fn upload(&mut self, u: &Uniform, value: UniformValue) -> (r: Result<(), UploadError>)
        requires
            old(self).wf(),
        ensures
            final(self).wf(),
            r is Ok <==> old(self).bound == Some(u.program) && value.wf(),
            r is Ok ==> final(self).bound == old(self).bound && final(self).model()
                == uploaded_model(old(self).model(), u.program, u.location, value),
            r is Err ==> *final(self) == *old(self),
            r matches Err(e) ==> (e is ProgramNotBound <==> old(self).bound != Some(u.program)),
            r matches Err(e) ==> (e is MalformedMatrix <==> old(self).bound == Some(u.program)
                && !value.wf()),
    {
        let bound_ok = match self.bound {
            Some(h) => h == u.program,
            None => false,
        };
        if !bound_ok {
            return Err(UploadError::ProgramNotBound);
        }
        if !value.check_wf() {
            return Err(UploadError::MalformedMatrix);
        }
        proof {
            lemma_ctx_map_dom(self.programs@, u.program);
        }
        let i = self.find_program_index(u.program);
        let mut st = self.programs.remove(i);
        proof {
            lemma_ctx_map_at(old(self).programs@, i as int);
        }
        st.set_slot(u.location, value);
        self.programs.insert(i, st);
        proof {
            assert(self.programs@ =~= old(self).programs@.update(
                i as int,
                self.programs@[i as int],
            ));
            lemma_ctx_map_update(old(self).programs@, i as int, self.programs@[i as int]);
        }
        Ok(())
    }
}

impl Uniform {
    /// Upload one signed integer.
    pub fn upload_1i(&self, ctx: &mut Context, v: i32) -> (r: Result<(), UploadError>)
        requires
            old(ctx).wf(),
        ensures
            final(ctx).wf(),
            r is Ok <==> old(ctx).bound == Some(self.program),
            r is Ok ==> final(ctx).bound == old(ctx).bound && final(ctx).model()
                == uploaded_model(
                old(ctx).model(),
                self.program,
                self.location,
                UniformValue::Int1(v),
            ),
            r is Err ==> *final(ctx) == *old(ctx),
            r matches Err(e) ==> e == UploadError::ProgramNotBound,
    {
        ctx.upload(self, UniformValue::Int1(v))
    }

    /// Upload one float, given as its IEEE-754 bit pattern.
    pub fn upload_1f(&self, ctx: &mut Context, bits: u32) -> (r: Result<(), UploadError>)
        requires
            old(ctx).wf(),
        ensures
            final(ctx).wf(),
            r is Ok <==> old(ctx).bound == Some(self.program),
            r is Ok ==> final(ctx).bound == old(ctx).bound && final(ctx).model()
                == uploaded_model(
                old(ctx).model(),
                self.program,
                self.location,
                UniformValue::Float1(bits),
            ),
            r is Err ==> *final(ctx) == *old(ctx),
            r matches Err(e) ==> e == UploadError::ProgramNotBound,
    {
        ctx.upload(self, UniformValue::Float1(bits))
    }

    /// Upload a three-component float vector, each component given as its
    /// IEEE-754 bit pattern.
    pub fn upload_3f(&self, ctx: &mut Context, x: u32, y: u32, z: u32) -> (r: Result<
        (),
        UploadError,
    >)
        requires
            old(ctx).wf(),
        ensures
            final(ctx).wf(),
            r is Ok <==> old(ctx).bound == Some(self.program),
            r is Ok ==> final(ctx).bound == old(ctx).bound && final(ctx).model()
                == uploaded_model(
                old(ctx).model(),
                self.program,
                self.location,
                UniformValue::Float3(x, y, z),
            ),
            r is Err ==> *final(ctx) == *old(ctx),
            r matches Err(e) ==> e == UploadError::ProgramNotBound,
    {
        ctx.upload(self, UniformValue::Float3(x, y, z))
    }

    /// Upload a four-by-four float matrix: its sixteen entries in
    /// column-major order, each given as its IEEE-754 bit pattern.
    pub fn upload_m4f(&self, ctx: &mut Context, entries: Vec<u32>) -> (r: Result<(), UploadError>)
        requires
            old(ctx).wf(),
        ensures
            final(ctx).wf(),
            r is Ok <==> old(ctx).bound == Some(self.program) && entries@.len() == 16,
            r is Ok ==> final(ctx).bound == old(ctx).bound && final(ctx).model()
                == uploaded_model(
                old(ctx).model(),
                self.program,
                self.location,
                UniformValue::Mat4(entries),
            ),
            r is Err ==> *final(ctx) == *old(ctx),
            r matches Err(e) ==> (e is ProgramNotBound <==> old(ctx).bound != Some(self.program)),
            r matches Err(e) ==> (e is MalformedMatrix <==> old(ctx).bound == Some(self.program)
                && entries@.len() != 16),
    {
        ctx.upload(self, UniformValue::Mat4(entries))
    }
}

/// Uploading a value to one uniform of one program is a no-op on everything
/// else the context records: every other program keeps its whole uniform map,
/// every other location of the same program keeps its value, and no program
/// appears or disappears. Only the one named uniform changes, to the uploaded
/// value.
pub proof fn lemma_upload_no_cross_talk(
    model: Map<u32, Map<i32, UniformValue>>,
    program: u32,
    location: i32,
    value: UniformValue,
    other_program: u32,
    other_location: i32,
)
    requires
        model.dom().contains(program),
        model.dom().contains(other_program),
        !(other_program == program && other_location == location),
    ensures
        uploaded_model(model, program, location, value).dom() == model.dom(),
        uploaded_model(model, program, location, value)[program][location] == value,
        uploaded_model(model, program, location, value)[other_program].dom().contains(
            other_location,
        ) == model[other_program].dom().contains(other_location),
        model[other_program].dom().contains(other_location)
            ==> uploaded_model(model, program, location, value)[other_program][other_location]
            == model[other_program][other_location],
{
    assert(uploaded_model(model, program, location, value).dom() =~= model.dom());
}

} // verus!
