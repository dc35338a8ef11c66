//! Display-session state machine: the set of compositor outputs, their
//! gamma-control bindings, and their ramp-table buffers.
//!
//! The session tracks per-output state as plain records keyed by the numeric
//! id the protocol assigned at bind time. The caller performs the protocol
//! requests themselves and feeds the resulting events back in; every method
//! states exactly how the output table changes and which requests the caller
//! must issue.

use vstd::prelude::*;

use crate::color::{blackbody_whitepoint_kelvin, fill_gamma_table, gamma_table, whitepoint_of};

verus! {

/// Event context identifying the output an output-object event belongs to.
#[derive(Clone, Copy, Debug, PartialEq, Eq, Structural)]
pub struct OutputData {
    pub id: u32,
}

/// Event context identifying the output a gamma-control event belongs to.
#[derive(Clone, Copy, Debug, PartialEq, Eq, Structural)]
pub struct GammaData {
    pub id: u32,
}

/// The session's record of one compositor output.
pub struct OutputState {
    /// The human-readable name or description, once reported.
    pub name: Option<String>,
    /// Whether a live gamma-control binding exists for this output.
    pub gamma: bool,
    /// The compositor-assigned ramp size; 0 until reported.
    pub ramp_size: u32,
    /// The ramp-table buffer: three planes of `ramp_size` 16-bit samples.
    pub table: Option<Vec<u16>>,
}

impl OutputState {
    /// An output takes part in temperature application only with a live
    /// binding, a reported ramp size, and an allocated buffer.
    pub open spec fn usable(self) -> bool {
        self.gamma && self.ramp_size > 0 && self.table is Some
    }

    /// An allocated buffer always holds exactly the three planes.
    pub open spec fn table_wf(self) -> bool {
        self.table matches Some(t) ==> t@.len() == 3 * self.ramp_size
    }
}

/// There is an entry with this id.
pub open spec fn has_id(s: Seq<(u32, OutputState)>, id: u32) -> bool {
    exists|i: int| 0 <= i < s.len() && s[i].0 == id
}

/// The index of the entry with this id.
pub open spec fn id_index(s: Seq<(u32, OutputState)>, id: u32) -> int {
    choose|i: int| 0 <= i < s.len() && s[i].0 == id
}

/// The state recorded for this id.
pub open spec fn state_of(s: Seq<(u32, OutputState)>, id: u32) -> OutputState {
    s[id_index(s, id)].1
}

/// Ids are pairwise distinct.
pub open spec fn uniq_ids(s: Seq<(u32, OutputState)>) -> bool {
    forall|i: int, j: int| 0 <= i < j < s.len() ==> s[i].0 != s[j].0
}

/// All buffers hold their three planes.
pub open spec fn tables_wf(s: Seq<(u32, OutputState)>) -> bool {
    forall|i: int| 0 <= i < s.len() ==> (#[trigger] s[i].1).table_wf()
}

/// With distinct ids, the entry at any index with a matching id is the entry
/// `id_index` picks.
pub proof fn lemma_id_index(s: Seq<(u32, OutputState)>, id: u32, i: int)
    requires
        uniq_ids(s),
        0 <= i < s.len(),
        s[i].0 == id,
    ensures
        id_index(s, id) == i,
        has_id(s, id),
        state_of(s, id) == s[i].1,
{
    assert(has_id(s, id));
    let j = id_index(s, id);
    assert(0 <= j < s.len() && s[j].0 == id);
    if i < j {
        assert(s[i].0 != s[j].0);
    } else if j < i {
        assert(s[j].0 != s[i].0);
    }
}

/// The session: output table, and whether (and under which global name) the
/// gamma-control-manager capability is bound.
pub struct AppState {
    pub outputs: Vec<(u32, OutputState)>,
    pub gamma_mgr: bool,
    pub gamma_mgr_name: Option<u32>,
}

impl AppState {
    /// The table is well-formed: ids distinct, buffers of the right size.
    pub open spec fn wf(self) -> bool {
        uniq_ids(self.outputs@) && tables_wf(self.outputs@)
    }

    /// There is a record for this output id.
    pub open spec fn has_output(self, id: u32) -> bool {
        has_id(self.outputs@, id)
    }

    /// The record for this output id.
    pub open spec fn output(self, id: u32) -> OutputState {
        state_of(self.outputs@, id)
    }

    /// An empty session: no outputs, no manager.
    pub fn new() -> (s: AppState)
        ensures
            s.wf(),
            s.outputs@.len() == 0,
            !s.gamma_mgr,
            s.gamma_mgr_name is None,
    {
        AppState { outputs: Vec::new(), gamma_mgr: false, gamma_mgr_name: None }
    }
}

/// Replacing the state at one index keeps the id set and every other
/// output's state.
proof fn lemma_state_update(s: Seq<(u32, OutputState)>, i: int, st: OutputState)
    requires
        uniq_ids(s),
        0 <= i < s.len(),
    ensures
        ({
            let s2 = s.update(i, (s[i].0, st));
            &&& uniq_ids(s2)
            &&& forall|o: u32| has_id(s2, o) == has_id(s, o)
            &&& state_of(s2, s[i].0) == st
            &&& forall|o: u32| o != s[i].0 && has_id(s, o) ==> state_of(s2, o) == state_of(s, o)
        }),
{
    let s2 = s.update(i, (s[i].0, st));
    assert(forall|k: int| 0 <= k < s.len() ==> s2[k].0 == s[k].0);
    assert forall|o: u32| has_id(s2, o) == has_id(s, o) by {
        if has_id(s, o) {
            let k = id_index(s, o);
            assert(s2[k].0 == o);
        }
        if has_id(s2, o) {
            let k = id_index(s2, o);
            assert(s[k].0 == o);
        }
    }
    lemma_id_index(s2, s[i].0, i);
    assert forall|o: u32| o != s[i].0 && has_id(s, o) implies state_of(s2, o) == state_of(
        s,
        o,
    ) by {
        let k = id_index(s, o);
        assert(0 <= k < s.len() && s[k].0 == o);
        lemma_id_index(s, o, k);
        assert(k != i);
        lemma_id_index(s2, o, k);
    }
}

/// Appending a record with a fresh id keeps every existing output's state.
proof fn lemma_state_push(s: Seq<(u32, OutputState)>, id: u32, st: OutputState)
    requires
        uniq_ids(s),
        !has_id(s, id),
    ensures
        ({
            let s2 = s.push((id, st));
            &&& uniq_ids(s2)
            &&& has_id(s2, id)
            &&& state_of(s2, id) == st
            &&& forall|o: u32| o != id ==> has_id(s2, o) == has_id(s, o)
            &&& forall|o: u32| o != id && has_id(s, o) ==> state_of(s2, o) == state_of(s, o)
        }),
{
    let s2 = s.push((id, st));
    assert(forall|k: int| 0 <= k < s.len() ==> s2[k] == s[k]);
    assert(s2[s.len() as int].0 == id);
    assert forall|o: u32| o != id implies has_id(s2, o) == has_id(s, o) by {
        if has_id(s, o) {
            let k = id_index(s, o);
            assert(s2[k].0 == o);
        }
        if has_id(s2, o) {
            let k = id_index(s2, o);
            assert(0 <= k < s2.len() && s2[k].0 == o);
            assert(k < s.len());
            assert(s[k].0 == o);
        }
    }
    lemma_id_index(s2, id, s.len() as int);
    assert forall|o: u32| o != id && has_id(s, o) implies state_of(s2, o) == state_of(s, o) by {
        let k = id_index(s, o);
        lemma_id_index(s, o, k);
        lemma_id_index(s2, o, k);
    }
}

/// Removing the record at one index removes exactly its id and keeps every
/// other output's state.
proof fn lemma_state_remove(s: Seq<(u32, OutputState)>, i: int)
    requires
        uniq_ids(s),
        0 <= i < s.len(),
    ensures
        ({
            let s2 = s.remove(i);
            &&& uniq_ids(s2)
            &&& !has_id(s2, s[i].0)
            &&& forall|o: u32| o != s[i].0 ==> has_id(s2, o) == has_id(s, o)
            &&& forall|o: u32| o != s[i].0 && has_id(s, o) ==> state_of(s2, o) == state_of(s, o)
        }),
{
    let s2 = s.remove(i);
    assert(forall|k: int| 0 <= k < i ==> s2[k] == s[k]);
    assert(forall|k: int| i <= k < s2.len() ==> s2[k] == s[k + 1]);
    assert forall|k: int, j: int| 0 <= k < j < s2.len() implies s2[k].0 != s2[j].0 by {
        let k1 = if k < i { k } else { k + 1 };
        let j1 = if j < i { j } else { j + 1 };
        assert(s[k1].0 != s[j1].0);
    }
    if has_id(s2, s[i].0) {
        let k = id_index(s2, s[i].0);
        let k1 = if k < i { k } else { k + 1 };
        assert(s[k1].0 == s[i].0);
        assert(k1 != i);
        lemma_id_index(s, s[i].0, i);
        lemma_id_index(s, s[i].0, k1);
    }
    assert forall|o: u32| o != s[i].0 implies has_id(s2, o) == has_id(s, o) by {
        if has_id(s, o) {
            let k = id_index(s, o);
            assert(0 <= k < s.len() && s[k].0 == o);
            if k < i {
                assert(s2[k].0 == o);
            } else {
                assert(k > i);
                assert(s2[k - 1].0 == o);
            }
        }
        if has_id(s2, o) {
            let k = id_index(s2, o);
            let k1 = if k < i { k } else { k + 1 };
            assert(s[k1].0 == o);
        }
    }
    assert forall|o: u32| o != s[i].0 && has_id(s, o) implies state_of(s2, o) == state_of(
        s,
        o,
    ) by {
        let k = id_index(s, o);
        lemma_id_index(s, o, k);
        if k < i {
            lemma_id_index(s2, o, k);
        } else {
            assert(k > i);
            assert(s2[k - 1] == s[k]);
            lemma_id_index(s2, o, k - 1);
        }
    }
}

/// The index of the entry with this id, by linear search.
fn find_index(outputs: &Vec<(u32, OutputState)>, id: u32) -> (r: Option<usize>)
    ensures
        match r {
            Some(i) => i < outputs@.len() && outputs@[i as int].0 == id,
            None => !has_id(outputs@, id),
        },
{
    let mut i: usize = 0;
    while i < outputs.len()
        invariant
            0 <= i <= outputs@.len(),
            forall|j: int| 0 <= j < i ==> outputs@[j].0 != id,
        decreases outputs@.len() - i,
    {
        if outputs[i].0 == id {
            return Some(i);
        }
        i = i + 1;
    }
    None
}

/// Replace the state at index `i`, keeping the id there.
fn set_state_at(outputs: &mut Vec<(u32, OutputState)>, i: usize, st: OutputState)
    requires
        i < old(outputs)@.len(),
    ensures
        final(outputs)@ == old(outputs)@.update(i as int, (old(outputs)@[i as int].0, st)),
{
    let entry = outputs.remove(i);
    outputs.insert(i, (entry.0, st));
    proof {
        assert(outputs@ =~= old(outputs)@.update(i as int, (old(outputs)@[i as int].0, st)));
    }
}

impl AppState {
    /// Record a newly announced output under its protocol id, replacing any
    /// stale record with the same id. Returns whether the caller must request
    /// a gamma-control object for it, which is exactly when the manager
    /// capability is already bound; the record then counts that binding.
    pub fn register_output(&mut self, id: u32) -> (bind_gamma: bool)
        requires
            old(self).wf(),
        ensures
            final(self).wf(),
            final(self).gamma_mgr == old(self).gamma_mgr,
            final(self).gamma_mgr_name == old(self).gamma_mgr_name,
            final(self).has_output(id),
            final(self).output(id) == (OutputState {
                name: None,
                gamma: old(self).gamma_mgr,
                ramp_size: 0u32,
                table: None,
            }),
            forall|o: u32| o != id ==> final(self).has_output(o) == old(self).has_output(o),
            forall|o: u32|
                o != id && old(self).has_output(o) ==> final(self).output(o) == old(self).output(
                    o,
                ),
            bind_gamma == old(self).gamma_mgr,
    {
        let fresh = OutputState { name: None, gamma: self.gamma_mgr, ramp_size: 0, table: None };
        match find_index(&self.outputs, id) {
            Some(i) => {
                proof {
                    lemma_state_update(self.outputs@, i as int, fresh);
                }
                set_state_at(&mut self.outputs, i, fresh);
            },
            None => {
                proof {
                    lemma_state_push(self.outputs@, id, fresh);
                }
                self.outputs.push((id, fresh));
            },
        }
        self.gamma_mgr
    }

    /// Request a gamma-control binding for one output if the manager is
    /// bound, the output is known, and no binding exists yet; the caller
    /// must issue the protocol request exactly when this returns true.
    pub fn ensure_gamma_for(&mut self, id: u32) -> (bind: bool)
        requires
            old(self).wf(),
        ensures
            final(self).wf(),
            final(self).gamma_mgr == old(self).gamma_mgr,
            final(self).gamma_mgr_name == old(self).gamma_mgr_name,
            forall|o: u32| final(self).has_output(o) == old(self).has_output(o),
            bind == (old(self).gamma_mgr && old(self).has_output(id) && !old(self).output(
                id,
            ).gamma),
            old(self).has_output(id) ==> final(self).output(id) == (OutputState {
                gamma: old(self).output(id).gamma || old(self).gamma_mgr,
                ..old(self).output(id)
            }),
            forall|o: u32|
                o != id && old(self).has_output(o) ==> final(self).output(o) == old(self).output(
                    o,
                ),
    {
        if !self.gamma_mgr {
            return false;
        }
        match find_index(&self.outputs, id) {
            None => false,
            Some(i) => {
                proof {
                    lemma_id_index(self.outputs@, id, i as int);
                }
                if self.outputs[i].1.gamma {
                    return false;
                }
                let entry = self.outputs.remove(i);
                let st = OutputState { gamma: true, ..entry.1 };
                proof {
                    assert(self.outputs@ == old(self).outputs@.remove(i as int));
                }
                self.outputs.insert(i, (entry.0, st));
                proof {
                    assert(self.outputs@ =~= old(self).outputs@.update(
                        i as int,
                        (old(self).outputs@[i as int].0, st),
                    ));
                    lemma_state_update(old(self).outputs@, i as int, st);
                }
                true
            },
        }
    }

    /// Drop the record of an output, releasing its buffer with it.
    pub fn remove_output(&mut self, id: u32)
        requires
            old(self).wf(),
        ensures
            final(self).wf(),
            final(self).gamma_mgr == old(self).gamma_mgr,
            final(self).gamma_mgr_name == old(self).gamma_mgr_name,
            !final(self).has_output(id),
            forall|o: u32| o != id ==> final(self).has_output(o) == old(self).has_output(o),
            forall|o: u32|
                o != id && old(self).has_output(o) ==> final(self).output(o) == old(self).output(
                    o,
                ),
    {
        match find_index(&self.outputs, id) {
            Some(i) => {
                proof {
                    lemma_id_index(self.outputs@, id, i as int);
                    lemma_state_remove(self.outputs@, i as int);
                }
                self.outputs.remove(i);
            },
            None => {},
        }
    }

    /// Record the name or description the compositor reported for an output.
    pub fn set_output_name(&mut self, id: u32, name: String)
        requires
            old(self).wf(),
        ensures
            final(self).wf(),
            final(self).gamma_mgr == old(self).gamma_mgr,
            final(self).gamma_mgr_name == old(self).gamma_mgr_name,
            forall|o: u32| final(self).has_output(o) == old(self).has_output(o),
            old(self).has_output(id) ==> final(self).output(id) == (OutputState {
                name: Some(name),
                ..old(self).output(id)
            }),
            forall|o: u32|
                o != id && old(self).has_output(o) ==> final(self).output(o) == old(self).output(
                    o,
                ),
    {
        match find_index(&self.outputs, id) {
            None => {},
            Some(i) => {
                proof {
                    lemma_id_index(self.outputs@, id, i as int);
                }
                let entry = self.outputs.remove(i);
                let st = OutputState { name: Some(name), ..entry.1 };
                self.outputs.insert(i, (entry.0, st));
                proof {
                    assert(self.outputs@ =~= old(self).outputs@.update(
                        i as int,
                        (old(self).outputs@[i as int].0, st),
                    ));
                    lemma_state_update(old(self).outputs@, i as int, st);
                }
            },
        }
    }

    /// Record the compositor-assigned ramp size for an output and allocate
    /// its three-plane buffer, zero-filled.
    pub fn handle_gamma_size(&mut self, id: u32, size: u32)
        requires
            old(self).wf(),
            3 * size <= usize::MAX,
        ensures
            final(self).wf(),
            final(self).gamma_mgr == old(self).gamma_mgr,
            final(self).gamma_mgr_name == old(self).gamma_mgr_name,
            forall|o: u32| final(self).has_output(o) == old(self).has_output(o),
            old(self).has_output(id) ==> ({
                let st = final(self).output(id);
                &&& st.name == old(self).output(id).name
                &&& st.gamma == old(self).output(id).gamma
                &&& st.ramp_size == size
                &&& st.table matches Some(t) && t@ == Seq::new((3 * size) as nat, |j: int| 0u16)
            }),
            forall|o: u32|
                o != id && old(self).has_output(o) ==> final(self).output(o) == old(self).output(
                    o,
                ),
    {
        match find_index(&self.outputs, id) {
            None => {},
            Some(i) => {
                proof {
                    lemma_id_index(self.outputs@, id, i as int);
                }
                let len: usize = 3 * (size as usize);
                let buf: Vec<u16> = vec![0u16; len];
                proof {
                    assert(buf@ =~= Seq::new((3 * size) as nat, |j: int| 0u16));
                }
                let entry = self.outputs.remove(i);
                let st = OutputState {
                    name: entry.1.name,
                    gamma: entry.1.gamma,
                    ramp_size: size,
                    table: Some(buf),
                };
                self.outputs.insert(i, (entry.0, st));
                proof {
                    assert(self.outputs@ =~= old(self).outputs@.update(
                        i as int,
                        (old(self).outputs@[i as int].0, st),
                    ));
                    lemma_state_update(old(self).outputs@, i as int, st);
                }
            },
        }
    }

    /// Mark an output's buffer as unavailable after an allocation or mapping
    /// failure outside the session; the output degrades to inert.
    pub fn mark_table_failed(&mut self, id: u32)
        requires
            old(self).wf(),
        ensures
            final(self).wf(),
            final(self).gamma_mgr == old(self).gamma_mgr,
            final(self).gamma_mgr_name == old(self).gamma_mgr_name,
            forall|o: u32| final(self).has_output(o) == old(self).has_output(o),
            old(self).has_output(id) ==> final(self).output(id) == (OutputState {
                table: None,
                ..old(self).output(id)
            }),
            forall|o: u32|
                o != id && old(self).has_output(o) ==> final(self).output(o) == old(self).output(
                    o,
                ),
    {
        match find_index(&self.outputs, id) {
            None => {},
            Some(i) => {
                proof {
                    lemma_id_index(self.outputs@, id, i as int);
                }
                let entry = self.outputs.remove(i);
                let st = OutputState { table: None, ..entry.1 };
                self.outputs.insert(i, (entry.0, st));
                proof {
                    assert(self.outputs@ =~= old(self).outputs@.update(
                        i as int,
                        (old(self).outputs@[i as int].0, st),
                    ));
                    lemma_state_update(old(self).outputs@, i as int, st);
                }
            },
        }
    }

    /// Clear an output's binding and buffer after the compositor reported a
    /// gamma-control failure; later applies silently skip it.
    pub fn handle_gamma_failed(&mut self, id: u32)
        requires
            old(self).wf(),
        ensures
            final(self).wf(),
            final(self).gamma_mgr == old(self).gamma_mgr,
            final(self).gamma_mgr_name == old(self).gamma_mgr_name,
            forall|o: u32| final(self).has_output(o) == old(self).has_output(o),
            old(self).has_output(id) ==> final(self).output(id) == (OutputState {
                name: old(self).output(id).name,
                gamma: false,
                ramp_size: 0u32,
                table: None,
            }),
            forall|o: u32|
                o != id && old(self).has_output(o) ==> final(self).output(o) == old(self).output(
                    o,
                ),
    {
        match find_index(&self.outputs, id) {
            None => {},
            Some(i) => {
                proof {
                    lemma_id_index(self.outputs@, id, i as int);
                }
                let entry = self.outputs.remove(i);
                let st = OutputState { name: entry.1.name, gamma: false, ramp_size: 0, table: None };
                self.outputs.insert(i, (entry.0, st));
                proof {
                    assert(self.outputs@ =~= old(self).outputs@.update(
                        i as int,
                        (old(self).outputs@[i as int].0, st),
                    ));
                    lemma_state_update(old(self).outputs@, i as int, st);
                }
            },
        }
    }
}

impl AppState {
    /// Request gamma-control bindings for every output that lacks one.
    /// Returns the ids the caller must issue requests for: exactly the
    /// outputs that had no binding, when the manager is bound.
    pub fn ensure_gamma_all(&mut self) -> (newly: Vec<u32>)
        requires
            old(self).wf(),
        ensures
            final(self).wf(),
            final(self).gamma_mgr == old(self).gamma_mgr,
            final(self).gamma_mgr_name == old(self).gamma_mgr_name,
            final(self).outputs@.len() == old(self).outputs@.len(),
            forall|k: int|
                0 <= k < old(self).outputs@.len() ==> final(self).outputs@[k].0 == old(
                    self,
                ).outputs@[k].0,
            forall|k: int|
                0 <= k < old(self).outputs@.len() ==> final(self).outputs@[k].1 == (OutputState {
                    gamma: old(self).outputs@[k].1.gamma || old(self).gamma_mgr,
                    ..old(self).outputs@[k].1
                }),
            forall|o: u32|
                newly@.contains(o) <==> (old(self).gamma_mgr && exists|k: int|
                    0 <= k < old(self).outputs@.len() && old(self).outputs@[k].0 == o && !old(
                        self,
                    ).outputs@[k].1.gamma),
    {
        let mut newly: Vec<u32> = Vec::new();
        if !self.gamma_mgr {
            return newly;
        }
        let ghost orig = self.outputs@;
        let mut i: usize = 0;
        while i < self.outputs.len()
            invariant
                self.gamma_mgr == old(self).gamma_mgr,
                self.gamma_mgr_name == old(self).gamma_mgr_name,
                self.gamma_mgr,
                orig == old(self).outputs@,
                0 <= i <= self.outputs@.len() == orig.len(),
                forall|k: int| 0 <= k < orig.len() ==> self.outputs@[k].0 == orig[k].0,
                forall|k: int|
                    0 <= k < i ==> self.outputs@[k].1 == (OutputState {
                        gamma: true,
                        ..orig[k].1
                    }),
                forall|k: int| i <= k < orig.len() ==> self.outputs@[k].1 == orig[k].1,
                forall|o: u32|
                    newly@.contains(o) <==> exists|k: int|
                        0 <= k < i && orig[k].0 == o && !orig[k].1.gamma,
            decreases self.outputs@.len() - i,
        {
            let id = self.outputs[i].0;
            if !self.outputs[i].1.gamma {
                let ghost pre = self.outputs@;
                let entry = self.outputs.remove(i);
                let st = OutputState { gamma: true, ..entry.1 };
                self.outputs.insert(i, (entry.0, st));
                let ghost prev = newly@;
                newly.push(id);
                proof {
                    assert(self.outputs@ =~= pre.update(i as int, (pre[i as int].0, st)));
                    assert forall|o: u32|
                        newly@.contains(o) <==> exists|k: int|
                            0 <= k < i + 1 && orig[k].0 == o && !orig[k].1.gamma by {
                        assert(newly@[prev.len() as int] == id);
                        if newly@.contains(o) {
                            let j = choose|j: int| 0 <= j < newly@.len() && newly@[j] == o;
                            if j < prev.len() {
                                assert(prev[j] == o);
                                assert(prev.contains(o));
                            } else {
                                assert(o == id);
                                assert(orig[i as int].0 == o && !orig[i as int].1.gamma);
                            }
                        }
                        if exists|k: int| 0 <= k < i + 1 && orig[k].0 == o && !orig[k].1.gamma {
                            let k = choose|k: int|
                                0 <= k < i + 1 && orig[k].0 == o && !orig[k].1.gamma;
                            if k < i {
                                assert(prev.contains(o));
                                let j = choose|j: int| 0 <= j < prev.len() && prev[j] == o;
                                assert(newly@[j] == o);
                            } else {
                                assert(o == id);
                            }
                            assert(newly@.contains(o));
                        }
                    }
                }
            } else {
                proof {
                    assert forall|o: u32|
                        newly@.contains(o) <==> exists|k: int|
                            0 <= k < i + 1 && orig[k].0 == o && !orig[k].1.gamma by {
                        if exists|k: int| 0 <= k < i + 1 && orig[k].0 == o && !orig[k].1.gamma {
                            let k = choose|k: int|
                                0 <= k < i + 1 && orig[k].0 == o && !orig[k].1.gamma;
                            assert(k < i);
                        }
                    }
                }
            }
            i = i + 1;
        }
        newly
    }

    /// Bind the gamma-control-manager capability announced under `name` and
    /// request gamma-control objects for every known output. Returns the ids
    /// the caller must issue requests for.
    pub fn register_gamma_manager(&mut self, name: u32) -> (newly: Vec<u32>)
        requires
            old(self).wf(),
        ensures
            final(self).wf(),
            final(self).gamma_mgr,
            final(self).gamma_mgr_name == Some(name),
            final(self).outputs@.len() == old(self).outputs@.len(),
            forall|k: int|
                0 <= k < old(self).outputs@.len() ==> final(self).outputs@[k].0 == old(
                    self,
                ).outputs@[k].0,
            forall|k: int|
                0 <= k < old(self).outputs@.len() ==> final(self).outputs@[k].1 == (OutputState {
                    gamma: true,
                    ..old(self).outputs@[k].1
                }),
            forall|o: u32|
                newly@.contains(o) <==> exists|k: int|
                    0 <= k < old(self).outputs@.len() && old(self).outputs@[k].0 == o && !old(
                        self,
                    ).outputs@[k].1.gamma,
    {
        self.gamma_mgr = true;
        self.gamma_mgr_name = Some(name);
        self.ensure_gamma_all()
    }

    /// Handle the removal of a global: clear the manager if it was announced
    /// under this name, and drop any output registered under it.
    pub fn handle_global_remove(&mut self, name: u32)
        requires
            old(self).wf(),
        ensures
            final(self).wf(),
            final(self).gamma_mgr == (if old(self).gamma_mgr_name == Some(name) {
                false
            } else {
                old(self).gamma_mgr
            }),
            final(self).gamma_mgr_name == (if old(self).gamma_mgr_name == Some(name) {
                None::<u32>
            } else {
                old(self).gamma_mgr_name
            }),
            !final(self).has_output(name),
            forall|o: u32| o != name ==> final(self).has_output(o) == old(self).has_output(o),
            forall|o: u32|
                o != name && old(self).has_output(o) ==> final(self).output(o) == old(self).output(
                    o,
                ),
    {
        let clear = match self.gamma_mgr_name {
            Some(n) => n == name,
            None => false,
        };
        if clear {
            self.gamma_mgr = false;
            self.gamma_mgr_name = None;
        }
        self.remove_output(name);
    }
}

/// The ids of the usable outputs, in table order.
pub open spec fn usable_ids(s: Seq<(u32, OutputState)>) -> Seq<u32>
    decreases s.len(),
{
    if s.len() == 0 {
        Seq::empty()
    } else {
        let rest = usable_ids(s.drop_last());
        if s.last().1.usable() {
            rest.push(s.last().0)
        } else {
            rest
        }
    }
}

/// With no usable output, no ids are collected.
pub proof fn lemma_usable_ids_none(s: Seq<(u32, OutputState)>)
    requires
        forall|k: int| 0 <= k < s.len() ==> !(#[trigger] s[k].1).usable(),
    ensures
        usable_ids(s) == Seq::<u32>::empty(),
    decreases s.len(),
{
    if s.len() > 0 {
        assert(forall|k: int|
            0 <= k < s.drop_last().len() ==> !(#[trigger] s.drop_last()[k].1).usable());
        lemma_usable_ids_none(s.drop_last());
    }
}

/// Rewrite the ramp buffer of every usable output with the gamma table for
/// the whitepoint of `kelvin`, leaving every other output untouched, and
/// return the ids whose buffers were rewritten (the caller hands those
/// buffers to the compositor). With no usable output this is a no-op.
pub fn set_temperature_all(outputs: &mut Vec<(u32, OutputState)>, kelvin: i32) -> (applied: Vec<
    u32,
>)
    requires
        uniq_ids(old(outputs)@),
        tables_wf(old(outputs)@),
    ensures
        uniq_ids(final(outputs)@),
        tables_wf(final(outputs)@),
        final(outputs)@.len() == old(outputs)@.len(),
        forall|k: int|
            0 <= k < old(outputs)@.len() ==> final(outputs)@[k].0 == old(outputs)@[k].0,
        forall|k: int|
            0 <= k < old(outputs)@.len() ==> {
                let o = (#[trigger] old(outputs)@[k]).1;
                let f = final(outputs)@[k].1;
                if o.usable() {
                    f.name == o.name && f.gamma == o.gamma && f.ramp_size == o.ramp_size
                        && (f.table matches Some(t) && t@ == gamma_table(
                        whitepoint_of(kelvin as int),
                        o.ramp_size as int,
                    ))
                } else {
                    f == o
                }
            },
        applied@ == usable_ids(old(outputs)@),
        (forall|k: int| 0 <= k < old(outputs)@.len() ==> !(#[trigger] old(
            outputs,
        )@[k].1).usable()) ==> final(outputs)@ == old(outputs)@ && applied@.len() == 0,
{
    let wp = blackbody_whitepoint_kelvin(kelvin);
    let mut applied: Vec<u32> = Vec::new();
    let ghost orig = outputs@;
    let mut i: usize = 0;
    while i < outputs.len()
        invariant
            orig == old(outputs)@,
            uniq_ids(orig),
            tables_wf(orig),
            wp == whitepoint_of(kelvin as int),
            0 <= i <= outputs@.len() == orig.len(),
            forall|k: int| 0 <= k < orig.len() ==> outputs@[k].0 == orig[k].0,
            forall|k: int|
                0 <= k < i ==> {
                    let o = (#[trigger] orig[k]).1;
                    let f = outputs@[k].1;
                    if o.usable() {
                        f.name == o.name && f.gamma == o.gamma && f.ramp_size == o.ramp_size && (
                        f.table matches Some(t) && t@ == gamma_table(
                            whitepoint_of(kelvin as int),
                            o.ramp_size as int,
                        ))
                    } else {
                        f == o
                    }
                },
            forall|k: int| i <= k < orig.len() ==> outputs@[k] == orig[k],
            applied@ == usable_ids(orig.subrange(0, i as int)),
        decreases orig.len() - i,
    {
        let usable = outputs[i].1.gamma && outputs[i].1.ramp_size > 0 && outputs[i].1.table.is_some();
        if usable {
            proof {
                assert(orig[i as int].1.table_wf());
            }
            let ghost pre = outputs@;
            let mut entry = outputs.remove(i);
            let id = entry.0;
            let ramp = entry.1.ramp_size as usize;
            let mut buf = match entry.1.table {
                Some(b) => b,
                None => unreached(),
            };
            fill_gamma_table(&mut buf, ramp, wp);
            entry.1.table = Some(buf);
            outputs.insert(i, entry);
            applied.push(id);
            proof {
                assert(outputs@ =~= pre.update(i as int, outputs@[i as int]));
            }
        }
        i = i + 1;
        proof {
            let sub = orig.subrange(0, i as int);
            assert(sub.drop_last() =~= orig.subrange(0, i - 1));
            assert(sub.last() == orig[i - 1]);
            if orig[i - 1].1.usable() {
                assert(applied@ == usable_ids(sub));
            } else {
                assert(applied@ == usable_ids(sub));
            }
        }
    }
    proof {
        assert(orig.subrange(0, orig.len() as int) =~= orig);
        assert forall|k: int, j: int|
            0 <= k < j < outputs@.len() implies outputs@[k].0 != outputs@[j].0 by {
            assert(orig[k].0 != orig[j].0);
        }
        assert forall|k: int|
            0 <= k < outputs@.len() implies (#[trigger] outputs@[k].1).table_wf() by {
            assert((orig[k]).1.table_wf());
            if orig[k].1.usable() {
                assert(outputs@[k].1.table matches Some(t) && t@ == gamma_table(
                    whitepoint_of(kelvin as int),
                    orig[k].1.ramp_size as int,
                ));
            }
        }
        if forall|k: int| 0 <= k < orig.len() ==> !(#[trigger] orig[k].1).usable() {
            assert(outputs@ =~= orig);
            lemma_usable_ids_none(orig);
        }
    }
    applied
}

} // verus!
