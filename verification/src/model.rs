//! The registry as a mathematical value, and what each operation makes of it.
//!
//! The contracts of the executable registry are stated over [`StoreModel`]; the
//! laws that relate several operations are proved over it.

use vstd::prelude::*;
use crate::device::Device;
use crate::name::disambiguated;
use crate::tensor::{CopyError, TensorId, TensorView};

verus! {

/// One registered variable: its fully-qualified name, the buffer that holds
/// its values, and whether it takes part in training.
pub struct Entry {
    pub name: Seq<char>,
    pub id: TensorId,
    pub trainable: bool,
}

/// Why a registry could not be restored from a bundle of named tensors.
pub enum LoadFailure {
    /// The bundle holds no tensor of this name.
    NotFound { name: Seq<char> },
    /// The tensor of this name could not be copied into the variable.
    Copy { name: Seq<char>, error: CopyError },
}

/// A bundle of named tensors as the mapping that it stands for: where a name
/// occurs more than once, the last occurrence counts.
pub open spec fn bundle_map(bundle: Seq<(Seq<char>, TensorView)>) -> Map<Seq<char>, TensorView>
    decreases bundle.len(),
{
    if bundle.len() == 0 {
        Map::empty()
    } else {
        bundle_map(bundle.drop_last()).insert(bundle.last().0, bundle.last().1)
    }
}

/// Picks the handle of a variable if the variable is trainable.
pub open spec fn trainable_id() -> spec_fn(Entry) -> Option<TensorId> {
    |e: Entry|
        if e.trainable {
            Some(e.id)
        } else {
            None
        }
}

/// The state of a registry: the device, the buffers in the order in which they
/// were registered, and the variables in the order in which they are walked.
pub struct StoreModel {
    pub device: Device,
    pub tensors: Seq<TensorView>,
    pub entries: Seq<Entry>,
}

impl StoreModel {
    /// The registry without variables.
    pub open spec fn empty(device: Device) -> StoreModel {
        StoreModel { device, tensors: Seq::empty(), entries: Seq::empty() }
    }

    /// Every buffer is well formed and lives on the registry's device; every
    /// variable has a buffer; no two variables share a name or a buffer.
    pub open spec fn wf(self) -> bool {
        &&& self.tensors.len() <= usize::MAX
        &&& forall|k: int|
            0 <= k < self.tensors.len() ==> (#[trigger] self.tensors[k]).wf() && self.tensors[k].device
                == self.device
        &&& forall|i: int|
            0 <= i < self.entries.len() ==> (#[trigger] self.entries[i]).id.slot
                < self.tensors.len()
        &&& forall|i: int, j: int|
            0 <= i < j < self.entries.len() ==> (#[trigger] self.entries[i]).name
                != (#[trigger] self.entries[j]).name
        &&& forall|i: int, j: int|
            0 <= i < j < self.entries.len() ==> (#[trigger] self.entries[i]).id
                != (#[trigger] self.entries[j]).id
    }

    /// A variable is registered under `name`.
    pub open spec fn has_name(self, name: Seq<char>) -> bool {
        exists|i: int| 0 <= i < self.entries.len() && (#[trigger] self.entries[i]).name == name
    }

    /// The position of the variable registered under `name`.
    pub open spec fn index_of(self, name: Seq<char>) -> int {
        choose|i: int| 0 <= i < self.entries.len() && (#[trigger] self.entries[i]).name == name
    }

    /// The buffer of the `i`-th variable.
    pub open spec fn tensor_at(self, i: int) -> TensorView {
        self.tensors[self.entries[i].id.slot as int]
    }

    /// The buffer of the variable registered under `name`.
    pub open spec fn tensor_of(self, name: Seq<char>) -> TensorView {
        self.tensor_at(self.index_of(name))
    }

    /// The name under which a new variable of fully-qualified name `path` is
    /// registered: `path` itself, unless it is taken; then `path` with the
    /// number of registered variables as its suffix.
    pub open spec fn stored_name(self, path: Seq<char>) -> Seq<char> {
        if self.has_name(path) {
            disambiguated(path, self.entries.len())
        } else {
            path
        }
    }

    /// The handle that the next registered buffer gets.
    pub open spec fn next_id(self) -> TensorId {
        TensorId { slot: self.tensors.len() as usize }
    }

    /// The registry after a tensor was registered for the fully-qualified name
    /// `path`. The tensor gets a new buffer, with gradient tracking switched on
    /// if the variable is trainable. The variable is entered under
    /// [`Self::stored_name`]; should even that name be taken, it replaces the
    /// variable that had it.
    pub open spec fn add(self, path: Seq<char>, tensor: TensorView, trainable: bool) -> StoreModel {
        let name = self.stored_name(path);
        let entry = Entry { name, id: self.next_id(), trainable };
        StoreModel {
            device: self.device,
            tensors: self.tensors.push(
                if trainable {
                    tensor.with_grad(true)
                } else {
                    tensor
                },
            ),
            entries: if self.has_name(name) {
                self.entries.update(self.index_of(name), entry)
            } else {
                self.entries.push(entry)
            },
        }
    }

    /// The handles of the trainable variables, in the order of the variables.
    pub open spec fn trainable_ids(self) -> Seq<TensorId> {
        self.entries.filter_map(trainable_id())
    }

    /// The buffer at `slot` belongs to a trainable variable.
    pub open spec fn is_trainable_slot(self, slot: int) -> bool {
        exists|i: int|
            0 <= i < self.entries.len() && (#[trigger] self.entries[i]).trainable
                && self.entries[i].id.slot == slot
    }

    /// The registry with gradient tracking switched to `flag` on the buffer of
    /// every trainable variable. Nothing else changes: not the variables, not
    /// their trainable flags, not a value.
    pub open spec fn with_tracking(self, flag: bool) -> StoreModel {
        StoreModel {
            tensors: Seq::new(
                self.tensors.len(),
                |k: int|
                    if self.is_trainable_slot(k) {
                        self.tensors[k].with_grad(flag)
                    } else {
                        self.tensors[k]
                    },
            ),
            ..self
        }
    }

    /// The registry with gradient tracking off for the trainable variables.
    pub open spec fn frozen(self) -> StoreModel {
        self.with_tracking(false)
    }

    /// The registry with gradient tracking on for the trainable variables.
    pub open spec fn unfrozen(self) -> StoreModel {
        self.with_tracking(true)
    }

    /// The registry after the buffer behind `id` took the values of `src`.
    pub open spec fn with_values(self, id: TensorId, src: TensorView) -> StoreModel {
        StoreModel {
            tensors: self.tensors.update(
                id.slot as int,
                self.tensors[id.slot as int].with_data_of(src),
            ),
            ..self
        }
    }

    /// The named tensors that a registry is saved as: one pair per variable,
    /// in the order of the variables.
    pub open spec fn snapshot(self) -> Seq<(Seq<char>, TensorView)> {
        Seq::new(self.entries.len(), |i: int| (self.entries[i].name, self.tensor_at(i)))
    }

    /// Why the `i`-th variable cannot be restored from `source`, if it cannot:
    /// its name is missing there, or the tensor of that name cannot be copied
    /// into the variable's buffer.
    pub open spec fn load_failure(self, source: Map<Seq<char>, TensorView>, i: int) -> Option<
        LoadFailure,
    > {
        let name = self.entries[i].name;
        if !source.contains_key(name) {
            Some(LoadFailure::NotFound { name })
        } else {
            match self.tensor_at(i).copy_error(source[name]) {
                Some(error) => Some(LoadFailure::Copy { name, error }),
                None => None,
            }
        }
    }

    /// The position of the first variable from `from` on that cannot be
    /// restored from `source`; the number of variables if there is none.
    pub open spec fn first_failure(self, source: Map<Seq<char>, TensorView>, from: int) -> int
        decreases self.entries.len() - from,
    {
        if from >= self.entries.len() {
            self.entries.len() as int
        } else if self.load_failure(source, from) is Some {
            from
        } else {
            self.first_failure(source, from + 1)
        }
    }

    /// The number of variables that a load from `source` restores: those
    /// before the first that cannot be restored.
    pub open spec fn restored_count(self, source: Map<Seq<char>, TensorView>) -> int {
        self.first_failure(source, 0)
    }

    /// The buffer at `slot` belongs to one of the first `count` variables.
    pub open spec fn slot_among(self, slot: int, count: int) -> bool {
        exists|i: int| 0 <= i < count && (#[trigger] self.entries[i]).id.slot == slot
    }

    /// The position of the variable that owns the buffer at `slot`.
    pub open spec fn owner_of(self, slot: int) -> int {
        choose|i: int| 0 <= i < self.entries.len() && (#[trigger] self.entries[i]).id.slot == slot
    }

    /// The registry after the first `count` variables took the values of the
    /// tensors that `source` holds under their names. Only values change.
    pub open spec fn restored(self, source: Map<Seq<char>, TensorView>, count: int) -> StoreModel {
        StoreModel {
            tensors: Seq::new(
                self.tensors.len(),
                |k: int|
                    if self.slot_among(k, count) {
                        self.tensors[k].with_data_of(source[self.entries[self.owner_of(k)].name])
                    } else {
                        self.tensors[k]
                    },
            ),
            ..self
        }
    }

    /// The registry after a load from `source`: the variables are restored in
    /// their order up to the first that cannot be; that one and those after it
    /// keep their values.
    pub open spec fn loaded(self, source: Map<Seq<char>, TensorView>) -> StoreModel {
        self.restored(source, self.restored_count(source))
    }

    /// What a load from `source` reports: success when every variable could
    /// be restored, else the failure of the first that could not.
    pub open spec fn load_result(self, source: Map<Seq<char>, TensorView>) -> Result<
        (),
        LoadFailure,
    > {
        let stop = self.restored_count(source);
        if stop >= self.entries.len() {
            Ok(())
        } else {
            Err(self.load_failure(source, stop)->0)
        }
    }
}

/// The variable registered under a name is found at one position only.
pub proof fn lemma_index_of(s: StoreModel, i: int)
    requires
        s.wf(),
        0 <= i < s.entries.len(),
    ensures
        s.has_name(s.entries[i].name),
        s.index_of(s.entries[i].name) == i,
{
    let name = s.entries[i].name;
    let c = s.index_of(name);
    assert(s.entries[c].name == name);
    if c < i {
        assert(s.entries[c].name != s.entries[i].name);
    } else if i < c {
        assert(s.entries[i].name != s.entries[c].name);
    }
}

/// Registering a well-formed tensor of the registry's device leaves the
/// registry well formed.
pub proof fn lemma_add_wf(s: StoreModel, path: Seq<char>, tensor: TensorView, trainable: bool)
    requires
        s.wf(),
        s.tensors.len() < usize::MAX,
        tensor.wf(),
        tensor.device == s.device,
    ensures
        s.add(path, tensor, trainable).wf(),
{
    let after = s.add(path, tensor, trainable);
    let name = s.stored_name(path);
    assert forall|i: int, j: int| 0 <= i < j < after.entries.len() implies (
    #[trigger] after.entries[i]).name != (#[trigger] after.entries[j]).name && after.entries[i].id
        != after.entries[j].id by {
        if s.has_name(name) {
            let k = s.index_of(name);
            assert(s.entries[k].name == name);
            assert(s.entries[i].name != s.entries[j].name);
            assert(s.entries[i].id != s.entries[j].id);
            assert(s.entries[i].id.slot < s.tensors.len());
            assert(s.entries[j].id.slot < s.tensors.len());
        } else {
            if j < s.entries.len() {
                assert(s.entries[i].name != s.entries[j].name);
                assert(s.entries[i].id != s.entries[j].id);
            } else {
                assert(s.entries[i].name != name);
                assert(s.entries[i].id.slot < s.tensors.len());
            }
        }
    }
    assert forall|i: int| 0 <= i < after.entries.len() implies (#[trigger] after.entries[i]).id.slot
        < after.tensors.len() by {
        if i < s.entries.len() {
            assert(s.entries[i].id.slot < s.tensors.len());
        }
    }
    assert forall|k: int| 0 <= k < after.tensors.len() implies (#[trigger] after.tensors[k]).wf()
        && after.tensors[k].device == after.device by {
        if k < s.tensors.len() {
            assert(s.tensors[k].wf());
        }
    }
}

/// A name that occurs in a bundle stands for the tensor of its last
/// occurrence.
pub proof fn lemma_bundle_map_last(bundle: Seq<(Seq<char>, TensorView)>, name: Seq<char>, k: int)
    requires
        0 <= k < bundle.len(),
        bundle[k].0 == name,
        forall|j: int| k < j < bundle.len() ==> (#[trigger] bundle[j]).0 != name,
    ensures
        bundle_map(bundle).contains_key(name),
        bundle_map(bundle)[name] == bundle[k].1,
    decreases bundle.len(),
{
    if k < bundle.len() - 1 {
        assert(bundle.last().0 != name);
        lemma_bundle_map_last(bundle.drop_last(), name, k);
    }
}

/// A name that does not occur in a bundle stands for nothing.
pub proof fn lemma_bundle_map_absent(bundle: Seq<(Seq<char>, TensorView)>, name: Seq<char>)
    requires
        forall|j: int| 0 <= j < bundle.len() ==> (#[trigger] bundle[j]).0 != name,
    ensures
        !bundle_map(bundle).contains_key(name),
    decreases bundle.len(),
{
    if bundle.len() > 0 {
        assert(bundle.last().0 != name);
        lemma_bundle_map_absent(bundle.drop_last(), name);
    }
}

/// The buffer of a variable is owned by that variable alone.
pub proof fn lemma_owner_of(s: StoreModel, i: int)
    requires
        s.wf(),
        0 <= i < s.entries.len(),
    ensures
        s.owner_of(s.entries[i].id.slot as int) == i,
{
    let slot = s.entries[i].id.slot as int;
    let c = s.owner_of(slot);
    assert(s.entries[c].id.slot == slot);
    if c < i {
        assert(s.entries[c].id != s.entries[i].id);
    } else if i < c {
        assert(s.entries[i].id != s.entries[c].id);
    }
}

/// Restoring no variable changes nothing.
pub proof fn lemma_restored_none(s: StoreModel, source: Map<Seq<char>, TensorView>)
    ensures
        s.restored(source, 0) == s,
{
    assert(s.restored(source, 0).tensors =~= s.tensors);
}

/// Restoring one variable more writes the buffer of that variable, which was
/// untouched so far, and no other.
pub proof fn lemma_restored_step(s: StoreModel, source: Map<Seq<char>, TensorView>, i: int)
    requires
        s.wf(),
        0 <= i < s.entries.len(),
    ensures
        s.restored(source, i).tensors[s.entries[i].id.slot as int] == s.tensor_at(i),
        s.restored(source, i + 1).tensors == s.restored(source, i).tensors.update(
            s.entries[i].id.slot as int,
            s.tensor_at(i).with_data_of(source[s.entries[i].name]),
        ),
{
    let slot = s.entries[i].id.slot as int;
    lemma_owner_of(s, i);
    assert(!s.slot_among(slot, i)) by {
        if s.slot_among(slot, i) {
            let j = choose|j: int| 0 <= j < i && (#[trigger] s.entries[j]).id.slot == slot;
            assert(s.entries[j].id != s.entries[i].id);
        }
    }
    assert(s.slot_among(slot, i + 1));
    let now = s.restored(source, i + 1).tensors;
    let then = s.restored(source, i).tensors.update(
        slot,
        s.tensor_at(i).with_data_of(source[s.entries[i].name]),
    );
    assert forall|k: int| 0 <= k < now.len() implies now[k] == then[k] by {
        if k != slot {
            if s.slot_among(k, i + 1) {
                let j = choose|j: int| 0 <= j < i + 1 && (#[trigger] s.entries[j]).id.slot == k;
                assert(s.slot_among(k, i));
            }
            if s.slot_among(k, i) {
                let j = choose|j: int| 0 <= j < i && (#[trigger] s.entries[j]).id.slot == k;
                assert(s.slot_among(k, i + 1));
            }
        }
    }
    assert(now =~= then);
}

/// From `from` on, no variable before the first failure fails, and the first
/// failure, if there is one, does.
pub proof fn lemma_first_failure(s: StoreModel, source: Map<Seq<char>, TensorView>, from: int)
    requires
        0 <= from <= s.entries.len(),
    ensures
        from <= s.first_failure(source, from) <= s.entries.len(),
        forall|j: int|
            from <= j < s.first_failure(source, from) ==> s.load_failure(source, j) is None,
        s.first_failure(source, from) < s.entries.len() ==> s.load_failure(
            source,
            s.first_failure(source, from),
        ) is Some,
    decreases s.entries.len() - from,
{
    if from < s.entries.len() && s.load_failure(source, from) is None {
        lemma_first_failure(s, source, from + 1);
    }
}

} // verus!
