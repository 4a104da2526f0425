//! The registry of variables.

use vstd::prelude::*;
use vstd::string::*;
use crate::device::Device;
use crate::error::{outcome, LoadError};
use crate::model::{
    bundle_map, lemma_add_wf, lemma_bundle_map_absent, lemma_bundle_map_last,
    lemma_first_failure, lemma_index_of, lemma_restored_none, lemma_restored_step, trainable_id,
    Entry, StoreModel,
};
use crate::name::disambiguate;
use crate::path::Path;
use crate::tensor::{CopyError, Tensor, TensorId, TensorView};

verus! {

/// A registered tensor and whether it takes part in training. Freezing the
/// registry leaves `trainable` as it is and switches gradient tracking off on
/// the tensor.
#[derive(Debug)]
struct Variable {
    name: String,
    tensor: TensorId,
    trainable: bool,
}

impl Variable {
    spec fn entry(self) -> Entry {
        Entry { name: self.name@, id: self.tensor, trainable: self.trainable }
    }
}

/// The named tensors of a bundle that was read, as mathematical values.
pub open spec fn bundle_views(named_tensors: Seq<(String, Tensor)>) -> Seq<
    (Seq<char>, TensorView),
> {
    Seq::new(named_tensors.len(), |i: int| (named_tensors[i].0@, named_tensors[i].1@))
}

/// The named tensors of a bundle to write, as mathematical values.
pub open spec fn named_views(named_tensors: Seq<(&str, &Tensor)>) -> Seq<(Seq<char>, TensorView)> {
    Seq::new(named_tensors.len(), |i: int| (named_tensors[i].0@, named_tensors[i].1@))
}

spec fn entries_of(variables: Seq<Variable>) -> Seq<Entry> {
    Seq::new(variables.len(), |i: int| variables[i].entry())
}

spec fn tensor_views(tensors: Seq<Tensor>) -> Seq<TensorView> {
    Seq::new(tensors.len(), |k: int| tensors[k]@)
}

/// A registry of the variables of one or several layers, all of which live on
/// one device. It owns the buffers; callers hold handles to them.
#[derive(Debug)]
pub struct VarStore {
    variables: Vec<Variable>,
    tensors: Vec<Tensor>,
    device: Device,
}

impl View for VarStore {
    type V = StoreModel;

    closed spec fn view(&self) -> StoreModel {
        StoreModel {
            device: self.device,
            tensors: tensor_views(self.tensors@),
            entries: entries_of(self.variables@),
        }
    }
}

impl VarStore {
    #[verifier::type_invariant]
    spec fn inv(self) -> bool {
        self@.wf()
    }

    /// Takes the variables and the buffers out, and leaves the registry empty.
    /// A method that changes either works on what it took and puts both back:
    /// whatever happens in between, the registry is never seen half changed.
    fn take(&mut self) -> (r: (Vec<Variable>, Vec<Tensor>))
        ensures
            r.0 == old(self).variables,
            r.1 == old(self).tensors,
            final(self).device == old(self).device,
            final(self).variables@.len() == 0,
            final(self).tensors@.len() == 0,
    {
        proof {
            use_type_invariant(&*self);
        }
        let mut variables: Vec<Variable> = Vec::new();
        let mut tensors: Vec<Tensor> = Vec::new();
        std::mem::swap(&mut self.variables, &mut variables);
        std::mem::swap(&mut self.tensors, &mut tensors);
        (variables, tensors)
    }

    /// A registry without variables, whose tensors will live on `device`.
    pub fn new(device: Device) -> (vs: VarStore)
        ensures
            vs@ == StoreModel::empty(device),
            vs@.wf(),
    {
        let vs = VarStore { variables: Vec::new(), tensors: Vec::new(), device };
        proof {
            assert(vs@.tensors =~= Seq::empty());
            assert(vs@.entries =~= Seq::empty());
        }
        vs
    }

    /// The device of this registry.
    pub fn device(&self) -> (d: Device)
        ensures
            d == self@.device,
    {
        self.device
    }

    /// The root of this registry's hierarchy of names.
    pub fn root(&self) -> (p: Path)
        ensures
            p@ == Seq::<Seq<char>>::empty(),
    {
        Path::empty()
    }

    /// The tensor behind a handle, if the handle is one of this registry.
    pub fn get(&self, id: TensorId) -> (t: Option<&Tensor>)
        ensures
            t is Some <==> id.slot < self@.tensors.len(),
            t matches Some(tensor) ==> tensor@ == self@.tensors[id.slot as int],
    {
        proof {
            use_type_invariant(self);
        }
        if id.slot < self.tensors.len() {
            Some(&self.tensors[id.slot])
        } else {
            None
        }
    }

    /// Handles to the tensors of all trainable variables. Freezing does not
    /// change which variables are trainable.
    pub fn trainable_variables(&self) -> (ids: Vec<TensorId>)
        ensures
            ids@ == self@.trainable_ids(),
    {
        let mut ids: Vec<TensorId> = Vec::new();
        let mut i: usize = 0;
        while i < self.variables.len()
            invariant
                i <= self.variables.len(),
                ids@ == self@.entries.take(i as int).filter_map(trainable_id()),
            decreases self.variables.len() - i,
        {
            proof {
                self@.entries.lemma_filter_map_take_succ(trainable_id(), i as int);
            }
            if self.variables[i].trainable {
                ids.push(self.variables[i].tensor);
            }
            i += 1;
        }
        proof {
            assert(self@.entries.take(self.variables.len() as int) =~= self@.entries);
        }
        ids
    }

    /// The position of the variable registered under `name`.
    fn position(&self, name: &String) -> (r: Option<usize>)
        ensures
            r is Some <==> self@.has_name(name@),
            r matches Some(i) ==> i < self@.entries.len() && i == self@.index_of(name@),
    {
        proof {
            use_type_invariant(self);
        }
        let mut i: usize = 0;
        while i < self.variables.len()
            invariant
                i <= self.variables.len(),
                self@.wf(),
                forall|j: int| 0 <= j < i ==> (#[trigger] self@.entries[j]).name != name@,
            decreases self.variables.len() - i,
        {
            if self.variables[i].name == *name {
                proof {
                    lemma_index_of(self@, i as int);
                }
                return Some(i);
            }
            i += 1;
        }
        None
    }

    /// Registers `tensor` for the fully-qualified name `path` and returns the
    /// handle of its buffer.
    pub(crate) fn insert(&mut self, path: String, tensor: Tensor, trainable: bool) -> (id:
        TensorId)
        requires
            tensor@.device == old(self)@.device,
        ensures
            final(self)@ == old(self)@.add(path@, tensor@, trainable),
            id == old(self)@.next_id(),
            final(self)@.wf(),
    {
        proof {
            use_type_invariant(&*self);
            use_type_invariant(&tensor);
        }
        let ghost before = self@;
        let name = match self.position(&path) {
            Some(_) => disambiguate(path.as_str(), self.variables.len()),
            None => path,
        };
        let taken = self.position(&name);
        let ghost old_tensor = tensor@;
        let mut tensor = tensor;
        if trainable {
            tensor.set_requires_grad(true);
        }
        let id = TensorId { slot: self.tensors.len() };
        let variable = Variable { name, tensor: id, trainable };
        let (mut variables, mut tensors) = self.take();
        tensors.push(tensor);
        match taken {
            Some(k) => {
                variables.set(k, variable);
            },
            None => {
                variables.push(variable);
            },
        }
        proof {
            let after = before.add(path@, old_tensor, trainable);
            assert(tensor_views(tensors@) =~= after.tensors);
            assert(entries_of(variables@) =~= after.entries);
            assert(tensors@.len() == tensors.len());
            lemma_add_wf(before, path@, old_tensor, trainable);
        }
        self.tensors = tensors;
        self.variables = variables;
        id
    }

    /// The variables with their tensors, as they are written to a file: one
    /// pair per variable.
    pub fn save(&self) -> (named_tensors: Vec<(&str, &Tensor)>)
        ensures
            named_views(named_tensors@) == self@.snapshot(),
    {
        proof {
            use_type_invariant(self);
        }
        let mut named_tensors: Vec<(&str, &Tensor)> = Vec::new();
        let mut i: usize = 0;
        while i < self.variables.len()
            invariant
                i <= self.variables.len(),
                self@.wf(),
                named_tensors@.len() == i,
                forall|j: int|
                    0 <= j < i ==> (#[trigger] named_tensors@[j]).0@ == self@.entries[j].name
                        && named_tensors@[j].1@ == self@.tensor_at(j),
            decreases self.variables.len() - i,
        {
            let variable = &self.variables[i];
            proof {
                assert(self@.entries[i as int].id.slot < self@.tensors.len());
            }
            named_tensors.push((variable.name.as_str(), &self.tensors[variable.tensor.slot]));
            i += 1;
        }
        proof {
            assert(named_views(named_tensors@) =~= self@.snapshot());
        }
        named_tensors
    }

    /// Gives every variable the values of the tensor that `named_tensors`
    /// holds under the variable's name; tensors of other names are passed
    /// over. The variables are walked in their order, and the walk ends at
    /// the first whose name is missing or whose tensor has another shape or
    /// device: the variables before it keep the values they were given. A copy
    /// changes values only, whether or not the variable is trainable.
    pub fn load(&mut self, named_tensors: &[(String, Tensor)]) -> (r: Result<(), LoadError>)
        ensures
            final(self)@ == old(self)@.loaded(bundle_map(bundle_views(named_tensors@))),
            outcome(r) == old(self)@.load_result(bundle_map(bundle_views(named_tensors@))),
            final(self)@.wf(),
    {
        proof {
            use_type_invariant(&*self);
        }
        let ghost before = self@;
        let ghost source = bundle_map(bundle_views(named_tensors@));
        let (variables, mut tensors) = self.take();
        let mut failure: Option<LoadError> = None;
        let mut i: usize = 0;
        proof {
            lemma_restored_none(before, source);
            assert(tensor_views(tensors@) =~= before.tensors);
            assert forall|k: int| 0 <= k < tensors@.len() implies (#[trigger] tensors@[k])@.wf()
                && tensors@[k]@.device == before.device by {
                assert(before.tensors[k].wf());
            }
        }
        while i < variables.len() && failure.is_none()
            invariant
                i <= variables.len(),
                before.wf(),
                source == bundle_map(bundle_views(named_tensors@)),
                entries_of(variables@) == before.entries,
                before.first_failure(source, 0) == before.first_failure(source, i as int),
                failure is None ==> tensor_views(tensors@) == before.restored(
                    source,
                    i as int,
                ).tensors,
                failure matches Some(e) ==> i < variables.len() && before.load_failure(
                    source,
                    i as int,
                ) == Some(e@) && tensor_views(tensors@) == before.restored(source, i as int).tensors,
                forall|k: int|
                    0 <= k < tensors@.len() ==> (#[trigger] tensors@[k])@.wf() && tensors@[k]@.device
                        == before.device,
                tensors@.len() == before.tensors.len(),
            decreases variables.len() - i + (if failure is None {
                    1int
                } else {
                    0int
                }),
        {
            let ghost entry = before.entries[i as int];
            let variable = &variables[i];
            proof {
                assert(entry.id.slot < before.tensors.len());
                lemma_restored_step(before, source, i as int);
            }
            match find_last(named_tensors, &variable.name) {
                None => {
                    failure = Some(LoadError::NotFound { name: variable.name.clone() });
                },
                Some(k) => {
                    let slot = variable.tensor.slot;
                    let src = &named_tensors[k].1;
                    proof {
                        use_type_invariant(src);
                        assert(tensor_views(tensors@)[slot as int] == tensors@[slot as int]@);
                    }
                    match tensors[slot].f_copy_(src) {
                        Err(error) => {
                            failure = Some(
                                LoadError::Copy { name: variable.name.clone(), error },
                            );
                        },
                        Ok(_) => {
                            proof {
                                assert(tensor_views(tensors@) =~= before.restored(
                                    source,
                                    i + 1,
                                ).tensors);
                            }
                            i += 1;
                        },
                    }
                },
            }
        }
        proof {
            lemma_first_failure(before, source, i as int);
            let after = before.loaded(source);
            assert(tensor_views(tensors@) == after.tensors);
            assert(after.wf()) by {
                assert forall|k: int| 0 <= k < after.tensors.len() implies (
                #[trigger] after.tensors[k]).wf() && after.tensors[k].device == after.device by {
                    assert(tensors@[k]@.wf());
                }
                assert(after.entries == before.entries);
            }
        }
        self.tensors = tensors;
        self.variables = variables;
        match failure {
            Some(e) => Err(e),
            None => Ok(()),
        }
    }

    /// Copies the values of `src` into the buffer behind `id`, if shape and
    /// device agree.
    pub(crate) fn copy_into(&mut self, id: TensorId, src: &Tensor) -> (r: Result<(), CopyError>)
        requires
            id.slot < old(self)@.tensors.len(),
        ensures
            r is Ok <==> old(self)@.tensors[id.slot as int].copy_error(src@) is None,
            r matches Err(e) ==> old(self)@.tensors[id.slot as int].copy_error(src@) == Some(e),
            final(self)@ == (if r is Ok {
                old(self)@.with_values(id, src@)
            } else {
                old(self)@
            }),
            final(self)@.wf(),
    {
        proof {
            use_type_invariant(&*self);
            use_type_invariant(src);
        }
        let ghost before = self@;
        let (variables, mut tensors) = self.take();
        let r = tensors[id.slot].f_copy_(src);
        proof {
            let after = if r is Ok {
                before.with_values(id, src@)
            } else {
                before
            };
            assert(tensor_views(tensors@) =~= after.tensors);
            assert forall|k: int| 0 <= k < after.tensors.len() implies (#[trigger] after.tensors[k]).wf()
                && after.tensors[k].device == after.device by {
                assert(before.tensors[k].wf());
            }
        }
        self.tensors = tensors;
        self.variables = variables;
        r
    }

    /// Switches gradient tracking to `flag` on the tensor of every trainable
    /// variable.
    fn set_tracking(&mut self, flag: bool)
        ensures
            final(self)@ == old(self)@.with_tracking(flag),
            final(self)@.wf(),
    {
        proof {
            use_type_invariant(&*self);
        }
        let ghost before = self@;
        let (variables, mut tensors) = self.take();
        let mut i: usize = 0;
        while i < variables.len()
            invariant
                i <= variables.len(),
                before.wf(),
                entries_of(variables@) == before.entries,
                tensors@.len() == before.tensors.len(),
                forall|k: int|
                    0 <= k < tensors@.len() ==> (#[trigger] tensors@[k])@ == if trainable_among(
                        before,
                        k,
                        i as int,
                    ) {
                        before.tensors[k].with_grad(flag)
                    } else {
                        before.tensors[k]
                    },
            decreases variables.len() - i,
        {
            let ghost entry = before.entries[i as int];
            if variables[i].trainable {
                let slot = variables[i].tensor.slot;
                proof {
                    assert(entry.id.slot == slot);
                }
                tensors[slot].set_requires_grad(flag);
            }
            proof {
                assert forall|k: int| 0 <= k < tensors@.len() implies (#[trigger] tensors@[k])@
                    == if trainable_among(before, k, i + 1) {
                    before.tensors[k].with_grad(flag)
                } else {
                    before.tensors[k]
                } by {
                    if trainable_among(before, k, i as int) {
                        assert(trainable_among(before, k, i + 1));
                    }
                    if trainable_among(before, k, i + 1) && !(entry.trainable && entry.id.slot
                        == k) {
                        let j = choose|j: int|
                            0 <= j < i + 1 && (#[trigger] before.entries[j]).trainable
                                && before.entries[j].id.slot == k;
                        assert(trainable_among(before, k, i as int));
                    }
                    if entry.trainable && entry.id.slot == k {
                        assert(trainable_among(before, k, i + 1));
                    }
                }
            }
            i += 1;
        }
        proof {
            let after = before.with_tracking(flag);
            assert forall|k: int| 0 <= k < tensors@.len() implies tensor_views(tensors@)[k]
                == after.tensors[k] by {
                assert(trainable_among(before, k, variables.len() as int)
                    == before.is_trainable_slot(k));
            }
            assert(tensor_views(tensors@) =~= after.tensors);
            assert forall|k: int| 0 <= k < after.tensors.len() implies (#[trigger] after.tensors[k]).wf()
                && after.tensors[k].device == after.device by {
                assert(before.tensors[k].wf());
            }
            assert(after.wf());
        }
        self.tensors = tensors;
        self.variables = variables;
    }

    /// Switches gradient tracking off for every trainable variable. The
    /// variables stay trainable, so that `unfreeze` finds them again.
    pub fn freeze(&mut self)
        ensures
            final(self)@ == old(self)@.frozen(),
            final(self)@.wf(),
    {
        self.set_tracking(false)
    }

    /// Switches gradient tracking on for every trainable variable.
    pub fn unfreeze(&mut self)
        ensures
            final(self)@ == old(self)@.unfrozen(),
            final(self)@.wf(),
    {
        self.set_tracking(true)
    }
}

/// The position of the last tensor of the given name in a bundle.
fn find_last(named_tensors: &[(String, Tensor)], name: &String) -> (r: Option<usize>)
    ensures
        r is Some <==> bundle_map(bundle_views(named_tensors@)).contains_key(name@),
        r matches Some(k) ==> k < named_tensors@.len() && bundle_map(
            bundle_views(named_tensors@),
        )[name@] == named_tensors@[k as int].1@,
{
    let ghost bundle = bundle_views(named_tensors@);
    let mut i: usize = named_tensors.len();
    while i > 0
        invariant
            i <= named_tensors@.len(),
            bundle == bundle_views(named_tensors@),
            forall|j: int| i <= j < bundle.len() ==> (#[trigger] bundle[j]).0 != name@,
        decreases i,
    {
        i -= 1;
        if named_tensors[i].0 == *name {
            proof {
                assert(bundle[i as int].0 == name@);
                lemma_bundle_map_last(bundle, name@, i as int);
            }
            return Some(i);
        }
    }
    proof {
        lemma_bundle_map_absent(bundle, name@);
    }
    None
}

/// The buffer at `slot` belongs to a trainable variable among the first
/// `count`.
spec fn trainable_among(s: StoreModel, slot: int, count: int) -> bool {
    exists|i: int|
        0 <= i < count && (#[trigger] s.entries[i]).trainable && s.entries[i].id.slot == slot
}

} // verus!
