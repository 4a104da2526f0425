//! What holds of the registry across its operations, proved over its
//! mathematical model.

use vstd::prelude::*;
use crate::model::{
    bundle_map, lemma_add_wf, lemma_bundle_map_absent, lemma_bundle_map_last,
    lemma_first_failure, lemma_index_of, lemma_owner_of, trainable_id, Entry, LoadFailure,
    StoreModel,
};
use crate::name::{
    disambiguated, has_sep, lemma_disambiguated_differs, lemma_joined_is_injective,
    lemma_qualified_name_is_joined, qualified_name, sep_free, SEP,
};
use crate::tensor::{TensorId, TensorView};

verus! {

/// Entering a namespace and naming a variable there yields the name of the
/// namespace, the separator and the variable's name.
pub proof fn law_name_below_a_namespace(
    segments: Seq<Seq<char>>,
    segment: Seq<char>,
    name: Seq<char>,
)
    ensures
        qualified_name(segments.push(segment), name) == qualified_name(segments, segment)
            + seq![SEP] + name,
{
    assert(segments.push(segment).drop_last() =~= segments);
}

/// Registering a variable leaves every buffer as it was, and every variable
/// but one that had the name under which the new one is entered.
pub proof fn law_add_keeps_other_variables(
    s: StoreModel,
    path: Seq<char>,
    tensor: TensorView,
    trainable: bool,
)
    requires
        s.wf(),
    ensures
        forall|k: int|
            0 <= k < s.tensors.len() ==> #[trigger] s.add(path, tensor, trainable).tensors[k]
                == s.tensors[k],
        forall|i: int|
            0 <= i < s.entries.len() && s.entries[i].name != s.stored_name(path)
                ==> #[trigger] s.add(path, tensor, trainable).entries[i] == s.entries[i],
{
    let name = s.stored_name(path);
    if s.has_name(name) {
        assert(s.entries[s.index_of(name)].name == name);
    }
}

/// Fully-qualified names do not collide: where no segment and no name holds
/// the separator, two variables have the same fully-qualified name only if
/// they have the same name in the same namespace.
pub proof fn law_qualified_names_are_unique(
    segments: Seq<Seq<char>>,
    name: Seq<char>,
    other_segments: Seq<Seq<char>>,
    other_name: Seq<char>,
)
    requires
        sep_free(segments),
        sep_free(other_segments),
        !has_sep(name),
        !has_sep(other_name),
        qualified_name(segments, name) == qualified_name(other_segments, other_name),
    ensures
        segments == other_segments,
        name == other_name,
{
    let a = segments.push(name);
    let b = other_segments.push(other_name);
    lemma_qualified_name_is_joined(segments, name);
    lemma_qualified_name_is_joined(other_segments, other_name);
    lemma_joined_is_injective(a, b);
    assert(segments =~= a.drop_last());
    assert(other_segments =~= b.drop_last());
    assert(name == a.last());
    assert(other_name == b.last());
}

/// A handle is among the trainable ones exactly if a trainable variable holds
/// it.
pub proof fn law_trainable_ids_are_the_trainable_variables(entries: Seq<Entry>, id: TensorId)
    ensures
        entries.filter_map(trainable_id()).contains(id) <==> exists|i: int|
            0 <= i < entries.len() && (#[trigger] entries[i]).trainable && entries[i].id == id,
    decreases entries.len(),
{
    let ids = entries.filter_map(trainable_id());
    if entries.len() > 0 {
        let rest = entries.drop_last();
        let last = entries.last();
        let rest_ids = rest.filter_map(trainable_id());
        law_trainable_ids_are_the_trainable_variables(rest, id);
        if ids.contains(id) {
            let k = choose|k: int| 0 <= k < ids.len() && ids[k] == id;
            if last.trainable && k == ids.len() - 1 {
                assert(entries[entries.len() - 1].trainable && entries[entries.len() - 1].id
                    == id);
            } else {
                assert(rest_ids[k] == id);
                assert(rest_ids.contains(id));
                let i = choose|i: int|
                    0 <= i < rest.len() && (#[trigger] rest[i]).trainable && rest[i].id == id;
                assert(entries[i].trainable && entries[i].id == id);
            }
        }
        if exists|i: int|
            0 <= i < entries.len() && (#[trigger] entries[i]).trainable && entries[i].id == id {
            let i = choose|i: int|
                0 <= i < entries.len() && (#[trigger] entries[i]).trainable && entries[i].id
                    == id;
            if i == entries.len() - 1 {
                assert(ids =~= rest_ids + seq![id]);
                assert(ids[ids.len() - 1] == id);
            } else {
                assert(rest[i].trainable && rest[i].id == id);
                assert(rest_ids.contains(id));
                let k = choose|k: int| 0 <= k < rest_ids.len() && rest_ids[k] == id;
                assert(ids[k] == id);
            }
        }
    }
}

/// Freezing and unfreezing change neither the variables nor which of them
/// are trainable: the trainable handles are the same before and after.
pub proof fn law_tracking_keeps_trainable_variables(s: StoreModel, flag: bool)
    ensures
        s.with_tracking(flag).entries == s.entries,
        s.with_tracking(flag).trainable_ids() == s.trainable_ids(),
        s.frozen().trainable_ids() == s.trainable_ids(),
        s.unfrozen().trainable_ids() == s.trainable_ids(),
        s.frozen().unfrozen().trainable_ids() == s.trainable_ids(),
{
}

/// A load changes neither the variables nor which of them are trainable.
pub proof fn law_load_keeps_trainable_variables(s: StoreModel, source: Map<Seq<char>, TensorView>)
    ensures
        s.loaded(source).entries == s.entries,
        s.loaded(source).trainable_ids() == s.trainable_ids(),
{
}

/// A variable that is registered under a name of its own joins the trainable
/// handles exactly if it was registered as trainable, and leaves the others
/// as they were.
pub proof fn law_add_extends_trainable_variables(
    s: StoreModel,
    path: Seq<char>,
    tensor: TensorView,
    trainable: bool,
)
    requires
        !s.has_name(s.stored_name(path)),
    ensures
        s.add(path, tensor, trainable).trainable_ids() == (if trainable {
            s.trainable_ids().push(s.next_id())
        } else {
            s.trainable_ids()
        }),
{
    let after = s.add(path, tensor, trainable);
    assert(after.entries.drop_last() =~= s.entries);
    if trainable {
        assert(s.trainable_ids() + seq![s.next_id()] =~= s.trainable_ids().push(s.next_id()));
    }
}

/// Whatever name a new variable is registered under, the trainable handles
/// afterwards are the new handle, if the variable is trainable, and the old
/// ones but that of the variable it replaced, if it replaced one.
pub proof fn law_add_trainable_variables(
    s: StoreModel,
    path: Seq<char>,
    tensor: TensorView,
    trainable: bool,
    id: TensorId,
)
    requires
        s.wf(),
        s.tensors.len() < usize::MAX,
    ensures
        s.add(path, tensor, trainable).trainable_ids().contains(id) <==> (id == s.next_id()
            && trainable) || (s.trainable_ids().contains(id) && !(s.has_name(s.stored_name(path))
            && s.entries[s.index_of(s.stored_name(path))].id == id)),
{
    let after = s.add(path, tensor, trainable);
    let name = s.stored_name(path);
    law_trainable_ids_are_the_trainable_variables(after.entries, id);
    law_trainable_ids_are_the_trainable_variables(s.entries, id);
    let new_at = if s.has_name(name) {
        s.index_of(name)
    } else {
        s.entries.len() as int
    };
    if s.has_name(name) {
        assert(s.entries[new_at].name == name);
    }
    assert(after.entries[new_at].id == s.next_id());
    if after.trainable_ids().contains(id) {
        let i = choose|i: int|
            0 <= i < after.entries.len() && (#[trigger] after.entries[i]).trainable
                && after.entries[i].id == id;
        if i != new_at {
            assert(s.entries[i].trainable && s.entries[i].id == id);
            if s.has_name(name) {
                if i < new_at {
                    assert(s.entries[i].id != s.entries[new_at].id);
                } else {
                    assert(s.entries[new_at].id != s.entries[i].id);
                }
            }
        }
    }
    if id == s.next_id() && trainable {
        assert(after.entries[new_at].trainable && after.entries[new_at].id == id);
    }
    if s.trainable_ids().contains(id) && !(s.has_name(name) && s.entries[new_at].id == id) {
        let i = choose|i: int|
            0 <= i < s.entries.len() && (#[trigger] s.entries[i]).trainable && s.entries[i].id
                == id;
        assert(i != new_at);
        assert(after.entries[i].trainable && after.entries[i].id == id);
    }
}

/// Freezing twice is freezing once, and so for unfreezing; and whichever of
/// the two comes last decides.
pub proof fn law_tracking_is_idempotent(s: StoreModel, first: bool, last: bool)
    ensures
        s.frozen().frozen() == s.frozen(),
        s.unfrozen().unfrozen() == s.unfrozen(),
        s.with_tracking(first).with_tracking(last) == s.with_tracking(last),
{
    assert forall|a: bool, b: bool| #[trigger]
        s.with_tracking(a).with_tracking(b) == s.with_tracking(b) by {
        let once = s.with_tracking(b);
        let twice = s.with_tracking(a).with_tracking(b);
        assert forall|k: int| 0 <= k < once.tensors.len() implies twice.tensors[k]
            == once.tensors[k] by {
            assert(s.with_tracking(a).is_trainable_slot(k) == s.is_trainable_slot(k));
        }
        assert(twice.tensors =~= once.tensors);
    }
}

/// Where gradients are tracked for every trainable variable, as they are
/// until the registry is frozen, unfreezing undoes freezing.
pub proof fn law_unfreeze_undoes_freeze(s: StoreModel)
    requires
        s.wf(),
        forall|i: int|
            0 <= i < s.entries.len() && (#[trigger] s.entries[i]).trainable ==> s.tensor_at(
                i,
            ).requires_grad,
    ensures
        s.frozen().unfrozen() == s,
{
    law_tracking_is_idempotent(s, false, true);
    assert forall|k: int| 0 <= k < s.tensors.len() implies s.unfrozen().tensors[k]
        == s.tensors[k] by {
        if s.is_trainable_slot(k) {
            let i = choose|i: int|
                0 <= i < s.entries.len() && (#[trigger] s.entries[i]).trainable
                    && s.entries[i].id.slot == k;
            assert(s.tensor_at(i).requires_grad);
        }
    }
    assert(s.unfrozen().tensors =~= s.tensors);
}

/// Freezing touches the gradient flags of the trainable variables and nothing
/// else: every buffer keeps its shape, device and values, and the buffer of a
/// variable that is not trainable keeps its flag too.
pub proof fn law_tracking_changes_flags_only(s: StoreModel, flag: bool, i: int)
    requires
        s.wf(),
        0 <= i < s.entries.len(),
    ensures
        s.with_tracking(flag).tensor_at(i) == (if s.entries[i].trainable {
            s.tensor_at(i).with_grad(flag)
        } else {
            s.tensor_at(i)
        }),
{
    let slot = s.entries[i].id.slot as int;
    assert(s.entries[i].id.slot < s.tensors.len());
    if s.is_trainable_slot(slot) {
        let j = choose|j: int|
            0 <= j < s.entries.len() && (#[trigger] s.entries[j]).trainable && s.entries[j].id.slot
                == slot;
        lemma_owner_of(s, i);
        lemma_owner_of(s, j);
    }
}

/// Where a variable's fully-qualified name is taken, and the name that tells
/// it apart is not, the new variable is registered under the second name,
/// which holds the number of variables at that time; the variable that has
/// the first name keeps it and its buffer, and both are saved.
pub proof fn law_collision_keeps_both(
    s: StoreModel,
    path: Seq<char>,
    tensor: TensorView,
    trainable: bool,
)
    requires
        s.wf(),
        s.tensors.len() < usize::MAX,
        tensor.wf(),
        tensor.device == s.device,
        s.has_name(path),
        !s.has_name(disambiguated(path, s.entries.len())),
    ensures
        ({
            let after = s.add(path, tensor, trainable);
            let second = disambiguated(path, s.entries.len());
            &&& second != path
            &&& after.wf()
            &&& after.entries.len() == s.entries.len() + 1
            &&& after.has_name(path)
            &&& after.has_name(second)
            &&& after.entries[after.index_of(path)] == s.entries[s.index_of(path)]
            &&& after.tensor_of(path) == s.tensor_of(path)
            &&& after.entries[after.index_of(second)].id == s.next_id()
            &&& after.entries[after.index_of(second)].id != after.entries[after.index_of(path)].id
            &&& after.tensor_of(second) == (if trainable {
                tensor.with_grad(true)
            } else {
                tensor
            })
            &&& after.snapshot().contains((path, s.tensor_of(path)))
            &&& after.snapshot().contains((second, after.tensor_of(second)))
        }),
{
    let after = s.add(path, tensor, trainable);
    let second = disambiguated(path, s.entries.len());
    lemma_disambiguated_differs(path, s.entries.len());
    lemma_add_wf(s, path, tensor, trainable);
    let first_at = s.index_of(path);
    let second_at = s.entries.len() as int;
    assert(s.entries[first_at].name == path);
    assert(after.entries[first_at].name == path);
    assert(after.entries[second_at].name == second);
    lemma_index_of(after, first_at);
    lemma_index_of(after, second_at);
    assert(s.entries[first_at].id.slot < s.tensors.len());
    assert(after.snapshot()[first_at] == (path, s.tensor_of(path)));
    assert(after.snapshot()[second_at] == (second, after.tensor_of(second)));
}

/// The names that a saved registry stands for are those of its variables,
/// each with the tensor of its variable.
pub proof fn law_snapshot_holds_every_variable(s: StoreModel, name: Seq<char>)
    requires
        s.wf(),
    ensures
        bundle_map(s.snapshot()).contains_key(name) <==> s.has_name(name),
        s.has_name(name) ==> bundle_map(s.snapshot())[name] == s.tensor_of(name),
{
    let bundle = s.snapshot();
    if s.has_name(name) {
        let k = s.index_of(name);
        assert(s.entries[k].name == name);
        assert forall|j: int| k < j < bundle.len() implies (#[trigger] bundle[j]).0 != name by {
            assert(s.entries[k].name != s.entries[j].name);
        }
        lemma_bundle_map_last(bundle, name, k);
    } else {
        assert forall|j: int| 0 <= j < bundle.len() implies (#[trigger] bundle[j]).0 != name by {
            assert(s.entries[j].name == bundle[j].0);
        }
        lemma_bundle_map_absent(bundle, name);
    }
}

/// After the first `count` variables were restored, each of them has the
/// values of the tensor of its name, and each of the others is as it was.
pub proof fn law_restored_values(
    s: StoreModel,
    source: Map<Seq<char>, TensorView>,
    count: int,
    i: int,
)
    requires
        s.wf(),
        0 <= count <= s.entries.len(),
        0 <= i < s.entries.len(),
    ensures
        s.restored(source, count).tensor_at(i) == (if i < count {
            s.tensor_at(i).with_data_of(source[s.entries[i].name])
        } else {
            s.tensor_at(i)
        }),
{
    let slot = s.entries[i].id.slot as int;
    assert(s.entries[i].id.slot < s.tensors.len());
    lemma_owner_of(s, i);
    if s.slot_among(slot, count) {
        let j = choose|j: int| 0 <= j < count && (#[trigger] s.entries[j]).id.slot == slot;
        lemma_owner_of(s, j);
    }
    if i < count {
        assert(s.slot_among(slot, count));
    }
}

/// A load succeeds exactly if every variable finds a tensor of its name that
/// fits its shape and device, and then every variable has that tensor's
/// values; gradient flags, shapes and the variables themselves are as before.
pub proof fn law_load_succeeds_when_every_variable_fits(
    s: StoreModel,
    source: Map<Seq<char>, TensorView>,
)
    requires
        s.wf(),
    ensures
        s.load_result(source) is Ok <==> forall|i: int|
            0 <= i < s.entries.len() ==> s.load_failure(source, i) is None,
        s.load_result(source) is Ok ==> forall|i: int|
            0 <= i < s.entries.len() ==> #[trigger] s.loaded(source).tensor_at(i) == s.tensor_at(
                i,
            ).with_data_of(source[s.entries[i].name]),
{
    lemma_first_failure(s, source, 0);
    if s.load_result(source) is Ok {
        assert forall|i: int| 0 <= i < s.entries.len() implies #[trigger] s.loaded(
            source,
        ).tensor_at(i) == s.tensor_at(i).with_data_of(source[s.entries[i].name]) by {
            law_restored_values(s, source, s.entries.len() as int, i);
        }
    }
}

/// Saving a registry and loading what was saved into a registry of the same
/// device, each of whose variables has the name and the shape of a saved one,
/// succeeds and gives every variable the saved values, element for element.
pub proof fn law_save_then_load_restores_values(saved: StoreModel, fresh: StoreModel)
    requires
        saved.wf(),
        fresh.wf(),
        fresh.device == saved.device,
        forall|i: int|
            0 <= i < fresh.entries.len() ==> saved.has_name((#[trigger] fresh.entries[i]).name)
                && saved.tensor_of(fresh.entries[i].name).dims == fresh.tensor_at(i).dims,
    ensures
        fresh.load_result(bundle_map(saved.snapshot())) is Ok,
        fresh.loaded(bundle_map(saved.snapshot())).entries == fresh.entries,
        forall|i: int|
            0 <= i < fresh.entries.len() ==> (#[trigger] fresh.loaded(
                bundle_map(saved.snapshot()),
            ).tensor_at(i)).data == saved.tensor_of(fresh.entries[i].name).data,
        forall|i: int|
            0 <= i < fresh.entries.len() ==> #[trigger] fresh.loaded(
                bundle_map(saved.snapshot()),
            ).tensor_at(i) == fresh.tensor_at(i).with_data_of(
                saved.tensor_of(fresh.entries[i].name),
            ),
{
    let source = bundle_map(saved.snapshot());
    assert forall|i: int| 0 <= i < fresh.entries.len() implies fresh.load_failure(source, i)
        is None by {
        let name = fresh.entries[i].name;
        law_snapshot_holds_every_variable(saved, name);
        let k = saved.index_of(name);
        assert(saved.entries[k].name == name);
        assert(saved.entries[k].id.slot < saved.tensors.len());
        assert(saved.tensors[saved.entries[k].id.slot as int].device == saved.device);
        assert(fresh.entries[i].id.slot < fresh.tensors.len());
        assert(fresh.tensors[fresh.entries[i].id.slot as int].device == fresh.device);
    }
    law_load_succeeds_when_every_variable_fits(fresh, source);
    assert forall|i: int| 0 <= i < fresh.entries.len() implies #[trigger] fresh.loaded(
        source,
    ).tensor_at(i) == fresh.tensor_at(i).with_data_of(saved.tensor_of(fresh.entries[i].name)) by {
        law_snapshot_holds_every_variable(saved, fresh.entries[i].name);
    }
}

/// A load into a registry that has a variable whose name the source lacks
/// fails.
pub proof fn law_load_fails_on_missing_name(
    s: StoreModel,
    source: Map<Seq<char>, TensorView>,
    i: int,
)
    requires
        0 <= i < s.entries.len(),
        !source.contains_key(s.entries[i].name),
    ensures
        s.load_result(source) is Err,
{
    lemma_first_failure(s, source, 0);
    assert(s.load_failure(source, i) is Some);
}

/// Where the first variable whose name the source lacks comes after
/// variables that could all be restored, the load reports that name as not
/// found; those variables have their new values, and that one and the rest
/// are as before.
pub proof fn law_load_names_first_missing(
    s: StoreModel,
    source: Map<Seq<char>, TensorView>,
    i: int,
)
    requires
        0 <= i < s.entries.len(),
        !source.contains_key(s.entries[i].name),
        forall|j: int| 0 <= j < i ==> s.load_failure(source, j) is None,
    ensures
        s.load_result(source) == Err::<(), LoadFailure>(
            (LoadFailure::NotFound { name: s.entries[i].name }),
        ),
        s.loaded(source) == s.restored(source, i),
{
    lemma_first_failure(s, source, 0);
    assert(s.load_failure(source, i) is Some);
    let stop = s.first_failure(source, 0);
    if stop < i {
        assert(s.load_failure(source, stop) is None);
    }
}

/// A load that fails has restored the variables before the one it names, and
/// no other: it is not undone.
pub proof fn law_failed_load_keeps_what_it_restored(
    s: StoreModel,
    source: Map<Seq<char>, TensorView>,
    i: int,
)
    requires
        s.wf(),
        s.load_result(source) is Err,
        0 <= i < s.entries.len(),
    ensures
        s.restored_count(source) < s.entries.len(),
        s.load_result(source) == Err::<(), LoadFailure>(
            s.load_failure(source, s.restored_count(source))->0,
        ),
        s.loaded(source).tensor_at(i) == (if i < s.restored_count(source) {
            s.tensor_at(i).with_data_of(source[s.entries[i].name])
        } else {
            s.tensor_at(i)
        }),
{
    lemma_first_failure(s, source, 0);
    law_restored_values(s, source, s.restored_count(source), i);
}

} // verus!
