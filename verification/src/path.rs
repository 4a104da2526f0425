//! Namespace cursors.

use vstd::prelude::*;
use vstd::string::*;
use crate::device::Device;
use crate::name::{has_sep, qualified_name, qualify, sep_free, views_of};
use crate::store::VarStore;
use crate::tensor::{CopyError, Tensor, TensorId, TensorView, ONE_BITS, ZERO_BITS, shape_fits};

verus! {

/// A position in the hierarchy of names of a registry: the namespace segments
/// from the root down. Deriving a path never touches the registry.
#[derive(Debug)]
pub struct Path {
    path: Vec<String>,
}

impl View for Path {
    type V = Seq<Seq<char>>;

    closed spec fn view(&self) -> Seq<Seq<char>> {
        views_of(self.path@)
    }
}

impl Path {
    #[verifier::type_invariant]
    spec fn inv(self) -> bool {
        sep_free(self@)
    }

    /// The path without segments.
    pub(crate) fn empty() -> (p: Path)
        ensures
            p@ == Seq::<Seq<char>>::empty(),
    {
        let p = Path { path: Vec::new() };
        assert(p@ =~= Seq::<Seq<char>>::empty());
        p
    }

    /// The path one level below this one, in the namespace `s`. This path is
    /// left as it is.
    pub fn sub(&self, s: &str) -> (p: Path)
        requires
            !has_sep(s@),
        ensures
            p@ == self@.push(s@),
            sep_free(p@),
    {
        proof {
            use_type_invariant(self);
        }
        let mut path: Vec<String> = Vec::new();
        let mut i: usize = 0;
        while i < self.path.len()
            invariant
                i <= self.path.len(),
                path@.len() == i,
                forall|j: int| 0 <= j < i ==> (#[trigger] path@[j])@ == self.path@[j]@,
            decreases self.path.len() - i,
        {
            path.push(self.path[i].clone());
            i += 1;
        }
        path.push(String::from_str(s));
        proof {
            assert(views_of(path@) =~= self@.push(s@));
        }
        Path { path }
    }

    /// The device of the registry that the path is used with.
    pub fn device(&self, vs: &VarStore) -> (d: Device)
        ensures
            d == vs@.device,
    {
        vs.device()
    }

    /// The fully-qualified name of the variable `name` at this path.
    pub fn path(&self, name: &str) -> (full: String)
        requires
            !has_sep(name@),
        ensures
            full@ == qualified_name(self@, name@),
    {
        qualify(&self.path, name)
    }

    /// Registers `tensor` in `vs` as the variable `name` at this path and
    /// returns a handle to it. Gradient tracking is switched on for a trainable
    /// variable. Where the fully-qualified name is taken, the variable is
    /// registered under that name followed by two underscores and the number
    /// of variables that `vs` holds.
    pub fn add(&self, vs: &mut VarStore, name: &str, tensor: Tensor, trainable: bool) -> (id:
        TensorId)
        requires
            !has_sep(name@),
            tensor@.device == old(vs)@.device,
        ensures
            final(vs)@ == old(vs)@.add(qualified_name(self@, name@), tensor@, trainable),
            id == old(vs)@.next_id(),
            final(vs)@.wf(),
    {
        let path = self.path(name);
        vs.insert(path, tensor, trainable)
    }

    /// A variable of zeros that is not trained.
    pub fn zeros_no_train(&self, vs: &mut VarStore, name: &str, dims: &[i64]) -> (id: TensorId)
        requires
            !has_sep(name@),
            shape_fits(dims@),
        ensures
            final(vs)@ == old(vs)@.add(
                qualified_name(self@, name@),
                TensorView::full(dims@, old(vs)@.device, ZERO_BITS),
                false,
            ),
            id == old(vs)@.next_id(),
            final(vs)@.wf(),
    {
        let z = Tensor::zeros(dims, self.device(vs));
        self.add(vs, name, z, false)
    }

    /// A variable of ones that is not trained.
    pub fn ones_no_train(&self, vs: &mut VarStore, name: &str, dims: &[i64]) -> (id: TensorId)
        requires
            !has_sep(name@),
            shape_fits(dims@),
        ensures
            final(vs)@ == old(vs)@.add(
                qualified_name(self@, name@),
                TensorView::full(dims@, old(vs)@.device, ONE_BITS),
                false,
            ),
            id == old(vs)@.next_id(),
            final(vs)@.wf(),
    {
        let o = Tensor::ones(dims, self.device(vs));
        self.add(vs, name, o, false)
    }

    /// A trainable variable whose first value is `init`, the tensor that an
    /// initialisation produced for the registry's device.
    pub fn var(&self, vs: &mut VarStore, name: &str, init: Tensor) -> (id: TensorId)
        requires
            !has_sep(name@),
            init@.device == old(vs)@.device,
        ensures
            final(vs)@ == old(vs)@.add(qualified_name(self@, name@), init@, true),
            id == old(vs)@.next_id(),
            final(vs)@.wf(),
    {
        self.add(vs, name, init, true)
    }

    /// A trainable variable of zeros.
    pub fn zeros(&self, vs: &mut VarStore, name: &str, dims: &[i64]) -> (id: TensorId)
        requires
            !has_sep(name@),
            shape_fits(dims@),
        ensures
            final(vs)@ == old(vs)@.add(
                qualified_name(self@, name@),
                TensorView::full(dims@, old(vs)@.device, ZERO_BITS),
                true,
            ),
            id == old(vs)@.next_id(),
            final(vs)@.wf(),
    {
        let z = Tensor::zeros(dims, self.device(vs));
        self.var(vs, name, z)
    }

    /// A trainable variable of ones.
    pub fn ones(&self, vs: &mut VarStore, name: &str, dims: &[i64]) -> (id: TensorId)
        requires
            !has_sep(name@),
            shape_fits(dims@),
        ensures
            final(vs)@ == old(vs)@.add(
                qualified_name(self@, name@),
                TensorView::full(dims@, old(vs)@.device, ONE_BITS),
                true,
            ),
            id == old(vs)@.next_id(),
            final(vs)@.wf(),
    {
        let o = Tensor::ones(dims, self.device(vs));
        self.var(vs, name, o)
    }

    /// A trainable variable with the shape and the values of `t`. The variable
    /// is registered as one of zeros, and the values of `t` are then copied
    /// into it. The copy is refused where `t` lives on another device than the
    /// registry: the variable then stays registered, with its zeros.
    pub fn var_copy(&self, vs: &mut VarStore, name: &str, t: &Tensor) -> (r: Result<
        TensorId,
        CopyError,
    >)
        requires
            !has_sep(name@),
        ensures
            r == (if t@.device == old(vs)@.device {
                Ok::<TensorId, CopyError>(old(vs)@.next_id())
            } else {
                Err::<TensorId, CopyError>(CopyError::DeviceMismatch)
            }),
            final(vs)@ == (if t@.device == old(vs)@.device {
                old(vs)@.add(
                    qualified_name(self@, name@),
                    TensorView::full(t@.dims, old(vs)@.device, ZERO_BITS),
                    true,
                ).with_values(old(vs)@.next_id(), t@)
            } else {
                old(vs)@.add(
                    qualified_name(self@, name@),
                    TensorView::full(t@.dims, old(vs)@.device, ZERO_BITS),
                    true,
                )
            }),
            final(vs)@.wf(),
    {
        proof {
            use_type_invariant(t);
        }
        let dims = t.size();
        let id = self.zeros(vs, name, dims.as_slice());
        match vs.copy_into(id, t) {
            Ok(_) => Ok(id),
            Err(e) => Err(e),
        }
    }
}

} // verus!
