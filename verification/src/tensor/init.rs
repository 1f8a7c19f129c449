//! Ways to fill a tensor before training.
use super::tensor;
use super::tensor::Tensor;
use vstd::prelude::*;

verus! {

/// A way to fill a tensor; a constant by its bits.
#[derive(Debug, Clone, Copy, PartialEq, Eq, Structural)]
pub enum InitMethod {
    XavierNormal,
    XavierUniform,
    HeNormal,
    HeUniform,
    Constant(u32),
}

/// The number of inputs of a map with that shape.
pub open spec fn fan_in(shape: Seq<usize>) -> int {
    if shape.len() >= 2 {
        shape[shape.len() - 2] as int
    } else {
        1
    }
}

/// The number of outputs of a map with that shape.
pub open spec fn fan_out(shape: Seq<usize>) -> int {
    shape[shape.len() - 1] as int
}

impl InitMethod {
    /// The square of the bound between which values are drawn, as a quotient; none for a constant.
    pub open spec fn squared_bound(self, shape: Seq<usize>) -> Option<(int, int)> {
        match self {
            InitMethod::XavierNormal | InitMethod::XavierUniform => Some((6, fan_in(shape) + fan_out(shape))),
            InitMethod::HeNormal => Some((2, fan_in(shape))),
            InitMethod::HeUniform => Some((6, fan_in(shape))),
            InitMethod::Constant(_) => None,
        }
    }

    /// The square of the bound between which values are drawn: a numerator and a denominator.
    pub fn bound(&self, shape: &[usize]) -> (r: Option<(u32, usize)>)
        requires
            shape@.len() > 0,
            fan_in(shape@) + fan_out(shape@) <= usize::MAX,
        ensures
            match r {
                Some((a, b)) => self.squared_bound(shape@) == Some((a as int, b as int)),
                None => self.squared_bound(shape@) is None,
            },
    {
        let inputs: usize = if shape.len() >= 2 { shape[shape.len() - 2] } else { 1 };
        let outputs: usize = shape[shape.len() - 1];
        match self {
            InitMethod::XavierNormal | InitMethod::XavierUniform => Some((6, inputs + outputs)),
            InitMethod::HeNormal => Some((2, inputs)),
            InitMethod::HeUniform => Some((6, inputs)),
            InitMethod::Constant(_) => None,
        }
    }

    /// The value for an element: the constant, or the one that was drawn for it.
    pub open spec fn value(self, drawn: Seq<u32>, i: int) -> u32 {
        match self {
            InitMethod::Constant(v) => v,
            _ => drawn[i],
        }
    }

    /// Fills a tensor with a constant, or with the values that were drawn for its elements.
    pub fn initialize(&self, tensor: &mut Tensor, drawn: &[u32])
        requires
            old(tensor)@.wf(),
            self is Constant || drawn@.len() == old(tensor)@.count(),
        ensures
            final(tensor)@.wf(),
            final(tensor)@.shape == old(tensor)@.shape,
            final(tensor)@.dtype == old(tensor)@.dtype,
            final(tensor)@.device == old(tensor)@.device,
            final(tensor)@.lanes() == Seq::new(old(tensor)@.count(), |i: int| tensor::kept(old(tensor)@.dtype, self.value(drawn@, i))),
    {
        let n: usize = tensor.num_elements();
        let mut i: usize = 0;
        while i < n
            invariant
                tensor@.wf(),
                tensor@.shape == old(tensor)@.shape,
                tensor@.dtype == old(tensor)@.dtype,
                tensor@.device == old(tensor)@.device,
                n == old(tensor)@.count(),
                self is Constant || drawn@.len() == n,
                i <= n,
                tensor@.lanes().len() == n,
                forall|j: int| 0 <= j < i ==> #[trigger] tensor@.lanes()[j] == tensor::kept(old(tensor)@.dtype, self.value(drawn@, j)),
            decreases n - i,
        {
            let v: u32 = match self {
                InitMethod::Constant(v) => *v,
                _ => drawn[i],
            };
            tensor.set_flat_f32(i, v);
            i = i + 1;
        }
        assert(tensor@.lanes() =~= Seq::new(n as nat, |j: int| tensor::kept(old(tensor)@.dtype, self.value(drawn@, j))));
    }
}

} // verus!
