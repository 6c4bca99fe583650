//! What drawing needs of the kernel.

use vstd::prelude::*;

verus! {

/// Makes an array of four values, in their order. Hands the values back as
/// they are where there are not exactly four of them.
pub fn collect_quadruple<T>(vec: Vec<T>) -> (quadruple: Result<[T; 4], Vec<T>>)
    ensures
        vec@.len() == 4 ==> (quadruple matches Ok(array) && array@ == vec@),
        vec@.len() != 4 ==> quadruple == Err::<[T; 4], Vec<T>>(vec),
{
    if vec.len() == 4 {
        let mut vals = vec;
        let el3 = vals.pop().unwrap();
        let el2 = vals.pop().unwrap();
        let el1 = vals.pop().unwrap();
        let el0 = vals.pop().unwrap();
        let array = [el0, el1, el2, el3];
        assert(array@ =~= vec@);
        Ok(array)
    } else {
        Err(vec)
    }
}

} // verus!
