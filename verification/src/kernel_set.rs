//! The names under which the convolution kernels of the renderer are known.

use vstd::prelude::*;

verus! {

/// The number of kernels.
pub const KERNEL_COUNT: usize = 4;

/// The names of the kernels, in the order of the kernels.
pub open spec fn kernel_names() -> Seq<Seq<char>> {
    seq!["normal"@, "gaussianBlur"@, "unsharpen"@, "emboss"@]
}

/// The names of the kernels.
pub fn names() -> (res: [String; 4])
    ensures
        res@.map_values(|s: String| s@) == kernel_names(),
{
    let res = [
        "normal".to_owned(),
        "gaussianBlur".to_owned(),
        "unsharpen".to_owned(),
        "emboss".to_owned(),
    ];
    assert(res@.map_values(|s: String| s@) =~= kernel_names());
    res
}

/// The index of the first kernel called `name`, or `None` for a name that no
/// kernel has.
pub fn kernel_index(name: &str) -> (res: Option<usize>)
    ensures
        match res {
            Some(i) => {
                &&& i < KERNEL_COUNT
                &&& kernel_names()[i as int] == name@
                &&& forall|k: int| 0 <= k < i ==> kernel_names()[k] != name@
            },
            None => forall|k: int| 0 <= k < KERNEL_COUNT ==> kernel_names()[k] != name@,
        },
{
    let names = names();
    let wanted = name.to_owned();
    let mut i: usize = 0;
    while i < KERNEL_COUNT
        invariant
            i <= KERNEL_COUNT,
            wanted@ == name@,
            names@.map_values(|s: String| s@) == kernel_names(),
            forall|k: int| 0 <= k < i ==> kernel_names()[k] != name@,
        decreases KERNEL_COUNT - i,
    {
        assert(names@.map_values(|s: String| s@)[i as int] == names@[i as int]@);
        if names[i] == wanted {
            return Some(i);
        }
        i += 1;
    }
    None
}

} // verus!
