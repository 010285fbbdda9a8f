//! Source text of the kernel, in WGSL, for each element kind.
use vstd::prelude::*;
use vstd::string::StringExecFns;

use crate::kind::DeorrType;

verus! {

/// Text before the element type of the input array.
pub const KERNEL_HEAD: &'static str = "@group(0) @binding(0) var<storage, read> input_data: array<";

/// Text between the element types of the input and output arrays.
pub const KERNEL_MID: &'static str = ">;\n@group(0) @binding(1) var<storage, read_write> output_data: array<";

/// Text after the element type of the output array: the length binding and
/// the body run by each lane.
pub const KERNEL_TAIL: &'static str = ">;
@group(0) @binding(2) var<storage, read> length_data: u32;

@compute @workgroup_size(64)
fn main(@builtin(global_invocation_id) id: vec3u) {
    let i = id.x;
    if (i >= length_data) {
        return;
    }
    let v = input_data[i];
    var rank = 0u;
    for (var j = 0u; j < length_data; j++) {
        if (input_data[j] == v && j < i) {
            rank += 1u;
        }
        if (input_data[j] < v) {
            rank += 1u;
        }
    }
    output_data[rank] = v;
}
";

/// Name of the kernel's entry point.
pub const KERNEL_ENTRY: &'static str = "main";

/// The kernel source for elements of `kind`: the fixed text with the kind's
/// type token in both array declarations.
pub open spec fn kernel_text(kind: DeorrType) -> Seq<char> {
    KERNEL_HEAD@ + kind.spec_name() + KERNEL_MID@ + kind.spec_name() + KERNEL_TAIL@
}

/// Builds the kernel source for elements of `kind`.
pub fn kernel_source(kind: DeorrType) -> (r: String)
    ensures
        r@ == kernel_text(kind),
{
    let mut r = String::from_str(KERNEL_HEAD);
    r.append(kind.name());
    r.append(KERNEL_MID);
    r.append(kind.name());
    r.append(KERNEL_TAIL);
    r
}

} // verus!
