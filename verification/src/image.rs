//! Where the compiled probe images are found.
use vstd::prelude::*;

verus! {

/// The probe image that instruments the allocation functions: its place
/// below the build's output directory.
pub fn malloc_probe_code() -> (path: &'static str)
    ensures
        path@ == "target/bpf/programs/malloc/malloc.elf"@,
{
    "target/bpf/programs/malloc/malloc.elf"
}

/// The probe image that instruments the allocation system calls: its
/// place below the build's output directory.
pub fn sysalloc_probe_code() -> (path: &'static str)
    ensures
        path@ == "target/bpf/programs/sysalloc/sysalloc.elf"@,
{
    "target/bpf/programs/sysalloc/sysalloc.elf"
}

} // verus!
