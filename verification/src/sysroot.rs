//! Choosing the Rust sysroot a compiler-driver build bakes in: the
//! rustup (or multirust) toolchain directory when those are known at
//! build time, else an explicitly given sysroot.  The caller reads
//! the six build-time environment values and hands them in.

use vstd::prelude::*;

use vstd::string::StringExecFns;

verus! {

/// The first of two optional values, as `Option::or` picks it.
pub open spec fn first_of(a: Option<String>, b: Option<String>) -> Option<String> {
    if a is Some {
        a
    } else {
        b
    }
}

/// The sysroot to pass along: none while building inside the
/// compiler's own stages; the rustup toolchain path when a home and a
/// toolchain name are known; the explicit sysroot otherwise.
pub fn compile_time_sysroot(
    rustc_stage: Option<String>,
    rustup_home: Option<String>,
    multirust_home: Option<String>,
    rustup_toolchain: Option<String>,
    multirust_toolchain: Option<String>,
    rust_sysroot: Option<String>,
) -> (r: Option<String>)
    requires
        rustc_stage is None && !(first_of(rustup_home, multirust_home) is Some && first_of(
            rustup_toolchain,
            multirust_toolchain,
        ) is Some) ==> rust_sysroot is Some,
    ensures
        rustc_stage is Some <==> r is None,
        ({
            let home = first_of(rustup_home, multirust_home);
            let toolchain = first_of(rustup_toolchain, multirust_toolchain);
            rustc_stage is None ==> (r matches Some(path) && (if home is Some && toolchain is Some {
                path@ == home->Some_0@ + "/toolchains/"@ + toolchain->Some_0@
            } else {
                path@ == rust_sysroot->Some_0@
            }))
        }),
{
    if rustc_stage.is_some() {
        return None;
    }
    let home = match rustup_home {
        Some(h) => Some(h),
        None => multirust_home,
    };
    let toolchain = match rustup_toolchain {
        Some(t) => Some(t),
        None => multirust_toolchain,
    };
    match (home, toolchain) {
        (Some(h), Some(t)) => {
            let mut path = h;
            path.append("/toolchains/");
            path.append(t.as_str());
            Some(path)
        },
        _ => {
            match rust_sysroot {
                Some(s) => Some(s),
                None => None,
            }
        },
    }
}

} // verus!
