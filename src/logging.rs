//! The choice of the log filter: the operator's own where given, else a
//! default that depends on the kind of build.
use vstd::prelude::*;

verus! {

/// Relies on `String::push_str`: the text is appended.
#[verifier::external_body]
fn append(s: &mut String, t: &str)
    ensures
        final(s)@ == old(s)@ + t@,
{
    s.push_str(t)
}

/// The default filter: warnings everywhere, and this package's own events
/// from `debug` up in a debug build, from `info` up otherwise.
pub open spec fn default_directive(pkg: Seq<char>, debug_build: bool) -> Seq<char> {
    if debug_build {
        "warn,"@ + pkg + "=debug,tower_http=debug,axum::rejection=trace"@
    } else {
        "warn,"@ + pkg + "=info"@
    }
}

/// The filter directive that logging is set up with: the `RUST_LOG` value
/// where it is set, else the default for the package and the build.
pub fn setup_tracing(rust_log: Option<String>, pkg_name: &str, debug_build: bool) -> (r: String)
    ensures
        match rust_log {
            Some(v) => r@ == v@,
            None => r@ == default_directive(pkg_name@, debug_build),
        },
{
    match rust_log {
        Some(v) => v,
        None => {
            let mut s = "warn,".to_owned();
            append(&mut s, pkg_name);
            if debug_build {
                append(&mut s, "=debug,tower_http=debug,axum::rejection=trace");
            } else {
                append(&mut s, "=info");
            }
            s
        },
    }
}

} // verus!
