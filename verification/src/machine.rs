//! What the machine says about itself and its user.
use vstd::prelude::*;

verus! {

/// `whoami::username`: the name of the user of this machine. Nothing is claimed of
/// what the machine answers.
#[verifier::external_body]
pub(crate) fn machine_username() -> (r: String) {
    whoami::username()
}

/// `hostname::get`: the name of this machine, or `None` where it has none. What is
/// no Unicode in it is replaced. Nothing is claimed of what the machine answers.
#[verifier::external_body]
pub(crate) fn machine_hostname() -> (r: Option<String>) {
    match hostname::get() {
        Ok(name) => Some(name.to_string_lossy().into_owned()),
        Err(_) => None,
    }
}

/// `sys_locale::get_locale`: the locale of the machine, or `None` where it states
/// none. Nothing is claimed of what the machine answers.
#[verifier::external_body]
pub(crate) fn system_locale() -> (r: Option<String>) {
    sys_locale::get_locale()
}

/// The name of a machine, or nothing where it has none.
pub fn host_name_or_empty(name: Option<String>) -> (r: String)
    ensures
        r@ == match name {
            Some(name) => name@,
            None => Seq::empty(),
        },
{
    match name {
        Some(name) => name,
        None => {
            let empty = String::new();
            assert(empty@ =~= Seq::<char>::empty());
            empty
        },
    }
}

/// The name of this machine, or nothing where it has none.
pub fn own_host_name() -> (r: String) {
    host_name_or_empty(machine_hostname())
}

} // verus!
