//! The handle on one inventory service.

use vstd::prelude::*;
use crate::text::copy_ids;
use vstd::slice::slice_to_vec;

verus! {

/// Where one inventory service is reached, and the certificate by which it is
/// known.
#[derive(Clone, Debug)]
pub struct Ochami {
    base_url: String,
    root_cert: Vec<u8>,
}

/// What an [`Ochami`] holds, as plain values.
pub struct OchamiView {
    pub base_url: Seq<char>,
    pub root_cert: Seq<u8>,
}

impl View for Ochami {
    type V = OchamiView;

    closed spec fn view(&self) -> OchamiView {
        OchamiView { base_url: self.base_url@, root_cert: self.root_cert@ }
    }
}

impl Ochami {
    /// The handle on the service at `base_url`, known by `root_cert`.
    pub fn new(base_url: &str, root_cert: &[u8]) -> (backend: Self)
        ensures
            backend@ == (OchamiView { base_url: base_url@, root_cert: root_cert@ }),
    {
        Self { base_url: base_url.to_owned(), root_cert: slice_to_vec(root_cert) }
    }

    /// The address under which the service is reached.
    pub fn base_url(&self) -> (base_url: &str)
        ensures
            base_url@ == self@.base_url,
    {
        self.base_url.as_str()
    }

    /// The certificate by which the service is known.
    pub fn root_cert(&self) -> (root_cert: &[u8])
        ensures
            root_cert@ == self@.root_cert,
    {
        self.root_cert.as_slice()
    }
}

/// The name of the power transition that switches nodes on.
pub fn power_on_operation() -> (operation: &'static str)
    ensures
        operation@ == "on"@,
{
    "on"
}

/// The name of the power transition that switches nodes off, by force or
/// softly.
pub fn power_off_operation(force: bool) -> (operation: &'static str)
    ensures
        operation@ == if force {
            "force-off"@
        } else {
            "soft-off"@
        },
{
    if force {
        "force-off"
    } else {
        "soft-off"
    }
}

/// The name of the power transition that restarts nodes, by force or softly.
pub fn power_reset_operation(force: bool) -> (operation: &'static str)
    ensures
        operation@ == if force {
            "hard-restart"@
        } else {
            "soft-restart"@
        },
{
    if force {
        "hard-restart"
    } else {
        "soft-restart"
    }
}

/// The hosts to which a query for boot parameters is held: no restriction
/// where none is named.
pub fn boot_parameter_hosts(hosts: &Vec<String>) -> (named: Option<Vec<String>>)
    ensures
        hosts.len() == 0 ==> named is None,
        hosts.len() > 0 ==> named is Some && named->0.deep_view() == hosts.deep_view(),
{
    if hosts.len() == 0 {
        None
    } else {
        Some(copy_ids(hosts))
    }
}

} // verus!
