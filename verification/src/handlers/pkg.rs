//! What is done about language servers that are not installed.

use vstd::prelude::*;

use crate::text::{join, same_text};

verus! {

/// A server that is missing, under a configuration and a set of runtime files.
#[derive(Debug)]
pub struct MissingCapabilityKey {
    pub server: String,
    pub language: String,
    pub command: String,
    pub config_generation: u64,
    pub runtime_generation: u64,
}

/// What a [`MissingCapabilityKey`] says.
pub struct KeyView {
    pub server: Seq<char>,
    pub language: Seq<char>,
    pub command: Seq<char>,
    pub config_generation: u64,
    pub runtime_generation: u64,
}

impl View for MissingCapabilityKey {
    type V = KeyView;

    open spec fn view(&self) -> KeyView {
        KeyView {
            server: self.server@,
            language: self.language@,
            command: self.command@,
            config_generation: self.config_generation,
            runtime_generation: self.runtime_generation,
        }
    }
}

impl MissingCapabilityKey {
    pub fn same(&self, other: &Self) -> (r: bool)
        ensures
            r == (self@ == other@),
    {
        same_text(self.server.as_str(), other.server.as_str()) && same_text(
            self.language.as_str(),
            other.language.as_str(),
        ) && same_text(self.command.as_str(), other.command.as_str()) && self.config_generation
            == other.config_generation && self.runtime_generation == other.runtime_generation
    }

    /// A key that says the same.
    pub fn copy(&self) -> (r: Self)
        ensures
            r@ == self@,
    {
        MissingCapabilityKey {
            server: self.server.clone(),
            language: self.language.clone(),
            command: self.command.clone(),
            config_generation: self.config_generation,
            runtime_generation: self.runtime_generation,
        }
    }
}

pub open spec fn key_views(keys: Seq<MissingCapabilityKey>) -> Seq<KeyView> {
    keys.map_values(|key: MissingCapabilityKey| key@)
}

/// The missing servers that something was done about.
#[derive(Debug)]
pub struct PkgHandler {
    pub handled_missing: Vec<MissingCapabilityKey>,
}

impl PkgHandler {
    pub open spec fn handled(self, key: KeyView) -> bool {
        key_views(self.handled_missing@).contains(key)
    }

    pub fn new() -> (r: PkgHandler)
        ensures
            forall|key: KeyView| !#[trigger] r.handled(key),
    {
        PkgHandler { handled_missing: Vec::new() }
    }

    /// Notes a missing server; whether it is new. The same server is not handled again until the
    /// configuration or the runtime files are others.
    pub fn insert(&mut self, key: MissingCapabilityKey) -> (fresh: bool)
        ensures
            fresh == !old(self).handled(key@),
            forall|other: KeyView| #[trigger]
                final(self).handled(other) <==> old(self).handled(other) || other == key@,
    {
        let ghost before = self.handled_missing@;
        let mut i: usize = 0;
        while i < self.handled_missing.len()
            invariant
                i <= self.handled_missing@.len(),
                self.handled_missing@ == before,
                before == old(self).handled_missing@,
                forall|j: int| 0 <= j < i ==> (#[trigger] self.handled_missing@[j])@ != key@,
            decreases self.handled_missing@.len() - i,
        {
            if self.handled_missing[i].same(&key) {
                assert(key_views(before)[i as int] == key@);
                assert(old(self).handled(key@));
                return false;
            }
            i += 1;
        }
        self.handled_missing.push(key);
        proof {
            assert(key_views(self.handled_missing@) =~= key_views(before).push(key@));
            assert forall|other: KeyView| #[trigger] self.handled(other) <==> old(self).handled(
                other,
            ) || other == key@ by {
                let views = key_views(before);
                let all = views.push(key@);
                if all.contains(other) {
                    let k = all.index_of(other);
                    if k < views.len() {
                        assert(views[k] == other);
                    }
                }
                if views.contains(other) {
                    let k = views.index_of(other);
                    assert(all[k] == other);
                }
                if other == key@ {
                    assert(all[views.len() as int] == other);
                }
            }
            if old(self).handled(key@) {
                let k = key_views(before).index_of(key@);
                assert(before[k]@ == key@);
            }
        }
        true
    }
}

/// What is known about a package for a missing server.
#[derive(Debug)]
pub struct CapabilityStatus {
    /// Whether the server can be had as it is.
    pub usable: bool,
    /// The package that brings it.
    pub package: Option<String>,
}

/// A missing server, and the documents that miss it.
#[derive(Debug)]
pub struct MissingServer {
    pub documents: Vec<u64>,
    pub server: String,
    pub command: String,
}

/// What is done about a missing server.
#[derive(Debug)]
pub enum MissingServerStep {
    Nothing,
    /// The documents get their servers anew.
    Refresh { documents: Vec<u64> },
    /// The package is installed, for the server.
    Install { package: String, missing: MissingServer },
    /// Somebody is told how to install it.
    Suggest { command: String, package: String },
}

impl MissingServerStep {
    /// How the suggestion is worded.
    pub fn suggestion(command: &str, package: &str) -> (r: String)
        ensures
            r@ == command@ + " not installed - :pkg-install "@ + package@,
    {
        let mut text = join(command, " not installed - :pkg-install ");
        text.append(package);
        text
    }
}

/// What is done about a missing server that is new, once it was looked up (`status` is none if
/// that failed).
pub fn resolve_missing_server(
    status: Option<CapabilityStatus>,
    auto_install: bool,
    missing: MissingServer,
) -> (r: MissingServerStep)
    ensures
        r == match status {
            None => MissingServerStep::Nothing,
            Some(status) => if status.usable {
                MissingServerStep::Refresh { documents: missing.documents }
            } else {
                match status.package {
                    None => MissingServerStep::Nothing,
                    Some(package) => if auto_install {
                        MissingServerStep::Install { package, missing }
                    } else {
                        MissingServerStep::Suggest { command: missing.command, package }
                    },
                }
            },
        },
{
    match status {
        None => MissingServerStep::Nothing,
        Some(status) => if status.usable {
            MissingServerStep::Refresh { documents: missing.documents }
        } else {
            match status.package {
                None => MissingServerStep::Nothing,
                Some(package) => if auto_install {
                    MissingServerStep::Install { package, missing }
                } else {
                    MissingServerStep::Suggest { command: missing.command, package }
                },
            }
        },
    }
}

} // verus!
