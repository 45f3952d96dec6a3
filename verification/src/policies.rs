//! Policy descriptors and their settings.
//!
//! A policy is identified by a user-chosen string key and carries the URL
//! its module is fetched from, an evaluation mode, a mutation-allowed flag,
//! an opaque structured settings document handed verbatim to the sandbox,
//! and the set of context-aware resource kinds it may query.

use vstd::prelude::*;

verus! {

/// How a policy's verdict is enforced.
#[derive(Debug, Clone, Copy, PartialEq, Eq, Structural)]
pub enum PolicyMode {
    /// Rejections are enforced.
    Protect,
    /// Rejections are only reported.
    Monitor,
}

/// A settings document: a mapping from string keys to opaque serialised
/// values, passed verbatim to the sandbox at instantiation.
#[derive(Debug)]
pub struct SettingsMap {
    /// The document's entries, in configuration order.
    pub entries: Vec<(String, Vec<u8>)>,
}

impl SettingsMap {
    /// The mathematical document: the sequence of key/value pairs.
    pub open spec fn doc(&self) -> Seq<(Seq<char>, Seq<u8>)> {
        Seq::new(self.entries@.len(), |i: int| (self.entries@[i].0@, self.entries@[i].1@))
    }

    /// An empty settings document.
    pub fn new() -> (r: SettingsMap)
        ensures
            r.doc().len() == 0,
    {
        SettingsMap { entries: Vec::new() }
    }

    /// True when the document has no keys.
    pub fn is_empty(&self) -> (r: bool)
        ensures
            r == (self.doc().len() == 0),
    {
        self.entries.len() == 0
    }

    /// How many keys the document has.
    pub fn len(&self) -> (r: usize)
        ensures
            r == self.doc().len(),
    {
        self.entries.len()
    }
}

impl Clone for SettingsMap {
    /// A copy holding the same document.
    fn clone(&self) -> (r: Self)
        ensures
            r.doc() == self.doc(),
    {
        let mut entries: Vec<(String, Vec<u8>)> = Vec::new();
        let mut i: usize = 0;
        while i < self.entries.len()
            invariant
                i <= self.entries@.len(),
                entries@.len() == i,
                forall|j: int|
                    0 <= j < i ==> entries@[j].0@ == self.entries@[j].0@ && entries@[j].1@
                        == self.entries@[j].1@,
            decreases self.entries@.len() - i,
        {
            let pair = &self.entries[i];
            entries.push((pair.0.clone(), pair.1.clone()));
            i = i + 1;
        }
        let r = SettingsMap { entries };
        proof {
            assert(r.doc() =~= self.doc());
        }
        r
    }
}

/// A policy descriptor, as read from the policy configuration.
#[derive(Debug, Clone)]
pub struct Policy {
    /// Where the module is fetched from (`file://`, `http(s)://`, `registry://`).
    pub url: String,
    /// Local filesystem path of the fetched module, filled at bootstrap.
    pub wasm_module_path: String,
    /// How verdicts are enforced.
    pub policy_mode: PolicyMode,
    /// Whether the policy may return a mutation patch.
    pub allowed_to_mutate: bool,
    /// The settings document, if the configuration provides one.
    pub settings: Option<SettingsMap>,
    /// Context-aware resource kinds this policy may query.
    pub context_aware_resources: Vec<String>,
}

impl Policy {
    /// The settings handed to the sandbox: the configured document, or an
    /// empty one when the configuration carries none.
    pub fn settings(&self) -> (r: SettingsMap)
        ensures
            match self.settings {
                Some(m) => r.doc() == m.doc(),
                None => r.doc().len() == 0,
            },
    {
        match &self.settings {
            Some(m) => m.clone(),
            None => SettingsMap::new(),
        }
    }
}

} // verus!
