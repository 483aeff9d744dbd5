//! The proxy's configuration: sockets, helper commands, logging switches and
//! the filter policy.
use vstd::prelude::*;

verus! {

/// Socket paths; relative ones are taken under the runtime directory.
#[derive(Debug)]
pub struct WlSockets {
    pub listen: String,
    pub upstream: String,
}

/// Logging switches.
#[derive(Debug)]
pub struct WlLogging {
    pub log_all_requests: bool,
    pub log_all_events: bool,
    pub log_level: Option<String>,
}

/// Helper commands run for `ask` and `notify` rules.
#[derive(Debug)]
pub struct WlExec {
    pub ask_cmd: Option<String>,
    pub notify_cmd: Option<String>,
}

/// What a rule does with a matching request.
#[derive(Clone, Copy, Debug, PartialEq, Eq, Structural)]
pub enum WlFilterRequestAction {
    /// Always block.
    Block,
    /// Run the ask command; block unless it succeeds.
    Ask,
    /// Run the notify command and let the request through.
    Notify,
}

/// How a blocked request is answered.
#[derive(Clone, Copy, Debug, PartialEq, Eq, Structural)]
pub enum WlFilterRequestBlockType {
    /// Drop it silently.
    Ignore,
    /// Drop it and send the client a protocol error.
    Reject,
}

impl Default for WlFilterRequestBlockType {
    fn default() -> (r: Self)
        ensures
            r == WlFilterRequestBlockType::Ignore,
    {
        WlFilterRequestBlockType::Ignore
    }
}

/// A rule on requests of one interface.
#[derive(Debug)]
pub struct WlFilterRequest {
    pub interface: String,
    /// Names of the requests the rule covers.
    pub requests: Vec<String>,
    pub action: WlFilterRequestAction,
    pub desc: Option<String>,
    pub block_type: WlFilterRequestBlockType,
    /// Error code sent with a rejection.
    pub error_code: u32,
}

/// The filter policy.
#[derive(Debug)]
pub struct WlFilter {
    /// Interfaces whose globals are advertised to the client.
    pub allowed_globals: Vec<String>,
    /// Rules on requests, in the order they were written.
    pub requests: Vec<WlFilterRequest>,
    /// Log what would be blocked, but let everything through.
    pub dry_run: bool,
}

/// The whole configuration.
#[derive(Debug)]
pub struct Config {
    pub socket: WlSockets,
    /// Helper commands (the `exec` table of the configuration file).
    pub helpers: WlExec,
    pub logging: WlLogging,
    pub filter: WlFilter,
}

/// Whether `names` holds `name`.
pub open spec fn names_contain(names: Seq<String>, name: Seq<char>) -> bool {
    exists|i: int| 0 <= i < names.len() && (#[trigger] names[i])@ == name
}

/// Whether `rule` covers request `name` of interface `interface`.
pub open spec fn rule_matches(rule: WlFilterRequest, interface: Seq<char>, name: Seq<char>) -> bool {
    rule.interface@ == interface && names_contain(rule.requests@, name)
}

/// The position of the first rule covering request `name` of `interface`.
pub open spec fn first_rule(rules: Seq<WlFilterRequest>, interface: Seq<char>, name: Seq<char>) -> Option<
    int,
> {
    if exists|i: int|
        0 <= i < rules.len() && rule_matches(#[trigger] rules[i], interface, name) && forall|j: int|
            0 <= j < i ==> !rule_matches(#[trigger] rules[j], interface, name) {
        Some(
            choose|i: int|
                0 <= i < rules.len() && rule_matches(rules[i], interface, name) && forall|j: int|
                    0 <= j < i ==> !rule_matches(#[trigger] rules[j], interface, name),
        )
    } else {
        None
    }
}

/// Whether `names` holds `name`.
pub fn contains_name(names: &Vec<String>, name: &String) -> (r: bool)
    ensures
        r == names_contain(names@, name@),
{
    let mut i: usize = 0;
    while i < names.len()
        invariant
            i <= names@.len(),
            forall|j: int| 0 <= j < i ==> (#[trigger] names@[j])@ != name@,
        decreases names@.len() - i,
    {
        if names[i] == *name {
            return true;
        }
        i = i + 1;
    }
    false
}

impl WlFilter {
    /// Whether globals of `interface` may be advertised.
    pub fn is_global_allowed(&self, interface: &String) -> (r: bool)
        ensures
            r == names_contain(self.allowed_globals@, interface@),
    {
        contains_name(&self.allowed_globals, interface)
    }

    /// The first rule covering request `name` of `interface`.
    pub fn find_rule(&self, interface: &String, name: &String) -> (r: Option<&WlFilterRequest>)
        ensures
            match first_rule(self.requests@, interface@, name@) {
                Some(i) => r == Some(&self.requests@[i]),
                None => r is None,
            },
    {
        let mut i: usize = 0;
        while i < self.requests.len()
            invariant
                i <= self.requests@.len(),
                forall|j: int|
                    0 <= j < i ==> !rule_matches(#[trigger] self.requests@[j], interface@, name@),
            decreases self.requests@.len() - i,
        {
            let rule = &self.requests[i];
            if rule.interface == *interface && contains_name(&rule.requests, name) {
                proof {
                    let k = first_rule(self.requests@, interface@, name@)->0;
                    assert(rule_matches(self.requests@[i as int], interface@, name@));
                    assert(!(k < i));
                    assert(!(k > i));
                }
                return Some(rule);
            }
            i = i + 1;
        }
        None
    }
}

} // verus!
