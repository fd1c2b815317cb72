//! Routing-rule data: a rule matches facts about a link and names the
//! browser, profile and URL to act with.  The rules engine itself is not
//! part of this crate yet; these are its value types.

use vstd::prelude::*;

verus! {

/// One condition a rule tests: a fact, an operator and a value.
#[derive(Debug)]
pub struct Condition {
    pub fact: String,
    pub operator: String,
    pub value: String,
}

impl Clone for Condition {
    fn clone(&self) -> (r: Self)
        ensures
            r.fact@ == self.fact@,
            r.operator@ == self.operator@,
            r.value@ == self.value@,
    {
        Condition {
            fact: self.fact.clone(),
            operator: self.operator.clone(),
            value: self.value.clone(),
        }
    }
}

/// What a matched rule does: open `url` with `browser` under `profile`.
#[derive(Debug)]
pub struct Action {
    pub profile: String,
    pub browser: String,
    pub url: String,
}

impl Clone for Action {
    fn clone(&self) -> (r: Self)
        ensures
            r.profile@ == self.profile@,
            r.browser@ == self.browser@,
            r.url@ == self.url@,
    {
        Action {
            profile: self.profile.clone(),
            browser: self.browser.clone(),
            url: self.url.clone(),
        }
    }
}

/// A prioritized routing rule.
#[derive(Debug)]
pub struct Rule {
    pub id: String,
    pub rule_name: String,
    pub priority: i32,
    pub conditions: Vec<Condition>,
    pub action: Action,
    pub enabled: bool,
}

} // verus!
