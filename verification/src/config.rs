//! The configuration snapshot: user rules and ignore lists, with the
//! validation the loader applies before a run. Reading and parsing the
//! configuration file happen outside the library; the types here carry plain
//! values only.

use vstd::prelude::*;

use crate::strutil::{
    chars_eq_str, chars_to_string, dec_chars, push_decimal, push_str_chars, str_to_chars,
    trim_chars, trim_spec,
};

verus! {

/// The mathematical content of a user rule.
pub struct UserRuleModel {
    pub pattern: Seq<char>,
    pub replacement: Option<Seq<char>>,
    pub severity: Option<Seq<char>>,
    pub message: Option<Seq<char>>,
    pub enabled: bool,
}

/// A user-supplied text rule from the configuration file.
pub struct UserRule {
    pub pattern: String,
    pub replacement: Option<String>,
    pub severity: Option<String>,
    pub message: Option<String>,
    pub enabled: bool,
}

impl View for UserRule {
    type V = UserRuleModel;

    open spec fn view(&self) -> UserRuleModel {
        UserRuleModel {
            pattern: self.pattern@,
            replacement: match self.replacement {
                Option::Some(s) => Option::Some(s@),
                Option::None => Option::None,
            },
            severity: match self.severity {
                Option::Some(s) => Option::Some(s@),
                Option::None => Option::None,
            },
            message: match self.message {
                Option::Some(s) => Option::Some(s@),
                Option::None => Option::None,
            },
            enabled: self.enabled,
        }
    }
}

/// The models of a user-rule list.
pub open spec fn user_rule_models(rs: Seq<UserRule>) -> Seq<UserRuleModel> {
    rs.map_values(|r: UserRule| r@)
}

/// Ignore lists: words whose findings are discarded, and file globs the
/// caller may use to skip files entirely (not consumed here).
pub struct IgnoreConfig {
    pub words: Vec<String>,
    pub files: Vec<String>,
}

impl Default for IgnoreConfig {
    /// An empty ignore configuration.
    fn default() -> (r: IgnoreConfig)
        ensures
            r.words@.len() == 0,
            r.files@.len() == 0,
    {
        IgnoreConfig { words: Vec::new(), files: Vec::new() }
    }
}

/// An immutable configuration snapshot for a single run.
pub struct Config {
    pub version: u32,
    pub rules: Vec<UserRule>,
    pub ignore: IgnoreConfig,
}

// ---------------------------------------------------------------------------
// Validation
// ---------------------------------------------------------------------------

/// Is `s` one of the four severity spellings?
pub open spec fn known_severity(s: Seq<char>) -> bool {
    s == "critical"@ || s == "high"@ || s == "medium"@ || s == "low"@
}

/// The error message a rule fails validation with, if any: an empty or
/// whitespace-only pattern is rejected, then an unknown severity spelling.
pub open spec fn rule_error(r: UserRuleModel) -> Option<Seq<char>> {
    if r.pattern.len() == 0 || trim_spec(r.pattern).len() == 0 {
        Option::Some("rule pattern cannot be empty"@)
    } else {
        match r.severity {
            Option::Some(s) => if known_severity(s) {
                Option::None
            } else {
                Option::Some("unknown severity '"@ + s + "'; valid: critical, high, medium, low"@)
            },
            Option::None => Option::None,
        }
    }
}

/// The first rule error among `rs[i..]`, if any.
pub open spec fn rules_error(rs: Seq<UserRuleModel>, i: int) -> Option<Seq<char>>
    decreases rs.len() - i,
{
    if i < 0 || i >= rs.len() {
        Option::None
    } else {
        match rule_error(rs[i]) {
            Option::Some(m) => Option::Some(m),
            Option::None => rules_error(rs, i + 1),
        }
    }
}

/// The validation outcome: only version 1 is supported, and every rule must
/// pass `rule_error`.
pub open spec fn validate_spec(version: u32, rs: Seq<UserRuleModel>) -> Option<Seq<char>> {
    if version != 1 {
        Option::Some("unsupported version "@ + dec_chars(version as int))
    } else {
        rules_error(rs, 0)
    }
}

impl Config {
    /// Check the snapshot: `Ok` exactly when the version is 1, no rule has an
    /// empty or whitespace-only pattern, and every declared severity is one
    /// of `critical`, `high`, `medium`, `low`. On failure the message names
    /// the first violation.
    pub fn validate(&self) -> (r: Result<(), String>)
        ensures
            match r {
                Result::Ok(()) => validate_spec(self.version, user_rule_models(self.rules@))
                    is None,
                Result::Err(m) => validate_spec(self.version, user_rule_models(self.rules@))
                    == Option::Some(m@),
            },
    {
        if self.version != 1 {
            let mut msg: Vec<char> = Vec::new();
            push_str_chars("unsupported version ", &mut msg);
            push_decimal(self.version as usize, &mut msg);
            return Result::Err(chars_to_string(&msg));
        }
        let ghost rms = user_rule_models(self.rules@);
        let mut i: usize = 0;
        while i < self.rules.len()
            invariant
                self.version == 1,
                rms == user_rule_models(self.rules@),
                i <= self.rules@.len(),
                rules_error(rms, 0) == rules_error(rms, i as int),
            decreases self.rules@.len() - i,
        {
            let rule = &self.rules[i];
            let pv = str_to_chars(rule.pattern.as_str());
            let tv = trim_chars(&pv);
            if pv.len() == 0 || tv.len() == 0 {
                let mut msg: Vec<char> = Vec::new();
                push_str_chars("rule pattern cannot be empty", &mut msg);
                proof {
                    assert(msg@ =~= "rule pattern cannot be empty"@);
                    assert(rms[i as int] == self.rules@[i as int]@);
                    assert(rule_error(rms[i as int]) == Option::Some(
                        "rule pattern cannot be empty"@,
                    ));
                    assert(rules_error(rms, i as int) == Option::Some(
                        "rule pattern cannot be empty"@,
                    ));
                    assert(validate_spec(self.version, user_rule_models(self.rules@))
                        == Option::Some(msg@));
                }
                return Result::Err(chars_to_string(&msg));
            }
            match &rule.severity {
                Option::Some(s) => {
                    let sv = str_to_chars(s.as_str());
                    let known = chars_eq_str(&sv, "critical") || chars_eq_str(&sv, "high")
                        || chars_eq_str(&sv, "medium") || chars_eq_str(&sv, "low");
                    if !known {
                        let mut msg: Vec<char> = Vec::new();
                        push_str_chars("unknown severity '", &mut msg);
                        crate::strutil::push_all(&sv, &mut msg);
                        push_str_chars("'; valid: critical, high, medium, low", &mut msg);
                        proof {
                            let expected = "unknown severity '"@ + sv@
                                + "'; valid: critical, high, medium, low"@;
                            assert(msg@ =~= expected);
                            assert(rms[i as int] == self.rules@[i as int]@);
                            assert(rule_error(rms[i as int]) == Option::Some(expected));
                            assert(rules_error(rms, i as int) == Option::Some(expected));
                            assert(validate_spec(self.version, user_rule_models(self.rules@))
                                == Option::Some(msg@));
                        }
                        return Result::Err(chars_to_string(&msg));
                    }
                },
                Option::None => {},
            }
            proof {
                assert(rule_error(rms[i as int]) is None);
            }
            i += 1;
        }
        proof {
            assert(rules_error(rms, self.rules@.len() as int) is None);
        }
        Result::Ok(())
    }
}

} // verus!
