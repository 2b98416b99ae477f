//! The `rules` override parser: turns the entries of the `rules` object into
//! normalized override entries of (category, name, severity, optional
//! rule-specific config). The first malformed entry fails the whole parse.

use vstd::prelude::*;

use crate::errors::{ConfigError, ErrorModel};
use crate::json::{doc_get, json_get, obj_model, opt_model, JsonModel, JsonValue};
use crate::keys::{key_category, key_name, parse_rule_name};
use crate::text::str_eq;
use crate::Severity;

verus! {

/// The model of one override entry.
pub type EntryModel = (Seq<char>, Seq<char>, Severity, Option<JsonModel>);

/// One parsed `rules` entry: normalized identifier, severity and optional
/// rule-specific config value.
#[derive(Debug)]
pub struct OverrideEntry {
    pub category: String,
    pub name: String,
    pub severity: Severity,
    pub config: Option<JsonValue>,
}

impl View for OverrideEntry {
    type V = EntryModel;

    open spec fn view(&self) -> EntryModel {
        (self.category@, self.name@, self.severity, opt_model(self.config))
    }
}

/// The models of a list of override entries.
pub open spec fn entries_model(v: Seq<OverrideEntry>) -> Seq<EntryModel> {
    v.map_values(|e: OverrideEntry| e@)
}

/// The fixed severity vocabulary.
pub open spec fn severity_token(s: Seq<char>) -> Option<Severity> {
    if s == "off"@ {
        Option::Some(Severity::Off)
    } else if s == "warn"@ {
        Option::Some(Severity::Warn)
    } else if s == "error"@ {
        Option::Some(Severity::Error)
    } else {
        Option::None
    }
}

/// Outcome of parsing a severity from a document value: only a string from
/// the fixed vocabulary succeeds; anything else fails with the raw value.
pub open spec fn severity_outcome(m: JsonModel) -> Result<Severity, ErrorModel> {
    match m {
        JsonModel::Str(s) => match severity_token(s) {
            Option::Some(sev) => Result::Ok(sev),
            Option::None => Result::Err(ErrorModel::InvalidSeverity(m)),
        },
        _ => Result::Err(ErrorModel::InvalidSeverity(m)),
    }
}

fn severity_token_of(s: &str) -> (r: Option<Severity>)
    ensures
        r == severity_token(s@),
{
    if str_eq(s, "off") {
        Some(Severity::Off)
    } else if str_eq(s, "warn") {
        Some(Severity::Warn)
    } else if str_eq(s, "error") {
        Some(Severity::Error)
    } else {
        None
    }
}

/// Parses a severity value, as `severity_outcome` describes.
pub fn parse_severity(value: &JsonValue) -> (r: Result<Severity, ConfigError>)
    ensures
        severity_outcome(value@) matches Ok(sev) ==> (r matches Ok(s) && s == sev),
        severity_outcome(value@) matches Err(e) ==> (r matches Err(re) && re@ == e),
{
    match value {
        JsonValue::Str(s) => match severity_token_of(s.as_str()) {
            Some(sev) => Ok(sev),
            None => Err(ConfigError::InvalidSeverity(value.clone())),
        },
        _ => Err(ConfigError::InvalidSeverity(value.clone())),
    }
}

/// Outcome of parsing a `rules` entry's value: a severity string gives
/// (severity, nothing); a non-empty array gives the severity of its first
/// element and its second element, when there is one, as the config;
/// anything else fails with the raw value.
pub open spec fn rule_value_outcome(m: JsonModel) -> Result<
    (Severity, Option<JsonModel>),
    ErrorModel,
> {
    match m {
        JsonModel::Str(_) => match severity_outcome(m) {
            Result::Ok(sev) => Result::Ok((sev, Option::None)),
            Result::Err(e) => Result::Err(e),
        },
        JsonModel::Arr(items) => if items.len() > 0 {
            match severity_outcome(items[0]) {
                Result::Ok(sev) => Result::Ok(
                    (
                        sev,
                        if items.len() >= 2 {
                            Option::Some(items[1])
                        } else {
                            Option::None
                        },
                    ),
                ),
                Result::Err(e) => Result::Err(e),
            }
        } else {
            Result::Err(ErrorModel::InvalidRuleValue(m))
        },
        _ => Result::Err(ErrorModel::InvalidRuleValue(m)),
    }
}

/// Parses a `rules` entry's value, as `rule_value_outcome` describes.
pub fn resolve_rule_value(value: &JsonValue) -> (r: Result<
    (Severity, Option<JsonValue>),
    ConfigError,
>)
    ensures
        rule_value_outcome(value@) matches Ok(p) ==> (r matches Ok(q) && q.0 == p.0 && opt_model(
            q.1,
        ) == p.1),
        rule_value_outcome(value@) matches Err(e) ==> (r matches Err(re) && re@ == e),
{
    match value {
        JsonValue::Str(s) => match severity_token_of(s.as_str()) {
            Some(sev) => Ok((sev, None)),
            None => Err(ConfigError::InvalidSeverity(value.clone())),
        },
        JsonValue::Arr(items) => {
            if items.len() > 0 {
                match parse_severity(&items[0]) {
                    Ok(sev) => {
                        let cfg: Option<JsonValue> = if items.len() >= 2 {
                            Some(items[1].clone())
                        } else {
                            None
                        };
                        Ok((sev, cfg))
                    },
                    Err(e) => Err(e),
                }
            } else {
                Err(ConfigError::InvalidRuleValue(value.clone()))
            }
        },
        _ => Err(ConfigError::InvalidRuleValue(value.clone())),
    }
}

/// Outcome of parsing the fields of the `rules` object, in order; the first
/// malformed entry's failure wins.
pub open spec fn rules_entries(fields: Seq<(Seq<char>, JsonModel)>) -> Result<
    Seq<EntryModel>,
    ErrorModel,
>
    decreases fields.len(),
{
    if fields.len() == 0 {
        Result::Ok(Seq::empty())
    } else {
        match rules_entries(fields.drop_last()) {
            Result::Err(e) => Result::Err(e),
            Result::Ok(rest) => match rule_value_outcome(fields.last().1) {
                Result::Ok(p) => Result::Ok(
                    rest.push(
                        (key_category(fields.last().0), key_name(fields.last().0), p.0, p.1),
                    ),
                ),
                Result::Err(e) => Result::Err(e),
            },
        }
    }
}

/// A failure among the first entries decides the whole parse.
proof fn lemma_rules_entries_err(fields: Seq<(Seq<char>, JsonModel)>, j: int)
    requires
        0 <= j <= fields.len(),
        rules_entries(fields.take(j)) is Err,
    ensures
        rules_entries(fields) == rules_entries(fields.take(j)),
    decreases fields.len() - j,
{
    if j == fields.len() {
        assert(fields.take(j) =~= fields);
    } else {
        assert(fields.take(j + 1).drop_last() =~= fields.take(j));
        lemma_rules_entries_err(fields, j + 1);
    }
}

/// Outcome of reading the `rules` property: absent, or not an object, gives
/// no overrides; an object is parsed entry by entry.
pub open spec fn rules_outcome(doc: JsonModel) -> Result<Seq<EntryModel>, ErrorModel> {
    match doc_get(doc, "rules"@) {
        Option::Some(m) => match m {
            JsonModel::Obj(fields) => rules_entries(fields),
            _ => Result::Ok(Seq::empty()),
        },
        Option::None => Result::Ok(Seq::empty()),
    }
}

/// Reads the `rules` property, as `rules_outcome` describes.
#[verifier::loop_isolation(false)]
pub fn parse_rules(doc: &JsonValue) -> (r: Result<Vec<OverrideEntry>, ConfigError>)
    ensures
        rules_outcome(doc@) matches Ok(es) ==> (r matches Ok(v) && entries_model(v@) == es),
        rules_outcome(doc@) matches Err(e) ==> (r matches Err(re) && re@ == e),
{
    proof {
        assert(entries_model(Seq::<OverrideEntry>::empty()) =~= Seq::<EntryModel>::empty());
    }
    match json_get(doc, "rules") {
        Option::Some(rv) => match rv {
            JsonValue::Obj(fields) => {
                let ghost mfields = obj_model(fields@);
                proof {
                    assert(rv@ == JsonModel::Obj(mfields));
                    assert(mfields.take(0) =~= Seq::<(Seq<char>, JsonModel)>::empty());
                }
                let n = fields.len();
                let mut out: Vec<OverrideEntry> = Vec::new();
                let mut i: usize = 0;
                while i < n
                    invariant
                        i <= n,
                        rules_entries(mfields.take(i as int)) == Result::<
                            Seq<EntryModel>,
                            ErrorModel,
                        >::Ok(entries_model(out@)),
                    decreases n - i,
                {
                    proof {
                        assert(mfields.take(i + 1).drop_last() =~= mfields.take(i as int));
                        assert(mfields.take(i + 1).last() == mfields[i as int]);
                    }
                    let p = &fields[i];
                    let (category, rule) = parse_rule_name(p.0.as_str());
                    match resolve_rule_value(&p.1) {
                        Ok(sc) => {
                            let (sev, cfg) = sc;
                            let ghost out0 = out@;
                            let entry = OverrideEntry {
                                category,
                                name: rule,
                                severity: sev,
                                config: cfg,
                            };
                            let ghost em = entry@;
                            out.push(entry);
                            proof {
                                assert(entries_model(out@) =~= entries_model(out0).push(em));
                            }
                        },
                        Err(e) => {
                            proof {
                                lemma_rules_entries_err(mfields, i + 1);
                            }
                            return Err(e);
                        },
                    }
                    i = i + 1;
                }
                proof {
                    assert(mfields.take(n as int) =~= mfields);
                }
                Ok(out)
            },
            _ => Ok(Vec::new()),
        },
        Option::None => Ok(Vec::new()),
    }
}

} // verus!
