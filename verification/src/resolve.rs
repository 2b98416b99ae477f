//! The resolution engine: combines the extends set and the override map
//! against the rule catalog.
//!
//! Presets are the default: a rule whose category a preset enables is active
//! unless an explicit `rules` entry overrides it. An explicit entry is
//! authoritative whenever present: its severity alone decides, so it can both
//! turn a preset rule off and turn a rule on that no preset enables. The
//! final set is handed out ordered by rule name.

use vstd::prelude::*;

use crate::errors::{ConfigError, ErrorModel};
use crate::json::{opt_model, JsonModel, JsonValue};
use crate::overrides::{entries_model, parse_rules, rules_outcome, EntryModel, OverrideEntry};
use crate::presets::{extends_outcome, parse_extends, strs_model};
use crate::text::{lemma_lex_le_total, lemma_lex_le_trans, lex_le, str_eq, str_le};
use crate::Severity;

verus! {

/// The model of a configured rule: category, name, optional config value.
pub type RuleModel = (Seq<char>, Seq<char>, Option<JsonModel>);

/// One rule descriptor of the catalog: its category and its name. The
/// catalog itself is an external collaborator, handed in as plain data.
#[derive(Debug)]
pub struct RuleDescriptor {
    pub category: String,
    pub name: String,
}

impl View for RuleDescriptor {
    type V = (Seq<char>, Seq<char>);

    open spec fn view(&self) -> (Seq<char>, Seq<char>) {
        (self.category@, self.name@)
    }
}

/// The models of the catalog's descriptors.
pub open spec fn catalog_model(s: Seq<RuleDescriptor>) -> Seq<(Seq<char>, Seq<char>)> {
    s.map_values(|d: RuleDescriptor| d@)
}

/// One rule of the resolved set, with the config value its override
/// supplied, if any; rule-specific deserialization of that value is the
/// rule's own business, outside this crate.
#[derive(Debug)]
pub struct ConfiguredRule {
    pub category: String,
    pub name: String,
    pub config: Option<JsonValue>,
}

impl View for ConfiguredRule {
    type V = RuleModel;

    open spec fn view(&self) -> RuleModel {
        (self.category@, self.name@, opt_model(self.config))
    }
}

/// The models of a list of configured rules.
pub open spec fn rules_model(s: Seq<ConfiguredRule>) -> Seq<RuleModel> {
    s.map_values(|r: ConfiguredRule| r@)
}

/// The model of the optional extends list.
pub open spec fn extset_model(o: Option<Vec<String>>) -> Option<Seq<Seq<char>>> {
    match o {
        Option::None => Option::None,
        Option::Some(v) => Option::Some(strs_model(v@)),
    }
}

/// The extends set: the categories the presets enable, duplicates collapsed.
pub open spec fn cats_set(o: Option<Seq<Seq<char>>>) -> Set<Seq<char>> {
    match o {
        Option::None => Set::empty(),
        Option::Some(s) => s.to_set(),
    }
}

/// The authoritative override for an identifier: the last matching entry.
pub open spec fn lookup_override(
    entries: Seq<EntryModel>,
    cat: Seq<char>,
    name: Seq<char>,
) -> Option<EntryModel>
    decreases entries.len(),
{
    if entries.len() == 0 {
        Option::None
    } else if entries.last().0 == cat && entries.last().1 == name {
        Option::Some(entries.last())
    } else {
        lookup_override(entries.drop_last(), cat, name)
    }
}

/// Whether one rule is in the resolved set and, if so, with which config:
/// an explicit override decides by its severity alone; without one, preset
/// membership decides, with no config.
pub open spec fn decide_rule(
    cat: Seq<char>,
    name: Seq<char>,
    ext: Set<Seq<char>>,
    ovr: Seq<EntryModel>,
) -> Option<Option<JsonModel>> {
    match lookup_override(ovr, cat, name) {
        Option::Some(e) => if e.2.spec_is_enabled() {
            Option::Some(e.3)
        } else {
            Option::None
        },
        Option::None => if ext.contains(cat) {
            Option::Some(Option::None)
        } else {
            Option::None
        },
    }
}

/// The resolved rules, in catalog order.
pub open spec fn included_rules(
    catalog: Seq<(Seq<char>, Seq<char>)>,
    ext: Set<Seq<char>>,
    ovr: Seq<EntryModel>,
) -> Seq<RuleModel>
    decreases catalog.len(),
{
    if catalog.len() == 0 {
        Seq::empty()
    } else {
        let rest = included_rules(catalog.drop_last(), ext, ovr);
        let d = catalog.last();
        match decide_rule(d.0, d.1, ext, ovr) {
            Option::Some(cfg) => rest.push((d.0, d.1, cfg)),
            Option::None => rest,
        }
    }
}

/// Outcome of the whole resolution, before ordering: a structural failure of
/// `extends` or of `rules`, or the resolved rules in catalog order.
pub open spec fn resolution_outcome(
    catalog: Seq<(Seq<char>, Seq<char>)>,
    doc: JsonModel,
) -> Result<Seq<RuleModel>, ErrorModel> {
    match extends_outcome(doc) {
        Result::Err(e) => Result::Err(e),
        Result::Ok(ext) => match rules_outcome(doc) {
            Result::Err(e) => Result::Err(e),
            Result::Ok(ovr) => Result::Ok(included_rules(catalog, cats_set(ext), ovr)),
        },
    }
}

/// Whether the extends set holds a category.
#[verifier::loop_isolation(false)]
fn cats_contain(cats: &Option<Vec<String>>, cat: &str) -> (r: bool)
    ensures
        r == cats_set(extset_model(*cats)).contains(cat@),
{
    match cats {
        Option::None => false,
        Option::Some(v) => {
            let n = v.len();
            let mut i: usize = 0;
            while i < n
                invariant
                    i <= n,
                    forall|j: int| 0 <= j < i ==> v@[j]@ != cat@,
                decreases n - i,
            {
                if str_eq(v[i].as_str(), cat) {
                    proof {
                        assert(strs_model(v@)[i as int] == cat@);
                        assert(strs_model(v@).contains(cat@));
                    }
                    return true;
                }
                i = i + 1;
            }
            proof {
                if strs_model(v@).contains(cat@) {
                    let k = choose|k: int|
                        0 <= k < strs_model(v@).len() && strs_model(v@)[k] == cat@;
                    assert(v@[k]@ == cat@);
                }
            }
            false
        },
    }
}

/// The override for one identifier, severity and config handed out.
#[verifier::loop_isolation(false)]
fn find_override(entries: &Vec<OverrideEntry>, cat: &str, name: &str) -> (r: Option<
    (Severity, Option<JsonValue>),
>)
    ensures
        lookup_override(entries_model(entries@), cat@, name@) matches Some(e) ==> (r matches Some(
            q,
        ) && q.0 == e.2 && opt_model(q.1) == e.3),
        lookup_override(entries_model(entries@), cat@, name@) is None ==> r is None,
{
    let ghost m = entries_model(entries@);
    let n = entries.len();
    proof {
        assert(m.take(n as int) =~= m);
    }
    let mut i: usize = n;
    while i > 0
        invariant
            i <= n,
            lookup_override(m, cat@, name@) == lookup_override(m.take(i as int), cat@, name@),
        decreases i,
    {
        proof {
            assert(m.take(i as int).last() == m[i - 1]);
            assert(m.take(i as int).drop_last() =~= m.take(i - 1));
        }
        let e = &entries[i - 1];
        if str_eq(e.category.as_str(), cat) && str_eq(e.name.as_str(), name) {
            let cfg: Option<JsonValue> = match &e.config {
                Option::Some(v) => Option::Some(v.clone()),
                Option::None => Option::None,
            };
            return Some((e.severity, cfg));
        }
        i = i - 1;
    }
    proof {
        assert(m.take(0) =~= Seq::<EntryModel>::empty());
    }
    None
}

/// The resolved configuration: the active rules, in catalog order until
/// `into_rules` hands them out ordered by name.
pub struct ESLintConfig {
    rules: Vec<ConfiguredRule>,
}

impl View for ESLintConfig {
    type V = Seq<RuleModel>;

    closed spec fn view(&self) -> Seq<RuleModel> {
        rules_model(self.rules@)
    }
}

impl ESLintConfig {
    /// Resolves a configuration document against a rule catalog, as
    /// `resolution_outcome` describes.
    #[verifier::loop_isolation(false)]
    pub fn from_document(catalog: &Vec<RuleDescriptor>, doc: &JsonValue) -> (r: Result<
        ESLintConfig,
        ConfigError,
    >)
        ensures
            resolution_outcome(catalog_model(catalog@), doc@) matches Ok(rs) ==> (r matches Ok(c)
                && c@ == rs),
            resolution_outcome(catalog_model(catalog@), doc@) matches Err(e) ==> (r matches Err(re)
                && re@ == e),
    {
        let ext = match parse_extends(doc) {
            Ok(o) => o,
            Err(e) => {
                return Err(e);
            },
        };
        let ovr = match parse_rules(doc) {
            Ok(v) => v,
            Err(e) => {
                return Err(e);
            },
        };
        let ghost mcat = catalog_model(catalog@);
        let ghost mext = cats_set(extset_model(ext));
        let ghost movr = entries_model(ovr@);
        proof {
            assert(extends_outcome(doc@) == Result::<Option<Seq<Seq<char>>>, ErrorModel>::Ok(
                extset_model(ext),
            ));
            assert(mcat.take(0) =~= Seq::<(Seq<char>, Seq<char>)>::empty());
            assert(rules_model(Seq::<ConfiguredRule>::empty()) =~= Seq::<RuleModel>::empty());
        }
        let mut out: Vec<ConfiguredRule> = Vec::new();
        let n = catalog.len();
        let mut i: usize = 0;
        while i < n
            invariant
                i <= n,
                rules_model(out@) == included_rules(mcat.take(i as int), mext, movr),
            decreases n - i,
        {
            proof {
                assert(mcat.take(i + 1).drop_last() =~= mcat.take(i as int));
                assert(mcat.take(i + 1).last() == mcat[i as int]);
            }
            let d = &catalog[i];
            let in_ext = cats_contain(&ext, d.category.as_str());
            let ov = find_override(&ovr, d.category.as_str(), d.name.as_str());
            let ghost out0 = out@;
            match ov {
                Option::Some(sc) => {
                    if sc.0.is_enabled() {
                        let cr = ConfiguredRule {
                            category: d.category.clone(),
                            name: d.name.clone(),
                            config: sc.1,
                        };
                        let ghost crm = cr@;
                        out.push(cr);
                        proof {
                            assert(rules_model(out@) =~= rules_model(out0).push(crm));
                        }
                    }
                },
                Option::None => {
                    if in_ext {
                        let cr = ConfiguredRule {
                            category: d.category.clone(),
                            name: d.name.clone(),
                            config: Option::None,
                        };
                        let ghost crm = cr@;
                        out.push(cr);
                        proof {
                            assert(rules_model(out@) =~= rules_model(out0).push(crm));
                        }
                    }
                },
            }
            i = i + 1;
        }
        proof {
            assert(mcat.take(n as int) =~= mcat);
        }
        Ok(ESLintConfig { rules: out })
    }

    /// Consumes the configuration, handing the active rules out ordered by
    /// rule name.
    #[verifier::loop_isolation(false)]
    pub fn into_rules(self) -> (r: Vec<ConfiguredRule>)
        ensures
            rules_model(r@) == sort_by_name(self@),
            sorted_by_name(rules_model(r@)),
    {
        let ESLintConfig { rules } = self;
        let mut rules = rules;
        let ghost m = rules_model(rules@);
        let mut out: Vec<ConfiguredRule> = Vec::new();
        let n = rules.len();
        proof {
            assert(m.take(0) =~= Seq::<RuleModel>::empty());
            assert(rules_model(Seq::<ConfiguredRule>::empty()) =~= Seq::<RuleModel>::empty());
        }
        let mut i: usize = 0;
        while i < n
            invariant
                i <= n,
                n == m.len(),
                rules@.len() == n - i,
                forall|j: int| 0 <= j < n - i ==> rules@[j]@ == m[i + j],
                rules_model(out@) == sort_by_name(m.take(i as int)),
            decreases n - i,
        {
            let x = rules.remove(0);
            insert_rule(&mut out, x);
            proof {
                assert(m.take(i + 1).drop_last() =~= m.take(i as int));
                assert(m.take(i + 1).last() == m[i as int]);
            }
            i = i + 1;
        }
        proof {
            assert(m.take(n as int) =~= m);
            lemma_sort_sorted(m);
        }
        out
    }
}

/// Whether a resolved sequence is ordered by rule name.
pub open spec fn sorted_by_name(s: Seq<RuleModel>) -> bool {
    forall|i: int, j: int| 0 <= i < j < s.len() ==> lex_le(s[i].1, s[j].1)
}

/// Insertion of one rule before the first rule whose name does not precede
/// its own.
pub open spec fn insert_by_name(x: RuleModel, s: Seq<RuleModel>) -> Seq<RuleModel>
    decreases s.len(),
{
    if s.len() == 0 {
        seq![x]
    } else if lex_le(x.1, s[0].1) {
        seq![x] + s
    } else {
        seq![s[0]] + insert_by_name(x, s.skip(1))
    }
}

/// The resolved rules ordered by name: insertion sort.
pub open spec fn sort_by_name(s: Seq<RuleModel>) -> Seq<RuleModel>
    decreases s.len(),
{
    if s.len() == 0 {
        Seq::empty()
    } else {
        insert_by_name(s.last(), sort_by_name(s.drop_last()))
    }
}

/// Where the insertion lands: before the first rule that does not precede it.
proof fn lemma_insert_characterization(x: RuleModel, s: Seq<RuleModel>, k: int)
    requires
        0 <= k <= s.len(),
        forall|j: int| 0 <= j < k ==> !lex_le(x.1, s[j].1),
        k < s.len() ==> lex_le(x.1, s[k].1),
    ensures
        insert_by_name(x, s) == s.take(k) + seq![x] + s.skip(k),
    decreases k,
{
    if k == 0 {
        if s.len() == 0 {
            assert(seq![x] =~= s.take(0) + seq![x] + s.skip(0));
        } else {
            assert(seq![x] + s =~= s.take(0) + seq![x] + s.skip(0));
        }
    } else {
        lemma_insert_characterization(x, s.skip(1), k - 1);
        assert(seq![s[0]] + insert_by_name(x, s.skip(1)) =~= s.take(k) + seq![x] + s.skip(k));
    }
}

/// Insertion keeps the order and adds exactly the new rule.
proof fn lemma_insert_sorted(x: RuleModel, s: Seq<RuleModel>)
    requires
        sorted_by_name(s),
    ensures
        sorted_by_name(insert_by_name(x, s)),
        insert_by_name(x, s).len() == s.len() + 1,
        forall|k: int| #![all_triggers]
            0 <= k < insert_by_name(x, s).len() ==> insert_by_name(x, s)[k] == x || s.contains(
                insert_by_name(x, s)[k],
            ),
    decreases s.len(),
{
    if s.len() == 0 {
    } else if lex_le(x.1, s[0].1) {
        let t = seq![x] + s;
        assert forall|i: int, j: int| 0 <= i < j < t.len() implies lex_le(t[i].1, t[j].1) by {
            if i == 0 {
                if j >= 2 {
                    lemma_lex_le_trans(x.1, s[0].1, s[j - 1].1);
                }
            }
        }
    } else {
        lemma_lex_le_total(x.1, s[0].1);
        assert(sorted_by_name(s.skip(1)));
        lemma_insert_sorted(x, s.skip(1));
        let u = insert_by_name(x, s.skip(1));
        let t = seq![s[0]] + u;
        assert forall|i: int, j: int| 0 <= i < j < t.len() implies lex_le(t[i].1, t[j].1) by {
            if i == 0 {
                let el = u[j - 1];
                if el == x {
                    assert(lex_le(s[0].1, x.1));
                } else {
                    let w = choose|w: int| 0 <= w < s.skip(1).len() && s.skip(1)[w] == el;
                    assert(lex_le(s[0].1, s[w + 1].1));
                }
            }
        }
        assert forall|k: int| 0 <= k < t.len() implies t[k] == x || s.contains(t[k]) by {
            if k == 0 {
                assert(s[0] == t[0]);
                assert(s.contains(t[k]));
            } else {
                let el = u[k - 1];
                if el != x {
                    let w = choose|w: int| 0 <= w < s.skip(1).len() && s.skip(1)[w] == el;
                    assert(s[w + 1] == el);
                    assert(s.contains(t[k]));
                }
            }
        }
    }
}

/// Sorting orders the rules and keeps their number.
pub proof fn lemma_sort_sorted(s: Seq<RuleModel>)
    ensures
        sorted_by_name(sort_by_name(s)),
        sort_by_name(s).len() == s.len(),
    decreases s.len(),
{
    if s.len() == 0 {
    } else {
        lemma_sort_sorted(s.drop_last());
        lemma_insert_sorted(s.last(), sort_by_name(s.drop_last()));
    }
}

/// Inserts one rule where `insert_by_name` says it lands.
#[verifier::loop_isolation(false)]
fn insert_rule(out: &mut Vec<ConfiguredRule>, x: ConfiguredRule)
    ensures
        rules_model(final(out)@) == insert_by_name(x@, rules_model(old(out)@)),
{
    let ghost m = rules_model(old(out)@);
    let n = out.len();
    let mut i: usize = 0;
    while i < n
        invariant
            i <= n,
            out@ == old(out)@,
            forall|j: int| 0 <= j < i ==> !lex_le(x@.1, m[j].1),
        decreases n - i,
    {
        let le = str_le(x.name.as_str(), out[i].name.as_str());
        if le {
            proof {
                lemma_insert_characterization(x@, m, i as int);
            }
            let ghost xi = i as int;
            out.insert(i, x);
            proof {
                assert(rules_model(out@) =~= m.take(xi) + seq![x@] + m.skip(xi));
            }
            return;
        }
        i = i + 1;
    }
    proof {
        lemma_insert_characterization(x@, m, n as int);
    }
    out.push(x);
    proof {
        assert(rules_model(out@) =~= m.take(n as int) + seq![x@] + m.skip(n as int));
    }
}

} // verus!
