//! The laws of resolution, stated and proved once over all inputs: how key
//! normalization treats defaults, leading `@` and the one alias; that unknown
//! presets leave no trace; how preset membership and explicit overrides
//! decide inclusion; and that resolution is deterministic and never yields a
//! rule outside the catalog or the same rule twice.

use vstd::prelude::*;

use crate::json::JsonModel;
use crate::keys::{
    alias_category, default_plugin, key_category, key_name, lemma_slash_at, scoped_ts_plugin,
    slash_at, strip_ats, ts_plugin,
};
use crate::overrides::EntryModel;
use crate::presets::{extends_categories, preset_category};
use crate::resolve::{
    cats_set, decide_rule, included_rules, insert_by_name, lemma_sort_sorted, lookup_override,
    resolution_outcome, sort_by_name, sorted_by_name, RuleModel,
};
use crate::text::{lemma_lex_le_antisym, lex_le};

verus! {

/// A key without a `/` names the default category, and itself as the name.
pub proof fn law_default_category(k: Seq<char>)
    requires
        forall|j: int| 0 <= j < k.len() ==> k[j] != '/',
    ensures
        key_category(k) == default_plugin(),
        key_name(k) == k,
{
    lemma_slash_at(k);
    if 0 <= slash_at(k) {
        assert(false);
    }
}

/// A leading `@` on a key with a category part is stripped before anything
/// else: the key resolves exactly as the key without it.
pub proof fn law_leading_at_stripped(k: Seq<char>)
    requires
        k.len() > 0,
        k[0] == '@',
        exists|i: int| 0 <= i < k.len() && k[i] == '/',
    ensures
        key_category(k) == key_category(k.skip(1)),
        key_name(k) == key_name(k.skip(1)),
{
    lemma_slash_at(k);
    lemma_slash_at(k.skip(1));
    let i = choose|i: int| 0 <= i < k.len() && k[i] == '/';
    if slash_at(k) == -1 {
        assert(k[i] != '/');
        assert(false);
    }
    let s = slash_at(k);
    assert(s >= 1);
    assert(slash_at(k.skip(1)) == s - 1);
    assert(k.take(s).skip(1) =~= k.skip(1).take(s - 1));
    assert(strip_ats(k.take(s)) == strip_ats(k.take(s).skip(1)));
    assert(k.skip(s + 1) =~= k.skip(1).skip(s));
}

/// A category part that strips to the scoped typescript plugin name resolves
/// to the `typescript` category, whatever the rule name is.
pub proof fn law_scoped_typescript_alias(k: Seq<char>)
    requires
        0 <= slash_at(k),
        strip_ats(k.take(slash_at(k))) == scoped_ts_plugin(),
    ensures
        key_category(k) == ts_plugin(),
{
    assert(alias_category(scoped_ts_plugin()) == ts_plugin());
}

/// Every category the extends resolver yields comes from a known preset
/// string in the array: unknown presets and non-strings leave no trace.
pub proof fn law_unknown_presets_dropped(items: Seq<JsonModel>, c: Seq<char>)
    requires
        extends_categories(items).contains(c),
    ensures
        exists|j: int|
            0 <= j < items.len() && (#[trigger] items[j] matches JsonModel::Str(s)
                && preset_category(s) == Option::Some(c)),
    decreases items.len(),
{
    let rest = extends_categories(items.drop_last());
    let picked = extends_categories(items);
    if picked == rest {
        law_unknown_presets_dropped(items.drop_last(), c);
        let j = choose|j: int|
            0 <= j < items.drop_last().len() && (#[trigger] items.drop_last()[j] matches
            JsonModel::Str(s) && preset_category(s) == Option::Some(c));
        assert(items[j] == items.drop_last()[j]);
    } else {
        let cc = match items.last() {
            JsonModel::Str(s) => preset_category(s)->Some_0,
            _ => c,
        };
        lemma_push_contains(rest, cc, c);
        if c == cc {
            assert(0 <= items.len() - 1 < items.len() && (items[items.len() - 1] matches
            JsonModel::Str(s) && preset_category(s) == Option::Some(c)));
        } else {
            law_unknown_presets_dropped(items.drop_last(), c);
            let j = choose|j: int|
                0 <= j < items.drop_last().len() && (#[trigger] items.drop_last()[j] matches
                JsonModel::Str(s) && preset_category(s) == Option::Some(c));
            assert(items[j] == items.drop_last()[j]);
        }
    }
}

/// Membership in a pushed sequence.
proof fn lemma_push_contains<A>(s: Seq<A>, x: A, y: A)
    ensures
        s.push(x).contains(y) <==> (s.contains(y) || y == x),
{
    if s.push(x).contains(y) {
        let k = choose|k: int| 0 <= k < s.push(x).len() && s.push(x)[k] == y;
        if k < s.len() {
            assert(s[k] == y);
        }
    }
    if s.contains(y) {
        let k = choose|k: int| 0 <= k < s.len() && s[k] == y;
        assert(s.push(x)[k] == y);
    }
    if y == x {
        assert(s.push(x)[s.len() as int] == y);
    }
}

/// A rule is in the resolved set with a config exactly when the catalog
/// holds its identifier and the decision for that identifier yields that
/// config.
pub proof fn lemma_included_membership(
    catalog: Seq<(Seq<char>, Seq<char>)>,
    ext: Set<Seq<char>>,
    ovr: Seq<EntryModel>,
    cat: Seq<char>,
    name: Seq<char>,
    cfg: Option<JsonModel>,
)
    ensures
        included_rules(catalog, ext, ovr).contains((cat, name, cfg)) <==> (catalog.contains(
            (cat, name),
        ) && decide_rule(cat, name, ext, ovr) == Option::Some(cfg)),
    decreases catalog.len(),
{
    if catalog.len() == 0 {
    } else {
        lemma_included_membership(catalog.drop_last(), ext, ovr, cat, name, cfg);
        let rest = included_rules(catalog.drop_last(), ext, ovr);
        let d = catalog.last();
        assert(catalog =~= catalog.drop_last().push(d));
        lemma_push_contains(catalog.drop_last(), d, (cat, name));
        match decide_rule(d.0, d.1, ext, ovr) {
            Option::Some(c2) => {
                lemma_push_contains(rest, (d.0, d.1, c2), (cat, name, cfg));
            },
            Option::None => {},
        }
    }
}

/// A rule whose category a preset enables and that no `rules` entry
/// mentions is included, with no rule-specific config.
pub proof fn law_preset_rule_included(
    catalog: Seq<(Seq<char>, Seq<char>)>,
    ext: Set<Seq<char>>,
    ovr: Seq<EntryModel>,
    cat: Seq<char>,
    name: Seq<char>,
)
    requires
        catalog.contains((cat, name)),
        ext.contains(cat),
        lookup_override(ovr, cat, name) is None,
    ensures
        included_rules(catalog, ext, ovr).contains((cat, name, Option::None)),
{
    lemma_included_membership(catalog, ext, ovr, cat, name, Option::None);
}

/// An explicit entry whose severity disables the rule excludes it, with any
/// config, preset membership notwithstanding.
pub proof fn law_explicit_off_excluded(
    catalog: Seq<(Seq<char>, Seq<char>)>,
    ext: Set<Seq<char>>,
    ovr: Seq<EntryModel>,
    cat: Seq<char>,
    name: Seq<char>,
    e: EntryModel,
)
    requires
        lookup_override(ovr, cat, name) == Option::Some(e),
        !e.2.spec_is_enabled(),
    ensures
        forall|cfg: Option<JsonModel>|
            !included_rules(catalog, ext, ovr).contains((cat, name, cfg)),
{
    assert forall|cfg: Option<JsonModel>|
        !included_rules(catalog, ext, ovr).contains((cat, name, cfg)) by {
        lemma_included_membership(catalog, ext, ovr, cat, name, cfg);
    }
}

/// An explicit entry whose severity enables the rule includes it with the
/// entry's config, whether or not any preset enables its category.
pub proof fn law_explicit_enabled_included(
    catalog: Seq<(Seq<char>, Seq<char>)>,
    ext: Set<Seq<char>>,
    ovr: Seq<EntryModel>,
    cat: Seq<char>,
    name: Seq<char>,
    e: EntryModel,
)
    requires
        catalog.contains((cat, name)),
        lookup_override(ovr, cat, name) == Option::Some(e),
        e.2.spec_is_enabled(),
    ensures
        included_rules(catalog, ext, ovr).contains((cat, name, e.3)),
{
    lemma_included_membership(catalog, ext, ovr, cat, name, e.3);
}

/// Resolution is a function of the catalog and the document alone: equal
/// inputs give equal outcomes, and equal ordered outputs. Together with the
/// contracts of `from_document` and `into_rules`, which pin their results to
/// `resolution_outcome` and `sort_by_name`, resolving twice yields identical
/// output.
pub proof fn law_resolution_deterministic(
    catalog1: Seq<(Seq<char>, Seq<char>)>,
    doc1: JsonModel,
    catalog2: Seq<(Seq<char>, Seq<char>)>,
    doc2: JsonModel,
)
    requires
        catalog1 == catalog2,
        doc1 == doc2,
    ensures
        resolution_outcome(catalog1, doc1) == resolution_outcome(catalog2, doc2),
        resolution_outcome(catalog1, doc1) matches Ok(rs) ==> resolution_outcome(catalog2, doc2)
            == Result::<Seq<RuleModel>, crate::errors::ErrorModel>::Ok(rs) && sort_by_name(rs)
            == sort_by_name(rs),
{
}

/// Every rule of the resolved set carries an identifier of the catalog.
pub proof fn law_included_ids_from_catalog(
    catalog: Seq<(Seq<char>, Seq<char>)>,
    ext: Set<Seq<char>>,
    ovr: Seq<EntryModel>,
)
    ensures
        forall|k: int| #![all_triggers]
            0 <= k < included_rules(catalog, ext, ovr).len() ==> catalog.contains(
                (included_rules(catalog, ext, ovr)[k].0, included_rules(catalog, ext, ovr)[k].1),
            ),
    decreases catalog.len(),
{
    if catalog.len() == 0 {
    } else {
        law_included_ids_from_catalog(catalog.drop_last(), ext, ovr);
        let rest = included_rules(catalog.drop_last(), ext, ovr);
        let r = included_rules(catalog, ext, ovr);
        let d = catalog.last();
        assert(catalog =~= catalog.drop_last().push(d));
        assert forall|k: int| 0 <= k < r.len() implies catalog.contains((r[k].0, r[k].1)) by {
            if k < rest.len() {
                assert(catalog.drop_last().contains((rest[k].0, rest[k].1)));
                let m = choose|m: int|
                    0 <= m < catalog.drop_last().len() && catalog.drop_last()[m] == (
                    rest[k].0,
                    rest[k].1,
                );
                assert(catalog[m] == (r[k].0, r[k].1));
            } else {
                assert(catalog[catalog.len() - 1] == (r[k].0, r[k].1));
            }
        }
    }
}

/// With distinct identifiers in the catalog, no rule is resolved twice.
pub proof fn law_no_rule_twice(
    catalog: Seq<(Seq<char>, Seq<char>)>,
    ext: Set<Seq<char>>,
    ovr: Seq<EntryModel>,
)
    requires
        forall|a: int, b: int| 0 <= a < b < catalog.len() ==> catalog[a] != catalog[b],
    ensures
        forall|a: int, b: int| #![all_triggers]
            0 <= a < b < included_rules(catalog, ext, ovr).len() ==> (
            included_rules(catalog, ext, ovr)[a].0,
            included_rules(catalog, ext, ovr)[a].1,
            ) != (included_rules(catalog, ext, ovr)[b].0, included_rules(catalog, ext, ovr)[b].1),
    decreases catalog.len(),
{
    if catalog.len() == 0 {
    } else {
        law_no_rule_twice(catalog.drop_last(), ext, ovr);
        law_included_ids_from_catalog(catalog.drop_last(), ext, ovr);
        let rest = included_rules(catalog.drop_last(), ext, ovr);
        let r = included_rules(catalog, ext, ovr);
        let d = catalog.last();
        assert forall|a: int, b: int| 0 <= a < b < r.len() implies (r[a].0, r[a].1) != (
        r[b].0,
        r[b].1,
        ) by {
            if b == rest.len() && r.len() == rest.len() + 1 {
                if (r[a].0, r[a].1) == (d.0, d.1) {
                    assert(catalog.drop_last().contains((rest[a].0, rest[a].1)));
                    let m = choose|m: int|
                        0 <= m < catalog.drop_last().len() && catalog.drop_last()[m] == (
                        rest[a].0,
                        rest[a].1,
                        );
                    assert(catalog[m] == catalog[catalog.len() - 1]);
                    assert(false);
                }
            }
        }
    }
}

/// Ordering the resolved set neither adds, drops nor repeats a rule: the
/// sorted rules are the resolved rules as a multiset.
pub proof fn law_sort_preserves_rules(s: Seq<RuleModel>)
    ensures
        sort_by_name(s).to_multiset() == s.to_multiset(),
    decreases s.len(),
{
    broadcast use vstd::seq_lib::group_to_multiset_ensures;

    if s.len() == 0 {
        assert(sort_by_name(s).to_multiset() =~= s.to_multiset());
    } else {
        law_sort_preserves_rules(s.drop_last());
        lemma_insert_multiset(s.last(), sort_by_name(s.drop_last()));
        assert(s =~= s.drop_last().push(s.last()));
        assert(s.to_multiset() =~= s.drop_last().to_multiset().insert(s.last()));
    }
}

/// Inserting one rule adds exactly that rule to the multiset.
proof fn lemma_insert_multiset(x: RuleModel, s: Seq<RuleModel>)
    ensures
        insert_by_name(x, s).to_multiset() == s.to_multiset().insert(x),
    decreases s.len(),
{
    broadcast use vstd::seq_lib::group_to_multiset_ensures;

    if s.len() == 0 {
        assert(seq![x] =~= Seq::<RuleModel>::empty().push(x));
        assert(insert_by_name(x, s).to_multiset() =~= s.to_multiset().insert(x));
    } else if lex_le(x.1, s[0].1) {
        vstd::seq_lib::lemma_multiset_commutative(seq![x], s);
        assert(seq![x] =~= Seq::<RuleModel>::empty().push(x));
        assert((seq![x] + s).to_multiset() =~= s.to_multiset().insert(x));
    } else {
        lemma_insert_multiset(x, s.skip(1));
        vstd::seq_lib::lemma_multiset_commutative(seq![s[0]], insert_by_name(x, s.skip(1)));
        vstd::seq_lib::lemma_multiset_commutative(seq![s[0]], s.skip(1));
        assert(seq![s[0]] =~= Seq::<RuleModel>::empty().push(s[0]));
        assert(s =~= seq![s[0]] + s.skip(1));
        assert((seq![s[0]] + insert_by_name(x, s.skip(1))).to_multiset() =~= s.to_multiset().insert(
            x,
        ));
    }
}


/// Two name-ordered sequences with the same rules, none repeated by name,
/// are the same sequence.
proof fn lemma_sorted_unique(s1: Seq<RuleModel>, s2: Seq<RuleModel>)
    requires
        sorted_by_name(s1),
        sorted_by_name(s2),
        s1.to_multiset() == s2.to_multiset(),
        forall|a: int, b: int| 0 <= a < b < s1.len() ==> s1[a].1 != s1[b].1,
    ensures
        s1 == s2,
    decreases s1.len(),
{
    broadcast use vstd::seq_lib::group_to_multiset_ensures;

    assert(s1.len() == s1.to_multiset().len());
    assert(s2.len() == s2.to_multiset().len());
    assert(s1.len() == s2.len());
    if s1.len() == 0 {
        assert(s1 =~= s2);
    } else {
        assert(s1.contains(s1[0]));
        assert(s1.to_multiset().count(s1[0]) > 0);
        assert(s2.to_multiset().count(s1[0]) > 0);
        assert(s2.contains(s1[0]));
        assert(s2.contains(s2[0]));
        assert(s2.to_multiset().count(s2[0]) > 0);
        assert(s1.to_multiset().count(s2[0]) > 0);
        assert(s1.contains(s2[0]));
        let j = choose|j: int| 0 <= j < s2.len() && s2[j] == s1[0];
        let i = choose|i: int| 0 <= i < s1.len() && s1[i] == s2[0];
        if i > 0 {
            if j == 0 {
                assert(s1[i] == s1[0]);
                assert(false);
            } else {
                assert(lex_le(s1[0].1, s1[i].1));
                assert(lex_le(s2[0].1, s2[j].1));
                lemma_lex_le_antisym(s1[0].1, s2[0].1);
                assert(s1[0].1 == s1[i].1);
                assert(false);
            }
        }
        assert(s1[0] == s2[0]);
        let t1 = s1.remove(0);
        let t2 = s2.remove(0);
        assert(t1.to_multiset() =~= t2.to_multiset());
        assert(t1.len() == s1.len() - 1);
        assert(forall|k: int| 0 <= k < t1.len() ==> t1[k] == s1[k + 1]);
        assert(forall|k: int| 0 <= k < t2.len() ==> t2[k] == s2[k + 1]);
        assert(sorted_by_name(t1));
        assert(sorted_by_name(t2));
        assert(forall|a: int, b: int| 0 <= a < b < t1.len() ==> t1[a].1 != t1[b].1);
        lemma_sorted_unique(t1, t2);
        assert forall|k: int| 0 <= k < s1.len() implies s1[k] == s2[k] by {
            if k >= 1 {
                assert(t1[k - 1] == t2[k - 1]);
            }
        }
        assert(s1 =~= s2);
    }
}

/// The ordered output does not depend on the catalog's own order: catalogs
/// holding the same descriptors, each rule name once, resolve to the same
/// ordered rule set. (With one name under two categories, the order among
/// those entries follows the catalog instead.)
pub proof fn law_catalog_order_independent(
    catalog1: Seq<(Seq<char>, Seq<char>)>,
    catalog2: Seq<(Seq<char>, Seq<char>)>,
    ext: Set<Seq<char>>,
    ovr: Seq<EntryModel>,
)
    requires
        forall|a: int, b: int| 0 <= a < b < catalog1.len() ==> catalog1[a].1 != catalog1[b].1,
        forall|a: int, b: int| 0 <= a < b < catalog2.len() ==> catalog2[a].1 != catalog2[b].1,
        catalog1.to_set() == catalog2.to_set(),
    ensures
        sort_by_name(included_rules(catalog1, ext, ovr)) == sort_by_name(
            included_rules(catalog2, ext, ovr),
        ),
{
    broadcast use vstd::seq_lib::group_to_multiset_ensures;

    let r1 = included_rules(catalog1, ext, ovr);
    let r2 = included_rules(catalog2, ext, ovr);
    assert(forall|a: int, b: int| 0 <= a < b < catalog1.len() ==> catalog1[a] != catalog1[b]);
    assert(forall|a: int, b: int| 0 <= a < b < catalog2.len() ==> catalog2[a] != catalog2[b]);
    law_no_rule_twice(catalog1, ext, ovr);
    law_no_rule_twice(catalog2, ext, ovr);
    law_included_ids_from_catalog(catalog1, ext, ovr);
    law_included_ids_from_catalog(catalog2, ext, ovr);

    assert forall|x: RuleModel| r1.contains(x) == r2.contains(x) by {
        lemma_included_membership(catalog1, ext, ovr, x.0, x.1, x.2);
        lemma_included_membership(catalog2, ext, ovr, x.0, x.1, x.2);
        assert(catalog1.to_set().contains((x.0, x.1)) == catalog1.contains((x.0, x.1)));
        assert(catalog2.to_set().contains((x.0, x.1)) == catalog2.contains((x.0, x.1)));
    }

    assert(r1.no_duplicates());
    assert(r2.no_duplicates());
    r1.lemma_multiset_has_no_duplicates();
    r2.lemma_multiset_has_no_duplicates();
    assert forall|x: RuleModel| r1.to_multiset().count(x) == r2.to_multiset().count(x) by {
        if r1.contains(x) {
            assert(r1.to_multiset().count(x) == 1);
            assert(r2.to_multiset().count(x) == 1);
        } else {
            assert(r1.to_multiset().count(x) == 0);
            assert(r2.to_multiset().count(x) == 0);
        }
    }
    assert(r1.to_multiset() =~= r2.to_multiset());

    // names are distinct within the resolved set
    assert forall|a: int, b: int| 0 <= a < b < r1.len() implies r1[a].1 != r1[b].1 by {
        if r1[a].1 == r1[b].1 {
            assert(catalog1.contains((r1[a].0, r1[a].1)));
            assert(catalog1.contains((r1[b].0, r1[b].1)));
            let ma = choose|m: int| 0 <= m < catalog1.len() && catalog1[m] == (r1[a].0, r1[a].1);
            let mb = choose|m: int| 0 <= m < catalog1.len() && catalog1[m] == (r1[b].0, r1[b].1);
            assert(catalog1[ma].1 == catalog1[mb].1);
            assert(ma == mb);
            assert((r1[a].0, r1[a].1) == (r1[b].0, r1[b].1));
            assert(false);
        }
    }

    law_sort_preserves_rules(r1);
    law_sort_preserves_rules(r2);
    lemma_sort_sorted(r1);
    lemma_sort_sorted(r2);
    let q1 = sort_by_name(r1);
    let q2 = sort_by_name(r2);

    // the sorted set repeats nothing, so its names stay distinct
    assert forall|x: RuleModel| q1.to_multiset().contains(x) implies q1.to_multiset().count(x)
        == 1 by {
        assert(r1.to_multiset().count(x) > 0);
        assert(r1.contains(x));
    }
    q1.lemma_multiset_has_no_duplicates_conv();
    assert forall|a: int, b: int| 0 <= a < b < q1.len() implies q1[a].1 != q1[b].1 by {
        if q1[a].1 == q1[b].1 {
            assert(q1.contains(q1[a]));
            assert(q1.contains(q1[b]));
            assert(q1.to_multiset().count(q1[a]) > 0);
            assert(q1.to_multiset().count(q1[b]) > 0);
            assert(r1.contains(q1[a]));
            assert(r1.contains(q1[b]));
            assert(q1[a] != q1[b]);
            let ia = choose|m: int| 0 <= m < r1.len() && r1[m] == q1[a];
            let ib = choose|m: int| 0 <= m < r1.len() && r1[m] == q1[b];
            assert(ia != ib);
            assert(r1[ia].1 != r1[ib].1);
            assert(false);
        }
    }

    lemma_sorted_unique(q1, q2);
}


/// With each identifier overridden at most once, the override that decides a
/// rule is the one entry carrying its identifier, wherever it stands.
proof fn lemma_lookup_characterization(ovr: Seq<EntryModel>, cat: Seq<char>, name: Seq<char>)
    requires
        forall|a: int, b: int|
            0 <= a < b < ovr.len() ==> (ovr[a].0, ovr[a].1) != (ovr[b].0, ovr[b].1),
    ensures
        lookup_override(ovr, cat, name) matches Some(e) ==> (ovr.contains(e) && e.0 == cat && e.1
            == name),
        forall|e: EntryModel| #![all_triggers]
            ovr.contains(e) && e.0 == cat && e.1 == name ==> lookup_override(ovr, cat, name)
                == Option::Some(e),
    decreases ovr.len(),
{
    if ovr.len() == 0 {
    } else {
        let last = ovr.last();
        if last.0 == cat && last.1 == name {
            assert(ovr[ovr.len() - 1] == last);
            assert(ovr.contains(last));
            assert forall|e: EntryModel| ovr.contains(e) && e.0 == cat && e.1 == name implies
                lookup_override(ovr, cat, name) == Option::Some(e) by {
                let k = choose|k: int| 0 <= k < ovr.len() && ovr[k] == e;
                if k < ovr.len() - 1 {
                    assert((ovr[k].0, ovr[k].1) != (ovr[ovr.len() - 1].0, ovr[ovr.len() - 1].1));
                    assert(false);
                }
            }
        } else {
            lemma_lookup_characterization(ovr.drop_last(), cat, name);
            match lookup_override(ovr.drop_last(), cat, name) {
                Option::Some(e) => {
                    let k = choose|k: int|
                        0 <= k < ovr.drop_last().len() && ovr.drop_last()[k] == e;
                    assert(ovr[k] == e);
                    assert(ovr.contains(e));
                },
                Option::None => {},
            }
            assert forall|e: EntryModel| ovr.contains(e) && e.0 == cat && e.1 == name implies
                lookup_override(ovr, cat, name) == Option::Some(e) by {
                let k = choose|k: int| 0 <= k < ovr.len() && ovr[k] == e;
                assert(k < ovr.len() - 1);
                assert(ovr.drop_last()[k] == e);
                assert(ovr.drop_last().contains(e));
            }
        }
    }
}

/// Resolution under two override lists that agree on every lookup.
proof fn lemma_included_congruence(
    catalog: Seq<(Seq<char>, Seq<char>)>,
    ext: Set<Seq<char>>,
    ovr1: Seq<EntryModel>,
    ovr2: Seq<EntryModel>,
)
    requires
        forall|cat: Seq<char>, name: Seq<char>|
            #[trigger] lookup_override(ovr1, cat, name) == #[trigger] lookup_override(
                ovr2,
                cat,
                name,
            ),
    ensures
        included_rules(catalog, ext, ovr1) == included_rules(catalog, ext, ovr2),
    decreases catalog.len(),
{
    if catalog.len() == 0 {
    } else {
        lemma_included_congruence(catalog.drop_last(), ext, ovr1, ovr2);
    }
}

/// The resolved set does not depend on the order of the `rules` entries:
/// override lists holding the same entries, each identifier once, resolve
/// every catalog to the same rules. (Two document keys normalizing to the
/// same identifier are decided by the later entry instead.)
pub proof fn law_override_order_independent(
    catalog: Seq<(Seq<char>, Seq<char>)>,
    ext: Set<Seq<char>>,
    ovr1: Seq<EntryModel>,
    ovr2: Seq<EntryModel>,
)
    requires
        forall|a: int, b: int|
            0 <= a < b < ovr1.len() ==> (ovr1[a].0, ovr1[a].1) != (ovr1[b].0, ovr1[b].1),
        forall|a: int, b: int|
            0 <= a < b < ovr2.len() ==> (ovr2[a].0, ovr2[a].1) != (ovr2[b].0, ovr2[b].1),
        ovr1.to_set() == ovr2.to_set(),
    ensures
        included_rules(catalog, ext, ovr1) == included_rules(catalog, ext, ovr2),
{
    assert forall|cat: Seq<char>, name: Seq<char>|
        #[trigger] lookup_override(ovr1, cat, name) == #[trigger] lookup_override(
            ovr2,
            cat,
            name,
        ) by {
        lemma_lookup_characterization(ovr1, cat, name);
        lemma_lookup_characterization(ovr2, cat, name);
        match lookup_override(ovr1, cat, name) {
            Option::Some(e) => {
                assert(ovr1.to_set().contains(e) == ovr1.contains(e));
                assert(ovr2.to_set().contains(e) == ovr2.contains(e));
                assert(ovr2.contains(e));
            },
            Option::None => {
                match lookup_override(ovr2, cat, name) {
                    Option::Some(e) => {
                        assert(ovr1.to_set().contains(e) == ovr1.contains(e));
                        assert(ovr2.to_set().contains(e) == ovr2.contains(e));
                        assert(ovr1.contains(e));
                        assert(false);
                    },
                    Option::None => {},
                }
            },
        }
    }
    lemma_included_congruence(catalog, ext, ovr1, ovr2);
}


/// The extends set does not depend on the order of the `extends` array:
/// lists naming the same categories enable the same set.
pub proof fn law_extends_order_independent(c1: Seq<Seq<char>>, c2: Seq<Seq<char>>)
    requires
        forall|x: Seq<char>| c1.contains(x) == c2.contains(x),
    ensures
        cats_set(Option::Some(c1)) == cats_set(Option::Some(c2)),
{
    assert(c1.to_set() =~= c2.to_set());
}

} // verus!

