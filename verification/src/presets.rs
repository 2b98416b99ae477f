//! The `extends` resolver: maps preset names to plugin categories through a
//! fixed build-time table. Unknown presets and non-string elements are
//! silently dropped; only a non-array `extends` value is a failure.

use vstd::prelude::*;

use crate::errors::{ConfigError, ErrorModel};
use crate::json::{arr_model, doc_get, json_get, JsonModel, JsonValue};
use crate::text::str_eq;

verus! {

/// The static preset table: which category each known preset enables.
pub open spec fn preset_category(p: Seq<char>) -> Option<Seq<char>> {
    if p == "eslint:recommended"@ {
        Option::Some("eslint"@)
    } else if p == "plugin:react/recommended"@ {
        Option::Some("react"@)
    } else if p == "plugin:@typescript-eslint/recommended"@ {
        Option::Some("typescript"@)
    } else if p == "plugin:react-hooks/recommended"@ {
        Option::Some("react"@)
    } else if p == "plugin:unicorn/recommended"@ {
        Option::Some("unicorn"@)
    } else if p == "plugin:jest/recommended"@ {
        Option::Some("jest"@)
    } else {
        Option::None
    }
}

/// Looks a preset name up in the static table.
pub fn preset_category_of(p: &str) -> (r: Option<String>)
    ensures
        r is Some == preset_category(p@) is Some,
        r matches Some(c) ==> preset_category(p@) == Option::Some(c@),
{
    if str_eq(p, "eslint:recommended") {
        Some("eslint".to_owned())
    } else if str_eq(p, "plugin:react/recommended") {
        Some("react".to_owned())
    } else if str_eq(p, "plugin:@typescript-eslint/recommended") {
        Some("typescript".to_owned())
    } else if str_eq(p, "plugin:react-hooks/recommended") {
        Some("react".to_owned())
    } else if str_eq(p, "plugin:unicorn/recommended") {
        Some("unicorn".to_owned())
    } else if str_eq(p, "plugin:jest/recommended") {
        Some("jest".to_owned())
    } else {
        None
    }
}

/// The categories that the known presets among an array's elements enable,
/// in array order, duplicates kept; everything else is dropped.
pub open spec fn extends_categories(items: Seq<JsonModel>) -> Seq<Seq<char>>
    decreases items.len(),
{
    if items.len() == 0 {
        Seq::empty()
    } else {
        let rest = extends_categories(items.drop_last());
        match items.last() {
            JsonModel::Str(s) => match preset_category(s) {
                Option::Some(c) => rest.push(c),
                Option::None => rest,
            },
            _ => rest,
        }
    }
}

/// Outcome of reading `extends`: absent gives nothing, an array gives the
/// enabled categories, anything else is a failure naming the property.
pub open spec fn extends_outcome(doc: JsonModel) -> Result<Option<Seq<Seq<char>>>, ErrorModel> {
    match doc_get(doc, "extends"@) {
        Option::None => Result::Ok(Option::None),
        Option::Some(e) => match e {
            JsonModel::Arr(items) => Result::Ok(Option::Some(extends_categories(items))),
            _ => Result::Err(ErrorModel::PropertyNotArray("extends"@)),
        },
    }
}

/// The models of a list of category strings.
pub open spec fn strs_model(v: Seq<String>) -> Seq<Seq<char>> {
    v.map_values(|s: String| s@)
}

/// Reads the `extends` property, as `extends_outcome` describes.
#[verifier::loop_isolation(false)]
pub fn parse_extends(doc: &JsonValue) -> (r: Result<Option<Vec<String>>, ConfigError>)
    ensures
        extends_outcome(doc@) matches Ok(Option::None) ==> (r matches Ok(ro) && ro is None),
        extends_outcome(doc@) matches Ok(Option::Some(cats)) ==> (r matches Ok(ro)
            && ro matches Some(v) && strs_model(v@) == cats),
        extends_outcome(doc@) matches Err(e) ==> (r matches Err(re) && re@ == e),
{
    match json_get(doc, "extends") {
        Option::None => Result::Ok(Option::None),
        Option::Some(ext) => match ext {
            JsonValue::Arr(items) => {
                let ghost mitems = arr_model(items@);
                proof {
                    assert(ext@ == JsonModel::Arr(mitems));
                    assert(mitems.take(0) =~= Seq::<JsonModel>::empty());
                    assert(strs_model(Seq::<String>::empty()) =~= Seq::<Seq<char>>::empty());
                }
                let n = items.len();
                let mut out: Vec<String> = Vec::new();
                let mut i: usize = 0;
                while i < n
                    invariant
                        i <= n,
                        strs_model(out@) == extends_categories(mitems.take(i as int)),
                    decreases n - i,
                {
                    let add: Option<String> = match &items[i] {
                        JsonValue::Str(s) => preset_category_of(s.as_str()),
                        _ => None,
                    };
                    let ghost out0 = out@;
                    match add {
                        Option::Some(c) => {
                            out.push(c);
                            proof {
                                assert(strs_model(out@) =~= strs_model(out0).push(c@));
                            }
                        },
                        Option::None => {},
                    }
                    proof {
                        assert(mitems.take(i + 1).drop_last() =~= mitems.take(i as int));
                        assert(mitems.take(i + 1).last() == mitems[i as int]);
                    }
                    i = i + 1;
                }
                proof {
                    assert(mitems.take(n as int) =~= mitems);
                }
                Result::Ok(Option::Some(out))
            },
            _ => Result::Err(ConfigError::PropertyNotArray("extends".to_owned())),
        },
    }
}

} // verus!
