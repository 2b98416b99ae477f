//! Normalization of raw rule keys into a (category, name) pair.
//!
//! A key is split on its first `/`. Without one, the category is the default
//! `eslint` and the name is the whole key. With one, the part on the left has
//! every leading `@` stripped and one fixed alias folded (the scoped
//! typescript plugin name becomes the `typescript` category); the part on the
//! right is the rule name verbatim, even when it is empty.

use vstd::prelude::*;

use crate::text::str_eq;

verus! {

/// The implicit category of keys without a `/`.
pub open spec fn default_plugin() -> Seq<char> {
    "eslint"@
}

/// The one aliased category spelling: the scoped typescript plugin.
pub open spec fn scoped_ts_plugin() -> Seq<char> {
    "typescript-eslint"@
}

/// The canonical category that the alias folds into.
pub open spec fn ts_plugin() -> Seq<char> {
    "typescript"@
}

/// Index of the first `/` in `k`, or `-1` when there is none.
pub open spec fn slash_at(k: Seq<char>) -> int
    decreases k.len(),
{
    if k.len() == 0 {
        -1
    } else if k[0] == '/' {
        0
    } else {
        let r = slash_at(k.skip(1));
        if r < 0 {
            -1
        } else {
            r + 1
        }
    }
}

/// `slash_at` finds exactly the first `/`.
pub proof fn lemma_slash_at(k: Seq<char>)
    ensures
        slash_at(k) == -1 || 0 <= slash_at(k) < k.len(),
        slash_at(k) == -1 ==> forall|j: int| 0 <= j < k.len() ==> k[j] != '/',
        0 <= slash_at(k) ==> k[slash_at(k)] == '/' && (forall|j: int|
            0 <= j < slash_at(k) ==> k[j] != '/'),
    decreases k.len(),
{
    if k.len() == 0 {
    } else if k[0] == '/' {
    } else {
        lemma_slash_at(k.skip(1));
        assert(forall|j: int| 1 <= j < k.len() ==> k[j] == k.skip(1)[j - 1]);
    }
}

/// The category part with every leading `@` removed.
pub open spec fn strip_ats(c: Seq<char>) -> Seq<char>
    decreases c.len(),
{
    if c.len() > 0 && c[0] == '@' {
        strip_ats(c.skip(1))
    } else {
        c
    }
}

/// Folds the one fixed alias into its canonical category.
pub open spec fn alias_category(c: Seq<char>) -> Seq<char> {
    if c == scoped_ts_plugin() {
        ts_plugin()
    } else {
        c
    }
}

/// The category a raw key names.
pub open spec fn key_category(k: Seq<char>) -> Seq<char> {
    if slash_at(k) < 0 {
        default_plugin()
    } else {
        alias_category(strip_ats(k.take(slash_at(k))))
    }
}

/// The rule name a raw key names.
pub open spec fn key_name(k: Seq<char>) -> Seq<char> {
    if slash_at(k) < 0 {
        k
    } else {
        k.skip(slash_at(k) + 1)
    }
}

/// Splits a raw rule key into its normalized (category, name) pair.
#[verifier::loop_isolation(false)]
pub fn parse_rule_name(name: &str) -> (r: (String, String))
    ensures
        r.0@ == key_category(name@),
        r.1@ == key_name(name@),
{
    let len = name.unicode_len();
    let mut i: usize = 0;
    while i < len
        invariant
            i <= len,
            forall|j: int| 0 <= j < i ==> name@[j] != '/',
        decreases len - i,
    {
        if name.get_char(i) == '/' {
            proof {
                lemma_slash_at(name@);
                if slash_at(name@) != i as int {
                    assert(false);
                }
            }
            let cat_raw = name.substring_char(0, i);
            proof {
                assert(cat_raw@ =~= name@.take(i as int));
            }
            let mut cat: &str = cat_raw;
            let mut clen: usize = i;
            while clen > 0 && cat.get_char(0) == '@'
                invariant
                    clen == cat@.len(),
                    strip_ats(cat@) == strip_ats(name@.take(i as int)),
                decreases clen,
            {
                let next = cat.substring_char(1, clen);
                proof {
                    assert(next@ =~= cat@.skip(1));
                }
                cat = next;
                clen = clen - 1;
            }
            let category = if str_eq(cat, "typescript-eslint") {
                "typescript".to_owned()
            } else {
                cat.to_owned()
            };
            let rest = name.substring_char(i + 1, len);
            proof {
                assert(rest@ =~= name@.skip(i + 1));
            }
            return (category, rest.to_owned());
        }
        i = i + 1;
    }
    proof {
        lemma_slash_at(name@);
        if 0 <= slash_at(name@) {
            assert(false);
        }
    }
    ("eslint".to_owned(), name.to_owned())
}

} // verus!
