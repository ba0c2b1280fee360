//! The dataset model: features, browsers, and their version-indexed
//! support values, held as key-ordered association lists, together with a
//! verified lookup over them.

use vstd::prelude::*;

verus! {

/// A link attached to a feature (further reading on the capability).
pub struct FeatureLink {
    pub url: String,
    pub title: String,
}

/// The mathematical shape of a `FeatureLink`.
pub ghost struct FeatureLinkModel {
    pub url: Seq<char>,
    pub title: Seq<char>,
}

impl DeepView for FeatureLink {
    type V = FeatureLinkModel;

    open spec fn deep_view(&self) -> FeatureLinkModel {
        FeatureLinkModel { url: self.url@, title: self.title@ }
    }
}

/// One web-platform capability.
///
/// The usage percentages are held in hundredths of a percent (so `9743`
/// renders as `97.43`): exact fixed-point values, summed exactly.
/// `stats` maps a browser key to that browser's sparse mapping from
/// version label to support-level code; support levels are open-ended
/// strings (e.g. `"y"`, `"a"`, `"n"`, or compound codes).
pub struct Feature {
    pub title: String,
    pub description: String,
    pub spec_url: String,
    pub usage_perc_y: u32,
    pub usage_perc_a: u32,
    pub links: Vec<FeatureLink>,
    pub stats: Vec<(String, Vec<(String, String)>)>,
}

/// The mathematical shape of a `Feature`.
pub ghost struct FeatureModel {
    pub title: Seq<char>,
    pub description: Seq<char>,
    pub spec_url: Seq<char>,
    pub usage_perc_y: u32,
    pub usage_perc_a: u32,
    pub links: Seq<FeatureLinkModel>,
    pub stats: Seq<(Seq<char>, Seq<(Seq<char>, Seq<char>)>)>,
}

impl DeepView for Feature {
    type V = FeatureModel;

    open spec fn deep_view(&self) -> FeatureModel {
        FeatureModel {
            title: self.title@,
            description: self.description@,
            spec_url: self.spec_url@,
            usage_perc_y: self.usage_perc_y,
            usage_perc_a: self.usage_perc_a,
            links: self.links.deep_view(),
            stats: self.stats.deep_view(),
        }
    }
}

/// One rendering engine/vendor.
///
/// `versions` is the only valid ordering for compression; a `None` slot
/// means no version exists at that position and is skipped entirely.
pub struct Browser {
    pub browser: String,
    pub versions: Vec<Option<String>>,
}

/// The mathematical shape of a `Browser`.
pub ghost struct BrowserModel {
    pub browser: Seq<char>,
    pub versions: Seq<Option<Seq<char>>>,
}

impl DeepView for Browser {
    type V = BrowserModel;

    open spec fn deep_view(&self) -> BrowserModel {
        BrowserModel { browser: self.browser@, versions: self.versions.deep_view() }
    }
}

/// The full compatibility corpus: feature key to `Feature`, browser key
/// to `Browser`. Lookups are by key; the first entry with a given key
/// wins, and a well-formed corpus holds each key once.
pub struct CanIUse {
    pub data: Vec<(String, Feature)>,
    pub agents: Vec<(String, Browser)>,
}

/// First-match lookup in an association sequence: the meaning of every
/// keyed lookup in the corpus.
pub open spec fn assoc_find<V>(entries: Seq<(Seq<char>, V)>, key: Seq<char>) -> Option<V>
    decreases entries.len(),
{
    if entries.len() == 0 {
        None
    } else if entries[0].0 == key {
        Some(entries[0].1)
    } else {
        assoc_find(entries.drop_first(), key)
    }
}

/// Skipping entries whose key differs does not change a lookup.
proof fn lemma_assoc_find_skip<V>(entries: Seq<(Seq<char>, V)>, key: Seq<char>, i: int)
    requires
        0 <= i <= entries.len(),
        forall|j: int| 0 <= j < i ==> (#[trigger] entries[j]).0 != key,
    ensures
        assoc_find(entries, key) == assoc_find(entries.skip(i), key),
    decreases i,
{
    if i > 0 {
        lemma_assoc_find_skip(entries.drop_first(), key, i - 1);
        assert(entries.drop_first().skip(i - 1) =~= entries.skip(i));
    } else {
        assert(entries.skip(0) =~= entries);
    }
}

/// First-match lookup over a vector of key/value pairs, the executable
/// counterpart of `assoc_find`.
pub fn assoc_get<'a, V: DeepView>(entries: &'a Vec<(String, V)>, key: &String) -> (r: Option<
    &'a V,
>)
    ensures
        match r {
            Some(v) => assoc_find(entries.deep_view(), key@) == Some(v.deep_view()),
            None => assoc_find(entries.deep_view(), key@) is None,
        },
{
    let ghost model = entries.deep_view();
    let mut i: usize = 0;
    while i < entries.len()
        invariant
            0 <= i <= entries.len(),
            model == entries.deep_view(),
            forall|j: int| 0 <= j < i ==> (#[trigger] model[j]).0 != key@,
        decreases entries.len() - i,
    {
        if entries[i].0 == *key {
            proof {
                lemma_assoc_find_skip(model, key@, i as int);
                assert(model.skip(i as int)[0] == model[i as int]);
            }
            return Some(&entries[i].1);
        }
        i += 1;
    }
    proof {
        lemma_assoc_find_skip(model, key@, entries.len() as int);
        assert(model.skip(entries.len() as int) =~= Seq::<(Seq<char>, V::V)>::empty());
    }
    None
}

} // verus!
