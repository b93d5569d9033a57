//! Selecting the tag to treat as "current" out of a repository's tag list:
//! tags are filtered by prefix when one is given, otherwise by whether their
//! leading dash-segment is a bare semantic version; the last survivor in
//! listing order wins, and an empty result synthesizes a `0.0.0` seed.

use vstd::prelude::*;

verus! {

use crate::opt_str_view;
use crate::semver_ext::is_semver;
use crate::semver_ext::semver_accepts;
use crate::strutil::split_on;
use crate::strutil::split_str;
use crate::strutil::str_starts_with;

/// Whether a tag survives the filter: with a prefix, the tag must start with
/// it; without one, the tag's leading dash-segment must be a bare semantic
/// version.
pub open spec fn tag_matches(t: Seq<char>, prefix: Option<Seq<char>>) -> bool {
    match prefix {
        Some(p) => t.len() >= p.len() && t.subrange(0, p.len() as int) == p,
        None => semver_accepts(split_on(t, '-')[0]),
    }
}

/// The tags that survive the filter, in their original order.
pub open spec fn filtered_tags(tags: Seq<Seq<char>>, prefix: Option<Seq<char>>) -> Seq<Seq<char>>
    decreases tags.len(),
{
    if tags.len() == 0 {
        Seq::<Seq<char>>::empty()
    } else {
        filtered_tags(tags.drop_last(), prefix) + (if tag_matches(tags.last(), prefix) {
            seq![tags.last()]
        } else {
            Seq::<Seq<char>>::empty()
        })
    }
}

/// The synthesized seed for an empty repository: `0.0.0`, prefixed and
/// suffixed with the requested prefix and option when given.
pub open spec fn zero_seed(prefix: Option<Seq<char>>, option: Option<Seq<char>>) -> Seq<char> {
    (match prefix {
        Some(p) => p + seq!['-'],
        None => Seq::<char>::empty(),
    }) + seq!['0', '.', '0', '.', '0'] + (match option {
        Some(o) => seq!['-'] + o,
        None => Seq::<char>::empty(),
    })
}

/// The bare seed for an empty repository parses back to version `0.0.0`
/// with no prefix, label or counter.
pub proof fn lemma_zero_seed_parses()
    ensures
        crate::version::parse_spec(zero_seed(None, None)) == Ok::<
            crate::version::VersionModel,
            crate::version::ParseError,
        >(
            crate::version::VersionModel {
                prefix: None,
                major: 0,
                minor: 0,
                patch: 0,
                label: None,
                rc_number: None,
            },
        ),
{
    let zero = crate::version::VersionModel {
        prefix: None,
        major: 0,
        minor: 0,
        patch: 0,
        label: None,
        rc_number: None,
    };
    crate::version::lemma_parse_render_roundtrip(zero);
    assert(crate::version::render_spec(zero) =~= zero_seed(None, None));
}

/// Picks the tag to treat as current: the last tag in listing order that
/// survives the filter, or the synthesized `0.0.0` seed when none does.
pub fn latest_matching(tags: &Vec<String>, prefix: Option<&str>, option: Option<&str>) -> (r:
    String)
    ensures
        filtered_tags(tags@.map_values(|t: String| t@), opt_str_view(prefix)).len() == 0 ==> r@
            == zero_seed(opt_str_view(prefix), opt_str_view(option)),
        filtered_tags(tags@.map_values(|t: String| t@), opt_str_view(prefix)).len() > 0 ==> r@
            == filtered_tags(tags@.map_values(|t: String| t@), opt_str_view(prefix)).last(),
{
    let ghost tviews = tags@.map_values(|t: String| t@);
    let mut best: Option<String> = None;
    let mut i: usize = 0;
    proof {
        assert(tviews.subrange(0, 0) =~~= Seq::<Seq<char>>::empty());
    }
    while i < tags.len()
        invariant
            tviews == tags@.map_values(|t: String| t@),
            0 <= i <= tags@.len(),
            best is None ==> filtered_tags(tviews.subrange(0, i as int), opt_str_view(prefix)).len()
                == 0,
            best matches Some(b) ==> filtered_tags(
                tviews.subrange(0, i as int),
                opt_str_view(prefix),
            ).len() > 0 && b@ == filtered_tags(
                tviews.subrange(0, i as int),
                opt_str_view(prefix),
            ).last(),
        decreases tags@.len() - i,
    {
        let tag = &tags[i];
        let matched: bool;
        match prefix {
            Some(p) => {
                matched = str_starts_with(tag.as_str(), p);
            },
            None => {
                let segs = split_str(tag.as_str(), '-');
                matched = is_semver(segs[0].as_str());
            },
        }
        proof {
            assert(matched == tag_matches(tviews[i as int], opt_str_view(prefix)));
            assert(tviews.subrange(0, i + 1).drop_last() =~~= tviews.subrange(0, i as int));
            assert(tviews.subrange(0, i + 1).last() == tviews[i as int]);
        }
        if matched {
            best = Some(tag.clone());
        }
        i += 1;
    }
    proof {
        assert(tviews.subrange(0, tags@.len() as int) =~~= tviews);
    }
    match best {
        Some(b) => b,
        None => {
            proof {
                reveal_strlit("0.0.0");
                reveal_strlit("-");
                assert("0.0.0"@ =~= seq!['0', '.', '0', '.', '0']);
                assert("-"@ =~= seq!['-']);
            }
            let mut seed = String::new();
            match prefix {
                Some(p) => {
                    seed.append(p);
                    seed.append("-");
                },
                None => {},
            }
            seed.append("0.0.0");
            match option {
                Some(o) => {
                    seed.append("-");
                    seed.append(o);
                },
                None => {},
            }
            proof {
                assert(seed@ =~= zero_seed(opt_str_view(prefix), opt_str_view(option)));
            }
            seed
        },
    }
}

} // verus!
