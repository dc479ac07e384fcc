//! `shikumi_tier` segment — which shikumi apps run under a tier
//! override: each app whose `<APP>_TIER` variable is set, with the tier.

use vstd::prelude::*;
use crate::text::{chars_of, push_char, to_uppercase, uppercase};

verus! {

broadcast use vstd::string::group_string_axioms;

/// `s` with every `-` replaced by `_`.
pub open spec fn dashes_to_underscores(s: Seq<char>) -> Seq<char> {
    Seq::new(
        s.len(),
        |i: int|
            if s[i] == '-' {
                '_'
            } else {
                s[i]
            },
    )
}

/// The tier variable of an app, from its uppercased name:
/// `-` → `_`, then `_TIER`.
pub open spec fn tier_var_spec(upper: Seq<char>) -> Seq<char> {
    dashes_to_underscores(upper) + "_TIER"@
}

/// Builds the tier variable name from an app's uppercased name.
pub fn tier_var_from_upper(upper: &str) -> (out: String)
    ensures
        out@ == tier_var_spec(upper@),
{
    let v = chars_of(upper);
    let mut out = String::new();
    let mut i: usize = 0;
    while i < v.len()
        invariant
            0 <= i <= v@.len(),
            v@ == upper@,
            out@ == dashes_to_underscores(v@).take(i as int),
        decreases v.len() - i,
    {
        let c = if v[i] == '-' {
            '_'
        } else {
            v[i]
        };
        push_char(&mut out, c);
        i = i + 1;
        assert(out@ =~= dashes_to_underscores(v@).take(i as int));
    }
    out.append("_TIER");
    assert(dashes_to_underscores(v@).take(v@.len() as int) =~= dashes_to_underscores(v@));
    out
}

/// The tier variable of the app named `app`.
pub open spec fn app_tier_var(app: Seq<char>) -> Seq<char> {
    tier_var_spec(uppercase(app))
}

/// The names of a list of apps.
pub open spec fn names_view(apps: Seq<String>) -> Seq<Seq<char>> {
    apps.map_values(|a: String| a@)
}

/// The `(app, tier)` pairs of a result list.
pub open spec fn pairs_view(xs: Seq<(String, String)>) -> Seq<(Seq<char>, Seq<char>)> {
    xs.map_values(|x: (String, String)| (x.0@, x.1@))
}

/// The apps whose lookup found a tier, each with that tier, in order.
pub open spec fn hits(apps: Seq<Seq<char>>, found: Seq<Option<String>>) -> Seq<
    (Seq<char>, Seq<char>),
>
    decreases apps.len(),
{
    if apps.len() == 0 || found.len() == 0 {
        Seq::empty()
    } else {
        let init = hits(apps.drop_last(), found.drop_last());
        match found.last() {
            Some(t) => init.push((apps.last(), t@)),
            None => init,
        }
    }
}

/// `out` is what scanning `apps` gives when `lookup` was asked for each
/// app's tier variable (`keys[i]`) and answered `found[i]`.
pub open spec fn scanned<F: Fn(&str) -> Option<String>>(
    lookup: F,
    apps: Seq<Seq<char>>,
    keys: Seq<&str>,
    found: Seq<Option<String>>,
    out: Seq<(Seq<char>, Seq<char>)>,
) -> bool {
    &&& keys.len() == apps.len()
    &&& found.len() == apps.len()
    &&& forall|i: int|
        0 <= i < apps.len() ==> (#[trigger] keys[i])@ == app_tier_var(apps[i]) && lookup.ensures(
            (keys[i],),
            found[i],
        )
    &&& out == hits(apps, found)
}

/// For each app in order, looks up `<APP>_TIER` (the name uppercased,
/// `-` → `_`) and keeps `(app, tier)` when the lookup answers.
pub fn scan_env<F>(apps: &[String], lookup: F) -> (out: Vec<(String, String)>)
    where
        F: Fn(&str) -> Option<String>,
    requires
        forall|k: &str| lookup.requires((k,)),
    ensures
        exists|keys: Seq<&str>, found: Seq<Option<String>>|
            #[trigger] scanned(lookup, names_view(apps@), keys, found, pairs_view(out@)),
{
    let mut out: Vec<(String, String)> = Vec::new();
    let ghost mut keys: Seq<&str> = Seq::empty();
    let ghost mut found: Seq<Option<String>> = Seq::empty();
    let ghost names = names_view(apps@);
    assert(pairs_view(out@) =~= Seq::<(Seq<char>, Seq<char>)>::empty());
    assert(names.take(0) =~= Seq::<Seq<char>>::empty());
    let mut i: usize = 0;
    while i < apps.len()
        invariant
            0 <= i <= apps@.len(),
            names == names_view(apps@),
            forall|k: &str| lookup.requires((k,)),
            scanned(lookup, names.take(i as int), keys, found, pairs_view(out@)),
        decreases apps.len() - i,
    {
        let up = to_uppercase(apps[i].as_str());
        let name = tier_var_from_upper(up.as_str());
        let key = name.as_str();
        let r = lookup(key);
        let ghost old_out = out@;
        let ghost old_keys = keys;
        let ghost old_found = found;
        let ghost ts = names.take(i + 1);
        proof {
            keys = keys.push(key);
            found = found.push(r);
            assert(ts.drop_last() =~= names.take(i as int));
            assert(found.drop_last() =~= old_found);
            assert(ts.last() == apps@[i as int]@);
            assert forall|j: int| 0 <= j < ts.len() implies (#[trigger] keys[j])@ == app_tier_var(
                ts[j],
            ) && lookup.ensures((keys[j],), found[j]) by {
                if j < i {
                    assert(keys[j] == old_keys[j]);
                    assert(found[j] == old_found[j]);
                    assert(ts[j] == names.take(i as int)[j]);
                }
            }
        }
        match r {
            Some(t) => {
                let a = apps[i].clone();
                proof {
                    assert(a@ == apps@[i as int]@);
                }
                out.push((a, t));
                assert(pairs_view(out@) =~= pairs_view(old_out).push((apps@[i as int]@, t@)));
            },
            None => {},
        }
        assert(pairs_view(out@) == hits(ts, found));
        i = i + 1;
    }
    assert(names.take(apps@.len() as int) =~= names);
    assert(scanned(lookup, names, keys, found, pairs_view(out@)));
    out
}

} // verus!
