//! Where the profile of the service keeps its files, and which bundles it declares.
//!
//! A path is the list of the parts that it is joined from, in order.

use crate::json;
use crate::text;
use crate::text::CharClass;
use vstd::prelude::*;
use vstd::slice::*;
use vstd::string::*;

verus! {

/// Paths, each a list of parts.
pub open spec fn paths(v: Seq<Vec<String>>) -> Seq<Seq<Seq<char>>> {
    Seq::new(v.len(), |i: int| text::texts(v[i]@))
}

/// The home of the service: what `DSH_HOME` says where it says something, else `.dsh` in the home
/// of the user.
pub open spec fn home_parts(
    dsh_home: Option<Seq<char>>,
    home: Option<Seq<char>>,
) -> Seq<Seq<char>> {
    let fallback = match home {
        Some(h) => seq![h, ".dsh"@],
        None => seq![Seq::empty(), ".dsh"@],
    };
    match dsh_home {
        Some(h) => if h.len() > 0 {
            seq![h]
        } else {
            fallback
        },
        None => fallback,
    }
}

/// The home of the service, from the variables `DSH_HOME` and `HOME`.
pub fn dsh_home(given: Option<&str>, home: Option<&str>) -> (r: Vec<String>)
    ensures
        text::texts(r@) == home_parts(text::opt_str(given), text::opt_str(home)),
{
    let mut out: Vec<String> = Vec::new();
    assert(text::texts(out@) =~= Seq::<Seq<char>>::empty());
    match given {
        Some(h) => {
            let cs = text::to_chars(h);
            if cs.len() > 0 {
                text::push_text(&mut out, h);
                assert(text::texts(out@) =~= seq![h@]);
                return out;
            }
        },
        None => {},
    }
    match home {
        Some(h) => {
            text::push_text(&mut out, h);
        },
        None => {
            out.push(String::new());
            assert(text::texts(out@) =~= seq![Seq::<char>::empty()]);
        },
    }
    text::push_text(&mut out, ".dsh");
    assert(text::texts(out@) =~= home_parts(text::opt_str(given), text::opt_str(home)));
    out
}

/// The directory of the web profile.
pub fn profile_dir(home: &[String]) -> (r: Vec<String>)
    ensures
        text::texts(r@) == text::texts(home@) + seq!["profiles"@, "web"@],
{
    let mut out = text::copy_strings(home);
    text::push_text(&mut out, "profiles");
    text::push_text(&mut out, "web");
    assert(text::texts(out@) =~= text::texts(home@) + seq!["profiles"@, "web"@]);
    out
}

/// The patch layer of the user.
pub fn user_patch_path(home: &[String]) -> (r: Vec<String>)
    ensures
        text::texts(r@) == text::texts(home@) + seq!["profiles"@, "web"@, "cordis.patch.yml"@],
{
    let mut out = profile_dir(home);
    text::push_text(&mut out, "cordis.patch.yml");
    assert(text::texts(out@) =~= text::texts(home@) + seq![
        "profiles"@,
        "web"@,
        "cordis.patch.yml"@,
    ]);
    out
}

/// The overlay that safe mode is started with.
pub fn safe_mode_path(home: &[String]) -> (r: Vec<String>)
    ensures
        text::texts(r@) == text::texts(home@) + seq![
            "profiles"@,
            "web"@,
            "dsh-desktop-safe-mode.yml"@,
        ],
{
    let mut out = profile_dir(home);
    text::push_text(&mut out, "dsh-desktop-safe-mode.yml");
    assert(text::texts(out@) =~= text::texts(home@) + seq![
        "profiles"@,
        "web"@,
        "dsh-desktop-safe-mode.yml"@,
    ]);
    out
}

/// The description of the profile, which declares its bundles.
pub fn package_json_path(home: &[String]) -> (r: Vec<String>)
    ensures
        text::texts(r@) == text::texts(home@) + seq!["profiles"@, "web"@, "package.json"@],
{
    let mut out = profile_dir(home);
    text::push_text(&mut out, "package.json");
    assert(text::texts(out@) =~= text::texts(home@) + seq!["profiles"@, "web"@, "package.json"@]);
    out
}

// ---- bundles --------------------------------------------------------------------------------

/// The quoted texts in a list, up to the bracket that closes it, without white space at their
/// ends; blank ones are left out.
pub open spec fn listed(s: Seq<char>) -> Seq<Seq<char>>
    decreases s.len(),
{
    let i = text::first_of(s, CharClass::ListMark) as int;
    let t = s.skip(i + 1);
    let j = text::first_of(t, CharClass::Is('"')) as int;
    if i >= s.len() || s[i] == ']' || j >= t.len() {
        Seq::empty()
    } else {
        let item = text::trim(t.take(j));
        if item.len() > 0 {
            seq![item] + listed(t.skip(j + 1))
        } else {
            listed(t.skip(j + 1))
        }
    }
}

/// The texts in the list that the first key `bundles` has.
pub open spec fn bundles_in(s: Seq<char>) -> Seq<Seq<char>> {
    match json::value_of(s, "bundles"@) {
        Some(value) => if value.len() > 0 && value[0] == '[' {
            listed(value)
        } else {
            Seq::empty()
        },
        None => Seq::empty(),
    }
}

/// The bundles of a profile whose description declares none.
pub open spec fn known_bundles() -> Seq<Seq<char>> {
    seq!["@deepseek-ai/dsh-base"@, "@deepseek-ai/dsh-web-app"@]
}

fn read_list(s: &[char]) -> (r: Vec<String>)
    ensures
        text::texts(r@) == listed(s@),
{
    let mut out: Vec<String> = Vec::new();
    let mut rest: &[char] = s;
    assert(text::texts(out@) + listed(s@) =~= listed(s@));
    loop
        invariant
            text::texts(out@) + listed(rest@) == listed(s@),
        decreases rest@.len(),
    {
        let ghost now = rest@;
        let ghost before = text::texts(out@);
        let n = rest.len();
        let i = text::find_first_of(rest, CharClass::ListMark);
        if i == n || rest[i] == ']' {
            assert(before + listed(now) =~= before);
            return out;
        }
        let t = slice_subrange(rest, i + 1, n);
        assert(t@ =~= now.skip(i + 1));
        let j = text::find_first_of(t, CharClass::Is('"'));
        if j == t.len() {
            assert(before + listed(now) =~= before);
            return out;
        }
        let item = text::trimmed(slice_subrange(t, 0, j));
        assert(t@.subrange(0, j as int) =~= t@.take(j as int));
        rest = slice_subrange(t, j + 1, t.len());
        assert(rest@ =~= t@.skip(j + 1));
        if item.len() > 0 {
            out.push(text::to_text(item));
            assert(text::texts(out@) =~= before.push(item@));
            assert(before + (seq![item@] + listed(rest@)) =~= text::texts(out@) + listed(rest@));
        }
    }
}

/// Reads the bundles that a profile's description declares.
pub fn parse_bundles_json(s: &str) -> (r: Vec<String>)
    ensures
        text::texts(r@) == bundles_in(s@),
{
    let cs = text::to_chars(s);
    match json::find_value(cs.as_slice(), "bundles") {
        Some(value) => {
            if value.len() > 0 && value[0] == '[' {
                return read_list(value);
            }
        },
        None => {},
    }
    let out: Vec<String> = Vec::new();
    assert(text::texts(out@) =~= Seq::<Seq<char>>::empty());
    out
}

/// The bundles of a profile, from its description where that can be read.
pub fn declared_bundles(package_json: Option<&str>) -> (r: Vec<String>)
    ensures
        text::texts(r@) == (match package_json {
            Some(s) => if bundles_in(s@).len() > 0 {
                bundles_in(s@)
            } else {
                known_bundles()
            },
            None => known_bundles(),
        }),
{
    match package_json {
        Some(s) => {
            let out = parse_bundles_json(s);
            if out.len() > 0 {
                return out;
            }
        },
        None => {},
    }
    let mut out: Vec<String> = Vec::new();
    text::push_text(&mut out, "@deepseek-ai/dsh-base");
    text::push_text(&mut out, "@deepseek-ai/dsh-web-app");
    assert(text::texts(out@) =~= known_bundles());
    out
}

/// The directory that bundles are installed in: that of all profiles, or that of the web profile.
pub open spec fn modules_dir(home: Seq<Seq<char>>, own: bool) -> Seq<Seq<char>> {
    if own {
        home + seq!["profiles"@, "web"@, "node_modules"@]
    } else {
        home + seq!["profiles"@, "node_modules"@]
    }
}

/// Where the patch layers of `bundles` are in a directory.
pub open spec fn layers_in(dir: Seq<Seq<char>>, bundles: Seq<Seq<char>>) -> Seq<Seq<Seq<char>>> {
    Seq::new(bundles.len(), |i: int| dir + seq![bundles[i], "cordis.patch.yml"@])
}

fn push_layers(out: &mut Vec<Vec<String>>, dir: &[String], bundles: &[String])
    ensures
        paths(final(out)@) == paths(old(out)@) + layers_in(
            text::texts(dir@),
            text::texts(bundles@),
        ),
{
    let ghost all = layers_in(text::texts(dir@), text::texts(bundles@));
    let mut i: usize = 0;
    assert(paths(old(out)@) + all.take(0) =~= paths(old(out)@));
    while i < bundles.len()
        invariant
            i <= bundles@.len(),
            all == layers_in(text::texts(dir@), text::texts(bundles@)),
            paths(out@) == paths(old(out)@) + all.take(i as int),
        decreases bundles@.len() - i,
    {
        let ghost before = paths(out@);
        let mut p = text::copy_strings(dir);
        text::push_text(&mut p, bundles[i].as_str());
        text::push_text(&mut p, "cordis.patch.yml");
        assert(text::texts(p@) =~= all[i as int]);
        out.push(p);
        assert(paths(out@) =~= before.push(all[i as int]));
        i += 1;
        assert(all.take(i as int) =~= all.take(i - 1).push(all[i - 1]));
        assert(paths(out@) =~= paths(old(out)@) + all.take(i as int));
    }
    assert(all.take(i as int) =~= all);
}

/// Every place in which the patch layer of a bundle may be.
pub fn bundle_layer_paths(home: &[String], bundles: &[String]) -> (r: Vec<Vec<String>>)
    ensures
        paths(r@) == layers_in(modules_dir(text::texts(home@), false), text::texts(bundles@))
            + layers_in(modules_dir(text::texts(home@), true), text::texts(bundles@)),
{
    let mut shared = text::copy_strings(home);
    text::push_text(&mut shared, "profiles");
    text::push_text(&mut shared, "node_modules");
    assert(text::texts(shared@) =~= modules_dir(text::texts(home@), false));
    let mut own = profile_dir(home);
    text::push_text(&mut own, "node_modules");
    assert(text::texts(own@) =~= modules_dir(text::texts(home@), true));
    let mut out: Vec<Vec<String>> = Vec::new();
    assert(paths(out@) =~= Seq::<Seq<Seq<char>>>::empty());
    push_layers(&mut out, shared.as_slice(), bundles);
    push_layers(&mut out, own.as_slice(), bundles);
    let ghost a = layers_in(modules_dir(text::texts(home@), false), text::texts(bundles@));
    assert(Seq::<Seq<Seq<char>>>::empty() + a =~= a);
    out
}

} // verus!
