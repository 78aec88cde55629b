//! Environment profiles: overlays on a base configuration.
//!
//! The patch of the selected profile is merged onto the base: its top-level
//! keys replace those of the base, and the keys that only the base has stay.

use vstd::prelude::*;
use vstd::string::*;

use crate::json;
use crate::json::{value_copy, value_insert, value_members, JsonView};
use crate::text;
use crate::text::{ascii_lower, cat2, same, trimmed};
use crate::text_map::TextMap;

verus! {

/// The environment profiles.
#[derive(Debug, Clone, Copy, PartialEq, Eq, Structural)]
pub enum EnvProfile {
    Dev,
    Staging,
    Prod,
}

/// The key of a profile.
pub open spec fn key_of(p: EnvProfile) -> Seq<char> {
    match p {
        EnvProfile::Dev => "dev"@,
        EnvProfile::Staging => "staging"@,
        EnvProfile::Prod => "prod"@,
    }
}

/// The profile that a value of the environment variable selects: its key,
/// in any case, with white space around it.
pub open spec fn selected(value: Seq<char>) -> Option<EnvProfile> {
    let v = text::lower(text::trim(value));
    if v == "dev"@ {
        Some(EnvProfile::Dev)
    } else if v == "staging"@ {
        Some(EnvProfile::Staging)
    } else if v == "prod"@ {
        Some(EnvProfile::Prod)
    } else {
        None
    }
}

impl EnvProfile {
    /// The key of this profile in the overlay.
    pub fn key(self) -> (s: &'static str)
        ensures
            s@ == key_of(self),
    {
        match self {
            EnvProfile::Dev => "dev",
            EnvProfile::Staging => "staging",
            EnvProfile::Prod => "prod",
        }
    }

    /// The profile that a value of the environment variable selects.
    pub fn from_env_var(value: &str) -> (r: Option<Self>)
        ensures
            r == selected(value@),
    {
        let v = ascii_lower(trimmed(value).as_str());
        if same(v.as_str(), "dev") {
            Some(EnvProfile::Dev)
        } else if same(v.as_str(), "staging") {
            Some(EnvProfile::Staging)
        } else if same(v.as_str(), "prod") {
            Some(EnvProfile::Prod)
        } else {
            None
        }
    }
}

/// What `serde_yaml_ng::from_str` makes of a text as a JSON value: the value,
/// or the text of the error.
pub uninterp spec fn parsed_yaml(s: Seq<char>) -> Result<JsonView, Seq<char>>;

/// `serde_yaml_ng::from_str` of a text into a `serde_json::Value`. The value
/// depends on the text alone.
#[verifier::external_body]
fn parse_yaml(s: &str) -> (r: Result<serde_json::Value, String>)
    ensures
        match r {
            Ok(v) => parsed_yaml(s@) == Ok::<JsonView, Seq<char>>(json::held_value(v)),
            Err(e) => parsed_yaml(s@) == Err::<JsonView, Seq<char>>(e@),
        },
{
    serde_yaml_ng::from_str(s).map_err(|e| e.to_string())
}

/// What `serde_yaml_ng::to_string` makes of a JSON value: the text, or the
/// text of the error.
pub uninterp spec fn written_yaml(v: JsonView) -> Result<Seq<char>, Seq<char>>;

/// What writing gives.
pub open spec fn text_result(r: Result<String, String>) -> Result<Seq<char>, Seq<char>> {
    match r {
        Ok(s) => Ok(s@),
        Err(e) => Err(e@),
    }
}

/// `serde_yaml_ng::to_string` of a `serde_json::Value`.
#[verifier::external_body]
fn write_yaml(v: &serde_json::Value) -> (r: Result<String, String>)
    ensures
        text_result(r) == written_yaml(json::held_value(*v)),
{
    serde_yaml_ng::to_string(v).map_err(|e| e.to_string())
}

/// The members of a base with the first `n` of a patch put in.
pub open spec fn with_patch(
    base: Seq<(Seq<char>, JsonView)>,
    patch: Seq<(Seq<char>, JsonView)>,
    n: nat,
) -> Seq<(Seq<char>, JsonView)>
    decreases n,
{
    if n == 0 {
        base
    } else {
        json::put_member(
            with_patch(base, patch, (n - 1) as nat),
            patch[n - 1].0,
            patch[n - 1].1,
        )
    }
}

/// A patch merged onto a base: top-level keys of the patch replace those of
/// the base; where either is no object, the patch it is.
pub open spec fn merged(base: JsonView, patch: JsonView) -> JsonView {
    match (base, patch) {
        (JsonView::Object { members: b }, JsonView::Object { members: p }) => JsonView::Object {
            members: with_patch(b, p, p.len()),
        },
        _ => patch,
    }
}

/// A patch merged onto a base.
pub fn merge_json(base: &serde_json::Value, patch: &serde_json::Value) -> (r: serde_json::Value)
    ensures
        json::held_value(r) == merged(json::held_value(*base), json::held_value(*patch)),
{
    let base_members = value_members(base);
    let patch_members = value_members(patch);
    match (base_members, patch_members) {
        (Some(_), Some(m)) => {
            let ghost b = json::held_value(*base)->members;
            let ghost p = json::held_members(m@);
            let mut out = value_copy(base);
            let mut i: usize = 0;
            while i < m.len()
                invariant
                    i <= m.len(),
                    p == json::held_members(m@),
                    json::held_value(out) == (JsonView::Object {
                        members: with_patch(b, p, i as nat),
                    }),
                decreases m.len() - i,
            {
                let (key, value) = m[i];
                assert(p[i as int] == (key@, json::held_value(*value)));
                value_insert(&mut out, key, value_copy(value));
                i = i + 1;
            }
            out
        },
        _ => value_copy(patch),
    }
}

/// What merging texts gives: the merged text, or the text of the error.
pub open spec fn merged_text(base: Seq<char>, patch: Seq<char>) -> Result<Seq<char>, Seq<char>> {
    match parsed_yaml(base) {
        Err(e) => Err("base config parse failed: "@ + e),
        Ok(b) => match parsed_yaml(patch) {
            Err(e) => Err("profile patch parse failed: "@ + e),
            Ok(p) => match written_yaml(merged(b, p)) {
                Err(e) => Err("merged serialize failed: "@ + e),
                Ok(s) => Ok(s),
            },
        },
    }
}

/// A patch merged onto a base, both of them as texts.
pub fn merge_yaml(base_yaml: &str, patch_yaml: &str) -> (r: Result<String, String>)
    ensures
        text_result(r) == merged_text(base_yaml@, patch_yaml@),
{
    let base = match parse_yaml(base_yaml) {
        Ok(v) => v,
        Err(e) => {
            return Err(cat2("base config parse failed: ", e.as_str()));
        },
    };
    let patch = match parse_yaml(patch_yaml) {
        Ok(v) => v,
        Err(e) => {
            return Err(cat2("profile patch parse failed: ", e.as_str()));
        },
    };
    match write_yaml(&merge_json(&base, &patch)) {
        Ok(s) => Ok(s),
        Err(e) => Err(cat2("merged serialize failed: ", e.as_str())),
    }
}

/// A base configuration and the patches of the profiles.
pub struct ProfileOverlay {
    pub base_config: String,
    pub profile_overrides: TextMap<String>,
}

/// What an overlay is.
#[verifier::ext_equal]
pub struct OverlayView {
    pub base: Seq<char>,
    pub patches: Map<Seq<char>, Seq<char>>,
}

impl View for ProfileOverlay {
    type V = OverlayView;

    open spec fn view(&self) -> OverlayView {
        OverlayView {
            base: self.base_config@,
            patches: self.profile_overrides@.map_values(|s: String| s@),
        }
    }
}

/// The configuration with the selected profile applied.
#[derive(Debug, Clone, PartialEq, Eq)]
pub struct AppliedProfile {
    pub config_yaml: String,
    pub profile: Option<EnvProfile>,
}

/// The profile that an environment variable selects, if it is set.
pub open spec fn selection(value: Option<Seq<char>>) -> Option<EnvProfile> {
    match value {
        Some(v) => selected(v),
        None => None,
    }
}

/// The configuration with the selected profile applied: the base itself
/// where no profile is selected or the profile has no patch.
pub open spec fn applied(o: OverlayView, profile: Option<EnvProfile>) -> Result<
    Seq<char>,
    Seq<char>,
> {
    match profile {
        None => Ok(o.base),
        Some(p) => if o.patches.dom().contains(key_of(p)) {
            merged_text(o.base, o.patches[key_of(p)])
        } else {
            Ok(o.base)
        },
    }
}

/// Applies the profile that the value of the environment variable selects.
pub fn apply_profile(overlay: &ProfileOverlay, value: Option<&str>) -> (r: Result<
    AppliedProfile,
    String,
>)
    ensures
        match (r, applied(overlay@, selection(text::opt_str(value)))) {
            (Ok(a), Ok(w)) => a.config_yaml@ == w && a.profile == selection(
                text::opt_str(value),
            ),
            (Err(e), Err(w)) => e@ == w,
            _ => false,
        },
{
    let profile = match value {
        Some(v) => EnvProfile::from_env_var(v),
        None => None,
    };
    match profile {
        None => Ok(AppliedProfile { config_yaml: overlay.base_config.clone(), profile: None }),
        Some(p) => match overlay.profile_overrides.get(p.key()) {
            None => Ok(
                AppliedProfile { config_yaml: overlay.base_config.clone(), profile: Some(p) },
            ),
            Some(patch) => match merge_yaml(overlay.base_config.as_str(), patch.as_str()) {
                Ok(config_yaml) => Ok(AppliedProfile { config_yaml, profile: Some(p) }),
                Err(e) => Err(e),
            },
        },
    }
}

// ---------------------------------------------------------------------------
// Laws
// ---------------------------------------------------------------------------

proof fn lemma_put_member(
    m: Seq<(Seq<char>, JsonView)>,
    key: Seq<char>,
    value: JsonView,
    other: Seq<char>,
)
    ensures
        json::member_of(json::put_member(m, key, value), other) == if other == key {
            Some(value)
        } else {
            json::member_of(m, other)
        },
    decreases m.len(),
{
    let r = json::put_member(m, key, value);
    if m.len() == 0 {
        assert(r.skip(1) =~= Seq::<(Seq<char>, JsonView)>::empty());
        reveal_with_fuel(json::member_of, 2);
    } else if m[0].0 == key {
        assert(r.skip(1) =~= m.skip(1));
    } else if text::precedes(key, m[0].0) {
        assert(r.skip(1) =~= m);
    } else {
        assert(r.skip(1) =~= json::put_member(m.skip(1), key, value));
        lemma_put_member(m.skip(1), key, value, other);
    }
}

/// Whether a key is among the first `n` of a patch.
pub open spec fn in_patch(patch: Seq<(Seq<char>, JsonView)>, key: Seq<char>, n: nat) -> bool {
    exists|i: int| 0 <= i < n && (#[trigger] patch[i]).0 == key
}

proof fn lemma_with_patch_keeps(
    base: Seq<(Seq<char>, JsonView)>,
    patch: Seq<(Seq<char>, JsonView)>,
    n: nat,
    key: Seq<char>,
)
    requires
        n <= patch.len(),
        !in_patch(patch, key, n),
    ensures
        json::member_of(with_patch(base, patch, n), key) == json::member_of(base, key),
    decreases n,
{
    if n > 0 {
        assert(patch[n - 1].0 != key);
        assert(!in_patch(patch, key, (n - 1) as nat)) by {
            if in_patch(patch, key, (n - 1) as nat) {
                let i = choose|i: int| 0 <= i < n - 1 && (#[trigger] patch[i]).0 == key;
                assert(patch[i].0 == key);
            }
        }
        lemma_with_patch_keeps(base, patch, (n - 1) as nat, key);
        lemma_put_member(
            with_patch(base, patch, (n - 1) as nat),
            patch[n - 1].0,
            patch[n - 1].1,
            key,
        );
    }
}

/// A key that only the base has keeps its value.
pub proof fn law_keys_of_the_base_stay(
    base: Seq<(Seq<char>, JsonView)>,
    patch: Seq<(Seq<char>, JsonView)>,
    key: Seq<char>,
)
    requires
        !in_patch(patch, key, patch.len()),
    ensures
        json::member(
            merged(JsonView::Object { members: base }, JsonView::Object { members: patch }),
            key,
        ) == json::member_of(base, key),
{
    lemma_with_patch_keeps(base, patch, patch.len(), key);
}

proof fn lemma_with_patch_sets(
    base: Seq<(Seq<char>, JsonView)>,
    patch: Seq<(Seq<char>, JsonView)>,
    n: nat,
    i: int,
)
    requires
        n <= patch.len(),
        0 <= i < n,
        forall|a: int, b: int|
            0 <= a < b < patch.len() ==> (#[trigger] patch[a]).0 != (#[trigger] patch[b]).0,
    ensures
        json::member_of(with_patch(base, patch, n), patch[i].0) == Some(patch[i].1),
    decreases n,
{
    let before = with_patch(base, patch, (n - 1) as nat);
    lemma_put_member(before, patch[n - 1].0, patch[n - 1].1, patch[i].0);
    if i < n - 1 {
        assert(patch[i].0 != patch[n - 1].0);
        lemma_with_patch_sets(base, patch, (n - 1) as nat, i);
    }
}

/// A key of the patch has the value of the patch, whatever the base holds
/// under it: collections are replaced, not appended to.
pub proof fn law_keys_of_the_patch_win(
    base: Seq<(Seq<char>, JsonView)>,
    patch: Seq<(Seq<char>, JsonView)>,
    i: int,
)
    requires
        0 <= i < patch.len(),
        forall|a: int, b: int|
            0 <= a < b < patch.len() ==> (#[trigger] patch[a]).0 != (#[trigger] patch[b]).0,
    ensures
        json::member(
            merged(JsonView::Object { members: base }, JsonView::Object { members: patch }),
            patch[i].0,
        ) == Some(patch[i].1),
{
    lemma_with_patch_sets(base, patch, patch.len(), i);
}

/// Without a selected profile, or with one that has no patch, the base is
/// used as it is.
pub proof fn law_base_is_used_without_a_patch(o: OverlayView, value: Option<Seq<char>>)
    requires
        selection(value) is None || !o.patches.dom().contains(key_of(selection(value)->0)),
    ensures
        applied(o, selection(value)) == Ok::<Seq<char>, Seq<char>>(o.base),
{
}

/// A profile is selected by its name, in whatever case and with white space
/// around it; no other value selects one.
pub proof fn law_profiles_are_selected_by_name(value: Seq<char>)
    ensures
        ({
            let v = text::lower(text::trim(value));
            &&& selected(value) == Some(EnvProfile::Dev) <==> v == "dev"@
            &&& selected(value) == Some(EnvProfile::Staging) <==> v == "staging"@
            &&& selected(value) == Some(EnvProfile::Prod) <==> v == "prod"@
            &&& selected(value) is None <==> v != "dev"@ && v != "staging"@ && v != "prod"@
        }),
        key_of(EnvProfile::Dev) == "dev"@,
        key_of(EnvProfile::Staging) == "staging"@,
        key_of(EnvProfile::Prod) == "prod"@,
{
    reveal_strlit("dev");
    reveal_strlit("staging");
    reveal_strlit("prod");
    assert("dev"@.len() == 3 && "staging"@.len() == 7 && "prod"@.len() == 4);
}

/// The patch of the selected profile is laid over the base: the result is
/// that of the two documents merged, and there is none if either cannot be
/// read.
pub proof fn law_patch_is_laid_over_the_base(o: OverlayView, p: EnvProfile)
    requires
        o.patches.dom().contains(key_of(p)),
    ensures
        ({
            let r = applied(o, Some(p));
            let base = parsed_yaml(o.base);
            let patch = parsed_yaml(o.patches[key_of(p)]);
            &&& base is Err || patch is Err ==> r is Err
            &&& base is Ok && patch is Ok ==> (r is Ok <==> written_yaml(
                merged(base->Ok_0, patch->Ok_0),
            ) is Ok)
            &&& r is Ok ==> r->Ok_0 == written_yaml(merged(base->Ok_0, patch->Ok_0))->Ok_0
        }),
{
}

/// A patch that is no object, or one over a base that is none, takes its
/// place as a whole.
pub proof fn law_other_patches_replace(base: JsonView, patch: JsonView)
    requires
        !(base is Object) || !(patch is Object),
    ensures
        merged(base, patch) == patch,
{
}

} // verus!
