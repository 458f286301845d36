//! Looking for a newer release: when to ask again, what the answer means,
//! and what the operator is told.

use crate::shell::{join_path, path_below};
use crate::teleport::opt_view;
use crate::text::{
    append_str, chars_of, contains, has_infix, same_str, slice_of, string_of, string_views,
    strip_leading,
};
use vstd::prelude::*;

verus! {

/// The file below the home directory that remembers the last check.
pub open spec fn cache_file_name() -> Seq<char> {
    ".th_update_check"@
}

/// Seconds between two checks.
pub const CHECK_INTERVAL_SECONDS: u64 = 86400;

/// What the last check found, and when.
pub struct UpdateCache {
    pub last_check: u64,
    pub latest_version: Option<String>,
    pub update_available: bool,
}

impl Default for UpdateCache {
    /// The cache before any check.
    fn default() -> (cache: UpdateCache)
        ensures
            cache.last_check == 0,
            cache.latest_version is None,
            !cache.update_available,
    {
        UpdateCache { last_check: 0, latest_version: None, update_available: false }
    }
}

/// Looks for newer releases of the version it was made for.
pub struct UpdateChecker {
    pub cache_path: String,
    pub current_version: String,
}

/// Whether the release `latest` is newer than `current`, as `semver` orders
/// versions; nothing where one of the two is no version.
pub uninterp spec fn semver_newer(latest: Seq<char>, current: Seq<char>) -> Option<bool>;

/// Parses both texts with `semver::Version::parse` and compares the
/// versions with `>`.
///
/// Trusted: the answer depends on the two texts alone, and is there exactly
/// when both parse. Nothing is claimed of which versions parse or how two
/// of them compare.
#[verifier::external_body]
fn version_newer(latest: &str, current: &str) -> (newer: Option<bool>)
    ensures
        newer == semver_newer(latest@, current@),
{
    match (semver::Version::parse(latest), semver::Version::parse(current)) {
        (Ok(l), Ok(c)) => Some(l > c),
        _ => None,
    }
}

/// Whether a cache is fresh at `now`: it was written by a check, not in the
/// future, and less than `interval` seconds ago.
pub open spec fn is_fresh(cache: UpdateCache, now: u64, interval: u64) -> bool {
    cache.last_check > 0 && cache.last_check <= now && now - cache.last_check < interval
}

/// What the operator is told of a release that is newer.
pub open spec fn notification_text(current: Seq<char>, latest: Seq<char>) -> Seq<char> {
    "📦 Update available: "@ + current + " → "@ + latest
        + " (run `th update` or `th changelog` for details)"@
}

/// The changelog of a release, under a heading that says whether it is
/// newer than the version that runs.
pub open spec fn changelog_text(
    current: Seq<char>,
    tag: Seq<char>,
    body: Seq<char>,
    newer: bool,
) -> Seq<char> {
    if newer {
        "## "@ + current + " → "@ + tag + "\n\n"@ + body
    } else {
        "## Current Version: "@ + current + "\n\nYou're running the latest version!\n\n"@ + body
    }
}

/// The words in the name of the binary for a platform, or nothing for a
/// platform that has none.
pub open spec fn asset_pattern_of(os: Seq<char>, arch: Seq<char>) -> Option<Seq<char>> {
    if os == "macos"@ {
        Some(
            "th-"@ + (if arch == "aarch64"@ {
                "aarch64"@
            } else {
                "x86_64"@
            }) + "-apple-darwin"@,
        )
    } else if os == "linux"@ {
        Some("th-"@ + arch + "-unknown-linux-gnu"@)
    } else if os == "windows"@ {
        Some("th-"@ + arch + ".exe"@)
    } else {
        None
    }
}

/// Whether an asset goes by the plain name of the binary.
pub open spec fn is_plain_binary(name: Seq<char>) -> bool {
    name == "th"@ || name == "th.exe"@
}

/// Whether position `i` is that of the asset to install: the first whose
/// name holds the pattern, or, where none does, the first with the plain
/// name of the binary.
pub open spec fn is_chosen_asset(names: Seq<Seq<char>>, pattern: Seq<char>, i: int) -> bool {
    &&& 0 <= i < names.len()
    &&& if exists|j: int| 0 <= j < names.len() && has_infix(#[trigger] names[j], pattern) {
        has_infix(names[i], pattern) && forall|j: int|
            0 <= j < i ==> !has_infix(#[trigger] names[j], pattern)
    } else {
        is_plain_binary(names[i]) && forall|j: int|
            0 <= j < i ==> !is_plain_binary(#[trigger] names[j])
    }
}

/// Whether some asset can be installed.
pub open spec fn has_asset(names: Seq<Seq<char>>, pattern: Seq<char>) -> bool {
    exists|j: int|
        0 <= j < names.len() && (has_infix(#[trigger] names[j], pattern) || is_plain_binary(
            names[j],
        ))
}

impl UpdateChecker {
    /// The checker for the version that runs, with its cache below the home
    /// directory. Without a home directory there is none.
    pub fn new(home: Option<&str>, current_version: &str) -> (checker: Option<UpdateChecker>)
        ensures
            match checker {
                Some(c) => home is Some && c.cache_path@ == path_below(
                    home->0@,
                    cache_file_name(),
                ) && c.current_version@ == current_version@,
                None => home is None,
            },
    {
        match home {
            None => None,
            Some(dir) => Some(
                UpdateChecker {
                    cache_path: join_path(dir, ".th_update_check"),
                    current_version: String::from_str(current_version),
                },
            ),
        }
    }

    /// The version that runs.
    pub fn get_current_version(&self) -> (version: String)
        ensures
            version@ == self.current_version@,
    {
        self.current_version.clone()
    }

    /// A checker of its own for a check in the background.
    pub fn clone_for_background(&self) -> (copy: UpdateChecker)
        ensures
            copy.cache_path@ == self.cache_path@,
            copy.current_version@ == self.current_version@,
    {
        UpdateChecker {
            cache_path: self.cache_path.clone(),
            current_version: self.current_version.clone(),
        }
    }

    /// What to tell the operator after a command: of a newer release, where
    /// the cache knows of one.
    pub fn should_show_update_notification(&self, cache: &UpdateCache) -> (note: Option<String>)
        ensures
            match note {
                Some(text) => cache.update_available && cache.latest_version is Some && text@
                    == notification_text(self.current_version@, cache.latest_version->0@),
                None => !cache.update_available || cache.latest_version is None,
            },
    {
        if !cache.update_available {
            return None;
        }
        match &cache.latest_version {
            None => None,
            Some(latest) => {
                let mut out = chars_of("📦 Update available: ");
                append_str(&mut out, self.current_version.as_str());
                append_str(&mut out, " → ");
                append_str(&mut out, latest.as_str());
                append_str(&mut out, " (run `th update` or `th changelog` for details)");
                Some(string_of(&out))
            },
        }
    }

    /// Whether the cache still answers at `now`, so that no release has to
    /// be fetched.
    pub fn cache_answers(&self, cache: &UpdateCache, now: u64, interval: u64) -> (b: bool)
        ensures
            b == is_fresh(*cache, now, interval),
    {
        cache.last_check > 0 && cache.last_check <= now && now - cache.last_check < interval
    }

    /// Whether the release tagged `tag` is newer than the version that
    /// runs. The tag may open with `v`. Nothing where the tag or the
    /// version that runs is no version.
    pub fn is_newer(&self, tag: &str) -> (newer: Option<bool>)
        ensures
            newer == semver_newer(strip_leading(tag@, 'v'), self.current_version@),
    {
        let chars = chars_of(tag);
        let mut k: usize = 0;
        while k < chars.len() && chars[k] == 'v'
            invariant
                k <= chars.len(),
                forall|j: int| 0 <= j < k ==> chars@[j] == 'v',
            decreases chars.len() - k,
        {
            k += 1;
        }
        let bare = slice_of(&chars, k, chars.len());
        proof {
            crate::text::lemma_strip_leading_is(chars@, 'v', k as int);
            assert(chars@.skip(k as int) =~= bare@);
        }
        let bare = string_of(&bare);
        version_newer(bare.as_str(), self.current_version.as_str())
    }

    /// The cache after a check at `now` that found the release tagged
    /// `tag`, `newer` or not than the version that runs.
    pub fn refreshed_cache(&self, now: u64, tag: &str, newer: bool) -> (cache: UpdateCache)
        ensures
            cache.last_check == now,
            opt_view(cache.latest_version) == Some(tag@),
            cache.update_available == newer,
    {
        UpdateCache {
            last_check: now,
            latest_version: Some(String::from_str(tag)),
            update_available: newer,
        }
    }

    /// The changelog of the release tagged `tag` as the operator is shown
    /// it.
    pub fn changelog(&self, tag: &str, body: &str, newer: bool) -> (text: String)
        ensures
            text@ == changelog_text(self.current_version@, tag@, body@, newer),
    {
        let mut out: Vec<char>;
        if newer {
            out = chars_of("## ");
            append_str(&mut out, self.current_version.as_str());
            append_str(&mut out, " → ");
            append_str(&mut out, tag);
            append_str(&mut out, "\n\n");
        } else {
            out = chars_of("## Current Version: ");
            append_str(&mut out, self.current_version.as_str());
            append_str(&mut out, "\n\nYou're running the latest version!\n\n");
        }
        append_str(&mut out, body);
        string_of(&out)
    }

    /// The words to look for in the name of the binary for a platform.
    pub fn asset_pattern(os: &str, arch: &str) -> (pattern: Option<String>)
        ensures
            opt_view(pattern) == asset_pattern_of(os@, arch@),
    {
        if same_str(os, "macos") {
            let mut out = chars_of("th-");
            if same_str(arch, "aarch64") {
                append_str(&mut out, "aarch64");
            } else {
                append_str(&mut out, "x86_64");
            }
            append_str(&mut out, "-apple-darwin");
            Some(string_of(&out))
        } else if same_str(os, "linux") {
            let mut out = chars_of("th-");
            append_str(&mut out, arch);
            append_str(&mut out, "-unknown-linux-gnu");
            Some(string_of(&out))
        } else if same_str(os, "windows") {
            let mut out = chars_of("th-");
            append_str(&mut out, arch);
            append_str(&mut out, ".exe");
            Some(string_of(&out))
        } else {
            None
        }
    }

    /// Position of the asset to install among the names of a release's
    /// assets.
    pub fn find_binary_asset(names: &Vec<String>, pattern: &str) -> (at: Option<usize>)
        ensures
            match at {
                Some(i) => is_chosen_asset(string_views(names@), pattern@, i as int),
                None => !has_asset(string_views(names@), pattern@),
            },
    {
        let ghost all = string_views(names@);
        let wanted = chars_of(pattern);
        let mut i: usize = 0;
        while i < names.len()
            invariant
                i <= names.len(),
                all == string_views(names@),
                wanted@ == pattern@,
                forall|j: int| 0 <= j < i ==> !has_infix(#[trigger] all[j], pattern@),
            decreases names.len() - i,
        {
            let name = chars_of(names[i].as_str());
            assert(all[i as int] == names@[i as int]@);
            if contains(&name, &wanted) {
                return Some(i);
            }
            i += 1;
        }
        let mut k: usize = 0;
        while k < names.len()
            invariant
                k <= names.len(),
                all == string_views(names@),
                forall|j: int| 0 <= j < all.len() ==> !has_infix(#[trigger] all[j], pattern@),
                forall|j: int| 0 <= j < k ==> !is_plain_binary(#[trigger] all[j]),
            decreases names.len() - k,
        {
            assert(all[k as int] == names@[k as int]@);
            if same_str(names[k].as_str(), "th") || same_str(names[k].as_str(), "th.exe") {
                return Some(k);
            }
            k += 1;
        }
        None
    }
}

/// What a check for updates came to.
pub struct CheckOutcome {
    /// Whether a newer release is known.
    pub update_available: bool,
    /// The cache to write, where the check fetched a release.
    pub save: Option<UpdateCache>,
}

impl UpdateChecker {
    /// What a check at `now` comes to once the latest release was asked
    /// for: `tag` is its tag, or nothing where it could not be fetched, in
    /// which case the cache answers. Nothing where the tag or the version
    /// that runs is no version.
    pub fn conclude_check(&self, cache: &UpdateCache, now: u64, tag: Option<&str>) -> (outcome:
        Option<CheckOutcome>)
        ensures
            match tag {
                None => outcome is Some && outcome->0.update_available == cache.update_available
                    && outcome->0.save is None,
                Some(t) => match semver_newer(strip_leading(t@, 'v'), self.current_version@) {
                    None => outcome is None,
                    Some(newer) => outcome is Some && outcome->0.update_available == newer
                        && outcome->0.save is Some && outcome->0.save->0.last_check == now
                        && opt_view(outcome->0.save->0.latest_version) == Some(t@)
                        && outcome->0.save->0.update_available == newer,
                },
            },
    {
        match tag {
            None => Some(CheckOutcome { update_available: cache.update_available, save: None }),
            Some(t) => match self.is_newer(t) {
                None => None,
                Some(newer) => Some(
                    CheckOutcome {
                        update_available: newer,
                        save: Some(self.refreshed_cache(now, t, newer)),
                    },
                ),
            },
        }
    }
}

} // verus!
